//! The window's state machine and what it shows.

use simple_rust_downloader::app_iced::{flag_char, update, view, Command, Message, State};

#[test]
fn window_starts_with_every_box_ticked() {
    let s = State::default();
    assert_eq!(
        s.url,
        "https://dl.chughtailibrary.com/files/repository/book_quest/history_geography/2/pdf_images/"
    );
    assert!(s.download_pdfs && s.download_imgs && s.scan_subfolders);
    assert!(!s.is_downloading && !s.override_existing_files);
}

#[test]
fn tick_boxes_answer_y_or_n() {
    assert_eq!(flag_char(true), 'y');
    assert_eq!(flag_char(false), 'n');
}

#[test]
fn download_round_trip() {
    let mut s = State::default();
    assert_eq!(update(&mut s, Message::UrlChanged("https://x.example/".to_string())), Command::Nothing);
    assert_eq!(update(&mut s, Message::ImgToggle(false)), Command::Nothing);
    let before = s.clone();
    let cmd = update(&mut s, Message::DownloadPressed);
    assert_eq!(
        cmd,
        Command::StartDownload {
            url: "https://x.example/".to_string(),
            download_pdfs: 'y',
            download_imgs: 'n',
            scan_subfolders: 'y',
        }
    );
    assert!(s.is_downloading);
    let v = view(&s);
    assert!(!v.download_enabled && !v.convert_enabled);
    assert_eq!(v.download_label, "Downloading");
    assert_eq!(v.convert_label, "Wait for downloading to complete...");
    assert_eq!(update(&mut s, Message::DownloadFinished("done".to_string())), Command::NotifyDownloadFinished);
    assert_eq!(s, before);
    let v = view(&s);
    assert!(v.download_enabled && v.convert_enabled);
    assert_eq!(v.download_label, "Download");
    assert_eq!(v.convert_label, "Convert Img to PDF");
}

#[test]
fn toggles_and_conversion() {
    let mut s = State::default();
    assert_eq!(update(&mut s, Message::PdfToggle(false)), Command::Nothing);
    assert_eq!(update(&mut s, Message::SubfolderToggle(false)), Command::Nothing);
    assert_eq!(update(&mut s, Message::OverrideToggle(true)), Command::Nothing);
    assert!(!s.download_pdfs && !s.scan_subfolders && s.override_existing_files);
    let before = s.clone();
    assert_eq!(update(&mut s, Message::ConvertToPdfPressed), Command::ConvertToPdf);
    assert_eq!(s, before);
}

#[test]
fn downloading_until_the_last_press_is_finished() {
    let mut s = State::default();
    let steps = vec![
        (Message::DownloadPressed, true),
        (Message::PdfToggle(false), true),
        (Message::DownloadFinished("x".to_string()), false),
        (Message::ConvertToPdfPressed, false),
        (Message::DownloadPressed, true),
        (Message::DownloadPressed, true),
        (Message::DownloadFinished("y".to_string()), false),
    ];
    for (m, downloading) in steps {
        update(&mut s, m);
        assert_eq!(s.is_downloading, downloading);
    }
}

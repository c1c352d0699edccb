//! The sequential crawler: entries of listing pages, where things go, and
//! the depth-first order of a crawl.

use simple_rust_downloader::crawler::{
    download_file_from_url_with_folder, extract_table, flag_enabled, get_images, get_table,
    download_target, read_lines, read_urls_from_file, should_fetch, size_in_mb, Crawler, DownloadTarget, EntryOutcome,
    FileDownload, FileKind,
};
use simple_rust_downloader::listing::{listing_rows, ListingRow};

const PAGE: &str = "https://dl.example.org/files/books/";

const LISTING: &str = r#"<html><body><h1>Index of /files/books</h1><table>
<tr><th><img src="/icons/blank.gif" alt="[ICO]"></th><th><a href="?C=N;O=D">Name</a></th></tr>
<tr><td><img src="/icons/back.gif" alt="[PARENTDIR]"></td><td><a href="/files/">Parent Directory</a></td></tr>
<tr><td><img src="/icons/folder.gif" alt="[DIR]"></td><td><a href="sub/">sub/</a></td></tr>
<tr><td><img src="/icons/image2.gif" alt="[IMG]"></td><td><a href="001.jpg">001.jpg</a></td></tr>
<tr><td><img src="/icons/layout.gif" alt="[   ]"></td><td><a href="book.pdf">book.pdf</a></td></tr>
<tr><td><img src="/icons/text.gif" alt="[TXT]"></td><td><a href="notes.txt">notes.txt</a></td></tr>
</table></body></html>"#;

fn alt(s: &str) -> Option<String> {
    Some(s.to_string())
}

fn s(x: &str) -> String {
    x.to_string()
}

#[test]
fn answers_y_and_upper_y_switch_on() {
    assert!(flag_enabled('y'));
    assert!(flag_enabled('Y'));
    assert!(!flag_enabled('n'));
    assert!(!flag_enabled('x'));
}

#[test]
fn image_entry_is_downloaded_into_its_folder() {
    let r = get_images(&alt("[IMG]"), "pdf_images/001.jpg", PAGE, "Download/", 'n', 'y', 'n');
    assert_eq!(
        r,
        EntryOutcome::Download {
            url: s("https://dl.example.org/files/books/pdf_images/001.jpg"),
            folder: s("Download/pdf_images/"),
        }
    );
}

#[test]
fn file_folder_keeps_first_two_link_pieces() {
    let r = get_images(&alt("[   ]"), "a/b/c/book.pdf", PAGE, "Download/x/", 'y', 'n', 'n');
    assert_eq!(
        r,
        EntryOutcome::Download {
            url: s("https://dl.example.org/files/books/a/b/c/book.pdf"),
            folder: s("Download/x/a/b"),
        }
    );
}

#[test]
fn file_name_is_taken_out_of_the_folder_everywhere_but_the_root() {
    let r = get_images(&alt("[IMG]"), "x/x", "https://h.com/", "Download/", 'n', 'y', 'n');
    assert_eq!(r, EntryOutcome::Download { url: s("https://h.com/x/x"), folder: s("Download//") });
    let r = get_images(&alt("[IMG]"), "a/b/c/a", PAGE, "Download/", 'n', 'y', 'n');
    assert_eq!(
        r,
        EntryOutcome::Download { url: s("https://dl.example.org/files/books/a/b/c/a"), folder: s("Download//b") }
    );
    let r = get_images(&alt("[   ]"), "load", "https://h.com/", "Download/", 'y', 'n', 'n');
    assert_eq!(r, EntryOutcome::Download { url: s("https://h.com/load"), folder: s("Download/") });
}

#[test]
fn folder_outside_the_root_loses_every_occurrence_of_the_name() {
    let r = get_images(&alt("[IMG]"), "x/x", "https://h.com/", "x/", 'n', 'y', 'n');
    assert_eq!(r, EntryOutcome::Download { url: s("https://h.com/x/x"), folder: s("//") });
    let r = get_images(&alt("[IMG]"), "ab/abab", "https://h.com/", "", 'n', 'y', 'n');
    assert_eq!(r, EntryOutcome::Download { url: s("https://h.com/ab/abab"), folder: s("ab/") });
}

#[test]
fn folder_entry_is_created_and_visited() {
    let r = get_images(&alt("[DIR]"), "sub/", PAGE, "Download/", 'n', 'n', 'Y');
    assert_eq!(
        r,
        EntryOutcome::Subfolder {
            create: Some(s("Download/sub/")),
            url: s("https://dl.example.org/files/books/sub/"),
            file_path: s("Download/sub/"),
        }
    );
    let off = get_images(&alt("[DIR]"), "sub/", PAGE, "Download/", 'y', 'y', 'n');
    assert_eq!(off, EntryOutcome::Nothing);
}

#[test]
fn parent_icons_and_missing_alt_do_nothing() {
    assert_eq!(get_images(&alt("[PARENTDIR]"), "/files/", PAGE, "Download/", 'y', 'y', 'y'), EntryOutcome::Nothing);
    assert_eq!(get_images(&alt("[ICO]"), "?C=N;O=D", PAGE, "Download/", 'y', 'y', 'y'), EntryOutcome::Nothing);
    assert_eq!(get_images(&None, "x.jpg", PAGE, "Download/", 'y', 'y', 'y'), EntryOutcome::Nothing);
}

#[test]
fn files_left_alone_are_reported() {
    assert_eq!(
        get_images(&alt("[IMG]"), "1.jpg", PAGE, "Download/", 'y', 'n', 'y'),
        EntryOutcome::NotDownloaded { kind: FileKind::Image, link: s("https://dl.example.org/files/books/1.jpg") }
    );
    assert_eq!(
        get_images(&alt("[   ]"), "b.pdf", PAGE, "Download/", 'n', 'y', 'y'),
        EntryOutcome::NotDownloaded { kind: FileKind::Pdf, link: s("https://dl.example.org/files/books/b.pdf") }
    );
    assert_eq!(
        get_images(&alt("[TXT]"), "n.txt", PAGE, "Download/", 'y', 'y', 'y'),
        EntryOutcome::Unrecognised { link: s("https://dl.example.org/files/books/n.txt") }
    );
}

#[test]
fn listing_rows_are_read_from_the_page() {
    let rows = listing_rows(LISTING);
    assert_eq!(rows.len(), 6);
    assert_eq!(rows[0], ListingRow { hrefs: vec![s("?C=N;O=D")], img_alts: vec![alt("[ICO]")] });
    assert_eq!(rows[2], ListingRow { hrefs: vec![s("sub/")], img_alts: vec![alt("[DIR]")] });
    assert_eq!(rows[4], ListingRow { hrefs: vec![s("book.pdf")], img_alts: vec![alt("[   ]")] });
    let empty = listing_rows("<p>no table here</p>");
    assert!(empty.is_empty());
}

#[test]
fn page_entries_follow_the_listing() {
    let out = get_table(PAGE, "Download/", 'y', 'y', 'y', LISTING);
    assert_eq!(
        out,
        vec![
            EntryOutcome::Nothing,
            EntryOutcome::Nothing,
            EntryOutcome::Subfolder {
                create: Some(s("Download/sub/")),
                url: s("https://dl.example.org/files/books/sub/"),
                file_path: s("Download/sub/"),
            },
            EntryOutcome::Download { url: s("https://dl.example.org/files/books/001.jpg"), folder: s("Download/") },
            EntryOutcome::Download { url: s("https://dl.example.org/files/books/book.pdf"), folder: s("Download/") },
            EntryOutcome::Unrecognised { link: s("https://dl.example.org/files/books/notes.txt") },
        ]
    );
}

#[test]
fn every_link_meets_every_image_of_its_row() {
    let rows = vec![ListingRow {
        hrefs: vec![s("a.jpg"), s("b.pdf")],
        img_alts: vec![alt("[IMG]"), None],
    }];
    let out = extract_table(PAGE, "Download/", 'y', 'y', 'y', &rows);
    assert_eq!(
        out,
        vec![
            EntryOutcome::Download { url: s("https://dl.example.org/files/books/a.jpg"), folder: s("Download/") },
            EntryOutcome::Nothing,
            EntryOutcome::Download { url: s("https://dl.example.org/files/books/b.pdf"), folder: s("Download/") },
            EntryOutcome::Nothing,
        ]
    );
}

#[test]
fn crawl_is_depth_first() {
    let mut crawl = Crawler::new(PAGE, "Download/", 'y', 'y', 'y');
    let first = crawl.next_step().unwrap();
    assert_eq!(
        first,
        EntryOutcome::Subfolder { create: None, url: s(PAGE), file_path: s("Download/") }
    );
    crawl.page_loaded(PAGE, "Download/", LISTING);
    assert_eq!(crawl.next_step(), Some(EntryOutcome::Nothing));
    assert_eq!(crawl.next_step(), Some(EntryOutcome::Nothing));
    let sub = crawl.next_step().unwrap();
    let sub_url = s("https://dl.example.org/files/books/sub/");
    assert_eq!(
        sub,
        EntryOutcome::Subfolder { create: Some(s("Download/sub/")), url: sub_url.clone(), file_path: s("Download/sub/") }
    );
    let inner = r#"<table><tr><td><img alt="[IMG]"></td><td><a href="p1.jpg">p1</a></td></tr></table>"#;
    crawl.page_loaded(&sub_url, "Download/sub/", inner);
    assert_eq!(
        crawl.next_step(),
        Some(EntryOutcome::Download {
            url: s("https://dl.example.org/files/books/sub/p1.jpg"),
            folder: s("Download/sub/"),
        })
    );
    assert_eq!(
        crawl.next_step(),
        Some(EntryOutcome::Download { url: s("https://dl.example.org/files/books/001.jpg"), folder: s("Download/") })
    );
    assert!(crawl.next_step().is_some());
    assert!(crawl.next_step().is_some());
    assert_eq!(crawl.next_step(), None);
    assert_eq!(crawl.next_step(), None);
}

#[test]
fn urls_file_pages_are_crawled_in_order() {
    let urls = vec![s("https://a.example/"), s(""), s("https://b.example/")];
    let mut crawl = read_urls_from_file(&urls, 'y', 'n', 'y');
    for u in &urls {
        assert_eq!(
            crawl.next_step(),
            Some(EntryOutcome::Subfolder { create: None, url: u.clone(), file_path: s("Download/") })
        );
    }
    assert_eq!(crawl.next_step(), None);
}

#[test]
fn lines_are_read_like_a_file() {
    assert_eq!(read_lines(b""), Vec::<String>::new());
    assert_eq!(read_lines(b"one"), vec![s("one")]);
    assert_eq!(read_lines(b"one\n"), vec![s("one")]);
    assert_eq!(read_lines(b"a\r\nb\n\nc\r"), vec![s("a"), s("b"), s(""), s("c\r")]);
    assert_eq!(read_lines(b"\n\n"), vec![s(""), s("")]);
    assert_eq!(read_lines("caf\u{e9}\n".as_bytes()), vec![s("caf\u{e9}")]);
}

#[test]
fn lines_that_are_not_text_are_left_out() {
    assert_eq!(read_lines(b"ok\n\xff\xfe\r\nnext"), vec![s("ok"), s("next")]);
    assert_eq!(read_lines(b"\xc3"), Vec::<String>::new());
}

#[test]
fn existing_files_are_kept_unless_overridden() {
    assert!(!should_fetch(true, false));
    assert!(should_fetch(true, true));
    assert!(should_fetch(false, false));
    assert!(should_fetch(false, true));
}

#[test]
fn download_target_from_the_address() {
    assert_eq!(
        download_target("https://h.example/p/book.tar.gz", "Download/p/"),
        DownloadTarget { file_name: s("book.tar.gz"), file_type: s("gz"), path: s("Download/p/book.tar.gz") }
    );
    assert_eq!(
        download_target("https://h.example/p/", "Download/p/"),
        DownloadTarget { file_name: s(""), file_type: s(""), path: s("Download/p/") }
    );
    assert_eq!(
        download_target("noslash", "D/"),
        DownloadTarget { file_name: s("noslash"), file_type: s("noslash"), path: s("D/noslash") }
    );
}

#[test]
fn existing_download_is_skipped_unless_overridden() {
    let target = DownloadTarget { file_name: s("1.jpg"), file_type: s("jpg"), path: s("Download/a/1.jpg") };
    assert_eq!(
        download_file_from_url_with_folder("https://h.example/a/1.jpg", "Download/a/", true, false),
        FileDownload {
            target: DownloadTarget { file_name: s("1.jpg"), file_type: s("jpg"), path: s("Download/a/1.jpg") },
            fetch: false,
        }
    );
    assert!(download_file_from_url_with_folder("https://h.example/a/1.jpg", "Download/a/", true, true).fetch);
    assert!(download_file_from_url_with_folder("https://h.example/a/1.jpg", "Download/a/", false, false).fetch);
    let fresh = download_file_from_url_with_folder("https://h.example/a/1.jpg", "Download/a/", false, true);
    assert!(fresh.fetch);
    assert_eq!(fresh.target, target);
}

#[test]
fn sizes_are_whole_mebibytes() {
    assert_eq!(size_in_mb(0), 0);
    assert_eq!(size_in_mb(1048575), 0);
    assert_eq!(size_in_mb(1048576), 1);
    assert_eq!(size_in_mb(5 * 1048576 + 3), 5);
}

#[test]
fn written_lines_read_back() {
    let lines = vec![s("https://a.example/"), s(""), s("b c"), s("caf\u{e9}")];
    let mut file = String::new();
    for l in &lines {
        file.push_str(l);
        file.push('\n');
    }
    assert_eq!(read_lines(file.as_bytes()), lines);
}

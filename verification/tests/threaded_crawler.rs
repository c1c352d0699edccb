//! The queued crawler: addresses with a trailing slash, folders named after
//! the page, and downloads handed over last queued first.

use simple_rust_downloader::crawler::{DownloadTarget, EntryOutcome};
use simple_rust_downloader::threaded_crawler::{
    download_decision, download_threaded, get_images, get_table, DownloadableFile,
};

fn s(x: &str) -> String {
    x.to_string()
}

fn alt(x: &str) -> Option<String> {
    Some(x.to_string())
}

#[test]
fn page_address_gets_a_trailing_slash() {
    let r = get_images(&alt("[IMG]"), "x.jpg", "https://host.example/dir", "Download/", 'n', 'y', 'n');
    assert_eq!(
        r,
        EntryOutcome::Download { url: s("https://host.example/dir/x.jpg"), folder: s("Download/host.example/dir/") }
    );
}

#[test]
fn only_https_is_taken_off_the_folder() {
    let r = get_images(&alt("[   ]"), "b.pdf", "http://host.example/", "Download/", 'y', 'n', 'n');
    assert_eq!(
        r,
        EntryOutcome::Download { url: s("http://host.example/b.pdf"), folder: s("Download/http://host.example/") }
    );
}

#[test]
fn subfolders_restart_from_the_download_folder() {
    let r = get_images(&alt("[DIR]"), "sub/", "https://h.example/a/", "Download/h.example/a/", 'y', 'y', 'y');
    assert_eq!(
        r,
        EntryOutcome::Subfolder { create: None, url: s("https://h.example/a/sub/"), file_path: s("Download/") }
    );
}

#[test]
fn downloads_are_handed_over_last_first() {
    let page = r#"<table>
<tr><td><img alt="[IMG]"></td><td><a href="1.jpg">1</a></td></tr>
<tr><td><img alt="[DIR]"></td><td><a href="sub/">sub</a></td></tr>
<tr><td><img alt="[IMG]"></td><td><a href="2.jpg">2</a></td></tr>
</table>"#;
    let sub = r#"<table><tr><td><img alt="[   ]"></td><td><a href="s.pdf">s</a></td></tr></table>"#;
    let mut crawl = download_threaded("https://h.example/", "Download/", 'y', 'y', 'y');
    let mut visited = Vec::new();
    while let Some(step) = crawl.next_step() {
        if let EntryOutcome::Subfolder { url, file_path, .. } = step {
            let doc = if url == "https://h.example/" { page } else { sub };
            crawl.page_loaded(&url, &file_path, doc);
            visited.push(url);
        }
    }
    assert_eq!(visited, vec![s("https://h.example/"), s("https://h.example/sub/")]);
    let files = crawl.take_downloads();
    assert_eq!(
        files,
        vec![
            DownloadableFile { url: s("https://h.example/2.jpg"), input_path: s("Download/h.example/") },
            DownloadableFile { url: s("https://h.example/sub/s.pdf"), input_path: s("Download/h.example/sub/") },
            DownloadableFile { url: s("https://h.example/1.jpg"), input_path: s("Download/h.example/") },
        ]
    );
    assert!(crawl.take_downloads().is_empty());
}

#[test]
fn table_of_a_page() {
    let page = r#"<table><tr><td><img alt="[IMG]"></td><td><a href="a.jpg">a</a></td></tr></table>"#;
    let out = get_table("https://h.example", "Download/", 'y', 'n', 'n', page);
    assert_eq!(
        out,
        vec![EntryOutcome::NotDownloaded {
            kind: simple_rust_downloader::crawler::FileKind::Image,
            link: s("https://h.example/a.jpg"),
        }]
    );
}

#[test]
fn queued_files_existing_are_kept_unless_overridden() {
    let file = DownloadableFile { url: s("https://h.example/d/p.jpg"), input_path: s("Download/h.example/d/") };
    let kept = download_decision(&file, true, false);
    assert!(!kept.fetch);
    assert_eq!(
        kept.target,
        DownloadTarget { file_name: s("p.jpg"), file_type: s("jpg"), path: s("Download/h.example/d/p.jpg") }
    );
    assert!(download_decision(&file, true, true).fetch);
    assert!(download_decision(&file, false, false).fetch);
    assert!(download_decision(&file, false, true).fetch);
}

#[test]
fn file_named_like_the_folder_stays_inside() {
    let r = get_images(&alt("[   ]"), "load", "https://h.com/", "Download/", 'y', 'n', 'n');
    assert_eq!(r, EntryOutcome::Download { url: s("https://h.com/load"), folder: s("Download/h.com/") });
}

#[test]
fn every_occurrence_of_the_file_name_leaves_the_folder() {
    let r = get_images(&alt("[IMG]"), "x", "https://h.com/x/", "Download/", 'n', 'y', 'n');
    assert_eq!(r, EntryOutcome::Download { url: s("https://h.com/x/x"), folder: s("Download/h.com//") });
}

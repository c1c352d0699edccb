//! PDF planning: which folders get a PDF, from which images, and where.

use simple_rust_downloader::pdf_maker::{
    all_files_have_extensions, convert_jpegs_to_pdf, file_extension, join_path_str,
    parent_path_str, FolderEntry, FolderTree, PdfError,
};

/// A small valid JPEG image (a 16 by 16 picture).
const SMALL_JPEG: [u8; 543] = [
    0xff, 0xd8, 0xff, 0xe0, 0x00, 0x10, 0x4a, 0x46, 0x49, 0x46, 0x00, 0x01, 0x01, 0x01, 0x00, 0x01,
    0x00, 0x01, 0x00, 0x00, 0xff, 0xdb, 0x00, 0x43, 0x00, 0x03, 0x02, 0x02, 0x02, 0x02, 0x02, 0x03,
    0x02, 0x02, 0x02, 0x03, 0x03, 0x03, 0x03, 0x04, 0x06, 0x04, 0x04, 0x04, 0x04, 0x04, 0x08, 0x06,
    0x06, 0x05, 0x06, 0x09, 0x08, 0x0a, 0x0a, 0x09, 0x08, 0x09, 0x09, 0x0a, 0x0c, 0x0f, 0x0c, 0x0a,
    0x0b, 0x0e, 0x0b, 0x09, 0x09, 0x0d, 0x11, 0x0d, 0x0e, 0x0f, 0x10, 0x10, 0x11, 0x10, 0x0a, 0x0c,
    0x12, 0x13, 0x12, 0x10, 0x13, 0x0f, 0x10, 0x10, 0x10, 0xff, 0xdb, 0x00, 0x43, 0x01, 0x03, 0x03,
    0x03, 0x04, 0x03, 0x04, 0x08, 0x04, 0x04, 0x08, 0x10, 0x0b, 0x09, 0x0b, 0x10, 0x10, 0x10, 0x10,
    0x10, 0x10, 0x10, 0x10, 0x10, 0x10, 0x10, 0x10, 0x10, 0x10, 0x10, 0x10, 0x10, 0x10, 0x10, 0x10,
    0x10, 0x10, 0x10, 0x10, 0x10, 0x10, 0x10, 0x10, 0x10, 0x10, 0x10, 0x10, 0x10, 0x10, 0x10, 0x10,
    0x10, 0x10, 0x10, 0x10, 0x10, 0x10, 0x10, 0x10, 0x10, 0x10, 0x10, 0x10, 0x10, 0x10, 0xff, 0xc0,
    0x00, 0x11, 0x08, 0x00, 0x10, 0x00, 0x10, 0x03, 0x01, 0x22, 0x00, 0x02, 0x11, 0x01, 0x03, 0x11,
    0x01, 0xff, 0xc4, 0x00, 0x16, 0x00, 0x01, 0x01, 0x01, 0x00, 0x00, 0x00, 0x00, 0x00, 0x00, 0x00,
    0x00, 0x00, 0x00, 0x00, 0x00, 0x00, 0x07, 0x04, 0x05, 0xff, 0xc4, 0x00, 0x24, 0x10, 0x00, 0x01,
    0x04, 0x01, 0x04, 0x02, 0x02, 0x03, 0x00, 0x00, 0x00, 0x00, 0x00, 0x00, 0x00, 0x00, 0x01, 0x02,
    0x03, 0x04, 0x06, 0x05, 0x07, 0x08, 0x12, 0x13, 0x11, 0x22, 0x00, 0x14, 0x09, 0x31, 0x32, 0xff,
    0xc4, 0x00, 0x15, 0x01, 0x01, 0x01, 0x00, 0x00, 0x00, 0x00, 0x00, 0x00, 0x00, 0x00, 0x00, 0x00,
    0x00, 0x00, 0x00, 0x00, 0x00, 0x06, 0xff, 0xc4, 0x00, 0x23, 0x11, 0x00, 0x01, 0x02, 0x05, 0x03,
    0x05, 0x00, 0x00, 0x00, 0x00, 0x00, 0x00, 0x00, 0x00, 0x00, 0x00, 0x01, 0x02, 0x11, 0x03, 0x04,
    0x05, 0x06, 0x21, 0x00, 0x12, 0x31, 0x15, 0x16, 0x61, 0x81, 0xe1, 0xff, 0xda, 0x00, 0x0c, 0x03,
    0x01, 0x00, 0x02, 0x11, 0x03, 0x11, 0x00, 0x3f, 0x00, 0x14, 0xa6, 0xd2, 0x6a, 0x1b, 0x73, 0xc1,
    0xe6, 0x13, 0x12, 0xd4, 0x95, 0x1c, 0xf3, 0x11, 0x63, 0xe4, 0x25, 0x65, 0xbe, 0xba, 0x5a, 0xec,
    0x69, 0x45, 0x40, 0xb1, 0xe5, 0x20, 0xb2, 0x54, 0xa5, 0x1f, 0xd2, 0xca, 0xb8, 0xfa, 0xf2, 0x20,
    0xab, 0x96, 0x3d, 0x97, 0x6c, 0x93, 0x35, 0xe6, 0x9b, 0x77, 0xd7, 0xe6, 0x6d, 0xa7, 0x17, 0x81,
    0xa5, 0x57, 0x1c, 0x7f, 0x1c, 0xea, 0x71, 0xe2, 0x4b, 0x39, 0xd7, 0xe3, 0x22, 0x53, 0xf2, 0x1a,
    0x69, 0xde, 0xd4, 0x71, 0x4a, 0x38, 0xb4, 0x82, 0xe8, 0x4b, 0x89, 0x2a, 0x71, 0x69, 0x1e, 0xcd,
    0x2d, 0x21, 0x3b, 0xf1, 0xef, 0xb9, 0x1a, 0x74, 0xac, 0xee, 0xa1, 0x5a, 0x75, 0x8e, 0xd5, 0x48,
    0xac, 0x65, 0x5b, 0x85, 0x8b, 0x81, 0x85, 0x7b, 0x21, 0x29, 0x98, 0x67, 0xa9, 0x6b, 0x94, 0xb9,
    0x49, 0x65, 0x4f, 0xb9, 0xc8, 0x85, 0x29, 0x11, 0x4b, 0x81, 0x2a, 0xf0, 0x7a, 0xd9, 0xf2, 0x3c,
    0x80, 0x7e, 0x55, 0xbe, 0x0d, 0xf6, 0x62, 0xa1, 0x40, 0xcc, 0xe8, 0xe6, 0x9a, 0x3d, 0x5c, 0xb7,
    0x43, 0xb3, 0xd7, 0x7a, 0x65, 0x58, 0xb1, 0xd9, 0x51, 0x21, 0x88, 0xbf, 0x64, 0xb8, 0xd3, 0xf1,
    0xc3, 0x68, 0x04, 0x29, 0xc0, 0xd0, 0xfe, 0xbb, 0x3c, 0x02, 0xe0, 0x3c, 0x54, 0x07, 0xb4, 0xbd,
    0xd9, 0x7b, 0x54, 0xe6, 0x27, 0xfb, 0x6e, 0xdf, 0x94, 0x60, 0x14, 0x82, 0x62, 0x13, 0x8d, 0xb8,
    0x52, 0x98, 0x28, 0x37, 0x05, 0x89, 0x72, 0x79, 0x60, 0xe4, 0x32, 0x89, 0x6f, 0xc3, 0x82, 0x8e,
    0xa7, 0x52, 0x8c, 0xea, 0x20, 0x8d, 0xbe, 0x78, 0x19, 0x1f, 0x07, 0xad, 0x7f, 0xff, 0xd9,
];

fn folder(name: &str, entries: Vec<FolderEntry>) -> FolderEntry {
    FolderEntry::Folder { name: name.to_string(), contents: FolderTree { entries } }
}

fn jpeg(name: &str) -> FolderEntry {
    FolderEntry::File { name: name.to_string(), data: SMALL_JPEG.to_vec() }
}

fn plain_file(name: &str) -> FolderEntry {
    FolderEntry::File { name: name.to_string(), data: Vec::new() }
}

fn names(v: &[&str]) -> Vec<String> {
    v.iter().map(|s| s.to_string()).collect()
}

#[test]
fn extension_follows_the_last_dot() {
    assert_eq!(file_extension("page.jpg"), Some("jpg".to_string()));
    assert_eq!(file_extension("archive.tar.gz"), Some("gz".to_string()));
    assert_eq!(file_extension("SCAN.JPG"), Some("JPG".to_string()));
    assert_eq!(file_extension("trailing."), Some("".to_string()));
    assert_eq!(file_extension(".hidden"), None);
    assert_eq!(file_extension("README"), None);
    assert_eq!(file_extension(".."), None);
}

#[test]
fn paths_join_and_split() {
    assert_eq!(join_path_str("Download/", "site"), "Download/site");
    assert_eq!(join_path_str("Download/site", "pdf_images"), "Download/site/pdf_images");
    assert_eq!(join_path_str("", "out.pdf"), "out.pdf");
    assert_eq!(parent_path_str("Download/site/pdf_images"), "Download/site");
    assert_eq!(parent_path_str("Download/site"), "Download");
    assert_eq!(parent_path_str("plain"), "");
}

#[test]
fn pdf_made_for_pdf_images_folder_only() {
    let tree = FolderTree {
        entries: vec![
            folder(
                "site",
                vec![
                    folder("pdf_images", vec![jpeg("001.jpg"), plain_file("notes.txt"), jpeg("002.jpg")]),
                    jpeg("cover.jpg"),
                ],
            ),
            plain_file("readme.md"),
        ],
    };
    assert!(all_files_have_extensions(&tree));
    let out = convert_jpegs_to_pdf(&tree);
    assert_eq!(out.len(), 1);
    let pdf = &out[0];
    assert_eq!(pdf.source, "Download/site/pdf_images");
    assert_eq!(pdf.folder, "Download/site");
    assert_eq!(pdf.out_path, "Download/site/out.pdf");
    assert_eq!(pdf.pages, names(&["001.jpg", "002.jpg"]));
    let bytes = pdf.pdf.as_ref().expect("the images are valid JPEGs");
    assert!(bytes.starts_with(b"%PDF-"));
}

#[test]
fn subfolders_come_before_their_parent() {
    let tree = FolderTree {
        entries: vec![folder(
            "book",
            vec![folder(
                "pdf_images",
                vec![jpeg("a.jpg"), folder("extra", vec![jpeg("b.jpg")]), jpeg("c.jpg")],
            )],
        )],
    };
    let out = convert_jpegs_to_pdf(&tree);
    assert_eq!(out.len(), 2);
    assert_eq!(out[0].source, "Download/book/pdf_images/extra");
    assert_eq!(out[0].out_path, "Download/book/pdf_images/out.pdf");
    assert_eq!(out[0].pages, names(&["b.jpg"]));
    assert_eq!(out[1].source, "Download/book/pdf_images");
    assert_eq!(out[1].out_path, "Download/book/out.pdf");
    assert_eq!(out[1].pages, names(&["a.jpg", "c.jpg"]));
}

#[test]
fn only_lower_case_jpg_is_a_page() {
    let tree = FolderTree {
        entries: vec![folder(
            "pdf_images",
            vec![jpeg("x.JPG"), jpeg("y.jpeg"), jpeg("z.jpg")],
        )],
    };
    let out = convert_jpegs_to_pdf(&tree);
    assert_eq!(out.len(), 1);
    assert_eq!(out[0].folder, "Download");
    assert_eq!(out[0].out_path, "Download/out.pdf");
    assert_eq!(out[0].pages, names(&["z.jpg"]));
}

#[test]
fn unreadable_image_is_reported() {
    let tree = FolderTree {
        entries: vec![folder(
            "pdf_images",
            vec![
                jpeg("1.jpg"),
                FolderEntry::File { name: "2.jpg".to_string(), data: b"not a picture".to_vec() },
            ],
        )],
    };
    let out = convert_jpegs_to_pdf(&tree);
    assert_eq!(out.len(), 1);
    assert_eq!(out[0].pdf, Err(PdfError { index: 1, page: "2.jpg".to_string() }));
}

#[test]
fn no_marked_folder_no_pdf() {
    let tree = FolderTree {
        entries: vec![folder("images", vec![jpeg("1.jpg")]), jpeg("2.jpg")],
    };
    assert!(convert_jpegs_to_pdf(&tree).is_empty());
}

#[test]
fn files_without_extension_are_found() {
    let ok = FolderTree { entries: vec![folder("a", vec![plain_file("b.txt")])] };
    assert!(all_files_have_extensions(&ok));
    let bad = FolderTree { entries: vec![folder("a", vec![plain_file("LICENSE")])] };
    assert!(!all_files_have_extensions(&bad));
    let other = FolderTree {
        entries: vec![FolderEntry::Other { name: "socket".to_string() }],
    };
    assert!(all_files_have_extensions(&other));
}

#[test]
fn converting_again_gives_the_same_pdfs() {
    let first = FolderTree {
        entries: vec![folder("site", vec![folder("pdf_images", vec![jpeg("1.jpg"), jpeg("2.jpg")])])],
    };
    let again = FolderTree {
        entries: vec![folder(
            "site",
            vec![
                folder("pdf_images", vec![jpeg("1.jpg"), jpeg("2.jpg")]),
                FolderEntry::File { name: "out.pdf".to_string(), data: Vec::new() },
            ],
        )],
    };
    let a = convert_jpegs_to_pdf(&first);
    let b = convert_jpegs_to_pdf(&again);
    assert_eq!(a.len(), 1);
    assert_eq!(b.len(), 1);
    assert_eq!(a[0].out_path, b[0].out_path);
    assert_eq!(a[0].pages, b[0].pages);
}

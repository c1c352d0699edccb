//! Verified core of a directory-listing downloader: it reads the table of
//! an index page, decides which links to follow or download and where the
//! files go, and plans the PDFs made from downloaded page images.

pub mod app_iced;
pub mod cli;
pub mod crawler;
pub mod listing;
pub mod pdf_maker;
pub mod text;
pub mod threaded_crawler;

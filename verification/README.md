# simple_rust_downloader

A downloader for web directory listings ("Index of ..." pages). It reads the
table of a listing page, follows folders, downloads images and PDFs into
`Download/`, and can turn the page images of a book (the `jpg` files of
folders whose path holds `pdf_images`) into `out.pdf` files.

Layout:

- `src/` is the library, proved with Verus:
  - `crawler.rs`: what each entry of a listing asks for, where files and
    folders go, and the depth-first crawl as a state machine
    (`Crawler`); reading a list of addresses.
  - `threaded_crawler.rs`: the crawler that queues its downloads and hands
    them over at the end.
  - `listing.rs`: the table rows of a page, read with `scraper`.
  - `pdf_maker.rs`: which PDFs to make from a folder listing, made with
    `jpeg-to-pdf`.
  - `cli.rs`: the command line and the answers typed at the prompts.
  - `app_iced.rs`: the window's state and what each action does to it.
  - `text.rs`: string operations with their mathematical meaning.
- `tests/`: tests of the library.
- `app/`: the program around it: network and file access, the prompts, the
  window (iced), notifications.

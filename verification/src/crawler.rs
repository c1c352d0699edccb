//! Decisions of the crawler: what each entry of a listing page asks for,
//! where downloaded files and visited folders go, and the depth-first order
//! in which pages and files are handled.

use vstd::prelude::*;
use vstd::string::*;
use crate::listing::{ListingRow, RowModel, listing_rows, table_rows_of};
use crate::text::{
    after_last, after_last_str, before_nth, before_nth_str, chars_of, concat_str, is_match_at,
    lemma_after_last_has_no, lemma_remove_all_keeps_prefix, remove_all, remove_all_str,
    seq_starts_with, starts_with_str, str_eq,
};

verus! {

/// The folder under which everything is saved.
pub open spec fn download_root() -> Seq<char> {
    "Download/"@
}

/// Alt text that a listing gives a folder.
pub open spec fn dir_marker() -> Seq<char> {
    "[DIR]"@
}

/// Alt text that a listing gives an image.
pub open spec fn img_marker() -> Seq<char> {
    "[IMG]"@
}

/// Alt text that a listing gives any other file (a PDF here).
pub open spec fn pdf_marker() -> Seq<char> {
    "[   ]"@
}

/// Alt text of the link to the parent folder.
pub open spec fn parent_marker() -> Seq<char> {
    "[PARENTDIR]"@
}

/// Alt text of an icon.
pub open spec fn icon_marker() -> Seq<char> {
    "[ICO]"@
}

/// The answers `y` and `Y` switch an option on; anything else leaves it off.
pub open spec fn enabled(answer: char) -> bool {
    answer == 'y' || answer == 'Y'
}

/// Whether an answer switches its option on.
pub fn flag_enabled(answer: char) -> (r: bool)
    ensures
        r == enabled(answer),
{
    answer == 'y' || answer == 'Y'
}

/// The three choices that steer a crawl, each an answer character.
#[derive(Clone, Copy, Debug, PartialEq, Eq)]
pub struct CrawlOptions {
    pub download_pdfs: char,
    pub download_imgs: char,
    pub scan_subfolders: char,
}

/// The two crawlers: the one that downloads as it goes and creates the
/// folders it visits, and the one that queues downloads for the end.
#[derive(Clone, Copy, Debug, PartialEq, Eq, Structural)]
pub enum CrawlStyle {
    Sequential,
    Queued,
}

/// Kind of a file entry.
#[derive(Clone, Copy, Debug, PartialEq, Eq, Structural)]
pub enum FileKind {
    Image,
    Pdf,
}

/// What one (link, image) pair of a listing row asks for.
#[derive(Debug, PartialEq, Eq)]
pub enum EntryOutcome {
    /// Nothing: no alt text, the parent folder, an icon, or a folder while
    /// subfolders are not scanned.
    Nothing,
    /// A page to visit: create the folder `create` first when there is one,
    /// then read `url` and save what it lists under `file_path`.
    Subfolder { create: Option<String>, url: String, file_path: String },
    /// A file to fetch from `url` into the folder `folder`.
    Download { url: String, folder: String },
    /// A file that the options leave alone.
    NotDownloaded { kind: FileKind, link: String },
    /// An entry whose alt text names no known kind; `link` is reported.
    Unrecognised { link: String },
}

/// An entry outcome as mathematical values.
pub enum Entry {
    Nothing,
    Subfolder { create: Option<Seq<char>>, url: Seq<char>, file_path: Seq<char> },
    Download { url: Seq<char>, folder: Seq<char> },
    NotDownloaded { kind: FileKind, link: Seq<char> },
    Unrecognised { link: Seq<char> },
}

impl View for EntryOutcome {
    type V = Entry;

    open spec fn view(&self) -> Entry {
        match self {
            EntryOutcome::Nothing => Entry::Nothing,
            EntryOutcome::Subfolder { create, url, file_path } => Entry::Subfolder {
                create: match create {
                    Some(c) => Some(c@),
                    None => None,
                },
                url: url@,
                file_path: file_path@,
            },
            EntryOutcome::Download { url, folder } => Entry::Download { url: url@, folder: folder@ },
            EntryOutcome::NotDownloaded { kind, link } => Entry::NotDownloaded {
                kind: *kind,
                link: link@,
            },
            EntryOutcome::Unrecognised { link } => Entry::Unrecognised { link: link@ },
        }
    }
}

/// The page address that the queued crawler works from: `url` with a `/`
/// added unless it already ends with one.
pub open spec fn with_trailing_slash(url: Seq<char>) -> Seq<char> {
    if url.len() > 0 && url.last() == '/' {
        url
    } else {
        url.push('/')
    }
}

/// `s` without a leading `https://`, or `s` itself when it has none.
pub open spec fn without_https(s: Seq<char>) -> Seq<char> {
    if seq_starts_with(s, "https://"@) {
        s.skip(8)
    } else {
        s
    }
}

/// The folder that an entry's files are saved into, before the file name is
/// taken out: the sequential crawler appends the first two `/`-pieces of the
/// link, the queued one appends the page address without `https://`.
pub open spec fn entry_folder(
    style: CrawlStyle,
    href: Seq<char>,
    url: Seq<char>,
    file_path: Seq<char>,
) -> Seq<char> {
    match style {
        CrawlStyle::Sequential => file_path + before_nth(href, '/', 2),
        CrawlStyle::Queued => file_path + without_https(with_trailing_slash(url)),
    }
}

/// The folder a file named `name` is saved into, given the entry's folder:
/// every occurrence of the name is taken out of it, but a leading
/// `Download/` is kept whole, so that files never leave the download folder.
pub open spec fn saved_folder(folder: Seq<char>, name: Seq<char>) -> Seq<char> {
    if seq_starts_with(folder, download_root()) {
        download_root() + remove_all(folder.skip(download_root().len() as int), name)
    } else {
        remove_all(folder, name)
    }
}

/// What an entry with image alt text `alt` and link `href`, found on the page
/// `url` whose files go under `file_path`, asks for.
pub open spec fn entry_outcome(
    style: CrawlStyle,
    alt: Option<Seq<char>>,
    href: Seq<char>,
    url: Seq<char>,
    file_path: Seq<char>,
    options: CrawlOptions,
) -> Entry {
    let page = match style {
        CrawlStyle::Sequential => url,
        CrawlStyle::Queued => with_trailing_slash(url),
    };
    let link = page + href;
    let folder = entry_folder(style, href, url, file_path);
    let target = saved_folder(folder, after_last(href, '/'));
    match alt {
        None => Entry::Nothing,
        Some(a) => if a == parent_marker() || a == icon_marker() {
            Entry::Nothing
        } else if a == dir_marker() {
            if enabled(options.scan_subfolders) {
                match style {
                    CrawlStyle::Sequential => Entry::Subfolder {
                        create: Some(download_root() + href),
                        url: link,
                        file_path: folder,
                    },
                    CrawlStyle::Queued => Entry::Subfolder {
                        create: None,
                        url: link,
                        file_path: download_root(),
                    },
                }
            } else {
                Entry::Nothing
            }
        } else if a == img_marker() {
            if enabled(options.download_imgs) {
                Entry::Download { url: link, folder: target }
            } else {
                Entry::NotDownloaded { kind: FileKind::Image, link }
            }
        } else if a == pdf_marker() {
            if enabled(options.download_pdfs) {
                Entry::Download { url: link, folder: target }
            } else {
                Entry::NotDownloaded { kind: FileKind::Pdf, link }
            }
        } else {
            Entry::Unrecognised { link }
        },
    }
}

/// The outcomes for one link of a row: one per image of the row, in order.
pub open spec fn link_entries(
    style: CrawlStyle,
    alts: Seq<Option<Seq<char>>>,
    href: Seq<char>,
    url: Seq<char>,
    file_path: Seq<char>,
    options: CrawlOptions,
) -> Seq<Entry> {
    alts.map_values(|a: Option<Seq<char>>| entry_outcome(style, a, href, url, file_path, options))
}

/// The outcomes for one row: for each link, for each image.
pub open spec fn row_entries(
    style: CrawlStyle,
    hrefs: Seq<Seq<char>>,
    alts: Seq<Option<Seq<char>>>,
    url: Seq<char>,
    file_path: Seq<char>,
    options: CrawlOptions,
) -> Seq<Entry>
    decreases hrefs.len(),
{
    if hrefs.len() == 0 {
        Seq::empty()
    } else {
        row_entries(style, hrefs.drop_last(), alts, url, file_path, options) + link_entries(
            style,
            alts,
            hrefs.last(),
            url,
            file_path,
            options,
        )
    }
}

/// The outcomes for all rows of a page, row after row.
pub open spec fn rows_entries(
    style: CrawlStyle,
    rows: Seq<RowModel>,
    url: Seq<char>,
    file_path: Seq<char>,
    options: CrawlOptions,
) -> Seq<Entry>
    decreases rows.len(),
{
    if rows.len() == 0 {
        Seq::empty()
    } else {
        rows_entries(style, rows.drop_last(), url, file_path, options) + row_entries(
            style,
            rows.last().0,
            rows.last().1,
            url,
            file_path,
            options,
        )
    }
}

/// The outcomes for the page text `document` read from `url`.
pub open spec fn page_entries(
    style: CrawlStyle,
    document: Seq<char>,
    url: Seq<char>,
    file_path: Seq<char>,
    options: CrawlOptions,
) -> Seq<Entry> {
    rows_entries(style, table_rows_of(document), url, file_path, options)
}

/// The folder a file named `name` is saved into (`saved_folder`).
fn saved_folder_of(folder: &str, name: &str) -> (r: String)
    ensures
        r@ == saved_folder(folder@, name@),
{
    proof {
        reveal_strlit("Download/");
    }
    if starts_with_str(folder, "Download/") {
        let n = folder.unicode_len();
        let rest = folder.substring_char(9, n);
        assert(rest@ =~= folder@.skip(9));
        let kept = remove_all_str(rest, name);
        concat_str("Download/", kept.as_str())
    } else {
        remove_all_str(folder, name)
    }
}

/// Whether `alt` is the text `marker`.
fn alt_is(alt: &str, marker: &str) -> (r: bool)
    ensures
        r == (alt@ == marker@),
{
    str_eq(alt, marker)
}

/// What one entry asks for, for either crawler (`entry_outcome`).
pub fn plan_entry(
    style: CrawlStyle,
    alt: &Option<String>,
    href: &str,
    url: &str,
    file_path: &str,
    options: CrawlOptions,
) -> (r: EntryOutcome)
    ensures
        r@ == entry_outcome(style, alt.deep_view(), href@, url@, file_path@, options),
{
    let a: &String = match alt {
        None => {
            return EntryOutcome::Nothing;
        },
        Some(a) => a,
    };
    let a = a.as_str();
    proof {
        reveal_strlit("https://");
        reveal_strlit("/");
    }
    if alt_is(a, "[PARENTDIR]") || alt_is(a, "[ICO]") {
        return EntryOutcome::Nothing;
    }
    let page: String = match style {
        CrawlStyle::Sequential => String::from_str(url),
        CrawlStyle::Queued => {
            let uv = chars_of(url);
            if uv.len() > 0 && uv[uv.len() - 1] == '/' {
                String::from_str(url)
            } else {
                let p = concat_str(url, "/");
                assert(p@ =~= url@.push('/'));
                p
            }
        },
    };
    let link = concat_str(page.as_str(), href);
    let folder: String = match style {
        CrawlStyle::Sequential => {
            let two = before_nth_str(href, '/', 2);
            concat_str(file_path, two.as_str())
        },
        CrawlStyle::Queued => {
            if starts_with_str(page.as_str(), "https://") {
                let n = page.as_str().unicode_len();
                let rest = page.as_str().substring_char(8, n);
                assert(rest@ =~= page@.skip(8));
                concat_str(file_path, rest)
            } else {
                concat_str(file_path, page.as_str())
            }
        },
    };
    if alt_is(a, "[DIR]") {
        if flag_enabled(options.scan_subfolders) {
            match style {
                CrawlStyle::Sequential => EntryOutcome::Subfolder {
                    create: Some(concat_str("Download/", href)),
                    url: link,
                    file_path: folder,
                },
                CrawlStyle::Queued => EntryOutcome::Subfolder {
                    create: None,
                    url: link,
                    file_path: String::from_str("Download/"),
                },
            }
        } else {
            EntryOutcome::Nothing
        }
    } else if alt_is(a, "[IMG]") {
        if flag_enabled(options.download_imgs) {
            let name = after_last_str(href, '/');
            let target = saved_folder_of(folder.as_str(), name.as_str());
            EntryOutcome::Download { url: link, folder: target }
        } else {
            EntryOutcome::NotDownloaded { kind: FileKind::Image, link }
        }
    } else if alt_is(a, "[   ]") {
        if flag_enabled(options.download_pdfs) {
            let name = after_last_str(href, '/');
            let target = saved_folder_of(folder.as_str(), name.as_str());
            EntryOutcome::Download { url: link, folder: target }
        } else {
            EntryOutcome::NotDownloaded { kind: FileKind::Pdf, link }
        }
    } else {
        EntryOutcome::Unrecognised { link }
    }
}

/// The mathematical values of a list of outcomes.
pub open spec fn entries_view(v: Seq<EntryOutcome>) -> Seq<Entry> {
    v.map_values(|e: EntryOutcome| e@)
}

/// The mathematical values of a list of rows.
pub open spec fn rows_view(v: Seq<ListingRow>) -> Seq<RowModel> {
    v.map_values(|r: ListingRow| r@)
}

/// The outcomes for one link of a row, one per image of the row.
fn plan_link(
    style: CrawlStyle,
    alts: &Vec<Option<String>>,
    href: &str,
    url: &str,
    file_path: &str,
    options: CrawlOptions,
) -> (r: Vec<EntryOutcome>)
    ensures
        entries_view(r@) == link_entries(style, alts.deep_view(), href@, url@, file_path@, options),
{
    let mut out: Vec<EntryOutcome> = Vec::new();
    let mut k: usize = 0;
    while k < alts.len()
        invariant
            k <= alts@.len(),
            entries_view(out@) == link_entries(
                style,
                alts.deep_view().take(k as int),
                href@,
                url@,
                file_path@,
                options,
            ),
        decreases alts@.len() - k,
    {
        let e = plan_entry(style, &alts[k], href, url, file_path, options);
        assert(alts.deep_view()[k as int] == alts@[k as int].deep_view());
        let ghost prev = out@;
        out.push(e);
        k = k + 1;
        assert(entries_view(out@) =~= entries_view(prev).push(e@));
        assert(alts.deep_view().take(k as int) =~= alts.deep_view().take(k - 1).push(
            alts.deep_view()[k - 1],
        ));
        assert(entries_view(out@) =~= link_entries(
            style,
            alts.deep_view().take(k as int),
            href@,
            url@,
            file_path@,
            options,
        ));
    }
    assert(alts.deep_view().take(k as int) =~= alts.deep_view());
    out
}

/// The outcomes for one row: for each link, for each image.
fn plan_row(
    style: CrawlStyle,
    row: &ListingRow,
    url: &str,
    file_path: &str,
    options: CrawlOptions,
) -> (r: Vec<EntryOutcome>)
    ensures
        entries_view(r@) == row_entries(style, row@.0, row@.1, url@, file_path@, options),
{
    let mut out: Vec<EntryOutcome> = Vec::new();
    let mut j: usize = 0;
    assert(entries_view(out@) =~= row_entries(
        style,
        row@.0.take(0),
        row@.1,
        url@,
        file_path@,
        options,
    ));
    while j < row.hrefs.len()
        invariant
            j <= row.hrefs@.len(),
            entries_view(out@) == row_entries(
                style,
                row@.0.take(j as int),
                row@.1,
                url@,
                file_path@,
                options,
            ),
        decreases row.hrefs@.len() - j,
    {
        let mut more = plan_link(style, &row.img_alts, row.hrefs[j].as_str(), url, file_path, options);
        let ghost before = out@;
        let ghost added = more@;
        out.append(&mut more);
        j = j + 1;
        assert(row@.0.take(j as int).drop_last() =~= row@.0.take(j - 1));
        assert(entries_view(out@) =~= entries_view(before) + entries_view(added));
    }
    assert(row@.0.take(j as int) =~= row@.0);
    out
}

/// The outcomes for all rows of a listing, row after row, for the page `url`
/// whose files go under `file_path`.
pub fn plan_rows(
    style: CrawlStyle,
    rows: &Vec<ListingRow>,
    url: &str,
    file_path: &str,
    options: CrawlOptions,
) -> (r: Vec<EntryOutcome>)
    ensures
        entries_view(r@) == rows_entries(style, rows_view(rows@), url@, file_path@, options),
{
    let mut out: Vec<EntryOutcome> = Vec::new();
    let mut i: usize = 0;
    assert(entries_view(out@) =~= rows_entries(
        style,
        rows_view(rows@).take(0),
        url@,
        file_path@,
        options,
    ));
    while i < rows.len()
        invariant
            i <= rows@.len(),
            entries_view(out@) == rows_entries(
                style,
                rows_view(rows@).take(i as int),
                url@,
                file_path@,
                options,
            ),
        decreases rows@.len() - i,
    {
        let mut more = plan_row(style, &rows[i], url, file_path, options);
        let ghost before = out@;
        let ghost added = more@;
        out.append(&mut more);
        i = i + 1;
        assert(rows_view(rows@).take(i as int).drop_last() =~= rows_view(rows@).take(i - 1));
        assert(entries_view(out@) =~= entries_view(before) + entries_view(added));
    }
    assert(rows_view(rows@).take(i as int) =~= rows_view(rows@));
    out
}

/// What the entries of an already parsed listing ask for, for the
/// sequential crawler: for each row, each link, each image, in order.
pub fn extract_table(
    url: &str,
    file_path: &str,
    download_pdfs: char,
    download_imgs: char,
    scan_subfolders: char,
    rows: &Vec<ListingRow>,
) -> (r: Vec<EntryOutcome>)
    ensures
        entries_view(r@) == rows_entries(
            CrawlStyle::Sequential,
            rows_view(rows@),
            url@,
            file_path@,
            (CrawlOptions { download_pdfs, download_imgs, scan_subfolders }),
        ),
{
    let options = CrawlOptions { download_pdfs, download_imgs, scan_subfolders };
    plan_rows(CrawlStyle::Sequential, rows, url, file_path, options)
}

/// What the page text `document`, read from `url`, asks the sequential
/// crawler to do, its files going under `file_path`.
pub fn get_table(
    url: &str,
    file_path: &str,
    download_pdfs: char,
    download_imgs: char,
    scan_subfolders: char,
    document: &str,
) -> (r: Vec<EntryOutcome>)
    ensures
        entries_view(r@) == page_entries(
            CrawlStyle::Sequential,
            document@,
            url@,
            file_path@,
            (CrawlOptions { download_pdfs, download_imgs, scan_subfolders }),
        ),
{
    let rows = listing_rows(document);
    extract_table(url, file_path, download_pdfs, download_imgs, scan_subfolders, &rows)
}

/// What one entry (the image alt text `alt` and link `href` of a row of the
/// page `url`, whose files go under `file_path`) asks the sequential crawler
/// for.
pub fn get_images(
    alt: &Option<String>,
    href: &str,
    url: &str,
    file_path: &str,
    download_pdfs: char,
    download_imgs: char,
    scan_subfolders: char,
) -> (r: EntryOutcome)
    ensures
        r@ == entry_outcome(
            CrawlStyle::Sequential,
            alt.deep_view(),
            href@,
            url@,
            file_path@,
            (CrawlOptions { download_pdfs, download_imgs, scan_subfolders }),
        ),
{
    let options = CrawlOptions { download_pdfs, download_imgs, scan_subfolders };
    plan_entry(CrawlStyle::Sequential, alt, href, url, file_path, options)
}

/// Where a downloaded file goes: its name is the last `/`-piece of the
/// address, its type the last `.`-piece of the name, and its path the
/// folder followed by the name.
#[derive(Debug, PartialEq, Eq)]
pub struct DownloadTarget {
    pub file_name: String,
    pub file_type: String,
    pub path: String,
}

/// The name, type and path of the file fetched from `url` into the folder
/// `input_path`.
pub fn download_target(url: &str, input_path: &str) -> (r: DownloadTarget)
    ensures
        r.file_name@ == after_last(url@, '/'),
        r.file_type@ == after_last(after_last(url@, '/'), '.'),
        r.path@ == input_path@ + after_last(url@, '/'),
{
    let file_name = after_last_str(url, '/');
    let file_type = after_last_str(file_name.as_str(), '.');
    let path = concat_str(input_path, file_name.as_str());
    DownloadTarget { file_name, file_type, path }
}

/// A file already on disk is fetched again only when overriding is on; a
/// missing one is always fetched.
pub open spec fn fetch_needed(already_exists: bool, override_existing: bool) -> bool {
    !already_exists || override_existing
}

/// Whether a file whose path `already_exists` (or not) is fetched, given
/// whether existing files are overridden.
pub fn should_fetch(already_exists: bool, override_existing: bool) -> (r: bool)
    ensures
        r == fetch_needed(already_exists, override_existing),
{
    !already_exists || override_existing
}

/// How a file is downloaded: where it goes, and whether it is fetched at all.
#[derive(Debug, PartialEq, Eq)]
pub struct FileDownload {
    pub target: DownloadTarget,
    pub fetch: bool,
}

/// How the file at `url` is downloaded into the folder `input_path`: its
/// name, type and path, and, given whether that path already exists and
/// whether existing files are overridden, whether it is fetched. An existing
/// file is kept as it is unless overriding is on.
pub fn download_file_from_url_with_folder(
    url: &str,
    input_path: &str,
    already_exists: bool,
    override_existing: bool,
) -> (r: FileDownload)
    ensures
        r.target.file_name@ == after_last(url@, '/'),
        r.target.file_type@ == after_last(after_last(url@, '/'), '.'),
        r.target.path@ == input_path@ + after_last(url@, '/'),
        r.fetch == fetch_needed(already_exists, override_existing),
{
    let target = download_target(url, input_path);
    FileDownload { target, fetch: should_fetch(already_exists, override_existing) }
}

/// The size shown for a download of `len` bytes: whole mebibytes, rounded
/// down.
pub fn size_in_mb(len: usize) -> (r: usize)
    ensures
        r == len / 1048576usize,
{
    len / (1024 * 1024)
}

/// Puts `entries` on top of the pending steps, the first entry last, so that
/// it is taken next.
pub fn push_in_taking_order(pending: &mut Vec<EntryOutcome>, entries: Vec<EntryOutcome>)
    ensures
        entries_view(final(pending)@) == entries_view(old(pending)@) + entries_view(
            entries@,
        ).reverse(),
{
    let mut entries = entries;
    let ghost all = entries_view(entries@);
    let ghost base = entries_view(pending@);
    assert(all.skip(all.len() as int).reverse() =~= Seq::<Entry>::empty());
    assert(base + all.skip(all.len() as int).reverse() =~= base);
    while entries.len() > 0
        invariant
            entries_view(entries@) == all.take(entries@.len() as int),
            entries@.len() <= all.len(),
            entries_view(pending@) == base + all.skip(entries@.len() as int).reverse(),
        decreases entries@.len(),
    {
        let ghost n = entries@.len() as int;
        let ghost before = entries@;
        let e = entries.pop().unwrap();
        assert(entries_view(before)[n - 1] == before[n - 1]@);
        assert(all.take(n)[n - 1] == all[n - 1]);
        let ghost steps_before = entries_view(pending@);
        pending.push(e);
        assert(entries_view(pending@) =~= steps_before.push(all[n - 1]));
        assert(all.skip(n - 1).reverse() =~= all.skip(n).reverse().push(all[n - 1]));
        assert(entries_view(entries@) =~= all.take(n - 1));
        assert(entries_view(pending@) =~= base + all.skip(n - 1).reverse());
    }
    assert(all.skip(0) =~= all);
}

/// A sequential crawl in progress: the outcomes still to handle, the next
/// one last. Visiting a page puts its outcomes on top, so that a subfolder is
/// finished before the entries after it (depth first, as recursion would).
#[derive(Debug)]
pub struct Crawler {
    pub pending: Vec<EntryOutcome>,
    pub options: CrawlOptions,
}

impl Crawler {
    /// The outcomes still to handle, the next one last.
    pub open spec fn steps(&self) -> Seq<Entry> {
        entries_view(self.pending@)
    }

    /// A crawl of the single page `url`, its files going under `file_path`.
    pub fn new(
        url: &str,
        file_path: &str,
        download_pdfs: char,
        download_imgs: char,
        scan_subfolders: char,
    ) -> (r: Crawler)
        ensures
            r.steps() == seq![
                Entry::Subfolder { create: None, url: url@, file_path: file_path@ },
            ],
            r.options == (CrawlOptions { download_pdfs, download_imgs, scan_subfolders }),
    {
        let options = CrawlOptions { download_pdfs, download_imgs, scan_subfolders };
        let mut pending: Vec<EntryOutcome> = Vec::new();
        pending.push(
            EntryOutcome::Subfolder {
                create: None,
                url: String::from_str(url),
                file_path: String::from_str(file_path),
            },
        );
        let r = Crawler { pending, options };
        assert(r.steps() =~= seq![
            Entry::Subfolder { create: None, url: url@, file_path: file_path@ },
        ]);
        r
    }

    /// Takes the next outcome to handle, if any is left.
    pub fn next_step(&mut self) -> (r: Option<EntryOutcome>)
        ensures
            old(self).steps().len() == 0 ==> r is None && final(self).steps() == old(
                self,
            ).steps(),
            old(self).steps().len() > 0 ==> r is Some && r->0@ == old(self).steps().last()
                && final(self).steps() == old(self).steps().drop_last(),
            final(self).options == old(self).options,
    {
        let r = self.pending.pop();
        proof {
            if old(self).steps().len() > 0 {
                assert(self.steps() =~= old(self).steps().drop_last());
            }
        }
        r
    }

    /// Records the text `document` of the page `url` (whose files go under
    /// `file_path`): its outcomes come next, in listing order.
    pub fn page_loaded(&mut self, url: &str, file_path: &str, document: &str)
        ensures
            final(self).steps() == old(self).steps() + page_entries(
                CrawlStyle::Sequential,
                document@,
                url@,
                file_path@,
                old(self).options,
            ).reverse(),
            final(self).options == old(self).options,
    {
        let o = self.options;
        let entries = get_table(
            url,
            file_path,
            o.download_pdfs,
            o.download_imgs,
            o.scan_subfolders,
            document,
        );
        push_in_taking_order(&mut self.pending, entries);
    }
}

/// Position of the first line feed (byte 10) in `s`, or -1 when there is
/// none.
pub open spec fn newline_index(s: Seq<u8>) -> int
    decreases s.len(),
{
    if s.len() == 0 {
        -1
    } else if s[0] == 10u8 {
        0
    } else {
        let r = newline_index(s.skip(1));
        if r < 0 {
            -1
        } else {
            r + 1
        }
    }
}

proof fn lemma_newline_index(s: Seq<u8>, i: int)
    requires
        0 <= i <= s.len(),
        forall|k: int| 0 <= k < i ==> s[k] != 10u8,
        i < s.len() ==> s[i] == 10u8,
    ensures
        newline_index(s) == (if i < s.len() {
            i
        } else {
            -1
        }),
    decreases s.len(),
{
    if s.len() > 0 && s[0] != 10u8 {
        lemma_newline_index(s.skip(1), i - 1);
    }
}

/// A line feed position, when there is one, lies inside the text and holds a
/// line feed, with none before it.
pub proof fn lemma_newline_index_bound(s: Seq<u8>)
    ensures
        -1 <= newline_index(s) < s.len(),
        newline_index(s) >= 0 ==> s[newline_index(s)] == 10u8,
        forall|k: int|
            0 <= k < s.len() && (newline_index(s) < 0 || k < newline_index(s)) ==> s[k] != 10u8,
    decreases s.len(),
{
    if s.len() > 0 && s[0] != 10u8 {
        lemma_newline_index_bound(s.skip(1));
        assert forall|k: int|
            0 <= k < s.len() && (newline_index(s) < 0 || k < newline_index(s)) implies s[k]
            != 10u8 by {
            if k > 0 {
                assert(s[k] == s.skip(1)[k - 1]);
            }
        }
    }
}

/// A line ended by a line feed, without a carriage return (byte 13) just
/// before it.
pub open spec fn strip_cr(line: Seq<u8>) -> Seq<u8> {
    if line.len() > 0 && line.last() == 13u8 {
        line.drop_last()
    } else {
        line
    }
}

/// The lines of a file's bytes as `BufRead` splits them: at each line feed,
/// a line ended by a line feed losing a carriage return before it, and no
/// empty line after a final line feed.
pub open spec fn raw_lines(s: Seq<u8>) -> Seq<Seq<u8>>
    decreases s.len(),
{
    if s.len() == 0 {
        Seq::empty()
    } else {
        let i = newline_index(s);
        if i < 0 {
            seq![s]
        } else {
            proof {
                lemma_newline_index_bound(s);
            }
            seq![strip_cr(s.take(i))] + raw_lines(s.skip(i + 1))
        }
    }
}

/// The text of `bytes` when they are valid UTF-8 (what `std::str::from_utf8`
/// gives), `None` otherwise.
pub uninterp spec fn utf8_text(bytes: Seq<u8>) -> Option<Seq<char>>;

/// Calls `std::str::from_utf8` and copies the text into a `String`. The
/// contract claims that the result is the named function `utf8_text` of the
/// bytes: decoding depends on nothing else.
#[verifier::external_body]
fn utf8_to_string(bytes: &[u8]) -> (r: Option<String>)
    ensures
        r.deep_view() == utf8_text(bytes@),
{
    std::str::from_utf8(bytes).ok().map(|t| t.to_string())
}

/// The lines that can be read as text, in order: a line that is not valid
/// UTF-8 is left out.
pub open spec fn readable_lines(lines: Seq<Seq<u8>>) -> Seq<Seq<char>>
    decreases lines.len(),
{
    if lines.len() == 0 {
        Seq::empty()
    } else {
        let rest = readable_lines(lines.drop_last());
        match utf8_text(lines.last()) {
            Some(t) => rest.push(t),
            None => rest,
        }
    }
}

/// The bytes of `s` from `start` up to `end`.
fn copy_range(s: &[u8], start: usize, end: usize) -> (r: Vec<u8>)
    requires
        start <= end <= s@.len(),
    ensures
        r@ == s@.subrange(start as int, end as int),
{
    let mut r: Vec<u8> = Vec::new();
    let mut k: usize = start;
    while k < end
        invariant
            start <= k <= end <= s@.len(),
            r@ == s@.subrange(start as int, k as int),
        decreases end - k,
    {
        r.push(s[k]);
        k = k + 1;
        assert(r@ =~= s@.subrange(start as int, k as int));
    }
    r
}

/// Adds the line `line` to `out` when it is valid UTF-8.
fn push_readable(out: &mut Vec<String>, line: Vec<u8>)
    ensures
        final(out).deep_view() == (match utf8_text(line@) {
            Some(t) => old(out).deep_view().push(t),
            None => old(out).deep_view(),
        }),
{
    match utf8_to_string(line.as_slice()) {
        Some(t) => {
            let ghost before = out.deep_view();
            out.push(t);
            assert(out.deep_view() =~= before.push(t@));
        },
        None => {},
    }
}

/// The lines of a file's bytes `contents` that read as text, as reading the
/// file line by line and keeping the lines that succeed gives them.
pub fn read_lines(contents: &[u8]) -> (r: Vec<String>)
    ensures
        r.deep_view() == readable_lines(raw_lines(contents@)),
{
    let n = contents.len();
    let mut out: Vec<String> = Vec::new();
    let mut start: usize = 0;
    let mut i: usize = 0;
    let ghost done: Seq<Seq<u8>> = Seq::empty();
    assert(contents@.skip(0) =~= contents@);
    assert(done + raw_lines(contents@) =~= raw_lines(contents@));
    while i < n
        invariant
            n == contents@.len(),
            start <= i <= n,
            forall|k: int| start <= k < i ==> contents@[k] != 10u8,
            raw_lines(contents@) == done + raw_lines(contents@.skip(start as int)),
            out.deep_view() == readable_lines(done),
        decreases n - i,
    {
        if contents[i] == 10u8 {
            let ghost rest = contents@.skip(start as int);
            proof {
                lemma_newline_index(rest, i - start);
                assert(rest.take(i - start) =~= contents@.subrange(start as int, i as int));
                assert(rest.skip(i - start + 1) =~= contents@.skip(i + 1));
            }
            let mut end = i;
            if end > start && contents[end - 1] == 13u8 {
                end = end - 1;
            }
            let line = copy_range(contents, start, end);
            assert(line@ =~= strip_cr(contents@.subrange(start as int, i as int)));
            proof {
                assert((done.push(line@)).drop_last() =~= done);
                assert(done + raw_lines(rest) =~= done.push(line@) + raw_lines(
                    contents@.skip(i + 1),
                ));
                done = done.push(line@);
            }
            push_readable(&mut out, line);
            start = i + 1;
        }
        i = i + 1;
    }
    if start < n {
        let ghost rest = contents@.skip(start as int);
        proof {
            lemma_newline_index(rest, n - start);
            assert(raw_lines(rest) == seq![rest]);
        }
        let line = copy_range(contents, start, n);
        assert(line@ =~= rest);
        proof {
            assert((done.push(line@)).drop_last() =~= done);
            assert(done + raw_lines(rest) =~= done.push(line@));
            done = done.push(line@);
        }
        push_readable(&mut out, line);
    } else {
        assert(contents@.skip(start as int) =~= Seq::<u8>::empty());
        assert(done + Seq::<Seq<u8>>::empty() =~= done);
    }
    out
}

/// No line holds a line feed: each line stops at one.
pub proof fn law_lines_hold_no_line_feed(s: Seq<u8>)
    ensures
        forall|i: int, k: int|
            0 <= i < raw_lines(s).len() && 0 <= k < raw_lines(s)[i].len() ==> raw_lines(s)[i][k]
                != 10u8,
    decreases s.len(),
{
    if s.len() > 0 {
        lemma_newline_index_bound(s);
        let j = newline_index(s);
        if j >= 0 {
            law_lines_hold_no_line_feed(s.skip(j + 1));
            let first = strip_cr(s.take(j));
            let rest = raw_lines(s.skip(j + 1));
            assert forall|i: int, k: int|
                0 <= i < raw_lines(s).len() && 0 <= k < raw_lines(s)[i].len() implies raw_lines(
                s,
            )[i][k] != 10u8 by {
                if i == 0 {
                    assert(raw_lines(s)[0] == first);
                    assert(first[k] == s[k]);
                } else {
                    assert(raw_lines(s)[i] == rest[i - 1]);
                }
            }
        }
    }
}

/// The bytes of a file holding the lines `ls`, each followed by a line feed.
pub open spec fn joined_lines(ls: Seq<Seq<u8>>) -> Seq<u8>
    decreases ls.len(),
{
    if ls.len() == 0 {
        Seq::empty()
    } else {
        ls[0] + seq![10u8] + joined_lines(ls.skip(1))
    }
}

/// Reading gives back the lines written: for lines that hold no line feed
/// and do not end with a carriage return, splitting the file that holds
/// each of them followed by a line feed gives exactly those lines.
pub proof fn law_written_lines_read_back(ls: Seq<Seq<u8>>)
    requires
        forall|i: int, k: int| 0 <= i < ls.len() && 0 <= k < ls[i].len() ==> ls[i][k] != 10u8,
        forall|i: int| 0 <= i < ls.len() && ls[i].len() > 0 ==> ls[i].last() != 13u8,
    ensures
        raw_lines(joined_lines(ls)) == ls,
    decreases ls.len(),
{
    if ls.len() > 0 {
        let rest = ls.skip(1);
        assert forall|i: int, k: int| 0 <= i < rest.len() && 0 <= k < rest[i].len() implies rest[i][k]
            != 10u8 by {
            assert(rest[i] == ls[i + 1]);
        }
        assert forall|i: int| 0 <= i < rest.len() && rest[i].len() > 0 implies rest[i].last()
            != 13u8 by {
            assert(rest[i] == ls[i + 1]);
        }
        law_written_lines_read_back(rest);
        let first = ls[0];
        let s = joined_lines(ls);
        let n = first.len() as int;
        assert(forall|k: int| 0 <= k < n ==> s[k] == first[k]);
        assert(s[n] == 10u8);
        lemma_newline_index(s, n);
        assert(s.take(n) =~= first);
        assert(s.skip(n + 1) =~= joined_lines(rest));
        assert(seq![first] + rest =~= ls);
    }
}

/// A crawl of the pages listed one per line in `urls`, one after the other,
/// their files going under the download folder.
pub fn read_urls_from_file(
    urls: &Vec<String>,
    download_pdfs: char,
    download_imgs: char,
    scan_subfolders: char,
) -> (r: Crawler)
    ensures
        r.options == (CrawlOptions { download_pdfs, download_imgs, scan_subfolders }),
        r.steps().len() == urls@.len(),
        forall|i: int|
            0 <= i < urls@.len() ==> r.steps()[urls@.len() - 1 - i] == (Entry::Subfolder {
                create: None,
                url: urls@[i]@,
                file_path: download_root(),
            }),
{
    proof {
        reveal_strlit("Download/");
    }
    let mut pending: Vec<EntryOutcome> = Vec::new();
    let mut i: usize = urls.len();
    while i > 0
        invariant
            i <= urls@.len(),
            pending@.len() == urls@.len() - i,
            forall|j: int|
                i <= j < urls@.len() ==> pending@[urls@.len() - 1 - j]@ == (Entry::Subfolder {
                    create: None,
                    url: urls@[j]@,
                    file_path: download_root(),
                }),
        decreases i,
    {
        i = i - 1;
        let url = urls[i].clone();
        pending.push(
            EntryOutcome::Subfolder { create: None, url, file_path: String::from_str("Download/") },
        );
    }
    Crawler { pending, options: CrawlOptions { download_pdfs, download_imgs, scan_subfolders } }
}

/// Links to the parent folder and icons are never followed nor downloaded.
pub proof fn law_parent_and_icon_entries_are_skipped(
    style: CrawlStyle,
    alt: Seq<char>,
    href: Seq<char>,
    url: Seq<char>,
    file_path: Seq<char>,
    options: CrawlOptions,
)
    requires
        alt == parent_marker() || alt == icon_marker(),
    ensures
        entry_outcome(style, Some(alt), href, url, file_path, options) is Nothing,
{
}

/// A file is downloaded only when its kind was asked for: an image when the
/// images answer is `y` or `Y`, a PDF when the PDFs answer is.
pub proof fn law_downloads_need_consent(
    style: CrawlStyle,
    alt: Option<Seq<char>>,
    href: Seq<char>,
    url: Seq<char>,
    file_path: Seq<char>,
    options: CrawlOptions,
)
    ensures
        entry_outcome(style, alt, href, url, file_path, options) is Download ==> (alt == Some(
            img_marker(),
        ) && enabled(options.download_imgs)) || (alt == Some(pdf_marker()) && enabled(
            options.download_pdfs,
        )),
{
}

/// A folder is visited only when it is marked as one and subfolders are
/// scanned.
pub proof fn law_subfolders_need_scanning(
    style: CrawlStyle,
    alt: Option<Seq<char>>,
    href: Seq<char>,
    url: Seq<char>,
    file_path: Seq<char>,
    options: CrawlOptions,
)
    ensures
        entry_outcome(style, alt, href, url, file_path, options) is Subfolder ==> alt == Some(
            dir_marker(),
        ) && enabled(options.scan_subfolders),
{
}

/// Everything stays inside the download folder: the folders the sequential
/// crawler creates lie in `Download/`, the pages it visits save under the
/// current folder `file_path` (the queued crawler's under `Download/`), and
/// a file found while saving under `Download/` is saved under `Download/`.
pub proof fn law_saved_under_download_folder(
    style: CrawlStyle,
    alt: Option<Seq<char>>,
    href: Seq<char>,
    url: Seq<char>,
    file_path: Seq<char>,
    options: CrawlOptions,
)
    ensures
        match entry_outcome(style, alt, href, url, file_path, options) {
            Entry::Subfolder { create, file_path: saved, .. } => (create matches Some(c)
                ==> seq_starts_with(c, download_root())) && seq_starts_with(
                saved,
                if style == CrawlStyle::Sequential {
                    file_path
                } else {
                    download_root()
                },
            ),
            Entry::Download { folder, .. } => seq_starts_with(file_path, download_root())
                ==> seq_starts_with(folder, download_root()),
            _ => true,
        },
{
    let folder = entry_folder(style, href, url, file_path);
    let root = download_root();
    assert(folder.take(file_path.len() as int) =~= file_path);
    assert((root + href).take(root.len() as int) =~= root);
    assert(root.take(root.len() as int) =~= root);
    if seq_starts_with(file_path, root) {
        assert(folder.take(root.len() as int) =~= file_path.take(root.len() as int));
        let kept = remove_all(folder.skip(root.len() as int), after_last(href, '/'));
        assert((root + kept).take(root.len() as int) =~= root);
    }
}

/// The folder a file is saved into is the entry's folder with every
/// occurrence of the file name taken out, wherever no occurrence of the name
/// starts inside a leading `Download/`.
pub proof fn law_saved_folder_drops_the_file_name(
    style: CrawlStyle,
    alt: Option<Seq<char>>,
    href: Seq<char>,
    url: Seq<char>,
    file_path: Seq<char>,
    options: CrawlOptions,
)
    ensures
        entry_outcome(style, alt, href, url, file_path, options) matches Entry::Download {
            folder,
            ..
        } ==> {
            let f = entry_folder(style, href, url, file_path);
            let name = after_last(href, '/');
            (forall|i: int| 0 <= i < download_root().len() ==> !is_match_at(f, i, name)) ==> folder
                == remove_all(f, name)
        },
{
    let f = entry_folder(style, href, url, file_path);
    let name = after_last(href, '/');
    let root = download_root();
    if seq_starts_with(f, root) && (forall|i: int|
        0 <= i < root.len() ==> !is_match_at(f, i, name)) {
        if name.len() == 0 {
            assert(root + f.skip(root.len() as int) =~= f);
        } else {
            lemma_remove_all_keeps_prefix(f, name, root.len() as int);
        }
    }
}

/// Only the answers `y` and `Y` switch an option on; both do.
pub proof fn law_only_y_switches_on(answer: char)
    ensures
        enabled(answer) <==> (answer == 'y' || answer == 'Y'),
        enabled('y'),
        enabled('Y'),
        !enabled('n'),
        !enabled('N'),
{
}

proof fn lemma_markers_differ()
    ensures
        img_marker() != parent_marker(),
        img_marker() != icon_marker(),
        img_marker() != dir_marker(),
        pdf_marker() != parent_marker(),
        pdf_marker() != icon_marker(),
        pdf_marker() != dir_marker(),
        pdf_marker() != img_marker(),
        dir_marker() != parent_marker(),
        dir_marker() != icon_marker(),
{
    reveal_strlit("[IMG]");
    reveal_strlit("[   ]");
    reveal_strlit("[DIR]");
    reveal_strlit("[PARENTDIR]");
    reveal_strlit("[ICO]");
    assert(img_marker()[1] != parent_marker()[1]);
    assert(img_marker()[2] != icon_marker()[2]);
    assert(img_marker()[1] != dir_marker()[1]);
    assert(pdf_marker()[1] != parent_marker()[1]);
    assert(pdf_marker()[1] != icon_marker()[1]);
    assert(pdf_marker()[1] != dir_marker()[1]);
    assert(pdf_marker()[1] != img_marker()[1]);
    assert(dir_marker().len() != parent_marker().len());
    assert(dir_marker()[1] != icon_marker()[1]);
}

/// An image entry is downloaded, from the page address followed by the
/// link, exactly when the answer to downloading images is `y` or `Y`, and
/// otherwise reported as an image left alone; likewise a PDF entry with the
/// answer to downloading PDFs.
pub proof fn law_consent_downloads(
    style: CrawlStyle,
    href: Seq<char>,
    url: Seq<char>,
    file_path: Seq<char>,
    options: CrawlOptions,
)
    ensures
        ({
            let page = if style == CrawlStyle::Sequential {
                url
            } else {
                with_trailing_slash(url)
            };
            &&& (options.download_imgs == 'y' || options.download_imgs == 'Y') ==> (entry_outcome(
                style,
                Some(img_marker()),
                href,
                url,
                file_path,
                options,
            ) matches Entry::Download { url: u, .. } && u == page + href)
            &&& !(options.download_imgs == 'y' || options.download_imgs == 'Y') ==> entry_outcome(
                style,
                Some(img_marker()),
                href,
                url,
                file_path,
                options,
            ) == (Entry::NotDownloaded { kind: FileKind::Image, link: page + href })
            &&& (options.download_pdfs == 'y' || options.download_pdfs == 'Y') ==> (entry_outcome(
                style,
                Some(pdf_marker()),
                href,
                url,
                file_path,
                options,
            ) matches Entry::Download { url: u, .. } && u == page + href)
            &&& !(options.download_pdfs == 'y' || options.download_pdfs == 'Y') ==> entry_outcome(
                style,
                Some(pdf_marker()),
                href,
                url,
                file_path,
                options,
            ) == (Entry::NotDownloaded { kind: FileKind::Pdf, link: page + href })
        }),
{
    lemma_markers_differ();
}

/// A folder entry is visited whenever the answer to scanning subfolders is
/// `y` or `Y`, for either crawler: its page is the page address followed by
/// the link, the sequential crawler creating `Download/` followed by the
/// link and saving under the current folder extended by the link, the
/// queued one saving under `Download/`. With any other answer nothing is
/// done.
pub proof fn law_subfolders_are_visited_when_scanning(
    style: CrawlStyle,
    href: Seq<char>,
    url: Seq<char>,
    file_path: Seq<char>,
    options: CrawlOptions,
)
    ensures
        (options.scan_subfolders == 'y' || options.scan_subfolders == 'Y') ==> entry_outcome(
            style,
            Some(dir_marker()),
            href,
            url,
            file_path,
            options,
        ) == (if style == CrawlStyle::Sequential {
            Entry::Subfolder {
                create: Some(download_root() + href),
                url: url + href,
                file_path: file_path + before_nth(href, '/', 2),
            }
        } else {
            Entry::Subfolder {
                create: None,
                url: with_trailing_slash(url) + href,
                file_path: download_root(),
            }
        }),
        !(options.scan_subfolders == 'y' || options.scan_subfolders == 'Y') ==> entry_outcome(
            style,
            Some(dir_marker()),
            href,
            url,
            file_path,
            options,
        ) == Entry::Nothing,
{
    lemma_markers_differ();
}

/// A downloaded file's name holds no `/`: the file lands directly in the
/// folder it is saved to.
pub proof fn law_file_names_hold_no_slash(url: Seq<char>)
    ensures
        !after_last(url, '/').contains('/'),
{
    lemma_after_last_has_no(url, '/');
}

/// Depth-first order: once a page's outcomes are put on a crawl's pending
/// steps, the next steps taken are that page's outcomes in listing order,
/// and after them the steps that were pending before.
pub proof fn law_page_entries_come_out_in_order(base: Seq<Entry>, page: Seq<Entry>, k: int)
    requires
        0 <= k <= page.len(),
    ensures
        (base + page.reverse()).take(base.len() + page.len() - k) == base + page.skip(k).reverse(),
        k < page.len() ==> (base + page.reverse()).take(base.len() + page.len() - k).last()
            == page[k],
{
    let s = base + page.reverse();
    assert(s.take(base.len() + page.len() - k) =~= base + page.skip(k).reverse());
}

} // verus!

//! The crawler that queues its downloads: it visits subfolders as it meets
//! them, collects every file to fetch, and hands the whole queue over at the
//! end, last queued first, for concurrent downloading.

use vstd::prelude::*;
use vstd::string::*;
use crate::crawler::{
    download_file_from_url_with_folder, entries_view, entry_outcome, page_entries, plan_entry,
    plan_rows, rows_entries, rows_view, CrawlOptions, CrawlStyle, Entry, EntryOutcome,
    FileDownload, fetch_needed, push_in_taking_order,
};
use crate::text::after_last;
use crate::listing::{ListingRow, listing_rows};

verus! {

/// A file waiting to be downloaded: its address and the folder it goes to.
#[derive(Debug, PartialEq, Eq)]
pub struct DownloadableFile {
    pub url: String,
    pub input_path: String,
}

/// A queued file as mathematical values: (address, folder).
pub open spec fn file_view(f: DownloadableFile) -> (Seq<char>, Seq<char>) {
    (f.url@, f.input_path@)
}

/// The mathematical values of a queue of files.
pub open spec fn files_view(v: Seq<DownloadableFile>) -> Seq<(Seq<char>, Seq<char>)> {
    v.map_values(|f: DownloadableFile| file_view(f))
}

/// What one entry asks the queued crawler for.
pub fn get_images(
    alt: &Option<String>,
    href: &str,
    url: &str,
    file_path: &str,
    download_pdfs: char,
    download_imgs: char,
    scan_subfolders: char,
) -> (r: EntryOutcome)
    ensures
        r@ == entry_outcome(
            CrawlStyle::Queued,
            alt.deep_view(),
            href@,
            url@,
            file_path@,
            (CrawlOptions { download_pdfs, download_imgs, scan_subfolders }),
        ),
{
    let options = CrawlOptions { download_pdfs, download_imgs, scan_subfolders };
    plan_entry(CrawlStyle::Queued, alt, href, url, file_path, options)
}

/// What the entries of a parsed listing ask the queued crawler for.
pub fn extract_table(
    url: &str,
    file_path: &str,
    download_pdfs: char,
    download_imgs: char,
    scan_subfolders: char,
    rows: &Vec<ListingRow>,
) -> (r: Vec<EntryOutcome>)
    ensures
        entries_view(r@) == rows_entries(
            CrawlStyle::Queued,
            rows_view(rows@),
            url@,
            file_path@,
            (CrawlOptions { download_pdfs, download_imgs, scan_subfolders }),
        ),
{
    let options = CrawlOptions { download_pdfs, download_imgs, scan_subfolders };
    plan_rows(CrawlStyle::Queued, rows, url, file_path, options)
}

/// What the page text `document`, read from `url`, asks the queued crawler
/// to do, its files going under `file_path`.
pub fn get_table(
    url: &str,
    file_path: &str,
    download_pdfs: char,
    download_imgs: char,
    scan_subfolders: char,
    document: &str,
) -> (r: Vec<EntryOutcome>)
    ensures
        entries_view(r@) == page_entries(
            CrawlStyle::Queued,
            document@,
            url@,
            file_path@,
            (CrawlOptions { download_pdfs, download_imgs, scan_subfolders }),
        ),
{
    let rows = listing_rows(document);
    extract_table(url, file_path, download_pdfs, download_imgs, scan_subfolders, &rows)
}

/// The queue after taking the step `e`: a download is appended to it,
/// anything else leaves it as it is.
pub open spec fn queue_after(q: Seq<(Seq<char>, Seq<char>)>, e: Entry) -> Seq<
    (Seq<char>, Seq<char>),
> {
    match e {
        Entry::Download { url, folder } => q.push((url, folder)),
        _ => q,
    }
}

/// The queue after taking the steps `steps` in turn, starting from `q`.
pub open spec fn queue_after_steps(q: Seq<(Seq<char>, Seq<char>)>, steps: Seq<Entry>) -> Seq<
    (Seq<char>, Seq<char>),
>
    decreases steps.len(),
{
    if steps.len() == 0 {
        q
    } else {
        queue_after(queue_after_steps(q, steps.drop_last()), steps.last())
    }
}

/// The files that the downloads among `steps` name, in order.
pub open spec fn downloads_among(steps: Seq<Entry>) -> Seq<(Seq<char>, Seq<char>)>
    decreases steps.len(),
{
    if steps.len() == 0 {
        Seq::empty()
    } else {
        queue_after(downloads_among(steps.drop_last()), steps.last())
    }
}

/// The queue only grows: after any steps taken in turn it is the queue
/// before them followed by the files their downloads name, in the order the
/// steps were taken. Files queued earlier are never dropped nor reordered,
/// and the files of a subfolder come after those queued before it.
pub proof fn law_queue_only_grows(q: Seq<(Seq<char>, Seq<char>)>, steps: Seq<Entry>)
    ensures
        queue_after_steps(q, steps) == q + downloads_among(steps),
        queue_after_steps(q, steps).take(q.len() as int) == q,
    decreases steps.len(),
{
    if steps.len() > 0 {
        law_queue_only_grows(q, steps.drop_last());
        let d = downloads_among(steps.drop_last());
        match steps.last() {
            Entry::Download { url, folder } => {
                assert((q + d).push((url, folder)) =~= q + d.push((url, folder)));
            },
            _ => {},
        }
    }
    assert((q + downloads_among(steps)).take(q.len() as int) =~= q);
}

/// A crawl as mathematical values: the outcomes still to handle (the next
/// one last) and the files queued so far.
pub type CrawlModel = (Seq<Entry>, Seq<(Seq<char>, Seq<char>)>);

/// One round of a queued crawl over `site` (the text of each page that can
/// be read, by address), as `next_step` followed by `page_loaded` make it:
/// the next outcome is taken, a download joining the queue, and when it is
/// a page that can be read, that page's outcomes come next.
pub open spec fn crawl_step(
    site: Map<Seq<char>, Seq<char>>,
    options: CrawlOptions,
    st: CrawlModel,
) -> CrawlModel {
    let steps = st.0;
    let q = st.1;
    if steps.len() == 0 {
        st
    } else {
        let e = steps.last();
        let rest = steps.drop_last();
        let q2 = queue_after(q, e);
        match e {
            Entry::Subfolder { url, file_path, .. } => if site.dom().contains(url) {
                (
                    rest + page_entries(CrawlStyle::Queued, site[url], url, file_path, options).reverse(),
                    q2,
                )
            } else {
                (rest, q2)
            },
            _ => (rest, q2),
        }
    }
}

/// `n` rounds of a queued crawl over `site`.
pub open spec fn crawl_run(
    site: Map<Seq<char>, Seq<char>>,
    options: CrawlOptions,
    st: CrawlModel,
    n: nat,
) -> CrawlModel
    decreases n,
{
    if n == 0 {
        st
    } else {
        crawl_run(site, options, crawl_step(site, options, st), (n - 1) as nat)
    }
}

/// The files that handling the outcomes `es` in order queues, depth first:
/// a download its file, a page that can be read the files of its outcomes
/// before those of the outcomes after it. `None` when pages nest deeper
/// than `depth`.
pub open spec fn entries_files(
    site: Map<Seq<char>, Seq<char>>,
    options: CrawlOptions,
    es: Seq<Entry>,
    depth: nat,
) -> Option<Seq<(Seq<char>, Seq<char>)>>
    decreases depth, es.len(),
{
    if es.len() == 0 {
        Some(Seq::empty())
    } else {
        let first: Option<Seq<(Seq<char>, Seq<char>)>> = match es[0] {
            Entry::Download { url, folder } => Some(seq![(url, folder)]),
            Entry::Subfolder { url, file_path, .. } => if !site.dom().contains(url) {
                Some(Seq::empty())
            } else if depth == 0 {
                None
            } else {
                entries_files(
                    site,
                    options,
                    page_entries(CrawlStyle::Queued, site[url], url, file_path, options),
                    (depth - 1) as nat,
                )
            },
            _ => Some(Seq::empty()),
        };
        match first {
            Some(a) => match entries_files(site, options, es.skip(1), depth) {
                Some(b) => Some(a + b),
                None => None,
            },
            None => None,
        }
    }
}

proof fn lemma_crawl_run_add(
    site: Map<Seq<char>, Seq<char>>,
    options: CrawlOptions,
    st: CrawlModel,
    a: nat,
    b: nat,
)
    ensures
        crawl_run(site, options, st, a + b) == crawl_run(
            site,
            options,
            crawl_run(site, options, st, a),
            b,
        ),
    decreases a,
{
    if a > 0 {
        lemma_crawl_run_add(site, options, crawl_step(site, options, st), (a - 1) as nat, b);
        assert((a + b - 1) as nat == ((a - 1) as nat + b));
    }
}

/// A crawl handles a page completely before what was pending under it, and
/// queues exactly the files that its outcomes lead to, depth first: once
/// the outcomes `es` are on top of the pending steps `base`, some number of
/// rounds brings the crawl back to `base` with the queue grown by the files
/// of `es` (a subfolder's files, saved under `Download/`, coming where the
/// subfolder stands), whenever the pages nest no deeper than some `depth`.
pub proof fn law_crawl_queues_files_depth_first(
    site: Map<Seq<char>, Seq<char>>,
    options: CrawlOptions,
    base: Seq<Entry>,
    es: Seq<Entry>,
    q: Seq<(Seq<char>, Seq<char>)>,
    depth: nat,
)
    requires
        entries_files(site, options, es, depth) is Some,
    ensures
        exists|n: nat|
            #[trigger] crawl_run(site, options, (base + es.reverse(), q), n) == (
                base,
                q + entries_files(site, options, es, depth)->0,
            ),
    decreases depth, es.len(),
{
    let st0: CrawlModel = (base + es.reverse(), q);
    let files = entries_files(site, options, es, depth)->0;
    if es.len() == 0 {
        assert(base + es.reverse() =~= base);
        assert(q + files =~= q);
        assert(crawl_run(site, options, st0, 0) == (base, q + files));
    } else {
        let e = es[0];
        let tail = es.skip(1);
        let rest = base + tail.reverse();
        assert(st0.0.drop_last() =~= rest);
        assert(st0.0.last() == e);
        let tail_files = entries_files(site, options, tail, depth)->0;
        let st1 = crawl_step(site, options, st0);
        let mut mid: Seq<(Seq<char>, Seq<char>)> = Seq::empty();
        let mut n1: nat = 0;
        match e {
            Entry::Subfolder { url, file_path, .. } => {
                if site.dom().contains(url) {
                    let page = page_entries(CrawlStyle::Queued, site[url], url, file_path, options);
                    law_crawl_queues_files_depth_first(
                        site,
                        options,
                        rest,
                        page,
                        q,
                        (depth - 1) as nat,
                    );
                    mid = entries_files(site, options, page, (depth - 1) as nat)->0;
                    n1 = choose|n: nat|
                        #[trigger] crawl_run(site, options, (rest + page.reverse(), q), n) == (
                            rest,
                            q + mid,
                        );
                }
            },
            _ => {},
        }
        let q1 = match e {
            Entry::Download { url, folder } => q.push((url, folder)),
            _ => q + mid,
        };
        assert(crawl_run(site, options, st1, n1) == (rest, q1));
        law_crawl_queues_files_depth_first(site, options, base, tail, q1, depth);
        let n2 = choose|n: nat|
            #[trigger] crawl_run(site, options, (base + tail.reverse(), q1), n) == (
                base,
                q1 + tail_files,
            );
        lemma_crawl_run_add(site, options, st1, n1, n2);
        assert(crawl_run(site, options, st0, n1 + n2 + 1) == crawl_run(
            site,
            options,
            st1,
            n1 + n2,
        ));
        match e {
            Entry::Download { url, folder } => {
                assert(q1 + tail_files =~= q + (seq![(url, folder)] + tail_files));
            },
            _ => {
                assert(q1 + tail_files =~= q + (mid + tail_files));
            },
        }
        assert(crawl_run(site, options, st0, n1 + n2 + 1) == (base, q + files));
    }
}

/// A queued crawl in progress: outcomes still to handle (the next one last)
/// and the files queued so far, in the order they were met.
#[derive(Debug)]
pub struct ThreadedCrawl {
    pub pending: Vec<EntryOutcome>,
    pub files: Vec<DownloadableFile>,
    pub options: CrawlOptions,
}

impl ThreadedCrawl {
    /// The outcomes still to handle, the next one last.
    pub open spec fn steps(&self) -> Seq<Entry> {
        entries_view(self.pending@)
    }

    /// The files queued so far, in the order they were met.
    pub open spec fn queue(&self) -> Seq<(Seq<char>, Seq<char>)> {
        files_view(self.files@)
    }

    /// Takes the next outcome to handle, if any is left. A file to download
    /// is moved to the end of the queue as it is taken.
    pub fn next_step(&mut self) -> (r: Option<EntryOutcome>)
        ensures
            old(self).steps().len() == 0 ==> r is None && final(self).steps() == old(
                self,
            ).steps() && final(self).queue() == old(self).queue(),
            old(self).steps().len() > 0 ==> r is Some && r->0@ == old(self).steps().last()
                && final(self).steps() == old(self).steps().drop_last() && final(self).queue() == queue_after(
                old(self).queue(),
                old(self).steps().last(),
            ),
            final(self).options == old(self).options,
    {
        let r = self.pending.pop();
        let ghost q = self.queue();
        match &r {
            Some(EntryOutcome::Download { url, folder }) => {
                self.files.push(DownloadableFile { url: url.clone(), input_path: folder.clone() });
                assert(self.queue() =~= q.push((url@, folder@)));
            },
            _ => {},
        }
        proof {
            if old(self).steps().len() > 0 {
                assert(self.steps() =~= old(self).steps().drop_last());
            }
        }
        r
    }

    /// Records the text `document` of the page `url` (whose files go under
    /// `file_path`): its outcomes come next, in listing order.
    pub fn page_loaded(&mut self, url: &str, file_path: &str, document: &str)
        ensures
            final(self).steps() == old(self).steps() + page_entries(
                CrawlStyle::Queued,
                document@,
                url@,
                file_path@,
                old(self).options,
            ).reverse(),
            final(self).queue() == old(self).queue(),
            final(self).options == old(self).options,
    {
        let o = self.options;
        let entries = get_table(
            url,
            file_path,
            o.download_pdfs,
            o.download_imgs,
            o.scan_subfolders,
            document,
        );
        push_in_taking_order(&mut self.pending, entries);
    }

    /// Hands over the queued files in the order they are started: the last
    /// queued first. The queue is left empty.
    pub fn take_downloads(&mut self) -> (r: Vec<DownloadableFile>)
        ensures
            files_view(r@) == old(self).queue().reverse(),
            final(self).queue() == Seq::<(Seq<char>, Seq<char>)>::empty(),
            final(self).steps() == old(self).steps(),
            final(self).options == old(self).options,
    {
        let ghost all = self.queue();
        let mut out: Vec<DownloadableFile> = Vec::new();
        assert(files_view(out@) =~= all.skip(all.len() as int).reverse());
        while self.files.len() > 0
            invariant
                self.queue() == all.take(self.files@.len() as int),
                self.files@.len() <= all.len(),
                files_view(out@) == all.skip(self.files@.len() as int).reverse(),
                self.steps() == old(self).steps(),
                self.options == old(self).options,
            decreases self.files@.len(),
        {
            let ghost n = self.files@.len() as int;
            let ghost before = self.files@;
            let f = self.files.pop().unwrap();
            assert(files_view(before)[n - 1] == file_view(before[n - 1]));
            assert(all.take(n)[n - 1] == all[n - 1]);
            let ghost out_before = files_view(out@);
            out.push(f);
            assert(files_view(out@) =~= out_before.push(all[n - 1]));
            assert(all.skip(n - 1).reverse() =~= all.skip(n).reverse().push(all[n - 1]));
            assert(self.queue() =~= all.take(n - 1));
        }
        assert(all.skip(0) =~= all);
        assert(self.queue() =~= Seq::<(Seq<char>, Seq<char>)>::empty());
        out
    }
}

/// A round of the crawl loop is `crawl_step`: taking the next outcome with
/// `next_step` and then, when it is a page that can be read, recording its
/// text with `page_loaded`, moves the crawl's steps and queue as
/// `crawl_step` says.
pub proof fn law_round_is_crawl_step(
    site: Map<Seq<char>, Seq<char>>,
    c0: ThreadedCrawl,
    r: Option<EntryOutcome>,
    c1: ThreadedCrawl,
    c2: ThreadedCrawl,
)
    requires
        c0.steps().len() == 0 ==> r is None && c1.steps() == c0.steps() && c1.queue()
            == c0.queue(),
        c0.steps().len() > 0 ==> r is Some && r->0@ == c0.steps().last() && c1.steps()
            == c0.steps().drop_last() && c1.queue() == queue_after(c0.queue(), c0.steps().last()),
        c1.options == c0.options,
        match r {
            Some(EntryOutcome::Subfolder { url, file_path, .. }) => if site.dom().contains(url@) {
                c2.steps() == c1.steps() + page_entries(
                    CrawlStyle::Queued,
                    site[url@],
                    url@,
                    file_path@,
                    c1.options,
                ).reverse() && c2.queue() == c1.queue()
            } else {
                c2.steps() == c1.steps() && c2.queue() == c1.queue()
            },
            _ => c2.steps() == c1.steps() && c2.queue() == c1.queue(),
        },
    ensures
        (c2.steps(), c2.queue()) == crawl_step(site, c0.options, (c0.steps(), c0.queue())),
{
}

/// A queued crawl of the page `url`, its files going under `file_path`
/// (the start of a threaded download).
pub fn download_threaded(
    url: &str,
    file_path: &str,
    download_pdfs: char,
    download_imgs: char,
    scan_subfolders: char,
) -> (r: ThreadedCrawl)
    ensures
        r.steps() == seq![Entry::Subfolder { create: None, url: url@, file_path: file_path@ }],
        r.queue() == Seq::<(Seq<char>, Seq<char>)>::empty(),
        r.options == (CrawlOptions { download_pdfs, download_imgs, scan_subfolders }),
{
    let options = CrawlOptions { download_pdfs, download_imgs, scan_subfolders };
    let mut pending: Vec<EntryOutcome> = Vec::new();
    pending.push(
        EntryOutcome::Subfolder {
            create: None,
            url: String::from_str(url),
            file_path: String::from_str(file_path),
        },
    );
    let r = ThreadedCrawl { pending, files: Vec::new(), options };
    assert(r.steps() =~= seq![
        Entry::Subfolder { create: None, url: url@, file_path: file_path@ },
    ]);
    assert(r.queue() =~= Seq::<(Seq<char>, Seq<char>)>::empty());
    r
}

/// Where the queued file `file` goes and, given whether that path already
/// exists and whether existing files are overridden, whether it is fetched.
pub fn download_decision(
    file: &DownloadableFile,
    already_exists: bool,
    override_existing: bool,
) -> (r: FileDownload)
    ensures
        r.target.file_name@ == after_last(file.url@, '/'),
        r.target.path@ == file.input_path@ + after_last(file.url@, '/'),
        r.target.file_type@ == after_last(after_last(file.url@, '/'), '.'),
        r.fetch == fetch_needed(already_exists, override_existing),
{
    download_file_from_url_with_folder(
        file.url.as_str(),
        file.input_path.as_str(),
        already_exists,
        override_existing,
    )
}

} // verus!

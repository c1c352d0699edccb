//! Turning the page images of downloaded books into PDFs: which folders get
//! a PDF, which images go into it, in which order, and where it is written.

use vstd::prelude::*;
use vstd::string::*;
use jpeg_to_pdf::JpegToPdf;
use crate::text::{
    after_last, before_last, chars_of, concat_str, contains_str, last_index_of, lemma_split_at_last,
    seq_contains, seq_starts_with, str_eq,
};

verus! {

/// The PDF builder of the `jpeg_to_pdf` crate, used as an opaque value.
#[verifier::external_type_specification]
#[verifier::external_body]
pub struct ExJpegToPdf(JpegToPdf);

/// The JPEG images added to a builder so far, in order.
pub uninterp spec fn builder_images(b: JpegToPdf) -> Seq<Seq<u8>>;

/// Position of the first image that `jpeg_to_pdf` cannot embed (one whose
/// JPEG header or sections it cannot read), or `None` when it can embed all.
pub uninterp spec fn rejected_image(images: Seq<Seq<u8>>) -> Option<nat>;

/// `bytes` is a PDF document that `jpeg_to_pdf` made of `images`: one page
/// per image, each page showing its image, in the order of `images`.
pub uninterp spec fn pdf_of_images(images: Seq<Seq<u8>>, bytes: Seq<u8>) -> bool;

/// `JpegToPdf::new` starts a builder with no images.
pub assume_specification[ JpegToPdf::new ]() -> (r: JpegToPdf)
    ensures
        builder_images(r) == Seq::<Seq<u8>>::empty(),
;

/// `JpegToPdf::add_image` appends one image to the builder.
pub assume_specification[ JpegToPdf::add_image ](b: JpegToPdf, image: Vec<u8>) -> (r: JpegToPdf)
    ensures
        builder_images(r) == builder_images(b).push(image@),
;

/// The header every PDF file begins with: `%PDF-`.
pub open spec fn pdf_header() -> Seq<u8> {
    seq![37u8, 80u8, 68u8, 70u8, 45u8]
}

/// Calls `JpegToPdf::create_pdf`, writing into memory. It fails, with the
/// position of the image concerned, exactly when an image cannot be
/// embedded; writing into a `Vec` cannot fail. A PDF that is made is a PDF
/// of the builder's images, one page per image in order, and begins with the
/// `%PDF-` header (lopdf writes it first). Its exact bytes are not named, as
/// they hold the time of creation and a random document identifier.
#[verifier::external_body]
fn create_pdf_bytes(b: JpegToPdf) -> (r: Result<Vec<u8>, usize>)
    ensures
        r is Ok <==> rejected_image(builder_images(b)) is None,
        r matches Err(i) ==> rejected_image(builder_images(b)) == Some(i as nat) && i
            < builder_images(b).len(),
        r matches Ok(bytes) ==> bytes@.len() >= 5 && bytes@.take(5) == pdf_header(),
        r matches Ok(bytes) ==> pdf_of_images(builder_images(b), bytes@),
{
    let mut out = std::io::BufWriter::new(Vec::new());
    match b.create_pdf(&mut out) {
        Ok(()) => Ok(out.into_inner().unwrap()),
        Err(e) => Err(e.index),
    }
}

/// The contents of a folder, as listed by reading the directory, in the
/// order the listing gives them.
#[derive(Debug, PartialEq, Eq)]
pub struct FolderTree {
    pub entries: Vec<FolderEntry>,
}

/// One entry of a folder listing.
#[derive(Debug, PartialEq, Eq)]
pub enum FolderEntry {
    /// A directory (or a link to one) and what it holds.
    Folder { name: String, contents: FolderTree },
    /// A regular file; `data` holds its bytes when its extension is `jpg`
    /// (the only files whose bytes are used).
    File { name: String, data: Vec<u8> },
    /// Anything else: a link to a file, a socket, a broken link.
    Other { name: String },
}

/// `base` joined with `name` as a path: a `/` is put between them unless
/// `base` is empty or already ends with one.
pub open spec fn join_path(base: Seq<char>, name: Seq<char>) -> Seq<char> {
    if base.len() == 0 {
        name
    } else if base.last() == '/' {
        base + name
    } else {
        base + seq!['/'] + name
    }
}

/// The folder that holds the entry at `path`: what comes before its last
/// `/`.
pub open spec fn parent_path(path: Seq<char>) -> Seq<char> {
    before_last(path, '/')
}

/// The extension of a file name: the part after the last `.`, provided
/// there is a `.` and something before it; `None` otherwise (and for `..`).
pub open spec fn name_extension(name: Seq<char>) -> Option<Seq<char>> {
    if name == seq!['.', '.'] || !name.contains('.') || before_last(name, '.').len() == 0 {
        None
    } else {
        Some(after_last(name, '.'))
    }
}

/// The extension that marks a page image.
pub open spec fn jpg() -> Seq<char> {
    seq!['j', 'p', 'g']
}

/// The folders whose path holds this text get a PDF.
pub open spec fn pdf_images_marker() -> Seq<char> {
    "pdf_images"@
}

/// Whether an entry is a page image: a file with extension `jpg`.
pub open spec fn is_page_image(e: FolderEntry) -> bool {
    match e {
        FolderEntry::File { name, .. } => name_extension(name@) == Some(jpg()),
        _ => false,
    }
}

/// The names of the page images among `entries`, in order.
pub open spec fn page_names(entries: Seq<FolderEntry>) -> Seq<Seq<char>>
    decreases entries.len(),
{
    if entries.len() == 0 {
        Seq::empty()
    } else {
        let rest = page_names(entries.drop_last());
        match entries.last() {
            FolderEntry::File { name, data } => if is_page_image(entries.last()) {
                rest.push(name@)
            } else {
                rest
            },
            _ => rest,
        }
    }
}

/// The bytes of the page images among `entries`, in order.
pub open spec fn page_images(entries: Seq<FolderEntry>) -> Seq<Seq<u8>>
    decreases entries.len(),
{
    if entries.len() == 0 {
        Seq::empty()
    } else {
        let rest = page_images(entries.drop_last());
        match entries.last() {
            FolderEntry::File { name, data } => if is_page_image(entries.last()) {
                rest.push(data@)
            } else {
                rest
            },
            _ => rest,
        }
    }
}

/// A PDF to make: the images of the folder `source` (named `pages`, with
/// bytes `images`), written to `out_path` in the folder `folder` above it.
pub struct PlannedPdf {
    pub source: Seq<char>,
    pub folder: Seq<char>,
    pub out_path: Seq<char>,
    pub pages: Seq<Seq<char>>,
    pub images: Seq<Seq<u8>>,
}

/// The PDF made for the folder at `path` holding `entries`, if its path
/// holds `pdf_images`.
pub open spec fn own_pdf(path: Seq<char>, entries: Seq<FolderEntry>) -> Seq<PlannedPdf> {
    if seq_contains(path, pdf_images_marker()) {
        seq![
            PlannedPdf {
                source: path,
                folder: parent_path(path),
                out_path: join_path(parent_path(path), "out.pdf"@),
                pages: page_names(entries),
                images: page_images(entries),
            },
        ]
    } else {
        Seq::empty()
    }
}

/// The PDFs made while going through a folder at `path`: those of each
/// subfolder in listing order (each subfolder being finished when it is
/// met), then the folder's own.
pub open spec fn folder_pdfs(path: Seq<char>, tree: FolderTree) -> Seq<PlannedPdf>
    decreases tree, 1int,
{
    entries_pdfs(path, tree.entries@) + own_pdf(path, tree.entries@)
}

/// The PDFs made for the subfolders among `entries` of the folder at `path`.
pub open spec fn entries_pdfs(path: Seq<char>, entries: Seq<FolderEntry>) -> Seq<PlannedPdf>
    decreases entries, 0int,
{
    if entries.len() == 0 {
        Seq::empty()
    } else {
        entries_pdfs(path, entries.drop_last()) + match entries.last() {
            FolderEntry::Folder { name, contents } => folder_pdfs(
                join_path(path, name@),
                contents,
            ),
            _ => Seq::empty(),
        }
    }
}

/// Every regular file in the folder (and in its subfolders) has an
/// extension.
pub open spec fn names_have_extensions(tree: FolderTree) -> bool
    decreases tree, 1int,
{
    entries_have_extensions(tree.entries@)
}

/// Every regular file among `entries` (and in their subfolders) has an
/// extension.
pub open spec fn entries_have_extensions(entries: Seq<FolderEntry>) -> bool
    decreases entries, 0int,
{
    if entries.len() == 0 {
        true
    } else {
        entries_have_extensions(entries.drop_last()) && match entries.last() {
            FolderEntry::File { name, .. } => name_extension(name@) is Some,
            FolderEntry::Folder { contents, .. } => names_have_extensions(contents),
            FolderEntry::Other { .. } => true,
        }
    }
}

proof fn lemma_entry_has_extension(entries: Seq<FolderEntry>, k: int)
    requires
        entries_have_extensions(entries),
        0 <= k < entries.len(),
    ensures
        match entries[k] {
            FolderEntry::File { name, .. } => name_extension(name@) is Some,
            FolderEntry::Folder { contents, .. } => names_have_extensions(contents),
            FolderEntry::Other { .. } => true,
        },
    decreases entries.len(),
{
    if k < entries.len() - 1 {
        lemma_entry_has_extension(entries.drop_last(), k);
    }
}

proof fn lemma_pages_len(entries: Seq<FolderEntry>)
    ensures
        page_names(entries).len() == page_images(entries).len(),
    decreases entries.len(),
{
    if entries.len() > 0 {
        lemma_pages_len(entries.drop_last());
    }
}

/// The extension of a file name (`name_extension`).
pub fn file_extension(name: &str) -> (r: Option<String>)
    ensures
        r.deep_view() == name_extension(name@),
{
    let v = chars_of(name);
    let n = v.len();
    if n == 2 && v[0] == '.' && v[1] == '.' {
        assert(name@ =~= seq!['.', '.']);
        return None;
    }
    assert(name@ != seq!['.', '.']);
    match last_index_of(&v, '.') {
        None => {
            assert(!name@.contains('.'));
            None
        },
        Some(j) => {
            proof {
                lemma_split_at_last(name@, '.', j as int);
                assert(name@.contains('.'));
            }
            if j == 0 {
                None
            } else {
                let e = String::from_str(name.substring_char(j + 1, n));
                assert(name@.subrange(j + 1, n as int) =~= name@.skip(j + 1));
                Some(e)
            }
        },
    }
}

/// `base` joined with `name` as a path (`join_path`).
pub fn join_path_str(base: &str, name: &str) -> (r: String)
    ensures
        r@ == join_path(base@, name@),
{
    proof {
        reveal_strlit("/");
    }
    let v = chars_of(base);
    if v.len() == 0 {
        String::from_str(name)
    } else if v[v.len() - 1] == '/' {
        concat_str(base, name)
    } else {
        let mut r = concat_str(base, "/");
        r.append(name);
        r
    }
}

/// The folder that holds the entry at `path` (`parent_path`).
pub fn parent_path_str(path: &str) -> (r: String)
    ensures
        r@ == parent_path(path@),
{
    let v = chars_of(path);
    match last_index_of(&v, '/') {
        None => {
            proof {
                lemma_split_at_last(path@, '/', -1);
            }
            String::new()
        },
        Some(j) => {
            proof {
                lemma_split_at_last(path@, '/', j as int);
            }
            let r = String::from_str(path.substring_char(0, j));
            assert(path@.subrange(0, j as int) =~= path@.take(j as int));
            r
        },
    }
}

/// Whether every regular file in the folder has an extension: going
/// through a folder with a file that has none is refused.
pub fn all_files_have_extensions(tree: &FolderTree) -> (r: bool)
    ensures
        r == names_have_extensions(*tree),
    decreases tree,
{
    let mut i: usize = 0;
    while i < tree.entries.len()
        invariant
            i <= tree.entries@.len(),
            entries_have_extensions(tree.entries@.take(i as int)),
        decreases tree.entries@.len() - i,
    {
        let ok = match &tree.entries[i] {
            FolderEntry::File { name, .. } => file_extension(name.as_str()).is_some(),
            FolderEntry::Folder { contents, .. } => all_files_have_extensions(contents),
            FolderEntry::Other { .. } => true,
        };
        assert(tree.entries@.take(i + 1).drop_last() =~= tree.entries@.take(i as int));
        if !ok {
            proof {
                if entries_have_extensions(tree.entries@) {
                    lemma_entry_has_extension(tree.entries@, i as int);
                }
            }
            return false;
        }
        i = i + 1;
    }
    assert(tree.entries@.take(i as int) =~= tree.entries@);
    true
}

/// Why a PDF could not be made: the position and name of the page image
/// that could not be embedded.
#[derive(Debug, PartialEq, Eq)]
pub struct PdfError {
    pub index: usize,
    pub page: String,
}

/// A PDF made from the page images of the folder `source`, to be written to
/// `out_path` in the folder `folder`.
#[derive(Debug, PartialEq, Eq)]
pub struct PdfOutput {
    pub source: String,
    pub folder: String,
    pub out_path: String,
    pub pages: Vec<String>,
    pub pdf: Result<Vec<u8>, PdfError>,
}

/// An output is the planned PDF: same folders, same pages in the same
/// order, it failed exactly when an image could not be embedded, and when
/// made it is a PDF of the planned images, one page per image in order,
/// beginning with `%PDF-`.
pub open spec fn output_matches(o: PdfOutput, p: PlannedPdf) -> bool {
    &&& o.source@ == p.source
    &&& o.folder@ == p.folder
    &&& o.out_path@ == p.out_path
    &&& o.pages.deep_view() == p.pages
    &&& (o.pdf is Ok <==> rejected_image(p.images) is None)
    &&& (o.pdf matches Err(e) ==> rejected_image(p.images) == Some(e.index as nat) && e.index
        < p.pages.len() && e.page@ == p.pages[e.index as int])
    &&& (o.pdf matches Ok(bytes) ==> bytes@.len() >= 5 && bytes@.take(5) == pdf_header())
    &&& (o.pdf matches Ok(bytes) ==> pdf_of_images(p.images, bytes@))
}

/// The outputs are the planned PDFs, one for one and in order.
pub open spec fn outputs_match(os: Seq<PdfOutput>, ps: Seq<PlannedPdf>) -> bool {
    &&& os.len() == ps.len()
    &&& forall|k: int| 0 <= k < os.len() ==> output_matches(#[trigger] os[k], ps[k])
}

/// Goes through the folder at `path` as the PDF maker does: each subfolder
/// when it is met, then, if the path holds `pdf_images`, a PDF of its page
/// images.
fn scan_folder(path: &str, tree: &FolderTree) -> (r: Vec<PdfOutput>)
    requires
        names_have_extensions(*tree),
    ensures
        outputs_match(r@, folder_pdfs(path@, *tree)),
    decreases tree,
{
    let ghost entries = tree.entries@;
    let mut out: Vec<PdfOutput> = Vec::new();
    let mut builder = JpegToPdf::new();
    let mut pages: Vec<String> = Vec::new();
    let mut i: usize = 0;
    assert(entries.take(0) =~= Seq::<FolderEntry>::empty());
    assert(pages.deep_view() =~= Seq::<Seq<char>>::empty());
    while i < tree.entries.len()
        invariant
            entries == tree.entries@,
            entries_have_extensions(entries),
            i <= entries.len(),
            outputs_match(out@, entries_pdfs(path@, entries.take(i as int))),
            builder_images(builder) == page_images(entries.take(i as int)),
            pages.deep_view() == page_names(entries.take(i as int)),
        decreases entries.len() - i,
    {
        proof {
            lemma_entry_has_extension(entries, i as int);
        }
        let ghost prefix = entries.take(i + 1);
        assert(prefix.drop_last() =~= entries.take(i as int));
        assert(prefix.last() == entries[i as int]);
        match &tree.entries[i] {
            FolderEntry::Folder { name, contents } => {
                let child = join_path_str(path, name.as_str());
                let mut sub = scan_folder(child.as_str(), contents);
                let ghost before = out@;
                let ghost added = sub@;
                out.append(&mut sub);
                assert(out@ =~= before + added);
                assert forall|k: int| 0 <= k < out@.len() implies output_matches(
                    #[trigger] out@[k],
                    entries_pdfs(path@, prefix)[k],
                ) by {
                    if k < before.len() {
                        assert(out@[k] == before[k]);
                    } else {
                        assert(out@[k] == added[k - before.len()]);
                    }
                }
                assert(page_names(prefix) == page_names(entries.take(i as int)));
                assert(page_images(prefix) == page_images(entries.take(i as int)));
            },
            FolderEntry::File { name, data } => {
                let ext = file_extension(name.as_str());
                let is_jpg = match &ext {
                    Some(e) => str_eq(e.as_str(), "jpg"),
                    None => false,
                };
                proof {
                    reveal_strlit("jpg");
                }
                assert("jpg"@ =~= jpg());
                assert(is_jpg == is_page_image(entries[i as int]));
                if is_jpg {
                    let copy = data.clone();
                    assert(copy@ =~= data@);
                    builder = builder.add_image(copy);
                    let ghost before = pages.deep_view();
                    pages.push(name.clone());
                    assert(pages.deep_view() =~= before.push(name@));
                    assert(page_names(prefix) == page_names(entries.take(i as int)).push(name@));
                    assert(page_images(prefix) == page_images(entries.take(i as int)).push(data@));
                } else {
                    assert(page_names(prefix) == page_names(entries.take(i as int)));
                    assert(page_images(prefix) == page_images(entries.take(i as int)));
                }
            },
            FolderEntry::Other { .. } => {
                assert(page_names(prefix) == page_names(entries.take(i as int)));
                assert(page_images(prefix) == page_images(entries.take(i as int)));
            },
        }
        i = i + 1;
    }
    assert(entries.take(i as int) =~= entries);
    if contains_str(path, "pdf_images") {
        proof {
            lemma_pages_len(entries);
        }
        let folder = parent_path_str(path);
        let out_path = join_path_str(folder.as_str(), "out.pdf");
        let pdf = match create_pdf_bytes(builder) {
            Ok(bytes) => Ok(bytes),
            Err(k) => Err(PdfError { index: k, page: pages[k].clone() }),
        };
        let o = PdfOutput { source: String::from_str(path), folder, out_path, pages, pdf };
        let ghost before = out@;
        out.push(o);
        assert(out@ =~= before.push(o));
    } else {
        assert(own_pdf(path@, entries) =~= Seq::<PlannedPdf>::empty());
        assert(folder_pdfs(path@, *tree) =~= entries_pdfs(path@, entries));
    }
    out
}

/// The folder where everything is downloaded, and where the PDF maker starts.
pub open spec fn downloads_folder() -> Seq<char> {
    "Download/"@
}

/// The PDFs to make for the download folder, whose contents are `downloads`:
/// one for each folder whose path holds `pdf_images`, made of the `jpg`
/// files directly in it in listing order, written as `out.pdf` in the
/// folder above it; subfolders come before the folder holding them. A
/// regular file without an extension stops the whole conversion, so the
/// listing must have none.
pub fn convert_jpegs_to_pdf(downloads: &FolderTree) -> (r: Vec<PdfOutput>)
    requires
        names_have_extensions(*downloads),
    ensures
        outputs_match(r@, folder_pdfs(downloads_folder(), *downloads)),
{
    scan_folder("Download/", downloads)
}

/// A planned PDF made from a folder below `root` whose path holds
/// `pdf_images`, written as `out.pdf` into the folder above it, with one
/// page per image.
pub open spec fn pdf_from_marked_folder(p: PlannedPdf, root: Seq<char>) -> bool {
    &&& seq_contains(p.source, pdf_images_marker())
    &&& seq_starts_with(p.source, root)
    &&& p.folder == parent_path(p.source)
    &&& p.out_path == join_path(p.folder, "out.pdf"@)
    &&& p.pages.len() == p.images.len()
}

proof fn lemma_starts_with_trans(a: Seq<char>, b: Seq<char>, c: Seq<char>)
    requires
        seq_starts_with(a, b),
        seq_starts_with(b, c),
    ensures
        seq_starts_with(a, c),
{
    assert(a.take(c.len() as int) =~= b.take(c.len() as int));
}

proof fn lemma_join_starts_with(base: Seq<char>, name: Seq<char>)
    ensures
        seq_starts_with(join_path(base, name), base),
{
    if base.len() == 0 {
        assert(join_path(base, name).take(0) =~= base);
    } else if base.last() == '/' {
        assert((base + name).take(base.len() as int) =~= base);
    } else {
        assert((base + seq!['/'] + name).take(base.len() as int) =~= base);
    }
}

/// PDFs are made only for folders whose path holds `pdf_images`, all below
/// the folder the conversion starts from, each written as `out.pdf` into
/// the folder above its images, one page per `jpg` image of that folder.
pub proof fn law_pdfs_only_from_pdf_images_folders(path: Seq<char>, tree: FolderTree)
    ensures
        forall|k: int|
            0 <= k < folder_pdfs(path, tree).len() ==> pdf_from_marked_folder(
                #[trigger] folder_pdfs(path, tree)[k],
                path,
            ),
    decreases tree, 1int,
{
    lemma_entries_pdfs_marked(path, tree.entries@);
    lemma_pages_len(tree.entries@);
    assert(path.take(path.len() as int) =~= path);
    let a = entries_pdfs(path, tree.entries@);
    let b = own_pdf(path, tree.entries@);
    assert forall|k: int| 0 <= k < (a + b).len() implies pdf_from_marked_folder(
        #[trigger] (a + b)[k],
        path,
    ) by {
        if k < a.len() {
            assert((a + b)[k] == a[k]);
        } else {
            assert((a + b)[k] == b[k - a.len()]);
        }
    }
}

proof fn lemma_entries_pdfs_marked(path: Seq<char>, entries: Seq<FolderEntry>)
    ensures
        forall|k: int|
            0 <= k < entries_pdfs(path, entries).len() ==> pdf_from_marked_folder(
                #[trigger] entries_pdfs(path, entries)[k],
                path,
            ),
    decreases entries, 0int,
{
    if entries.len() > 0 {
        lemma_entries_pdfs_marked(path, entries.drop_last());
        let a = entries_pdfs(path, entries.drop_last());
        match entries.last() {
            FolderEntry::Folder { name, contents } => {
                let child = join_path(path, name@);
                law_pdfs_only_from_pdf_images_folders(child, contents);
                lemma_join_starts_with(path, name@);
                let b = folder_pdfs(child, contents);
                assert forall|k: int| 0 <= k < (a + b).len() implies pdf_from_marked_folder(
                    #[trigger] (a + b)[k],
                    path,
                ) by {
                    if k < a.len() {
                        assert((a + b)[k] == a[k]);
                    } else {
                        assert((a + b)[k] == b[k - a.len()]);
                        assert(pdf_from_marked_folder(b[k - a.len()], child));
                        lemma_starts_with_trans(b[k - a.len()].source, child, path);
                    }
                }
            },
            _ => {
                assert(entries_pdfs(path, entries) =~= a);
            },
        }
    }
}

/// The file a conversion writes, `out.pdf`, is never a page image.
proof fn lemma_out_pdf_is_not_a_page(f: FolderEntry)
    requires
        f matches FolderEntry::File { name, .. } && name@ == "out.pdf"@,
    ensures
        !is_page_image(f),
{
    reveal_strlit("out.pdf");
    let n: Seq<char> = "out.pdf"@;
    assert(n[3] == '.');
    lemma_split_at_last(n, '.', 3);
    assert(n.contains('.'));
    assert(n.len() != 2);
    assert(after_last(n, '.')[0] == 'p');
    assert(after_last(n, '.') != jpg());
}

proof fn lemma_out_pdf_changes_no_pdf(
    path: Seq<char>,
    e1: Seq<FolderEntry>,
    f: FolderEntry,
    e2: Seq<FolderEntry>,
)
    requires
        !is_page_image(f),
        f !is Folder,
    ensures
        page_names(e1 + seq![f] + e2) == page_names(e1 + e2),
        page_images(e1 + seq![f] + e2) == page_images(e1 + e2),
        entries_pdfs(path, e1 + seq![f] + e2) == entries_pdfs(path, e1 + e2),
    decreases e2.len(),
{
    let with = e1 + seq![f] + e2;
    let without = e1 + e2;
    if e2.len() == 0 {
        assert(with.drop_last() =~= e1);
        assert(without =~= e1);
        assert(with.last() == f);
    } else {
        lemma_out_pdf_changes_no_pdf(path, e1, f, e2.drop_last());
        assert(with.drop_last() =~= e1 + seq![f] + e2.drop_last());
        assert(without.drop_last() =~= e1 + e2.drop_last());
        assert(with.last() == e2.last());
        assert(without.last() == e2.last());
    }
}

/// Converting again gives the same PDFs: an `out.pdf` file added anywhere in
/// a folder's listing is not a page, so neither the folder's own PDF nor
/// those of its subfolders change.
pub proof fn law_written_pdfs_are_not_pages(
    path: Seq<char>,
    e1: Seq<FolderEntry>,
    f: FolderEntry,
    e2: Seq<FolderEntry>,
)
    requires
        f matches FolderEntry::File { name, .. } && name@ == "out.pdf"@,
    ensures
        entries_pdfs(path, e1 + seq![f] + e2) == entries_pdfs(path, e1 + e2),
        own_pdf(path, e1 + seq![f] + e2) == own_pdf(path, e1 + e2),
{
    lemma_out_pdf_is_not_a_page(f);
    lemma_out_pdf_changes_no_pdf(path, e1, f, e2);
}

/// Whether an entry counts for the PDFs: a folder, or a page image.
pub open spec fn counts_for_pdfs(e: FolderEntry) -> bool {
    e is Folder || is_page_image(e)
}

/// Two folder listings hold the same folders (by name, with the same
/// contents in this sense) and the same page images (by name and bytes), in
/// the same order; other files may differ.
pub open spec fn same_pages(t1: FolderTree, t2: FolderTree) -> bool
    decreases t1, t2, 1int,
{
    same_page_entries(t1.entries@, t2.entries@)
}

/// `same_pages` for two lists of entries.
pub open spec fn same_page_entries(a: Seq<FolderEntry>, b: Seq<FolderEntry>) -> bool
    decreases a, b, 0int,
{
    if a.len() > 0 && !counts_for_pdfs(a.last()) {
        same_page_entries(a.drop_last(), b)
    } else if b.len() > 0 && !counts_for_pdfs(b.last()) {
        same_page_entries(a, b.drop_last())
    } else if a.len() == 0 || b.len() == 0 {
        a.len() == 0 && b.len() == 0
    } else {
        same_page_entries(a.drop_last(), b.drop_last()) && match a.last() {
            FolderEntry::Folder { name: n1, contents: c1 } => match b.last() {
                FolderEntry::Folder { name: n2, contents: c2 } => n1@ == n2@ && same_pages(c1, c2),
                _ => false,
            },
            FolderEntry::File { name: n1, data: d1 } => match b.last() {
                FolderEntry::File { name: n2, data: d2 } => n1@ == n2@ && d1@ == d2@,
                _ => false,
            },
            FolderEntry::Other { .. } => false,
        }
    }
}

proof fn lemma_same_page_entries(path: Seq<char>, a: Seq<FolderEntry>, b: Seq<FolderEntry>)
    requires
        same_page_entries(a, b),
    ensures
        page_names(a) == page_names(b),
        page_images(a) == page_images(b),
        entries_pdfs(path, a) == entries_pdfs(path, b),
    decreases a, b, 0int,
{
    if a.len() > 0 && !counts_for_pdfs(a.last()) {
        lemma_same_page_entries(path, a.drop_last(), b);
    } else if b.len() > 0 && !counts_for_pdfs(b.last()) {
        lemma_same_page_entries(path, a, b.drop_last());
    } else if a.len() == 0 || b.len() == 0 {
    } else {
        lemma_same_page_entries(path, a.drop_last(), b.drop_last());
        match a.last() {
            FolderEntry::Folder { name: n1, contents: c1 } => match b.last() {
                FolderEntry::Folder { name: n2, contents: c2 } => {
                    law_converting_again_gives_the_same_pdfs(join_path(path, n1@), c1, c2);
                },
                _ => {},
            },
            _ => {},
        }
    }
}

/// Converting again gives the same PDFs: only folders and `jpg` page images
/// decide what is made, so two listings with the same folders and the same
/// page images in the same order (such as a listing before and after the
/// `out.pdf` files of a conversion are written into it) give the same PDFs.
pub proof fn law_converting_again_gives_the_same_pdfs(
    path: Seq<char>,
    t1: FolderTree,
    t2: FolderTree,
)
    requires
        same_pages(t1, t2),
    ensures
        folder_pdfs(path, t1) == folder_pdfs(path, t2),
    decreases t1, t2, 1int,
{
    lemma_same_page_entries(path, t1.entries@, t2.entries@);
}

/// The `out.pdf` file a conversion writes does not count for the PDFs.
pub proof fn law_out_pdf_does_not_count(f: FolderEntry)
    requires
        f matches FolderEntry::File { name, .. } && name@ == "out.pdf"@,
    ensures
        !counts_for_pdfs(f),
{
    lemma_out_pdf_is_not_a_page(f);
}

/// Every subfolder's PDFs are kept: the PDFs of a listing are those of its
/// first part followed by those of the rest, so each folder entry
/// contributes all the PDFs of its own folder, in listing order.
pub proof fn law_every_subfolder_contributes(
    path: Seq<char>,
    e1: Seq<FolderEntry>,
    e2: Seq<FolderEntry>,
)
    ensures
        entries_pdfs(path, e1 + e2) == entries_pdfs(path, e1) + entries_pdfs(path, e2),
    decreases e2.len(),
{
    if e2.len() == 0 {
        assert(e1 + e2 =~= e1);
        assert(entries_pdfs(path, e1) + Seq::<PlannedPdf>::empty() =~= entries_pdfs(path, e1));
    } else {
        law_every_subfolder_contributes(path, e1, e2.drop_last());
        assert((e1 + e2).drop_last() =~= e1 + e2.drop_last());
        assert((e1 + e2).last() == e2.last());
        let tail = match e2.last() {
            FolderEntry::Folder { name, contents } => folder_pdfs(join_path(path, name@), contents),
            _ => Seq::empty(),
        };
        assert(entries_pdfs(path, e1) + entries_pdfs(path, e2.drop_last()) + tail =~= entries_pdfs(
            path,
            e1,
        ) + (entries_pdfs(path, e2.drop_last()) + tail));
    }
}

/// A single folder entry contributes exactly the PDFs of its folder, and a
/// file or other entry contributes none.
pub proof fn law_one_entry_pdfs(path: Seq<char>, e: FolderEntry)
    ensures
        entries_pdfs(path, seq![e]) == match e {
            FolderEntry::Folder { name, contents } => folder_pdfs(join_path(path, name@), contents),
            _ => Seq::<PlannedPdf>::empty(),
        },
{
    assert(seq![e].drop_last() =~= Seq::<FolderEntry>::empty());
    assert(seq![e].last() == e);
    let tail = match e {
        FolderEntry::Folder { name, contents } => folder_pdfs(join_path(path, name@), contents),
        _ => Seq::<PlannedPdf>::empty(),
    };
    assert(entries_pdfs(path, Seq::<FolderEntry>::empty()) == Seq::<PlannedPdf>::empty());
    assert(entries_pdfs(path, seq![e]) == entries_pdfs(path, seq![e].drop_last()) + tail);
    assert(Seq::<PlannedPdf>::empty() + tail =~= tail);
}

/// Whether the folder at `path` gets a PDF of its own: its path holds
/// `pdf_images`.
pub open spec fn marked(path: Seq<char>) -> nat {
    if seq_contains(path, pdf_images_marker()) {
        1
    } else {
        0
    }
}

/// The number of folders in a listing, itself included, whose path holds
/// `pdf_images`.
pub open spec fn marked_folders(path: Seq<char>, tree: FolderTree) -> nat
    decreases tree, 1int,
{
    marked_entries(path, tree.entries@) + marked(path)
}

/// The number of folders among `entries` and below them whose path holds
/// `pdf_images`.
pub open spec fn marked_entries(path: Seq<char>, entries: Seq<FolderEntry>) -> nat
    decreases entries, 0int,
{
    if entries.len() == 0 {
        0
    } else {
        marked_entries(path, entries.drop_last()) + match entries.last() {
            FolderEntry::Folder { name, contents } => marked_folders(join_path(path, name@), contents),
            _ => 0,
        }
    }
}

proof fn lemma_marked_entries(path: Seq<char>, entries: Seq<FolderEntry>)
    ensures
        entries_pdfs(path, entries).len() == marked_entries(path, entries),
    decreases entries, 0int,
{
    if entries.len() > 0 {
        lemma_marked_entries(path, entries.drop_last());
        match entries.last() {
            FolderEntry::Folder { name, contents } => {
                law_one_pdf_per_marked_folder(join_path(path, name@), contents);
            },
            _ => {},
        }
    }
}

/// One PDF for each folder, the starting one included, whose path holds
/// `pdf_images`: none is dropped.
pub proof fn law_one_pdf_per_marked_folder(path: Seq<char>, tree: FolderTree)
    ensures
        folder_pdfs(path, tree).len() == marked_folders(path, tree),
    decreases tree, 1int,
{
    lemma_marked_entries(path, tree.entries@);
}

} // verus!

//! The rows of the tables of a directory-listing page, as plain values.

use vstd::prelude::*;

verus! {

/// One table row of a listing page: the `href` of each link in it and the
/// `alt` text (if any) of each image in it, in document order.
#[derive(Debug, PartialEq, Eq)]
pub struct ListingRow {
    pub hrefs: Vec<String>,
    pub img_alts: Vec<Option<String>>,
}

/// A row as mathematical values: link targets and image alt texts.
pub type RowModel = (Seq<Seq<char>>, Seq<Option<Seq<char>>>);

impl View for ListingRow {
    type V = RowModel;

    open spec fn view(&self) -> RowModel {
        (self.hrefs.deep_view(), self.img_alts.deep_view())
    }
}

/// The rows that scraper finds in `document`: for every element matched by
/// `table`, every `tr` under it, with the `href` of each `a[href]` and the
/// `alt` of each `img` inside that row.
pub uninterp spec fn table_rows_of(document: Seq<char>) -> Seq<RowModel>;

/// Parses `document` with `scraper::Html::parse_document` and walks it with
/// the selectors `table`, `tr`, `a[href]` and `img` (scraper's
/// `Selector::parse`, `select` and `attr`). The contract claims only that the
/// rows are the named function `table_rows_of` of the document text: parsing
/// depends on nothing but its input.
#[verifier::external_body]
pub fn listing_rows(document: &str) -> (rows: Vec<ListingRow>)
    ensures
        rows@.map_values(|r: ListingRow| r@) == table_rows_of(document@),
{
    let html = scraper::Html::parse_document(document);
    let sel = |css: &str| scraper::Selector::parse(css).unwrap();
    let (table, tr, a, img) = (sel("table"), sel("tr"), sel("a[href]"), sel("img"));
    html.select(&table).flat_map(|t| t.select(&tr)).map(|row| ListingRow {
        hrefs: row.select(&a).map(|e| e.value().attr("href").unwrap().to_string()).collect(),
        img_alts: row.select(&img).map(|e| e.value().attr("alt").map(|s| s.to_string())).collect(),
    }).collect()
}

} // verus!

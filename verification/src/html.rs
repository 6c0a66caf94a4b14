//! The parts of a panel HTML table that the parsers read, as plain values.
//!
//! scraper does the HTML parsing and selection; the parsers in `parser` work on
//! the rows it hands back.

use scraper::{Html, Selector};
use vstd::prelude::*;

verus! {

/// A `td` element: its text (all text below it, concatenated) and its `style` attribute.
#[derive(Debug, Clone)]
pub struct TableCell {
    pub text: String,
    pub style: Option<String>,
}

/// A submit button: its `name` and `value` attributes.
#[derive(Debug, Clone)]
pub struct SubmitInput {
    pub name: Option<String>,
    pub value: Option<String>,
}

/// A `tr` element: the `td` elements and the submit buttons below it, in document order.
#[derive(Debug, Clone)]
pub struct TableRow {
    pub cells: Vec<TableCell>,
    pub submits: Vec<SubmitInput>,
}

pub struct CellView {
    pub text: Seq<char>,
    pub style: Option<Seq<char>>,
}

pub struct SubmitView {
    pub name: Option<Seq<char>>,
    pub value: Option<Seq<char>>,
}

pub struct RowView {
    pub cells: Seq<CellView>,
    pub submits: Seq<SubmitView>,
}

/// The view of an optional string.
pub open spec fn opt_view(o: Option<String>) -> Option<Seq<char>> {
    match o {
        Some(s) => Some(s@),
        None => None,
    }
}

impl View for TableCell {
    type V = CellView;

    open spec fn view(&self) -> CellView {
        CellView { text: self.text@, style: opt_view(self.style) }
    }
}

impl View for SubmitInput {
    type V = SubmitView;

    open spec fn view(&self) -> SubmitView {
        SubmitView { name: opt_view(self.name), value: opt_view(self.value) }
    }
}

impl View for TableRow {
    type V = RowView;

    open spec fn view(&self) -> RowView {
        RowView {
            cells: self.cells@.map_values(|c: TableCell| c@),
            submits: self.submits@.map_values(|s: SubmitInput| s@),
        }
    }
}

/// The views of a sequence of rows.
pub open spec fn rows_view(rows: Seq<TableRow>) -> Seq<RowView> {
    rows.map_values(|r: TableRow| r@)
}

/// What scraper finds in `html`: below the first element matching `table_selector`,
/// each element matching `row_selector`, with its cells (`cell_selector`) and
/// buttons (`submit_selector`); `None` where a selector does not parse or no table matches.
pub uninterp spec fn scraped_rows(
    html: Seq<char>,
    table_selector: Seq<char>,
    row_selector: Seq<char>,
    cell_selector: Seq<char>,
    submit_selector: Seq<char>,
) -> Option<Seq<RowView>>;

/// scraper: `Html::parse_document`, `Selector::parse`, `select`, `text`, `attr`.
/// Claimed: the rows are a function of the page and the selectors alone.
#[verifier::external_body]
pub(crate) fn scrape_table(
    html: &str,
    table_selector: &str,
    row_selector: &str,
    cell_selector: &str,
    submit_selector: &str,
) -> (r: Option<Vec<TableRow>>)
    ensures
        match r {
            Some(v) => scraped_rows(
                html@,
                table_selector@,
                row_selector@,
                cell_selector@,
                submit_selector@,
            ) == Some(rows_view(v@)),
            None => scraped_rows(
                html@,
                table_selector@,
                row_selector@,
                cell_selector@,
                submit_selector@,
            ) is None,
        },
{
    let sel = |s| Selector::parse(s).ok();
    let (t, r, c, b) = (sel(table_selector)?, sel(row_selector)?, sel(cell_selector)?, sel(submit_selector)?);
    Some(Html::parse_document(html).select(&t).next()?.select(&r).map(|row| TableRow {
        cells: row.select(&c).map(|x| TableCell { text: x.text().collect(), style: x.attr("style").map(Into::into) }).collect(),
        submits: row.select(&b).map(|i| SubmitInput { name: i.attr("name").map(Into::into), value: i.attr("value").map(Into::into) }).collect(),
    }).collect())
}

} // verus!

//! An HTML document as the `scraper` crate parses it, and what the library
//! reads from its knowledge sections. A section is a
//! `<section data-knowledge-id>` element; sections are numbered in document
//! order.
use vstd::prelude::*;
use scraper::{Html, Selector};
use crate::schema::opt_view;

verus! {

#[verifier::external_type_specification]
#[verifier::external_body]
pub struct ExHtml(Html);

/// The selector of knowledge sections.
pub const SECTION_SELECTOR: &'static str = "section[data-knowledge-id]";

/// A parsed document together with the text it was parsed from.
pub struct HtmlDocument {
    source: String,
    doc: Html,
}

impl HtmlDocument {
    /// The text the document was parsed from.
    pub closed spec fn source(&self) -> Seq<char> {
        self.source@
    }
}

/// How many knowledge sections the parser finds in a document.
pub uninterp spec fn html_section_count(doc: Seq<char>) -> nat;

/// The value of an attribute of the `i`-th section, character references
/// decoded, if the section has it.
pub uninterp spec fn html_section_attr(doc: Seq<char>, i: int, name: Seq<char>) -> Option<
    Seq<char>,
>;

/// The text of the first `h1`..`h4` heading inside the `i`-th section, its
/// text nodes concatenated.
pub uninterp spec fn html_section_heading(doc: Seq<char>, i: int) -> Option<Seq<char>>;

/// The `data-rel` and `data-target` attributes of every element inside the
/// `i`-th section that has both, in document order.
pub uninterp spec fn html_section_rel_attrs(doc: Seq<char>, i: int) -> Seq<
    (Option<Seq<char>>, Option<Seq<char>>),
>;

/// The inner HTML of the `i`-th section, as the parser serialises it
/// (attributes in the order they were written: the crate is built with its
/// `deterministic` feature, which keeps them in an `IndexMap`).
pub uninterp spec fn html_section_inner_html(doc: Seq<char>, i: int) -> Seq<char>;

/// The text nodes inside the `i`-th section, in document order.
pub uninterp spec fn html_section_text(doc: Seq<char>, i: int) -> Seq<Seq<char>>;

pub open spec fn opt_pairs_view(v: Seq<(Option<String>, Option<String>)>) -> Seq<
    (Option<Seq<char>>, Option<Seq<char>>),
> {
    v.map_values(|p: (Option<String>, Option<String>)| (opt_view(p.0), opt_view(p.1)))
}

pub open spec fn texts_view(v: Seq<String>) -> Seq<Seq<char>> {
    v.map_values(|s: String| s@)
}

/// `Html::parse_document`.
#[verifier::external_body]
pub(crate) fn parse_document(raw: &str) -> (d: HtmlDocument)
    ensures
        d.source() == raw@,
{
    HtmlDocument { source: raw.to_string(), doc: Html::parse_document(raw) }
}

/// The number of knowledge sections (`Html::select(..).count()`).
#[verifier::external_body]
pub(crate) fn section_count(d: &HtmlDocument) -> (n: usize)
    ensures
        n == html_section_count(d.source()),
{
    let sel = Selector::parse(SECTION_SELECTOR).unwrap();
    d.doc.select(&sel).count()
}

/// `ElementRef::attr` of the `i`-th section. The sections are the elements
/// the selector `section[data-knowledge-id]` matches, so each of them has a
/// `data-knowledge-id` attribute.
#[verifier::external_body]
pub(crate) fn section_attr(d: &HtmlDocument, i: usize, name: &str) -> (r: Option<String>)
    requires
        i < html_section_count(d.source()),
    ensures
        opt_view(r) == html_section_attr(d.source(), i as int, name@),
        name@ == "data-knowledge-id"@ ==> r is Some,
{
    let sel = Selector::parse(SECTION_SELECTOR).unwrap();
    let el = d.doc.select(&sel).nth(i)?;
    el.attr(name).map(|v| v.to_string())
}

/// The first `h1, h2, h3, h4` inside the `i`-th section, its text nodes
/// concatenated.
#[verifier::external_body]
pub(crate) fn section_heading(d: &HtmlDocument, i: usize) -> (r: Option<String>)
    requires
        i < html_section_count(d.source()),
    ensures
        opt_view(r) == html_section_heading(d.source(), i as int),
{
    let sel = Selector::parse(SECTION_SELECTOR).unwrap();
    let heading = Selector::parse("h1, h2, h3, h4").unwrap();
    let el = d.doc.select(&sel).nth(i)?;
    let first = el.select(&heading).next()?;
    Some(first.text().collect::<Vec<_>>().concat())
}

/// `data-rel` and `data-target` of each `[data-rel][data-target]` element
/// inside the `i`-th section.
#[verifier::external_body]
pub(crate) fn section_rel_attrs(d: &HtmlDocument, i: usize) -> (r: Vec<(Option<String>, Option<String>)>)
    requires
        i < html_section_count(d.source()),
    ensures
        opt_pairs_view(r@) == html_section_rel_attrs(d.source(), i as int),
{
    let sel = Selector::parse(SECTION_SELECTOR).unwrap();
    let rel = Selector::parse("[data-rel][data-target]").unwrap();
    let el = match d.doc.select(&sel).nth(i) {
        Some(el) => el,
        None => return Vec::new(),
    };
    let pair = |s: scraper::ElementRef| (s.attr("data-rel").map(String::from), s.attr("data-target").map(String::from));
    el.select(&rel).map(pair).collect()
}

/// `ElementRef::inner_html` of the `i`-th section.
#[verifier::external_body]
pub(crate) fn section_inner_html(d: &HtmlDocument, i: usize) -> (r: String)
    requires
        i < html_section_count(d.source()),
    ensures
        r@ == html_section_inner_html(d.source(), i as int),
{
    let sel = Selector::parse(SECTION_SELECTOR).unwrap();
    d.doc.select(&sel).nth(i).map(|el| el.inner_html()).unwrap_or_default()
}

/// `ElementRef::text` of the `i`-th section, each text node as a string.
#[verifier::external_body]
pub(crate) fn section_text(d: &HtmlDocument, i: usize) -> (r: Vec<String>)
    requires
        i < html_section_count(d.source()),
    ensures
        texts_view(r@) == html_section_text(d.source(), i as int),
{
    let sel = Selector::parse(SECTION_SELECTOR).unwrap();
    match d.doc.select(&sel).nth(i) {
        Some(el) => el.text().map(String::from).collect(),
        None => Vec::new(),
    }
}

} // verus!

//! HTML documents and CSS selectors, as the `scraper` crate parses and
//! matches them. What a selection yields is named over the texts that the
//! document and the selectors were parsed from.
use vstd::prelude::*;
use crate::torrent_provider::{opt_view, strings_view};
use crate::text::{chars_of, string_of};

verus! {

#[verifier::external_type_specification]
#[verifier::external_body]
pub struct ExHtml(scraper::Html);

#[verifier::external_type_specification]
#[verifier::external_body]
pub struct ExSelector(scraper::Selector);

/// Whether `scraper` accepts `css` as a selector group.
pub uninterp spec fn selector_accepted(css: Seq<char>) -> bool;

/// The text of the error that `scraper` gives for a selector group it
/// refuses.
pub uninterp spec fn selector_error_text(css: Seq<char>) -> Seq<char>;

/// The text of each element of the document parsed from `html` that
/// matches `css`, in document order.
pub uninterp spec fn matched_texts(html: Seq<char>, css: Seq<char>) -> Seq<Seq<char>>;

/// For each element of the document parsed from `html` that matches
/// `outer`, in document order: its descendants that match `inner`, each as
/// its text and the value of its attribute `attr`.
pub uninterp spec fn nested_matches(html: Seq<char>, outer: Seq<char>, inner: Seq<char>, attr: Seq<char>) -> Seq<Seq<(Seq<char>, Option<Seq<char>>)>>;

/// A parsed HTML document, with the text it was parsed from.
pub struct HtmlPage {
    doc: scraper::Html,
    source: String,
}

/// A parsed CSS selector group, with the text it was parsed from.
pub struct Css {
    sel: scraper::Selector,
    source: String,
}

impl HtmlPage {
    /// The text the document was parsed from.
    pub closed spec fn source_view(&self) -> Seq<char> {
        self.source@
    }
}

impl Css {
    /// The text the selector group was parsed from.
    pub closed spec fn source_view(&self) -> Seq<char> {
        self.source@
    }
}

pub open spec fn matches_view(v: Seq<(String, Option<String>)>) -> Seq<(Seq<char>, Option<Seq<char>>)> {
    v.map_values(|p: (String, Option<String>)| (p.0@, opt_view(p.1)))
}

pub open spec fn nested_view(v: Seq<Vec<(String, Option<String>)>>) -> Seq<Seq<(Seq<char>, Option<Seq<char>>)>> {
    v.map_values(|row: Vec<(String, Option<String>)>| matches_view(row@))
}

/// Parses `html` as a whole document (`scraper::Html::parse_document`),
/// keeping the text it came from.
#[verifier::external_body]
pub(crate) fn parse_page(html: &str) -> (r: HtmlPage)
    ensures
        r.source_view() == html@,
{
    HtmlPage { doc: scraper::Html::parse_document(html), source: html.to_string() }
}

/// Parses a CSS selector group (`scraper::Selector::parse`): the selector,
/// or the `Display` text of the error.
#[verifier::external_body]
fn parse_selector(css: &str) -> (r: Result<scraper::Selector, String>)
    ensures
        r is Ok <==> selector_accepted(css@),
        r matches Err(m) ==> m@ == selector_error_text(css@),
{
    scraper::Selector::parse(css).map_err(|e| e.to_string())
}

/// Parses a CSS selector group, keeping the text it came from.
pub fn parse_css(css: &str) -> (r: Result<Css, String>)
    ensures
        r is Ok <==> selector_accepted(css@),
        r matches Ok(c) ==> c.source_view() == css@,
        r matches Err(m) ==> m@ == selector_error_text(css@),
{
    match parse_selector(css) {
        Ok(sel) => Ok(Css { sel, source: string_of(&chars_of(css)) }),
        Err(m) => Err(m),
    }
}

/// The text of each element that matches `css` (`Html::select`, and the
/// element's text nodes joined), in document order.
#[verifier::external_body]
pub(crate) fn select_texts(page: &HtmlPage, css: &Css) -> (r: Vec<String>)
    ensures
        strings_view(r@) == matched_texts(page.source_view(), css.source_view()),
{
    page.doc.select(&css.sel).map(|e| e.text().collect::<String>()).collect()
}

/// For each element that matches `outer` (`Html::select`), in document
/// order, its descendants that match `inner` (`ElementRef::select`), each
/// as its text nodes joined and the value of its attribute `attr`
/// (`ElementRef::attr`). There is one list per match of `outer`, as many
/// as `select_texts` gives for `outer`.
#[verifier::external_body]
pub(crate) fn select_nested(page: &HtmlPage, outer: &Css, inner: &Css, attr: &str) -> (r: Vec<Vec<(String, Option<String>)>>)
    ensures
        nested_view(r@) == nested_matches(page.source_view(), outer.source_view(), inner.source_view(), attr@),
        r@.len() == matched_texts(page.source_view(), outer.source_view()).len(),
{
    page.doc.select(&outer.sel).map(|o| {
        o.select(&inner.sel).map(|e| (e.text().collect::<String>(), e.attr(attr).map(|a| a.to_string()))).collect()
    }).collect()
}

} // verus!

//! What the library reads from an HTML document: the text under the elements
//! that a CSS selector matches, and the values of their attributes. The
//! documents are parsed and searched by the `scraper` crate.

use scraper::{Html, Selector};
use vstd::prelude::*;

use crate::text::texts;

verus! {

/// The elements of the document `html` that the selector group `selector`
/// matches, in the order in which `scraper` yields them, each as the list of
/// the text nodes below it; `None` where `selector` is no selector group.
pub uninterp spec fn selected_texts(html: Seq<char>, selector: Seq<char>) -> Option<
    Seq<Seq<Seq<char>>>,
>;

/// For each element of the document `html` that `selector` matches, the value
/// of its attribute `attr`, if it has one; `None` where `selector` is no
/// selector group.
pub uninterp spec fn selected_attrs(html: Seq<char>, selector: Seq<char>, attr: Seq<char>) -> Option<
    Seq<Option<Seq<char>>>,
>;

/// The text nodes below the root element of the document `html`.
pub uninterp spec fn root_texts(html: Seq<char>) -> Seq<Seq<char>>;

/// The views of lists of strings.
pub open spec fn nested_texts(v: Seq<Vec<String>>) -> Seq<Seq<Seq<char>>> {
    Seq::new(v.len(), |i: int| texts(v[i]@))
}

/// The views of optional strings.
pub open spec fn optional_texts(v: Seq<Option<String>>) -> Seq<Option<Seq<char>>> {
    Seq::new(
        v.len(),
        |i: int|
            match v[i] {
                Some(s) => Some(s@),
                None => None,
            },
    )
}

/// Parses `html` with `Html::parse_document` and `selector` with
/// `Selector::parse`, walks the matches of `Html::select` and collects the
/// text nodes that `ElementRef::text` yields for each. The outcome depends on
/// the two arguments alone and is named `selected_texts`.
#[verifier::external_body]
pub(crate) fn select_texts(html: &str, selector: &str) -> (r: Option<Vec<Vec<String>>>)
    ensures
        match r {
            Some(v) => selected_texts(html@, selector@) == Some(nested_texts(v@)),
            None => selected_texts(html@, selector@) is None,
        },
{
    let sel = Selector::parse(selector).ok()?;
    let doc = Html::parse_document(html);
    Some(doc.select(&sel).map(|el| el.text().map(|t| t.to_string()).collect()).collect())
}

/// Parses `html` with `Html::parse_document` and `selector` with
/// `Selector::parse`, walks the matches of `Html::select` and asks each for
/// the attribute with `Element::attr`. The outcome depends on the three
/// arguments alone and is named `selected_attrs`.
#[verifier::external_body]
pub(crate) fn select_attrs(html: &str, selector: &str, attr: &str) -> (r: Option<Vec<Option<String>>>)
    ensures
        match r {
            Some(v) => selected_attrs(html@, selector@, attr@) == Some(optional_texts(v@)),
            None => selected_attrs(html@, selector@, attr@) is None,
        },
{
    let sel = Selector::parse(selector).ok()?;
    let doc = Html::parse_document(html);
    Some(doc.select(&sel).map(|el| el.value().attr(attr).map(|a| a.to_string())).collect())
}

/// Parses `html` with `Html::parse_document` and collects the text nodes that
/// `ElementRef::text` yields for `Html::root_element`. The outcome depends on
/// the argument alone and is named `root_texts`.
#[verifier::external_body]
pub(crate) fn select_root_texts(html: &str) -> (r: Vec<String>)
    ensures
        texts(r@) == root_texts(html@),
{
    let doc = Html::parse_document(html);
    doc.root_element().text().map(|t| t.to_string()).collect()
}

/// The `href` values of the links of a page, one for each link, in order.
pub open spec fn page_links(html: Seq<char>) -> Seq<Option<Seq<char>>> {
    match selected_attrs(html, "a"@, "href"@) {
        Some(v) => v,
        None => Seq::empty(),
    }
}

/// The `href` values of the links of a page.
pub fn links_of(html: &str) -> (r: Vec<Option<String>>)
    ensures
        optional_texts(r@) == page_links(html@),
{
    match select_attrs(html, "a", "href") {
        Some(v) => v,
        None => {
            let none: Vec<Option<String>> = Vec::new();
            assert(optional_texts(none@) =~= Seq::<Option<Seq<char>>>::empty());
            none
        },
    }
}

} // verus!

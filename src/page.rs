//! Picking elements out of HTML pages by CSS selector.

use vstd::prelude::*;

verus! {

/// An element that a selector picked out of a page.
#[derive(Debug)]
pub struct Element {
    /// The HTML inside the element.
    pub inner: String,
    /// The HTML of the element itself, tags included.
    pub outer: String,
}

impl Element {
    pub open spec fn view_pair(&self) -> (Seq<char>, Seq<char>) {
        (self.inner@, self.outer@)
    }
}

/// The elements that `selector` matches in `document`, in document order,
/// each as its inner and outer HTML; `None` where the selector is not valid
/// CSS.
pub uninterp spec fn selection(document: Seq<char>, selector: Seq<char>) -> Option<
    Seq<(Seq<char>, Seq<char>)>,
>;

/// The elements of a selection, as plain text pairs.
pub open spec fn elements_view(v: Seq<Element>) -> Seq<(Seq<char>, Seq<char>)> {
    v.map_values(|e: Element| e.view_pair())
}

/// The inner HTML of each element of a selection.
pub open spec fn inners(els: Seq<(Seq<char>, Seq<char>)>) -> Seq<Seq<char>> {
    els.map_values(|e: (Seq<char>, Seq<char>)| e.0)
}

/// The outer HTML of each element of a selection.
pub open spec fn outers(els: Seq<(Seq<char>, Seq<char>)>) -> Seq<Seq<char>> {
    els.map_values(|e: (Seq<char>, Seq<char>)| e.1)
}

/// Relies on scraper: `Html::parse_document`, `Selector::parse` and
/// `Html::select`, with `ElementRef::inner_html` and `ElementRef::html` for
/// each match. The result depends on the two texts alone.
#[verifier::external_body]
pub(crate) fn select(document: &str, selector: &str) -> (r: Option<Vec<Element>>)
    ensures
        match r {
            Some(v) => selection(document@, selector@) == Some(elements_view(v@)),
            None => selection(document@, selector@) is None,
        },
{
    let sel = scraper::Selector::parse(selector).ok()?;
    let doc = scraper::Html::parse_document(document);
    Some(doc.select(&sel).map(|e| Element { inner: e.inner_html(), outer: e.html() }).collect())
}


/// For each element that `outer` matches in `document`, in document order,
/// the elements inside it that `inner` matches; `None` where either
/// selector is not valid CSS.
pub uninterp spec fn nested_selection(document: Seq<char>, outer: Seq<char>, inner: Seq<char>) -> Option<
    Seq<Seq<(Seq<char>, Seq<char>)>>,
>;

/// The elements of each group, as plain text pairs.
pub open spec fn groups_view(v: Seq<Vec<Element>>) -> Seq<Seq<(Seq<char>, Seq<char>)>> {
    v.map_values(|g: Vec<Element>| elements_view(g@))
}

/// Relies on scraper: `Html::parse_document`, `Selector::parse` of both
/// selectors, `Html::select` with the outer one and `ElementRef::select`
/// with the inner one inside each match, with `ElementRef::inner_html` and
/// `ElementRef::html`. The result depends on the three texts alone.
#[verifier::external_body]
pub(crate) fn select_within(document: &str, outer: &str, inner: &str) -> (r: Option<Vec<Vec<Element>>>)
    ensures
        match r {
            Some(v) => nested_selection(document@, outer@, inner@) == Some(groups_view(v@)),
            None => nested_selection(document@, outer@, inner@) is None,
        },
{
    let outer_sel = scraper::Selector::parse(outer).ok()?;
    let inner_sel = scraper::Selector::parse(inner).ok()?;
    let doc = scraper::Html::parse_document(document);
    Some(doc.select(&outer_sel).map(|o| {
        o.select(&inner_sel).map(|e| Element { inner: e.inner_html(), outer: e.html() }).collect()
    }).collect())
}

} // verus!

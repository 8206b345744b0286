//! A fetched HTML page and the CSS queries that the parsers run on it.
//!
//! Parsing HTML and matching CSS selectors is the work of the `scraper`
//! crate. What a query returns depends on nothing but the page's source text
//! and the query's arguments, so each query's result is given a name below,
//! a function of the source text and the arguments, and the parsers state
//! their results over those names.
use vstd::prelude::*;

use crate::text::strings_view;
use scraper::{Html, Selector};

verus! {

#[verifier::external_type_specification]
#[verifier::external_body]
pub struct ExHtml(Html);

/// A parsed HTML page. Its view is the source text that it was parsed from.
pub struct Document {
    html: Html,
    source: Ghost<Seq<char>>,
}

impl View for Document {
    type V = Seq<char>;

    closed spec fn view(&self) -> Seq<char> {
        self.source@
    }
}

/// The texts of the elements that `selector` matches in the page parsed from
/// `source`, in the order in which
/// scraper's `Html::select` yields them (the order in which the parser added
/// the nodes to the tree); the text of an element is the concatenation
/// of its descendant text nodes. `None` when `selector` is not a valid CSS
/// selector.
pub uninterp spec fn selected_texts(source: Seq<char>, selector: Seq<char>) -> Option<
    Seq<Seq<char>>,
>;

/// The value of the attribute `attribute` of each element that `selector`
/// matches in the page parsed from `source`, in the order in which
/// scraper's `Html::select` yields them (`None` for
/// an element without it). `None` when `selector` is not a valid CSS
/// selector.
pub uninterp spec fn selected_attributes(
    source: Seq<char>,
    selector: Seq<char>,
    attribute: Seq<char>,
) -> Option<Seq<Option<Seq<char>>>>;

/// For each element that `outer` matches in the page parsed from `source`,
/// in the order in which scraper's select iterators yield them, the texts
/// of the elements below it that `inner`
/// matches. `None` when either selector is not a valid CSS selector.
pub uninterp spec fn nested_texts(source: Seq<char>, outer: Seq<char>, inner: Seq<char>) -> Option<
    Seq<Seq<Seq<char>>>,
>;

/// For each element that `outer` matches in the page parsed from `source`,
/// in the order in which scraper's select iterators yield them, the value
/// of the attribute `attribute` of each element
/// below it that `inner` matches. `None` when either selector is not a
/// valid CSS selector.
pub uninterp spec fn nested_attributes(
    source: Seq<char>,
    outer: Seq<char>,
    inner: Seq<char>,
    attribute: Seq<char>,
) -> Option<Seq<Seq<Option<Seq<char>>>>>;

pub open spec fn opt_string_view(o: Option<String>) -> Option<Seq<char>> {
    match o {
        Some(s) => Some(s@),
        None => None,
    }
}

pub open spec fn opt_strings_view(v: Seq<Option<String>>) -> Seq<Option<Seq<char>>> {
    v.map_values(|o: Option<String>| opt_string_view(o))
}

pub open spec fn nested_strings_view(v: Seq<Vec<String>>) -> Seq<Seq<Seq<char>>> {
    v.map_values(|inner: Vec<String>| strings_view(inner@))
}

pub open spec fn nested_opt_strings_view(v: Seq<Vec<Option<String>>>) -> Seq<
    Seq<Option<Seq<char>>>,
> {
    v.map_values(|inner: Vec<Option<String>>| opt_strings_view(inner@))
}

/// Builds the document tree of `source` with `scraper::Html::parse_document`.
/// Nothing is claimed of the tree itself: the queries below state what they
/// find in it as functions of `source`.
#[verifier::external_body]
fn parse_html(source: &str) -> Html {
    Html::parse_document(source)
}

impl Document {
    /// Parses `source` as an HTML document.
    pub fn parse(source: &str) -> (doc: Document)
        ensures
            doc@ == source@,
    {
        Document { html: parse_html(source), source: Ghost(source@) }
    }

    /// Compiles `selector` with `scraper::Selector::parse`, matches it with
    /// `scraper::Html::select`, and maps each element to its text, the
    /// concatenation of what `scraper::ElementRef::text` yields. Claimed: the
    /// result is the named `selected_texts` of the page's source and the
    /// selector.
    #[verifier::external_body]
    pub(crate) fn select_texts(&self, selector: &str) -> (res: Option<Vec<String>>)
        ensures
            res is Some <==> selected_texts(self@, selector@) is Some,
            res matches Some(v) ==> strings_view(v@) == selected_texts(self@, selector@)->0,
    {
        match Selector::parse(selector) {
            Ok(sel) => Some(self.html.select(&sel).map(|el| el.text().collect::<String>()).collect()),
            Err(_) => None,
        }
    }

    /// Compiles `selector` with `scraper::Selector::parse`, matches it with
    /// `scraper::Html::select`, and maps each element to the value of its
    /// attribute `attribute` by `scraper::node::Element::attr`. Claimed: the
    /// result is the named `selected_attributes` of the page's source and the
    /// arguments.
    #[verifier::external_body]
    pub(crate) fn select_attributes(&self, selector: &str, attribute: &str) -> (res: Option<
        Vec<Option<String>>,
    >)
        ensures
            res is Some <==> selected_attributes(self@, selector@, attribute@) is Some,
            res matches Some(v) ==> opt_strings_view(v@) == selected_attributes(
                self@,
                selector@,
                attribute@,
            )->0,
    {
        match Selector::parse(selector) {
            Ok(sel) => Some(
                self.html.select(&sel).map(|el| el.value().attr(attribute).map(String::from)).collect(),
            ),
            Err(_) => None,
        }
    }

    /// Compiles both selectors with `scraper::Selector::parse`, matches
    /// `outer` with `scraper::Html::select` and, below each element found,
    /// `inner` with `scraper::ElementRef::select`, and maps each inner element
    /// to its text. Claimed: the result is the named `nested_texts` of the
    /// page's source and the selectors.
    #[verifier::external_body]
    pub(crate) fn select_nested_texts(&self, outer: &str, inner: &str) -> (res: Option<Vec<Vec<String>>>)
        ensures
            res is Some <==> nested_texts(self@, outer@, inner@) is Some,
            res matches Some(v) ==> nested_strings_view(v@) == nested_texts(self@, outer@, inner@)->0,
    {
        match (Selector::parse(outer), Selector::parse(inner)) {
            (Ok(o), Ok(i)) => Some(
                self.html.select(&o).map(
                    |el| el.select(&i).map(|e| e.text().collect::<String>()).collect(),
                ).collect(),
            ),
            _ => None,
        }
    }

    /// Compiles both selectors with `scraper::Selector::parse`, matches
    /// `outer` with `scraper::Html::select` and, below each element found,
    /// `inner` with `scraper::ElementRef::select`, and maps each inner element
    /// to the value of its attribute `attribute`. Claimed: the result is the
    /// named `nested_attributes` of the page's source and the arguments.
    #[verifier::external_body]
    pub(crate) fn select_nested_attributes(&self, outer: &str, inner: &str, attribute: &str) -> (res:
        Option<Vec<Vec<Option<String>>>>)
        ensures
            res is Some <==> nested_attributes(self@, outer@, inner@, attribute@) is Some,
            res matches Some(v) ==> nested_opt_strings_view(v@) == nested_attributes(
                self@,
                outer@,
                inner@,
                attribute@,
            )->0,
    {
        match (Selector::parse(outer), Selector::parse(inner)) {
            (Ok(o), Ok(i)) => Some(
                self.html.select(&o).map(
                    |el| el.select(&i).map(|e| e.value().attr(attribute).map(String::from)).collect(),
                ).collect(),
            ),
            _ => None,
        }
    }
}

} // verus!

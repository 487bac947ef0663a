//! The markup queries the bleeding-edge index needs, answered by `scraper`.
//! Every query takes markup text and answers with text, so what it finds is a
//! function of the text alone and is named here.
use vstd::prelude::*;
use crate::text::strings_view;

verus! {

/// What `scraper` selects with `css` in the fragment `html`: the markup of each
/// selected element, in document order; `None` where the selector does not parse.
pub uninterp spec fn selected_markup_of(html: Seq<char>, css: Seq<char>) -> Option<Seq<Seq<char>>>;

/// The text nodes of the fragment `html`, in document order.
pub uninterp spec fn fragment_texts_of(html: Seq<char>) -> Seq<Seq<char>>;

/// The attribute `name` of the first top-level element of the fragment `html`;
/// `None` where there is no such element or it lacks the attribute.
pub uninterp spec fn first_element_attr_of(html: Seq<char>, name: Seq<char>) -> Option<Seq<char>>;

/// Relies on `scraper::Selector::parse`, `Html::parse_fragment`, `Html::select`
/// and `ElementRef::html`: the markup of every element of the fragment that the
/// selector matches, in document order.
#[verifier::external_body]
pub(crate) fn select_markup(html: &str, css: &str) -> (r: Option<Vec<String>>)
    ensures
        match r {
            Some(v) => selected_markup_of(html@, css@) == Some(strings_view(v@)),
            None => selected_markup_of(html@, css@) is None,
        },
{
    let selector = scraper::Selector::parse(css).ok()?;
    Some(scraper::Html::parse_fragment(html).select(&selector).map(|e| e.html()).collect())
}

/// Relies on `scraper::Html::parse_fragment` and `ElementRef::text` on the
/// fragment's root element: its text nodes in order.
#[verifier::external_body]
pub(crate) fn fragment_texts(html: &str) -> (r: Vec<String>)
    ensures
        strings_view(r@) == fragment_texts_of(html@),
{
    scraper::Html::parse_fragment(html).root_element().text().map(|t| t.to_string()).collect()
}

/// Relies on `scraper::Html::parse_fragment`, `ElementRef::child_elements` and
/// `ElementRef::attr`: the attribute of the fragment's first top-level element.
#[verifier::external_body]
pub(crate) fn first_element_attr(html: &str, name: &str) -> (r: Option<String>)
    ensures
        match r {
            Some(v) => first_element_attr_of(html@, name@) == Some(v@),
            None => first_element_attr_of(html@, name@) is None,
        },
{
    let doc = scraper::Html::parse_fragment(html);
    let first = doc.root_element().child_elements().next()?;
    first.attr(name).map(|v| v.to_string())
}

} // verus!

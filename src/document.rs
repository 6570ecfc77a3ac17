//! Rendering an HTML document: the document is parsed by scraper, walked
//! depth-first, and the walk's events are rendered.
use vstd::prelude::*;
use ego_tree::iter::Edge;
use crate::markup::MarkupEvent;
use crate::render::{is_visible, lines_view, render_events, rendered, Line};

verus! {

/// The events of a depth-first walk of the root element of the document that
/// scraper parses from `document`.
pub uninterp spec fn parsed_events(document: Seq<char>) -> Seq<MarkupEvent>;

/// Relies on scraper's `Html::parse_document` (an HTML5 parse, a function of
/// the text alone) and on ego_tree's `traverse`, which opens each node before
/// its children and closes it after them; elements and text runs keep their
/// names and text, other nodes become `Other`.
#[verifier::external_body]
fn parse_markup(document: &str) -> (r: Vec<MarkupEvent>)
    ensures
        r@ == parsed_events(document@),
{
    let html = scraper::Html::parse_document(document);
    html.root_element().traverse().map(|edge| match edge {
        Edge::Open(n) => match n.value() {
            scraper::Node::Element(e) => MarkupEvent::Open(e.name().to_string()),
            scraper::Node::Text(t) => MarkupEvent::Text(t.text.to_string()),
            _ => MarkupEvent::Other,
        },
        Edge::Close(n) => match n.value() {
            scraper::Node::Element(_) => MarkupEvent::Close,
            _ => MarkupEvent::Other,
        },
    }).collect()
}

/// The styled lines of the HTML document `document`.
pub fn document_to_text(document: &str) -> (r: Vec<Line>)
    ensures
        lines_view(r@) == rendered(parsed_events(document@)),
        forall|i: int| 0 <= i < r@.len() ==> is_visible(#[trigger] r@[i]@),
{
    let events = parse_markup(document);
    render_events(&events)
}

} // verus!

//! The event model: the document as a sequence of structural events.
//!
//! Only the event kinds this pipeline acts on are distinguished; every
//! other kind of event is carried through opaquely and re-emitted
//! unchanged.

use vstd::prelude::*;

verus! {

/// Declares `pulldown_cmark::Event` so that values of it can be carried
/// through the pipeline opaquely. Nothing is assumed about its contents.
#[verifier::external_type_specification]
#[verifier::external_body]
pub struct ExEvent<'a>(pulldown_cmark::Event<'a>);

/// One structural event of a document.
#[derive(Debug, PartialEq)]
pub enum MdEvent {
    /// Start of a fenced code block, with its fence-language tag.
    FenceStart(String),
    /// End of a fenced code block.
    FenceEnd,
    /// A run of text.
    Text(String),
    /// A run of raw HTML.
    Html(String),
    /// Start of a paragraph.
    ParaStart,
    /// End of a paragraph.
    ParaEnd,
    /// Any other event, passed through untouched.
    Other(pulldown_cmark::Event<'static>),
}

/// The mathematical view of one event.
pub ghost enum EventV {
    FenceStart(Seq<char>),
    FenceEnd,
    Text(Seq<char>),
    Html(Seq<char>),
    ParaStart,
    ParaEnd,
    Other(pulldown_cmark::Event<'static>),
}

impl View for MdEvent {
    type V = EventV;

    open spec fn view(&self) -> EventV {
        match self {
            MdEvent::FenceStart(tag) => EventV::FenceStart(tag@),
            MdEvent::FenceEnd => EventV::FenceEnd,
            MdEvent::Text(t) => EventV::Text(t@),
            MdEvent::Html(h) => EventV::Html(h@),
            MdEvent::ParaStart => EventV::ParaStart,
            MdEvent::ParaEnd => EventV::ParaEnd,
            MdEvent::Other(e) => EventV::Other(*e),
        }
    }
}

/// The views of a whole sequence of events.
pub open spec fn views(s: Seq<MdEvent>) -> Seq<EventV> {
    s.map_values(|e: MdEvent| e@)
}

/// Pushing an event commutes with taking views.
pub proof fn lemma_views_push(s: Seq<MdEvent>, e: MdEvent)
    ensures
        views(s.push(e)) == views(s).push(e@),
{
    assert(views(s.push(e)) =~= views(s).push(e@));
}

} // verus!

//! The whole pipeline for one document: parse, rewrite, re-serialize.
//!
//! Parsing and re-serialization are external collaborators, specified
//! only at their boundary: what each returns is a function of its input
//! alone, named below. The rewriting between them is verified. If
//! re-serialization fails, the caller keeps the document unchanged.

use vstd::prelude::*;
use pulldown_cmark::{CodeBlockKind, Event, Tag, TagEnd};
use pulldown_cmark_to_cmark::{cmark, SUPPORTED_PARSER_OPTIONS};
use crate::emit::{emit_items, spec_emit_from};
use crate::events::{views, EventV, MdEvent};
use crate::render::RenderOutcome;
use crate::scan::{scan_events, spec_scan};

verus! {

/// What the markdown parser yields for a document text, after
/// classification into the pipeline's event kinds.
pub uninterp spec fn parse_of(text: Seq<char>) -> Seq<EventV>;

/// What the markdown re-serializer produces for an event sequence, when
/// it succeeds.
pub uninterp spec fn cmark_of(evs: Seq<EventV>) -> Option<Seq<char>>;

/// Relies on `pulldown_cmark::Parser::new_ext`: parses the document with
/// the option set the re-serializer supports (tables, footnotes,
/// strikethrough, task lists, heading attributes). The result depends on
/// the text alone; each parsed event is classified by shape, moving its
/// fields.
#[verifier::external_body]
pub(crate) fn parse_events(text: &str) -> (r: Vec<MdEvent>)
    ensures
        views(r@) == parse_of(text@),
{
    let parser = pulldown_cmark::Parser::new_ext(text, SUPPORTED_PARSER_OPTIONS);
    parser.map(|ev| match ev {
        Event::Start(Tag::CodeBlock(CodeBlockKind::Fenced(t))) => MdEvent::FenceStart(
            t.to_string(),
        ),
        Event::End(TagEnd::CodeBlock) => MdEvent::FenceEnd,
        Event::Text(t) => MdEvent::Text(t.to_string()),
        other => MdEvent::Other(other.into_static()),
    }).collect()
}

/// Relies on `pulldown_cmark_to_cmark::cmark`: re-serializes the event
/// sequence to markdown text; the outcome depends on the events alone.
/// Each event is converted back by shape, moving its fields.
#[verifier::external_body]
pub(crate) fn serialize_events(events: &Vec<MdEvent>) -> (r: Option<String>)
    ensures
        r is Some <==> cmark_of(views(events@)) is Some,
        r matches Some(t) ==> cmark_of(views(events@)) == Some(t@),
{
    let evs: Vec<Event> = events.iter().map(|e| match e {
        MdEvent::FenceStart(t) => Event::Start(Tag::CodeBlock(CodeBlockKind::Fenced(t.clone().into()))),
        MdEvent::FenceEnd => Event::End(TagEnd::CodeBlock),
        MdEvent::Text(t) => Event::Text(t.clone().into()),
        MdEvent::Html(h) => Event::Html(h.clone().into()),
        MdEvent::ParaStart => Event::Start(Tag::Paragraph),
        MdEvent::ParaEnd => Event::End(TagEnd::Paragraph),
        MdEvent::Other(ev) => ev.clone(),
    }).collect();
    let mut buf = String::new();
    cmark(evs.iter(), &mut buf, SUPPORTED_PARSER_OPTIONS).ok().map(|_| buf)
}

/// The rewritten form of an event sequence, given one render outcome per
/// scanned item.
pub open spec fn spec_rewrite(evs: Seq<EventV>, rs: Seq<RenderOutcome>) -> Seq<EventV> {
    spec_emit_from(spec_scan(evs), rs)
}

/// Rewrites the event stream: recognized blocks are expanded into their
/// container, source display and sanitized rendered output; every other
/// event passes through unchanged, in order.
pub fn rewrite_events(input: Vec<MdEvent>, cfg: &svgdx::TransformConfig) -> (out: Vec<MdEvent>)
    ensures
        exists|rs: Seq<RenderOutcome>| views(out@) == spec_rewrite(views(input@), rs),
{
    let ghost in_v = views(input@);
    let items = scan_events(input);
    let out = emit_items(items, cfg);
    proof {
        let rs = choose|rs: Seq<RenderOutcome>|
            views(out@) == spec_emit_from(spec_scan(in_v), rs);
        assert(views(out@) == spec_rewrite(in_v, rs));
    }
    out
}

/// The view of an optional text result.
pub open spec fn opt_text_view(r: Option<String>) -> Option<Seq<char>> {
    match r {
        Some(t) => Some(t@),
        None => None,
    }
}

/// Processes one document: parses it, rewrites the event stream and
/// re-serializes it. Returns `None` exactly when re-serialization fails;
/// the caller then keeps the original text.
pub fn codeblock_parser(content: &str, cfg: &svgdx::TransformConfig) -> (r: Option<String>)
    ensures
        exists|rs: Seq<RenderOutcome>|
            opt_text_view(r) == cmark_of(spec_rewrite(parse_of(content@), rs)),
{
    let events = parse_events(content);
    let rewritten = rewrite_events(events, cfg);
    let r = serialize_events(&rewritten);
    proof {
        let rs = choose|rs: Seq<RenderOutcome>|
            views(rewritten@) == spec_rewrite(parse_of(content@), rs);
        assert(opt_text_view(r) == cmark_of(spec_rewrite(parse_of(content@), rs)));
    }
    r
}

} // verus!

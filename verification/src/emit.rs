//! The second rewriting phase: wrapping and dispatch.
//!
//! Every scanned item becomes events again. A passthrough item is
//! re-emitted unchanged. A block item becomes: the opening container
//! (carrying a CSS class equal to the original fence tag, and a layout
//! hint chosen by the variant), any events that arrived inside the fence,
//! the dispatched fragments — raw-source display and sanitized rendered
//! output, ordered by the variant — and the closing container.
//!
//! Blank lines are wanted at the container boundary, so that the
//! surrounding markdown parser treats the container as a block-level
//! region, and forbidden inside the rendered output, where they would end
//! the inline-HTML region early. That asymmetry is deliberate.

use vstd::prelude::*;
use vstd::string::StringExecFns;
use crate::classify::{BlockVariant, SourceDisplay};
use crate::events::{lemma_views_push, views, EventV, MdEvent};
use crate::render::{spec_raw_markup, spec_rendered_markup, svgdx_handler, RenderOutcome};
use crate::sanitize::sanitize;
use crate::scan::{item_views, BlockItem, ItemV};
use crate::strutil::{push_str, str_copy};

verus! {

/// The layout hint of the opening container: side-by-side for the inline
/// variants, stacked otherwise.
pub open spec fn spec_style(inline_layout: bool) -> Seq<char> {
    if inline_layout {
        "style='display: flex; flex-wrap: wrap; justify-content: space-around; align-items: center;' "@
    } else {
        "style='display: flex; flex-direction: column; align-items: center;' "@
    }
}

/// The opening container markup: blank-line padding, the layout hint and
/// a class equal to the original fence tag.
pub open spec fn spec_open_html(v: BlockVariant, tag: Seq<char>) -> Seq<char> {
    "\n\n<div "@ + spec_style(v.inline_layout) + "class='"@ + tag + "'>\n"@
}

/// The raw-source display fragments: the original content as a literal
/// fenced block, wrapped in its own scrollable container.
pub open spec fn spec_source_frags(content: Seq<char>) -> Seq<EventV> {
    seq![
        EventV::Html("\n\n<div style='overflow-x: auto; font-size: 0.9em;'>\n"@),
        EventV::FenceStart("xml"@),
        EventV::Text(content),
        EventV::FenceEnd,
        EventV::Html("\n</div>\n"@),
    ]
}

/// The rendered-output fragments: the sanitized markup for one render
/// outcome, inside a paragraph.
pub open spec fn spec_render_frags(rr: RenderOutcome) -> Seq<EventV> {
    seq![EventV::ParaStart, EventV::Html(spec_rendered_markup(rr)), EventV::ParaEnd]
}

/// The dispatched fragments of one block, in variant order: the
/// raw-source display precedes the rendered output for a source-before
/// variant, follows it for a source-after variant, and is absent for the
/// plain variant.
pub open spec fn spec_block_frags(v: BlockVariant, content: Seq<char>, rr: RenderOutcome) -> Seq<
    EventV,
> {
    (if v.source == SourceDisplay::Before {
        spec_source_frags(content)
    } else {
        Seq::<EventV>::empty()
    }) + spec_render_frags(rr) + (if v.source == SourceDisplay::After {
        spec_source_frags(content)
    } else {
        Seq::<EventV>::empty()
    })
}

/// All events one item becomes, given the render outcome of its block (a
/// passthrough item ignores the outcome).
pub open spec fn spec_item_events(it: ItemV, rr: RenderOutcome) -> Seq<EventV> {
    match it {
        ItemV::Pass(e) => seq![e],
        ItemV::Block { variant, tag, content, mid } => seq![
            EventV::Html(spec_open_html(variant, tag)),
        ] + mid + spec_block_frags(variant, content, rr) + seq![EventV::Html("</div>"@)],
    }
}

/// The events a sequence of items becomes, one render outcome per item.
pub open spec fn spec_emit_from(items: Seq<ItemV>, rs: Seq<RenderOutcome>) -> Seq<EventV>
    decreases items.len(),
{
    if items.len() == 0 {
        Seq::<EventV>::empty()
    } else {
        spec_item_events(items.first(), rs.first()) + spec_emit_from(
            items.drop_first(),
            rs.drop_first(),
        )
    }
}

/// Emission splits over concatenation when the outcomes are aligned.
proof fn lemma_emit_concat(
    a: Seq<ItemV>,
    rsa: Seq<RenderOutcome>,
    b: Seq<ItemV>,
    rsb: Seq<RenderOutcome>,
)
    requires
        a.len() == rsa.len(),
    ensures
        spec_emit_from(a + b, rsa + rsb) == spec_emit_from(a, rsa) + spec_emit_from(b, rsb),
    decreases a.len(),
{
    if a.len() == 0 {
        assert(a + b =~= b);
        assert(rsa + rsb =~= rsb);
        assert(spec_emit_from(a, rsa) =~= Seq::<EventV>::empty());
        assert(spec_emit_from(a, rsa) + spec_emit_from(b, rsb) =~= spec_emit_from(b, rsb));
    } else {
        assert((a + b).first() == a.first());
        assert((rsa + rsb).first() == rsa.first());
        assert((a + b).drop_first() =~= a.drop_first() + b);
        assert((rsa + rsb).drop_first() =~= rsa.drop_first() + rsb);
        lemma_emit_concat(a.drop_first(), rsa.drop_first(), b, rsb);
        assert(spec_emit_from(a, rsa) == spec_item_events(a.first(), rsa.first())
            + spec_emit_from(a.drop_first(), rsa.drop_first()));
        assert(spec_item_events(a.first(), rsa.first()) + (spec_emit_from(
            a.drop_first(),
            rsa.drop_first(),
        ) + spec_emit_from(b, rsb)) =~= (spec_item_events(a.first(), rsa.first())
            + spec_emit_from(a.drop_first(), rsa.drop_first())) + spec_emit_from(b, rsb));
    }
}

/// Builds the opening container markup for one block.
pub fn open_html(v: &BlockVariant, tag: &str) -> (r: String)
    ensures
        r@ == spec_open_html(*v, tag@),
{
    let mut out = String::from_str("\n\n<div ");
    if v.inline_layout {
        push_str(
            &mut out,
            "style='display: flex; flex-wrap: wrap; justify-content: space-around; align-items: center;' ",
        );
    } else {
        push_str(&mut out, "style='display: flex; flex-direction: column; align-items: center;' ");
    }
    push_str(&mut out, "class='");
    push_str(&mut out, tag);
    push_str(&mut out, "'>\n");
    out
}

/// Emits the raw-source display for one block's content.
pub fn inject_xml(events: &mut Vec<MdEvent>, content: &str)
    ensures
        views(final(events)@) == views(old(events)@) + spec_source_frags(content@),
{
    let ghost base = old(events)@;
    let e1 = MdEvent::Html(str_copy("\n\n<div style='overflow-x: auto; font-size: 0.9em;'>\n"));
    let e2 = MdEvent::FenceStart(str_copy("xml"));
    let e3 = MdEvent::Text(str_copy(content));
    let e5 = MdEvent::Html(str_copy("\n</div>\n"));
    let ghost vs = seq![e1@, e2@, e3@, EventV::FenceEnd, e5@];
    events.push(e1);
    events.push(e2);
    events.push(e3);
    events.push(MdEvent::FenceEnd);
    events.push(e5);
    proof {
        assert(vs =~= spec_source_frags(content@));
        assert(views(events@) =~= views(base) + vs);
    }
}

/// Emits the sanitized rendered output for one block's content: some
/// render outcome accounts exactly for what was appended.
pub fn inject_svgdx(events: &mut Vec<MdEvent>, content: &str, cfg: &svgdx::TransformConfig)
    ensures
        exists|rr: RenderOutcome|
            views(final(events)@) == views(old(events)@) + spec_render_frags(rr),
{
    let ghost base = old(events)@;
    events.push(MdEvent::ParaStart);
    let raw = svgdx_handler(content, cfg);
    let clean = sanitize(raw.as_str());
    let ghost rr = choose|rr: RenderOutcome| raw@ == spec_raw_markup(rr);
    proof {
        assert(clean@ == spec_rendered_markup(rr));
    }
    events.push(MdEvent::Html(clean));
    events.push(MdEvent::ParaEnd);
    proof {
        assert(views(events@) =~= views(base) + spec_render_frags(rr));
    }
}

/// Dispatches one block's complete content: the raw-source display when
/// the variant asks for it, around the rendered output, in variant order.
pub fn handle_content(
    content: &str,
    variant: &BlockVariant,
    events: &mut Vec<MdEvent>,
    cfg: &svgdx::TransformConfig,
)
    ensures
        exists|rr: RenderOutcome|
            views(final(events)@) == views(old(events)@) + spec_block_frags(
                *variant,
                content@,
                rr,
            ),
{
    let ghost base = views(old(events)@);
    if variant.source == SourceDisplay::Before {
        inject_xml(events, content);
    }
    let ghost after_pre = views(events@);
    inject_svgdx(events, content, cfg);
    let ghost rr = choose|rr: RenderOutcome|
        views(events@) == after_pre + spec_render_frags(rr);
    if variant.source == SourceDisplay::After {
        inject_xml(events, content);
    }
    proof {
        assert(views(events@) =~= base + spec_block_frags(*variant, content@, rr));
    }
}

/// Turns the scanned items back into events, invoking the renderer once
/// per block: some aligned sequence of render outcomes accounts exactly
/// for the result.
pub fn emit_items(items: Vec<BlockItem>, cfg: &svgdx::TransformConfig) -> (out: Vec<MdEvent>)
    ensures
        exists|rs: Seq<RenderOutcome>| views(out@) == spec_emit_from(item_views(items@), rs),
{
    let ghost items_v = item_views(items@);
    let mut items = items;
    let mut out: Vec<MdEvent> = Vec::new();
    let ghost mut rs_done: Seq<RenderOutcome> = Seq::empty();
    proof {
        assert(items_v.take(0) =~= Seq::<ItemV>::empty());
        assert(views(out@) =~= spec_emit_from(items_v.take(0), rs_done));
    }
    while items.len() > 0
        invariant
            items_v.len() >= items@.len(),
            item_views(items@) == items_v.skip(items_v.len() - items@.len()),
            rs_done.len() == items_v.len() - items@.len(),
            views(out@) == spec_emit_from(items_v.take(items_v.len() - items@.len()), rs_done),
        decreases items.len(),
    {
        let ghost i = items_v.len() - items@.len();
        let ghost pre_items = items@;
        let ghost out_pre = views(out@);
        let ghost rs_old = rs_done;
        let it = items.remove(0);
        let ghost it_v = it@;
        proof {
            assert(item_views(pre_items)[0] == pre_items[0]@);
            assert(items_v.skip(i)[0] == items_v[i]);
            assert(items_v[i] == it_v);
            assert(item_views(items@) =~= item_views(pre_items).drop_first());
            assert(item_views(pre_items).drop_first() =~= items_v.skip(i).drop_first());
            assert(items_v.skip(i).drop_first() =~= items_v.skip(i + 1));
        }
        let ghost mut rr_used: RenderOutcome = Result::Ok(Seq::empty());
        match it {
            BlockItem::Pass(e) => {
                let ghost out0 = out@;
                let ghost ecopy = e;
                let ghost ev = e@;
                out.push(e);
                proof {
                    lemma_views_push(out0, ecopy);
                    assert(spec_item_events(it_v, rr_used) =~= seq![ev]);
                    assert(views(out@) =~= out_pre + spec_item_events(it_v, rr_used));
                }
            },
            BlockItem::Block { variant, tag, content, mid } => {
                let ghost tag_v = tag@;
                let ghost content_v = content@;
                let ghost mid_all = views(mid@);
                let opening = open_html(&variant, tag.as_str());
                let ghost open_v = opening@;
                let ghost out0 = out@;
                out.push(MdEvent::Html(opening));
                proof {
                    assert(views(out@) =~= out_pre + seq![EventV::Html(open_v)]);
                }
                let mut mid = mid;
                let ghost mid_base = views(out@);
                while mid.len() > 0
                    invariant
                        views(out@) + views(mid@) == mid_base + mid_all,
                    decreases mid.len(),
                {
                    let ghost pre_mid = mid@;
                    let ghost out1 = out@;
                    let m = mid.remove(0);
                    out.push(m);
                    proof {
                        assert(views(pre_mid)[0] == pre_mid[0]@);
                        assert(views(mid@) =~= views(pre_mid).drop_first());
                        lemma_views_push(out1, pre_mid[0]);
                        assert(views(out@) + views(mid@) =~= views(out1) + views(pre_mid));
                    }
                }
                proof {
                    assert(views(mid@) =~= Seq::<EventV>::empty());
                    assert(views(out@) =~= mid_base + mid_all);
                }
                let ghost before_frags = views(out@);
                handle_content(content.as_str(), &variant, &mut out, cfg);
                let ghost rr = choose|rr: RenderOutcome|
                    views(out@) == before_frags + spec_block_frags(variant, content_v, rr);
                let ghost out2 = out@;
                let closing = str_copy("</div>");
                out.push(MdEvent::Html(closing));
                proof {
                    rr_used = rr;
                    lemma_views_push(out2, MdEvent::Html(closing));
                    assert(spec_item_events(it_v, rr_used) == seq![
                        EventV::Html(spec_open_html(variant, tag_v)),
                    ] + mid_all + spec_block_frags(variant, content_v, rr_used) + seq![
                        EventV::Html("</div>"@),
                    ]);
                    assert(views(out@) =~= out_pre + spec_item_events(it_v, rr_used));
                }
            },
        }
        proof {
            rs_done = rs_old.push(rr_used);
            assert(items_v.take(i + 1) =~= items_v.take(i) + seq![items_v[i]]);
            assert(rs_done =~= rs_old + seq![rr_used]);
            lemma_emit_concat(items_v.take(i), rs_old, seq![items_v[i]], seq![rr_used]);
            assert(spec_emit_from(seq![items_v[i]], seq![rr_used]) =~= spec_item_events(
                items_v[i],
                rr_used,
            ) + spec_emit_from(Seq::<ItemV>::empty(), Seq::<RenderOutcome>::empty())) by {
                assert(seq![items_v[i]].drop_first() =~= Seq::<ItemV>::empty());
                assert(seq![rr_used].drop_first() =~= Seq::<RenderOutcome>::empty());
            }
            assert(views(out@) =~= spec_emit_from(items_v.take(i + 1), rs_done));
        }
    }
    proof {
        assert(items_v.take(items_v.len() as int) =~= items_v);
        assert(views(out@) == spec_emit_from(items_v, rs_done));
    }
    out
}

} // verus!

//! Laws of the rewriting engine, stated and proved over its
//! specification functions.

use vstd::prelude::*;
use crate::classify::{variant_of, BlockVariant, SourceDisplay};
use crate::emit::{
    spec_block_frags, spec_emit_from, spec_item_events, spec_render_frags, spec_source_frags,
};
use crate::events::EventV;
use crate::pipeline::spec_rewrite;
use crate::render::RenderOutcome;
use crate::scan::{spec_scan, spec_scan_from, ItemV, ScanState};

verus! {

/// An event that opens a recognized special block.
pub open spec fn is_special_start(e: EventV) -> bool {
    match e {
        EventV::FenceStart(tag) => variant_of(tag) is Some,
        _ => false,
    }
}

/// Every event wrapped as a passthrough item.
pub open spec fn pass_items(evs: Seq<EventV>) -> Seq<ItemV> {
    evs.map_values(|e: EventV| ItemV::Pass(e))
}

/// Scanning a stream with no recognized opening tag passes every event
/// through.
proof fn lemma_scan_all_pass(evs: Seq<EventV>)
    requires
        forall|i: int| 0 <= i < evs.len() ==> !is_special_start(#[trigger] evs[i]),
    ensures
        spec_scan(evs) == pass_items(evs),
    decreases evs.len(),
{
    if evs.len() == 0 {
        assert(spec_scan(evs) =~= pass_items(evs));
    } else {
        assert(!is_special_start(evs[0]));
        assert(forall|i: int|
            0 <= i < evs.drop_first().len() ==> !is_special_start(
                #[trigger] evs.drop_first()[i],
            ));
        lemma_scan_all_pass(evs.drop_first());
        assert(spec_scan(evs) == seq![ItemV::Pass(evs.first())] + spec_scan(evs.drop_first()));
        assert(pass_items(evs) =~= seq![ItemV::Pass(evs.first())] + pass_items(
            evs.drop_first(),
        ));
    }
}

/// Emitting passthrough items reproduces the events, whatever the render
/// outcomes.
proof fn lemma_emit_all_pass(evs: Seq<EventV>, rs: Seq<RenderOutcome>)
    ensures
        spec_emit_from(pass_items(evs), rs) == evs,
    decreases evs.len(),
{
    if evs.len() == 0 {
        assert(pass_items(evs) =~= Seq::<ItemV>::empty());
        assert(spec_emit_from(pass_items(evs), rs) =~= evs);
    } else {
        assert(pass_items(evs).len() == evs.len());
        assert(pass_items(evs).first() == ItemV::Pass(evs.first()));
        assert(pass_items(evs).drop_first() =~= pass_items(evs.drop_first()));
        lemma_emit_all_pass(evs.drop_first(), rs.drop_first());
        assert(spec_item_events(ItemV::Pass(evs.first()), rs.first()) == seq![evs.first()]);
        assert(seq![evs.first()] + evs.drop_first() =~= evs);
    }
}

/// A document with no recognized fence tag is rewritten to itself: every
/// event passes through unchanged, whatever the renderer would have
/// returned.
pub proof fn lemma_passthrough_identity(evs: Seq<EventV>, rs: Seq<RenderOutcome>)
    requires
        forall|i: int| 0 <= i < evs.len() ==> !is_special_start(#[trigger] evs[i]),
    ensures
        spec_rewrite(evs, rs) == evs,
{
    lemma_scan_all_pass(evs);
    lemma_emit_all_pass(evs, rs);
}

/// Scanning distributes over a prefix with no recognized opening tag:
/// those events pass through, and scanning continues after them.
proof fn lemma_scan_prefix_passthrough(pre: Seq<EventV>, rest: Seq<EventV>)
    requires
        forall|i: int| 0 <= i < pre.len() ==> !is_special_start(#[trigger] pre[i]),
    ensures
        spec_scan_from(pre + rest, ScanState::Outside) == pass_items(pre) + spec_scan_from(
            rest,
            ScanState::Outside,
        ),
    decreases pre.len(),
{
    if pre.len() == 0 {
        assert(pre + rest =~= rest);
        assert(pass_items(pre) =~= Seq::<ItemV>::empty());
        assert(pass_items(pre) + spec_scan_from(rest, ScanState::Outside) =~= spec_scan_from(
            rest,
            ScanState::Outside,
        ));
    } else {
        let evs = pre + rest;
        assert(evs.first() == pre[0]);
        assert(!is_special_start(pre[0]));
        assert(evs.drop_first() =~= pre.drop_first() + rest);
        assert(forall|i: int|
            0 <= i < pre.drop_first().len() ==> !is_special_start(
                #[trigger] pre.drop_first()[i],
            ));
        lemma_scan_prefix_passthrough(pre.drop_first(), rest);
        assert(pass_items(pre) =~= seq![ItemV::Pass(pre[0])] + pass_items(pre.drop_first()));
        assert(seq![ItemV::Pass(pre[0])] + (pass_items(pre.drop_first()) + spec_scan_from(
            rest,
            ScanState::Outside,
        )) =~= pass_items(pre) + spec_scan_from(rest, ScanState::Outside));
    }
}

/// The fragments wrapped as text events.
pub open spec fn text_events(frags: Seq<Seq<char>>) -> Seq<EventV> {
    frags.map_values(|f: Seq<char>| EventV::Text(f))
}

/// The concatenation of all fragments, in arrival order.
pub open spec fn concat_frags(frags: Seq<Seq<char>>) -> Seq<char>
    decreases frags.len(),
{
    if frags.len() == 0 {
        Seq::<char>::empty()
    } else {
        frags.first() + concat_frags(frags.drop_first())
    }
}

/// Scanning text fragments inside a block accumulates exactly their
/// concatenation, regardless of how the text was fragmented.
proof fn lemma_scan_accumulate(
    frags: Seq<Seq<char>>,
    rest: Seq<EventV>,
    v: BlockVariant,
    tag: Seq<char>,
    content: Seq<char>,
    mid: Seq<EventV>,
)
    ensures
        spec_scan_from(
            text_events(frags) + rest,
            ScanState::Inside { variant: v, tag, content, mid },
        ) == spec_scan_from(
            rest,
            ScanState::Inside { variant: v, tag, content: content + concat_frags(frags), mid },
        ),
    decreases frags.len(),
{
    if frags.len() == 0 {
        assert(text_events(frags) + rest =~= rest);
        assert(content + concat_frags(frags) =~= content);
    } else {
        let evs = text_events(frags) + rest;
        assert(evs.len() > 0);
        assert(evs.first() == EventV::Text(frags.first()));
        assert(evs.drop_first() =~= text_events(frags.drop_first()) + rest);
        lemma_scan_accumulate(frags.drop_first(), rest, v, tag, content + frags.first(), mid);
        assert(content + frags.first() + concat_frags(frags.drop_first()) =~= content
            + concat_frags(frags));
    }
}

/// Fragmentation invariance: however a block's content is split into
/// text fragments, the rewritten stream depends only on the
/// concatenation — the complete content is dispatched exactly once.
pub proof fn lemma_fragmentation_invariance(
    pre: Seq<EventV>,
    tag: Seq<char>,
    frags1: Seq<Seq<char>>,
    frags2: Seq<Seq<char>>,
    rest: Seq<EventV>,
    rs: Seq<RenderOutcome>,
)
    requires
        forall|i: int| 0 <= i < pre.len() ==> !is_special_start(#[trigger] pre[i]),
        variant_of(tag) is Some,
        concat_frags(frags1) == concat_frags(frags2),
    ensures
        spec_rewrite(pre + seq![EventV::FenceStart(tag)] + text_events(frags1) + rest, rs)
            == spec_rewrite(pre + seq![EventV::FenceStart(tag)] + text_events(frags2) + rest, rs),
{
    lemma_scan_one_block(pre, tag, frags1, rest);
    lemma_scan_one_block(pre, tag, frags2, rest);
    assert(Seq::<char>::empty() + concat_frags(frags1) =~= Seq::<char>::empty() + concat_frags(
        frags2,
    ));
}

/// Scanning a passthrough prefix, one whole block and a remainder: the
/// prefix passes through, and the block's fragments are accumulated.
proof fn lemma_scan_one_block(
    pre: Seq<EventV>,
    tag: Seq<char>,
    frags: Seq<Seq<char>>,
    rest: Seq<EventV>,
)
    requires
        forall|i: int| 0 <= i < pre.len() ==> !is_special_start(#[trigger] pre[i]),
        variant_of(tag) is Some,
    ensures
        spec_scan(pre + seq![EventV::FenceStart(tag)] + text_events(frags) + rest)
            == pass_items(pre) + spec_scan_from(
            rest,
            ScanState::Inside {
                variant: variant_of(tag)->0,
                tag,
                content: Seq::<char>::empty() + concat_frags(frags),
                mid: Seq::<EventV>::empty(),
            },
        ),
{
    let v = variant_of(tag)->0;
    let st = ScanState::Inside {
        variant: v,
        tag,
        content: Seq::<char>::empty(),
        mid: Seq::<EventV>::empty(),
    };
    let body = seq![EventV::FenceStart(tag)] + text_events(frags) + rest;
    assert(pre + seq![EventV::FenceStart(tag)] + text_events(frags) + rest =~= pre + body);
    lemma_scan_prefix_passthrough(pre, body);
    assert(body.first() == EventV::FenceStart(tag));
    assert(body.drop_first() =~= text_events(frags) + rest);
    assert(spec_scan(body) == spec_scan_from(text_events(frags) + rest, st));
    lemma_scan_accumulate(frags, rest, v, tag, Seq::<char>::empty(), Seq::<EventV>::empty());
}

/// An unterminated block at the end of the document is processed exactly
/// as if an end marker had followed its last fragment.
pub proof fn lemma_unterminated_block(
    pre: Seq<EventV>,
    tag: Seq<char>,
    frags: Seq<Seq<char>>,
    rs: Seq<RenderOutcome>,
)
    requires
        forall|i: int| 0 <= i < pre.len() ==> !is_special_start(#[trigger] pre[i]),
        variant_of(tag) is Some,
    ensures
        spec_rewrite(pre + seq![EventV::FenceStart(tag)] + text_events(frags), rs)
            == spec_rewrite(
            pre + seq![EventV::FenceStart(tag)] + text_events(frags) + seq![EventV::FenceEnd],
            rs,
        ),
{
    let v = variant_of(tag)->0;
    lemma_scan_one_block(pre, tag, frags, Seq::<EventV>::empty());
    assert(pre + seq![EventV::FenceStart(tag)] + text_events(frags) =~= pre + seq![
        EventV::FenceStart(tag),
    ] + text_events(frags) + Seq::<EventV>::empty());
    lemma_scan_one_block(pre, tag, frags, seq![EventV::FenceEnd]);
    let done = ScanState::Inside {
        variant: v,
        tag,
        content: Seq::<char>::empty() + concat_frags(frags),
        mid: Seq::<EventV>::empty(),
    };
    assert(spec_scan_from(seq![EventV::FenceEnd], done) =~= spec_scan_from(
        Seq::<EventV>::empty(),
        done,
    )) by {
        assert(seq![EventV::FenceEnd].first() == EventV::FenceEnd);
        assert(seq![EventV::FenceEnd].drop_first() =~= Seq::<EventV>::empty());
        assert(spec_scan_from(Seq::<EventV>::empty(), ScanState::Outside)
            =~= Seq::<ItemV>::empty());
    }
}

/// Variant ordering: for a source-before variant the raw-source display
/// precedes the rendered output; for source-after it follows; for the
/// plain variant no raw-source display is emitted at all.
pub proof fn lemma_variant_ordering(content: Seq<char>, rr: RenderOutcome, inline_layout: bool)
    ensures
        spec_block_frags(
            BlockVariant { source: SourceDisplay::Before, inline_layout },
            content,
            rr,
        ) == spec_source_frags(content) + spec_render_frags(rr),
        spec_block_frags(
            BlockVariant { source: SourceDisplay::After, inline_layout },
            content,
            rr,
        ) == spec_render_frags(rr) + spec_source_frags(content),
        spec_block_frags(
            BlockVariant { source: SourceDisplay::Hidden, inline_layout },
            content,
            rr,
        ) == spec_render_frags(rr),
{
    assert(spec_block_frags(
        BlockVariant { source: SourceDisplay::Before, inline_layout },
        content,
        rr,
    ) =~= spec_source_frags(content) + spec_render_frags(rr));
    assert(spec_block_frags(
        BlockVariant { source: SourceDisplay::After, inline_layout },
        content,
        rr,
    ) =~= spec_render_frags(rr) + spec_source_frags(content));
    assert(spec_block_frags(
        BlockVariant { source: SourceDisplay::Hidden, inline_layout },
        content,
        rr,
    ) =~= spec_render_frags(rr));
}

} // verus!

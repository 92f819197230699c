//! The first rewriting phase: classification and accumulation.
//!
//! The event stream is folded into a sequence of items: passthrough
//! events, and recognized blocks. A block item carries its variant (fixed
//! once at the opening tag), the original tag spelling, the complete
//! content — the concatenation, in arrival order, of every text fragment
//! between the fence markers — and any other events that arrived inside
//! the fence. A block whose end marker never arrives is closed by the end
//! of the stream and carries everything accumulated up to that point.

use vstd::prelude::*;
use crate::classify::{classify, variant_of, BlockVariant};
use crate::events::{lemma_views_push, views, EventV, MdEvent};
use crate::strutil::push_str;

verus! {

/// One item of the scanned document.
pub enum BlockItem {
    /// An event passed through untouched.
    Pass(MdEvent),
    /// One recognized special block.
    Block {
        /// The behavior class of the block's tag.
        variant: BlockVariant,
        /// The original fence tag spelling, kept for the container class.
        tag: String,
        /// The complete accumulated content of the block.
        content: String,
        /// Events other than text that arrived inside the fence, in order.
        mid: Vec<MdEvent>,
    },
}

/// The mathematical view of one scanned item.
pub ghost enum ItemV {
    Pass(EventV),
    Block { variant: BlockVariant, tag: Seq<char>, content: Seq<char>, mid: Seq<EventV> },
}

impl View for BlockItem {
    type V = ItemV;

    open spec fn view(&self) -> ItemV {
        match self {
            BlockItem::Pass(e) => ItemV::Pass(e@),
            BlockItem::Block { variant, tag, content, mid } => ItemV::Block {
                variant: *variant,
                tag: tag@,
                content: content@,
                mid: views(mid@),
            },
        }
    }
}

/// The views of a sequence of items.
pub open spec fn item_views(s: Seq<BlockItem>) -> Seq<ItemV> {
    s.map_values(|it: BlockItem| it@)
}

/// Pushing an item commutes with taking views.
proof fn lemma_item_views_push(s: Seq<BlockItem>, it: BlockItem)
    ensures
        item_views(s.push(it)) == item_views(s).push(it@),
{
    assert(item_views(s.push(it)) =~= item_views(s).push(it@));
}

/// The scanner's state: outside any special block, or inside one.
pub ghost enum ScanState {
    Outside,
    Inside { variant: BlockVariant, tag: Seq<char>, content: Seq<char>, mid: Seq<EventV> },
}

/// The items produced by scanning `evs` starting in state `st`.
pub open spec fn spec_scan_from(evs: Seq<EventV>, st: ScanState) -> Seq<ItemV>
    decreases evs.len(),
{
    match st {
        ScanState::Outside => {
            if evs.len() == 0 {
                Seq::<ItemV>::empty()
            } else {
                match evs.first() {
                    EventV::FenceStart(tag) => match variant_of(tag) {
                        Some(v) => spec_scan_from(
                            evs.drop_first(),
                            ScanState::Inside {
                                variant: v,
                                tag: tag,
                                content: Seq::<char>::empty(),
                                mid: Seq::<EventV>::empty(),
                            },
                        ),
                        None => seq![ItemV::Pass(evs.first())] + spec_scan_from(
                            evs.drop_first(),
                            ScanState::Outside,
                        ),
                    },
                    _ => seq![ItemV::Pass(evs.first())] + spec_scan_from(
                        evs.drop_first(),
                        ScanState::Outside,
                    ),
                }
            }
        },
        ScanState::Inside { variant, tag, content, mid } => {
            if evs.len() == 0 {
                seq![ItemV::Block { variant, tag, content, mid }]
            } else {
                match evs.first() {
                    EventV::Text(t) => spec_scan_from(
                        evs.drop_first(),
                        ScanState::Inside { variant, tag, content: content + t, mid },
                    ),
                    EventV::FenceEnd => seq![ItemV::Block { variant, tag, content, mid }]
                        + spec_scan_from(evs.drop_first(), ScanState::Outside),
                    _ => spec_scan_from(
                        evs.drop_first(),
                        ScanState::Inside { variant, tag, content, mid: mid.push(evs.first()) },
                    ),
                }
            }
        },
    }
}

/// The items produced by scanning a whole document.
pub open spec fn spec_scan(evs: Seq<EventV>) -> Seq<ItemV> {
    spec_scan_from(evs, ScanState::Outside)
}

/// Removing the front event commutes with taking views.
proof fn lemma_views_tail(s: Seq<MdEvent>)
    requires
        s.len() > 0,
    ensures
        views(s)[0] == s[0]@,
        views(s.remove(0)) == views(s).drop_first(),
{
    assert(views(s.remove(0)) =~= views(s).drop_first());
}

/// Scans the event stream into passthrough items and complete blocks.
pub fn scan_events(input: Vec<MdEvent>) -> (out: Vec<BlockItem>)
    ensures
        item_views(out@) == spec_scan(views(input@)),
{
    let ghost full = views(input@);
    let mut input = input;
    let mut out: Vec<BlockItem> = Vec::new();
    let mut in_variant: Option<BlockVariant> = None;
    let mut tag = String::new();
    let mut content = String::new();
    let mut mid: Vec<MdEvent> = Vec::new();
    proof {
        assert(item_views(out@) =~= Seq::<ItemV>::empty());
        assert(spec_scan(full) =~= item_views(out@) + spec_scan_from(views(input@),
            ScanState::Outside));
    }
    while input.len() > 0
        invariant
            in_variant is None ==> spec_scan(full) == item_views(out@) + spec_scan_from(
                views(input@),
                ScanState::Outside,
            ),
            in_variant matches Some(v) ==> spec_scan(full) == item_views(out@) + spec_scan_from(
                views(input@),
                ScanState::Inside {
                    variant: v,
                    tag: tag@,
                    content: content@,
                    mid: views(mid@),
                },
            ),
        decreases input.len(),
    {
        let ghost pre = input@;
        let ghost evs = views(pre);
        let ghost out0 = out@;
        let ev = input.remove(0);
        proof {
            lemma_views_tail(pre);
            assert(views(input@) == evs.drop_first());
            assert(evs.first() == ev@);
        }
        if in_variant.is_none() {
            match ev {
                MdEvent::FenceStart(t) => {
                    match classify(t.as_str()) {
                        Some(v) => {
                            in_variant = Some(v);
                            tag = t;
                            content = String::new();
                            mid = Vec::new();
                            proof {
                                assert(views(mid@) =~= Seq::<EventV>::empty());
                                assert(spec_scan_from(evs, ScanState::Outside)
                                    == spec_scan_from(views(input@), ScanState::Inside {
                                        variant: v,
                                        tag: tag@,
                                        content: content@,
                                        mid: views(mid@),
                                    }));
                            }
                        },
                        None => {
                            let item = BlockItem::Pass(MdEvent::FenceStart(t));
                            proof {
                                assert(item@ == ItemV::Pass(evs.first()));
                            }
                            out.push(item);
                            proof {
                                lemma_item_views_push(out0, item);
                                assert(spec_scan_from(evs, ScanState::Outside) == seq![
                                    ItemV::Pass(evs.first())] + spec_scan_from(views(input@),
                                    ScanState::Outside));
                                assert(item_views(out0) + spec_scan_from(evs, ScanState::Outside)
                                    =~= item_views(out@) + spec_scan_from(views(input@),
                                    ScanState::Outside));
                            }
                        },
                    }
                },
                e => {
                    let item = BlockItem::Pass(e);
                    out.push(item);
                    proof {
                        lemma_item_views_push(out0, item);
                        assert(spec_scan_from(evs, ScanState::Outside) == seq![
                            ItemV::Pass(evs.first())] + spec_scan_from(views(input@),
                            ScanState::Outside));
                        assert(item_views(out0) + spec_scan_from(evs, ScanState::Outside)
                            =~= item_views(out@) + spec_scan_from(views(input@),
                            ScanState::Outside));
                    }
                },
            }
        } else {
            let ghost v0 = in_variant->0;
            let ghost st0 = ScanState::Inside {
                variant: v0,
                tag: tag@,
                content: content@,
                mid: views(mid@),
            };
            match ev {
                MdEvent::Text(t) => {
                    push_str(&mut content, t.as_str());
                    proof {
                        assert(spec_scan_from(evs, st0) == spec_scan_from(views(input@),
                            ScanState::Inside {
                                variant: v0,
                                tag: tag@,
                                content: content@,
                                mid: views(mid@),
                            }));
                    }
                },
                MdEvent::FenceEnd => {
                    let v = in_variant.unwrap();
                    let btag = tag;
                    tag = String::new();
                    let bcontent = content;
                    content = String::new();
                    let bmid = mid;
                    mid = Vec::new();
                    let item = BlockItem::Block {
                        variant: v,
                        tag: btag,
                        content: bcontent,
                        mid: bmid,
                    };
                    out.push(item);
                    in_variant = None;
                    proof {
                        lemma_item_views_push(out0, item);
                        assert(spec_scan_from(evs, st0) == seq![item@] + spec_scan_from(
                            views(input@), ScanState::Outside));
                        assert(item_views(out0) + spec_scan_from(evs, st0) =~= item_views(out@)
                            + spec_scan_from(views(input@), ScanState::Outside));
                    }
                },
                e => {
                    let ghost mid0 = mid@;
                    mid.push(e);
                    proof {
                        lemma_views_push(mid0, e);
                        assert(spec_scan_from(evs, st0) == spec_scan_from(views(input@),
                            ScanState::Inside {
                                variant: v0,
                                tag: tag@,
                                content: content@,
                                mid: views(mid@),
                            }));
                    }
                },
            }
        }
    }
    if in_variant.is_some() {
        let ghost out0 = out@;
        let ghost st0 = ScanState::Inside {
            variant: in_variant->0,
            tag: tag@,
            content: content@,
            mid: views(mid@),
        };
        let v = in_variant.unwrap();
        let btag = tag;
        let bcontent = content;
        let bmid = mid;
        let item = BlockItem::Block { variant: v, tag: btag, content: bcontent, mid: bmid };
        out.push(item);
        proof {
            assert(views(input@).len() == 0);
            assert(views(input@) =~= Seq::<EventV>::empty());
            assert(spec_scan_from(views(input@), st0) == seq![item@]);
            lemma_item_views_push(out0, item);
            assert(item_views(out0) + seq![item@] =~= item_views(out@));
        }
    } else {
        proof {
            assert(views(input@) =~= Seq::<EventV>::empty());
            assert(spec_scan_from(views(input@), ScanState::Outside)
                =~= Seq::<ItemV>::empty());
            assert(item_views(out@) + Seq::<ItemV>::empty() =~= item_views(out@));
        }
    }
    out
}



} // verus!

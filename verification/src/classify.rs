//! The block classifier: maps a fence-language tag to its block variant.
//!
//! The recognized spellings form a closed, case-sensitive set of exact
//! matches. Tags that merely share a prefix with a recognized spelling are
//! not special: treating them as such would corrupt unrelated code blocks.

use vstd::prelude::*;
use crate::strutil::str_eq;

verus! {

/// Where the raw-source display is placed relative to the rendered output.
#[derive(Clone, Copy, Debug, PartialEq, Eq, Structural)]
pub enum SourceDisplay {
    /// Rendered output only.
    Hidden,
    /// Raw source first, then rendered output.
    Before,
    /// Rendered output first, then raw source.
    After,
}

/// The behavior class a recognized fence tag maps to. Fixed at block entry
/// and never re-derived while the block's content is processed.
#[derive(Clone, Copy, Debug, PartialEq, Eq, Structural)]
pub struct BlockVariant {
    /// Placement of the raw-source display.
    pub source: SourceDisplay,
    /// Whether the wrapping container uses the side-by-side layout hint
    /// rather than the default stacked layout.
    pub inline_layout: bool,
}

/// The closed tag vocabulary. Any tag not in this set is not special.
pub open spec fn variant_of(tag: Seq<char>) -> Option<BlockVariant> {
    if tag == "svgdx"@ {
        Some(BlockVariant { source: SourceDisplay::Hidden, inline_layout: false })
    } else if tag == "svgdx-xml"@ {
        Some(BlockVariant { source: SourceDisplay::After, inline_layout: false })
    } else if tag == "xml-svgdx"@ {
        Some(BlockVariant { source: SourceDisplay::Before, inline_layout: false })
    } else if tag == "svgdx-xml-inline"@ {
        Some(BlockVariant { source: SourceDisplay::After, inline_layout: true })
    } else if tag == "xml-svgdx-inline"@ {
        Some(BlockVariant { source: SourceDisplay::Before, inline_layout: true })
    } else {
        None
    }
}

/// Classifies a fence-language tag: `None` when the tag is not one of the
/// recognized spellings, otherwise its block variant.
pub fn classify(tag: &str) -> (r: Option<BlockVariant>)
    ensures
        r == variant_of(tag@),
{
    if str_eq(tag, "svgdx") {
        Some(BlockVariant { source: SourceDisplay::Hidden, inline_layout: false })
    } else if str_eq(tag, "svgdx-xml") {
        Some(BlockVariant { source: SourceDisplay::After, inline_layout: false })
    } else if str_eq(tag, "xml-svgdx") {
        Some(BlockVariant { source: SourceDisplay::Before, inline_layout: false })
    } else if str_eq(tag, "svgdx-xml-inline") {
        Some(BlockVariant { source: SourceDisplay::After, inline_layout: true })
    } else if str_eq(tag, "xml-svgdx-inline") {
        Some(BlockVariant { source: SourceDisplay::Before, inline_layout: true })
    } else {
        None
    }
}

} // verus!

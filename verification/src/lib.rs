//! A preprocessor library that rewrites markdown documents so that fenced
//! code blocks tagged with the `svgdx` family of languages are replaced by
//! rendered SVG markup, optionally alongside a display of the raw source.
//!
//! The document is handled as a stream of structural events: recognized
//! fenced blocks are classified once at their opening tag, their text is
//! accumulated verbatim across arbitrarily many fragments, the complete
//! content is dispatched to the renderer, and the renderer's output is
//! sanitized so that no blank line can break the surrounding inline-HTML
//! region. Everything else passes through unchanged.

use vstd::prelude::*;

pub mod classify;
pub mod config;
pub mod emit;
pub mod events;
pub mod pipeline;
pub mod props;
pub mod render;
pub mod scan;
pub mod sanitize;
pub mod strutil;

pub use pipeline::codeblock_parser;

verus! {

/// The preprocessor itself. Carries no state: all configuration is passed
/// explicitly to the processing functions.
pub struct SvgdxProc;

impl SvgdxProc {
    /// The preprocessor's registered name.
    pub fn name(&self) -> (r: &'static str)
        ensures
            r@ == "svgdx"@,
    {
        "svgdx"
    }

    /// Whether a renderer is supported: every renderer is, except the
    /// one spelling that is explicitly not.
    pub fn supports_renderer(&self, renderer: &str) -> (r: bool)
        ensures
            r == (renderer@ != "not-supported"@),
    {
        !crate::strutil::str_eq(renderer, "not-supported")
    }
}

} // verus!

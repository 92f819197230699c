//! Renderer integration: the call into the external diagram renderer and
//! the conversion of its failures into inline error markup.
//!
//! A render failure never aborts processing: the error's description is
//! wrapped in a visually distinct container, with line breaks normalized
//! to an inline-safe form, and emitted in place of the rendered output.

use vstd::prelude::*;
use vstd::string::StrSliceExecFns;
use vstd::string::StringExecFns;
use crate::sanitize::spec_sanitize;
use crate::strutil::push_str;

verus! {

/// Declares `svgdx::TransformConfig` so that a configuration value can be
/// carried through to the renderer. The pipeline never reads it.
#[verifier::external_type_specification]
#[verifier::external_body]
pub struct ExTransformConfig(svgdx::TransformConfig);

/// What one renderer invocation came to: the generated markup, or the
/// renderer's error description.
pub type RenderOutcome = Result<Seq<char>, Seq<char>>;

/// `s` with every newline replaced by an inline-safe break element.
pub open spec fn spec_replace_nl(s: Seq<char>) -> Seq<char>
    decreases s.len(),
{
    if s.len() == 0 {
        Seq::<char>::empty()
    } else if s.last() == '\n' {
        spec_replace_nl(s.drop_last()) + "<br/>"@
    } else {
        spec_replace_nl(s.drop_last()).push(s.last())
    }
}

/// Replaces every newline in `s` by `<br/>`.
pub fn replace_newlines(s: &str) -> (r: String)
    ensures
        r@ == spec_replace_nl(s@),
{
    let n = s.unicode_len();
    let mut out = String::new();
    let mut seg: usize = 0;
    let mut i: usize = 0;
    while i < n
        invariant
            n == s@.len(),
            seg <= i <= n,
            out@ + s@.subrange(seg as int, i as int) == spec_replace_nl(s@.take(i as int)),
        decreases n - i,
    {
        let c = s.get_char(i);
        proof {
            assert(s@.take(i + 1) =~= s@.take(i as int).push(s@[i as int]));
            assert(s@.take(i + 1).drop_last() =~= s@.take(i as int));
        }
        if c == '\n' {
            let piece = s.substring_char(seg, i);
            push_str(&mut out, piece);
            push_str(&mut out, "<br/>");
            seg = i + 1;
            proof {
                assert(out@ + s@.subrange(i + 1, i + 1) =~= spec_replace_nl(s@.take(i + 1)));
            }
        } else {
            proof {
                assert(out@ + s@.subrange(seg as int, i + 1) =~= (out@ + s@.subrange(
                    seg as int,
                    i as int,
                )).push(s@[i as int]));
            }
        }
        i = i + 1;
    }
    let piece = s.substring_char(seg, n);
    push_str(&mut out, piece);
    proof {
        assert(s@.take(n as int) =~= s@);
    }
    out
}

/// The inline error container wrapped around a renderer failure's
/// description, with newlines made inline-safe.
pub open spec fn spec_error_markup(e: Seq<char>) -> Seq<char> {
    "<div style=\"color: red; border: 5px double red; padding: 1em;\">"@ + spec_replace_nl(e)
        + "</div>"@
}

/// Builds the inline error container for a renderer failure.
pub fn error_markup(e: &str) -> (r: String)
    ensures
        r@ == spec_error_markup(e@),
{
    let mut out = String::from_str(
        "<div style=\"color: red; border: 5px double red; padding: 1em;\">",
    );
    let body = replace_newlines(e);
    push_str(&mut out, body.as_str());
    push_str(&mut out, "</div>");
    out
}

/// The markup standing for one render outcome, before sanitization:
/// the generated markup itself, or the inline error container.
pub open spec fn spec_raw_markup(rr: RenderOutcome) -> Seq<char> {
    match rr {
        Ok(t) => t,
        Err(e) => spec_error_markup(e),
    }
}

/// The markup actually embedded for one render outcome: the raw markup
/// with every blank line removed.
pub open spec fn spec_rendered_markup(rr: RenderOutcome) -> Seq<char> {
    spec_sanitize(spec_raw_markup(rr))
}

/// Relies on `svgdx::transform_str`: transforms one block's diagram
/// source into SVG markup under the given configuration, or reports a
/// descriptive error. Nothing is assumed about the outcome.
#[verifier::external_body]
fn render_svg(content: &str, cfg: &svgdx::TransformConfig) -> Result<String, String> {
    svgdx::transform_str(content.to_string(), cfg).map_err(|e| e.to_string())
}

/// Invokes the renderer on one block's content and converts a failure
/// into inline error markup; some render outcome accounts for the result.
pub fn svgdx_handler(content: &str, cfg: &svgdx::TransformConfig) -> (r: String)
    ensures
        exists|rr: RenderOutcome| r@ == spec_raw_markup(rr),
{
    match render_svg(content, cfg) {
        Ok(svg) => {
            proof {
                assert(svg@ == spec_raw_markup(Result::<Seq<char>, Seq<char>>::Ok(svg@)));
            }
            svg
        },
        Err(e) => {
            let m = error_markup(e.as_str());
            proof {
                assert(m@ == spec_raw_markup(Result::<Seq<char>, Seq<char>>::Err(e@)));
            }
            m
        },
    }
}

} // verus!

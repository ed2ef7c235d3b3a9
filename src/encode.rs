//! Wraps a rendered SVG document as an inline image reference.
use vstd::prelude::*;
use crate::chars::{chars_of, push_all};

verus! {

/// The standard base64 encoding (with padding) of the UTF-8 bytes of `s`.
pub uninterp spec fn base64_of(s: Seq<char>) -> Seq<char>;

/// Relies on `base64::encode` (standard alphabet, padded): its result depends
/// on the bytes of `s` alone.
#[verifier::external_body]
fn base64_encode(s: &str) -> (r: String)
    ensures
        r@ == base64_of(s@),
{
    base64::encode(s)
}

pub open spec fn embed_prefix() -> Seq<char> {
    "![](data:image/svg+xml;base64,"@
}

/// The image reference for the SVG document `svg`:
/// `![](data:image/svg+xml;base64,<BASE64>)`.
pub open spec fn svg_ref(svg: Seq<char>) -> Seq<char> {
    embed_prefix() + base64_of(svg) + seq![')']
}

/// Appends the image reference for `svg` to `out`.
pub fn push_svg_ref(out: &mut Vec<char>, svg: &str)
    ensures
        final(out)@ == old(out)@ + svg_ref(svg@),
{
    let prefix = chars_of("![](data:image/svg+xml;base64,");
    let b64 = chars_of(base64_encode(svg).as_str());
    push_all(out, &prefix);
    push_all(out, &b64);
    out.push(')');
    assert(final(out)@ =~= old(out)@ + svg_ref(svg@));
}

/// Returns the image reference for the SVG document `svg`.
pub fn encode_svg(svg: &str) -> (r: String)
    ensures
        r@ == svg_ref(svg@),
{
    let mut out: Vec<char> = Vec::new();
    push_svg_ref(&mut out, svg);
    assert(out@ =~= svg_ref(svg@));
    crate::chars::string_of(&out)
}

/// Encoding is deterministic: two encodings of equal documents are equal.
pub proof fn lemma_encode_deterministic(svg1: Seq<char>, svg2: Seq<char>, r1: Seq<char>, r2: Seq<char>)
    requires
        svg1 == svg2,
        r1 == svg_ref(svg1),
        r2 == svg_ref(svg2),
    ensures
        r1 == r2,
{
}

} // verus!

//! Lossy byte-to-text rendering: each byte is widened to the character with
//! the same code point, with no encoding validation. This is how chunk-type
//! codes and textual chunk payloads are displayed.

use vstd::prelude::*;

verus! {

/// The character sequence obtained by widening each byte to the character
/// with the same code point.
pub open spec fn spec_chars_of(s: Seq<u8>) -> Seq<char> {
    s.map_values(|b: u8| b as char)
}

/// Relies on `String::push`: appends the given character to the string.
#[verifier::external_body]
fn push_char(s: &mut String, c: char)
    ensures
        final(s)@ == old(s)@.push(c),
{
    s.push(c);
}

/// Renders a byte slice as text, one character per byte.
pub fn bytes_to_text(v: &[u8]) -> (r: String)
    ensures
        r@ == spec_chars_of(v@),
{
    let mut out = String::new();
    let mut i: usize = 0;
    while i < v.len()
        invariant
            i <= v@.len(),
            out@ == spec_chars_of(v@.take(i as int)),
        decreases v@.len() - i,
    {
        push_char(&mut out, v[i] as char);
        proof {
            assert(spec_chars_of(v@.take(i + 1)) =~= spec_chars_of(v@.take(i as int)).push(
                v@[i as int] as char,
            ));
        }
        i = i + 1;
    }
    proof {
        assert(v@.take(i as int) =~= v@);
    }
    out
}

} // verus!

//! Latin-1 text: every byte maps one-to-one to the Unicode code point of the
//! same value, so `Ascii` payloads of any byte decode without loss.

use vstd::prelude::*;

verus! {

/// The text a Latin-1 byte sequence denotes, one code point per byte.
pub open spec fn latin1_of(s: Seq<u8>) -> Seq<char> {
    Seq::new(s.len(), |i: int| s[i] as char)
}

/// Relies on String::push: appends the given char to the end of the string.
#[verifier::external_body]
fn push_char(s: &mut String, c: char)
    ensures
        final(s)@ == old(s)@.push(c),
{
    s.push(c)
}

/// Decodes a byte sequence as Latin-1 text.
pub fn latin1_to_string(bytes: &Vec<u8>) -> (r: String)
    ensures
        r@ == latin1_of(bytes@),
{
    let mut s = String::new();
    let mut i: usize = 0;
    while i < bytes.len()
        invariant
            i <= bytes@.len(),
            s@ == latin1_of(bytes@.subrange(0, i as int)),
        decreases bytes@.len() - i,
    {
        push_char(&mut s, bytes[i] as char);
        i = i + 1;
        proof {
            assert(s@ =~= latin1_of(bytes@.subrange(0, i as int)));
        }
    }
    proof {
        assert(bytes@.subrange(0, bytes@.len() as int) =~= bytes@);
    }
    s
}

} // verus!

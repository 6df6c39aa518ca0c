//! Byte-level text helpers: ASCII classes, UTF-8 boundaries, and building byte strings.
use vstd::prelude::*;
use vstd::utf8::{is_char_boundary, is_continuation_byte, length_of_first_scalar, pop_first_scalar, valid_utf8};

verus! {

pub open spec fn is_ascii_digit(b: u8) -> bool {
    48 <= b <= 57
}

/// ASCII whitespace: tab, line feed, vertical tab, form feed, carriage return, space.
pub open spec fn is_ascii_ws(b: u8) -> bool {
    b == 32 || (9 <= b <= 13)
}

/// An ASCII byte of valid UTF-8 starts a character.
pub proof fn lemma_ascii_byte_is_boundary(bytes: Seq<u8>, i: int)
    requires
        valid_utf8(bytes),
        0 <= i < bytes.len(),
        bytes[i] < 0x80,
    ensures
        is_char_boundary(bytes, i),
    decreases bytes.len(),
{
    if i != 0 {
        let l = length_of_first_scalar(bytes);
        if i < l {
            assert(is_continuation_byte(bytes[i]));
        } else {
            let rest = pop_first_scalar(bytes);
            assert(rest[i - l] == bytes[i]);
            lemma_ascii_byte_is_boundary(rest, i - l);
        }
    }
}

/// The end of valid UTF-8 is a character boundary.
pub proof fn lemma_end_is_boundary(bytes: Seq<u8>)
    requires
        valid_utf8(bytes),
    ensures
        is_char_boundary(bytes, bytes.len() as int),
    decreases bytes.len(),
{
    if bytes.len() != 0 {
        let rest = pop_first_scalar(bytes);
        lemma_end_is_boundary(rest);
    }
}

/// Makes a `String` of ASCII bytes (`String::from_utf8`); ASCII is valid UTF-8, so the
/// conversion cannot fail, and each byte becomes the character with that code.
#[verifier::external_body]
pub(crate) fn ascii_to_string(bytes: Vec<u8>) -> (s: String)
    requires
        forall|i: int| 0 <= i < bytes@.len() ==> bytes@[i] < 128,
    ensures
        s@ == bytes@.map_values(|b: u8| b as char),
{
    String::from_utf8(bytes).unwrap()
}

/// Appends bytes to a byte string.
pub fn append(out: &mut Vec<u8>, b: &[u8])
    ensures
        final(out)@ == old(out)@ + b@,
{
    let mut i: usize = 0;
    while i < b.len()
        invariant
            0 <= i <= b@.len(),
            out@ == old(out)@ + b@.take(i as int),
        decreases b@.len() - i,
    {
        out.push(b[i]);
        proof {
            assert(b@.take(i + 1) =~= b@.take(i as int).push(b@[i as int]));
            assert(out@ =~= old(out)@ + b@.take(i + 1));
        }
        i = i + 1;
    }
    proof {
        assert(b@.take(b@.len() as int) =~= b@);
    }
}

} // verus!

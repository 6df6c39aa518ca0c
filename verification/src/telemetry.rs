//! Parsing of the hardware sensor files read for system telemetry.
use vstd::prelude::*;
use vstd::string::{StrSliceExecFns, StringSliceAdditionalSpecFns};

use crate::chars::{all_digits, digits_value, lemma_digits_prefix, trim_str, trimmed};
use crate::text::{is_ascii_digit, lemma_ascii_byte_is_boundary, lemma_end_is_boundary};

verus! {

broadcast use vstd::utf8::encode_utf8_valid_utf8;

/// Splits a sensor attribute name such as `temp1_input` at its first ASCII digit into the
/// sensor kind (`temp`) and the rest (`1_input`); without a digit the whole name is the kind.
pub fn split_prefix_channel<'a>(s: &'a str) -> (r: (&'a str, &'a str))
    ensures
        ({
            let b = s.spec_bytes();
            exists|k: int|
                #![trigger b.subrange(0, k)]
                0 <= k <= b.len() && (forall|j: int| 0 <= j < k ==> !is_ascii_digit(#[trigger] b[j])) && (k
                    == b.len() || is_ascii_digit(b[k])) && r.0.spec_bytes() == b.subrange(0, k)
                    && r.1.spec_bytes() == b.subrange(k, b.len() as int)
        }),
{
    let bytes = s.as_bytes();
    let mut i: usize = 0;
    while i < bytes.len() && !(bytes[i] >= 48 && bytes[i] <= 57)
        invariant
            0 <= i <= bytes@.len(),
            bytes@ == s.spec_bytes(),
            forall|j: int| 0 <= j < i ==> !is_ascii_digit(#[trigger] bytes@[j]),
        decreases bytes@.len() - i,
    {
        i = i + 1;
    }
    proof {
        if i < bytes@.len() {
            lemma_ascii_byte_is_boundary(s.spec_bytes(), i as int);
        } else {
            lemma_end_is_boundary(s.spec_bytes());
        }
    }
    let r = s.split_at(i);
    proof {
        let b = s.spec_bytes();
        assert(r.0.spec_bytes() == b.subrange(0, i as int));
    }
    r
}

/// What `str::parse::<i64>` returns: an optional `+` or `-`, then one or more ASCII
/// digits, read in base 10; nothing else is accepted (not even surrounding white space),
/// and a value outside the range of `i64` is an error.
pub open spec fn parsed_i64(s: Seq<char>) -> Option<i64> {
    let neg = s.len() > 0 && s[0] == '-';
    let d = if s.len() > 0 && (s[0] == '-' || s[0] == '+') {
        s.drop_first()
    } else {
        s
    };
    let v = if neg {
        -digits_value(d)
    } else {
        digits_value(d)
    };
    if d.len() > 0 && all_digits(d) && i64::MIN <= v <= i64::MAX {
        Some(v as i64)
    } else {
        None
    }
}

/// The decimal integer the string spells (an optional sign and digits), as
/// `str::parse::<i64>` reads it; none when it is not one or does not fit.
pub fn parse_i64(s: &str) -> (r: Option<i64>)
    ensures
        r == parsed_i64(s@),
{
    let n = s.unicode_len();
    if n == 0 {
        return None;
    }
    let c0 = s.get_char(0);
    let neg = c0 == '-';
    let start: usize = if c0 == '-' || c0 == '+' {
        1
    } else {
        0
    };
    let ghost d = if start == 1 {
        s@.drop_first()
    } else {
        s@
    };
    proof {
        assert(s@[0] == c0);
        assert(d =~= s@.skip(start as int));
        assert(neg == (s@.len() > 0 && s@[0] == '-'));
    }
    if start >= n {
        proof {
            assert(d.len() == 0);
        }
        return None;
    }
    let limit: u64 = 9223372036854775808;
    let mut acc: u64 = 0;
    let mut i: usize = start;
    proof {
        assert(d.take(0) =~= Seq::<char>::empty());
    }
    while i < n
        invariant
            start <= i <= n,
            n == s@.len(),
            d == s@.skip(start as int),
            d == (if s@.len() > 0 && (s@[0] == '-' || s@[0] == '+') {
                s@.drop_first()
            } else {
                s@
            }),
            neg == (s@.len() > 0 && s@[0] == '-'),
            acc as int == digits_value(d.take(i - start)),
            all_digits(d.take(i - start)),
            acc <= limit,
            limit == 9223372036854775808u64,
        decreases n - i,
    {
        let c = s.get_char(i);
        let cn = c as u32;
        proof {
            assert(d[i - start] == c);
            assert(d.take(i + 1 - start).drop_last() =~= d.take(i - start));
            assert(d.take(i + 1 - start).last() == c);
        }
        if cn < 48 || cn > 57 {
            proof {
                assert(!all_digits(d)) by {
                    assert(!(48 <= (d[i - start] as int) <= 57));
                }
            }
            return None;
        }
        let next: u128 = (acc as u128) * 10 + ((cn - 48) as u128);
        proof {
            assert(all_digits(d.take(i + 1 - start))) by {
                assert forall|j: int| 0 <= j < d.take(i + 1 - start).len() implies 48 <= #[trigger] (d.take(
                    i + 1 - start,
                )[j] as int) <= 57 by {
                    if j < i - start {
                        assert(d.take(i + 1 - start)[j] == d.take(i - start)[j]);
                    }
                }
            }
            assert(next == digits_value(d.take(i + 1 - start)));
        }
        if next > limit as u128 {
            proof {
                if all_digits(d) {
                    lemma_digits_prefix(d, i + 1 - start);
                    assert(digits_value(d) > 9223372036854775808);
                }
            }
            return None;
        }
        acc = next as u64;
        i = i + 1;
    }
    proof {
        assert(d.take(n - start) =~= d);
    }
    if neg {
        if acc == limit {
            Some(i64::MIN)
        } else {
            Some(-(acc as i64))
        }
    } else if acc > 9223372036854775807u64 {
        None
    } else {
        Some(acc as i64)
    }
}

/// The integer that a sensor attribute file holds, given its contents: the contents
/// without surrounding whitespace, read as a decimal `i64`.
pub fn read_int_file(contents: &str) -> (r: Option<i64>)
    ensures
        r == parsed_i64(trimmed(contents@)),
{
    let t = trim_str(contents);
    parse_i64(t)
}

} // verus!

//! Operations on byte strings as `str` offers them for ASCII text: trimming,
//! searching and lowercasing.
use vstd::prelude::*;

use crate::text::is_ascii_ws;

verus! {

/// `s` without its leading bytes satisfying `p`.
pub open spec fn strip_start(s: Seq<u8>, p: spec_fn(u8) -> bool) -> Seq<u8>
    decreases s.len(),
{
    if s.len() > 0 && p(s[0]) {
        strip_start(s.drop_first(), p)
    } else {
        s
    }
}

/// `s` without its trailing bytes satisfying `p`.
pub open spec fn strip_end(s: Seq<u8>, p: spec_fn(u8) -> bool) -> Seq<u8>
    decreases s.len(),
{
    if s.len() > 0 && p(s.last()) {
        strip_end(s.drop_last(), p)
    } else {
        s
    }
}

pub open spec fn ws() -> spec_fn(u8) -> bool {
    |b: u8| is_ascii_ws(b)
}

/// `s` without leading and trailing ASCII whitespace.
pub open spec fn trim(s: Seq<u8>) -> Seq<u8> {
    strip_end(strip_start(s, ws()), ws())
}

pub open spec fn lower_byte(b: u8) -> u8 {
    if 65 <= b <= 90 {
        (b + 32) as u8
    } else {
        b
    }
}

/// ASCII lowercase.
pub open spec fn lower(s: Seq<u8>) -> Seq<u8> {
    s.map_values(|b: u8| lower_byte(b))
}

/// Index of the first `b` in `s`.
pub open spec fn first_index(s: Seq<u8>, b: u8) -> Option<int>
    decreases s.len(),
{
    if s.len() == 0 {
        None
    } else if s[0] == b {
        Some(0)
    } else {
        match first_index(s.drop_first(), b) {
            Some(i) => Some(i + 1),
            None => None,
        }
    }
}

/// Whether `needle` occurs in `hay` at `i`.
pub open spec fn occurs_at(hay: Seq<u8>, needle: Seq<u8>, i: int) -> bool {
    0 <= i && i + needle.len() <= hay.len() && hay.subrange(i, i + needle.len()) == needle
}

/// Whether `needle` occurs in `hay`.
pub open spec fn contains_bytes(hay: Seq<u8>, needle: Seq<u8>) -> bool {
    exists|i: int| #[trigger] occurs_at(hay, needle, i)
}

proof fn lemma_strip_start_at(s: Seq<u8>, p: spec_fn(u8) -> bool, k: int)
    requires
        0 <= k <= s.len(),
        forall|j: int| 0 <= j < k ==> p(#[trigger] s[j]),
        k == s.len() || !p(s[k]),
    ensures
        strip_start(s, p) == s.skip(k),
    decreases k,
{
    if k == 0 {
        assert(s.skip(0) =~= s);
    } else {
        assert(s[0] == s[0]);
        let t = s.drop_first();
        assert forall|j: int| 0 <= j < k - 1 implies p(#[trigger] t[j]) by {
            assert(t[j] == s[j + 1]);
        }
        lemma_strip_start_at(t, p, k - 1);
        assert(t.skip(k - 1) =~= s.skip(k));
    }
}

proof fn lemma_strip_end_at(s: Seq<u8>, p: spec_fn(u8) -> bool, k: int)
    requires
        0 <= k <= s.len(),
        forall|j: int| k <= j < s.len() ==> p(#[trigger] s[j]),
        k == 0 || !p(s[k - 1]),
    ensures
        strip_end(s, p) == s.take(k),
    decreases s.len() - k,
{
    if k == s.len() {
        assert(s.take(k) =~= s);
    } else {
        let t = s.drop_last();
        assert(p(s[s.len() - 1]));
        assert forall|j: int| k <= j < t.len() implies p(#[trigger] t[j]) by {
            assert(t[j] == s[j]);
        }
        lemma_strip_end_at(t, p, k);
        assert(t.take(k) =~= s.take(k));
    }
}

fn stripped(b: u8) -> (r: bool)
    ensures
        r == ws()(b),
{
    b == 32 || (b >= 9 && b <= 13)
}

/// Strips leading and trailing ASCII whitespace.
fn strip_range(s: &[u8]) -> (r: Vec<u8>)
    ensures
        r@ == trim(s@),
{
    let ghost p = ws();
    let mut a: usize = 0;
    while a < s.len() && stripped(s[a])
        invariant
            0 <= a <= s@.len(),
            p == ws(),
            forall|j: int| 0 <= j < a ==> p(#[trigger] s@[j]),
        decreases s@.len() - a,
    {
        a = a + 1;
    }
    proof {
        lemma_strip_start_at(s@, p, a as int);
    }
    let mut b: usize = s.len();
    while b > a && stripped(s[b - 1])
        invariant
            a <= b <= s@.len(),
            p == ws(),
            forall|j: int| b <= j < s@.len() ==> p(#[trigger] s@[j]),
        decreases b,
    {
        b = b - 1;
    }
    let mut out: Vec<u8> = Vec::new();
    let mut i: usize = a;
    while i < b
        invariant
            a <= i <= b,
            b <= s@.len(),
            out@ == s@.subrange(a as int, i as int),
        decreases b - i,
    {
        out.push(s[i]);
        proof {
            assert(out@ =~= s@.subrange(a as int, i + 1));
        }
        i = i + 1;
    }
    proof {
        let t = s@.skip(a as int);
        assert forall|j: int| b - a <= j < t.len() implies p(#[trigger] t[j]) by {
            assert(t[j] == s@[j + a]);
        }
        if b > a {
            assert(t[b - a - 1] == s@[b - 1]);
        }
        lemma_strip_end_at(t, p, b - a);
        assert(t.take(b - a) =~= s@.subrange(a as int, b as int));
    }
    out
}

/// The bytes without leading and trailing ASCII whitespace.
pub fn trim_bytes(s: &[u8]) -> (r: Vec<u8>)
    ensures
        r@ == trim(s@),
{
    strip_range(s)
}

/// ASCII lowercase of the bytes.
pub fn lower_bytes(s: &[u8]) -> (r: Vec<u8>)
    ensures
        r@ == lower(s@),
{
    let mut out: Vec<u8> = Vec::new();
    let mut i: usize = 0;
    while i < s.len()
        invariant
            0 <= i <= s@.len(),
            out@ == lower(s@.take(i as int)),
        decreases s@.len() - i,
    {
        let c = s[i];
        let l: u8 = if c >= 65 && c <= 90 {
            c + 32
        } else {
            c
        };
        out.push(l);
        proof {
            assert(s@.take(i + 1) =~= s@.take(i as int).push(c));
            assert(out@ =~= lower(s@.take(i + 1)));
        }
        i = i + 1;
    }
    proof {
        assert(s@.take(s@.len() as int) =~= s@);
    }
    out
}

/// Position of the first `b` in `s`.
pub fn find_byte(s: &[u8], b: u8) -> (r: Option<usize>)
    ensures
        match r {
            Some(i) => first_index(s@, b) == Some(i as int) && i < s@.len() && s@[i as int] == b,
            None => first_index(s@, b) is None,
        },
{
    let mut i: usize = 0;
    while i < s.len()
        invariant
            0 <= i <= s@.len(),
            forall|j: int| 0 <= j < i ==> s@[j] != b,
        decreases s@.len() - i,
    {
        if s[i] == b {
            proof {
                lemma_first_index(s@, b, i as int);
            }
            return Some(i);
        }
        i = i + 1;
    }
    proof {
        lemma_first_index(s@, b, s@.len() as int);
    }
    None
}

/// The first `b` is at `k` when none comes before and `s[k]` is one; absent when none is
/// among all of `s` (`k == s.len()`).
proof fn lemma_first_index(s: Seq<u8>, b: u8, k: int)
    requires
        0 <= k <= s.len(),
        forall|j: int| 0 <= j < k ==> s[j] != b,
        k == s.len() || s[k] == b,
    ensures
        first_index(s, b) == (if k == s.len() {
            None
        } else {
            Some(k)
        }),
    decreases k,
{
    if s.len() > 0 && k > 0 {
        let t = s.drop_first();
        assert forall|j: int| 0 <= j < k - 1 implies t[j] != b by {
            assert(t[j] == s[j + 1]);
        }
        lemma_first_index(t, b, k - 1);
    }
}

/// Whether `needle` occurs in `hay`.
pub fn find_bytes(hay: &[u8], needle: &[u8]) -> (r: bool)
    ensures
        r == contains_bytes(hay@, needle@),
{
    let p = find_sub(hay, needle);
    proof {
        if let Some(i) = p {
            assert(occurs_at(hay@, needle@, i as int));
        }
    }
    p.is_some()
}

/// Position of the first occurrence of `needle` in `hay`.
pub fn find_sub(hay: &[u8], needle: &[u8]) -> (r: Option<usize>)
    ensures
        match r {
            Some(i) => occurs_at(hay@, needle@, i as int) && forall|k: int| 0 <= k < i ==> !occurs_at(hay@, needle@, k),
            None => !contains_bytes(hay@, needle@),
        },
{
    if needle.len() > hay.len() {
        proof {
            assert forall|i: int| !occurs_at(hay@, needle@, i) by {}
        }
        return None;
    }
    let mut i: usize = 0;
    let last: usize = hay.len() - needle.len();
    while i <= last
        invariant
            needle.len() <= hay.len(),
            last == hay.len() - needle.len(),
            0 <= i <= last + 1,
            forall|k: int| 0 <= k < i ==> !occurs_at(hay@, needle@, k),
        decreases hay@.len() - i,
    {
        let mut j: usize = 0;
        while j < needle.len() && hay[i + j] == needle[j]
            invariant
                0 <= j <= needle.len(),
                i + needle.len() <= hay.len(),
                forall|m: int| 0 <= m < j ==> hay@[i + m] == needle@[m],
            decreases needle@.len() - j,
        {
            j = j + 1;
        }
        if j == needle.len() {
            proof {
                assert(hay@.subrange(i as int, i + needle@.len()) =~= needle@);
                assert(occurs_at(hay@, needle@, i as int));
            }
            return Some(i);
        }
        proof {
            assert(!occurs_at(hay@, needle@, i as int)) by {
                if occurs_at(hay@, needle@, i as int) {
                    assert(hay@.subrange(i as int, i + needle@.len())[j as int] == hay@[i + j]);
                }
            }
        }
        i = i + 1;
    }
    proof {
        assert forall|k: int| !occurs_at(hay@, needle@, k) by {
            if k >= i {
                assert(!(k + needle@.len() <= hay@.len()));
            }
        }
    }
    None
}

} // verus!

//! Text as Unicode characters: trimming as `str::trim` does (Unicode White_Space), quote
//! stripping, character search and splitting, and the lowercase of `str::to_lowercase`.
use vstd::prelude::*;
use vstd::string::StrSliceExecFns;

use crate::text::ascii_to_string;

verus! {

/// The characters with the Unicode White_Space property, which `char::is_whitespace` and
/// `str::trim` use.
pub open spec fn is_white_space(c: char) -> bool {
    let n = c as u32;
    ||| 9 <= n <= 13
    ||| n == 32
    ||| n == 0x85
    ||| n == 0xA0
    ||| n == 0x1680
    ||| 0x2000 <= n <= 0x200A
    ||| n == 0x2028
    ||| n == 0x2029
    ||| n == 0x202F
    ||| n == 0x205F
    ||| n == 0x3000
}

pub open spec fn white() -> spec_fn(char) -> bool {
    |c: char| is_white_space(c)
}

pub open spec fn dquote() -> spec_fn(char) -> bool {
    |c: char| c == '"'
}

/// `s` without its leading characters satisfying `p`.
pub open spec fn strip_start_chars(s: Seq<char>, p: spec_fn(char) -> bool) -> Seq<char>
    decreases s.len(),
{
    if s.len() > 0 && p(s[0]) {
        strip_start_chars(s.drop_first(), p)
    } else {
        s
    }
}

/// `s` without its trailing characters satisfying `p`.
pub open spec fn strip_end_chars(s: Seq<char>, p: spec_fn(char) -> bool) -> Seq<char>
    decreases s.len(),
{
    if s.len() > 0 && p(s.last()) {
        strip_end_chars(s.drop_last(), p)
    } else {
        s
    }
}

/// `s` without leading and trailing white space: what `str::trim` returns.
pub open spec fn trimmed(s: Seq<char>) -> Seq<char> {
    strip_end_chars(strip_start_chars(s, white()), white())
}

/// `s` without leading and trailing double quotes.
pub open spec fn unquoted(s: Seq<char>) -> Seq<char> {
    strip_end_chars(strip_start_chars(s, dquote()), dquote())
}

/// Index of the first `c` in `s`.
pub open spec fn first_char_index(s: Seq<char>, c: char) -> Option<int>
    decreases s.len(),
{
    if s.len() == 0 {
        None
    } else if s[0] == c {
        Some(0)
    } else {
        match first_char_index(s.drop_first(), c) {
            Some(i) => Some(i + 1),
            None => None,
        }
    }
}

/// The pieces of `s` between the separators `sep`, in order (one piece without any).
pub open spec fn split_chars(s: Seq<char>, sep: char) -> Seq<Seq<char>>
    decreases s.len(),
{
    if s.len() == 0 {
        seq![Seq::empty()]
    } else {
        let rest = split_chars(s.drop_last(), sep);
        if s.last() == sep {
            rest.push(Seq::empty())
        } else {
            rest.update(rest.len() - 1, rest.last().push(s.last()))
        }
    }
}

/// The result of `str::to_lowercase` on a string.
pub uninterp spec fn lowercased(s: Seq<char>) -> Seq<char>;

proof fn lemma_strip_start_at(s: Seq<char>, p: spec_fn(char) -> bool, k: int)
    requires
        0 <= k <= s.len(),
        forall|j: int| 0 <= j < k ==> p(#[trigger] s[j]),
        k == s.len() || !p(s[k]),
    ensures
        strip_start_chars(s, p) == s.skip(k),
    decreases k,
{
    if k == 0 {
        assert(s.skip(0) =~= s);
    } else {
        assert(s[0] == s[0]);
        let t = s.drop_first();
        assert forall|j: int| 0 <= j < k - 1 implies p(#[trigger] t[j]) by {
            assert(t[j] == s[j + 1]);
        }
        lemma_strip_start_at(t, p, k - 1);
        assert(t.skip(k - 1) =~= s.skip(k));
    }
}

proof fn lemma_strip_end_at(s: Seq<char>, p: spec_fn(char) -> bool, k: int)
    requires
        0 <= k <= s.len(),
        forall|j: int| k <= j < s.len() ==> p(#[trigger] s[j]),
        k == 0 || !p(s[k - 1]),
    ensures
        strip_end_chars(s, p) == s.take(k),
    decreases s.len() - k,
{
    if k == s.len() {
        assert(s.take(k) =~= s);
    } else {
        let t = s.drop_last();
        assert(p(s[s.len() - 1]));
        assert forall|j: int| k <= j < t.len() implies p(#[trigger] t[j]) by {
            assert(t[j] == s[j]);
        }
        lemma_strip_end_at(t, p, k);
        assert(t.take(k) =~= s.take(k));
    }
}

proof fn lemma_first_char_index(s: Seq<char>, c: char, k: int)
    requires
        0 <= k <= s.len(),
        forall|j: int| 0 <= j < k ==> s[j] != c,
        k == s.len() || s[k] == c,
    ensures
        first_char_index(s, c) == (if k == s.len() {
            None
        } else {
            Some(k)
        }),
    decreases k,
{
    if s.len() > 0 && k > 0 {
        let t = s.drop_first();
        assert forall|j: int| 0 <= j < k - 1 implies t[j] != c by {
            assert(t[j] == s[j + 1]);
        }
        lemma_first_char_index(t, c, k - 1);
    }
}

/// Whether `c` is white space (Unicode White_Space), as `char::is_whitespace`.
pub fn is_white_space_char(c: char) -> (r: bool)
    ensures
        r == is_white_space(c),
{
    let n = c as u32;
    (9 <= n && n <= 13) || n == 32 || n == 0x85 || n == 0xA0 || n == 0x1680 || (0x2000 <= n && n <= 0x200A)
        || n == 0x2028 || n == 0x2029 || n == 0x202F || n == 0x205F || n == 0x3000
}

/// The string without leading and trailing white space (the Unicode White_Space
/// characters), as `str::trim` returns it.
pub fn trim_str<'a>(s: &'a str) -> (r: &'a str)
    ensures
        r@ == trimmed(s@),
{
    let n = s.unicode_len();
    let mut a: usize = 0;
    while a < n && is_white_space_char(s.get_char(a))
        invariant
            0 <= a <= n,
            n == s@.len(),
            forall|j: int| 0 <= j < a ==> white()(#[trigger] s@[j]),
        decreases n - a,
    {
        a = a + 1;
    }
    proof {
        lemma_strip_start_at(s@, white(), a as int);
    }
    let mut b: usize = n;
    while b > a && is_white_space_char(s.get_char(b - 1))
        invariant
            a <= b <= n,
            n == s@.len(),
            forall|j: int| b <= j < s@.len() ==> white()(#[trigger] s@[j]),
        decreases b,
    {
        b = b - 1;
    }
    let r = s.substring_char(a, b);
    proof {
        let t = s@.skip(a as int);
        assert forall|j: int| b - a <= j < t.len() implies white()(#[trigger] t[j]) by {
            assert(t[j] == s@[j + a]);
        }
        if b > a {
            assert(t[b - a - 1] == s@[b - 1]);
        }
        lemma_strip_end_at(t, white(), b - a);
        assert(t.take(b - a) =~= s@.subrange(a as int, b as int));
    }
    r
}

/// `str::to_lowercase`: the lowercase of the string, which depends only on the string.
#[verifier::external_body]
pub(crate) fn lowercase_str(s: &str) -> (r: String)
    ensures
        r@ == lowercased(s@),
{
    s.to_lowercase()
}

/// The string without leading and trailing double quotes.
pub fn unquote_str<'a>(s: &'a str) -> (r: &'a str)
    ensures
        r@ == unquoted(s@),
{
    let n = s.unicode_len();
    let mut a: usize = 0;
    while a < n && s.get_char(a) == '"'
        invariant
            0 <= a <= n,
            n == s@.len(),
            forall|j: int| 0 <= j < a ==> dquote()(#[trigger] s@[j]),
        decreases n - a,
    {
        a = a + 1;
    }
    proof {
        lemma_strip_start_at(s@, dquote(), a as int);
    }
    let mut b: usize = n;
    while b > a && s.get_char(b - 1) == '"'
        invariant
            a <= b <= n,
            n == s@.len(),
            forall|j: int| b <= j < s@.len() ==> dquote()(#[trigger] s@[j]),
        decreases b,
    {
        b = b - 1;
    }
    let r = s.substring_char(a, b);
    proof {
        let t = s@.skip(a as int);
        assert forall|j: int| b - a <= j < t.len() implies dquote()(#[trigger] t[j]) by {
            assert(t[j] == s@[j + a]);
        }
        if b > a {
            assert(t[b - a - 1] == s@[b - 1]);
        }
        lemma_strip_end_at(t, dquote(), b - a);
        assert(t.take(b - a) =~= s@.subrange(a as int, b as int));
    }
    r
}

/// Position (in characters) of the first `c` in `s`.
pub fn find_char(s: &str, c: char) -> (r: Option<usize>)
    ensures
        match r {
            Some(i) => first_char_index(s@, c) == Some(i as int) && i < s@.len() && s@[i as int] == c,
            None => first_char_index(s@, c) is None,
        },
{
    let n = s.unicode_len();
    let mut i: usize = 0;
    while i < n
        invariant
            0 <= i <= n,
            n == s@.len(),
            forall|j: int| 0 <= j < i ==> s@[j] != c,
        decreases n - i,
    {
        if s.get_char(i) == c {
            proof {
                lemma_first_char_index(s@, c, i as int);
            }
            return Some(i);
        }
        i = i + 1;
    }
    proof {
        lemma_first_char_index(s@, c, s@.len() as int);
    }
    None
}

/// Whether two strings are the same characters.
pub fn str_eq(a: &str, b: &str) -> (r: bool)
    ensures
        r == (a@ == b@),
{
    let n = a.unicode_len();
    if n != b.unicode_len() {
        return false;
    }
    let mut i: usize = 0;
    while i < n
        invariant
            0 <= i <= n,
            n == a@.len(),
            n == b@.len(),
            forall|j: int| 0 <= j < i ==> a@[j] == b@[j],
        decreases n - i,
    {
        if a.get_char(i) != b.get_char(i) {
            return false;
        }
        i = i + 1;
    }
    proof {
        assert(a@ =~= b@);
    }
    true
}

/// The value of a run of ASCII decimal digits.
pub open spec fn digits_value(s: Seq<char>) -> int
    decreases s.len(),
{
    if s.len() == 0 {
        0
    } else {
        digits_value(s.drop_last()) * 10 + (s.last() as int - 48)
    }
}

pub open spec fn all_digits(s: Seq<char>) -> bool {
    forall|i: int| 0 <= i < s.len() ==> 48 <= #[trigger] (s[i] as int) <= 57
}

pub proof fn lemma_digits_nonneg(d: Seq<char>)
    requires
        all_digits(d),
    ensures
        digits_value(d) >= 0,
    decreases d.len(),
{
    if d.len() > 0 {
        lemma_digits_nonneg(d.drop_last());
        assert(48 <= (d[d.len() - 1] as int) <= 57);
    }
}

/// A run of digits is worth at least any of its prefixes.
pub proof fn lemma_digits_prefix(d: Seq<char>, k: int)
    requires
        all_digits(d),
        0 <= k <= d.len(),
    ensures
        digits_value(d) >= digits_value(d.take(k)),
    decreases d.len(),
{
    if k == d.len() {
        assert(d.take(k) =~= d);
    } else {
        let e = d.drop_last();
        assert(e.take(k) =~= d.take(k));
        lemma_digits_prefix(e, k);
        lemma_digits_nonneg(e);
        assert(48 <= (d[d.len() - 1] as int) <= 57);
    }
}

/// What `str::parse::<u32>` returns: an optional `+`, then one or more ASCII digits,
/// read in base 10; nothing else is accepted, and a value above `u32::MAX` is an error.
pub open spec fn decimal_u32(s: Seq<char>) -> Option<u32> {
    let d = if s.len() > 0 && s[0] == '+' {
        s.drop_first()
    } else {
        s
    };
    if d.len() > 0 && all_digits(d) && digits_value(d) <= u32::MAX {
        Some(digits_value(d) as u32)
    } else {
        None
    }
}

/// The decimal number the string spells, as `str::parse::<u32>` reads it; none when it is
/// not one or does not fit.
pub fn parse_u32(s: &str) -> (r: Option<u32>)
    ensures
        r == decimal_u32(s@),
{
    let n = s.unicode_len();
    if n == 0 {
        return None;
    }
    let c0 = s.get_char(0);
    let start: usize = if c0 == '+' {
        1
    } else {
        0
    };
    let ghost d = if start == 1 {
        s@.drop_first()
    } else {
        s@
    };
    proof {
        assert(s@[0] == c0);
        assert(d =~= s@.skip(start as int));
    }
    if start >= n {
        proof {
            assert(d.len() == 0);
        }
        return None;
    }
    let mut acc: u64 = 0;
    let mut i: usize = start;
    proof {
        assert(d.take(0) =~= Seq::<char>::empty());
    }
    while i < n
        invariant
            start <= i <= n,
            n == s@.len(),
            d == s@.skip(start as int),
            d == (if s@.len() > 0 && s@[0] == '+' {
                s@.drop_first()
            } else {
                s@
            }),
            acc as int == digits_value(d.take(i - start)),
            all_digits(d.take(i - start)),
            acc <= u32::MAX,
        decreases n - i,
    {
        let c = s.get_char(i);
        let cn = c as u32;
        proof {
            assert(d[i - start] == c);
            assert(d.take(i + 1 - start).drop_last() =~= d.take(i - start));
            assert(d.take(i + 1 - start).last() == c);
        }
        if cn < 48 || cn > 57 {
            proof {
                assert(!all_digits(d)) by {
                    assert(!(48 <= (d[i - start] as int) <= 57));
                }
            }
            return None;
        }
        let next: u64 = acc * 10 + ((cn - 48) as u64);
        proof {
            assert(all_digits(d.take(i + 1 - start))) by {
                assert forall|j: int| 0 <= j < d.take(i + 1 - start).len() implies 48 <= #[trigger] (d.take(
                    i + 1 - start,
                )[j] as int) <= 57 by {
                    if j < i - start {
                        assert(d.take(i + 1 - start)[j] == d.take(i - start)[j]);
                    }
                }
            }
            assert(next == digits_value(d.take(i + 1 - start)));
        }
        if next > 4294967295u64 {
            proof {
                if all_digits(d) {
                    lemma_digits_prefix(d, i + 1 - start);
                }
            }
            return None;
        }
        acc = next;
        i = i + 1;
    }
    proof {
        assert(d.take(n - start) =~= d);
    }
    Some(acc as u32)
}

/// The decimal digits of `n` as ASCII bytes, most significant first, without leading zeros.
pub open spec fn decimal_bytes(n: nat) -> Seq<u8>
    decreases n,
{
    if n < 10 {
        seq![(48 + n) as u8]
    } else {
        decimal_bytes(n / 10).push((48 + n % 10) as u8)
    }
}

/// The decimal text of `n`, as `u32::to_string` writes it.
pub open spec fn decimal_text(n: nat) -> Seq<char> {
    decimal_bytes(n).map_values(|b: u8| b as char)
}

/// Decimal text reads back as its number.
pub proof fn lemma_decimal_round_trip(n: u32)
    ensures
        decimal_u32(decimal_text(n as nat)) == Some(n),
{
    lemma_decimal_digits(n as nat);
    let t = decimal_text(n as nat);
    assert(48 <= (t[0] as int) <= 57);
}

proof fn lemma_decimal_digits(n: nat)
    ensures
        decimal_text(n).len() > 0,
        all_digits(decimal_text(n)),
        digits_value(decimal_text(n)) == n,
        forall|i: int| 0 <= i < decimal_bytes(n).len() ==> 48 <= #[trigger] decimal_bytes(n)[i] <= 57,
    decreases n,
{
    let t = decimal_text(n);
    if n >= 10 {
        lemma_decimal_digits(n / 10);
        let p = decimal_text(n / 10);
        let b = (48 + n % 10) as u8;
        assert(decimal_bytes(n) == decimal_bytes(n / 10).push(b));
        assert(t =~= p.push(b as char));
        assert(t.drop_last() =~= p);
        assert forall|i: int| 0 <= i < decimal_bytes(n).len() implies 48 <= #[trigger] decimal_bytes(n)[i] <= 57 by {
            if i < decimal_bytes(n).len() - 1 {
                assert(decimal_bytes(n)[i] == decimal_bytes(n / 10)[i]);
            }
        }
        assert forall|i: int| 0 <= i < t.len() implies 48 <= #[trigger] (t[i] as int) <= 57 by {
            assert(t[i] == decimal_bytes(n)[i] as char);
        }
        assert(n == (n / 10) * 10 + n % 10) by (nonlinear_arith);
        assert(t.last() == b as char);
        assert((b as char) as int == b as int);
        assert(b as int == 48 + n % 10);
        assert(digits_value(t) == digits_value(p) * 10 + (t.last() as int - 48));
    } else {
        let b = (48 + n) as u8;
        assert(t =~= seq![b as char]);
        assert(t.drop_last() =~= Seq::<char>::empty());
        assert((b as char) as int == b as int);
        assert(digits_value(t) == digits_value(t.drop_last()) * 10 + (t.last() as int - 48));
    }
}

fn push_decimal(n: u32, out: &mut Vec<u8>)
    ensures
        final(out)@ == old(out)@ + decimal_bytes(n as nat),
    decreases n,
{
    if n >= 10 {
        push_decimal(n / 10, out);
    }
    out.push((48 + n % 10) as u8);
    proof {
        if n >= 10 {
            assert(decimal_bytes(n as nat) == decimal_bytes((n / 10) as nat).push((48 + n % 10) as u8));
        }
        assert(out@ =~= old(out)@ + decimal_bytes(n as nat));
    }
}

/// The decimal text of `n`, as `u32::to_string` writes it.
pub fn decimal_string(n: u32) -> (r: String)
    ensures
        r@ == decimal_text(n as nat),
{
    let mut b: Vec<u8> = Vec::new();
    push_decimal(n, &mut b);
    proof {
        lemma_decimal_digits(n as nat);
        assert(b@ =~= decimal_bytes(n as nat));
    }
    ascii_to_string(b)
}

} // verus!

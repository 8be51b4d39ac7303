//! Character-level reading of short texts: white space, trimming and
//! decimal integers.
use vstd::prelude::*;

verus! {

/// White space as Unicode's White_Space property defines it.
pub open spec fn is_space(c: char) -> bool {
    let u = c as u32;
    ||| 9 <= u <= 13
    ||| u == 32
    ||| u == 0x85
    ||| u == 0xA0
    ||| u == 0x1680
    ||| 0x2000 <= u <= 0x200A
    ||| u == 0x2028
    ||| u == 0x2029
    ||| u == 0x202F
    ||| u == 0x205F
    ||| u == 0x3000
}

/// Whether `c` is white space.
pub fn is_space_char(c: char) -> (r: bool)
    ensures
        r == is_space(c),
{
    let u = c as u32;
    (9 <= u && u <= 13) || u == 32 || u == 0x85 || u == 0xA0 || u == 0x1680 || (0x2000 <= u && u
        <= 0x200A) || u == 0x2028 || u == 0x2029 || u == 0x202F || u == 0x205F || u == 0x3000
}

/// `s` without its leading white space.
pub open spec fn trim_start(s: Seq<char>) -> Seq<char>
    decreases s.len(),
{
    if s.len() > 0 && is_space(s[0]) {
        trim_start(s.drop_first())
    } else {
        s
    }
}

/// `s` without its trailing white space.
pub open spec fn trim_end(s: Seq<char>) -> Seq<char>
    decreases s.len(),
{
    if s.len() > 0 && is_space(s.last()) {
        trim_end(s.drop_last())
    } else {
        s
    }
}

/// `s` without leading or trailing white space.
pub open spec fn trimmed(s: Seq<char>) -> Seq<char> {
    trim_end(trim_start(s))
}

/// The bounds `lo..hi` of the trimmed part of `s`.
pub fn trim_bounds(s: &str) -> (r: (usize, usize))
    ensures
        r.0 <= r.1 <= s@.len(),
        s@.subrange(r.0 as int, r.1 as int) == trimmed(s@),
{
    let n = s.unicode_len();
    let mut lo: usize = 0;
    assert(s@.subrange(0, n as int) == s@);
    while lo < n && is_space_char(s.get_char(lo))
        invariant
            n == s@.len(),
            lo <= n,
            trim_start(s@) == trim_start(s@.subrange(lo as int, n as int)),
        decreases n - lo,
    {
        assert(s@.subrange(lo as int, n as int).drop_first() == s@.subrange(lo + 1, n as int));
        lo = lo + 1;
    }
    let mut hi: usize = n;
    assert(trim_start(s@) == s@.subrange(lo as int, n as int));
    while hi > lo && is_space_char(s.get_char(hi - 1))
        invariant
            n == s@.len(),
            lo <= hi <= n,
            trimmed(s@) == trim_end(s@.subrange(lo as int, hi as int)),
        decreases hi,
    {
        assert(s@.subrange(lo as int, hi as int).drop_last() == s@.subrange(lo as int, hi - 1));
        hi = hi - 1;
    }
    (lo, hi)
}

/// Whether `c` is an ASCII decimal digit.
pub open spec fn is_digit(c: char) -> bool {
    48 <= c as u32 <= 57
}

/// The value of the digit `c`.
pub open spec fn digit_value(c: char) -> int {
    c as u32 - 48
}

/// The value of a run of decimal digits.
pub open spec fn digits_value(d: Seq<char>) -> int
    decreases d.len(),
{
    if d.len() == 0 {
        0
    } else {
        digits_value(d.drop_last()) * 10 + digit_value(d.last())
    }
}

/// Every character is a decimal digit.
pub open spec fn all_digits(d: Seq<char>) -> bool {
    forall|i: int| 0 <= i < d.len() ==> is_digit(#[trigger] d[i])
}

/// The digits after an optional sign.
pub open spec fn unsigned_part(b: Seq<char>) -> Seq<char> {
    if b.len() > 0 && (b[0] == '-' || b[0] == '+') {
        b.drop_first()
    } else {
        b
    }
}

/// The value of a decimal integer text: an optional `+` or `-`, then one or
/// more digits, with a value that a 64-bit signed integer holds.
pub open spec fn int_text_value(b: Seq<char>) -> Option<int> {
    let d = unsigned_part(b);
    let v = if b.len() > 0 && b[0] == '-' {
        -digits_value(d)
    } else {
        digits_value(d)
    };
    if d.len() == 0 || !all_digits(d) || v < i64::MIN || v > i64::MAX {
        None
    } else {
        Some(v)
    }
}

proof fn lemma_digits_nonneg(d: Seq<char>)
    requires
        all_digits(d),
    ensures
        digits_value(d) >= 0,
    decreases d.len(),
{
    if d.len() > 0 {
        assert(all_digits(d.drop_last())) by {
            assert forall|i: int| 0 <= i < d.drop_last().len() implies is_digit(#[trigger] d.drop_last()[i]) by {
                assert(is_digit(d[i]));
            }
        }
        lemma_digits_nonneg(d.drop_last());
        assert(is_digit(d[d.len() - 1]));
    }
}

/// Reads the characters `lo..hi` of `s` as a decimal integer.
pub fn parse_int_range(s: &str, lo: usize, hi: usize) -> (r: Option<i64>)
    requires
        lo <= hi <= s@.len(),
    ensures
        int_text_value(s@.subrange(lo as int, hi as int)) == match r {
            Some(v) => Some(v as int),
            None => None::<int>,
        },
{
    let ghost b = s@.subrange(lo as int, hi as int);
    let mut start = lo;
    let mut neg = false;
    if lo < hi {
        let c = s.get_char(lo);
        if c == '-' || c == '+' {
            neg = c == '-';
            start = lo + 1;
        }
    }
    assert(unsigned_part(b) == s@.subrange(start as int, hi as int));
    assert(neg == (b.len() > 0 && b[0] == '-'));
    if start == hi {
        return None;
    }
    let limit: u64 = if neg { 9_223_372_036_854_775_808 } else { 9_223_372_036_854_775_807 };
    let mut acc: u64 = 0;
    let mut over = false;
    let mut i = start;
    while i < hi
        invariant
            lo <= start <= i <= hi <= s@.len(),
            unsigned_part(b) == s@.subrange(start as int, hi as int),
            b == s@.subrange(lo as int, hi as int),
            limit >= 9_223_372_036_854_775_807,
            all_digits(s@.subrange(start as int, i as int)),
            !over ==> acc == digits_value(s@.subrange(start as int, i as int)) && acc <= limit,
            over ==> digits_value(s@.subrange(start as int, i as int)) > limit,
        decreases hi - i,
    {
        let c = s.get_char(i);
        let ghost pre = s@.subrange(start as int, i as int);
        let ghost next = s@.subrange(start as int, i + 1);
        assert(next.drop_last() == pre);
        if !(48 <= c as u32 && c as u32 <= 57) {
            assert(unsigned_part(b)[i - start] == c);
            assert(!is_digit(unsigned_part(b)[i - start]));
            assert(!all_digits(unsigned_part(b)));
            return None;
        }
        let dv: u64 = (c as u32 - 48) as u64;
        proof {
            lemma_digits_nonneg(pre);
        }
        if !over {
            if acc > (limit - dv) / 10 {
                over = true;
            } else {
                acc = acc * 10 + dv;
            }
        }
        assert(all_digits(next)) by {
            assert forall|k: int| 0 <= k < next.len() implies is_digit(#[trigger] next[k]) by {
                if k < pre.len() {
                    assert(next[k] == pre[k]);
                }
            }
        }
        i = i + 1;
    }
    assert(s@.subrange(start as int, hi as int) == s@.subrange(start as int, i as int));
    if over {
        None
    } else if neg {
        if acc == 9_223_372_036_854_775_808 {
            Some(i64::MIN)
        } else {
            Some(-(acc as i64))
        }
    } else {
        Some(acc as i64)
    }
}

/// Position of the first `:` in `a`, if any.
pub open spec fn colon_in(a: Seq<char>) -> Option<int>
    decreases a.len(),
{
    if a.len() == 0 {
        None
    } else {
        match colon_in(a.drop_last()) {
            Some(p) => Some(p),
            None => if a.last() == ':' {
                Some(a.len() - 1)
            } else {
                None
            },
        }
    }
}

/// Where the first `:` of `a` is.
pub fn find_colon(a: &str) -> (r: Option<usize>)
    ensures
        match r {
            Some(p) => colon_in(a@) == Some(p as int),
            None => colon_in(a@) is None,
        },
        r matches Some(p) ==> p < a@.len(),
{
    let n = a.unicode_len();
    let mut i: usize = 0;
    while i < n
        invariant
            n == a@.len(),
            i <= n,
            colon_in(a@.subrange(0, i as int)) is None,
        decreases n - i,
    {
        assert(a@.subrange(0, i + 1).drop_last() == a@.subrange(0, i as int));
        if a.get_char(i) == ':' {
            proof {
                lemma_colon_prefix(a@, i as int + 1);
            }
            return Some(i);
        }
        i = i + 1;
    }
    assert(a@.subrange(0, n as int) == a@);
    None
}

/// A colon found in a prefix is the first colon of the whole.
pub proof fn lemma_colon_prefix(a: Seq<char>, n: int)
    requires
        0 <= n <= a.len(),
        colon_in(a.subrange(0, n)) is Some,
    ensures
        colon_in(a) == colon_in(a.subrange(0, n)),
    decreases a.len() - n,
{
    if n < a.len() {
        assert(a.subrange(0, n + 1).drop_last() == a.subrange(0, n));
        lemma_colon_prefix(a, n + 1);
    } else {
        assert(a.subrange(0, n) == a);
    }
}

} // verus!

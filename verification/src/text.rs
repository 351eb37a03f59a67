//! Byte-level text helpers: horizontal whitespace, ASCII case folding,
//! trimming, case-insensitive comparison and unsigned decimal parsing.

use vstd::prelude::*;

verus! {

/// Horizontal whitespace: space or tab.
pub open spec fn is_hspace(b: u8) -> bool {
    b == 32 || b == 9
}

/// A line break byte: line feed or carriage return.
pub open spec fn is_break(b: u8) -> bool {
    b == 10 || b == 13
}

/// ASCII upper-casing of one byte; bytes outside `a`..`z` are unchanged.
pub open spec fn to_upper(b: u8) -> u8 {
    if 97 <= b && b <= 122 {
        (b - 32) as u8
    } else {
        b
    }
}

pub fn hspace(b: u8) -> (r: bool)
    ensures
        r == is_hspace(b),
{
    b == 32 || b == 9
}

pub fn upper(b: u8) -> (r: u8)
    ensures
        r == to_upper(b),
{
    if 97 <= b && b <= 122 {
        b - 32
    } else {
        b
    }
}

/// The sequence without its leading horizontal whitespace.
pub open spec fn trim_left(s: Seq<u8>) -> Seq<u8>
    decreases s.len(),
{
    if s.len() > 0 && is_hspace(s[0]) {
        trim_left(s.skip(1))
    } else {
        s
    }
}

/// The sequence without its trailing horizontal whitespace.
pub open spec fn trim_right(s: Seq<u8>) -> Seq<u8>
    decreases s.len(),
{
    if s.len() > 0 && is_hspace(s.last()) {
        trim_right(s.drop_last())
    } else {
        s
    }
}

/// The sequence without leading and trailing horizontal whitespace.
pub open spec fn trim(s: Seq<u8>) -> Seq<u8> {
    trim_right(trim_left(s))
}

pub proof fn lemma_trim_left_range(s: Seq<u8>, i: int)
    requires
        0 <= i <= s.len(),
        forall|j: int| 0 <= j < i ==> is_hspace(s[j]),
        i < s.len() ==> !is_hspace(s[i]),
    ensures
        trim_left(s) == s.skip(i),
    decreases i,
{
    if i == 0 {
        if s.len() > 0 && is_hspace(s[0]) {
            assert(false);
        }
        assert(s.skip(0) =~= s);
    } else {
        lemma_trim_left_range(s.skip(1), i - 1);
        assert(s.skip(1).skip(i - 1) =~= s.skip(i));
    }
}

pub proof fn lemma_trim_right_range(s: Seq<u8>, i: int)
    requires
        0 <= i <= s.len(),
        forall|j: int| i <= j < s.len() ==> is_hspace(s[j]),
        i > 0 ==> !is_hspace(s[i - 1]),
    ensures
        trim_right(s) == s.take(i),
    decreases s.len() - i,
{
    if i == s.len() {
        if s.len() > 0 && is_hspace(s.last()) {
            assert(false);
        }
        assert(s.take(i) =~= s);
    } else {
        lemma_trim_right_range(s.drop_last(), i);
        assert(s.drop_last().take(i) =~= s.take(i));
    }
}

/// Trims horizontal whitespace off both ends of `s[from..to]`.
pub fn trim_slice(s: &[u8], from: usize, to: usize) -> (r: (usize, usize))
    requires
        0 <= from <= to <= s@.len(),
    ensures
        from <= r.0 <= r.1 <= to,
        s@.subrange(r.0 as int, r.1 as int) == trim(s@.subrange(from as int, to as int)),
        forall|j: int| from <= j < r.0 ==> is_hspace(s@[j]),
        forall|j: int| r.1 <= j < to ==> is_hspace(s@[j]),
{
    let ghost orig = s@.subrange(from as int, to as int);
    let mut lo = from;
    while lo < to && hspace(s[lo])
        invariant
            from <= lo <= to <= s@.len(),
            forall|j: int| from <= j < lo ==> is_hspace(s@[j]),
        decreases to - lo,
    {
        lo = lo + 1;
    }
    let mut hi = to;
    while hi > lo && hspace(s[hi - 1])
        invariant
            from <= lo <= hi <= to <= s@.len(),
            forall|j: int| from <= j < lo ==> is_hspace(s@[j]),
            forall|j: int| hi <= j < to ==> is_hspace(s@[j]),
        decreases hi,
    {
        hi = hi - 1;
    }
    proof {
        lemma_trim_left_range(orig, lo - from);
        let mid = orig.skip(lo - from);
        lemma_trim_right_range(mid, hi - lo);
        assert(mid.take(hi - lo) =~= s@.subrange(lo as int, hi as int));
    }
    (lo, hi)
}

/// ASCII-case-insensitive equality of two byte sequences.
pub open spec fn eq_ci(a: Seq<u8>, b: Seq<u8>) -> bool {
    a.len() == b.len() && forall|i: int| 0 <= i < a.len() ==> to_upper(a[i]) == to_upper(b[i])
}

/// Tests `s[from..from+t.len()]` against `t`, ignoring ASCII case.
pub fn range_eq_ci(s: &[u8], from: usize, t: &[u8]) -> (r: bool)
    requires
        from + t@.len() <= s@.len(),
    ensures
        r == eq_ci(s@.subrange(from as int, from + t@.len()), t@),
{
    let n = t.len();
    let slen = s.len();
    let mut i: usize = 0;
    while i < n
        invariant
            from + n <= slen == s@.len(),
            n == t@.len(),
            0 <= i <= n,
            forall|j: int| 0 <= j < i ==> to_upper(s@[from + j]) == to_upper(t@[j]),
        decreases n - i,
    {
        if upper(s[from + i]) != upper(t[i]) {
            assert(to_upper(s@.subrange(from as int, from + t@.len())[i as int]) != to_upper(
                t@[i as int],
            ));
            return false;
        }
        i = i + 1;
    }
    assert(forall|j: int|
        0 <= j < n ==> #[trigger] to_upper(s@.subrange(from as int, from + t@.len())[j])
            == to_upper(s@[from + j]));
    true
}

/// Exact equality of a byte slice range against a pattern.
pub fn range_eq(s: &[u8], from: usize, to: usize, t: &[u8]) -> (r: bool)
    requires
        from <= to <= s@.len(),
    ensures
        r == (s@.subrange(from as int, to as int) == t@),
{
    let n = to - from;
    if n != t.len() {
        assert(s@.subrange(from as int, to as int).len() != t@.len());
        return false;
    }
    let mut i: usize = 0;
    while i < n
        invariant
            from <= to <= s@.len(),
            n == to - from,
            n == t@.len(),
            0 <= i <= n,
            forall|j: int| 0 <= j < i ==> s@[from + j] == t@[j],
        decreases n - i,
    {
        if s[from + i] != t[i] {
            assert(s@.subrange(from as int, to as int)[i as int] != t@[i as int]);
            return false;
        }
        i = i + 1;
    }
    assert(s@.subrange(from as int, to as int) =~= t@);
    true
}

pub open spec fn is_digit(b: u8) -> bool {
    48 <= b && b <= 57
}

pub open spec fn all_digits(s: Seq<u8>) -> bool {
    forall|i: int| 0 <= i < s.len() ==> is_digit(s[i])
}

/// Numeric value of a sequence of ASCII decimal digits.
pub open spec fn digits_val(s: Seq<u8>) -> nat
    decreases s.len(),
{
    if s.len() == 0 {
        0
    } else {
        digits_val(s.drop_last()) * 10 + (s.last() - 48) as nat
    }
}

/// The unsigned integer a byte sequence denotes: an optional leading `+`,
/// then at least one digit, and a value that fits in a `u32`.
pub open spec fn u32_val(s: Seq<u8>) -> Option<u32> {
    let d = if s.len() > 0 && s[0] == 43 {
        s.skip(1)
    } else {
        s
    };
    if d.len() > 0 && all_digits(d) && digits_val(d) <= u32::MAX {
        Some(digits_val(d) as u32)
    } else {
        None
    }
}

proof fn lemma_digits_val_grows(s: Seq<u8>, i: int)
    requires
        0 <= i < s.len(),
    ensures
        digits_val(s.take(i)) <= digits_val(s.take(i + 1)),
    decreases s.len(),
{
    assert(s.take(i + 1).drop_last() =~= s.take(i));
    assert(digits_val(s.take(i + 1)) == digits_val(s.take(i)) * 10 + (s.take(i + 1).last()
        - 48) as nat);
}

proof fn lemma_digits_val_monotone(s: Seq<u8>, i: int)
    requires
        0 <= i <= s.len(),
    ensures
        digits_val(s.take(i)) <= digits_val(s),
    decreases s.len() - i,
{
    if i == s.len() {
        assert(s.take(i) =~= s);
    } else {
        lemma_digits_val_grows(s, i);
        lemma_digits_val_monotone(s, i + 1);
    }
}

/// Parses `s[from..to]` as an unsigned 32-bit decimal number, with an
/// optional leading `+`.
pub fn parse_u32(s: &[u8], from: usize, to: usize) -> (r: Option<u32>)
    requires
        from <= to <= s@.len(),
    ensures
        r == u32_val(s@.subrange(from as int, to as int)),
{
    let ghost v = s@.subrange(from as int, to as int);
    if from == to {
        return None;
    }
    let start = if s[from] == 43 {
        from + 1
    } else {
        from
    };
    let ghost d = if v[0] == 43 {
        v.skip(1)
    } else {
        v
    };
    proof {
        assert(d =~= s@.subrange(start as int, to as int));
    }
    if start == to {
        return None;
    }
    let mut acc: u64 = 0;
    let mut i: usize = start;
    while i < to
        invariant
            from <= start <= i <= to <= s@.len(),
            v == s@.subrange(from as int, to as int),
            v.len() > 0,
            d == (if v[0] == 43 {
                v.skip(1)
            } else {
                v
            }),
            d == s@.subrange(start as int, to as int),
            all_digits(d.take(i - start)),
            acc == digits_val(d.take(i - start)),
            acc <= u32::MAX,
        decreases to - i,
    {
        let b = s[i];
        assert(d[i - start] == b);
        if b < 48 || b > 57 {
            assert(!is_digit(d[i - start]));
            return None;
        }
        assert(d.take(i - start + 1).drop_last() =~= d.take(i - start));
        acc = acc * 10 + (b - 48) as u64;
        i = i + 1;
        if acc > 0xffff_ffff {
            proof {
                lemma_digits_val_monotone(d, i - start);
            }
            return None;
        }
    }
    assert(d.take(to - start) =~= d);
    Some(acc as u32)
}

/// The suffix of `s` after the last occurrence of `c`; `s` itself when `c`
/// does not occur.
pub open spec fn after_last(s: Seq<u8>, c: u8) -> Seq<u8>
    decreases s.len(),
{
    if s.len() == 0 {
        s
    } else if s.last() == c {
        Seq::empty()
    } else {
        after_last(s.drop_last(), c).push(s.last())
    }
}

pub proof fn lemma_after_last_range(s: Seq<u8>, c: u8, i: int)
    requires
        0 <= i <= s.len(),
        forall|j: int| i <= j < s.len() ==> s[j] != c,
        i > 0 ==> s[i - 1] == c,
    ensures
        after_last(s, c) == s.skip(i),
    decreases s.len(),
{
    if s.len() == 0 {
        assert(s.skip(0) =~= s);
    } else if s.last() == c {
        assert(i == s.len());
        assert(s.skip(i) =~= Seq::<u8>::empty());
    } else {
        lemma_after_last_range(s.drop_last(), c, i);
        assert(s.drop_last().skip(i).push(s.last()) =~= s.skip(i));
    }
}

/// Index just after the last occurrence of `c` in `s[from..to]`, as an
/// absolute index; `from` when `c` does not occur.
pub fn find_after_last(s: &[u8], from: usize, to: usize, c: u8) -> (r: usize)
    requires
        from <= to <= s@.len(),
    ensures
        from <= r <= to,
        s@.subrange(r as int, to as int) == after_last(s@.subrange(from as int, to as int), c),
{
    let ghost v = s@.subrange(from as int, to as int);
    let mut i = to;
    while i > from
        invariant
            from <= i <= to <= s@.len(),
            v == s@.subrange(from as int, to as int),
            forall|j: int| i <= j < to ==> s@[j] != c,
        decreases i,
    {
        if s[i - 1] == c {
            proof {
                lemma_after_last_range(v, c, i - from);
                assert(v.skip(i - from) =~= s@.subrange(i as int, to as int));
            }
            return i;
        }
        i = i - 1;
    }
    proof {
        lemma_after_last_range(v, c, 0);
        assert(v.skip(0) =~= s@.subrange(from as int, to as int));
    }
    from
}

} // verus!

//! The line reader: splits a raw byte buffer into logical lines.
//!
//! A logical line is the content before the next `\n`, `\r` or `\r\n`
//! terminator.  Bytes after the last terminator form a final line that is
//! marked unterminated; the parser treats end of input as a terminator for
//! everything its grammar recognizes.

use vstd::prelude::*;
use crate::text::is_break;

verus! {

/// One logical line: its content bytes and whether a terminator followed it.
pub struct Line {
    pub bytes: Vec<u8>,
    pub terminated: bool,
}

impl View for Line {
    type V = (Seq<u8>, bool);

    open spec fn view(&self) -> (Seq<u8>, bool) {
        (self.bytes@, self.terminated)
    }
}

/// Index of the first line-break byte in `s`, or `s.len()` when none occurs.
pub open spec fn first_break(s: Seq<u8>) -> int
    decreases s.len(),
{
    if s.len() == 0 {
        0
    } else if is_break(s[0]) {
        0
    } else {
        1 + first_break(s.skip(1))
    }
}

pub proof fn lemma_first_break_range(s: Seq<u8>, i: int)
    requires
        0 <= i <= s.len(),
        forall|j: int| 0 <= j < i ==> !is_break(s[j]),
        i < s.len() ==> is_break(s[i]),
    ensures
        first_break(s) == i,
    decreases i,
{
    if i > 0 {
        lemma_first_break_range(s.skip(1), i - 1);
    }
}

/// How many bytes the terminator at `e` occupies: two for `\r\n`, else one.
pub open spec fn break_len(s: Seq<u8>, e: int) -> int {
    if s[e] == 13 && e + 1 < s.len() && s[e + 1] == 10 {
        2
    } else {
        1
    }
}

/// The logical lines of a byte buffer, each with a flag telling whether a
/// line terminator followed it.  Only the last line can be unterminated,
/// and an empty buffer has no lines.
pub open spec fn lines_of(s: Seq<u8>) -> Seq<(Seq<u8>, bool)>
    decreases s.len(),
{
    if s.len() == 0 {
        Seq::empty()
    } else {
        let e = first_break(s);
        if e < 0 || e >= s.len() {
            seq![(s, false)]
        } else {
            seq![(s.take(e), true)] + lines_of(s.skip(e + break_len(s, e)))
        }
    }
}

/// Splits a buffer into its logical lines.
pub fn split_lines(s: &[u8]) -> (r: Vec<Line>)
    ensures
        r@.map_values(|l: Line| l@) == lines_of(s@),
{
    let len = s.len();
    let mut r: Vec<Line> = Vec::new();
    let mut pos: usize = 0;
    proof {
        assert(s@.skip(0) =~= s@);
        assert(r@.map_values(|l: Line| l@) =~= Seq::<(Seq<u8>, bool)>::empty());
        assert(Seq::<(Seq<u8>, bool)>::empty() + lines_of(s@) =~= lines_of(s@));
    }
    while pos < len
        invariant
            0 <= pos <= len == s@.len(),
            r@.map_values(|l: Line| l@) + lines_of(s@.skip(pos as int)) == lines_of(s@),
        decreases len - pos,
    {
        let ghost rest = s@.skip(pos as int);
        let mut e: usize = pos;
        while e < len && s[e] != 10 && s[e] != 13
            invariant
                pos <= e <= len == s@.len(),
                forall|j: int| pos <= j < e ==> !is_break(s@[j]),
            decreases len - e,
        {
            e = e + 1;
        }
        proof {
            assert(forall|j: int| 0 <= j < e - pos ==> rest[j] == s@[pos + j]);
            lemma_first_break_range(rest, e - pos);
        }
        let mut bytes: Vec<u8> = Vec::new();
        let mut i: usize = pos;
        while i < e
            invariant
                pos <= i <= e <= s@.len(),
                bytes@ == s@.subrange(pos as int, i as int),
            decreases e - i,
        {
            let ghost prev = bytes@;
            bytes.push(s[i]);
            proof {
                assert(bytes@ =~= s@.subrange(pos as int, i + 1));
            }
            i = i + 1;
        }
        if e == len {
            proof {
                assert(bytes@ =~= rest);
            }
            r.push(Line { bytes, terminated: false });
            proof {
                assert(lines_of(rest) =~= seq![(rest, false)]);
                assert(r@.map_values(|l: Line| l@) =~= r@.map_values(|l: Line| l@));
                assert(r@.map_values(|l: Line| l@).drop_last() + seq![(rest, false)]
                    =~= r@.map_values(|l: Line| l@));
                assert(r@.drop_last().map_values(|l: Line| l@) =~= r@.map_values(
                    |l: Line| l@,
                ).drop_last());
            }
            pos = len;
        } else {
            let step: usize = if s[e] == 13 && e + 1 < len && s[e + 1] == 10 {
                2
            } else {
                1
            };
            proof {
                assert(rest[e - pos] == s@[e as int]);
                assert(e + 1 < s@.len() ==> rest[e - pos + 1] == s@[e + 1]);
                assert(break_len(rest, e - pos) == step);
                assert(bytes@ =~= rest.take(e - pos));
                assert(rest.skip(e - pos + step) =~= s@.skip(pos + e - pos + step));
            }
            r.push(Line { bytes, terminated: true });
            proof {
                assert(r@.drop_last().map_values(|l: Line| l@) =~= r@.map_values(
                    |l: Line| l@,
                ).drop_last());
                assert(r@.map_values(|l: Line| l@) =~= r@.drop_last().map_values(|l: Line| l@)
                    + seq![(rest.take(e - pos), true)]);
            }
            pos = e + step;
        }
    }
    proof {
        assert(lines_of(s@.skip(pos as int)) =~= Seq::empty());
        assert(r@.map_values(|l: Line| l@) + Seq::empty() =~= r@.map_values(|l: Line| l@));
    }
    r
}

} // verus!

//! The tag-driven grammar parser: it turns the logical lines of a
//! configuration buffer into a typed field stream and folds that stream
//! into the document.
//!
//! Scope handling follows the file format: lines before the first `LABEL`
//! declaration belong to the global scope (label-scope fields seen there
//! accumulate into the global label template), every `LABEL <name>` line
//! opens a label scope that runs to the next declaration or the end of
//! input.  Unknown tags, blank lines and comments are consumed without
//! producing a field.  End of input is accepted as a line terminator, so a
//! buffer may end right after its last recognized line; only a final
//! unterminated line that nothing recognizes is left unconsumed and makes
//! the whole parse fail with trailing data.

use vstd::prelude::*;
use vstd::utf8::{valid_utf8, decode_utf8};
use vstd::string::StringExecFns;
use crate::text::{is_hspace, trim, trim_left, eq_ci, to_upper, u32_val, range_eq_ci, trim_slice,
    hspace, lemma_trim_left_range, parse_u32};
use crate::lines::{Line, lines_of, split_lines};
use crate::decode::{bytes_to_string, lemma_valid_utf8_inner};
use crate::types::{KernelFile, KernelFileV, Label, LabelV, Global, GlobalV, Labels, SyslinuxConf,
    SyslinuxConfV, ReaderError, label_v_default, global_v_default, guess_spec,
    build_label_spec, build_global_spec, LabelFieldV, GlobalFieldV, LabelField, GlobalField,
    insert_label_spec, labels_contain, Warning};

verus! {

// ----------------------------------------------------------------------
// Keywords (upper-case ASCII byte sequences)
// ----------------------------------------------------------------------
pub open spec fn kw_label() -> Seq<u8> {
    seq![76u8, 65u8, 66u8, 69u8, 76u8]
}

pub open spec fn kw_kernel() -> Seq<u8> {
    seq![75u8, 69u8, 82u8, 78u8, 69u8, 76u8]
}

pub open spec fn kw_linux() -> Seq<u8> {
    seq![76u8, 73u8, 78u8, 85u8, 88u8]
}

pub open spec fn kw_boot() -> Seq<u8> {
    seq![66u8, 79u8, 79u8, 84u8]
}

pub open spec fn kw_bss() -> Seq<u8> {
    seq![66u8, 83u8, 83u8]
}

pub open spec fn kw_pxe() -> Seq<u8> {
    seq![80u8, 88u8, 69u8]
}

pub open spec fn kw_fdimage() -> Seq<u8> {
    seq![70u8, 68u8, 73u8, 77u8, 65u8, 71u8, 69u8]
}

pub open spec fn kw_comboot() -> Seq<u8> {
    seq![67u8, 79u8, 77u8, 66u8, 79u8, 79u8, 84u8]
}

pub open spec fn kw_com32() -> Seq<u8> {
    seq![67u8, 79u8, 77u8, 51u8, 50u8]
}

pub open spec fn kw_initrd() -> Seq<u8> {
    seq![73u8, 78u8, 73u8, 84u8, 82u8, 68u8]
}

pub open spec fn kw_fdtdir() -> Seq<u8> {
    seq![70u8, 68u8, 84u8, 68u8, 73u8, 82u8]
}

pub open spec fn kw_append() -> Seq<u8> {
    seq![65u8, 80u8, 80u8, 69u8, 78u8, 68u8]
}

pub open spec fn kw_say() -> Seq<u8> {
    seq![83u8, 65u8, 89u8]
}

pub open spec fn kw_display() -> Seq<u8> {
    seq![68u8, 73u8, 83u8, 80u8, 76u8, 65u8, 89u8]
}

pub open spec fn kw_default() -> Seq<u8> {
    seq![68u8, 69u8, 70u8, 65u8, 85u8, 76u8, 84u8]
}

pub open spec fn kw_ontimeout() -> Seq<u8> {
    seq![79u8, 78u8, 84u8, 73u8, 77u8, 69u8, 79u8, 85u8, 84u8]
}

pub open spec fn kw_onerror() -> Seq<u8> {
    seq![79u8, 78u8, 69u8, 82u8, 82u8, 79u8, 82u8]
}

pub open spec fn kw_timeout() -> Seq<u8> {
    seq![84u8, 73u8, 77u8, 69u8, 79u8, 85u8, 84u8]
}

pub open spec fn kw_totaltimeout() -> Seq<u8> {
    seq![84u8, 79u8, 84u8, 65u8, 76u8, 84u8, 73u8, 77u8, 69u8, 79u8, 85u8, 84u8]
}

pub open spec fn kw_text() -> Seq<u8> {
    seq![84u8, 69u8, 88u8, 84u8]
}

pub open spec fn kw_help() -> Seq<u8> {
    seq![72u8, 69u8, 76u8, 80u8]
}

pub open spec fn kw_endtext() -> Seq<u8> {
    seq![69u8, 78u8, 68u8, 84u8, 69u8, 88u8, 84u8]
}

pub open spec fn ascii_kw(kw: Seq<u8>) -> bool {
    forall|i: int| 0 <= i < kw.len() ==> kw[i] < 128
}

// ----------------------------------------------------------------------
// Line classification
// ----------------------------------------------------------------------
/// A line of nothing but horizontal whitespace.
pub open spec fn is_blank(b: Seq<u8>) -> bool {
    forall|i: int| 0 <= i < b.len() ==> is_hspace(b[i])
}

/// A comment line: `#` as the first byte after optional whitespace.
pub open spec fn is_comment(b: Seq<u8>) -> bool {
    trim_left(b).len() > 0 && trim_left(b)[0] == 35
}

/// The value of a tag line: after optional leading whitespace the keyword
/// must appear (ASCII-case-insensitively), followed by at least one
/// whitespace byte and a value that is non-empty once trimmed.  `None`
/// when the line does not carry this tag.
pub open spec fn tag_value(b: Seq<u8>, kw: Seq<u8>) -> Option<Seq<u8>> {
    let t = trim_left(b);
    if t.len() > kw.len() && eq_ci(t.take(kw.len() as int), kw) && is_hspace(t[kw.len() as int]) {
        let v = trim(t.skip(kw.len() as int));
        if v.len() > 0 {
            Some(v)
        } else {
            None
        }
    } else {
        None
    }
}

/// Does the line declare a new label?
pub open spec fn is_label_decl(b: Seq<u8>) -> bool {
    tag_value(b, kw_label()) is Some
}

/// A help-block opening line: `TEXT`, whitespace, `HELP`, then nothing but
/// whitespace.  No leading whitespace is allowed before `TEXT`.
pub open spec fn is_text_help_start(b: Seq<u8>) -> bool {
    b.len() > 4 && eq_ci(b.take(4), kw_text()) && is_hspace(b[4]) && {
        let r = trim_left(b.skip(4));
        r.len() >= 4 && eq_ci(r.take(4), kw_help()) && is_blank(r.skip(4))
    }
}

/// A help-block terminator: a line that trims to `ENDTEXT`, in any case.
pub open spec fn is_endtext(b: Seq<u8>) -> bool {
    eq_ci(trim(b), kw_endtext())
}

// ----------------------------------------------------------------------
// Executable classification helpers
// ----------------------------------------------------------------------
/// Whether `b[from..to]` is all horizontal whitespace.
pub fn blank_range(b: &[u8], from: usize, to: usize) -> (r: bool)
    requires
        from <= to <= b@.len(),
    ensures
        r == is_blank(b@.subrange(from as int, to as int)),
{
    let mut i = from;
    while i < to
        invariant
            from <= i <= to <= b@.len(),
            forall|j: int| from <= j < i ==> is_hspace(b@[j]),
        decreases to - i,
    {
        if !hspace(b[i]) {
            assert(!is_hspace(b@.subrange(from as int, to as int)[i - from]));
            return false;
        }
        i = i + 1;
    }
    assert(forall|j: int|
        0 <= j < to - from ==> b@.subrange(from as int, to as int)[j] == b@[from + j]);
    true
}

/// Index of the first byte of `b` that is not horizontal whitespace.
fn skip_hspace(b: &[u8]) -> (r: usize)
    ensures
        0 <= r <= b@.len(),
        trim_left(b@) == b@.skip(r as int),
        forall|j: int| 0 <= j < r ==> is_hspace(b@[j]),
{
    let n = b.len();
    let mut i: usize = 0;
    while i < n && hspace(b[i])
        invariant
            0 <= i <= n == b@.len(),
            forall|j: int| 0 <= j < i ==> is_hspace(b@[j]),
        decreases n - i,
    {
        i = i + 1;
    }
    proof {
        lemma_trim_left_range(b@, i as int);
    }
    i
}

pub fn line_is_blank(b: &[u8]) -> (r: bool)
    ensures
        r == is_blank(b@),
{
    let r = blank_range(b, 0, b.len());
    proof {
        assert(b@.subrange(0, b@.len() as int) =~= b@);
    }
    r
}

pub fn line_is_comment(b: &[u8]) -> (r: bool)
    ensures
        r == is_comment(b@),
{
    let i = skip_hspace(b);
    if i < b.len() {
        assert(trim_left(b@)[0] == b@[i as int]);
        b[i] == 35
    } else {
        false
    }
}

/// Matches a tag line and returns the value's byte range.  All bytes before
/// the value start and the byte just after it (if any) are ASCII, which
/// keeps the value decodable whenever the whole line is.
pub fn tag_val_range(b: &[u8], kw: &[u8]) -> (r: Option<(usize, usize)>)
    requires
        kw@.len() >= 1,
        ascii_kw(kw@),
    ensures
        match r {
            Some((lo, hi)) => {
                &&& lo <= hi <= b@.len()
                &&& tag_value(b@, kw@) == Some(b@.subrange(lo as int, hi as int))
                &&& lo < hi
                &&& forall|j: int| 0 <= j < lo ==> b@[j] < 128
                &&& (hi < b@.len() ==> b@[hi as int] < 128)
            },
            None => tag_value(b@, kw@) is None,
        },
{
    let n = b.len();
    let k = kw.len();
    let i0 = skip_hspace(b);
    let ghost t = trim_left(b@);
    if n - i0 <= k {
        return None;
    }
    if !range_eq_ci(b, i0, kw) {
        assert(t.take(k as int) =~= b@.subrange(i0 as int, i0 + k));
        return None;
    }
    assert(t.take(k as int) =~= b@.subrange(i0 as int, i0 + k));
    if !hspace(b[i0 + k]) {
        assert(t[k as int] == b@[i0 + k]);
        return None;
    }
    assert(t[k as int] == b@[i0 + k]);
    let (lo, hi) = trim_slice(b, i0 + k, n);
    proof {
        assert(b@.subrange(i0 + k, n as int) =~= t.skip(k as int));
        assert forall|j: int| 0 <= j < lo implies b@[j] < 128 by {
            if j < i0 {
                assert(is_hspace(b@[j]));
            } else if j < i0 + k {
                assert(to_upper(b@.subrange(i0 as int, i0 + k)[j - i0]) == to_upper(
                    kw@[j - i0],
                ));
                assert(b@.subrange(i0 as int, i0 + k)[j - i0] == b@[j]);
                assert(kw@[j - i0] < 128);
            } else {
                assert(is_hspace(b@[j]));
            }
        }
    }
    if lo == hi {
        None
    } else {
        Some((lo, hi))
    }
}

/// The tag's value as fresh bytes (for path-valued tags).
pub fn tag_val_bytes(b: &[u8], kw: &[u8]) -> (r: Option<Vec<u8>>)
    requires
        kw@.len() >= 1,
        ascii_kw(kw@),
    ensures
        match r {
            Some(v) => tag_value(b@, kw@) == Some(v@),
            None => tag_value(b@, kw@) is None,
        },
{
    match tag_val_range(b, kw) {
        Some((lo, hi)) => {
            let s = vstd::slice::slice_subrange(b, lo, hi);
            Some(vstd::slice::slice_to_vec(s))
        },
        None => None,
    }
}

/// The tag's value decoded as a string (for free-text tags).  The line must
/// be valid UTF-8; the value then always decodes.
pub fn tag_val_string(b: &[u8], kw: &[u8]) -> (r: Option<String>)
    requires
        kw@.len() >= 1,
        ascii_kw(kw@),
        valid_utf8(b@),
    ensures
        match tag_value(b@, kw@) {
            Some(v) => r matches Some(s) && s@ == decode_utf8(v),
            None => r is None,
        },
{
    match tag_val_range(b, kw) {
        Some((lo, hi)) => {
            proof {
                lemma_valid_utf8_inner(b@, lo as int, hi as int);
            }
            let s = vstd::slice::slice_subrange(b, lo, hi);
            let d = bytes_to_string(s);
            match d {
                Some(st) => Some(st),
                None => {
                    proof {
                        assert(false);
                    }
                    None
                },
            }
        },
        None => None,
    }
}

/// Recognizes the opening line of a `TEXT HELP` block.
pub fn text_help_start(b: &[u8]) -> (r: bool)
    ensures
        r == is_text_help_start(b@),
{
    let n = b.len();
    if n <= 4 {
        return false;
    }
    let tx = [84u8, 69u8, 88u8, 84u8];
    let hp = [72u8, 69u8, 76u8, 80u8];
    proof {
        assert(tx@ =~= kw_text());
        assert(hp@ =~= kw_help());
    }
    if !range_eq_ci(b, 0, tx.as_slice()) {
        assert(b@.subrange(0, 4) =~= b@.take(4));
        return false;
    }
    assert(b@.subrange(0, 4) =~= b@.take(4));
    if !hspace(b[4]) {
        return false;
    }
    let mut i1: usize = 4;
    while i1 < n && hspace(b[i1])
        invariant
            4 <= i1 <= n == b@.len(),
            forall|j: int| 4 <= j < i1 ==> is_hspace(b@[j]),
        decreases n - i1,
    {
        i1 = i1 + 1;
    }
    let ghost r4 = b@.skip(4);
    proof {
        lemma_trim_left_range(r4, i1 - 4);
        assert(r4.skip(i1 - 4) =~= b@.skip(i1 as int));
    }
    if n - i1 < 4 {
        return false;
    }
    if !range_eq_ci(b, i1, hp.as_slice()) {
        assert(b@.subrange(i1 as int, i1 + 4) =~= b@.skip(i1 as int).take(4));
        return false;
    }
    assert(b@.subrange(i1 as int, i1 + 4) =~= b@.skip(i1 as int).take(4));
    let r = blank_range(b, i1 + 4, n);
    proof {
        assert(b@.subrange(i1 + 4, n as int) =~= b@.skip(i1 as int).skip(4));
    }
    r
}

/// Recognizes a help-block terminator line.
pub fn endtext_line(b: &[u8]) -> (r: bool)
    ensures
        r == is_endtext(b@),
{
    let n = b.len();
    let (lo, hi) = trim_slice(b, 0, n);
    proof {
        assert(b@.subrange(0, n as int) =~= b@);
    }
    let et = [69u8, 78u8, 68u8, 84u8, 69u8, 88u8, 84u8];
    proof {
        assert(et@ =~= kw_endtext());
    }
    if hi - lo != 7 {
        return false;
    }
    let r = range_eq_ci(b, lo, et.as_slice());
    proof {
        assert(b@.subrange(lo as int, lo + 7) =~= b@.subrange(lo as int, hi as int));
    }
    r
}

// ----------------------------------------------------------------------
// The line-step model
// ----------------------------------------------------------------------
/// The views of a line vector.
pub open spec fn line_views(ls: Seq<Line>) -> Seq<(Seq<u8>, bool)> {
    ls.map_values(|l: Line| l@)
}

/// The tag's value, empty when the tag does not match (callers guard).
pub open spec fn tv(b: Seq<u8>, kw: Seq<u8>) -> Seq<u8> {
    match tag_value(b, kw) {
        Some(v) => v,
        None => Seq::empty(),
    }
}

/// What one step of label-scope parsing does at line `i`: stop before a
/// label declaration or an unconsumable unterminated tail (`End`), consume
/// a line without a field (`Skip`), produce a field (`Field`, with the
/// index of the next unconsumed line), or abort (`Fail`).
pub enum LabelStepV {
    End,
    Skip(int),
    Field(int, LabelFieldV),
    Fail(ReaderError),
}

pub enum GlobalStepV {
    End,
    Skip(int),
    Field(int, GlobalFieldV),
    Fail(ReaderError),
}

/// First line at or after `i` that terminates a help block: one that
/// trims to `ENDTEXT`.  `lines.len()` when there is no such line.
pub open spec fn find_endtext(lines: Seq<(Seq<u8>, bool)>, i: int) -> int
    decreases lines.len() - i,
{
    if i < 0 || i >= lines.len() {
        lines.len() as int
    } else if is_endtext(lines[i].0) {
        i
    } else {
        find_endtext(lines, i + 1)
    }
}

/// First line in `[i, k)` whose bytes are not valid UTF-8; `k` when all are.
pub open spec fn first_invalid(lines: Seq<(Seq<u8>, bool)>, i: int, k: int) -> int
    decreases k - i,
{
    if i >= k {
        k
    } else if !valid_utf8(lines[i].0) {
        i
    } else {
        first_invalid(lines, i + 1, k)
    }
}

/// The help text of the block whose interior lines are `[i, k)`: each line
/// is trimmed, blank lines contribute nothing, and the remaining lines are
/// joined in order with a single space.
pub open spec fn help_join(lines: Seq<(Seq<u8>, bool)>, i: int, k: int, acc: Seq<char>) -> Seq<
    char,
>
    decreases k - i,
{
    if i >= k {
        acc
    } else {
        let t = trim(lines[i].0);
        let acc2 = if t.len() == 0 {
            acc
        } else if acc.len() == 0 {
            decode_utf8(t)
        } else {
            acc + seq![' '] + decode_utf8(t)
        };
        help_join(lines, i + 1, k, acc2)
    }
}

/// One step of label-scope parsing at line `i`.  End of input counts as a
/// line terminator: a final unterminated line is handled like any other,
/// except that an *unknown* one is left unconsumed (trailing data).
pub open spec fn label_step(lines: Seq<(Seq<u8>, bool)>, i: int) -> LabelStepV
    recommends
        0 <= i < lines.len(),
{
    let b = lines[i].0;
    let term = lines[i].1;
    if is_label_decl(b) {
        LabelStepV::End
    } else if !valid_utf8(b) {
        LabelStepV::Fail(ReaderError::EncodingError(i as usize))
    } else if is_blank(b) || is_comment(b) {
        LabelStepV::Skip(i + 1)
    } else if is_text_help_start(b) {
        let k = find_endtext(lines, i + 1);
        if k < lines.len() {
            let bad = first_invalid(lines, i + 1, k);
            if bad < k {
                LabelStepV::Fail(ReaderError::EncodingError(bad as usize))
            } else {
                LabelStepV::Field(
                    k + 1,
                    LabelFieldV::TextHelp(help_join(lines, i + 1, k, Seq::empty())),
                )
            }
        } else if term {
            // No terminator line: the opening line alone is an unknown tag.
            LabelStepV::Skip(i + 1)
        } else {
            LabelStepV::End
        }
    } else if tag_value(b, kw_say()) is Some {
        LabelStepV::Field(i + 1, LabelFieldV::Say(decode_utf8(tv(b, kw_say()))))
    } else if tag_value(b, kw_display()) is Some {
        LabelStepV::Field(i + 1, LabelFieldV::Display(tv(b, kw_display())))
    } else if tag_value(b, kw_linux()) is Some {
        LabelStepV::Field(i + 1, LabelFieldV::KernelFile(KernelFileV::Linux(tv(b, kw_linux()))))
    } else if tag_value(b, kw_boot()) is Some {
        LabelStepV::Field(i + 1, LabelFieldV::KernelFile(KernelFileV::Boot(tv(b, kw_boot()))))
    } else if tag_value(b, kw_bss()) is Some {
        LabelStepV::Field(i + 1, LabelFieldV::KernelFile(KernelFileV::BSS(tv(b, kw_bss()))))
    } else if tag_value(b, kw_pxe()) is Some {
        LabelStepV::Field(i + 1, LabelFieldV::KernelFile(KernelFileV::PXE(tv(b, kw_pxe()))))
    } else if tag_value(b, kw_fdimage()) is Some {
        LabelStepV::Field(
            i + 1,
            LabelFieldV::KernelFile(KernelFileV::FDImage(tv(b, kw_fdimage()))),
        )
    } else if tag_value(b, kw_comboot()) is Some {
        LabelStepV::Field(
            i + 1,
            LabelFieldV::KernelFile(KernelFileV::ComBoot(tv(b, kw_comboot()))),
        )
    } else if tag_value(b, kw_com32()) is Some {
        LabelStepV::Field(i + 1, LabelFieldV::KernelFile(KernelFileV::Com32(tv(b, kw_com32()))))
    } else if tag_value(b, kw_initrd()) is Some {
        LabelStepV::Field(i + 1, LabelFieldV::InitRD(tv(b, kw_initrd())))
    } else if tag_value(b, kw_fdtdir()) is Some {
        LabelStepV::Field(i + 1, LabelFieldV::FDTDir(tv(b, kw_fdtdir())))
    } else if tag_value(b, kw_append()) is Some {
        LabelStepV::Field(i + 1, LabelFieldV::Append(decode_utf8(tv(b, kw_append()))))
    } else if tag_value(b, kw_kernel()) is Some {
        LabelStepV::Field(i + 1, LabelFieldV::KernelFile(guess_spec(tv(b, kw_kernel()))))
    } else if term {
        // Unknown or unsupported tag: consumed, no field.
        LabelStepV::Skip(i + 1)
    } else {
        // An unknown line without a terminator is not consumed: it is
        // trailing data.
        LabelStepV::End
    }
}

/// One step of global-scope parsing at line `i`: global-only tags first,
/// then the label-scope step, whose field lands in the label template.
pub open spec fn global_step(lines: Seq<(Seq<u8>, bool)>, i: int) -> GlobalStepV
    recommends
        0 <= i < lines.len(),
{
    let b = lines[i].0;
    if is_label_decl(b) {
        GlobalStepV::End
    } else if !valid_utf8(b) {
        GlobalStepV::Fail(ReaderError::EncodingError(i as usize))
    } else if tag_value(b, kw_default()) is Some {
        GlobalStepV::Field(i + 1, GlobalFieldV::Default(decode_utf8(tv(b, kw_default()))))
    } else if tag_value(b, kw_ontimeout()) is Some {
        GlobalStepV::Field(i + 1, GlobalFieldV::OnTimeout(decode_utf8(tv(b, kw_ontimeout()))))
    } else if tag_value(b, kw_onerror()) is Some {
        GlobalStepV::Field(i + 1, GlobalFieldV::OnError(decode_utf8(tv(b, kw_onerror()))))
    } else if tag_value(b, kw_timeout()) is Some {
        match u32_val(tv(b, kw_timeout())) {
            Some(n) => GlobalStepV::Field(i + 1, GlobalFieldV::Timeout(n)),
            None => GlobalStepV::Fail(ReaderError::MalformedValueError(i as usize)),
        }
    } else if tag_value(b, kw_totaltimeout()) is Some {
        match u32_val(tv(b, kw_totaltimeout())) {
            Some(n) => GlobalStepV::Field(i + 1, GlobalFieldV::TotalTimeout(n)),
            None => GlobalStepV::Fail(ReaderError::MalformedValueError(i as usize)),
        }
    } else {
        match label_step(lines, i) {
            LabelStepV::End => GlobalStepV::End,
            LabelStepV::Skip(n) => GlobalStepV::Skip(n),
            LabelStepV::Field(n, f) => GlobalStepV::Field(n, GlobalFieldV::Label(f)),
            LabelStepV::Fail(e) => GlobalStepV::Fail(e),
        }
    }
}

pub proof fn lemma_find_endtext_bounds(lines: Seq<(Seq<u8>, bool)>, i: int)
    requires
        0 <= i <= lines.len(),
    ensures
        i <= find_endtext(lines, i) <= lines.len(),
    decreases lines.len() - i,
{
    if i < lines.len() && !(lines[i].1 && is_endtext(lines[i].0)) {
        lemma_find_endtext_bounds(lines, i + 1);
    }
}

pub proof fn lemma_find_endtext_range(lines: Seq<(Seq<u8>, bool)>, i: int, j: int)
    requires
        0 <= i <= j <= lines.len(),
        forall|m: int| i <= m < j ==> !is_endtext(lines[m].0),
        j < lines.len() ==> is_endtext(lines[j].0),
    ensures
        find_endtext(lines, i) == j,
    decreases j - i,
{
    if i < j {
        lemma_find_endtext_range(lines, i + 1, j);
    }
}

pub proof fn lemma_first_invalid_range(lines: Seq<(Seq<u8>, bool)>, i: int, k: int, j: int)
    requires
        i <= j <= k,
        forall|m: int| i <= m < j ==> valid_utf8(lines[m].0),
        j < k ==> !valid_utf8(lines[j].0),
    ensures
        first_invalid(lines, i, k) == j,
    decreases j - i,
{
    if i < j {
        lemma_first_invalid_range(lines, i + 1, k, j);
    }
}

/// A label step never moves backwards and never runs past the input.
pub proof fn lemma_label_step_bounds(lines: Seq<(Seq<u8>, bool)>, i: int)
    requires
        0 <= i < lines.len(),
    ensures
        match label_step(lines, i) {
            LabelStepV::Skip(n) => i < n <= lines.len(),
            LabelStepV::Field(n, _) => i < n <= lines.len(),
            _ => true,
        },
{
    lemma_find_endtext_bounds(lines, i + 1);
}

pub proof fn lemma_global_step_bounds(lines: Seq<(Seq<u8>, bool)>, i: int)
    requires
        0 <= i < lines.len(),
    ensures
        match global_step(lines, i) {
            GlobalStepV::Skip(n) => i < n <= lines.len(),
            GlobalStepV::Field(n, _) => i < n <= lines.len(),
            _ => true,
        },
{
    lemma_label_step_bounds(lines, i);
}

// ----------------------------------------------------------------------
// The folds
// ----------------------------------------------------------------------
/// Folds label-scope fields into `acc` from line `i` until the scope ends;
/// returns the label and the first unconsumed line.
pub open spec fn fold_label(lines: Seq<(Seq<u8>, bool)>, i: int, acc: LabelV) -> Result<
    (LabelV, int),
    ReaderError,
>
    decreases lines.len() - i,
    via fold_label_dec
{
    if i < 0 || i >= lines.len() {
        Ok((acc, i))
    } else {
        match label_step(lines, i) {
            LabelStepV::End => Ok((acc, i)),
            LabelStepV::Skip(n) => fold_label(lines, n, acc),
            LabelStepV::Field(n, f) => fold_label(lines, n, build_label_spec(acc, f)),
            LabelStepV::Fail(e) => Err(e),
        }
    }
}

#[via_fn]
proof fn fold_label_dec(lines: Seq<(Seq<u8>, bool)>, i: int, acc: LabelV) {
    if 0 <= i < lines.len() {
        lemma_label_step_bounds(lines, i);
    }
}

/// Folds global-scope fields into `acc` from line `i` until the first
/// label declaration or the end of input.
pub open spec fn fold_global(lines: Seq<(Seq<u8>, bool)>, i: int, acc: GlobalV) -> Result<
    (GlobalV, int),
    ReaderError,
>
    decreases lines.len() - i,
    via fold_global_dec
{
    if i < 0 || i >= lines.len() {
        Ok((acc, i))
    } else {
        match global_step(lines, i) {
            GlobalStepV::End => Ok((acc, i)),
            GlobalStepV::Skip(n) => fold_global(lines, n, acc),
            GlobalStepV::Field(n, f) => fold_global(lines, n, build_global_spec(acc, f)),
            GlobalStepV::Fail(e) => Err(e),
        }
    }
}

#[via_fn]
proof fn fold_global_dec(lines: Seq<(Seq<u8>, bool)>, i: int, acc: GlobalV) {
    if 0 <= i < lines.len() {
        lemma_global_step_bounds(lines, i);
    }
}

pub proof fn lemma_fold_label_bounds(lines: Seq<(Seq<u8>, bool)>, i: int, acc: LabelV)
    requires
        0 <= i <= lines.len(),
    ensures
        match fold_label(lines, i, acc) {
            Ok((l, n)) => i <= n <= lines.len(),
            Err(_) => true,
        },
    decreases lines.len() - i,
{
    if i < lines.len() {
        lemma_label_step_bounds(lines, i);
        match label_step(lines, i) {
            LabelStepV::Skip(n) => lemma_fold_label_bounds(lines, n, acc),
            LabelStepV::Field(n, f) => lemma_fold_label_bounds(lines, n, build_label_spec(acc, f)),
            _ => {},
        }
    }
}

pub proof fn lemma_fold_global_bounds(lines: Seq<(Seq<u8>, bool)>, i: int, acc: GlobalV)
    requires
        0 <= i <= lines.len(),
    ensures
        match fold_global(lines, i, acc) {
            Ok((g, n)) => i <= n <= lines.len(),
            Err(_) => true,
        },
    decreases lines.len() - i,
{
    if i < lines.len() {
        lemma_global_step_bounds(lines, i);
        match global_step(lines, i) {
            GlobalStepV::Skip(n) => lemma_fold_global_bounds(lines, n, acc),
            GlobalStepV::Field(n, f) => lemma_fold_global_bounds(
                lines,
                n,
                build_global_spec(acc, f),
            ),
            _ => {},
        }
    }
}

/// Parses the label list from line `i`: each `LABEL <name>` line opens a
/// label whose fields run to the next declaration; a duplicate name keeps
/// the first label.  Returns the labels and the first unconsumed line.
pub open spec fn fold_labels(
    lines: Seq<(Seq<u8>, bool)>,
    i: int,
    acc: Seq<(Seq<char>, LabelV)>,
) -> Result<(Seq<(Seq<char>, LabelV)>, int), ReaderError>
    decreases lines.len() - i,
    via fold_labels_dec
{
    if i < 0 || i >= lines.len() {
        Ok((acc, i))
    } else {
        let b = lines[i].0;
        if is_label_decl(b) {
            if !valid_utf8(b) {
                Err(ReaderError::EncodingError(i as usize))
            } else {
                let name = decode_utf8(tv(b, kw_label()));
                match fold_label(lines, i + 1, label_v_default()) {
                    Ok((lab, n)) => fold_labels(lines, n, insert_label_spec(acc, name, lab)),
                    Err(e) => Err(e),
                }
            }
        } else {
            Ok((acc, i))
        }
    }
}

#[via_fn]
proof fn fold_labels_dec(lines: Seq<(Seq<u8>, bool)>, i: int, acc: Seq<(Seq<char>, LabelV)>) {
    if 0 <= i < lines.len() {
        lemma_fold_label_bounds(lines, i + 1, label_v_default());
    }
}

/// The parse of a whole line sequence: the global scope, then the labels;
/// any unconsumed line is trailing data.
pub open spec fn spec_parse_lines(lines: Seq<(Seq<u8>, bool)>) -> Result<
    SyslinuxConfV,
    ReaderError,
> {
    match fold_global(lines, 0, global_v_default()) {
        Err(e) => Err(e),
        Ok((g, i)) => match fold_labels(lines, i, Seq::empty()) {
            Err(e) => Err(e),
            Ok((ls, n)) => if n == lines.len() {
                Ok(SyslinuxConfV { global: g, labels: ls })
            } else {
                Err(ReaderError::TrailingDataError)
            },
        },
    }
}

/// The parse of a raw byte buffer.
pub open spec fn spec_parse(bytes: Seq<u8>) -> Result<SyslinuxConfV, ReaderError> {
    spec_parse_lines(lines_of(bytes))
}

// ----------------------------------------------------------------------
// Diagnostics
// ----------------------------------------------------------------------
/// The unknown-tag diagnostics a label-scope fold emits from line `i` on:
/// one per consumed line that is neither blank nor a comment yet carries
/// no recognized tag.
pub open spec fn fold_label_warnings(lines: Seq<(Seq<u8>, bool)>, i: int) -> Seq<Warning>
    decreases lines.len() - i,
    via fold_label_warnings_dec
{
    if i < 0 || i >= lines.len() {
        Seq::empty()
    } else {
        match label_step(lines, i) {
            LabelStepV::End => Seq::empty(),
            LabelStepV::Skip(n) => if !is_blank(lines[i].0) && !is_comment(lines[i].0) {
                seq![Warning::UnknownTag(i as usize)] + fold_label_warnings(lines, n)
            } else {
                fold_label_warnings(lines, n)
            },
            LabelStepV::Field(n, f) => fold_label_warnings(lines, n),
            LabelStepV::Fail(e) => Seq::empty(),
        }
    }
}

#[via_fn]
proof fn fold_label_warnings_dec(lines: Seq<(Seq<u8>, bool)>, i: int) {
    if 0 <= i < lines.len() {
        lemma_label_step_bounds(lines, i);
    }
}

/// The unknown-tag diagnostics of the global fold.
pub open spec fn fold_global_warnings(lines: Seq<(Seq<u8>, bool)>, i: int) -> Seq<Warning>
    decreases lines.len() - i,
    via fold_global_warnings_dec
{
    if i < 0 || i >= lines.len() {
        Seq::empty()
    } else {
        match global_step(lines, i) {
            GlobalStepV::End => Seq::empty(),
            GlobalStepV::Skip(n) => if !is_blank(lines[i].0) && !is_comment(lines[i].0) {
                seq![Warning::UnknownTag(i as usize)] + fold_global_warnings(lines, n)
            } else {
                fold_global_warnings(lines, n)
            },
            GlobalStepV::Field(n, f) => fold_global_warnings(lines, n),
            GlobalStepV::Fail(e) => Seq::empty(),
        }
    }
}

#[via_fn]
proof fn fold_global_warnings_dec(lines: Seq<(Seq<u8>, bool)>, i: int) {
    if 0 <= i < lines.len() {
        lemma_global_step_bounds(lines, i);
    }
}

/// The diagnostics of the label list from line `i`: each label's own
/// unknown-tag diagnostics, then a duplicate-label diagnostic when its
/// name is already bound.
pub open spec fn fold_labels_warnings(
    lines: Seq<(Seq<u8>, bool)>,
    i: int,
    acc: Seq<(Seq<char>, LabelV)>,
) -> Seq<Warning>
    decreases lines.len() - i,
    via fold_labels_warnings_dec
{
    if i < 0 || i >= lines.len() {
        Seq::empty()
    } else {
        let b = lines[i].0;
        if is_label_decl(b) {
            if !valid_utf8(b) {
                Seq::empty()
            } else {
                let name = decode_utf8(tv(b, kw_label()));
                match fold_label(lines, i + 1, label_v_default()) {
                    Ok((lab, n)) => {
                        let dup = if labels_contain(acc, name) {
                            seq![Warning::DuplicateLabel(i as usize)]
                        } else {
                            Seq::empty()
                        };
                        fold_label_warnings(lines, i + 1) + dup + fold_labels_warnings(
                            lines,
                            n,
                            insert_label_spec(acc, name, lab),
                        )
                    },
                    Err(e) => fold_label_warnings(lines, i + 1),
                }
            }
        } else {
            Seq::empty()
        }
    }
}

#[via_fn]
proof fn fold_labels_warnings_dec(
    lines: Seq<(Seq<u8>, bool)>,
    i: int,
    acc: Seq<(Seq<char>, LabelV)>,
) {
    if 0 <= i < lines.len() {
        lemma_fold_label_bounds(lines, i + 1, label_v_default());
    }
}

/// Every diagnostic of a parse, in emission order; a parse that aborts
/// carries the diagnostics of what it consumed before the abort.
pub open spec fn spec_parse_warnings(lines: Seq<(Seq<u8>, bool)>) -> Seq<Warning> {
    fold_global_warnings(lines, 0) + (match fold_global(lines, 0, global_v_default()) {
        Ok((g, i)) => fold_labels_warnings(lines, i, Seq::empty()),
        Err(e) => Seq::empty(),
    })
}

// ----------------------------------------------------------------------
// Executable steps
// ----------------------------------------------------------------------
/// Executable counterpart of [`LabelStepV`].
pub enum LabelStep {
    End,
    Skip(usize),
    Field(usize, LabelField),
    Fail(ReaderError),
}

impl View for LabelStep {
    type V = LabelStepV;

    open spec fn view(&self) -> LabelStepV {
        match self {
            LabelStep::End => LabelStepV::End,
            LabelStep::Skip(n) => LabelStepV::Skip(*n as int),
            LabelStep::Field(n, f) => LabelStepV::Field(*n as int, f@),
            LabelStep::Fail(e) => LabelStepV::Fail(*e),
        }
    }
}

pub enum GlobalStep {
    End,
    Skip(usize),
    Field(usize, GlobalField),
    Fail(ReaderError),
}

impl View for GlobalStep {
    type V = GlobalStepV;

    open spec fn view(&self) -> GlobalStepV {
        match self {
            GlobalStep::End => GlobalStepV::End,
            GlobalStep::Skip(n) => GlobalStepV::Skip(*n as int),
            GlobalStep::Field(n, f) => GlobalStepV::Field(*n as int, f@),
            GlobalStep::Fail(e) => GlobalStepV::Fail(*e),
        }
    }
}

/// Consumes the `TEXT HELP` block that opens at line `i`: finds the
/// terminator, checks every interior line decodes, and joins the trimmed
/// interior lines with single spaces.
#[verifier::loop_isolation(false)]
fn take_help_block(lines: &Vec<Line>, i: usize) -> (r: LabelStep)
    requires
        i < lines@.len(),
        is_text_help_start(line_views(lines@)[i as int].0),
        valid_utf8(line_views(lines@)[i as int].0),
        !is_label_decl(line_views(lines@)[i as int].0),
        !is_blank(line_views(lines@)[i as int].0),
        !is_comment(line_views(lines@)[i as int].0),
    ensures
        r@ == label_step(line_views(lines@), i as int),
{
    let ghost lv = line_views(lines@);
    let n = lines.len();
    let mut k = i + 1;
    while k < n && !endtext_line(lines[k].bytes.as_slice())
        invariant
            i + 1 <= k <= n == lv.len(),
            lv == line_views(lines@),
            forall|m: int| i + 1 <= m < k ==> !is_endtext(lv[m].0),
        decreases n - k,
    {
        proof {
            assert(lv[k as int] == lines@[k as int]@);
        }
        k = k + 1;
    }
    proof {
        if k < n {
            assert(lv[k as int] == lines@[k as int]@);
        }
        lemma_find_endtext_range(lv, i + 1, k as int);
    }
    if k == n {
        if lines[i].terminated {
            return LabelStep::Skip(i + 1);
        } else {
            return LabelStep::End;
        }
    }
    let mut j = i + 1;
    while j < k
        invariant
            i + 1 <= j <= k < n == lv.len(),
            lv == line_views(lines@),
            forall|m: int| i + 1 <= m < j ==> valid_utf8(lv[m].0),
        decreases k - j,
    {
        proof {
            assert(lv[j as int] == lines@[j as int]@);
        }
        if bytes_to_string(lines[j].bytes.as_slice()).is_none() {
            proof {
                lemma_first_invalid_range(lv, i + 1, k as int, j as int);
            }
            return LabelStep::Fail(ReaderError::EncodingError(j));
        }
        j = j + 1;
    }
    proof {
        lemma_first_invalid_range(lv, i + 1, k as int, k as int);
    }
    let mut acc = String::new();
    let mut j2 = i + 1;
    while j2 < k
        invariant
            i + 1 <= j2 <= k < n == lv.len(),
            lv == line_views(lines@),
            forall|m: int| i + 1 <= m < k ==> valid_utf8(lv[m].0),
            help_join(lv, i + 1, k as int, Seq::empty()) == help_join(lv, j2 as int, k as int, acc@),
        decreases k - j2,
    {
        proof {
            assert(lv[j2 as int] == lines@[j2 as int]@);
        }
        let ghost acc0 = acc@;
        let lj = &lines[j2];
        let bj = lj.bytes.as_slice();
        let (lo, hi) = trim_slice(bj, 0, bj.len());
        proof {
            assert(bj@.subrange(0, bj@.len() as int) =~= bj@);
        }
        assert(bj@.subrange(lo as int, hi as int) == trim(lv[j2 as int].0));
        if lo < hi {
            proof {
                lemma_valid_utf8_inner(bj@, lo as int, hi as int);
            }
            let dv = bytes_to_string(vstd::slice::slice_subrange(bj, lo, hi));
            let d = match dv {
                Some(d) => d,
                None => {
                    proof {
                        assert(false);
                    }
                    String::new()
                },
            };
            if acc.as_str().is_empty() {
                acc = d;
            } else {
                acc.append(" ");
                acc.append(d.as_str());
                proof {
                    reveal_strlit(" ");
                    assert(" "@ =~= seq![' ']);
                    assert(acc@ =~= acc0 + seq![' '] + d@);
                }
            }
        }
        proof {
            assert(help_join(lv, j2 as int, k as int, acc0) == help_join(
                lv,
                j2 + 1,
                k as int,
                acc@,
            ));
        }
        j2 = j2 + 1;
    }
    LabelStep::Field(k + 1, LabelField::TextHelp(acc))
}

/// One step of label-scope parsing at line `i`.
pub fn classify_label(lines: &Vec<Line>, i: usize) -> (r: LabelStep)
    requires
        i < lines@.len(),
    ensures
        r@ == label_step(line_views(lines@), i as int),
{
    let ghost lv = line_views(lines@);
    proof {
        assert(lv[i as int] == lines@[i as int]@);
    }
    let n_lines = lines.len();
    let line = &lines[i];
    let b = line.bytes.as_slice();
    let term = line.terminated;
    let lbl = [76u8, 65u8, 66u8, 69u8, 76u8];
    proof {
        assert(lbl@ =~= kw_label());
    }
    if tag_val_range(b, lbl.as_slice()).is_some() {
        return LabelStep::End;
    }
    if bytes_to_string(b).is_none() {
        return LabelStep::Fail(ReaderError::EncodingError(i));
    }
    if line_is_blank(b) || line_is_comment(b) {
        return LabelStep::Skip(i + 1);
    }
    if text_help_start(b) {
        return take_help_block(lines, i);
    }
    let say = [83u8, 65u8, 89u8];
    proof {
        assert(say@ =~= kw_say());
    }
    match tag_val_string(b, say.as_slice()) {
        Some(s) => {
            return LabelStep::Field(i + 1, LabelField::Say(s));
        },
        None => {},
    }
    let display = [68u8, 73u8, 83u8, 80u8, 76u8, 65u8, 89u8];
    proof {
        assert(display@ =~= kw_display());
    }
    match tag_val_bytes(b, display.as_slice()) {
        Some(v) => {
            return LabelStep::Field(i + 1, LabelField::Display(v));
        },
        None => {},
    }
    let linux = [76u8, 73u8, 78u8, 85u8, 88u8];
    proof {
        assert(linux@ =~= kw_linux());
    }
    match tag_val_bytes(b, linux.as_slice()) {
        Some(v) => {
            return LabelStep::Field(i + 1, LabelField::KernelFile(KernelFile::Linux(v)));
        },
        None => {},
    }
    let boot = [66u8, 79u8, 79u8, 84u8];
    proof {
        assert(boot@ =~= kw_boot());
    }
    match tag_val_bytes(b, boot.as_slice()) {
        Some(v) => {
            return LabelStep::Field(i + 1, LabelField::KernelFile(KernelFile::Boot(v)));
        },
        None => {},
    }
    let bss = [66u8, 83u8, 83u8];
    proof {
        assert(bss@ =~= kw_bss());
    }
    match tag_val_bytes(b, bss.as_slice()) {
        Some(v) => {
            return LabelStep::Field(i + 1, LabelField::KernelFile(KernelFile::BSS(v)));
        },
        None => {},
    }
    let pxe = [80u8, 88u8, 69u8];
    proof {
        assert(pxe@ =~= kw_pxe());
    }
    match tag_val_bytes(b, pxe.as_slice()) {
        Some(v) => {
            return LabelStep::Field(i + 1, LabelField::KernelFile(KernelFile::PXE(v)));
        },
        None => {},
    }
    let fdimage = [70u8, 68u8, 73u8, 77u8, 65u8, 71u8, 69u8];
    proof {
        assert(fdimage@ =~= kw_fdimage());
    }
    match tag_val_bytes(b, fdimage.as_slice()) {
        Some(v) => {
            return LabelStep::Field(i + 1, LabelField::KernelFile(KernelFile::FDImage(v)));
        },
        None => {},
    }
    let comboot = [67u8, 79u8, 77u8, 66u8, 79u8, 79u8, 84u8];
    proof {
        assert(comboot@ =~= kw_comboot());
    }
    match tag_val_bytes(b, comboot.as_slice()) {
        Some(v) => {
            return LabelStep::Field(i + 1, LabelField::KernelFile(KernelFile::ComBoot(v)));
        },
        None => {},
    }
    let com32 = [67u8, 79u8, 77u8, 51u8, 50u8];
    proof {
        assert(com32@ =~= kw_com32());
    }
    match tag_val_bytes(b, com32.as_slice()) {
        Some(v) => {
            return LabelStep::Field(i + 1, LabelField::KernelFile(KernelFile::Com32(v)));
        },
        None => {},
    }
    let initrd = [73u8, 78u8, 73u8, 84u8, 82u8, 68u8];
    proof {
        assert(initrd@ =~= kw_initrd());
    }
    match tag_val_bytes(b, initrd.as_slice()) {
        Some(v) => {
            return LabelStep::Field(i + 1, LabelField::InitRD(v));
        },
        None => {},
    }
    let fdtdir = [70u8, 68u8, 84u8, 68u8, 73u8, 82u8];
    proof {
        assert(fdtdir@ =~= kw_fdtdir());
    }
    match tag_val_bytes(b, fdtdir.as_slice()) {
        Some(v) => {
            return LabelStep::Field(i + 1, LabelField::FDTDir(v));
        },
        None => {},
    }
    let append = [65u8, 80u8, 80u8, 69u8, 78u8, 68u8];
    proof {
        assert(append@ =~= kw_append());
    }
    match tag_val_string(b, append.as_slice()) {
        Some(s) => {
            return LabelStep::Field(i + 1, LabelField::Append(s));
        },
        None => {},
    }
    let kernel = [75u8, 69u8, 82u8, 78u8, 69u8, 76u8];
    proof {
        assert(kernel@ =~= kw_kernel());
    }
    match tag_val_bytes(b, kernel.as_slice()) {
        Some(v) => {
            return LabelStep::Field(i + 1, LabelField::KernelFile(KernelFile::guess(v)));
        },
        None => {},
    }
    if term {
        LabelStep::Skip(i + 1)
    } else {
        LabelStep::End
    }
}

/// One step of global-scope parsing at line `i`.
pub fn classify_global(lines: &Vec<Line>, i: usize) -> (r: GlobalStep)
    requires
        i < lines@.len(),
    ensures
        r@ == global_step(line_views(lines@), i as int),
{
    let ghost lv = line_views(lines@);
    proof {
        assert(lv[i as int] == lines@[i as int]@);
    }
    let n_lines = lines.len();
    let line = &lines[i];
    let b = line.bytes.as_slice();
    let lbl = [76u8, 65u8, 66u8, 69u8, 76u8];
    proof {
        assert(lbl@ =~= kw_label());
    }
    if tag_val_range(b, lbl.as_slice()).is_some() {
        return GlobalStep::End;
    }
    if bytes_to_string(b).is_none() {
        return GlobalStep::Fail(ReaderError::EncodingError(i));
    }
    let default = [68u8, 69u8, 70u8, 65u8, 85u8, 76u8, 84u8];
    proof {
        assert(default@ =~= kw_default());
    }
    match tag_val_string(b, default.as_slice()) {
        Some(s) => {
            return GlobalStep::Field(i + 1, GlobalField::Default(s));
        },
        None => {},
    }
    let ontimeout = [79u8, 78u8, 84u8, 73u8, 77u8, 69u8, 79u8, 85u8, 84u8];
    proof {
        assert(ontimeout@ =~= kw_ontimeout());
    }
    match tag_val_string(b, ontimeout.as_slice()) {
        Some(s) => {
            return GlobalStep::Field(i + 1, GlobalField::OnTimeout(s));
        },
        None => {},
    }
    let onerror = [79u8, 78u8, 69u8, 82u8, 82u8, 79u8, 82u8];
    proof {
        assert(onerror@ =~= kw_onerror());
    }
    match tag_val_string(b, onerror.as_slice()) {
        Some(s) => {
            return GlobalStep::Field(i + 1, GlobalField::OnError(s));
        },
        None => {},
    }
    let timeout = [84u8, 73u8, 77u8, 69u8, 79u8, 85u8, 84u8];
    proof {
        assert(timeout@ =~= kw_timeout());
    }
    match tag_val_range(b, timeout.as_slice()) {
        Some((lo, hi)) => {
            match parse_u32(b, lo, hi) {
                Some(v) => {
                    return GlobalStep::Field(i + 1, GlobalField::Timeout(v));
                },
                None => {
                    return GlobalStep::Fail(ReaderError::MalformedValueError(i));
                },
            }
        },
        None => {},
    }
    let totaltimeout = [84u8, 79u8, 84u8, 65u8, 76u8, 84u8, 73u8, 77u8, 69u8, 79u8, 85u8, 84u8];
    proof {
        assert(totaltimeout@ =~= kw_totaltimeout());
    }
    match tag_val_range(b, totaltimeout.as_slice()) {
        Some((lo, hi)) => {
            match parse_u32(b, lo, hi) {
                Some(v) => {
                    return GlobalStep::Field(i + 1, GlobalField::TotalTimeout(v));
                },
                None => {
                    return GlobalStep::Fail(ReaderError::MalformedValueError(i));
                },
            }
        },
        None => {},
    }
    match classify_label(lines, i) {
        LabelStep::End => GlobalStep::End,
        LabelStep::Skip(n) => GlobalStep::Skip(n),
        LabelStep::Field(n, f) => GlobalStep::Field(n, GlobalField::Label(f)),
        LabelStep::Fail(e) => GlobalStep::Fail(e),
    }
}

// ----------------------------------------------------------------------
// Executable folds and the top-level parse
// ----------------------------------------------------------------------
/// Folds label-scope fields from line `start` into a fresh label, pushing
/// one diagnostic per unknown-tag line it consumes.
pub fn parse_label_fields(lines: &Vec<Line>, start: usize, warn: &mut Vec<Warning>) -> (r: Result<
    (Label, usize),
    ReaderError,
>)
    requires
        start <= lines@.len(),
    ensures
        match r {
            Ok((lab, n)) => {
                &&& fold_label(line_views(lines@), start as int, label_v_default()) == Ok::<
                    (LabelV, int),
                    ReaderError,
                >((lab@, n as int))
                &&& start <= n <= lines@.len()
            },
            Err(e) => fold_label(line_views(lines@), start as int, label_v_default()) == Err::<
                (LabelV, int),
                ReaderError,
            >(e),
        },
        final(warn)@ == old(warn)@ + fold_label_warnings(line_views(lines@), start as int),
{
    let ghost lv = line_views(lines@);
    let n_lines = lines.len();
    let mut acc = Label::default();
    let mut i = start;
    while i < n_lines
        invariant
            start <= i <= n_lines == lv.len(),
            lv == line_views(lines@),
            fold_label(lv, start as int, label_v_default()) == fold_label(lv, i as int, acc@),
            old(warn)@ + fold_label_warnings(lv, start as int) == warn@ + fold_label_warnings(
                lv,
                i as int,
            ),
        decreases n_lines - i,
    {
        proof {
            assert(lv[i as int] == lines@[i as int]@);
        }
        let step = classify_label(lines, i);
        proof {
            lemma_label_step_bounds(lv, i as int);
        }
        match step {
            LabelStep::End => {
                return Ok((acc, i));
            },
            LabelStep::Skip(n) => {
                let b = lines[i].bytes.as_slice();
                if !line_is_blank(b) && !line_is_comment(b) {
                    let ghost before = warn@;
                    warn.push(Warning::UnknownTag(i));
                    proof {
                        assert(warn@ =~= before + seq![Warning::UnknownTag(i)]);
                        assert(seq![Warning::UnknownTag(i)] + fold_label_warnings(lv, n as int)
                            =~= seq![Warning::UnknownTag(i)].add(
                            fold_label_warnings(lv, n as int),
                        ));
                        assert(before + (seq![Warning::UnknownTag(i)] + fold_label_warnings(
                            lv,
                            n as int,
                        )) =~= warn@ + fold_label_warnings(lv, n as int));
                    }
                }
                i = n;
            },
            LabelStep::Field(n, f) => {
                acc = acc.build(f);
                i = n;
            },
            LabelStep::Fail(e) => {
                return Err(e);
            },
        }
    }
    Ok((acc, i))
}

/// Folds global-scope fields from line `start` into fresh global options,
/// pushing one diagnostic per unknown-tag line.
pub fn parse_global_fields(lines: &Vec<Line>, start: usize, warn: &mut Vec<Warning>) -> (r: Result<
    (Global, usize),
    ReaderError,
>)
    requires
        start <= lines@.len(),
    ensures
        match r {
            Ok((g, n)) => {
                &&& fold_global(line_views(lines@), start as int, global_v_default()) == Ok::<
                    (GlobalV, int),
                    ReaderError,
                >((g@, n as int))
                &&& start <= n <= lines@.len()
            },
            Err(e) => fold_global(line_views(lines@), start as int, global_v_default()) == Err::<
                (GlobalV, int),
                ReaderError,
            >(e),
        },
        final(warn)@ == old(warn)@ + fold_global_warnings(line_views(lines@), start as int),
{
    let ghost lv = line_views(lines@);
    let n_lines = lines.len();
    let mut acc = Global::default();
    let mut i = start;
    while i < n_lines
        invariant
            start <= i <= n_lines == lv.len(),
            lv == line_views(lines@),
            fold_global(lv, start as int, global_v_default()) == fold_global(lv, i as int, acc@),
            old(warn)@ + fold_global_warnings(lv, start as int) == warn@ + fold_global_warnings(
                lv,
                i as int,
            ),
        decreases n_lines - i,
    {
        proof {
            assert(lv[i as int] == lines@[i as int]@);
        }
        let step = classify_global(lines, i);
        proof {
            lemma_global_step_bounds(lv, i as int);
        }
        match step {
            GlobalStep::End => {
                return Ok((acc, i));
            },
            GlobalStep::Skip(n) => {
                let b = lines[i].bytes.as_slice();
                if !line_is_blank(b) && !line_is_comment(b) {
                    let ghost before = warn@;
                    warn.push(Warning::UnknownTag(i));
                    proof {
                        assert(before + (seq![Warning::UnknownTag(i)] + fold_global_warnings(
                            lv,
                            n as int,
                        )) =~= warn@ + fold_global_warnings(lv, n as int));
                    }
                }
                i = n;
            },
            GlobalStep::Field(n, f) => {
                acc = acc.build(f);
                i = n;
            },
            GlobalStep::Fail(e) => {
                return Err(e);
            },
        }
    }
    Ok((acc, i))
}

/// Parses the label list from line `start`, pushing each label's own
/// diagnostics and one per discarded duplicate declaration.
pub fn parse_labels(lines: &Vec<Line>, start: usize, warn: &mut Vec<Warning>) -> (r: Result<
    (Labels, usize),
    ReaderError,
>)
    requires
        start <= lines@.len(),
    ensures
        match r {
            Ok((ls, n)) => {
                &&& fold_labels(line_views(lines@), start as int, Seq::empty()) == Ok::<
                    (Seq<(Seq<char>, LabelV)>, int),
                    ReaderError,
                >((ls@, n as int))
                &&& ls.wf()
                &&& start <= n <= lines@.len()
            },
            Err(e) => fold_labels(line_views(lines@), start as int, Seq::empty()) == Err::<
                (Seq<(Seq<char>, LabelV)>, int),
                ReaderError,
            >(e),
        },
        final(warn)@ == old(warn)@ + fold_labels_warnings(
            line_views(lines@),
            start as int,
            Seq::empty(),
        ),
{
    let ghost lv = line_views(lines@);
    let n_lines = lines.len();
    let mut acc = Labels::new();
    let mut i = start;
    while i < n_lines
        invariant
            start <= i <= n_lines == lv.len(),
            lv == line_views(lines@),
            acc.wf(),
            fold_labels(lv, start as int, Seq::empty()) == fold_labels(lv, i as int, acc@),
            old(warn)@ + fold_labels_warnings(lv, start as int, Seq::empty()) == warn@
                + fold_labels_warnings(lv, i as int, acc@),
        decreases n_lines - i,
    {
        proof {
            assert(lv[i as int] == lines@[i as int]@);
        }
        let line = &lines[i];
        let b = line.bytes.as_slice();
        let lbl = [76u8, 65u8, 66u8, 69u8, 76u8];
        proof {
            assert(lbl@ =~= kw_label());
        }
        let is_decl = tag_val_range(b, lbl.as_slice()).is_some();
        if !is_decl {
            return Ok((acc, i));
        }
        if bytes_to_string(b).is_none() {
            return Err(ReaderError::EncodingError(i));
        }
        let name = match tag_val_string(b, lbl.as_slice()) {
            Some(s) => s,
            None => {
                proof {
                    assert(false);
                }
                String::new()
            },
        };
        let ghost warn_at_decl = warn@;
        match parse_label_fields(lines, i + 1, warn) {
            Ok((lab, n)) => {
                let ghost before = acc@;
                let fresh = acc.insert(name, lab);
                if !fresh {
                    let ghost before_w = warn@;
                    warn.push(Warning::DuplicateLabel(i));
                    proof {
                        assert(warn@ =~= before_w.push(Warning::DuplicateLabel(i)));
                    }
                }
                proof {
                    assert(fold_labels(lv, i as int, before) == fold_labels(lv, n as int, acc@));
                    let dup = if labels_contain(before, name@) {
                        seq![Warning::DuplicateLabel(i as usize)]
                    } else {
                        Seq::<Warning>::empty()
                    };
                    assert(fold_labels_warnings(lv, i as int, before) == fold_label_warnings(
                        lv,
                        i + 1,
                    ) + dup + fold_labels_warnings(lv, n as int, acc@));
                    assert(warn@ =~= warn_at_decl + fold_label_warnings(lv, i + 1) + dup);
                    assert(warn@ + fold_labels_warnings(lv, n as int, acc@) =~= warn_at_decl
                        + fold_labels_warnings(lv, i as int, before));
                }
                i = n;
            },
            Err(e) => {
                return Err(e);
            },
        }
    }
    Ok((acc, i))
}

impl SyslinuxConf {
    /// Parses a raw configuration buffer into a document together with the
    /// diagnostics of everything that was locally recovered: unknown tags
    /// and discarded duplicate labels.  The document (or the first error
    /// the line stream forces) is exactly what the specification-level
    /// parse of the bytes gives, and the diagnostics are exactly the
    /// specification-level warning stream, even when the parse aborts.
    pub fn parse_with_warnings(input: &[u8]) -> (r: (
        Result<SyslinuxConf, ReaderError>,
        Vec<Warning>,
    ))
        ensures
            r.0 matches Ok(c) ==> spec_parse(input@) == Ok::<SyslinuxConfV, ReaderError>(c@)
                && c.labels.wf(),
            r.0 matches Err(e) ==> spec_parse(input@) == Err::<SyslinuxConfV, ReaderError>(e),
            r.1@ == spec_parse_warnings(lines_of(input@)),
    {
        let lines = split_lines(input);
        proof {
            assert(line_views(lines@) == lines_of(input@));
        }
        let mut warn: Vec<Warning> = Vec::new();
        proof {
            assert(warn@ =~= Seq::<Warning>::empty());
        }
        match parse_global_fields(&lines, 0, &mut warn) {
            Err(e) => {
                proof {
                    assert(warn@ =~= spec_parse_warnings(line_views(lines@)));
                }
                (Err(e), warn)
            },
            Ok((g, i)) => match parse_labels(&lines, i, &mut warn) {
                Err(e) => {
                    proof {
                        assert(warn@ =~= spec_parse_warnings(line_views(lines@)));
                    }
                    (Err(e), warn)
                },
                Ok((ls, n)) => {
                    proof {
                        assert(warn@ =~= spec_parse_warnings(line_views(lines@)));
                    }
                    if n == lines.len() {
                        (Ok(SyslinuxConf { global: g, labels: ls }), warn)
                    } else {
                        (Err(ReaderError::TrailingDataError), warn)
                    }
                },
            },
        }
    }

    /// Parses a raw configuration buffer into a document, discarding the
    /// diagnostics.  The result is exactly what the specification-level
    /// parse of the bytes gives: either the document, or the first error
    /// the line stream forces.
    pub fn parse(input: &[u8]) -> (r: Result<SyslinuxConf, ReaderError>)
        ensures
            r matches Ok(c) ==> spec_parse(input@) == Ok::<SyslinuxConfV, ReaderError>(c@)
                && c.labels.wf(),
            r matches Err(e) ==> spec_parse(input@) == Err::<SyslinuxConfV, ReaderError>(e),
    {
        let (r, _warnings) = SyslinuxConf::parse_with_warnings(input);
        r
    }
}

} // verus!

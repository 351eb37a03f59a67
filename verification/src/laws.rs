//! General properties of the parser, stated and proved once for all
//! inputs: duplicate label names are discarded, unknown tags are harmless,
//! and unterminated trailing garbage makes the whole parse fail.

use vstd::prelude::*;
use vstd::utf8::valid_utf8;
use crate::types::{LabelV, labels_contain, labels_unique, insert_label_spec, label_v_default,
    global_v_default, GlobalV};
use crate::parser::{label_step, global_step, fold_label, fold_global, fold_labels,
    spec_parse_lines, LabelStepV, GlobalStepV, is_label_decl, is_blank, is_comment,
    is_text_help_start, tag_value, kw_say, kw_display, kw_linux, kw_boot, kw_bss, kw_pxe,
    kw_fdimage, kw_comboot, kw_com32, kw_initrd, kw_fdtdir, kw_append, kw_kernel, find_endtext,
    lemma_label_step_bounds, lemma_global_step_bounds};

verus! {

/// Declaring two labels with the same name keeps the first and discards
/// the second: inserting under a name a second time changes nothing, and
/// the collection holds exactly one entry under that name, with the first
/// declaration's fields.
pub proof fn lemma_first_label_wins(
    ls: Seq<(Seq<char>, LabelV)>,
    name: Seq<char>,
    lab1: LabelV,
    lab2: LabelV,
)
    requires
        !labels_contain(ls, name),
        labels_unique(ls),
    ensures
        insert_label_spec(insert_label_spec(ls, name, lab1), name, lab2) == insert_label_spec(
            ls,
            name,
            lab1,
        ),
        insert_label_spec(ls, name, lab1)[ls.len() as int] == (name, lab1),
        forall|j: int|
            0 <= j < insert_label_spec(ls, name, lab1).len() ==> (
            #[trigger] insert_label_spec(ls, name, lab1)[j].0 == name <==> j == ls.len()),
        labels_unique(insert_label_spec(ls, name, lab1)),
{
    let once = insert_label_spec(ls, name, lab1);
    assert(once == ls.push((name, lab1)));
    assert(once[ls.len() as int] == (name, lab1));
    assert(labels_contain(once, name));
    assert forall|j: int| 0 <= j < once.len() implies (#[trigger] once[j].0 == name <==> j
        == ls.len()) by {
        if j < ls.len() {
            assert(once[j] == ls[j]);
            if ls[j].0 == name {
                assert(labels_contain(ls, name));
            }
        }
    }
    assert forall|a: int, b: int| 0 <= a < b < once.len() implies once[a].0 != once[b].0 by {
        if b < ls.len() {
        } else {
            assert(once[b].0 == name);
            assert(once[a].0 != name);
        }
    }
}

/// An unrecognized tag line inside a label scope produces no field and
/// does not end the scope or the parse: folding from it is folding from
/// the next line, with the label unchanged.
pub proof fn lemma_unknown_tag_skipped(lines: Seq<(Seq<u8>, bool)>, i: int, acc: LabelV)
    requires
        0 <= i < lines.len(),
        lines[i].1,
        valid_utf8(lines[i].0),
        !is_label_decl(lines[i].0),
        !is_blank(lines[i].0),
        !is_comment(lines[i].0),
        !is_text_help_start(lines[i].0),
        tag_value(lines[i].0, kw_say()) is None,
        tag_value(lines[i].0, kw_display()) is None,
        tag_value(lines[i].0, kw_linux()) is None,
        tag_value(lines[i].0, kw_boot()) is None,
        tag_value(lines[i].0, kw_bss()) is None,
        tag_value(lines[i].0, kw_pxe()) is None,
        tag_value(lines[i].0, kw_fdimage()) is None,
        tag_value(lines[i].0, kw_comboot()) is None,
        tag_value(lines[i].0, kw_com32()) is None,
        tag_value(lines[i].0, kw_initrd()) is None,
        tag_value(lines[i].0, kw_fdtdir()) is None,
        tag_value(lines[i].0, kw_append()) is None,
        tag_value(lines[i].0, kw_kernel()) is None,
    ensures
        label_step(lines, i) == LabelStepV::Skip(i + 1),
        fold_label(lines, i, acc) == fold_label(lines, i + 1, acc),
{
}

/// A final line that is unterminated and that nothing in the grammar
/// recognizes: not blank, not a comment, no label declaration, no help
/// terminator, and no known tag of either scope.  Such a line cannot be
/// consumed, so it is trailing data.
pub open spec fn unrecognized_unterminated_tail(lines: Seq<(Seq<u8>, bool)>) -> bool {
    let b = lines[lines.len() - 1].0;
    &&& lines.len() > 0
    &&& !lines[lines.len() - 1].1
    &&& !is_blank(b)
    &&& !is_comment(b)
    &&& !is_label_decl(b)
    &&& !crate::parser::is_endtext(b)
    &&& tag_value(b, kw_say()) is None
    &&& tag_value(b, kw_display()) is None
    &&& tag_value(b, kw_linux()) is None
    &&& tag_value(b, kw_boot()) is None
    &&& tag_value(b, kw_bss()) is None
    &&& tag_value(b, kw_pxe()) is None
    &&& tag_value(b, kw_fdimage()) is None
    &&& tag_value(b, kw_comboot()) is None
    &&& tag_value(b, kw_com32()) is None
    &&& tag_value(b, kw_initrd()) is None
    &&& tag_value(b, kw_fdtdir()) is None
    &&& tag_value(b, kw_append()) is None
    &&& tag_value(b, kw_kernel()) is None
    &&& tag_value(b, crate::parser::kw_default()) is None
    &&& tag_value(b, crate::parser::kw_ontimeout()) is None
    &&& tag_value(b, crate::parser::kw_onerror()) is None
    &&& tag_value(b, crate::parser::kw_timeout()) is None
    &&& tag_value(b, crate::parser::kw_totaltimeout()) is None
}

/// When `find_endtext` returns an in-range index, the line there trims to
/// the terminator keyword.
proof fn lemma_find_endtext_hit(lines: Seq<(Seq<u8>, bool)>, i: int)
    requires
        0 <= i,
    ensures
        find_endtext(lines, i) < lines.len() ==> crate::parser::is_endtext(
            lines[find_endtext(lines, i)].0,
        ),
    decreases lines.len() - i,
{
    if i < lines.len() && !crate::parser::is_endtext(lines[i].0) {
        lemma_find_endtext_hit(lines, i + 1);
    }
}

/// No step of either scope consumes an unrecognized, unterminated final
/// line.
proof fn lemma_step_not_past_end(lines: Seq<(Seq<u8>, bool)>, i: int)
    requires
        0 <= i < lines.len(),
        unrecognized_unterminated_tail(lines),
    ensures
        match label_step(lines, i) {
            LabelStepV::Skip(n) => i < n < lines.len(),
            LabelStepV::Field(n, _) => i < n < lines.len(),
            _ => true,
        },
        match global_step(lines, i) {
            GlobalStepV::Skip(n) => i < n < lines.len(),
            GlobalStepV::Field(n, _) => i < n < lines.len(),
            _ => true,
        },
{
    lemma_label_step_bounds(lines, i);
    lemma_global_step_bounds(lines, i);
    let last = lines.len() - 1;
    if i == last {
        // At the final line nothing matches, so the step is End or Fail.
    } else {
        // Earlier lines can consume through the end only via a help block
        // terminated at the final line, which the tail hypothesis excludes.
        match label_step(lines, i) {
            LabelStepV::Field(n, _) => {
                if n == lines.len() {
                    lemma_find_endtext_hit(lines, i + 1);
                    assert(find_endtext(lines, i + 1) == last);
                    assert(false);
                }
            },
            _ => {},
        }
    }
}

/// A label-scope fold never consumes an unrecognized, unterminated final
/// line: on success it stops strictly before the end.
proof fn lemma_fold_label_stops_short(lines: Seq<(Seq<u8>, bool)>, i: int, acc: LabelV)
    requires
        0 <= i < lines.len(),
        unrecognized_unterminated_tail(lines),
    ensures
        match fold_label(lines, i, acc) {
            Ok((l, n)) => n < lines.len(),
            Err(_) => true,
        },
    decreases lines.len() - i,
{
    lemma_step_not_past_end(lines, i);
    match label_step(lines, i) {
        LabelStepV::Skip(n) => {
            lemma_fold_label_stops_short(lines, n, acc);
        },
        LabelStepV::Field(n, f) => {
            lemma_fold_label_stops_short(lines, n, crate::types::build_label_spec(acc, f));
        },
        _ => {},
    }
}

/// The global fold stops short of such a tail as well.
proof fn lemma_fold_global_stops_short(lines: Seq<(Seq<u8>, bool)>, i: int, acc: GlobalV)
    requires
        0 <= i < lines.len(),
        unrecognized_unterminated_tail(lines),
    ensures
        match fold_global(lines, i, acc) {
            Ok((g, n)) => n < lines.len(),
            Err(_) => true,
        },
    decreases lines.len() - i,
{
    lemma_step_not_past_end(lines, i);
    match global_step(lines, i) {
        GlobalStepV::Skip(n) => {
            lemma_fold_global_stops_short(lines, n, acc);
        },
        GlobalStepV::Field(n, f) => {
            lemma_fold_global_stops_short(lines, n, crate::types::build_global_spec(acc, f));
        },
        _ => {},
    }
}

/// Nor does the label-list fold.
proof fn lemma_fold_labels_stops_short(
    lines: Seq<(Seq<u8>, bool)>,
    i: int,
    acc: Seq<(Seq<char>, LabelV)>,
)
    requires
        0 <= i < lines.len(),
        unrecognized_unterminated_tail(lines),
    ensures
        match fold_labels(lines, i, acc) {
            Ok((ls, n)) => n < lines.len(),
            Err(_) => true,
        },
    decreases lines.len() - i,
{
    let b = lines[i].0;
    if is_label_decl(b) && valid_utf8(b) {
        assert(i < lines.len() - 1);
        crate::parser::lemma_fold_label_bounds(lines, i + 1, label_v_default());
        match fold_label(lines, i + 1, label_v_default()) {
            Ok((lab, n)) => {
                let name = vstd::utf8::decode_utf8(
                    crate::parser::tv(b, crate::parser::kw_label()),
                );
                if n < lines.len() {
                    lemma_fold_labels_stops_short(lines, n, insert_label_spec(acc, name, lab));
                } else {
                    lemma_fold_label_stops_short(lines, i + 1, label_v_default());
                }
            },
            Err(_) => {},
        }
    }
}

/// A buffer whose last logical line is unterminated and unrecognized never
/// parses: the line stream cannot be consumed to the end, so the parse
/// reports an error — trailing data, unless an earlier line already forced
/// an encoding or value error.  This is what one byte of non-whitespace
/// garbage appended after a well-formed buffer produces.
pub proof fn lemma_trailing_garbage_fails(lines: Seq<(Seq<u8>, bool)>)
    requires
        unrecognized_unterminated_tail(lines),
    ensures
        spec_parse_lines(lines) is Err,
{
    lemma_fold_global_stops_short(lines, 0, global_v_default());
    match fold_global(lines, 0, global_v_default()) {
        Ok((g, i)) => {
            crate::parser::lemma_fold_global_bounds(lines, 0, global_v_default());
            if i < lines.len() {
                lemma_fold_labels_stops_short(lines, i, Seq::empty());
            }
        },
        Err(_) => {},
    }
}

} // verus!

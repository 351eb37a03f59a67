//! Decoding line bytes into strings.
//!
//! The parser works on raw bytes; whenever it consumes a line or captures a
//! textual value it decodes the bytes as UTF-8.  The decoding itself is done
//! by the standard library; everything stated about it uses vstd's own
//! UTF-8 model (`valid_utf8`, `decode_utf8`).

use vstd::prelude::*;
use vstd::utf8::*;

verus! {

/// Relies on std's `String::from_utf8`: it returns `Ok` exactly on valid
/// UTF-8 input, and the resulting string holds the decoded characters.
#[verifier::external_body]
pub fn bytes_to_string(v: &[u8]) -> (r: Option<String>)
    ensures
        r is Some <==> valid_utf8(v@),
        r matches Some(s) ==> s@ == decode_utf8(v@),
{
    match String::from_utf8(v.to_vec()) {
        Ok(s) => Some(s),
        Err(_) => None,
    }
}

/// A subrange of a valid UTF-8 sequence is itself valid when everything cut
/// off at the front is ASCII and the byte at the right cut (if any) is ASCII.
pub proof fn lemma_valid_utf8_inner(s: Seq<u8>, i: int, j: int)
    requires
        valid_utf8(s),
        0 <= i <= j <= s.len(),
        forall|k: int| 0 <= k < i ==> s[k] < 128,
        j < s.len() ==> s[j] < 128,
    ensures
        valid_utf8(s.subrange(i, j)),
{
    let t = s.subrange(0, j);
    if j == s.len() {
        assert(t =~= s);
    } else {
        assert(!is_continuation_byte(s[j]));
        is_char_boundary_iff_not_is_continuation_byte(s, j);
        valid_utf8_split(s, j);
    }
    assert(valid_utf8(t.subrange(0, 0)));
    assert(forall|k: int| 0 <= k < i ==> #[trigger] is_leading_byte_width_1(t[k]));
    partial_valid_utf8_extend_ascii_block(t, 0, i);
    if !valid_utf8(t.subrange(i, t.len() as int)) {
        partial_valid_partial_invalid_utf8(t, i);
        assert(false);
    }
    assert(s.subrange(i, j) =~= t.subrange(i, t.len() as int));
}

} // verus!

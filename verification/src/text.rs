//! File names: UTF-8 text in a fixed field, padded with NUL.

use vstd::prelude::*;
use vstd::utf8::{
    decode_first_scalar, decode_utf8, decode_utf8_first_scalar, decode_utf8_split, encode_scalar,
    is_char_boundary, is_char_boundary_iff_not_is_continuation_byte,
    is_char_boundary_start_end_of_seq, length_of_first_scalar, pop_first_scalar,
    take_first_scalar, valid_first_scalar, valid_utf8, valid_utf8_split,
};
use vstd::string::StrSliceExecFns;
use crate::error::Error;

verus! {

/// `text` without the NUL characters at its front.
pub open spec fn trim_nul_start(text: Seq<char>) -> Seq<char>
    decreases text.len(),
{
    if text.len() > 0 && text[0] == '\0' {
        trim_nul_start(text.drop_first())
    } else {
        text
    }
}

/// `text` without the NUL characters at its end.
pub open spec fn trim_nul_end(text: Seq<char>) -> Seq<char>
    decreases text.len(),
{
    if text.len() > 0 && text.last() == '\0' {
        trim_nul_end(text.drop_last())
    } else {
        text
    }
}

/// `text` without the NUL characters at either end.
pub open spec fn trim_nul(text: Seq<char>) -> Seq<char> {
    trim_nul_end(trim_nul_start(text))
}

/// Cutting `skip` NUL characters off the front of `text` does not change
/// what is left after trimming the front.
proof fn lemma_trim_start_skips(text: Seq<char>, skip: int)
    requires
        0 <= skip <= text.len(),
        forall|i: int| 0 <= i < skip ==> text[i] == '\0',
    ensures
        trim_nul_start(text) == trim_nul_start(text.subrange(skip, text.len() as int)),
    decreases skip,
{
    if skip == 0 {
        assert(text.subrange(0, text.len() as int) =~= text);
    } else {
        let rest = text.drop_first();
        lemma_trim_start_skips(rest, skip - 1);
        assert(rest.subrange(skip - 1, rest.len() as int) =~= text.subrange(
            skip,
            text.len() as int,
        ));
    }
}

/// Cutting NUL characters off the end of `text`, down to `keep` characters,
/// does not change what is left after trimming the end.
proof fn lemma_trim_end_skips(text: Seq<char>, keep: int)
    requires
        0 <= keep <= text.len(),
        forall|i: int| keep <= i < text.len() ==> text[i] == '\0',
    ensures
        trim_nul_end(text) == trim_nul_end(text.subrange(0, keep)),
    decreases text.len() - keep,
{
    if keep == text.len() {
        assert(text.subrange(0, keep) =~= text);
    } else {
        let rest = text.drop_last();
        lemma_trim_end_skips(rest, keep);
        assert(rest.subrange(0, keep) =~= text.subrange(0, keep));
    }
}

/// The number of bytes at the front of `field` that are not NUL.
pub open spec fn text_len(field: Seq<u8>) -> int
    decreases field.len(),
{
    if field.len() == 0 || field[0] == 0 {
        0
    } else {
        1 + text_len(field.drop_first())
    }
}

/// Whether `field` is text followed by nothing but NUL bytes: the way the
/// device pads a name to the width of its field.
pub open spec fn nul_padded(field: Seq<u8>) -> bool {
    forall|i: int, j: int| 0 <= i <= j < field.len() && field[i] == 0 ==> field[j] == 0
}

/// `text_len` stops at the first NUL byte, or at the end.
proof fn lemma_text_len(field: Seq<u8>)
    ensures
        0 <= text_len(field) <= field.len(),
        forall|i: int| 0 <= i < text_len(field) ==> field[i] != 0,
        text_len(field) < field.len() ==> field[text_len(field)] == 0,
    decreases field.len(),
{
    if field.len() == 0 || field[0] == 0 {
    } else {
        let rest = field.drop_first();
        lemma_text_len(rest);
        assert forall|i: int| 0 <= i < text_len(field) implies field[i] != 0 by {
            if i > 0 {
                assert(field[i] == rest[i - 1]);
            }
        }
        if text_len(field) < field.len() {
            assert(field[text_len(field)] == rest[text_len(rest)]);
        }
    }
}

/// NUL bytes are well-formed UTF-8 and decode to as many NUL characters.
proof fn lemma_decode_nul_bytes(bytes: Seq<u8>)
    requires
        forall|i: int| 0 <= i < bytes.len() ==> bytes[i] == 0,
    ensures
        valid_utf8(bytes),
        decode_utf8(bytes).len() == bytes.len(),
        forall|i: int| 0 <= i < bytes.len() ==> decode_utf8(bytes)[i] == '\0',
    decreases bytes.len(),
{
    if bytes.len() > 0 {
        let rest = pop_first_scalar(bytes);
        assert(0u8 & 0x7f == 0) by (bit_vector);
        assert(rest =~= bytes.subrange(1, bytes.len() as int));
        lemma_decode_nul_bytes(rest);
        assert(valid_first_scalar(bytes));
        assert(decode_first_scalar(bytes) == 0);
    }
}

/// Well-formed UTF-8 without a NUL byte decodes to text without a NUL character.
proof fn lemma_decode_without_nul(bytes: Seq<u8>)
    requires
        valid_utf8(bytes),
        forall|i: int| 0 <= i < bytes.len() ==> bytes[i] != 0,
    ensures
        forall|i: int| 0 <= i < decode_utf8(bytes).len() ==> decode_utf8(bytes)[i] != '\0',
    decreases bytes.len(),
{
    if bytes.len() > 0 {
        assert(valid_first_scalar(bytes));
        let rest = pop_first_scalar(bytes);
        let first = decode_first_scalar(bytes) as char;
        assert(first != '\0') by {
            if first == '\0' {
                decode_utf8_first_scalar(bytes);
                assert(0u32 & 0x7f == 0) by (bit_vector);
                assert(encode_scalar(first as u32)[0] == 0);
                assert(take_first_scalar(bytes)[0] == bytes[0]);
            }
        }
        assert forall|i: int| 0 <= i < rest.len() implies rest[i] != 0 by {
            assert(rest[i] == bytes[i + length_of_first_scalar(bytes)]);
        }
        lemma_decode_without_nul(rest);
        let text = decode_utf8(bytes);
        assert(text == seq![first] + decode_utf8(rest));
        assert forall|i: int| 0 <= i < text.len() implies text[i] != '\0' by {
            if i > 0 {
                assert(text[i] == decode_utf8(rest)[i - 1]);
            }
        }
    }
}

/// Text followed by NUL characters only is, once trimmed, that text, where
/// the text itself holds no NUL character.
proof fn lemma_trim_padded_text(text: Seq<char>, padding: Seq<char>)
    requires
        forall|i: int| 0 <= i < text.len() ==> text[i] != '\0',
        forall|i: int| 0 <= i < padding.len() ==> padding[i] == '\0',
    ensures
        trim_nul(text + padding) == text,
{
    let whole = text + padding;
    if text.len() == 0 {
        lemma_trim_start_skips(whole, whole.len() as int);
        assert(whole.subrange(whole.len() as int, whole.len() as int) =~= Seq::<char>::empty());
        assert(text =~= Seq::<char>::empty());
    } else {
        assert(whole[0] == text[0]);
        assert(trim_nul_start(whole) == whole);
        lemma_trim_end_skips(whole, text.len() as int);
        assert(whole.subrange(0, text.len() as int) =~= text);
        assert(trim_nul_end(text) == text);
    }
}

/// The name in a NUL-padded field is the text before the padding, and holds
/// no NUL character.
pub proof fn lemma_padded_name_is_its_text(field: Seq<u8>)
    requires
        valid_utf8(field),
        nul_padded(field),
    ensures
        valid_utf8(field.take(text_len(field))),
        trim_nul(decode_utf8(field)) == decode_utf8(field.take(text_len(field))),
        !trim_nul(decode_utf8(field)).contains('\0'),
{
    let cut = text_len(field);
    lemma_text_len(field);
    let text = field.subrange(0, cut);
    let padding = field.subrange(cut, field.len() as int);
    assert(text =~= field.take(cut));
    assert(is_char_boundary(field, cut)) by {
        if cut == field.len() {
            is_char_boundary_start_end_of_seq(field);
        } else {
            is_char_boundary_iff_not_is_continuation_byte(field, cut);
        }
    }
    valid_utf8_split(field, cut);
    decode_utf8_split(field, cut);
    assert forall|i: int| 0 <= i < padding.len() implies padding[i] == 0 by {
        assert(padding[i] == field[cut + i]);
        assert(field[cut] == 0);
    }
    lemma_decode_nul_bytes(padding);
    lemma_decode_without_nul(text);
    lemma_trim_padded_text(decode_utf8(text), decode_utf8(padding));
    assert(decode_utf8(field) == decode_utf8(text) + decode_utf8(padding));
}

/// `core::str::from_utf8`: the bytes are taken as text exactly when they are
/// well-formed UTF-8, and the text is then the characters they encode.
#[verifier::external_body]
fn utf8_text(bytes: &[u8]) -> (text: Option<&str>)
    ensures
        text is Some <==> valid_utf8(bytes@),
        text matches Some(s) ==> s@ == decode_utf8(bytes@),
{
    match core::str::from_utf8(bytes) {
        Ok(text) => Some(text),
        Err(_) => None,
    }
}

/// Decodes a name field: the bytes are read as UTF-8, and NUL characters at
/// either end are dropped.
pub fn decode_name(field: &[u8]) -> (res: Result<String, Error>)
    ensures
        match res {
            Ok(name) => valid_utf8(field@) && name@ == trim_nul(decode_utf8(field@)),
            Err(e) => !valid_utf8(field@) && e == Error::Utf8DecodeFailure,
        },
{
    match utf8_text(field) {
        None => Err(Error::Utf8DecodeFailure),
        Some(text) => {
            let count: usize = text.unicode_len();
            let mut start: usize = 0;
            while start < count && text.get_char(start) == '\0'
                invariant
                    count == text@.len(),
                    start <= count,
                    forall|i: int| 0 <= i < start ==> text@[i] == '\0',
                decreases count - start,
            {
                start += 1;
            }
            let mut end: usize = count;
            while end > start && text.get_char(end - 1) == '\0'
                invariant
                    count == text@.len(),
                    start <= end <= count,
                    forall|i: int| end <= i < count ==> text@[i] == '\0',
                decreases end,
            {
                end -= 1;
            }
            let kept = text.substring_char(start, end);
            proof {
                let tail = text@.subrange(start as int, count as int);
                lemma_trim_start_skips(text@, start as int);
                assert(trim_nul_start(tail) == tail);
                lemma_trim_end_skips(tail, end - start);
                assert(tail.subrange(0, end - start) =~= kept@);
                assert(trim_nul_end(kept@) == kept@);
            }
            Ok(kept.to_owned())
        },
    }
}

} // verus!

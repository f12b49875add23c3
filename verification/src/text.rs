//! Text inside byte strings, and the ASCII whitespace around it.

use crate::bytes::starts_with;
use crate::utf8::{
    decode_text, lemma_decode_concat, lemma_encode_concat, lemma_prefix_of_decoded,
    lemma_valid_after_prefix, lemma_valid_before_suffix,
};
use vstd::prelude::*;
use vstd::slice::slice_subrange;
use vstd::string::StringSliceAdditionalSpecFns;
use vstd::utf8::*;

verus! {

/// The five characters that count as ASCII whitespace: space, horizontal tab,
/// line feed, form feed and carriage return.
pub open spec fn is_ascii_whitespace(c: char) -> bool {
    c == ' ' || c == '\t' || c == '\n' || c == '\x0C' || c == '\r'
}

/// `s` without the ASCII whitespace it begins with.
pub open spec fn trim_start(s: Seq<char>) -> Seq<char>
    decreases s.len(),
{
    if s.len() > 0 && is_ascii_whitespace(s[0]) {
        trim_start(s.drop_first())
    } else {
        s
    }
}

/// `s` without the ASCII whitespace it ends with.
pub open spec fn trim_end(s: Seq<char>) -> Seq<char>
    decreases s.len(),
{
    if s.len() > 0 && is_ascii_whitespace(s.last()) {
        trim_end(s.drop_last())
    } else {
        s
    }
}

/// `s` without the ASCII whitespace at either end.
pub open spec fn trim(s: Seq<char>) -> Seq<char> {
    trim_end(trim_start(s))
}

/// Whether every character of `s` is ASCII whitespace.
pub open spec fn all_whitespace(s: Seq<char>) -> bool {
    forall|i: int| 0 <= i < s.len() ==> is_ascii_whitespace(#[trigger] s[i])
}

/// The bytes that encode the ASCII whitespace characters.
pub open spec fn is_whitespace_byte(b: u8) -> bool {
    b == 0x20 || b == 0x09 || b == 0x0a || b == 0x0c || b == 0x0d
}

/// Whether every byte of `s` encodes an ASCII whitespace character.
pub open spec fn all_whitespace_bytes(s: Seq<u8>) -> bool {
    forall|i: int| 0 <= i < s.len() ==> is_whitespace_byte(#[trigger] s[i])
}

/// Reads `bytes` as text and leaves out the ASCII whitespace at both ends.
/// There is no text where `bytes` are not valid UTF-8.
pub fn trimmed_text<'a>(bytes: &'a [u8]) -> (text: Option<&'a str>)
    ensures
        text is Some <==> valid_utf8(bytes@),
        text matches Some(t) ==> t@ == trim(decode_utf8(bytes@)),
{
    let (start, end) = trim_bounds(bytes);
    let text = decode_text(slice_subrange(bytes, start, end));
    proof {
        lemma_trimmed_bytes(bytes@, start as int, end as int);
        if let Some(t) = text {
            encode_utf8_decode_utf8(t@);
        }
    }
    text
}

/// Whether `text` begins with `prefix`.
pub fn has_prefix(text: &str, prefix: &str) -> (yes: bool)
    ensures
        yes == prefix@.is_prefix_of(text@),
{
    proof {
        encode_utf8_valid_utf8(text@);
        encode_utf8_decode_utf8(text@);
        lemma_prefix_of_decoded(text.spec_bytes(), prefix@);
    }
    starts_with(text.as_bytes(), prefix.as_bytes())
}

/// Whether `b` is one of the whitespace bytes.
fn is_space(b: u8) -> (yes: bool)
    ensures
        yes == is_whitespace_byte(b),
{
    b == 0x20 || b == 0x09 || b == 0x0a || b == 0x0c || b == 0x0d
}

/// Where `bytes` begin and end once the whitespace bytes at both ends are
/// left out: everything before the first position and from the second on is
/// whitespace, and what lies between has none at its ends.
fn trim_bounds(bytes: &[u8]) -> (bounds: (usize, usize))
    ensures
        bounds.0 <= bounds.1 <= bytes@.len(),
        all_whitespace_bytes(bytes@.subrange(0, bounds.0 as int)),
        all_whitespace_bytes(bytes@.subrange(bounds.1 as int, bytes@.len() as int)),
        bounds.0 < bounds.1 ==> !is_whitespace_byte(bytes@[bounds.0 as int])
            && !is_whitespace_byte(bytes@[bounds.1 - 1]),
{
    let mut start: usize = 0;
    while start < bytes.len() && is_space(bytes[start])
        invariant
            start <= bytes@.len(),
            forall|i: int| 0 <= i < start ==> is_whitespace_byte(bytes@[i]),
        decreases bytes@.len() - start,
    {
        start += 1;
    }
    let mut end: usize = bytes.len();
    while start < end && is_space(bytes[end - 1])
        invariant
            start <= end <= bytes@.len(),
            forall|i: int| end <= i < bytes@.len() ==> is_whitespace_byte(bytes@[i]),
        decreases end - start,
    {
        end -= 1;
    }
    (start, end)
}

/// Trimming takes away whitespace only, and leaves none at the ends: the
/// text is whitespace, then what trimming leaves, then whitespace.
pub proof fn lemma_trim(s: Seq<char>)
    ensures
        trim(s).len() > 0 ==> !is_ascii_whitespace(trim(s)[0]) && !is_ascii_whitespace(
            trim(s).last(),
        ),
        exists|before: Seq<char>, after: Seq<char>|
            all_whitespace(before) && all_whitespace(after) && s == before + trim(s) + after,
{
    lemma_trim_start(s);
    let started = trim_start(s);
    lemma_trim_end(started);
    let before = s.take(s.len() - started.len());
    let after = started.skip(trim(s).len() as int);
    assert(s =~= before + trim(s) + after);
}

/// `trim_start` leaves the end of the text, takes away whitespace only, and
/// leaves none at the beginning.
pub proof fn lemma_trim_start(s: Seq<char>)
    ensures
        trim_start(s).len() <= s.len(),
        trim_start(s) == s.skip(s.len() - trim_start(s).len()),
        all_whitespace(s.take(s.len() - trim_start(s).len())),
        trim_start(s).len() > 0 ==> !is_ascii_whitespace(trim_start(s)[0]),
    decreases s.len(),
{
    if s.len() > 0 && is_ascii_whitespace(s[0]) {
        let rest = s.drop_first();
        lemma_trim_start(rest);
        let cut = s.len() - trim_start(s).len();
        assert forall|i: int| 0 <= i < cut implies is_ascii_whitespace(
            #[trigger] s.take(cut)[i],
        ) by {
            if i > 0 {
                assert(s.take(cut)[i] == rest.take(cut - 1)[i - 1]);
            }
        }
    }
}

/// `trim_end` leaves the beginning of the text, takes away whitespace only,
/// and leaves none at the end.
pub proof fn lemma_trim_end(s: Seq<char>)
    ensures
        trim_end(s).len() <= s.len(),
        trim_end(s) == s.take(trim_end(s).len() as int),
        all_whitespace(s.skip(trim_end(s).len() as int)),
        trim_end(s).len() > 0 ==> !is_ascii_whitespace(trim_end(s).last()),
        trim_end(s).len() > 0 ==> trim_end(s)[0] == s[0],
    decreases s.len(),
{
    if s.len() > 0 && is_ascii_whitespace(s.last()) {
        let rest = s.drop_last();
        lemma_trim_end(rest);
        let kept = trim_end(s).len() as int;
        assert forall|i: int| 0 <= i < s.len() - kept implies is_ascii_whitespace(
            #[trigger] s.skip(kept)[i],
        ) by {
            if i < s.len() - kept - 1 {
                assert(s.skip(kept)[i] == rest.skip(kept)[i]);
            }
        }
    }
}

/// Whitespace in front of a text does not change what `trim_start` leaves.
pub proof fn lemma_trim_start_skips(w: Seq<char>, rest: Seq<char>)
    requires
        all_whitespace(w),
    ensures
        trim_start(w + rest) == trim_start(rest),
    decreases w.len(),
{
    if w.len() > 0 {
        assert((w + rest).drop_first() =~= w.drop_first() + rest);
        lemma_trim_start_skips(w.drop_first(), rest);
    }
}

/// Whitespace behind a text does not change what `trim_end` leaves.
pub proof fn lemma_trim_end_skips(rest: Seq<char>, w: Seq<char>)
    requires
        all_whitespace(w),
    ensures
        trim_end(rest + w) == trim_end(rest),
    decreases w.len(),
{
    if w.len() > 0 {
        assert((rest + w).drop_last() =~= rest + w.drop_last());
        lemma_trim_end_skips(rest, w.drop_last());
    }
}

/// Trimming finds the middle of a text that is whitespace, then a middle
/// with no whitespace at its ends, then whitespace again.
pub proof fn lemma_trim_finds_middle(before: Seq<char>, middle: Seq<char>, after: Seq<char>)
    requires
        all_whitespace(before),
        all_whitespace(after),
        middle.len() > 0 ==> !is_ascii_whitespace(middle[0]) && !is_ascii_whitespace(
            middle.last(),
        ),
    ensures
        trim(before + middle + after) == middle,
{
    assert(before + middle + after =~= before + (middle + after));
    lemma_trim_start_skips(before, middle + after);
    if middle.len() > 0 {
        lemma_trim_end_skips(middle, after);
    } else {
        lemma_trim_start_skips(after, middle);
    }
}

/// A run of whitespace bytes is valid text, and decodes to as many
/// whitespace characters.
pub proof fn lemma_whitespace_run(w: Seq<u8>)
    requires
        all_whitespace_bytes(w),
    ensures
        valid_utf8(w),
        decode_utf8(w).len() == w.len(),
        all_whitespace(decode_utf8(w)),
{
    let chars = Seq::new(w.len(), |i: int| w[i] as char);
    assert(is_ascii_chars(chars)) by {
        assert forall|i: int| 0 <= i < chars.len() implies '\0' <= #[trigger] chars[i]
            <= '\u{7f}' by {
            assert(is_whitespace_byte(w[i]));
        }
    }
    is_ascii_chars_encode_utf8(chars);
    assert(encode_utf8(chars) =~= w) by {
        assert forall|i: int| 0 <= i < w.len() implies encode_utf8(chars)[i] == w[i] by {
            assert(is_whitespace_byte(w[i]));
            assert(chars[i] as u8 == encode_utf8(chars)[i]);
        }
    }
    encode_utf8_valid_utf8(chars);
    encode_utf8_decode_utf8(chars);
    assert forall|i: int| 0 <= i < chars.len() implies is_ascii_whitespace(#[trigger] chars[i]) by {
        assert(is_whitespace_byte(w[i]));
    }
}

/// An ASCII whitespace character is encoded as one byte, a whitespace byte.
pub proof fn lemma_whitespace_encoding(c: char)
    requires
        is_ascii_whitespace(c),
    ensures
        encode_utf8(seq![c]) == seq![c as u8],
        is_whitespace_byte(c as u8),
{
    let one = seq![c];
    assert(is_ascii_chars(one));
    is_ascii_chars_encode_utf8(one);
    assert(one[0] as u8 == encode_utf8(one)[0]);
    assert(encode_utf8(one) =~= seq![c as u8]);
}

/// Valid text that neither begins nor ends with a whitespace byte decodes to
/// a text that neither begins nor ends with whitespace.
pub proof fn lemma_decoded_ends(m: Seq<u8>)
    requires
        valid_utf8(m),
        m.len() > 0,
        !is_whitespace_byte(m[0]),
        !is_whitespace_byte(m.last()),
    ensures
        decode_utf8(m).len() > 0,
        !is_ascii_whitespace(decode_utf8(m)[0]),
        !is_ascii_whitespace(decode_utf8(m).last()),
{
    let text = decode_utf8(m);
    decode_utf8_encode_utf8(m);
    if is_ascii_whitespace(text[0]) {
        let head = seq![text[0]];
        assert(text =~= head + text.drop_first());
        lemma_encode_concat(head, text.drop_first());
        lemma_whitespace_encoding(text[0]);
        assert(m[0] == (encode_utf8(head) + encode_utf8(text.drop_first()))[0]);
    }
    if is_ascii_whitespace(text.last()) {
        let tail = seq![text.last()];
        assert(text =~= text.drop_last() + tail);
        lemma_encode_concat(text.drop_last(), tail);
        lemma_whitespace_encoding(text.last());
        assert(m.last() == (encode_utf8(text.drop_last()) + encode_utf8(tail)).last());
    }
}

/// Cutting the whitespace bytes off both ends of a byte string keeps it
/// valid or invalid as it was, and where it is valid, leaves the bytes of the
/// trimmed text.
pub proof fn lemma_trimmed_bytes(bytes: Seq<u8>, start: int, end: int)
    requires
        0 <= start <= end <= bytes.len(),
        all_whitespace_bytes(bytes.subrange(0, start)),
        all_whitespace_bytes(bytes.subrange(end, bytes.len() as int)),
        start < end ==> !is_whitespace_byte(bytes[start]) && !is_whitespace_byte(bytes[end - 1]),
    ensures
        valid_utf8(bytes.subrange(start, end)) <==> valid_utf8(bytes),
        valid_utf8(bytes) ==> decode_utf8(bytes.subrange(start, end)) == trim(decode_utf8(bytes)),
{
    let before = bytes.subrange(0, start);
    let middle = bytes.subrange(start, end);
    let after = bytes.subrange(end, bytes.len() as int);
    assert(bytes =~= before + (middle + after));
    lemma_whitespace_run(before);
    lemma_whitespace_run(after);
    if valid_utf8(middle) {
        lemma_decode_concat(middle, after);
        lemma_decode_concat(before, middle + after);
    }
    if valid_utf8(bytes) {
        lemma_valid_after_prefix(before, middle + after);
        lemma_valid_before_suffix(middle, after);
        lemma_decode_concat(middle, after);
        lemma_decode_concat(before, middle + after);
        if middle.len() > 0 {
            lemma_decoded_ends(middle);
        }
        assert(decode_utf8(before) + (decode_utf8(middle) + decode_utf8(after)) =~= decode_utf8(
            before,
        ) + decode_utf8(middle) + decode_utf8(after));
        lemma_trim_finds_middle(decode_utf8(before), decode_utf8(middle), decode_utf8(after));
    }
}

} // verus!

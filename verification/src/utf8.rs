//! UTF-8: telling whether bytes are text, and how the text of a byte string
//! relates to the texts of its parts.

use vstd::prelude::*;
use vstd::string::StringSliceAdditionalSpecFns;
use vstd::utf8::*;

verus! {

/// The text that `bytes` hold, where they are valid UTF-8.
///
/// This is `std::str::from_utf8` with its error left out. Taken on trust from
/// its documentation: it succeeds exactly on valid UTF-8, and the text it
/// gives is made of the very bytes it was given.
#[verifier::external_body]
pub(crate) fn decode_text<'a>(bytes: &'a [u8]) -> (text: Option<&'a str>)
    ensures
        text is Some <==> valid_utf8(bytes@),
        text matches Some(s) ==> s.spec_bytes() == bytes@,
{
    std::str::from_utf8(bytes).ok()
}

/// Encoding a text piece by piece gives the encoding of the whole.
pub proof fn lemma_encode_concat(a: Seq<char>, b: Seq<char>)
    ensures
        encode_utf8(a + b) == encode_utf8(a) + encode_utf8(b),
    decreases a.len(),
{
    if a.len() > 0 {
        assert((a + b).drop_first() =~= a.drop_first() + b);
        lemma_encode_concat(a.drop_first(), b);
    }
}

/// Two valid byte strings in a row decode to the two texts in a row.
pub proof fn lemma_decode_concat(x: Seq<u8>, y: Seq<u8>)
    requires
        valid_utf8(x),
        valid_utf8(y),
    ensures
        valid_utf8(x + y),
        decode_utf8(x + y) == decode_utf8(x) + decode_utf8(y),
{
    decode_utf8_encode_utf8(x);
    decode_utf8_encode_utf8(y);
    lemma_encode_concat(decode_utf8(x), decode_utf8(y));
    encode_utf8_valid_utf8(decode_utf8(x) + decode_utf8(y));
    encode_utf8_decode_utf8(decode_utf8(x) + decode_utf8(y));
}

/// What follows a valid beginning of a valid byte string is valid too.
pub proof fn lemma_valid_after_prefix(x: Seq<u8>, y: Seq<u8>)
    requires
        valid_utf8(x),
        valid_utf8(x + y),
    ensures
        valid_utf8(y),
    decreases x.len(),
{
    if x.len() > 0 {
        assert(pop_first_scalar(x + y) =~= pop_first_scalar(x) + y);
        lemma_valid_after_prefix(pop_first_scalar(x), y);
    }
}

/// What precedes a valid end of a valid byte string is valid too.
pub proof fn lemma_valid_before_suffix(x: Seq<u8>, y: Seq<u8>)
    requires
        valid_utf8(y),
        valid_utf8(x + y),
    ensures
        valid_utf8(x),
{
    if y.len() > 0 {
        let whole = x + y;
        let at = x.len() as int;
        assert(!is_continuation_byte(whole[at]));
        is_char_boundary_iff_not_is_continuation_byte(whole, at);
        valid_utf8_split(whole, at);
        assert(whole.subrange(0, at) =~= x);
    }
}

/// A valid byte string begins with the encoding of a text exactly when what
/// it decodes to begins with that text.
pub proof fn lemma_prefix_of_decoded(bytes: Seq<u8>, prefix: Seq<char>)
    requires
        valid_utf8(bytes),
    ensures
        encode_utf8(prefix).is_prefix_of(bytes) <==> prefix.is_prefix_of(decode_utf8(bytes)),
{
    let encoded = encode_utf8(prefix);
    let text = decode_utf8(bytes);
    encode_utf8_valid_utf8(prefix);
    encode_utf8_decode_utf8(prefix);
    decode_utf8_encode_utf8(bytes);
    if encoded.is_prefix_of(bytes) {
        let rest = bytes.skip(encoded.len() as int);
        assert(bytes =~= encoded + rest);
        lemma_valid_after_prefix(encoded, rest);
        lemma_decode_concat(encoded, rest);
    }
    if prefix.is_prefix_of(text) {
        let rest = text.skip(prefix.len() as int);
        assert(text =~= prefix + rest);
        lemma_encode_concat(prefix, rest);
    }
}

} // verus!

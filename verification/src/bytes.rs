//! Byte strings cut at a separator byte, and prefixes of byte strings.

use vstd::prelude::*;
use vstd::slice::slice_subrange;

verus! {

/// How many bytes of `s` come before its first `sep`: all of them when `s`
/// holds no `sep`.
pub open spec fn first_index(s: Seq<u8>, sep: u8) -> nat
    decreases s.len(),
{
    if s.len() == 0 || s[0] == sep {
        0
    } else {
        1 + first_index(s.drop_first(), sep)
    }
}

/// The pieces of `s` that lie between its separators, in order.
///
/// A string without a separator is a single piece, the empty string too; a
/// separator at either end has an empty piece beside it.
pub open spec fn split_on(s: Seq<u8>, sep: u8) -> Seq<Seq<u8>>
    decreases s.len(),
{
    let i = first_index(s, sep) as int;
    if i >= s.len() {
        seq![s]
    } else {
        seq![s.take(i)] + split_on(s.skip(i + 1), sep)
    }
}

/// `first_index` is the one position that has no separator before it and
/// either a separator at it or the end of the string.
pub proof fn lemma_first_index(s: Seq<u8>, sep: u8, k: int)
    requires
        0 <= k <= s.len(),
        forall|j: int| 0 <= j < k ==> s[j] != sep,
        k == s.len() || s[k] == sep,
    ensures
        first_index(s, sep) == k,
    decreases s.len(),
{
    if k > 0 {
        let rest = s.drop_first();
        assert forall|j: int| 0 <= j < k - 1 implies rest[j] != sep by {
            assert(rest[j] == s[j + 1]);
        }
        lemma_first_index(rest, sep, k - 1);
    }
}

/// Nothing before `first_index` is a separator, and where `first_index` lies
/// inside the string, a separator stands there.
pub proof fn lemma_first_index_is_first(s: Seq<u8>, sep: u8)
    ensures
        first_index(s, sep) <= s.len(),
        forall|j: int| 0 <= j < first_index(s, sep) ==> s[j] != sep,
        first_index(s, sep) < s.len() ==> s[first_index(s, sep) as int] == sep,
    decreases s.len(),
{
    if s.len() > 0 && s[0] != sep {
        let rest = s.drop_first();
        lemma_first_index_is_first(rest, sep);
        assert forall|j: int| 0 <= j < first_index(s, sep) implies s[j] != sep by {
            if j > 0 {
                assert(s[j] == rest[j - 1]);
            }
        }
    }
}

/// The pieces with a separator put back between each two of them.
pub open spec fn join(pieces: Seq<Seq<u8>>, sep: u8) -> Seq<u8>
    decreases pieces.len(),
{
    if pieces.len() == 0 {
        seq![]
    } else if pieces.len() == 1 {
        pieces[0]
    } else {
        pieces[0] + seq![sep] + join(pieces.drop_first(), sep)
    }
}

/// Splitting loses nothing: there is always a piece, no piece holds a
/// separator, and the pieces joined by the separator are the string again.
pub proof fn lemma_split_on(s: Seq<u8>, sep: u8)
    ensures
        split_on(s, sep).len() >= 1,
        forall|i: int|
            0 <= i < split_on(s, sep).len() ==> !(#[trigger] split_on(s, sep)[i]).contains(sep),
        join(split_on(s, sep), sep) == s,
    decreases s.len(),
{
    let at = first_index(s, sep) as int;
    lemma_first_index_is_first(s, sep);
    if at < s.len() {
        let rest = split_on(s.skip(at + 1), sep);
        lemma_split_on(s.skip(at + 1), sep);
        assert((seq![s.take(at)] + rest).drop_first() =~= rest);
    }
}

/// The first piece is what comes before the first separator, and the other
/// pieces are those of what follows that separator.
pub proof fn lemma_split_step(s: Seq<u8>, sep: u8)
    ensures
        split_on(s, sep).len() >= 1,
        split_on(s, sep)[0] == s.take(first_index(s, sep) as int),
        first_index(s, sep) >= s.len() ==> split_on(s, sep).drop_first() == Seq::<
            Seq<u8>,
        >::empty(),
        first_index(s, sep) < s.len() ==> split_on(s, sep).drop_first() == split_on(
            s.skip(first_index(s, sep) as int + 1),
            sep,
        ),
{
    lemma_first_index_is_first(s, sep);
}

/// Cuts `bytes` at its first `sep`: the piece before it, and what follows it.
/// Where `bytes` holds no `sep`, the piece is all of `bytes` and nothing
/// follows.
pub fn next_piece<'a>(bytes: &'a [u8], sep: u8) -> (cut: (&'a [u8], Option<&'a [u8]>))
    ensures
        cut.0@ == bytes@.take(first_index(bytes@, sep) as int),
        cut.1 is Some <==> first_index(bytes@, sep) < bytes@.len(),
        cut.1 matches Some(rest) ==> rest@ == bytes@.skip(first_index(bytes@, sep) as int + 1),
{
    let mut at: usize = 0;
    while at < bytes.len() && bytes[at] != sep
        invariant
            at <= bytes@.len(),
            forall|j: int| 0 <= j < at ==> bytes@[j] != sep,
        decreases bytes@.len() - at,
    {
        at += 1;
    }
    proof {
        lemma_first_index(bytes@, sep, at as int);
    }
    let piece = slice_subrange(bytes, 0, at);
    if at < bytes.len() {
        (piece, Some(slice_subrange(bytes, at + 1, bytes.len())))
    } else {
        (piece, None)
    }
}

/// Whether `bytes` begins with `prefix`.
pub fn starts_with(bytes: &[u8], prefix: &[u8]) -> (yes: bool)
    ensures
        yes == prefix@.is_prefix_of(bytes@),
{
    if prefix.len() > bytes.len() {
        return false;
    }
    let mut i: usize = 0;
    while i < prefix.len()
        invariant
            i <= prefix@.len() <= bytes@.len(),
            forall|j: int| 0 <= j < i ==> prefix@[j] == bytes@[j],
        decreases prefix@.len() - i,
    {
        if prefix[i] != bytes[i] {
            return false;
        }
        i += 1;
    }
    true
}

/// What follows `prefix` in `bytes`, if `bytes` begins with it.
pub fn strip_prefix<'a>(bytes: &'a [u8], prefix: &[u8]) -> (rest: Option<&'a [u8]>)
    ensures
        rest is Some <==> prefix@.is_prefix_of(bytes@),
        rest matches Some(r) ==> r@ == bytes@.skip(prefix@.len() as int),
{
    if starts_with(bytes, prefix) {
        Some(slice_subrange(bytes, prefix.len(), bytes.len()))
    } else {
        None
    }
}

} // verus!

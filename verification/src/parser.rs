//! The analyzer's output, read into a list of dependency specifiers.
//!
//! The output is a byte string of lines. The first line that begins with
//! [`DEPENDS_TAG`] carries the dependencies: what follows the tag is a list of
//! specifiers with commas between them.

use crate::bytes::{lemma_split_step, next_piece, split_on, strip_prefix};
use crate::error::{list_result_view, ErrorView, ResolveError};
use crate::text::{has_prefix, trim, trimmed_text};
use vstd::prelude::*;
use vstd::string::StringSliceAdditionalSpecFns;
use vstd::utf8::{decode_utf8, valid_utf8};

verus! {

/// What the line that carries the dependencies begins with.
pub const DEPENDS_TAG: &'static str = "shlibs:Depends=";

/// How a specifier of the compiler's runtime support library begins, in its
/// current naming.
pub const RUNTIME_PREFIX: &'static str = "libgcc-";

/// How a specifier of the compiler's runtime support library begins, in its
/// older naming.
pub const RUNTIME_PREFIX_OLD: &'static str = "libgcc1";

/// What is wrong with an output that has no line with the tag.
pub const MISSING_DEPENDS: &'static str = "Failed to find dependency specification.";

/// The byte that ends a line of the output.
pub const LINE_END: u8 = 0x0a;

/// The byte between two specifiers.
pub const COMMA: u8 = 0x2c;

/// Whether `line` begins with the tag.
pub open spec fn is_tagged(line: Seq<u8>) -> bool {
    DEPENDS_TAG.spec_bytes().is_prefix_of(line)
}

/// What follows the tag on `line`, if `line` begins with the tag.
pub open spec fn tagged_value(line: Seq<u8>) -> Option<Seq<u8>> {
    if is_tagged(line) {
        Some(line.skip(DEPENDS_TAG.spec_bytes().len() as int))
    } else {
        None
    }
}

/// What follows the tag on the first of `lines` that begins with it.
pub open spec fn first_tagged_value(lines: Seq<Seq<u8>>) -> Option<Seq<u8>>
    decreases lines.len(),
{
    if lines.len() == 0 {
        None
    } else if is_tagged(lines[0]) {
        tagged_value(lines[0])
    } else {
        first_tagged_value(lines.drop_first())
    }
}

/// The comma-separated list that `output` carries on its first tagged line.
pub open spec fn depends_value(output: Seq<u8>) -> Option<Seq<u8>> {
    first_tagged_value(split_on(output, LINE_END))
}

/// Whether `text` names the compiler's runtime support library, which every
/// system has and no package needs to ask for.
pub open spec fn is_runtime_support(text: Seq<char>) -> bool {
    RUNTIME_PREFIX@.is_prefix_of(text) || RUNTIME_PREFIX_OLD@.is_prefix_of(text)
}

/// The specifier that one piece of the list stands for: its text without the
/// whitespace around it. A piece that is not valid text stands for none, and
/// so does one that names the runtime support library.
pub open spec fn specifier(token: Seq<u8>) -> Option<Seq<char>> {
    if !valid_utf8(token) {
        None
    } else if is_runtime_support(trim(decode_utf8(token))) {
        None
    } else {
        Some(trim(decode_utf8(token)))
    }
}

/// The specifiers that `tokens` stand for, in the order of the tokens.
pub open spec fn specifiers(tokens: Seq<Seq<u8>>) -> Seq<Seq<char>>
    decreases tokens.len(),
{
    if tokens.len() == 0 {
        seq![]
    } else {
        match specifier(tokens[0]) {
            Some(text) => seq![text] + specifiers(tokens.drop_first()),
            None => specifiers(tokens.drop_first()),
        }
    }
}

/// The dependency list that a comma-separated `value` holds.
pub open spec fn dependency_list(value: Seq<u8>) -> Seq<Seq<char>> {
    specifiers(split_on(value, COMMA))
}

/// What reading `output` gives: the dependency list on its first tagged
/// line, or the error that says that it has no such line.
pub open spec fn parsed_output(output: Seq<u8>) -> Result<Seq<Seq<char>>, ErrorView> {
    match depends_value(output) {
        Some(value) => Ok(dependency_list(value)),
        None => Err(ErrorView::Format(MISSING_DEPENDS@)),
    }
}

/// Whether some line of `output` begins with the tag.
pub open spec fn has_tagged_line(output: Seq<u8>) -> bool {
    exists|i: int|
        0 <= i < split_on(output, LINE_END).len() && is_tagged(
            #[trigger] split_on(output, LINE_END)[i],
        )
}

/// The value found among `lines` is that of the first line with the tag;
/// none is found exactly when no line has the tag.
pub proof fn lemma_first_tagged_value(lines: Seq<Seq<u8>>)
    ensures
        first_tagged_value(lines) is None <==> forall|i: int|
            0 <= i < lines.len() ==> !is_tagged(#[trigger] lines[i]),
        first_tagged_value(lines) is Some ==> exists|i: int|
            0 <= i < lines.len() && first_tagged_value(lines) == tagged_value(#[trigger] lines[i])
                && is_tagged(lines[i]) && forall|j: int|
                0 <= j < i ==> !is_tagged(#[trigger] lines[j]),
    decreases lines.len(),
{
    if lines.len() > 0 {
        let rest = lines.drop_first();
        lemma_first_tagged_value(rest);
        if !is_tagged(lines[0]) {
            if first_tagged_value(rest) is None {
                assert forall|i: int| 0 <= i < lines.len() implies !is_tagged(
                    #[trigger] lines[i],
                ) by {
                    if i > 0 {
                        assert(lines[i] == rest[i - 1]);
                    }
                }
            } else {
                let k = choose|k: int|
                    0 <= k < rest.len() && first_tagged_value(rest) == tagged_value(
                        #[trigger] rest[k],
                    ) && is_tagged(rest[k]) && forall|j: int|
                        0 <= j < k ==> !is_tagged(#[trigger] rest[j]);
                assert forall|j: int| 0 <= j < k + 1 implies !is_tagged(#[trigger] lines[j]) by {
                    if j > 0 {
                        assert(lines[j] == rest[j - 1]);
                    }
                }
            }
        }
    }
}

/// An output carries a dependency list exactly when one of its lines begins
/// with the tag.
pub proof fn lemma_parsed_iff_tagged(output: Seq<u8>)
    ensures
        parsed_output(output) is Ok <==> has_tagged_line(output),
{
    lemma_first_tagged_value(split_on(output, LINE_END));
}

/// The specifiers of two runs of tokens, one after the other, are those of
/// the first run followed by those of the second: order is kept.
pub proof fn lemma_specifiers_concat(a: Seq<Seq<u8>>, b: Seq<Seq<u8>>)
    ensures
        specifiers(a + b) == specifiers(a) + specifiers(b),
    decreases a.len(),
{
    if a.len() > 0 {
        assert((a + b).drop_first() =~= a.drop_first() + b);
        lemma_specifiers_concat(a.drop_first(), b);
    }
}

/// No specifier in the list names the runtime support library.
pub proof fn lemma_no_runtime_support(tokens: Seq<Seq<u8>>)
    ensures
        forall|i: int|
            0 <= i < specifiers(tokens).len() ==> !is_runtime_support(
                #[trigger] specifiers(tokens)[i],
            ),
    decreases tokens.len(),
{
    if tokens.len() > 0 {
        let rest = specifiers(tokens.drop_first());
        lemma_no_runtime_support(tokens.drop_first());
        assert forall|i: int| 0 <= i < specifiers(tokens).len() implies !is_runtime_support(
            #[trigger] specifiers(tokens)[i],
        ) by {
            if specifier(tokens[0]) is Some && i > 0 {
                assert(specifiers(tokens)[i] == rest[i - 1]);
            }
        }
    }
}

/// Every entry of the list is the specifier of one of the tokens, and a
/// token that stands for a specifier has it in the list.
pub proof fn lemma_listed_iff_specified(tokens: Seq<Seq<u8>>, text: Seq<char>)
    ensures
        specifiers(tokens).contains(text) <==> exists|i: int|
            0 <= i < tokens.len() && #[trigger] specifier(tokens[i]) == Some(text),
    decreases tokens.len(),
{
    if tokens.len() > 0 {
        let rest = tokens.drop_first();
        lemma_listed_iff_specified(rest, text);
        assert forall|i: int| 0 <= i < rest.len() implies rest[i] == tokens[i + 1] by {}
        if specifiers(tokens).contains(text) && specifier(tokens[0]) != Some(text) {
            let at = choose|at: int|
                0 <= at < specifiers(tokens).len() && specifiers(tokens)[at] == text;
            if specifier(tokens[0]) is Some {
                assert(specifiers(rest)[at - 1] == text);
            } else {
                assert(specifiers(rest)[at] == text);
            }
            let i = choose|i: int|
                0 <= i < rest.len() && #[trigger] specifier(rest[i]) == Some(text);
            assert(specifier(tokens[i + 1]) == Some(text));
        }
        if exists|i: int| 0 <= i < tokens.len() && #[trigger] specifier(tokens[i]) == Some(text) {
            let i = choose|i: int|
                0 <= i < tokens.len() && #[trigger] specifier(tokens[i]) == Some(text);
            if i == 0 {
                assert(specifiers(tokens)[0] == text);
            } else {
                assert(specifier(rest[i - 1]) == Some(text));
                let at = choose|at: int|
                    0 <= at < specifiers(rest).len() && specifiers(rest)[at] == text;
                if specifier(tokens[0]) is Some {
                    assert(specifiers(tokens)[at + 1] == text);
                } else {
                    assert(specifiers(tokens)[at] == text);
                }
            }
        }
    }
}

/// A specifier of the C library, which begins with `libc`, is never taken
/// for one of the runtime support library.
pub proof fn lemma_c_library_is_not_runtime_support(text: Seq<char>)
    requires
        "libc"@.is_prefix_of(text),
    ensures
        !is_runtime_support(text),
{
    reveal_strlit("libc");
    reveal_strlit("libgcc-");
    reveal_strlit("libgcc1");
    if RUNTIME_PREFIX@.is_prefix_of(text) {
        assert(text[3] == RUNTIME_PREFIX@[3]);
    }
    if RUNTIME_PREFIX_OLD@.is_prefix_of(text) {
        assert(text[3] == RUNTIME_PREFIX_OLD@[3]);
    }
}

/// Where a piece of the list is valid text that begins, once trimmed, with
/// `libc`, the dependency list has an entry that begins with `libc`.
pub proof fn lemma_c_library_is_listed(value: Seq<u8>, i: int)
    requires
        0 <= i < split_on(value, COMMA).len(),
        valid_utf8(split_on(value, COMMA)[i]),
        "libc"@.is_prefix_of(trim(decode_utf8(split_on(value, COMMA)[i]))),
    ensures
        exists|j: int|
            0 <= j < dependency_list(value).len() && "libc"@.is_prefix_of(
                #[trigger] dependency_list(value)[j],
            ),
{
    let tokens = split_on(value, COMMA);
    let text = trim(decode_utf8(tokens[i]));
    lemma_c_library_is_not_runtime_support(text);
    assert(specifier(tokens[i]) == Some(text));
    lemma_listed_iff_specified(tokens, text);
    let j = choose|j: int| 0 <= j < specifiers(tokens).len() && specifiers(tokens)[j] == text;
    assert("libc"@.is_prefix_of(dependency_list(value)[j]));
}

/// Reads one piece of the list: see [`specifier`].
pub fn parse_specifier(token: &[u8]) -> (kept: Option<String>)
    ensures
        kept.deep_view() == specifier(token@),
{
    match trimmed_text(token) {
        None => None,
        Some(text) => {
            if has_prefix(text, RUNTIME_PREFIX) || has_prefix(text, RUNTIME_PREFIX_OLD) {
                None
            } else {
                Some(text.to_owned())
            }
        },
    }
}

/// Finds the first tagged line of `output` and gives what follows the tag on
/// it: see [`depends_value`].
pub fn find_depends_value<'a>(output: &'a [u8]) -> (value: Option<&'a [u8]>)
    ensures
        value is Some <==> depends_value(output@) is Some,
        value matches Some(v) ==> depends_value(output@) == Some(v@),
{
    let mut rest = output;
    loop
        invariant
            depends_value(output@) == first_tagged_value(split_on(rest@, LINE_END)),
        decreases rest@.len(),
    {
        let ghost lines = split_on(rest@, LINE_END);
        let (line, more) = next_piece(rest, LINE_END);
        proof {
            lemma_split_step(rest@, LINE_END);
        }
        match strip_prefix(line, DEPENDS_TAG.as_bytes()) {
            Some(value) => {
                return Some(value);
            },
            None => {},
        }
        match more {
            Some(following) => {
                rest = following;
            },
            None => {
                assert(first_tagged_value(lines.drop_first()) is None);
                return None;
            },
        }
    }
}

/// Reads a comma-separated `value` into its list of specifiers: see
/// [`dependency_list`].
pub fn parse_dependency_list(value: &[u8]) -> (deps: Vec<String>)
    ensures
        deps.deep_view() == dependency_list(value@),
        forall|i: int| 0 <= i < deps@.len() ==> !is_runtime_support(#[trigger] deps@[i]@),
{
    let mut deps: Vec<String> = Vec::new();
    let mut rest = value;
    loop
        invariant
            dependency_list(value@) == deps.deep_view() + specifiers(split_on(rest@, COMMA)),
        decreases rest@.len(),
    {
        let ghost listed = deps.deep_view();
        let ghost tokens = split_on(rest@, COMMA);
        let (token, more) = next_piece(rest, COMMA);
        proof {
            lemma_split_step(rest@, COMMA);
        }
        match parse_specifier(token) {
            Some(text) => {
                deps.push(text);
                assert(deps.deep_view() =~= listed + seq![text@]);
            },
            None => {},
        }
        assert(dependency_list(value@) =~= deps.deep_view() + specifiers(tokens.drop_first()));
        match more {
            Some(following) => {
                rest = following;
            },
            None => {
                proof {
                    lemma_no_runtime_support(split_on(value@, COMMA));
                    assert forall|i: int| 0 <= i < deps@.len() implies !is_runtime_support(
                        #[trigger] deps@[i]@,
                    ) by {
                        assert(deps@[i]@ == deps.deep_view()[i]);
                    }
                }
                return deps;
            },
        }
    }
}

/// Reads the analyzer's `output` into the dependency list it carries.
///
/// The list is that of the first tagged line. An output without a tagged line
/// is refused, and nothing of it is returned.
pub fn parse_dependencies(output: &[u8]) -> (result: Result<Vec<String>, ResolveError>)
    ensures
        list_result_view(result) == parsed_output(output@),
        result is Ok <==> has_tagged_line(output@),
        result matches Ok(deps) ==> forall|i: int|
            0 <= i < deps@.len() ==> !is_runtime_support(#[trigger] deps@[i]@),
        result matches Err(error) ==> error@ == ErrorView::Format(MISSING_DEPENDS@),
{
    proof {
        lemma_parsed_iff_tagged(output@);
    }
    match find_depends_value(output) {
        Some(value) => Ok(parse_dependency_list(value)),
        None => Err(ResolveError::Format(MISSING_DEPENDS)),
    }
}

} // verus!

//! What the server asks of text.

use vstd::prelude::*;
use vstd::utf8::{decode_utf8, is_ascii_chars, valid_utf8};

verus! {

/// The lower-case form of a text that is not all ASCII, as `str::to_lowercase` gives it.
pub uninterp spec fn unicode_lowercase(text: Seq<char>) -> Seq<char>;

/// The lower-case form of an ASCII character; any other character is left as it is.
pub open spec fn ascii_lower(c: char) -> char {
    if 'A' <= c <= 'Z' {
        (c as int - 'A' as int + 'a' as int) as char
    } else {
        c
    }
}

/// `text` in lower case: ASCII text changes letter by letter.
pub open spec fn lowercase(text: Seq<char>) -> Seq<char> {
    if is_ascii_chars(text) {
        text.map_values(|c: char| ascii_lower(c))
    } else {
        unicode_lowercase(text)
    }
}

/// `str::to_lowercase`: ASCII text changes letter by letter. For other text the result is a function
/// of the text that Unicode's tables give; it is named, not stated.
#[verifier::external_body]
pub(crate) fn to_lowercase(text: &str) -> (lower: String)
    ensures
        is_ascii_chars(text@) ==> lower@ == text@.map_values(|c: char| ascii_lower(c)),
        !is_ascii_chars(text@) ==> lower@ == unicode_lowercase(text@),
{
    text.to_lowercase()
}

/// ASCII text without capital letters is its own lower-case form.
pub proof fn lemma_lowercase_fixed(text: Seq<char>)
    requires
        is_ascii_chars(text),
        forall|i: int| 0 <= i < text.len() ==> !('A' <= #[trigger] text[i] <= 'Z'),
    ensures
        lowercase(text) == text,
{
    assert(lowercase(text) =~= text);
}

/// `str::strip_prefix`, for a prefix that is itself text.
#[verifier::external_body]
pub(crate) fn strip_prefix<'a>(text: &'a str, prefix: &str) -> (rest: Option<&'a str>)
    ensures
        match rest {
            Some(r) => text@ == prefix@ + r@,
            None => forall|r: Seq<char>| text@ != prefix@ + r,
        },
{
    text.strip_prefix(prefix)
}

/// `String::from_utf8`: it succeeds exactly on valid UTF-8, and gives the characters that the bytes stand
/// for.
#[verifier::external_body]
pub(crate) fn text_from_utf8(bytes: Vec<u8>) -> (text: Option<String>)
    ensures
        match text {
            Some(t) => valid_utf8(bytes@) && t@ == decode_utf8(bytes@),
            None => !valid_utf8(bytes@),
        },
{
    match String::from_utf8(bytes) {
        Ok(text) => Some(text),
        Err(_) => None,
    }
}

/// The last dot of the file name `name` stands at `at`, and not at its start.
pub open spec fn is_extension_dot<A>(name: Seq<A>, dot: A, at: int) -> bool {
    &&& 0 < at < name.len()
    &&& name[at] == dot
    &&& forall|i: int| at < i < name.len() ==> name[i] != dot
}

/// The file name `name` without its extension: what stands before the last dot, unless that dot comes
/// first.
pub open spec fn file_stem<A>(name: Seq<A>, dot: A) -> Seq<A> {
    if exists|at: int| is_extension_dot(name, dot, at) {
        name.take(choose|at: int| is_extension_dot(name, dot, at))
    } else {
        name
    }
}

/// The extension of the file name `name`: what stands behind the last dot, unless that dot comes first.
pub open spec fn file_extension<A>(name: Seq<A>, dot: A) -> Option<Seq<A>> {
    if exists|at: int| is_extension_dot(name, dot, at) {
        Some(name.skip(1 + choose|at: int| is_extension_dot(name, dot, at)))
    } else {
        None
    }
}

/// A name that ends in a dot and something without one has that as its extension.
pub proof fn lemma_extension<A>(stem: Seq<A>, dot: A, extension: Seq<A>)
    requires
        stem.len() > 0,
        forall|i: int| 0 <= i < extension.len() ==> extension[i] != dot,
    ensures
        file_stem(stem.push(dot) + extension, dot) == stem,
        file_extension(stem.push(dot) + extension, dot) == Some(extension),
{
    let name = stem.push(dot) + extension;
    assert forall|i: int| stem.len() < i < name.len() implies name[i] != dot by {
        assert(name[i] == extension[i - stem.len() - 1]);
    }
    assert(is_extension_dot(name, dot, stem.len() as int));
    let at = choose|at: int| is_extension_dot(name, dot, at);
    assert(is_extension_dot(name, dot, at));
    assert(at == stem.len());
    assert(name.take(at) =~= stem);
    assert(name.skip(at + 1) =~= extension);
}

/// A capital letter becomes the small letter of the same place in the alphabet, and every other ASCII
/// character stays as it is.
pub proof fn law_small_letters(c: char, n: int)
    requires
        0 <= n < 26,
    ensures
        ascii_lower("ABCDEFGHIJKLMNOPQRSTUVWXYZ"@[n]) == "abcdefghijklmnopqrstuvwxyz"@[n],
        !('A' <= c <= 'Z') ==> ascii_lower(c) == c,
{
    reveal_strlit("ABCDEFGHIJKLMNOPQRSTUVWXYZ");
    reveal_strlit("abcdefghijklmnopqrstuvwxyz");
}

/// ASCII text in lower case is as long as the text, and has the small form of each character in its place.
pub proof fn law_lower_case(text: Seq<char>, i: int)
    requires
        is_ascii_chars(text),
        0 <= i < text.len(),
    ensures
        lowercase(text).len() == text.len(),
        lowercase(text)[i] == ascii_lower(text[i]),
        lowercase(lowercase(text)) == lowercase(text),
{
    let lower = lowercase(text);
    assert forall|j: int| 0 <= j < lower.len() implies '\0' <= #[trigger] lower[j] <= '\u{7f}' && !(
    'A' <= lower[j] <= 'Z') by {
        assert(lower[j] == ascii_lower(text[j]));
        assert('\0' <= text[j] <= '\u{7f}');
    }
    lemma_lowercase_fixed(lower);
}

/// A file name without a dot behind its first character has no extension, and is all stem.
pub proof fn law_no_extension<A>(name: Seq<A>, dot: A)
    requires
        forall|i: int| 0 < i < name.len() ==> name[i] != dot,
    ensures
        file_stem(name, dot) == name,
        file_extension(name, dot) is None,
{
}

} // verus!

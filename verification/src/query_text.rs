//! Path and name text as the queries read it.

use vstd::prelude::*;
use vstd::utf8::*;

use crate::text::{
    after_last, ascii_lower, bytes_before, characters_of, decode_exact, fold_ascii, has_prefix,
    holds_character, last_piece, lemma_encode_concat, slice_text, text_before, text_le, Chars,
};

verus! {

// ---------------------------------------------------------------------
// Directories
// ---------------------------------------------------------------------

/// The text without the slashes at its end.
pub open spec fn without_trailing_slashes(text: Chars) -> Chars
    decreases text.len(),
{
    if text.len() > 0 && text.last() == '/' {
        without_trailing_slashes(text.drop_last())
    } else {
        text
    }
}

/// The prefix of everything inside a directory; the root's is empty.
pub open spec fn directory_prefix_of(directory: Chars) -> Chars {
    let trimmed = without_trailing_slashes(directory);
    if trimmed.len() == 0 {
        trimmed
    } else {
        trimmed.push('/')
    }
}

/// The key prefix that selects everything inside `directory`. The Workspace
/// root selects everything.
pub fn directory_prefix(directory: &str) -> (prefix: String)
    ensures
        prefix@ == directory_prefix_of(directory@),
{
    let characters = characters_of(directory);
    let mut end: usize = characters.len();
    assert(directory@.take(end as int) =~= directory@);
    while end > 0 && characters[end - 1] == '/'
        invariant
            end <= characters@.len(),
            characters@ == directory@,
            without_trailing_slashes(directory@) == without_trailing_slashes(
                directory@.take(end as int),
            ),
        decreases end,
    {
        assert(directory@.take(end as int).drop_last() =~= directory@.take(end - 1));
        end = end - 1;
    }
    let mut prefix = slice_text(characters.as_slice(), 0, end);
    assert(prefix@ =~= directory@.take(end as int));
    if end > 0 {
        prefix.push('/');
    }
    prefix
}

/// An entry directly inside the prefix rather than in a subdirectory.
pub open spec fn direct_child(path: Chars, prefix: Chars) -> bool {
    &&& prefix.is_prefix_of(path)
    &&& path.len() > prefix.len()
    &&& !path.skip(prefix.len() as int).contains('/')
}

/// Whether `path_key` names an entry directly inside `prefix` rather than in
/// one of its subdirectories.
pub fn is_direct_child(path_key: &str, prefix: &str) -> (held: bool)
    ensures
        held == direct_child(path_key@, prefix@),
{
    let path = characters_of(path_key);
    let start = characters_of(prefix);
    if !has_prefix(path.as_slice(), start.as_slice()) || path.len() == start.len() {
        return false;
    }
    let rest = slice_text(path.as_slice(), start.len(), path.len());
    assert(rest@ =~= path_key@.skip(prefix@.len() as int));
    let tail = characters_of(rest.as_str());
    !holds_character(tail.as_slice(), '/')
}

/// The final segment of a path.
pub open spec fn basename(path: Chars) -> Chars {
    last_piece(path, '/')
}

/// The final segment of a path.
pub fn basename_of(path_key: &str) -> (name: String)
    ensures
        name@ == basename(path_key@),
{
    after_last(path_key, '/')
}

// ---------------------------------------------------------------------
// Names
// ---------------------------------------------------------------------

/// The text with its ASCII letters in lower case.
pub open spec fn folded(text: Chars) -> Chars {
    text.map_values(|character: char| ascii_lower(character))
}

/// The fragment occurs in the text at that place, ASCII letters taken
/// without case.
pub open spec fn occurs_at(text: Chars, fragment: Chars, at: int) -> bool {
    &&& 0 <= at
    &&& at + fragment.len() <= text.len()
    &&& forall|i: int|
        0 <= i < fragment.len() ==> ascii_lower(#[trigger] fragment[i]) == ascii_lower(text[at + i])
}

/// The fragment occurs in the text, ASCII letters taken without case.
pub open spec fn ascii_contains(text: Chars, fragment: Chars) -> bool {
    exists|at: int| #[trigger] occurs_at(text, fragment, at)
}

fn fragment_is_at(text: &[char], fragment: &[char], at: usize) -> (held: bool)
    requires
        at + fragment@.len() <= text@.len(),
    ensures
        held == occurs_at(text@, fragment@, at as int),
{
    let total: usize = text.len();
    let mut i: usize = 0;
    while i < fragment.len()
        invariant
            at + fragment@.len() <= text@.len() == total,
            i <= fragment@.len(),
            forall|k: int|
                0 <= k < i ==> ascii_lower(#[trigger] fragment@[k]) == ascii_lower(text@[at + k]),
        decreases fragment@.len() - i,
    {
        if fold_ascii(fragment[i]) != fold_ascii(text[at + i]) {
            assert(ascii_lower(fragment@[i as int]) != ascii_lower(text@[at + i]));
            return false;
        }
        i = i + 1;
    }
    true
}

/// Whether the fragment occurs in the text, ASCII letters taken without
/// case.
pub fn contains_ascii_folded(text: &str, fragment: &str) -> (held: bool)
    ensures
        held == ascii_contains(text@, fragment@),
{
    let characters = characters_of(text);
    let wanted = characters_of(fragment);
    if wanted.len() > characters.len() {
        return false;
    }
    let last: usize = characters.len() - wanted.len();
    let mut at: usize = 0;
    loop
        invariant
            at <= last == characters@.len() - wanted@.len(),
            characters@ == text@,
            wanted@ == fragment@,
            forall|k: int| 0 <= k < at ==> !#[trigger] occurs_at(text@, fragment@, k),
        decreases last - at,
    {
        if fragment_is_at(characters.as_slice(), wanted.as_slice(), at) {
            return true;
        }
        if at == last {
            return false;
        }
        at = at + 1;
    }
}

// ---------------------------------------------------------------------
// Prefix ranges
// ---------------------------------------------------------------------

/// The least byte sequence that comes after every one that starts with
/// `prefix`: its last byte below the greatest, raised by one.
pub open spec fn upper_bytes(prefix: Seq<u8>) -> Option<Seq<u8>>
    decreases prefix.len(),
{
    if prefix.len() == 0 {
        None
    } else if prefix.last() < 0xff {
        Some(prefix.drop_last().push((prefix.last() + 1) as u8))
    } else {
        upper_bytes(prefix.drop_last())
    }
}

/// The text that ends the range of those that start with `prefix`, where
/// those bytes are text at all.
pub open spec fn upper_bound(prefix: Chars) -> Option<Chars> {
    match upper_bytes(encode_utf8(prefix)) {
        Some(bytes) => if valid_utf8(bytes) {
            Some(decode_utf8(bytes))
        } else {
            None
        },
        None => None,
    }
}

/// The smallest text strictly greater than every text starting with
/// `prefix`, byte by byte; none where the successor is not text.
pub fn prefix_upper_bound(prefix: &str) -> (bound: Option<String>)
    ensures
        crate::text::optional_chars(bound) == upper_bound(prefix@),
{
    let bytes = prefix.as_bytes();
    let mut end: usize = bytes.len();
    assert(bytes@.take(end as int) =~= bytes@);
    while end > 0
        invariant
            end <= bytes@.len(),
            bytes@ == encode_utf8(prefix@),
            upper_bytes(bytes@) == upper_bytes(bytes@.take(end as int)),
        decreases end,
    {
        let last: u8 = bytes[end - 1];
        assert(bytes@.take(end as int).last() == last);
        assert(bytes@.take(end as int).drop_last() =~= bytes@.take(end - 1));
        if last < 255 {
            let mut raised: Vec<u8> = Vec::new();
            let mut at: usize = 0;
            while at < end - 1
                invariant
                    at <= end - 1 < bytes@.len(),
                    raised@ == bytes@.take(at as int),
                decreases end - 1 - at,
            {
                raised.push(bytes[at]);
                at = at + 1;
                assert(raised@ =~= bytes@.take(at as int));
            }
            raised.push(last + 1);
            assert(raised@ =~= bytes@.take(end - 1).push((last + 1) as u8));
            return decode_exact(raised);
        }
        end = end - 1;
    }
    None
}

proof fn lemma_greatest_bytes(prefix: Seq<u8>, bytes: Seq<u8>)
    requires
        forall|i: int| 0 <= i < prefix.len() ==> #[trigger] prefix[i] == 0xff,
    ensures
        prefix.is_prefix_of(bytes) <==> prefix == bytes || bytes_before(prefix, bytes),
    decreases prefix.len(),
{
    if prefix.len() == 0 {
        assert(prefix =~= bytes.subrange(0, 0));
        if bytes.len() == 0 {
            assert(prefix =~= bytes);
        }
    } else if bytes.len() == 0 {
    } else if bytes[0] == 0xff {
        assert forall|i: int| 0 <= i < prefix.skip(1).len() implies #[trigger] prefix.skip(1)[i]
            == 0xff by {
            assert(prefix.skip(1)[i] == prefix[i + 1]);
        }
        lemma_greatest_bytes(prefix.skip(1), bytes.skip(1));
        lemma_prefix_step(prefix, bytes);
    } else {
        lemma_prefix_step(prefix, bytes);
    }
}

proof fn lemma_prefix_step(prefix: Seq<u8>, bytes: Seq<u8>)
    requires
        prefix.len() > 0,
        bytes.len() > 0,
    ensures
        prefix.is_prefix_of(bytes) <==> prefix[0] == bytes[0] && prefix.skip(1).is_prefix_of(
            bytes.skip(1),
        ),
        prefix == bytes <==> prefix[0] == bytes[0] && prefix.skip(1) == bytes.skip(1),
{
    let tail = prefix.skip(1);
    if prefix.is_prefix_of(bytes) {
        assert(prefix[0] == bytes.subrange(0, prefix.len() as int)[0]);
        assert(tail =~= bytes.skip(1).subrange(0, tail.len() as int)) by {
            assert forall|i: int| 0 <= i < tail.len() implies tail[i] == bytes.skip(1)[i] by {
                assert(prefix[i + 1] == bytes.subrange(0, prefix.len() as int)[i + 1]);
            }
        }
    }
    if prefix[0] == bytes[0] && tail.is_prefix_of(bytes.skip(1)) {
        assert(prefix =~= bytes.subrange(0, prefix.len() as int)) by {
            assert forall|i: int| 0 <= i < prefix.len() implies prefix[i] == bytes[i] by {
                if i > 0 {
                    assert(tail[i - 1] == bytes.skip(1).subrange(0, tail.len() as int)[i - 1]);
                }
            }
        }
    }
    if prefix[0] == bytes[0] && tail == bytes.skip(1) {
        assert(prefix =~= seq![prefix[0]] + tail);
        assert(bytes =~= seq![bytes[0]] + bytes.skip(1));
    }
}

proof fn lemma_upper_bytes_shape(prefix: Seq<u8>, upper: Seq<u8>)
    requires
        upper_bytes(prefix) == Some(upper),
    ensures
        0 < upper.len() <= prefix.len(),
        upper == prefix.take(upper.len() - 1).push((prefix[upper.len() - 1] + 1) as u8),
        prefix[upper.len() - 1] < 0xff,
        forall|i: int| upper.len() <= i < prefix.len() ==> #[trigger] prefix[i] == 0xff,
    decreases prefix.len(),
{
    if prefix.last() < 0xff {
        assert(prefix.drop_last() =~= prefix.take(upper.len() - 1));
    } else {
        let shorter = prefix.drop_last();
        lemma_upper_bytes_shape(shorter, upper);
        assert(shorter.take(upper.len() - 1) =~= prefix.take(upper.len() - 1));
        assert forall|i: int| upper.len() <= i < prefix.len() implies #[trigger] prefix[i]
            == 0xff by {
            if i < shorter.len() {
                assert(shorter[i] == prefix[i]);
            }
        }
    }
}

proof fn lemma_byte_range(prefix: Seq<u8>, upper: Seq<u8>, bytes: Seq<u8>)
    requires
        0 < upper.len() <= prefix.len(),
        upper == prefix.take(upper.len() - 1).push((prefix[upper.len() - 1] + 1) as u8),
        prefix[upper.len() - 1] < 0xff,
        forall|i: int| upper.len() <= i < prefix.len() ==> #[trigger] prefix[i] == 0xff,
    ensures
        prefix.is_prefix_of(bytes) <==> (prefix == bytes || bytes_before(prefix, bytes))
            && bytes_before(bytes, upper),
    decreases prefix.len(),
{
    reveal_with_fuel(bytes_before, 2);
    if bytes.len() > 0 {
        lemma_prefix_step(prefix, bytes);
        if upper.len() == 1 {
            assert(upper[0] == prefix[0] + 1);
            assert(upper.skip(1).len() == 0);
            if bytes[0] == prefix[0] {
                assert forall|i: int| 0 <= i < prefix.skip(1).len() implies #[trigger] prefix.skip(
                    1,
                )[i] == 0xff by {
                    assert(prefix.skip(1)[i] == prefix[i + 1]);
                }
                lemma_greatest_bytes(prefix.skip(1), bytes.skip(1));
            }
        } else {
            assert(upper[0] == prefix[0]);
            if bytes[0] == prefix[0] {
                let tail = prefix.skip(1);
                let bound = upper.skip(1);
                assert(bound =~= tail.take(bound.len() - 1).push(
                    (tail[bound.len() - 1] + 1) as u8,
                ));
                assert forall|i: int| bound.len() <= i < tail.len() implies #[trigger] tail[i]
                    == 0xff by {
                    assert(tail[i] == prefix[i + 1]);
                }
                lemma_byte_range(tail, bound, bytes.skip(1));
            }
        }
    }
}

/// A text starts with another exactly when its bytes do.
pub proof fn lemma_prefix_by_bytes(prefix: Chars, text: Chars)
    ensures
        prefix.is_prefix_of(text) <==> encode_utf8(prefix).is_prefix_of(encode_utf8(text)),
{
    let start = encode_utf8(prefix);
    let whole = encode_utf8(text);
    if prefix.is_prefix_of(text) {
        let rest = text.skip(prefix.len() as int);
        assert(text =~= prefix + rest);
        lemma_encode_concat(prefix, rest);
        assert(start =~= whole.subrange(0, start.len() as int));
    }
    if start.is_prefix_of(whole) {
        let cut = start.len() as int;
        let tail = whole.subrange(cut, whole.len() as int);
        encode_utf8_valid_utf8(prefix);
        encode_utf8_valid_utf8(text);
        assert(whole.subrange(0, cut) =~= start);
        if !valid_utf8(tail) {
            partial_valid_partial_invalid_utf8(whole, cut);
        }
        decode_utf8_encode_utf8(tail);
        lemma_encode_concat(prefix, decode_utf8(tail));
        assert(whole =~= start + tail);
        encode_utf8_decode_utf8(text);
        encode_utf8_decode_utf8(prefix + decode_utf8(tail));
        assert(text == prefix + decode_utf8(tail));
        assert(prefix =~= text.subrange(0, prefix.len() as int));
    }
}

/// The texts that start with a prefix are exactly those from the prefix up
/// to its upper bound, where it has one.
pub proof fn lemma_prefix_is_a_range(prefix: Chars, upper: Chars, text: Chars)
    requires
        upper_bound(prefix) == Some(upper),
    ensures
        prefix.is_prefix_of(text) <==> text_le(prefix, text) && text_before(text, upper),
{
    let bytes = upper_bytes(encode_utf8(prefix))->0;
    decode_utf8_encode_utf8(bytes);
    lemma_upper_bytes_shape(encode_utf8(prefix), bytes);
    lemma_byte_range(encode_utf8(prefix), bytes, encode_utf8(text));
    lemma_prefix_by_bytes(prefix, text);
    encode_utf8_decode_utf8(prefix);
    encode_utf8_decode_utf8(text);
}

// ---------------------------------------------------------------------
// LIKE patterns
// ---------------------------------------------------------------------

/// A character that means more than itself in a pattern.
pub open spec fn pattern_character(character: char) -> bool {
    character == '%' || character == '_' || character == '\\'
}

/// The pattern that a literal fragment is.
pub open spec fn escaped_fragment(fragment: Chars) -> Chars
    decreases fragment.len(),
{
    if fragment.len() == 0 {
        Seq::empty()
    } else {
        let before = escaped_fragment(fragment.drop_last());
        if pattern_character(fragment.last()) {
            before.push('\\').push(fragment.last())
        } else {
            before.push(fragment.last())
        }
    }
}

/// Escape a literal fragment for a `LIKE ... ESCAPE '\'` pattern.
pub fn escape_like(fragment: &str) -> (escaped: String)
    ensures
        escaped@ == escaped_fragment(fragment@),
{
    let characters = characters_of(fragment);
    let mut escaped = String::new();
    let mut at: usize = 0;
    assert(fragment@.take(0) =~= Seq::empty());
    while at < characters.len()
        invariant
            at <= characters@.len(),
            characters@ == fragment@,
            escaped@ == escaped_fragment(fragment@.take(at as int)),
        decreases characters@.len() - at,
    {
        let character = characters[at];
        assert(fragment@.take(at + 1).drop_last() =~= fragment@.take(at as int));
        assert(fragment@.take(at + 1).last() == character);
        if character == '%' || character == '_' || character == '\\' {
            escaped.push('\\');
        }
        escaped.push(character);
        at = at + 1;
    }
    assert(fragment@.take(at as int) =~= fragment@);
    escaped
}

/// Whether a pattern matches a text: `%` stands for any characters, `_` for
/// any one, a back slash makes the next character stand for itself, and
/// ASCII letters are taken without case.
pub open spec fn like(pattern: Chars, text: Chars) -> bool
    decreases pattern.len(), text.len(),
{
    if pattern.len() == 0 {
        text.len() == 0
    } else if pattern[0] == '%' {
        like(pattern.skip(1), text) || (text.len() > 0 && like(pattern, text.skip(1)))
    } else if pattern[0] == '\\' {
        pattern.len() > 1 && text.len() > 0 && ascii_lower(pattern[1]) == ascii_lower(text[0])
            && like(pattern.skip(2), text.skip(1))
    } else if pattern[0] == '_' {
        text.len() > 0 && like(pattern.skip(1), text.skip(1))
    } else {
        text.len() > 0 && ascii_lower(pattern[0]) == ascii_lower(text[0]) && like(
            pattern.skip(1),
            text.skip(1),
        )
    }
}

proof fn lemma_escaped_front(character: char, rest: Chars)
    ensures
        escaped_fragment(seq![character] + rest) == (if pattern_character(character) {
            seq!['\\', character]
        } else {
            seq![character]
        }) + escaped_fragment(rest),
    decreases rest.len(),
{
    let whole = seq![character] + rest;
    if rest.len() == 0 {
        assert(whole.drop_last() =~= Seq::empty());
        assert(escaped_fragment(whole.drop_last()) =~= Seq::empty());
        assert(whole.last() == character);
        assert(escaped_fragment(rest) =~= Seq::empty());
        if pattern_character(character) {
            assert(escaped_fragment(whole) =~= seq!['\\', character] + escaped_fragment(rest));
        } else {
            assert(escaped_fragment(whole) =~= seq![character] + escaped_fragment(rest));
        }
    } else {
        assert(whole.drop_last() =~= seq![character] + rest.drop_last());
        assert(whole.last() == rest.last());
        lemma_escaped_front(character, rest.drop_last());
        if pattern_character(character) {
            assert(escaped_fragment(whole) =~= seq!['\\', character] + escaped_fragment(rest));
        } else {
            assert(escaped_fragment(whole) =~= seq![character] + escaped_fragment(rest));
        }
    }
}

proof fn lemma_anything_matches(text: Chars)
    ensures
        like(seq!['%'], text),
    decreases text.len(),
{
    reveal_with_fuel(like, 2);
    let any: Chars = seq!['%'];
    assert(any.skip(1) =~= Seq::<char>::empty());
    if text.len() > 0 {
        lemma_anything_matches(text.skip(1));
    }
}

proof fn lemma_fragment_then_anything(fragment: Chars, text: Chars)
    ensures
        like(escaped_fragment(fragment) + seq!['%'], text) <==> occurs_at(text, fragment, 0),
    decreases fragment.len(),
{
    let pattern = escaped_fragment(fragment) + seq!['%'];
    if fragment.len() == 0 {
        assert(pattern =~= seq!['%']);
        lemma_anything_matches(text);
    } else {
        let first = fragment[0];
        let rest = fragment.skip(1);
        let tail = escaped_fragment(rest) + seq!['%'];
        assert(fragment =~= seq![first] + rest);
        lemma_escaped_front(first, rest);
        if pattern_character(first) {
            assert(pattern[0] == '\\' && pattern[1] == first);
            assert(pattern.skip(2) =~= tail);
        } else {
            assert(pattern[0] == first);
            assert(pattern.skip(1) =~= tail);
        }
        if text.len() > 0 {
            lemma_fragment_then_anything(rest, text.skip(1));
            let later = text.skip(1);
            if occurs_at(text, fragment, 0) {
                assert(ascii_lower(fragment[0]) == ascii_lower(text[0]));
                assert forall|i: int| 0 <= i < rest.len() implies ascii_lower(#[trigger] rest[i])
                    == ascii_lower(later[0 + i]) by {
                    assert(rest[i] == fragment[i + 1]);
                }
                assert(occurs_at(later, rest, 0));
            }
            if ascii_lower(first) == ascii_lower(text[0]) && occurs_at(later, rest, 0) {
                assert forall|i: int| 0 <= i < fragment.len() implies ascii_lower(
                    #[trigger] fragment[i],
                ) == ascii_lower(text[0 + i]) by {
                    if i > 0 {
                        assert(fragment[i] == rest[i - 1]);
                        assert(later[0 + (i - 1)] == text[i]);
                    }
                }
            }
        }
    }
}

/// The pattern made of an escaped fragment between two `%` matches exactly
/// the texts that the fragment occurs in: a fragment is a fragment and not
/// a pattern.
pub proof fn lemma_escaped_fragment_is_literal(fragment: Chars, text: Chars)
    ensures
        like(seq!['%'] + escaped_fragment(fragment) + seq!['%'], text) <==> ascii_contains(
            text,
            fragment,
        ),
    decreases text.len(),
{
    let tail = escaped_fragment(fragment) + seq!['%'];
    let pattern = seq!['%'] + escaped_fragment(fragment) + seq!['%'];
    assert(pattern.skip(1) =~= tail);
    lemma_fragment_then_anything(fragment, text);
    if text.len() > 0 {
        let later = text.skip(1);
        lemma_escaped_fragment_is_literal(fragment, later);
        if ascii_contains(later, fragment) {
            let at = choose|at: int| #[trigger] occurs_at(later, fragment, at);
            assert forall|i: int| 0 <= i < fragment.len() implies ascii_lower(
                #[trigger] fragment[i],
            ) == ascii_lower(text[(at + 1) + i]) by {
                assert(later[at + i] == text[at + 1 + i]);
            }
            assert(occurs_at(text, fragment, at + 1));
        }
        if ascii_contains(text, fragment) && !occurs_at(text, fragment, 0) {
            let at = choose|at: int| #[trigger] occurs_at(text, fragment, at);
            assert forall|i: int| 0 <= i < fragment.len() implies ascii_lower(
                #[trigger] fragment[i],
            ) == ascii_lower(later[(at - 1) + i]) by {
                assert(later[at - 1 + i] == text[at + i]);
            }
            assert(occurs_at(later, fragment, at - 1));
        }
    } else {
        if ascii_contains(text, fragment) {
            let at = choose|at: int| #[trigger] occurs_at(text, fragment, at);
            assert(at == 0);
        }
    }
}

} // verus!

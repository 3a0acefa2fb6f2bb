//! Text as sequences of characters.
//!
//! Every contract of the crate that speaks of text speaks of its characters;
//! the functions here move between `str` values and those sequences, and
//! hold the few operations on them that the rest of the crate is built from.

use vstd::prelude::*;
use vstd::utf8::*;

verus! {

/// The characters of a text.
pub type Chars = Seq<char>;

// ---------------------------------------------------------------------
// Trusted text primitives
// ---------------------------------------------------------------------

/// `String::push`: appends the character at the end.
pub assume_specification[ String::push ](text: &mut String, character: char)
    ensures
        final(text)@ == old(text)@.push(character),
;

/// What `char::is_alphabetic` answers: the Unicode `Alphabetic` property.
pub uninterp spec fn alphabetic(character: char) -> bool;

/// What `char::is_alphanumeric` answers: `Alphabetic` or a Unicode number.
pub uninterp spec fn alphanumeric(character: char) -> bool;

/// What `char::is_whitespace` answers: the Unicode `White_Space` property.
pub uninterp spec fn whitespace(character: char) -> bool;

/// `char::is_alphabetic`, whose answer is named by [`alphabetic`]. Of the
/// ASCII characters it accepts exactly the letters.
#[verifier::external_body]
pub(crate) fn is_alphabetic(character: char) -> (answer: bool)
    ensures
        answer == alphabetic(character),
        (character as u32) < 128 ==> answer == ascii_letter(character),
{
    character.is_alphabetic()
}

/// `char::is_alphanumeric`, whose answer is named by [`alphanumeric`]. Of
/// the ASCII characters it accepts exactly the letters and the digits.
#[verifier::external_body]
pub(crate) fn is_alphanumeric(character: char) -> (answer: bool)
    ensures
        answer == alphanumeric(character),
        (character as u32) < 128 ==> answer == (ascii_letter(character) || ascii_digit(character)),
{
    character.is_alphanumeric()
}

/// `char::is_whitespace`, whose answer is named by [`whitespace`]. Of the
/// ASCII characters it accepts the space and the controls from tab to
/// carriage return.
#[verifier::external_body]
pub(crate) fn is_whitespace(character: char) -> (answer: bool)
    ensures
        answer == whitespace(character),
        (character as u32) < 128 ==> answer == (character == ' ' || '\t' <= character <= '\r'),
{
    character.is_whitespace()
}

/// What `String::from_utf8_lossy` makes of `bytes`.
pub uninterp spec fn lossy_text(bytes: Seq<u8>) -> Seq<char>;

/// `String::from_utf8_lossy`, named by [`lossy_text`]: valid UTF-8 is
/// decoded unchanged.
#[verifier::external_body]
pub(crate) fn decode_lossy(bytes: &[u8]) -> (text: String)
    ensures
        text@ == lossy_text(bytes@),
        valid_utf8(bytes@) ==> text@ == decode_utf8(bytes@),
{
    String::from_utf8_lossy(bytes).into_owned()
}

/// `String::from_utf8`: the text that the bytes encode, exactly when they
/// are valid UTF-8.
#[verifier::external_body]
pub(crate) fn decode_exact(bytes: Vec<u8>) -> (text: Option<String>)
    ensures
        text is Some <==> valid_utf8(bytes@),
        text matches Some(held) ==> held@ == decode_utf8(bytes@),
{
    String::from_utf8(bytes).ok()
}

/// What the standard library's debugging form of a text is: the text in
/// quotes, with what is not printable escaped.
pub uninterp spec fn debug_form(text: Seq<char>) -> Seq<char>;

/// `Debug` of `str`, through `format!`: the debugging form of the text.
#[verifier::external_body]
pub(crate) fn quoted(text: &str) -> (form: String)
    ensures
        form@ == debug_form(text@),
{
    format!("{text:?}")
}

// ---------------------------------------------------------------------
// Character classes
// ---------------------------------------------------------------------

pub open spec fn ascii_letter(character: char) -> bool {
    'a' <= character <= 'z' || 'A' <= character <= 'Z'
}

pub open spec fn ascii_digit(character: char) -> bool {
    '0' <= character <= '9'
}

/// An ASCII letter folded to lower case, everything else unchanged.
pub open spec fn ascii_lower(character: char) -> char {
    if 'A' <= character <= 'Z' {
        ((character as u32) + 32) as char
    } else {
        character
    }
}

pub fn fold_ascii(character: char) -> (folded: char)
    ensures
        folded == ascii_lower(character),
{
    if 'A' <= character && character <= 'Z' {
        let code: u8 = character as u8;
        (code + 32) as char
    } else {
        character
    }
}

// ---------------------------------------------------------------------
// Conversion
// ---------------------------------------------------------------------

/// The characters of `text`, in order.
pub fn characters_of(text: &str) -> (characters: Vec<char>)
    ensures
        characters@ == text@,
{
    let mut characters: Vec<char> = Vec::new();
    for character in it: text.chars()
        invariant
            it.seq() == text@,
            characters@ == text@.take(it.index()),
    {
        characters.push(character);
        assert(characters@ =~= text@.take(it.index() + 1));
    }
    assert(text@.take(text@.len() as int) =~= text@);
    characters
}

/// The text made of the characters from `start` up to `end`.
pub fn slice_text(characters: &[char], start: usize, end: usize) -> (text: String)
    requires
        start <= end <= characters@.len(),
    ensures
        text@ == characters@.subrange(start as int, end as int),
{
    let mut text = String::new();
    let mut at: usize = start;
    while at < end
        invariant
            start <= at <= end <= characters@.len(),
            text@ == characters@.subrange(start as int, at as int),
        decreases end - at,
    {
        text.push(characters[at]);
        at = at + 1;
        assert(text@ =~= characters@.subrange(start as int, at as int));
    }
    text
}

/// The text made of `characters`.
pub fn text_of(characters: &[char]) -> (text: String)
    ensures
        text@ == characters@,
{
    let text = slice_text(characters, 0, characters.len());
    assert(text@ =~= characters@);
    text
}

/// `a` followed by `b`.
pub fn joined(a: &str, b: &str) -> (text: String)
    ensures
        text@ == a@ + b@,
{
    let mut text = a.to_owned();
    text.append(b);
    text
}

/// The optional text, as a text of its own.
pub fn copy_optional(text: &Option<String>) -> (copy: Option<String>)
    ensures
        copy == *text,
{
    match text {
        Some(held) => Some(held.clone()),
        None => None,
    }
}

/// The characters of an optional text.
pub open spec fn optional_chars(text: Option<String>) -> Option<Chars> {
    match text {
        Some(held) => Some(held@),
        None => None,
    }
}

/// The characters of an optional text, where an absent one has none.
pub open spec fn chars_or_empty(text: Option<String>) -> Chars {
    match text {
        Some(held) => held@,
        None => Seq::empty(),
    }
}

/// The characters of each text.
pub open spec fn all_chars(texts: Seq<String>) -> Seq<Chars> {
    texts.map_values(|text: String| text@)
}

/// The optional text, or an empty one.
pub fn or_empty(text: &Option<String>) -> (held: String)
    ensures
        held@ == chars_or_empty(*text),
{
    match text {
        Some(held) => held.clone(),
        None => String::new(),
    }
}

/// The bytes of two texts in a row are the bytes of each in a row.
pub proof fn lemma_encode_concat(a: Chars, b: Chars)
    ensures
        encode_utf8(a + b) == encode_utf8(a) + encode_utf8(b),
    decreases a.len(),
{
    if a.len() == 0 {
        assert(a + b =~= b);
        assert(encode_utf8(a) + encode_utf8(b) =~= encode_utf8(b));
    } else {
        assert((a + b).drop_first() =~= a.drop_first() + b);
        lemma_encode_concat(a.drop_first(), b);
        assert(encode_utf8(a + b) =~= encode_utf8(a) + encode_utf8(b));
    }
}

// ---------------------------------------------------------------------
// Comparison
// ---------------------------------------------------------------------

/// Whether two texts have the same characters.
pub fn same_text(a: &str, b: &str) -> (same: bool)
    ensures
        same == (a@ == b@),
{
    let left = a.as_bytes();
    let right = b.as_bytes();
    proof {
        encode_utf8_decode_utf8(a@);
        encode_utf8_decode_utf8(b@);
    }
    if left.len() != right.len() {
        return false;
    }
    let mut at: usize = 0;
    while at < left.len()
        invariant
            at <= left@.len() == right@.len(),
            left@ == encode_utf8(a@),
            right@ == encode_utf8(b@),
            left@.take(at as int) == right@.take(at as int),
        decreases left@.len() - at,
    {
        if left[at] != right[at] {
            return false;
        }
        at = at + 1;
        assert(left@.take(at as int) =~= left@.take(at - 1).push(left@[at - 1]));
        assert(right@.take(at as int) =~= right@.take(at - 1).push(right@[at - 1]));
    }
    assert(left@ =~= left@.take(at as int));
    assert(right@ =~= right@.take(at as int));
    true
}

/// Whether two optional texts are both absent or have the same characters.
pub fn same_optional(a: &Option<String>, b: &Option<String>) -> (same: bool)
    ensures
        same == (optional_chars(*a) == optional_chars(*b)),
{
    match (a, b) {
        (Some(left), Some(right)) => same_text(left.as_str(), right.as_str()),
        (None, None) => true,
        _ => false,
    }
}

/// The byte-wise order of two texts, strict: the order of `str`.
pub open spec fn bytes_before(a: Seq<u8>, b: Seq<u8>) -> bool
    decreases a.len(),
{
    if b.len() == 0 {
        false
    } else if a.len() == 0 {
        true
    } else if a[0] != b[0] {
        a[0] < b[0]
    } else {
        bytes_before(a.skip(1), b.skip(1))
    }
}

/// `a` comes strictly before `b` in the order of `str`.
pub open spec fn text_before(a: Chars, b: Chars) -> bool {
    bytes_before(encode_utf8(a), encode_utf8(b))
}

/// `a` comes before `b` in the order of `str`, or is the same text.
pub open spec fn text_le(a: Chars, b: Chars) -> bool {
    a == b || text_before(a, b)
}

pub fn is_before(a: &str, b: &str) -> (before: bool)
    ensures
        before == text_before(a@, b@),
{
    let left = a.as_bytes();
    let right = b.as_bytes();
    let mut at: usize = 0;
    assert(left@.skip(0) =~= left@);
    assert(right@.skip(0) =~= right@);
    while at < left.len() && at < right.len()
        invariant
            at <= left@.len(),
            at <= right@.len(),
            left@ == encode_utf8(a@),
            right@ == encode_utf8(b@),
            bytes_before(left@, right@) == bytes_before(
                left@.skip(at as int),
                right@.skip(at as int),
            ),
        decreases left@.len() - at,
    {
        if left[at] != right[at] {
            return left[at] < right[at];
        }
        assert(left@.skip(at as int).skip(1) =~= left@.skip(at + 1));
        assert(right@.skip(at as int).skip(1) =~= right@.skip(at + 1));
        at = at + 1;
    }
    left.len() < right.len()
}

proof fn lemma_bytes_before_irreflexive(a: Seq<u8>)
    ensures
        !bytes_before(a, a),
    decreases a.len(),
{
    if a.len() > 0 {
        lemma_bytes_before_irreflexive(a.skip(1));
    }
}

proof fn lemma_bytes_before_transitive(a: Seq<u8>, b: Seq<u8>, c: Seq<u8>)
    requires
        bytes_before(a, b),
        bytes_before(b, c),
    ensures
        bytes_before(a, c),
    decreases a.len(),
{
    if a.len() > 0 && a[0] == b[0] && b[0] == c[0] {
        lemma_bytes_before_transitive(a.skip(1), b.skip(1), c.skip(1));
    }
}

proof fn lemma_bytes_before_total(a: Seq<u8>, b: Seq<u8>)
    requires
        a != b,
    ensures
        bytes_before(a, b) || bytes_before(b, a),
    decreases a.len(),
{
    if a.len() > 0 && b.len() > 0 && a[0] == b[0] {
        if a.skip(1) == b.skip(1) {
            assert(a =~= seq![a[0]] + a.skip(1));
            assert(b =~= seq![b[0]] + b.skip(1));
        }
        lemma_bytes_before_total(a.skip(1), b.skip(1));
    } else if a.len() == 0 && b.len() == 0 {
        assert(a =~= b);
    }
}

/// The order of `str` is a strict total order on texts.
pub proof fn lemma_text_order_is_total(a: Chars, b: Chars, c: Chars)
    ensures
        !text_before(a, a),
        a != b ==> text_before(a, b) || text_before(b, a),
        !(text_before(a, b) && text_before(b, a)),
        text_before(a, b) && text_before(b, c) ==> text_before(a, c),
{
    lemma_bytes_before_irreflexive(encode_utf8(a));
    if a != b {
        encode_utf8_decode_utf8(a);
        encode_utf8_decode_utf8(b);
        lemma_bytes_before_total(encode_utf8(a), encode_utf8(b));
    }
    if text_before(a, b) && text_before(b, a) {
        lemma_bytes_before_transitive(encode_utf8(a), encode_utf8(b), encode_utf8(a));
    }
    if text_before(a, b) && text_before(b, c) {
        lemma_bytes_before_transitive(encode_utf8(a), encode_utf8(b), encode_utf8(c));
    }
}

proof fn lemma_bytes_before_shared(start: Seq<u8>, a: Seq<u8>, b: Seq<u8>)
    ensures
        bytes_before(start + a, start + b) == bytes_before(a, b),
    decreases start.len(),
{
    if start.len() == 0 {
        assert(start + a =~= a);
        assert(start + b =~= b);
    } else {
        assert((start + a).skip(1) =~= start.skip(1) + a);
        assert((start + b).skip(1) =~= start.skip(1) + b);
        lemma_bytes_before_shared(start.skip(1), a, b);
    }
}

/// A start that two texts share does not decide between them.
pub proof fn lemma_a_shared_start_does_not_order(start: Chars, a: Chars, b: Chars)
    ensures
        text_before(start + a, start + b) == text_before(a, b),
{
    lemma_encode_concat(start, a);
    lemma_encode_concat(start, b);
    lemma_bytes_before_shared(encode_utf8(start), encode_utf8(a), encode_utf8(b));
}

// ---------------------------------------------------------------------
// Prefixes and suffixes
// ---------------------------------------------------------------------

/// Whether `text` starts with the characters of `prefix`.
pub fn has_prefix(text: &[char], prefix: &[char]) -> (held: bool)
    ensures
        held == prefix@.is_prefix_of(text@),
{
    if prefix.len() > text.len() {
        return false;
    }
    let mut at: usize = 0;
    while at < prefix.len()
        invariant
            at <= prefix@.len() <= text@.len(),
            forall|i: int| 0 <= i < at ==> prefix@[i] == text@[i],
        decreases prefix@.len() - at,
    {
        if text[at] != prefix[at] {
            assert(text@.subrange(0, prefix@.len() as int)[at as int] != prefix@[at as int]);
            return false;
        }
        at = at + 1;
    }
    assert(prefix@ =~= text@.subrange(0, prefix@.len() as int));
    true
}

/// Whether `text` ends with the characters of `suffix`.
pub fn has_suffix(text: &[char], suffix: &[char]) -> (held: bool)
    ensures
        held == suffix@.is_suffix_of(text@),
{
    if suffix.len() > text.len() {
        return false;
    }
    let total: usize = text.len();
    let start: usize = total - suffix.len();
    let mut at: usize = 0;
    while at < suffix.len()
        invariant
            at <= suffix@.len() <= text@.len(),
            total == text@.len(),
            start == total - suffix@.len(),
            forall|i: int| 0 <= i < at ==> suffix@[i] == text@[start + i],
        decreases suffix@.len() - at,
    {
        if text[start + at] != suffix[at] {
            assert(text@.subrange(start as int, text@.len() as int)[at as int] != suffix@[at as int]);
            return false;
        }
        at = at + 1;
    }
    assert(suffix@ =~= text@.subrange(start as int, text@.len() as int));
    true
}

/// Whether `text` starts with `prefix`.
pub fn text_starts_with(text: &str, prefix: &str) -> (held: bool)
    ensures
        held == prefix@.is_prefix_of(text@),
{
    let characters = characters_of(text);
    let wanted = characters_of(prefix);
    has_prefix(characters.as_slice(), wanted.as_slice())
}

/// Whether the character occurs in the text.
pub fn holds_character(text: &[char], wanted: char) -> (held: bool)
    ensures
        held == text@.contains(wanted),
{
    let mut at: usize = 0;
    while at < text.len()
        invariant
            at <= text@.len(),
            forall|i: int| 0 <= i < at ==> text@[i] != wanted,
        decreases text@.len() - at,
    {
        if text[at] == wanted {
            return true;
        }
        at = at + 1;
    }
    false
}

// ---------------------------------------------------------------------
// Splitting and joining
// ---------------------------------------------------------------------

/// The pieces of `text` between the occurrences of `separator`, the empty
/// ones among them: one more than there are separators.
pub open spec fn split(text: Chars, separator: char) -> Seq<Chars>
    decreases text.len(),
{
    if text.len() == 0 {
        seq![Seq::<char>::empty()]
    } else {
        let pieces = split(text.drop_last(), separator);
        if text.last() == separator {
            pieces.push(Seq::<char>::empty())
        } else {
            pieces.drop_last().push(pieces.last().push(text.last()))
        }
    }
}

/// The pieces, with `separator` between each and the next.
pub open spec fn join(pieces: Seq<Chars>, separator: Chars) -> Chars
    decreases pieces.len(),
{
    if pieces.len() == 0 {
        Seq::empty()
    } else if pieces.len() == 1 {
        pieces[0]
    } else {
        join(pieces.drop_last(), separator) + separator + pieces.last()
    }
}

/// Splitting leaves no separator in a piece, and joining the pieces again
/// gives the text back.
pub proof fn lemma_split_then_join(text: Chars, separator: char)
    ensures
        split(text, separator).len() >= 1,
        forall|i: int|
            0 <= i < split(text, separator).len() ==> !(#[trigger] split(
                text,
                separator,
            )[i]).contains(separator),
        join(split(text, separator), seq![separator]) == text,
    decreases text.len(),
{
    let pieces = split(text, separator);
    let between = seq![separator];
    if text.len() == 0 {
        assert(join(pieces, between) =~= text);
    } else {
        let rest = text.drop_last();
        let before = split(rest, separator);
        lemma_split_then_join(rest, separator);
        if text.last() == separator {
            assert(pieces.drop_last() =~= before);
            assert(join(pieces, between) =~= join(before, between) + between);
            assert(text =~= rest + between);
        } else {
            let last = before.last().push(text.last());
            assert forall|i: int| 0 <= i < pieces.len() implies !(#[trigger] pieces[i]).contains(
                separator,
            ) by {
                if i < pieces.len() - 1 {
                    assert(pieces[i] == before[i]);
                } else {
                    assert(pieces[i] == last);
                    assert(before.last() == before[before.len() - 1]);
                    assert forall|j: int| 0 <= j < last.len() implies last[j] != separator by {
                        if j < before.last().len() {
                            assert(before.last()[j] == last[j]);
                            assert(before.last().contains(last[j]));
                        }
                    }
                }
            }
            assert(pieces.drop_last() =~= before.drop_last());
            if before.len() == 1 {
                assert(join(pieces, between) =~= text);
            } else {
                assert(join(before, between) == join(before.drop_last(), between) + between
                    + before.last());
                assert(join(pieces, between) == join(before.drop_last(), between) + between + last);
                assert(join(pieces, between) =~= rest.push(text.last()));
            }
            assert(text =~= rest.push(text.last()));
        }
    }
}

/// Splitting at a separator splits what lies on either side of it.
pub proof fn lemma_split_around(before: Chars, after: Chars, separator: char)
    ensures
        split(before.push(separator) + after, separator) == split(before, separator) + split(
            after,
            separator,
        ),
    decreases after.len(),
{
    let whole = before.push(separator) + after;
    if after.len() == 0 {
        assert(whole =~= before.push(separator));
        assert(whole.drop_last() =~= before);
        assert(split(whole, separator) =~= split(before, separator) + split(after, separator));
    } else {
        let rest = after.drop_last();
        lemma_split_around(before, rest, separator);
        lemma_split_then_join(rest, separator);
        assert(whole.drop_last() =~= before.push(separator) + rest);
        assert(whole.last() == after.last());
        assert(split(whole, separator) =~= split(before, separator) + split(after, separator));
    }
}

proof fn lemma_split_one(piece: Chars, separator: char)
    requires
        !piece.contains(separator),
    ensures
        split(piece, separator) == seq![piece],
    decreases piece.len(),
{
    if piece.len() == 0 {
        assert(piece =~= Seq::empty());
    } else {
        let rest = piece.drop_last();
        assert(piece[piece.len() - 1] == piece.last());
        assert forall|i: int| 0 <= i < rest.len() implies rest[i] != separator by {
            assert(piece[i] == rest[i]);
        }
        lemma_split_one(rest, separator);
        assert(rest.push(piece.last()) =~= piece);
        assert(split(piece, separator) =~= seq![piece]);
    }
}

/// Joining pieces that hold no separator, and splitting them again, gives
/// the pieces back.
pub proof fn lemma_join_then_split(pieces: Seq<Chars>, separator: char)
    requires
        pieces.len() > 0,
        forall|i: int| 0 <= i < pieces.len() ==> !(#[trigger] pieces[i]).contains(separator),
    ensures
        split(join(pieces, seq![separator]), separator) == pieces,
    decreases pieces.len(),
{
    if pieces.len() == 1 {
        lemma_split_one(pieces[0], separator);
        assert(pieces =~= seq![pieces[0]]);
    } else {
        let rest = pieces.drop_last();
        assert forall|i: int| 0 <= i < rest.len() implies !(#[trigger] rest[i]).contains(
            separator,
        ) by {
            assert(rest[i] == pieces[i]);
        }
        lemma_join_then_split(rest, separator);
        let start = join(rest, seq![separator]);
        assert(pieces.last() == pieces[pieces.len() - 1]);
        lemma_split_one(pieces.last(), separator);
        lemma_split_around(start, pieces.last(), separator);
        assert(join(pieces, seq![separator]) =~= start.push(separator) + pieces.last());
        assert(rest + seq![pieces.last()] =~= pieces);
    }
}

/// The pieces of `text` between the occurrences of `separator`.
pub fn split_text(text: &[char], separator: char) -> (pieces: Vec<String>)
    ensures
        all_chars(pieces@) == split(text@, separator),
        pieces@.len() >= 1,
{
    let mut pieces: Vec<String> = Vec::new();
    let mut current = String::new();
    let mut at: usize = 0;
    proof {
        assert(all_chars(pieces@) =~= Seq::empty());
        assert(text@.take(0) =~= Seq::empty());
        assert(Seq::<Chars>::empty().push(current@) =~= split(text@.take(0), separator));
    }
    while at < text.len()
        invariant
            at <= text@.len(),
            all_chars(pieces@).push(current@) == split(text@.take(at as int), separator),
        decreases text@.len() - at,
    {
        let ghost held = all_chars(pieces@);
        let ghost tail = current@;
        let character = text[at];
        assert(text@.take(at + 1).drop_last() =~= text@.take(at as int));
        assert(text@.take(at + 1).last() == character);
        assert(held.push(tail).drop_last() =~= held);
        assert(held.push(tail).last() == tail);
        if character == separator {
            pieces.push(current);
            current = String::new();
            assert(all_chars(pieces@) =~= held.push(tail));
        } else {
            current.push(character);
        }
        at = at + 1;
    }
    assert(text@.take(at as int) =~= text@);
    let ghost held = all_chars(pieces@);
    let ghost tail = current@;
    pieces.push(current);
    assert(all_chars(pieces@) =~= held.push(tail));
    pieces
}

/// The pieces, with `separator` between each and the next.
pub fn join_texts(pieces: &[String], separator: &str) -> (text: String)
    ensures
        text@ == join(all_chars(pieces@), separator@),
{
    let mut text = String::new();
    let mut at: usize = 0;
    let ghost all = all_chars(pieces@);
    assert(all.take(0) =~= Seq::empty());
    while at < pieces.len()
        invariant
            at <= pieces@.len(),
            all == all_chars(pieces@),
            text@ == join(all.take(at as int), separator@),
        decreases pieces@.len() - at,
    {
        assert(all.take(at + 1).drop_last() =~= all.take(at as int));
        assert(all.take(at + 1).last() == pieces@[at as int]@);
        if at > 0 {
            text.append(separator);
        } else {
            assert(text@ =~= Seq::empty());
            assert(Seq::<char>::empty() + pieces@[0]@ =~= pieces@[0]@);
        }
        text.append(pieces[at].as_str());
        at = at + 1;
    }
    assert(all.take(at as int) =~= all);
    text
}

/// What follows the last `separator` of `text`, or the whole of it.
pub open spec fn last_piece(text: Chars, separator: char) -> Chars {
    split(text, separator).last()
}

/// What follows the last `separator` of `text`, or the whole of it.
pub fn after_last(text: &str, separator: char) -> (piece: String)
    ensures
        piece@ == last_piece(text@, separator),
{
    let characters = characters_of(text);
    let mut pieces = split_text(characters.as_slice(), separator);
    let ghost all = all_chars(pieces@);
    assert(all.last() == pieces@.last()@);
    match pieces.pop() {
        Some(piece) => piece,
        None => String::new(),
    }
}

/// What precedes the last `separator` of `text`, if it holds one.
pub open spec fn before_last(text: Chars, separator: char) -> Option<Chars>
    decreases text.len(),
{
    if text.len() == 0 {
        None
    } else if text.last() == separator {
        Some(text.drop_last())
    } else {
        before_last(text.drop_last(), separator)
    }
}

/// What precedes the last separator is all that was put before it.
pub proof fn lemma_before_last(before: Chars, after: Chars, separator: char)
    requires
        !after.contains(separator),
    ensures
        before_last(before.push(separator) + after, separator) == Some(before),
    decreases after.len(),
{
    let whole = before.push(separator) + after;
    if after.len() == 0 {
        assert(whole =~= before.push(separator));
        assert(whole.drop_last() =~= before);
    } else {
        let rest = after.drop_last();
        assert(after[after.len() - 1] == after.last());
        assert forall|i: int| 0 <= i < rest.len() implies rest[i] != separator by {
            assert(after[i] == rest[i]);
        }
        lemma_before_last(before, rest, separator);
        assert(whole.drop_last() =~= before.push(separator) + rest);
        assert(whole.last() == after.last());
    }
}

/// What precedes the last `separator` of `text`, if it holds one.
pub fn up_to_last(text: &str, separator: char) -> (piece: Option<String>)
    ensures
        optional_chars(piece) == before_last(text@, separator),
{
    let characters = characters_of(text);
    let mut at: usize = characters.len();
    assert(text@.take(at as int) =~= text@);
    while at > 0
        invariant
            at <= characters@.len(),
            characters@ == text@,
            before_last(text@, separator) == before_last(text@.take(at as int), separator),
        decreases at,
    {
        assert(text@.take(at as int).drop_last() =~= text@.take(at - 1));
        if characters[at - 1] == separator {
            let piece = slice_text(characters.as_slice(), 0, at - 1);
            assert(piece@ =~= text@.take(at - 1));
            return Some(piece);
        }
        at = at - 1;
    }
    None
}

// ---------------------------------------------------------------------
// White space
// ---------------------------------------------------------------------

/// The text without the white space at its start.
pub open spec fn trimmed_start(text: Chars) -> Chars
    decreases text.len(),
{
    if text.len() > 0 && whitespace(text[0]) {
        trimmed_start(text.skip(1))
    } else {
        text
    }
}

/// The text without the white space at its end.
pub open spec fn trimmed_end(text: Chars) -> Chars
    decreases text.len(),
{
    if text.len() > 0 && whitespace(text.last()) {
        trimmed_end(text.drop_last())
    } else {
        text
    }
}

/// The text without the white space at either end.
pub open spec fn trimmed(text: Chars) -> Chars {
    trimmed_end(trimmed_start(text))
}

/// The text without the white space at either end.
pub fn trim_text(text: &str) -> (inner: String)
    ensures
        inner@ == trimmed(text@),
{
    let characters = characters_of(text);
    let mut start: usize = 0;
    assert(text@.skip(0) =~= text@);
    while start < characters.len() && is_whitespace(characters[start])
        invariant
            start <= characters@.len(),
            characters@ == text@,
            trimmed_start(text@) == trimmed_start(text@.skip(start as int)),
        decreases characters@.len() - start,
    {
        assert(text@.skip(start as int).skip(1) =~= text@.skip(start + 1));
        start = start + 1;
    }
    let ghost rest = text@.skip(start as int);
    assert(trimmed_start(text@) == rest);
    let mut end: usize = characters.len();
    assert(text@.subrange(start as int, end as int) =~= rest);
    while end > start && is_whitespace(characters[end - 1])
        invariant
            start <= end <= characters@.len(),
            characters@ == text@,
            trimmed_end(rest) == trimmed_end(text@.subrange(start as int, end as int)),
        decreases end,
    {
        assert(text@.subrange(start as int, end as int).drop_last() =~= text@.subrange(
            start as int,
            end - 1,
        ));
        end = end - 1;
    }
    slice_text(characters.as_slice(), start, end)
}

// ---------------------------------------------------------------------
// Sorting
// ---------------------------------------------------------------------

/// Each text comes before the next, or is the same.
pub open spec fn in_text_order(texts: Seq<Chars>) -> bool {
    forall|i: int, j: int| 0 <= i <= j < texts.len() ==> text_le(texts[i], texts[j])
}

/// `texts` in the order of `str`: the one arrangement of the same texts
/// in which none comes before its predecessor.
pub open spec fn is_sorting_of(sorted: Seq<Chars>, texts: Seq<Chars>) -> bool {
    in_text_order(sorted) && sorted.to_multiset() == texts.to_multiset()
}

proof fn lemma_text_le_orders(leq: spec_fn(Chars, Chars) -> bool)
    requires
        leq == (|x: Chars, y: Chars| text_le(x, y)),
    ensures
        vstd::relations::total_ordering(leq),
{
    assert forall|x: Chars, y: Chars, z: Chars|
        #![trigger leq(x, y), leq(y, z)]
        #![trigger leq(x, y), leq(x, z)]
        leq(x, y) && leq(y, z) implies leq(x, z) by {
        lemma_text_order_is_total(x, y, z);
    }
    assert forall|x: Chars, y: Chars| #[trigger] leq(x, y) && #[trigger] leq(y, x) implies x
        == y by {
        lemma_text_order_is_total(x, y, x);
    }
    assert forall|x: Chars, y: Chars| #[trigger] leq(x, y) || #[trigger] leq(y, x) by {
        lemma_text_order_is_total(x, y, x);
    }
}

/// There is one sorting of any sequence of texts.
pub proof fn lemma_sorting_is_unique(a: Seq<Chars>, b: Seq<Chars>, texts: Seq<Chars>)
    requires
        is_sorting_of(a, texts),
        is_sorting_of(b, texts),
    ensures
        a == b,
{
    let leq = |x: Chars, y: Chars| text_le(x, y);
    lemma_text_le_orders(leq);
    assert(vstd::relations::sorted_by(a, leq));
    assert(vstd::relations::sorted_by(b, leq));
    vstd::seq_lib::lemma_sorted_unique(a, b, leq);
}

/// The texts in the order of `str`.
pub open spec fn sorting(texts: Seq<Chars>) -> Seq<Chars> {
    choose|sorted: Seq<Chars>| is_sorting_of(sorted, texts)
}

/// Every sequence of texts has a sorting, and [`sorting`] names it.
pub proof fn lemma_sorting_exists(texts: Seq<Chars>)
    ensures
        is_sorting_of(sorting(texts), texts),
{
    let leq = |x: Chars, y: Chars| text_le(x, y);
    lemma_text_le_orders(leq);
    texts.lemma_sort_by_ensures(leq);
    let sorted = texts.sort_by(leq);
    assert forall|i: int, j: int| 0 <= i <= j < sorted.len() implies text_le(
        sorted[i],
        sorted[j],
    ) by {
        if i < j {
            assert(leq(sorted[i], sorted[j]));
        } else {
            lemma_text_order_is_total(sorted[i], sorted[j], sorted[i]);
        }
    }
    assert(is_sorting_of(sorted, texts));
}

/// Any sorting of the texts is the one that [`sorting`] names.
pub proof fn lemma_sorting(sorted: Seq<Chars>, texts: Seq<Chars>)
    requires
        is_sorting_of(sorted, texts),
    ensures
        sorted == sorting(texts),
{
    lemma_sorting_is_unique(sorted, sorting(texts), texts);
}

proof fn lemma_mapped_permutation(a: Seq<Chars>, b: Seq<Chars>, change: spec_fn(Chars) -> Chars)
    requires
        a.to_multiset() == b.to_multiset(),
    ensures
        a.map_values(change).to_multiset() == b.map_values(change).to_multiset(),
    decreases a.len(),
{
    vstd::seq_lib::to_multiset_len(a);
    vstd::seq_lib::to_multiset_len(b);
    if a.len() == 0 {
        assert(a.map_values(change) =~= b.map_values(change));
    } else {
        let item = a.last();
        let rest = a.drop_last();
        assert(rest.push(item) =~= a);
        assert(a[a.len() - 1] == item);
        vstd::seq_lib::to_multiset_contains(a, item);
        vstd::seq_lib::to_multiset_contains(b, item);
        let at = choose|at: int| 0 <= at < b.len() && b[at] == item;
        let others = b.remove(at);
        vstd::seq_lib::to_multiset_build(rest, item);
        vstd::seq_lib::to_multiset_remove(b, at);
        assert(rest.to_multiset() =~= others.to_multiset());
        lemma_mapped_permutation(rest, others, change);
        assert(a.map_values(change) =~= rest.map_values(change).push(change(item)));
        assert(others.map_values(change) =~= b.map_values(change).remove(at));
        vstd::seq_lib::to_multiset_build(rest.map_values(change), change(item));
        vstd::seq_lib::to_multiset_remove(b.map_values(change), at);
        vstd::seq_lib::to_multiset_contains(b.map_values(change), change(item));
        assert(b.map_values(change)[at] == change(item));
        assert(a.map_values(change).to_multiset() =~= b.map_values(change).to_multiset());
    }
}

/// Putting the same start before every text does not change their order.
pub proof fn lemma_sorting_with_a_shared_start(texts: Seq<Chars>, start: Chars)
    ensures
        sorting(texts.map_values(|text: Chars| start + text)) == sorting(texts).map_values(
            |text: Chars| start + text,
        ),
{
    let extend = |text: Chars| start + text;
    lemma_sorting_exists(texts);
    let sorted = sorting(texts);
    let longer = sorted.map_values(extend);
    assert forall|i: int, j: int| 0 <= i <= j < longer.len() implies text_le(
        longer[i],
        longer[j],
    ) by {
        assert(text_le(sorted[i], sorted[j]));
        lemma_a_shared_start_does_not_order(start, sorted[i], sorted[j]);
    }
    lemma_mapped_permutation(sorted, texts, extend);
    lemma_sorting(longer, texts.map_values(extend));
}

/// The texts in the order of `str`.
pub fn sorted_texts(texts: &[String]) -> (sorted: Vec<String>)
    ensures
        is_sorting_of(all_chars(sorted@), all_chars(texts@)),
{
    let mut sorted: Vec<String> = Vec::new();
    let mut at: usize = 0;
    let ghost all = all_chars(texts@);
    assert(all_chars(sorted@) =~= all.take(0));
    while at < texts.len()
        invariant
            at <= texts@.len(),
            all == all_chars(texts@),
            is_sorting_of(all_chars(sorted@), all.take(at as int)),
        decreases texts@.len() - at,
    {
        let ghost held = all_chars(sorted@);
        let ghost item = texts@[at as int]@;
        let mut place: usize = sorted.len();
        while place > 0 && is_before(texts[at].as_str(), sorted[place - 1].as_str())
            invariant
                at < texts@.len(),
                place <= sorted@.len(),
                held == all_chars(sorted@),
                item == texts@[at as int]@,
                forall|i: int| place <= i < held.len() ==> text_before(item, #[trigger] held[i]),
            decreases place,
        {
            place = place - 1;
        }
        sorted.insert(place, texts[at].clone());
        proof {
            assert(all_chars(sorted@) =~= held.insert(place as int, item));
            let now = all_chars(sorted@);
            assert forall|i: int, j: int| 0 <= i <= j < now.len() implies text_le(
                now[i],
                now[j],
            ) by {
                if i < place && j == place {
                    assert(now[i] == held[i]);
                    lemma_text_order_is_total(held[i], held[place - 1], item);
                    lemma_text_order_is_total(held[place - 1], item, item);
                    assert(text_le(held[i], held[place - 1]));
                } else if i == place && j > place {
                    assert(now[j] == held[j - 1]);
                } else if i < place && j > place {
                    assert(text_le(held[i], held[j - 1]));
                } else if i > place {
                    assert(text_le(held[i - 1], held[j - 1]));
                } else if j < place {
                    assert(text_le(held[i], held[j]));
                }
            }
            assert(all.take(at + 1) =~= all.take(at as int).push(item));
            vstd::seq_lib::to_multiset_insert(held, place as int, item);
            vstd::seq_lib::to_multiset_build(all.take(at as int), item);
        }
        at = at + 1;
    }
    assert(all.take(at as int) =~= all);
    sorted
}

// ---------------------------------------------------------------------
// Decimal numbers
// ---------------------------------------------------------------------

/// The decimal digit that stands for `value`.
pub open spec fn digit(value: nat) -> char
    recommends
        value < 10,
{
    (('0' as u32) + value as u32) as char
}

/// The decimal digits of a natural number, without leading zeros.
pub open spec fn digits(value: nat) -> Chars
    decreases value,
{
    if value < 10 {
        seq![digit(value)]
    } else {
        digits(value / 10).push(digit(value % 10))
    }
}

/// An integer as it is written in decimal: what `to_string` gives.
pub open spec fn decimal(value: int) -> Chars {
    if value < 0 {
        seq!['-'] + digits((-value) as nat)
    } else {
        digits(value as nat)
    }
}

proof fn lemma_digit_injective(a: nat, b: nat)
    requires
        a < 10,
        b < 10,
        digit(a) == digit(b),
    ensures
        a == b,
        '0' <= digit(a) <= '9',
{
}

/// A natural number is written with one or more decimal digits.
pub proof fn lemma_digits_shape(value: nat)
    ensures
        digits(value).len() >= 1,
        forall|i: int| 0 <= i < digits(value).len() ==> '0' <= #[trigger] digits(value)[i] <= '9',
        value >= 10 ==> digits(value).len() >= 2,
    decreases value,
{
    if value >= 10 {
        lemma_digits_shape(value / 10);
    }
}

proof fn lemma_digits_injective(a: nat, b: nat)
    requires
        digits(a) == digits(b),
    ensures
        a == b,
    decreases a,
{
    lemma_digits_shape(a);
    lemma_digits_shape(b);
    if a < 10 && b < 10 {
        assert(digits(a)[0] == digit(a));
        assert(digits(b)[0] == digit(b));
        lemma_digit_injective(a, b);
    } else if a >= 10 && b >= 10 {
        assert(digits(a).drop_last() =~= digits(a / 10));
        assert(digits(b).drop_last() =~= digits(b / 10));
        assert(digits(a).last() == digit(a % 10));
        assert(digits(b).last() == digit(b % 10));
        lemma_digit_injective(a % 10, b % 10);
        lemma_digits_injective(a / 10, b / 10);
    }
}

/// Different integers are written differently.
pub proof fn lemma_decimal_injective(a: int, b: int)
    requires
        decimal(a) == decimal(b),
    ensures
        a == b,
{
    if a >= 0 {
        lemma_digits_shape(a as nat);
    } else {
        assert(decimal(a)[0] == '-');
        assert(decimal(a).skip(1) =~= digits((-a) as nat));
    }
    if b >= 0 {
        lemma_digits_shape(b as nat);
    } else {
        assert(decimal(b)[0] == '-');
        assert(decimal(b).skip(1) =~= digits((-b) as nat));
    }
    if a >= 0 && b >= 0 {
        lemma_digits_injective(a as nat, b as nat);
    } else if a < 0 && b < 0 {
        lemma_digits_injective((-a) as nat, (-b) as nat);
    } else if a >= 0 {
        assert(digits(a as nat)[0] == '-');
    } else {
        assert(digits(b as nat)[0] == '-');
    }
}

fn append_digits(text: &mut String, value: u128)
    ensures
        final(text)@ == old(text)@ + digits(value as nat),
    decreases value,
{
    if value >= 10 {
        append_digits(text, value / 10);
    }
    let code: u8 = (value % 10) as u8;
    text.push((48u8 + code) as char);
    proof {
        assert(digit((value % 10) as nat) == (48u8 + code) as char);
        assert(text@ =~= old(text)@ + digits(value as nat));
    }
}

/// Appends a number in decimal.
pub fn append_decimal(text: &mut String, value: usize)
    ensures
        final(text)@ == old(text)@ + decimal(value as int),
{
    append_digits(text, value as u128);
}

/// A wide unsigned number in decimal.
pub fn wide_text(value: u128) -> (text: String)
    ensures
        text@ == decimal(value as int),
{
    let mut text = String::new();
    append_digits(&mut text, value);
    assert(text@ =~= digits(value as nat));
    text
}

/// A signed number in decimal.
pub fn decimal_text(value: i64) -> (text: String)
    ensures
        text@ == decimal(value as int),
{
    let mut text = String::new();
    let wide: i128 = value as i128;
    if wide < 0 {
        text.push('-');
        append_digits(&mut text, (-wide) as u128);
        assert(text@ =~= seq!['-'] + digits((-value) as nat));
    } else {
        append_digits(&mut text, wide as u128);
        assert(text@ =~= digits(value as nat));
    }
    text
}

/// An unsigned number in decimal.
pub fn count_text(value: u64) -> (text: String)
    ensures
        text@ == decimal(value as int),
{
    let mut text = String::new();
    append_digits(&mut text, value as u128);
    assert(text@ =~= digits(value as nat));
    text
}

} // verus!

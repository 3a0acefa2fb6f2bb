//! How places in a text and files on disk are named to the backend.

use vstd::prelude::*;
use vstd::utf8::encode_utf8;

use crate::python_semantic::coordinates::{
    bytes_of_range, last_character_of_bytes, lemma_bytes_grow, lemma_found_by_byte,
    lemma_found_by_place, lemma_missing_byte, place_after, position_of_byte, range_of_bytes,
    text_between, utf16_width,
};
use crate::python_semantic::uri::{
    escape_value, escaped, escaped_byte, forward_slashes, hex_value, path_of_uri, plain_byte,
    unescaped, uri_of_path,
};
use crate::text::Chars;

verus! {

/// How many bytes lie before a character of the text.
pub open spec fn bytes_before_character(text: Chars, at: int) -> nat {
    encode_utf8(text.take(at)).len()
}

/// How many UTF-16 code units a text takes.
pub open spec fn code_units(text: Chars) -> nat
    decreases text.len(),
{
    if text.len() == 0 {
        0
    } else {
        code_units(text.drop_last()) + if text.last() as u32 >= 0x10000 {
            2nat
        } else {
            1nat
        }
    }
}

/// A place is counted from the start of its line: what stands on a line
/// without a line feed moves it by its code units, and a line feed begins the
/// next line.
pub proof fn law_a_place_is_counted_from_the_start_of_its_line(before: Chars, line: Chars)
    requires
        !line.contains('\n'),
    ensures
        place_after(line) == (0nat, code_units(line)),
        place_after(before.push('\n') + line) == (
            (place_after(before).0 + 1) as nat,
            code_units(line),
        ),
    decreases line.len(),
{
    if line.len() == 0 {
        assert(before.push('\n') + line =~= before.push('\n'));
        assert(before.push('\n').drop_last() =~= before);
    } else {
        let fewer = line.drop_last();
        assert(line.contains(line[line.len() - 1]));
        assert(!fewer.contains('\n')) by {
            if fewer.contains('\n') {
                let k = choose|k: int| 0 <= k < fewer.len() && fewer[k] == '\n';
                assert(line[k] == '\n');
            }
        }
        law_a_place_is_counted_from_the_start_of_its_line(before, fewer);
        let whole = before.push('\n') + line;
        assert(whole.drop_last() =~= before.push('\n') + fewer);
        assert(whole.last() == line.last());
    }
}

/// A text of characters from the basic plane takes one code unit for each,
/// and a character beyond it takes two.
pub proof fn law_characters_beyond_the_basic_plane_take_two_units(text: Chars, character: char)
    ensures
        (forall|i: int| 0 <= i < text.len() ==> (#[trigger] text[i] as u32) < 0x10000)
            ==> code_units(text) == text.len(),
        character as u32 >= 0x10000 ==> code_units(text.push(character)) == code_units(text) + 2
            && utf16_width(character) == 2,
        (character as u32) < 0x10000 ==> code_units(text.push(character)) == code_units(text) + 1
            && utf16_width(character) == 1,
    decreases text.len(),
{
    assert(text.push(character).drop_last() =~= text);
    if text.len() > 0 {
        law_characters_beyond_the_basic_plane_take_two_units(text.drop_last(), character);
        if forall|i: int| 0 <= i < text.len() ==> (#[trigger] text[i] as u32) < 0x10000 {
            assert((text[text.len() - 1] as u32) < 0x10000);
            assert forall|i: int| 0 <= i < text.drop_last().len() implies (
            #[trigger] text.drop_last()[i] as u32) < 0x10000 by {
                assert((text[i] as u32) < 0x10000);
            }
        }
    }
}

/// A span of characters is asked about as the range from its first character
/// to behind its last, found again as exactly its bytes, and written as
/// exactly its characters.
pub proof fn law_a_span_converts_exactly(text: Chars, from: int, to: int)
    requires
        0 <= from < to <= text.len(),
        place_after(text.take(from)).0 <= u32::MAX,
        place_after(text.take(from)).1 <= u32::MAX,
        place_after(text.take(to)).0 <= u32::MAX,
        place_after(text.take(to)).1 <= u32::MAX,
    ensures
        ({
            let start = bytes_before_character(text, from);
            let end = bytes_before_character(text, to);
            let first = place_after(text.take(from));
            let behind = place_after(text.take(to));
            &&& range_of_bytes(text, start, end) matches Some(range)
            &&& range.start.line == first.0
            &&& range.start.character == first.1
            &&& range.end.line == behind.0
            &&& range.end.character == behind.1
            &&& bytes_of_range(text, range) == Some((start, end))
            &&& text_between(text, start, end) == text.subrange(from, to)
        }),
{
    lemma_found_by_byte(text, from);
    lemma_found_by_byte(text, to);
    lemma_found_by_place(text, from);
    lemma_found_by_place(text, to);
    lemma_bytes_grow(text.take(to), from);
    assert(text.take(to).take(from) =~= text.take(from));
}

/// The last character of a span is the one before its end, wherever the span
/// begins: in `x.run` it is the last of `run`, not the receiver.
pub proof fn law_the_last_character_is_before_the_end(text: Chars, from: int, to: int)
    requires
        0 <= from < to <= text.len(),
        place_after(text.take(to - 1)).0 <= u32::MAX,
        place_after(text.take(to - 1)).1 <= u32::MAX,
    ensures
        last_character_of_bytes(
            text,
            bytes_before_character(text, from),
            bytes_before_character(text, to),
        ) matches Some(position) && position.line == place_after(text.take(to - 1)).0
            && position.character == place_after(text.take(to - 1)).1,
{
    lemma_found_by_byte(text, from);
    lemma_found_by_byte(text, to);
    lemma_bytes_grow(text.take(to), from);
    assert(text.take(to).take(from) =~= text.take(from));
}

/// A byte inside a character, or past the end, is no place: nothing nearby is
/// taken for it.
pub proof fn law_a_byte_inside_a_character_is_no_place(text: Chars, byte: nat, other: nat)
    requires
        forall|at: int|
            0 <= at <= text.len() ==> bytes_before_character(text, at) != byte,
    ensures
        position_of_byte(text, byte) is None,
        range_of_bytes(text, byte, other) is None,
        range_of_bytes(text, other, byte) is None,
        last_character_of_bytes(text, byte, other) is None,
        last_character_of_bytes(text, other, byte) is None,
        text_between(text, byte, other).len() == 0,
        text_between(text, other, byte).len() == 0,
{
    assert forall|at: int| 0 <= at <= text.len() implies encode_utf8(#[trigger] text.take(at)).len()
        != byte by {
        assert(bytes_before_character(text, at) != byte);
    }
    lemma_missing_byte(text, byte);
}

/// An empty span, or one whose end comes first, has no last character, and
/// one whose end comes first has no range.
pub proof fn law_a_span_runs_forward(text: Chars, start: nat, end: nat)
    ensures
        start >= end ==> last_character_of_bytes(text, start, end) is None,
        start > end ==> range_of_bytes(text, start, end) is None,
{
}

/// The bytes of a URI body stand for themselves where they are letters,
/// digits or one of `-._~/:`, and are written as a percent sign and two
/// upper-case hexadecimal digits everywhere else; reading such an escape gives
/// the byte back.
pub proof fn law_bytes_are_escaped_and_read_back(byte: u8)
    ensures
        plain_byte(byte) <==> ('a' as u8 <= byte <= 'z' as u8) || ('A' as u8 <= byte <= 'Z' as u8)
            || ('0' as u8 <= byte <= '9' as u8) || byte == '-' as u8 || byte == '.' as u8 || byte
            == '_' as u8 || byte == '~' as u8 || byte == '/' as u8 || byte == ':' as u8,
        plain_byte(byte) ==> escaped_byte(byte) == seq![byte],
        !plain_byte(byte) ==> escaped_byte(byte).len() == 3 && escaped_byte(byte)[0] == '%' as u8
            && escape_value(escaped_byte(byte)[1], escaped_byte(byte)[2]) == Some(byte),
{
}

/// A path is named by a `file:` URI without an authority, with forward
/// slashes whatever slashes it was written with.
pub proof fn law_a_path_is_named_by_a_file_uri(path: Chars)
    ensures
        ("file:///"@).is_prefix_of(uri_of_path(path)),
        uri_of_path(forward_slashes(path)) == uri_of_path(path),
        forall|i: int|
            0 <= i < path.len() ==> #[trigger] forward_slashes(path)[i] == if path[i] == '\\' {
                '/'
            } else {
                path[i]
            },
{
    assert(forward_slashes(forward_slashes(path)) =~= forward_slashes(path));
    reveal_strlit("file:///");
    reveal_strlit("file://");
    let slashed = forward_slashes(path);
    let uri = uri_of_path(path);
    if slashed.len() > 0 && slashed[0] == '/' {
        lemma_escaped_starts_with_slash(slashed);
        assert(uri[7] == '/');
        assert("file:///"@ =~= uri.subrange(0, 8));
    } else {
        assert(uri[7] == '/');
        assert("file:///"@ =~= uri.subrange(0, 8));
    }
}

proof fn lemma_escaped_starts_with_slash(path: Chars)
    requires
        path.len() > 0,
        path[0] == '/',
    ensures
        escaped(encode_utf8(path)).len() > 0,
        escaped(encode_utf8(path))[0] == '/' as u8,
{
    let rest = path.skip(1);
    assert(path =~= seq!['/'] + rest);
    crate::python_semantic::uri::lemma_encode_leading_slash(rest);
    crate::python_semantic::uri::lemma_escaped_leading_slash(encode_utf8(rest));
}

/// A URI of another scheme, or of a file on another machine, names no path
/// here.
pub proof fn law_only_local_files_have_paths(uri: Chars)
    ensures
        !("file://"@).is_prefix_of(uri) ==> path_of_uri(uri) is None,
        ("file://"@).is_prefix_of(uri) && uri.len() > 7 && uri[7] != '/' ==> path_of_uri(uri) is None,
{
    reveal_strlit("file://");
    if uri.len() > 7 {
        assert(uri.skip(7)[0] == uri[7]);
    }
}

/// An escape is a percent sign and two hexadecimal digits, in either case;
/// anything shorter or otherwise written names nothing, and every other byte
/// stands for itself.
pub proof fn law_a_broken_escape_names_nothing(byte: u8, first: u8, second: u8, tail: Seq<u8>)
    ensures
        unescaped(Seq::empty()) == Some(Seq::<u8>::empty()),
        tail.len() < 2 ==> unescaped(seq!['%' as u8] + tail) is None,
        escape_value(first, second) is None ==> unescaped(seq!['%' as u8, first, second] + tail)
            is None,
        escape_value(first, second) is Some && unescaped(tail) is Some ==> unescaped(
            seq!['%' as u8, first, second] + tail,
        ) == Some(seq![escape_value(first, second)->0] + unescaped(tail)->0),
        byte != '%' as u8 && unescaped(tail) is Some ==> unescaped(seq![byte] + tail) == Some(
            seq![byte] + unescaped(tail)->0,
        ),
        unescaped(tail) is None ==> unescaped(seq![byte] + tail) is None || byte == '%' as u8,
{
    assert('%' as u8 == 0x25);
    let escape = seq!['%' as u8, first, second] + tail;
    assert(escape.skip(3) =~= tail);
    assert(escape[1] == first && escape[2] == second);
    assert((seq![byte] + tail).skip(1) =~= tail);
}

/// A hexadecimal digit stands for its value in either case, and no other
/// byte is one.
pub proof fn law_hexadecimal_digits_have_their_values(digit: u8, value: u8)
    ensures
        value < 10 ==> hex_value(('0' as u8 + value) as u8) == Some(value),
        10 <= value < 16 ==> hex_value(('A' as u8 + value - 10) as u8) == Some(value) && hex_value(
            ('a' as u8 + value - 10) as u8,
        ) == Some(value),
        hex_value(digit) is Some <==> ('0' as u8 <= digit <= '9' as u8) || ('A' as u8 <= digit
            <= 'F' as u8) || ('a' as u8 <= digit <= 'f' as u8),
{
}

} // verus!

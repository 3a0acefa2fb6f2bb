//! `file:` URIs: the locators that the backend names files with.

use vstd::prelude::*;
use vstd::utf8::*;

use crate::text::{ascii_letter, characters_of, decode_exact, has_prefix, slice_text, Chars};

verus! {

// ---------------------------------------------------------------------
// Percent encoding
// ---------------------------------------------------------------------

/// The bytes that stand for themselves in a path: the unreserved set, and
/// the two that structure a path.
pub open spec fn plain_byte(byte: u8) -> bool {
    ||| 0x41 <= byte <= 0x5a
    ||| 0x61 <= byte <= 0x7a
    ||| 0x30 <= byte <= 0x39
    ||| byte == 0x2d
    ||| byte == 0x2e
    ||| byte == 0x5f
    ||| byte == 0x7e
    ||| byte == 0x2f
    ||| byte == 0x3a
}

/// The upper-case hexadecimal digit of a value below sixteen.
pub open spec fn hex_digit(value: u8) -> u8 {
    if value < 10 {
        (0x30 + value) as u8
    } else {
        (0x41 + (value - 10)) as u8
    }
}

/// A byte as it is written in a URI.
pub open spec fn escaped_byte(byte: u8) -> Seq<u8> {
    if plain_byte(byte) {
        seq![byte]
    } else {
        seq![0x25u8, hex_digit(byte / 16), hex_digit(byte % 16)]
    }
}

/// Bytes as they are written in a URI.
pub open spec fn escaped(bytes: Seq<u8>) -> Seq<u8>
    decreases bytes.len(),
{
    if bytes.len() == 0 {
        Seq::empty()
    } else {
        escaped(bytes.drop_last()) + escaped_byte(bytes.last())
    }
}

/// The value of a hexadecimal digit, in either case.
pub open spec fn hex_value(digit: u8) -> Option<u8> {
    if 0x30 <= digit <= 0x39 {
        Some((digit - 0x30) as u8)
    } else if 0x41 <= digit <= 0x46 {
        Some((digit - 0x41 + 10) as u8)
    } else if 0x61 <= digit <= 0x66 {
        Some((digit - 0x61 + 10) as u8)
    } else {
        None
    }
}

/// The byte that the two characters after a `%` stand for: two hexadecimal
/// digits, and nothing else.
pub open spec fn escape_value(high: u8, low: u8) -> Option<u8> {
    match (hex_value(high), hex_value(low)) {
        (Some(high_value), Some(low_value)) => Some((16 * high_value + low_value) as u8),
        _ => None,
    }
}

/// The bytes that a URI body stands for, unless one of its escapes cannot
/// be read.
pub open spec fn unescaped(body: Seq<u8>) -> Option<Seq<u8>>
    decreases body.len(),
{
    if body.len() == 0 {
        Some(Seq::empty())
    } else if body[0] == 0x25 {
        if body.len() < 3 {
            None
        } else {
            match (escape_value(body[1], body[2]), unescaped(body.skip(3))) {
                (Some(byte), Some(rest)) => Some(seq![byte] + rest),
                _ => None,
            }
        }
    } else {
        match unescaped(body.skip(1)) {
            Some(rest) => Some(seq![body[0]] + rest),
            None => None,
        }
    }
}

// ---------------------------------------------------------------------
// Paths and URIs
// ---------------------------------------------------------------------

/// Back slashes turned into slashes.
pub open spec fn forward_slashes(path: Chars) -> Chars {
    path.map_values(|character: char| if character == '\\' { '/' } else { character })
}

/// The bytes as characters of the same number.
pub open spec fn as_characters(bytes: Seq<u8>) -> Chars {
    bytes.map_values(|byte: u8| byte as char)
}

/// The `file:` URI of a path.
pub open spec fn uri_of_path(path: Chars) -> Chars {
    let slashed = forward_slashes(path);
    let root = if slashed.len() > 0 && slashed[0] == '/' {
        Seq::empty()
    } else {
        seq!['/']
    };
    "file://"@ + root + as_characters(escaped(encode_utf8(slashed)))
}

/// A Windows drive at the start: a letter and a colon.
pub open spec fn starts_with_drive(path: Chars) -> bool {
    path.len() >= 2 && ascii_letter(path[0]) && path[1] == ':'
}

/// What follows the scheme and the root of a `file:` URI without an
/// authority.
pub open spec fn uri_body(uri: Chars) -> Option<Chars> {
    if !("file://"@).is_prefix_of(uri) {
        None
    } else {
        let rest = uri.skip(7);
        if rest.len() == 0 {
            Some(Seq::empty())
        } else if rest[0] == '/' {
            Some(rest.skip(1))
        } else {
            None
        }
    }
}

/// The path that a `file:` URI names, unless it has another scheme or an
/// authority, an escape in it cannot be read, or what it stands for is not
/// text.
pub open spec fn path_of_uri(uri: Chars) -> Option<Chars> {
    match uri_body(uri) {
        None => None,
        Some(body) => match unescaped(encode_utf8(body)) {
            None => None,
            Some(bytes) => if !valid_utf8(bytes) {
                None
            } else {
                let decoded = decode_utf8(bytes);
                if starts_with_drive(decoded) {
                    Some(decoded)
                } else {
                    Some(seq!['/'] + decoded)
                }
            },
        },
    }
}

fn hex_character(value: u8) -> (character: char)
    requires
        value < 16,
    ensures
        character == hex_digit(value) as char,
{
    if value < 10 {
        (48u8 + value) as char
    } else {
        (65u8 + (value - 10u8)) as char
    }
}

proof fn lemma_escaped_push(bytes: Seq<u8>, byte: u8)
    ensures
        escaped(bytes.push(byte)) == escaped(bytes) + escaped_byte(byte),
{
    assert(bytes.push(byte).drop_last() =~= bytes);
}

/// A `file:` URI for an absolute path.
///
/// Everything outside the unreserved set is percent-encoded, so a path with
/// spaces or non-ASCII characters survives the round trip. A Windows drive
/// path becomes `file:///C:/...`. The result is a locator handed to the
/// backend, never identity.
pub fn path_to_uri(path: &str) -> (uri: String)
    ensures
        uri@ == uri_of_path(path@),
{
    let written = characters_of(path);
    let mut slashed = String::new();
    let mut at: usize = 0;
    while at < written.len()
        invariant
            at <= written@.len(),
            written@ == path@,
            slashed@ == forward_slashes(path@).take(at as int),
        decreases written@.len() - at,
    {
        if written[at] == '\\' {
            slashed.push('/');
        } else {
            slashed.push(written[at]);
        }
        at = at + 1;
        assert(slashed@ =~= forward_slashes(path@).take(at as int));
    }
    assert(forward_slashes(path@).take(at as int) =~= forward_slashes(path@));
    let mut uri = "file://".to_owned();
    if written.len() == 0 || (written[0] != '/' && written[0] != '\\') {
        uri.push('/');
        assert(uri@ =~= "file://"@ + seq!['/']);
    } else {
        assert(uri@ =~= "file://"@ + Seq::<char>::empty());
    }
    let ghost start = uri@;
    let bytes = slashed.as_str().as_bytes();
    let mut next: usize = 0;
    assert(uri@ =~= start + as_characters(escaped(bytes@.take(0))));
    while next < bytes.len()
        invariant
            next <= bytes@.len(),
            uri@ == start + as_characters(escaped(bytes@.take(next as int))),
        decreases bytes@.len() - next,
    {
        let byte: u8 = bytes[next];
        let ghost held = uri@;
        proof {
            assert(bytes@.take(next + 1) =~= bytes@.take(next as int).push(byte));
            lemma_escaped_push(bytes@.take(next as int), byte);
        }
        if (65u8 <= byte && byte <= 90u8) || (97u8 <= byte && byte <= 122u8) || (48u8 <= byte
            && byte <= 57u8) || byte == 45u8 || byte == 46u8 || byte == 95u8 || byte == 126u8
            || byte == 47u8 || byte == 58u8 {
            uri.push(byte as char);
        } else {
            uri.push('%');
            uri.push(hex_character(byte / 16));
            uri.push(hex_character(byte % 16));
        }
        assert(uri@ =~= start + as_characters(escaped(bytes@.take(next + 1))));
        next = next + 1;
    }
    assert(bytes@.take(next as int) =~= bytes@);
    uri
}

fn hex_digit_value(digit: u8) -> (value: Option<u8>)
    ensures
        value == hex_value(digit),
        value matches Some(held) ==> held < 16,
{
    if 48u8 <= digit && digit <= 57u8 {
        Some(digit - 48u8)
    } else if 65u8 <= digit && digit <= 70u8 {
        Some(digit - 65u8 + 10u8)
    } else if 97u8 <= digit && digit <= 102u8 {
        Some(digit - 97u8 + 10u8)
    } else {
        None
    }
}

fn read_escape(high: u8, low: u8) -> (value: Option<u8>)
    ensures
        value == escape_value(high, low),
{
    match (hex_digit_value(high), hex_digit_value(low)) {
        (Some(high_value), Some(low_value)) => Some(16u8 * high_value + low_value),
        _ => None,
    }
}

fn unescape(body: &[u8]) -> (decoded: Option<Vec<u8>>)
    ensures
        decoded is Some == unescaped(body@) is Some,
        decoded matches Some(bytes) ==> unescaped(body@) == Some(bytes@),
{
    let mut bytes: Vec<u8> = Vec::new();
    let mut at: usize = 0;
    let total: usize = body.len();
    assert(body@.skip(0) =~= body@);
    assert(forall|rest: Seq<u8>| #[trigger] (Seq::<u8>::empty() + rest) =~= rest);
    while at < total
        invariant
            at <= total == body@.len(),
            match unescaped(body@.skip(at as int)) {
                Some(rest) => unescaped(body@) == Some(bytes@ + rest),
                None => unescaped(body@) is None,
            },
        decreases total - at,
    {
        let ghost rest = body@.skip(at as int);
        if body[at] == 37u8 {
            if total - at < 3 {
                return None;
            }
            assert(rest[1] == body@[at + 1]);
            assert(rest[2] == body@[at + 2]);
            assert(rest.skip(3) =~= body@.skip(at + 3));
            match read_escape(body[at + 1], body[at + 2]) {
                Some(byte) => {
                    proof {
                        if let Some(tail) = unescaped(body@.skip(at + 3)) {
                            assert(bytes@ + (seq![byte] + tail) =~= bytes@.push(byte) + tail);
                        }
                    }
                    bytes.push(byte);
                },
                None => {
                    return None;
                },
            }
            at = at + 3;
        } else {
            let byte: u8 = body[at];
            assert(rest.skip(1) =~= body@.skip(at + 1));
            proof {
                if let Some(tail) = unescaped(body@.skip(at + 1)) {
                    assert(bytes@ + (seq![byte] + tail) =~= bytes@.push(byte) + tail);
                }
            }
            bytes.push(byte);
            at = at + 1;
        }
    }
    assert(body@.skip(at as int) =~= Seq::empty());
    assert(bytes@ + Seq::<u8>::empty() =~= bytes@);
    Some(bytes)
}

/// The absolute path that a `file:` URI names, or `None` for any other
/// scheme, for an authority (another machine's file), and for an escape
/// that cannot be decoded.
pub fn uri_to_path(uri: &str) -> (path: Option<String>)
    ensures
        crate::text::optional_chars(path) == path_of_uri(uri@),
{
    let characters = characters_of(uri);
    let scheme = characters_of("file://");
    proof {
        reveal_strlit("file://");
    }
    if !has_prefix(characters.as_slice(), scheme.as_slice()) {
        return None;
    }
    let total: usize = characters.len();
    let body: String = if total == 7 {
        assert(uri@.skip(7).len() == 0);
        String::new()
    } else if characters[7] == '/' {
        assert(uri@.skip(7)[0] == '/');
        let rest = slice_text(characters.as_slice(), 8, total);
        assert(rest@ =~= uri@.skip(7).skip(1));
        rest
    } else {
        assert(uri@.skip(7)[0] == characters@[7]);
        return None;
    };
    let bytes = match unescape(body.as_str().as_bytes()) {
        Some(bytes) => bytes,
        None => {
            return None;
        },
    };
    let decoded = match decode_exact(bytes) {
        Some(decoded) => decoded,
        None => {
            return None;
        },
    };
    let plain = characters_of(decoded.as_str());
    let has_drive = plain.len() >= 2 && (('a' <= plain[0] && plain[0] <= 'z') || ('A' <= plain[0]
        && plain[0] <= 'Z')) && plain[1] == ':';
    if has_drive {
        Some(decoded)
    } else {
        let mut path = String::new();
        path.push('/');
        path.append(decoded.as_str());
        assert(path@ =~= seq!['/'] + decoded@);
        Some(path)
    }
}

// ---------------------------------------------------------------------
// The round trip
// ---------------------------------------------------------------------

proof fn lemma_unescape_one(byte: u8, tail: Seq<u8>)
    ensures
        unescaped(escaped_byte(byte) + tail) == (match unescaped(tail) {
            Some(rest) => Some(seq![byte] + rest),
            None => None,
        }),
{
    let body = escaped_byte(byte) + tail;
    if plain_byte(byte) {
        assert(body.skip(1) =~= tail);
        assert(body[0] == byte);
    } else {
        assert(body.skip(3) =~= tail);
        assert(body[1] == hex_digit(byte / 16));
        assert(body[2] == hex_digit(byte % 16));
        assert(byte / 16 < 16 && byte % 16 < 16);
        assert(hex_value(hex_digit(byte / 16)) == Some((byte / 16) as u8));
        assert(hex_value(hex_digit(byte % 16)) == Some((byte % 16) as u8));
        assert(16 * (byte / 16) + byte % 16 == byte);
    }
}

proof fn lemma_unescape_escaped(bytes: Seq<u8>, tail: Seq<u8>)
    ensures
        unescaped(escaped(bytes) + tail) == (match unescaped(tail) {
            Some(rest) => Some(bytes + rest),
            None => None,
        }),
    decreases bytes.len(),
{
    if bytes.len() == 0 {
        assert(escaped(bytes) + tail =~= tail);
        if let Some(rest) = unescaped(tail) {
            assert(bytes + rest =~= rest);
        }
    } else {
        let first = bytes.drop_last();
        let last = bytes.last();
        let mid = escaped_byte(last) + tail;
        assert(escaped(bytes) + tail =~= escaped(first) + mid);
        lemma_unescape_escaped(first, mid);
        lemma_unescape_one(last, tail);
        if let Some(rest) = unescaped(tail) {
            assert(first + (seq![last] + rest) =~= bytes + rest);
        }
    }
}

proof fn lemma_escaped_is_ascii(bytes: Seq<u8>)
    ensures
        forall|i: int| 0 <= i < escaped(bytes).len() ==> #[trigger] escaped(bytes)[i] < 0x80,
    decreases bytes.len(),
{
    if bytes.len() > 0 {
        lemma_escaped_is_ascii(bytes.drop_last());
        let last = bytes.last();
        assert(last / 16 < 16 && last % 16 < 16);
        let before = escaped(bytes.drop_last());
        assert forall|i: int| 0 <= i < escaped(bytes).len() implies #[trigger] escaped(bytes)[i]
            < 0x80 by {
            if i >= before.len() {
                assert(escaped(bytes)[i] == escaped_byte(last)[i - before.len()]);
            } else {
                assert(escaped(bytes)[i] == before[i]);
            }
        }
    }
}

proof fn lemma_ascii_round(bytes: Seq<u8>)
    requires
        forall|i: int| 0 <= i < bytes.len() ==> #[trigger] bytes[i] < 0x80,
    ensures
        encode_utf8(as_characters(bytes)) == bytes,
{
    let characters = as_characters(bytes);
    assert forall|i: int| 0 <= i < characters.len() implies '\0' <= #[trigger] characters[i]
        <= '\u{7f}' by {
        assert(characters[i] == bytes[i] as char);
    }
    is_ascii_chars_encode_utf8(characters);
    assert forall|i: int| 0 <= i < bytes.len() implies encode_utf8(characters)[i] == bytes[i] by {
        assert(characters[i] == bytes[i] as char);
    }
    assert(encode_utf8(characters) =~= bytes);
}

pub proof fn lemma_encode_leading_slash(rest: Chars)
    ensures
        encode_utf8(seq!['/'] + rest) == seq![0x2fu8] + encode_utf8(rest),
{
    let whole = seq!['/'] + rest;
    assert(whole.drop_first() =~= rest);
    assert(whole[0] == '/');
    assert('/' as u32 == 0x2f);
    assert(leading_byte_width_1(0x2f) == 0x2fu8) by {
        assert(0x2fu32 & 0x7f == 0x2f) by (bit_vector);
    }
    assert(encode_scalar(0x2f) =~= seq![0x2fu8]);
}

pub proof fn lemma_escaped_leading_slash(bytes: Seq<u8>)
    ensures
        escaped(seq![0x2fu8] + bytes) == seq![0x2fu8] + escaped(bytes),
    decreases bytes.len(),
{
    let whole = seq![0x2fu8] + bytes;
    if bytes.len() == 0 {
        assert(whole =~= Seq::<u8>::empty().push(0x2f));
        lemma_escaped_push(Seq::<u8>::empty(), 0x2f);
        assert(escaped(whole) =~= seq![0x2fu8] + escaped(bytes));
    } else {
        assert(whole.drop_last() =~= seq![0x2fu8] + bytes.drop_last());
        lemma_escaped_leading_slash(bytes.drop_last());
        assert(escaped(whole) =~= seq![0x2fu8] + escaped(bytes));
    }
}

proof fn lemma_body_of_escaped(bytes: Seq<u8>)
    ensures
        uri_body("file://"@ + seq!['/'] + as_characters(escaped(bytes))) == Some(
            as_characters(escaped(bytes)),
        ),
{
    reveal_strlit("file://");
    let body = as_characters(escaped(bytes));
    let uri = "file://"@ + seq!['/'] + body;
    assert("file://"@ =~= uri.subrange(0, 7));
    assert(uri.skip(7)[0] == '/');
    assert(uri.skip(7).skip(1) =~= body);
}

/// A URI gives the path back that it was made of: every path that has no
/// back slash and either starts with a drive, or starts with a slash that
/// no drive follows.
pub proof fn lemma_uri_round_trip(path: Chars)
    requires
        !path.contains('\\'),
        starts_with_drive(path) || (path.len() > 0 && path[0] == '/' && !starts_with_drive(
            path.skip(1),
        )),
    ensures
        path_of_uri(uri_of_path(path)) == Some(path),
{
    let slashed = forward_slashes(path);
    assert(slashed =~= path) by {
        assert forall|i: int| 0 <= i < path.len() implies slashed[i] == path[i] by {
            assert(path.contains(path[i]));
        }
    }
    let rooted = path[0] == '/';
    let named = if rooted {
        path.skip(1)
    } else {
        path
    };
    let bytes = encode_utf8(named);
    let body = as_characters(escaped(bytes));
    let uri = uri_of_path(path);
    if rooted {
        assert(path =~= seq!['/'] + named);
        lemma_encode_leading_slash(named);
        lemma_escaped_leading_slash(bytes);
        assert(as_characters(seq![0x2fu8] + escaped(bytes)) =~= seq!['/'] + body);
        assert(uri =~= "file://"@ + seq!['/'] + body);
    } else {
        assert(uri =~= "file://"@ + seq!['/'] + body);
    }
    lemma_body_of_escaped(bytes);
    lemma_escaped_is_ascii(bytes);
    lemma_ascii_round(escaped(bytes));
    assert(escaped(bytes) + Seq::<u8>::empty() =~= escaped(bytes));
    lemma_unescape_escaped(bytes, Seq::empty());
    assert(bytes + Seq::<u8>::empty() =~= bytes);
    assert(unescaped(encode_utf8(body)) == Some(bytes));
    encode_utf8_valid_utf8(named);
    encode_utf8_decode_utf8(named);
}

} // verus!

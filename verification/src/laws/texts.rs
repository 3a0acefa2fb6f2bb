//! What is read out of texts, paths and JSON values.

use vstd::prelude::*;
use vstd::utf8::{encode_utf8, encode_utf8_decode_utf8, encode_utf8_valid_utf8};

use crate::json::{
    bool_in, items_in, lookup, member, member_text, nested_flag, text_in, unsigned_in, with_member,
    JsonView, NumberView,
};
use crate::paths::{
    components, components_below, is_absolute, lemma_components_of_join, names_something, path_join,
    path_of, plain_name, same_path,
};
use crate::query_text::{upper_bound, upper_bytes};
use crate::text::{
    ascii_digit, ascii_letter, ascii_lower, before_last, bytes_before, decimal, digit, digits, join,
    last_piece, lemma_digits_shape, lemma_encode_concat, lemma_split_then_join, split, trimmed,
    trimmed_end, trimmed_start, whitespace, Chars,
};

verus! {

// ---------------------------------------------------------------------
// White space and pieces
// ---------------------------------------------------------------------

/// All characters of a text are white space.
pub open spec fn blank(text: Chars) -> bool {
    forall|i: int| 0 <= i < text.len() ==> whitespace(#[trigger] text[i])
}

proof fn lemma_trimmed_start(text: Chars)
    ensures
        exists|front: Chars| blank(front) && text == #[trigger] (front + trimmed_start(text)),
        trimmed_start(text).len() > 0 ==> !whitespace(trimmed_start(text)[0]),
    decreases text.len(),
{
    if text.len() > 0 && whitespace(text[0]) {
        let rest = text.skip(1);
        lemma_trimmed_start(rest);
        let front = choose|front: Chars|
            blank(front) && rest == #[trigger] (front + trimmed_start(rest));
        let longer = seq![text[0]] + front;
        assert forall|i: int| 0 <= i < longer.len() implies whitespace(#[trigger] longer[i]) by {
            if i > 0 {
                assert(longer[i] == front[i - 1]);
            }
        }
        assert(text =~= longer + trimmed_start(text)) by {
            assert(text =~= seq![text[0]] + rest);
        }
    } else {
        let none = Seq::<char>::empty();
        assert(blank(none));
        assert(text =~= none + trimmed_start(text));
    }
}

proof fn lemma_trimmed_end(text: Chars)
    ensures
        exists|back: Chars| blank(back) && text == #[trigger] (trimmed_end(text) + back),
        trimmed_end(text).len() > 0 ==> !whitespace(trimmed_end(text).last()),
        trimmed_end(text).len() > 0 ==> text.len() > 0 && trimmed_end(text)[0] == text[0],
    decreases text.len(),
{
    if text.len() > 0 && whitespace(text.last()) {
        let rest = text.drop_last();
        lemma_trimmed_end(rest);
        let back = choose|back: Chars|
            blank(back) && rest == #[trigger] (trimmed_end(rest) + back);
        let longer = back.push(text.last());
        assert forall|i: int| 0 <= i < longer.len() implies whitespace(#[trigger] longer[i]) by {
            if i < back.len() {
                assert(longer[i] == back[i]);
            }
        }
        assert(text =~= trimmed_end(text) + longer) by {
            assert(text =~= rest.push(text.last()));
        }
    } else {
        let none = Seq::<char>::empty();
        assert(blank(none));
        assert(text =~= trimmed_end(text) + none);
    }
}

/// Trimming takes white space away and nothing else, and leaves none at
/// either end.
pub proof fn law_trimming_takes_white_space_alone(text: Chars)
    ensures
        exists|front: Chars, back: Chars|
            blank(front) && blank(back) && text == #[trigger] (front + trimmed(text) + back),
        trimmed(text).len() > 0 ==> !whitespace(trimmed(text)[0]) && !whitespace(
            trimmed(text).last(),
        ),
{
    lemma_trimmed_start(text);
    let inner = trimmed_start(text);
    lemma_trimmed_end(inner);
    let front = choose|front: Chars| blank(front) && text == #[trigger] (front + inner);
    let back = choose|back: Chars| blank(back) && inner == #[trigger] (trimmed_end(inner) + back);
    assert(text =~= front + trimmed(text) + back);
}

/// What precedes the last separator is told apart from what follows it; a
/// text without a separator has nothing before it.
pub proof fn law_a_text_is_cut_at_its_last_separator(text: Chars, separator: char)
    ensures
        before_last(text, separator) is None <==> !text.contains(separator),
        before_last(text, separator) matches Some(before) ==> {
            &&& before.len() < text.len()
            &&& before == text.take(before.len() as int)
            &&& text[before.len() as int] == separator
            &&& forall|i: int| before.len() < i < text.len() ==> #[trigger] text[i] != separator
        },
    decreases text.len(),
{
    if text.len() > 0 {
        let fewer = text.drop_last();
        law_a_text_is_cut_at_its_last_separator(fewer, separator);
        assert(text[text.len() - 1] == text.last());
        if text.last() == separator {
            assert(fewer =~= text.take(fewer.len() as int));
        } else {
            if text.contains(separator) {
                let i = choose|i: int| 0 <= i < text.len() && text[i] == separator;
                assert(fewer[i] == separator);
            }
            if fewer.contains(separator) {
                let i = choose|i: int| 0 <= i < fewer.len() && fewer[i] == separator;
                assert(text[i] == separator);
            }
            if let Some(before) = before_last(fewer, separator) {
                assert(fewer.take(before.len() as int) =~= text.take(before.len() as int));
                assert forall|i: int| before.len() < i < text.len() implies #[trigger] text[i]
                    != separator by {
                    if i < fewer.len() {
                        assert(fewer[i] == text[i]);
                    }
                }
            }
        }
    }
}

/// The last piece is what follows the last separator: it holds none, and
/// the text ends in it.
pub proof fn law_the_last_piece_is_what_follows(text: Chars, separator: char)
    ensures
        !last_piece(text, separator).contains(separator),
        text.contains(separator) ==> exists|before: Chars|
            text == #[trigger] (before.push(separator) + last_piece(text, separator)),
        !text.contains(separator) ==> last_piece(text, separator) == text,
{
    lemma_split_then_join(text, separator);
    let pieces = split(text, separator);
    assert(pieces.last() == pieces[pieces.len() - 1]);
    let glue = seq![separator];
    if pieces.len() == 1 {
        assert(text == pieces[0]);
    } else {
        let before = join(pieces.drop_last(), glue);
        assert(text == before + glue + pieces.last());
        assert(text =~= before.push(separator) + last_piece(text, separator));
        assert(text[before.len() as int] == separator);
    }
}

// ---------------------------------------------------------------------
// Characters and order
// ---------------------------------------------------------------------

/// Folding moves the capital letters of ASCII alone, each to its own small
/// letter, and folding again changes nothing.
pub proof fn law_folding_moves_capital_letters_alone(character: char)
    ensures
        'A' <= character <= 'Z' ==> ascii_lower(character) as u32 == character as u32 + 32
            && 'a' <= ascii_lower(character) <= 'z',
        !('A' <= character <= 'Z') ==> ascii_lower(character) == character,
        ascii_lower(ascii_lower(character)) == ascii_lower(character),
{
}

/// A text comes before what it is a start of, and where two texts part the
/// smaller byte decides.
pub proof fn law_the_first_difference_orders(start: Seq<u8>, a: Seq<u8>, b: Seq<u8>)
    ensures
        b.len() > 0 ==> bytes_before(start, start + b),
        !bytes_before(start + a, start),
        a.len() > 0 && b.len() > 0 && a[0] < b[0] ==> bytes_before(start + a, start + b),
        a.len() > 0 && b.len() > 0 && a[0] > b[0] ==> !bytes_before(start + a, start + b),
    decreases start.len(),
{
    if start.len() == 0 {
        assert(start + a =~= a);
        assert(start + b =~= b);
    } else {
        let rest = start.skip(1);
        law_the_first_difference_orders(rest, a, b);
        assert((start + a).skip(1) =~= rest + a);
        assert((start + b).skip(1) =~= rest + b);
    }
}

/// The number that decimal digits write.
pub open spec fn number_written(text: Chars) -> nat
    decreases text.len(),
{
    if text.len() == 0 {
        0
    } else {
        number_written(text.drop_last()) * 10 + (text.last() as int - '0' as int) as nat
    }
}

/// A number is written in the digits that write it, without a leading zero,
/// and a negative one behind a minus.
pub proof fn law_a_number_is_written_in_its_digits(value: nat)
    ensures
        number_written(digits(value)) == value,
        decimal(value as int) == digits(value),
        value > 0 ==> decimal(-(value as int)) == seq!['-'] + digits(value),
        value > 0 ==> digits(value)[0] != '0',
        forall|i: int| 0 <= i < digits(value).len() ==> '0' <= #[trigger] digits(value)[i] <= '9',
    decreases value,
{
    lemma_digits_shape(value);
    reveal_with_fuel(number_written, 2);
    if value < 10 {
        assert(digits(value).drop_last() =~= Seq::<char>::empty());
        assert(digits(value).last() == digit(value));
    } else {
        law_a_number_is_written_in_its_digits(value / 10);
        lemma_digits_shape(value / 10);
        assert(digits(value).drop_last() =~= digits(value / 10));
        assert(digits(value).last() == digit(value % 10));
        assert(digits(value)[0] == digits(value / 10)[0]);
    }
}

// ---------------------------------------------------------------------
// Prefix ranges
// ---------------------------------------------------------------------

/// Bytes have an upper bound exactly when one of them can be raised.
pub proof fn law_only_the_greatest_bytes_have_no_bound(prefix: Seq<u8>)
    ensures
        upper_bytes(prefix) is None <==> forall|i: int|
            0 <= i < prefix.len() ==> #[trigger] prefix[i] == 0xff,
    decreases prefix.len(),
{
    if prefix.len() > 0 {
        let fewer = prefix.drop_last();
        law_only_the_greatest_bytes_have_no_bound(fewer);
        assert(prefix[prefix.len() - 1] == prefix.last());
        if prefix.last() == 0xff {
            if forall|i: int| 0 <= i < fewer.len() ==> #[trigger] fewer[i] == 0xff {
                assert forall|i: int| 0 <= i < prefix.len() implies #[trigger] prefix[i]
                    == 0xff by {
                    if i < fewer.len() {
                        assert(fewer[i] == prefix[i]);
                    }
                }
            }
            if forall|i: int| 0 <= i < prefix.len() ==> #[trigger] prefix[i] == 0xff {
                assert forall|i: int| 0 <= i < fewer.len() implies #[trigger] fewer[i] == 0xff by {
                    assert(fewer[i] == prefix[i]);
                }
            }
        }
    }
}

/// A prefix that ends in an ASCII character but the last is bounded by the
/// same text with the next character at its end.
pub proof fn law_a_prefix_is_bounded_by_its_successor(start: Chars, last: char)
    requires
        (last as u32) < 0x7f,
    ensures
        upper_bound(start.push(last)) == Some(start.push(((last as u32) + 1) as char)),
{
    let next = ((last as u32) + 1) as char;
    lemma_ascii_bytes(start, last);
    lemma_ascii_bytes(start, next);
    let bytes = encode_utf8(start.push(last));
    assert(bytes.last() == last as u8);
    assert(bytes.drop_last() =~= encode_utf8(start));
    assert(upper_bytes(bytes) == Some(encode_utf8(start).push(next as u8)));
    encode_utf8_valid_utf8(start.push(next));
    encode_utf8_decode_utf8(start.push(next));
}

proof fn lemma_ascii_bytes(start: Chars, last: char)
    requires
        (last as u32) < 0x80,
    ensures
        encode_utf8(start.push(last)) == encode_utf8(start).push(last as u8),
{
    let one = seq![last];
    assert(start.push(last) =~= start + one);
    lemma_encode_concat(start, one);
    let scalar = last as u32;
    assert(scalar < 0x80 ==> (scalar & 0x7f) == scalar) by (bit_vector);
    assert(scalar as u8 == last as u8);
    reveal_with_fuel(encode_utf8, 2);
    assert(one.drop_first() =~= Seq::<char>::empty());
    assert(encode_utf8(one) =~= seq![last as u8]);
    assert(encode_utf8(start) + encode_utf8(one) =~= encode_utf8(start).push(last as u8));
}

// ---------------------------------------------------------------------
// Paths
// ---------------------------------------------------------------------

/// A path is seen from a root below it, behind one slash; an absolute path
/// is itself.
pub proof fn law_a_path_lies_below_its_root(root: Chars, path: Chars)
    ensures
        is_absolute(path) ==> path_join(root, path) == path,
        !is_absolute(path) && root.len() > 0 && root.last() != '/' ==> path_join(root, path)
            == root.push('/') + path,
        !is_absolute(path) && root.len() > 0 && root.last() == '/' ==> path_join(root, path) == root
            + path,
        !is_absolute(path) ==> path_join(Seq::empty(), path) == path,
        is_absolute(path) <==> exists|rest: Chars| path == #[trigger] (seq!['/'] + rest),
{
    assert(Seq::<char>::empty() + path =~= path);
    if is_absolute(path) {
        assert(path =~= seq!['/'] + path.skip(1));
    }
}

/// Two paths below one root are the same exactly when they have the same
/// names.
pub proof fn law_paths_agree_name_by_name(root: Chars, a: Seq<Chars>, b: Seq<Chars>)
    requires
        a.len() > 0,
        b.len() > 0,
        forall|i: int| 0 <= i < a.len() ==> plain_name(#[trigger] a[i]),
        forall|i: int| 0 <= i < b.len() ==> plain_name(#[trigger] b[i]),
    ensures
        same_path(path_join(root, path_of(a)), path_join(root, path_of(b))) <==> a == b,
        components_below(path_join(root, path_of(a)), root) == Some(a),
{
    lemma_components_of_join(root, a);
    lemma_components_of_join(root, b);
    let start = components(root);
    if start + a == start + b {
        assert(a =~= (start + a).skip(start.len() as int));
        assert(b =~= (start + b).skip(start.len() as int));
    }
}

/// A slash at the end of a path says nothing.
pub proof fn law_a_slash_at_the_end_says_nothing(path: Chars)
    requires
        path.len() > 0,
    ensures
        same_path(path.push('/'), path),
{
    let none = Seq::<char>::empty();
    crate::text::lemma_split_around(path, none, '/');
    assert(path.push('/') + none =~= path.push('/'));
    let pieces = split(path, '/');
    lemma_split_then_join(path, '/');
    assert(split(none, '/') == seq![none]);
    assert(split(path.push('/'), '/') =~= pieces.push(none));
    assert(pieces.push(none)[0] == pieces[0]);
    assert(path.push('/')[0] == path[0]);
    reveal(Seq::filter);
    assert(pieces.push(none).drop_last() =~= pieces);
}

/// A component is a name, but for the root of an absolute path and the dot
/// that a relative one starts with.
pub proof fn law_components_are_names(path: Chars, at: int)
    requires
        0 <= at < components(path).len(),
    ensures
        is_absolute(path) ==> components(path)[0] == seq!['/'],
        at > 0 ==> components(path)[at].len() > 0 && components(path)[at] != seq!['.']
            && !components(path)[at].contains('/'),
{
    let pieces = split(path, '/');
    let kept = pieces.filter(|piece: Chars| names_something(piece));
    let start = if is_absolute(path) {
        seq![seq!['/']]
    } else if pieces[0] == seq!['.'] {
        seq![seq!['.']]
    } else {
        Seq::empty()
    };
    assert(components(path) == start + kept);
    if at > 0 {
        let i = at - start.len();
        assert(components(path)[at] == kept[i]);
        pieces.lemma_filter_pred(|piece: Chars| names_something(piece), i);
        pieces.lemma_filter_contains_rev(|piece: Chars| names_something(piece), kept[i]);
        lemma_split_then_join(path, '/');
        let k = choose|k: int| 0 <= k < pieces.len() && pieces[k] == kept[i];
        assert(!pieces[k].contains('/'));
    }
}

// ---------------------------------------------------------------------
// JSON
// ---------------------------------------------------------------------

/// Each reading takes values of its own kind alone, as they are.
pub proof fn law_a_value_is_read_as_its_kind(value: JsonView)
    ensures
        text_in(value) is Some <==> value is Text,
        value matches JsonView::Text(text) ==> text_in(value) == Some(text),
        bool_in(value) is Some <==> value is Bool,
        value matches JsonView::Bool(held) ==> bool_in(value) == Some(held),
        items_in(value) is Some <==> value is Array,
        value matches JsonView::Array(items) ==> items_in(value) == Some(items),
        unsigned_in(value) is Some <==> value is Number && value->Number_0 is Unsigned,
        value matches JsonView::Number(NumberView::Unsigned(number)) ==> unsigned_in(value) == Some(
            number,
        ),
{
}

/// A member that was put in is found again under its name, and every other
/// name is found as before.
pub proof fn law_a_member_is_found_as_it_was_put(
    members: Seq<(Chars, JsonView)>,
    name: Chars,
    value: JsonView,
    other: Chars,
)
    requires
        lookup(members, name) is None,
    ensures
        member(with_member(JsonView::Object(members), name, value), name) == Some(value),
        other != name ==> member(with_member(JsonView::Object(members), name, value), other)
            == lookup(members, other),
        member_text(with_member(JsonView::Object(members), name, value), name) == text_in(value),
{
    crate::laws::protocol::lemma_lookup_push(members, name, value, name);
    crate::laws::protocol::lemma_lookup_push(members, name, value, other);
}

/// A flag inside a member is read only where both members are there and the
/// inner one is a truth value.
pub proof fn law_a_nested_flag_is_read_where_it_is(value: JsonView, outer: Chars, inner: Chars)
    ensures
        nested_flag(value, outer, inner) is Some <==> member(value, outer) is Some && member(
            member(value, outer)->0,
            inner,
        ) is Some && member(member(value, outer)->0, inner)->0 is Bool,
        nested_flag(value, outer, inner) matches Some(flag) ==> member(
            member(value, outer)->0,
            inner,
        ) == Some(JsonView::Bool(flag)),
{
}

/// The digits and the letters of ASCII are those of its tables.
pub proof fn law_ascii_classes_are_those_of_the_table(character: char)
    ensures
        ascii_digit(character) <==> 0x30 <= character as u32 <= 0x39,
        ascii_letter(character) <==> 0x41 <= character as u32 <= 0x5a || 0x61 <= character as u32
            <= 0x7a,
{
}

} // verus!

//! Places in a document, as the backend counts them.

use vstd::prelude::*;
use vstd::utf8::*;

use crate::text::{characters_of, lemma_encode_concat, slice_text, Chars};

verus! {

/// A place in a document: a line, and a UTF-16 code unit in it. Both count
/// from zero.
#[derive(Debug, Clone, Copy, PartialEq, Eq, Structural)]
pub struct Position {
    pub line: u32,
    pub character: u32,
}

impl Position {
    pub fn new(line: u32, character: u32) -> (position: Self)
        ensures
            position == (Position { line, character }),
    {
        Position { line, character }
    }
}

/// From one place up to another.
#[derive(Debug, Clone, Copy, PartialEq, Eq, Structural)]
pub struct Range {
    pub start: Position,
    pub end: Position,
}

impl Range {
    pub fn new(start: Position, end: Position) -> (range: Self)
        ensures
            range == (Range { start, end }),
    {
        Range { start, end }
    }

    /// Whether the range covers nothing.
    pub open spec fn covers_nothing(self) -> bool {
        self.start == self.end
    }

    /// Whether the range covers nothing.
    pub fn is_empty(&self) -> (empty: bool)
        ensures
            empty == self.covers_nothing(),
    {
        self.start.line == self.end.line && self.start.character == self.end.character
    }
}

/// The empty range at the very start of a document: how a whole file is
/// named.
pub open spec fn whole_file() -> Range {
    Range { start: Position { line: 0, character: 0 }, end: Position { line: 0, character: 0 } }
}

pub fn whole_file_range() -> (range: Range)
    ensures
        range == whole_file(),
{
    Range::new(Position::new(0, 0), Position::new(0, 0))
}

// ---------------------------------------------------------------------
// Converting places
// ---------------------------------------------------------------------

/// How many UTF-16 code units a character takes.
pub open spec fn utf16_width(character: char) -> nat {
    if character as u32 >= 0x10000 {
        2
    } else {
        1
    }
}

/// The place just after a text: its line feeds, and the code units after
/// the last of them.
pub open spec fn place_after(text: Chars) -> (nat, nat)
    decreases text.len(),
{
    if text.len() == 0 {
        (0, 0)
    } else {
        let before = place_after(text.drop_last());
        if text.last() == '\n' {
            (before.0 + 1, 0)
        } else {
            (before.0, before.1 + utf16_width(text.last()))
        }
    }
}

/// The place at a byte of the text, unless the byte is inside a character
/// or past the end.
pub open spec fn place_of_byte(text: Chars, byte: nat) -> Option<(nat, nat)>
    decreases text.len(),
{
    if encode_utf8(text).len() == byte {
        Some(place_after(text))
    } else if text.len() == 0 {
        None
    } else {
        place_of_byte(text.drop_last(), byte)
    }
}

/// The byte at a place of the text, unless the text has no such place.
pub open spec fn byte_of_place(text: Chars, place: (nat, nat)) -> Option<nat>
    decreases text.len(),
{
    if place_after(text) == place {
        Some(encode_utf8(text).len())
    } else if text.len() == 0 {
        None
    } else {
        byte_of_place(text.drop_last(), place)
    }
}

/// A place, where its numbers can be counted.
pub open spec fn counted(place: Option<(nat, nat)>) -> Option<Position> {
    match place {
        Some(held) => if held.0 <= u32::MAX && held.1 <= u32::MAX {
            Some(Position { line: held.0 as u32, character: held.1 as u32 })
        } else {
            None
        },
        None => None,
    }
}

/// The position at a byte of the text.
pub open spec fn position_of_byte(text: Chars, byte: nat) -> Option<Position> {
    counted(place_of_byte(text, byte))
}

/// The byte at a position of the text.
pub open spec fn byte_of_position(text: Chars, position: Position) -> Option<nat> {
    byte_of_place(text, (position.line as nat, position.character as nat))
}

/// The range that two bytes of the text bound.
pub open spec fn range_of_bytes(text: Chars, start: nat, end: nat) -> Option<Range> {
    if start > end {
        None
    } else {
        match (position_of_byte(text, start), position_of_byte(text, end)) {
            (Some(start), Some(end)) => Some(Range { start, end }),
            _ => None,
        }
    }
}

/// The bytes that a range of the text bounds.
pub open spec fn bytes_of_range(text: Chars, range: Range) -> Option<(nat, nat)> {
    match (byte_of_position(text, range.start), byte_of_position(text, range.end)) {
        (Some(start), Some(end)) => if start <= end {
            Some((start, end))
        } else {
            None
        },
        _ => None,
    }
}

/// The place of the last character before a byte of the text.
pub open spec fn place_before_byte(text: Chars, byte: nat) -> Option<(nat, nat)>
    decreases text.len(),
{
    if text.len() == 0 {
        None
    } else if encode_utf8(text).len() == byte {
        Some(place_after(text.drop_last()))
    } else {
        place_before_byte(text.drop_last(), byte)
    }
}

/// The position of the last character that two bytes of the text bound.
pub open spec fn last_character_of_bytes(text: Chars, start: nat, end: nat) -> Option<Position> {
    if start >= end || place_of_byte(text, start) is None {
        None
    } else {
        counted(place_before_byte(text, end))
    }
}

/// How many characters of the text lie before a byte, unless the byte
/// lies inside one.
pub open spec fn characters_before(text: Chars, byte: nat) -> Option<nat>
    decreases text.len(),
{
    if encode_utf8(text).len() == byte {
        Some(text.len())
    } else if text.len() == 0 {
        None
    } else {
        characters_before(text.drop_last(), byte)
    }
}

/// The text that two of its bytes bound: nothing where they bound none.
pub open spec fn text_between(text: Chars, start: nat, end: nat) -> Chars {
    match (characters_before(text, start), characters_before(text, end)) {
        (Some(first), Some(last)) => if first <= last {
            text.subrange(first as int, last as int)
        } else {
            Seq::empty()
        },
        _ => Seq::empty(),
    }
}

proof fn lemma_one_more(text: Chars)
    requires
        text.len() > 0,
    ensures
        encode_utf8(text) == encode_utf8(text.drop_last()) + encode_scalar(text.last() as u32),
        encode_scalar(text.last() as u32).len() >= 1,
{
    let last: Chars = seq![text.last()];
    assert(text =~= text.drop_last() + last);
    lemma_encode_concat(text.drop_last(), last);
    assert(last.drop_first() =~= Seq::empty());
    assert(encode_utf8(last.drop_first()) =~= Seq::empty());
    assert(encode_utf8(last) =~= encode_scalar(text.last() as u32));
}

pub proof fn lemma_bytes_grow(text: Chars, at: int)
    requires
        0 <= at < text.len(),
    ensures
        encode_utf8(text.take(at)).len() < encode_utf8(text).len(),
    decreases text.len(),
{
    lemma_one_more(text);
    if at < text.len() - 1 {
        lemma_bytes_grow(text.drop_last(), at);
        assert(text.drop_last().take(at) =~= text.take(at));
    } else {
        assert(text.take(at) =~= text.drop_last());
    }
}

/// One place comes before another.
pub open spec fn place_before(a: (nat, nat), b: (nat, nat)) -> bool {
    a.0 < b.0 || (a.0 == b.0 && a.1 < b.1)
}

proof fn lemma_places_grow(text: Chars, at: int)
    requires
        0 <= at < text.len(),
    ensures
        place_before(place_after(text.take(at)), place_after(text)),
    decreases text.len(),
{
    if at < text.len() - 1 {
        lemma_places_grow(text.drop_last(), at);
        assert(text.drop_last().take(at) =~= text.take(at));
    } else {
        assert(text.take(at) =~= text.drop_last());
    }
}

pub proof fn lemma_found_by_byte(text: Chars, at: int)
    requires
        0 <= at <= text.len(),
    ensures
        place_of_byte(text, encode_utf8(text.take(at)).len()) == Some(place_after(text.take(at))),
        at > 0 ==> place_before_byte(text, encode_utf8(text.take(at)).len()) == Some(
            place_after(text.take(at - 1)),
        ),
        characters_before(text, encode_utf8(text.take(at)).len()) == Some(at as nat),
    decreases text.len(),
{
    if at == text.len() {
        assert(text.take(at) =~= text);
        if at > 0 {
            assert(text.take(at - 1) =~= text.drop_last());
        }
    } else {
        lemma_bytes_grow(text, at);
        lemma_found_by_byte(text.drop_last(), at);
        assert(text.drop_last().take(at) =~= text.take(at));
        if at > 0 {
            assert(text.drop_last().take(at - 1) =~= text.take(at - 1));
        }
    }
}

pub proof fn lemma_found_by_place(text: Chars, at: int)
    requires
        0 <= at <= text.len(),
    ensures
        byte_of_place(text, place_after(text.take(at))) == Some(encode_utf8(text.take(at)).len()),
    decreases text.len(),
{
    if at == text.len() {
        assert(text.take(at) =~= text);
    } else {
        lemma_places_grow(text, at);
        lemma_found_by_place(text.drop_last(), at);
        assert(text.drop_last().take(at) =~= text.take(at));
    }
}

pub proof fn lemma_missing_byte(text: Chars, byte: nat)
    requires
        forall|at: int| 0 <= at <= text.len() ==> encode_utf8(#[trigger] text.take(at)).len() != byte,
    ensures
        place_of_byte(text, byte) is None,
        place_before_byte(text, byte) is None,
        characters_before(text, byte) is None,
    decreases text.len(),
{
    assert(text.take(text.len() as int) =~= text);
    if text.len() > 0 {
        let rest = text.drop_last();
        assert forall|at: int| 0 <= at <= rest.len() implies encode_utf8(
            #[trigger] rest.take(at),
        ).len() != byte by {
            assert(rest.take(at) =~= text.take(at));
        }
        lemma_missing_byte(rest, byte);
    }
}

pub proof fn lemma_missing_place(text: Chars, place: (nat, nat))
    requires
        forall|at: int| 0 <= at <= text.len() ==> place_after(#[trigger] text.take(at)) != place,
    ensures
        byte_of_place(text, place) is None,
    decreases text.len(),
{
    assert(text.take(text.len() as int) =~= text);
    if text.len() > 0 {
        let rest = text.drop_last();
        assert forall|at: int| 0 <= at <= rest.len() implies place_after(#[trigger] rest.take(at))
            != place by {
            assert(rest.take(at) =~= text.take(at));
        }
        lemma_missing_place(rest, place);
    }
}

proof fn lemma_place_of_byte_is_a_prefix(text: Chars, byte: nat) -> (at: int)
    requires
        place_of_byte(text, byte) is Some,
    ensures
        0 <= at <= text.len(),
        encode_utf8(text.take(at)).len() == byte,
        place_of_byte(text, byte) == Some(place_after(text.take(at))),
    decreases text.len(),
{
    if encode_utf8(text).len() == byte {
        assert(text.take(text.len() as int) =~= text);
        text.len() as int
    } else {
        let at = lemma_place_of_byte_is_a_prefix(text.drop_last(), byte);
        assert(text.drop_last().take(at) =~= text.take(at));
        at
    }
}

/// A byte is found again at its position: converting there and back is
/// exact.
pub proof fn lemma_positions_round_trip(text: Chars, byte: nat)
    requires
        position_of_byte(text, byte) is Some,
    ensures
        byte_of_position(text, position_of_byte(text, byte)->0) == Some(byte),
{
    let at = lemma_place_of_byte_is_a_prefix(text, byte);
    lemma_found_by_place(text, at);
}

/// Converts between the bytes of one text and the backend's positions in
/// it, exactly or not at all.
pub struct LineMap<'a> {
    pub text: &'a str,
}

/// A place while the text is walked: how many characters and bytes lie
/// before it, and its line and code unit.
struct Walk {
    at: usize,
    bytes: usize,
    line: usize,
    unit: usize,
}

impl Walk {
    spec fn is_at(&self, text: Chars) -> bool {
        &&& self.at <= text.len()
        &&& self.bytes == encode_utf8(text.take(self.at as int)).len()
        &&& place_after(text.take(self.at as int)) == (self.line as nat, self.unit as nat)
        &&& self.line + self.unit <= self.bytes
    }
}

fn utf8_width(character: char) -> (width: usize)
    ensures
        width == encode_scalar(character as u32).len(),
        width >= utf16_width(character),
{
    let code: u32 = character as u32;
    if code < 0x80 {
        1
    } else if code < 0x800 {
        2
    } else if code < 0x10000 {
        3
    } else {
        4
    }
}

fn advance(walk: &Walk, characters: &[char], total: usize) -> (next: Walk)
    requires
        walk.is_at(characters@),
        walk.at < characters@.len(),
        total == encode_utf8(characters@).len(),
    ensures
        next.is_at(characters@),
        next.at == walk.at + 1,
{
    let character = characters[walk.at];
    let ghost text = characters@;
    let ghost longer = text.take(walk.at + 1);
    proof {
        assert(longer.drop_last() =~= text.take(walk.at as int));
        assert(longer.last() == character);
        lemma_one_more(longer);
        if walk.at + 1 < text.len() {
            lemma_bytes_grow(text, walk.at + 1);
        } else {
            assert(longer =~= text);
        }
    }
    let width: usize = utf8_width(character);
    if character == '\n' {
        Walk { at: walk.at + 1, bytes: walk.bytes + width, line: walk.line + 1, unit: 0 }
    } else {
        let units: usize = if character as u32 >= 0x10000 {
            2
        } else {
            1
        };
        Walk {
            at: walk.at + 1,
            bytes: walk.bytes + width,
            line: walk.line,
            unit: walk.unit + units,
        }
    }
}

fn start_of_walk(characters: &[char]) -> (walk: Walk)
    ensures
        walk.is_at(characters@),
        walk.at == 0,
{
    assert(characters@.take(0) =~= Seq::empty());
    Walk { at: 0, bytes: 0, line: 0, unit: 0 }
}

fn counted_position(line: usize, unit: usize) -> (position: Option<Position>)
    ensures
        position == counted(Some((line as nat, unit as nat))),
{
    if line <= u32::MAX as usize && unit <= u32::MAX as usize {
        Some(Position::new(line as u32, unit as u32))
    } else {
        None
    }
}

impl<'a> LineMap<'a> {
    pub fn new(text: &'a str) -> (map: Self)
        ensures
            map.text@ == text@,
    {
        LineMap { text }
    }

    /// Where the walk stands at a byte, and where it stood one character
    /// before.
    fn walk_to_byte(&self, byte: usize) -> (found: Option<(Walk, Walk)>)
        ensures
            found is Some <==> place_of_byte(self.text@, byte as nat) is Some,
            found matches Some((before, there)) ==> {
                &&& before.is_at(self.text@)
                &&& there.is_at(self.text@)
                &&& there.bytes == byte
                &&& there.at > 0 ==> before.at == there.at - 1
                &&& place_of_byte(self.text@, byte as nat) == Some(
                    (there.line as nat, there.unit as nat),
                )
                &&& characters_before(self.text@, byte as nat) == Some(there.at as nat)
            },
            found is None ==> characters_before(self.text@, byte as nat) is None,
    {
        let characters = characters_of(self.text);
        let total: usize = self.text.as_bytes().len();
        let mut before = start_of_walk(characters.as_slice());
        let mut walk = start_of_walk(characters.as_slice());
        loop
            invariant
                characters@ == self.text@,
                total == encode_utf8(self.text@).len(),
                walk.is_at(self.text@),
                before.is_at(self.text@),
                walk.at > 0 ==> before.at == walk.at - 1,
                forall|k: int|
                    0 <= k < walk.at ==> encode_utf8(#[trigger] self.text@.take(k)).len() != byte,
            decreases self.text@.len() - walk.at,
        {
            if walk.bytes == byte {
                proof {
                    lemma_found_by_byte(self.text@, walk.at as int);
                }
                return Some((before, walk));
            }
            if walk.at == characters.len() {
                proof {
                    lemma_missing_byte(self.text@, byte as nat);
                }
                return None;
            }
            let next = advance(&walk, characters.as_slice(), total);
            before = walk;
            walk = next;
        }
    }

    fn byte_at(&self, position: Position) -> (found: Option<usize>)
        ensures
            found is Some <==> byte_of_position(self.text@, position) is Some,
            found matches Some(byte) ==> byte_of_position(self.text@, position) == Some(
                byte as nat,
            ),
    {
        let characters = characters_of(self.text);
        let total: usize = self.text.as_bytes().len();
        let ghost wanted = (position.line as nat, position.character as nat);
        let mut walk = start_of_walk(characters.as_slice());
        loop
            invariant
                characters@ == self.text@,
                total == encode_utf8(self.text@).len(),
                walk.is_at(self.text@),
                wanted == (position.line as nat, position.character as nat),
                forall|k: int|
                    0 <= k < walk.at ==> place_after(#[trigger] self.text@.take(k)) != wanted,
            decreases self.text@.len() - walk.at,
        {
            if walk.line == position.line as usize && walk.unit == position.character as usize {
                proof {
                    lemma_found_by_place(self.text@, walk.at as int);
                }
                return Some(walk.bytes);
            }
            if walk.at == characters.len() {
                proof {
                    lemma_missing_place(self.text@, wanted);
                }
                return None;
            }
            walk = advance(&walk, characters.as_slice(), total);
        }
    }

    /// The position at a byte.
    pub fn position(&self, byte: usize) -> (found: Option<Position>)
        ensures
            found == position_of_byte(self.text@, byte as nat),
    {
        match self.walk_to_byte(byte) {
            Some((_, there)) => counted_position(there.line, there.unit),
            None => None,
        }
    }

    /// The text that two bytes bound: nothing where they bound none.
    pub fn between(&self, start: usize, end: usize) -> (found: String)
        ensures
            found@ == text_between(self.text@, start as nat, end as nat),
    {
        match (self.walk_to_byte(start), self.walk_to_byte(end)) {
            (Some((_, first)), Some((_, last))) => {
                if first.at <= last.at {
                    let characters = characters_of(self.text);
                    slice_text(characters.as_slice(), first.at, last.at)
                } else {
                    String::new()
                }
            },
            _ => String::new(),
        }
    }

    /// The range that two bytes bound.
    pub fn range(&self, start: usize, end: usize) -> (found: Option<Range>)
        ensures
            found == range_of_bytes(self.text@, start as nat, end as nat),
    {
        if start > end {
            return None;
        }
        match (self.position(start), self.position(end)) {
            (Some(start), Some(end)) => Some(Range::new(start, end)),
            _ => None,
        }
    }

    /// The bytes that a range bounds.
    pub fn span(&self, range: Range) -> (found: Option<(usize, usize)>)
        ensures
            found is Some <==> bytes_of_range(self.text@, range) is Some,
            found matches Some((start, end)) ==> bytes_of_range(self.text@, range) == Some(
                (start as nat, end as nat),
            ),
    {
        match (self.byte_at(range.start), self.byte_at(range.end)) {
            (Some(start), Some(end)) => if start <= end {
                Some((start, end))
            } else {
                None
            },
            _ => None,
        }
    }

    /// The position of the last character that two bytes bound.
    pub fn last_character_position(&self, start: usize, end: usize) -> (found: Option<Position>)
        ensures
            found == last_character_of_bytes(self.text@, start as nat, end as nat),
    {
        if start >= end || self.walk_to_byte(start).is_none() {
            return None;
        }
        match self.walk_to_byte(end) {
            Some((before, there)) => {
                proof {
                    assert(self.text@.take(0) =~= Seq::empty());
                    assert(there.at > 0);
                    lemma_found_by_byte(self.text@, there.at as int);
                }
                counted_position(before.line, before.unit)
            },
            None => {
                proof {
                    if place_before_byte(self.text@, end as nat) is Some {
                        lemma_before_means_there(self.text@, end as nat);
                    }
                }
                None
            },
        }
    }
}

proof fn lemma_before_means_there(text: Chars, byte: nat)
    requires
        place_before_byte(text, byte) is Some,
    ensures
        place_of_byte(text, byte) is Some,
    decreases text.len(),
{
    if encode_utf8(text).len() != byte {
        lemma_before_means_there(text.drop_last(), byte);
    }
}

} // verus!

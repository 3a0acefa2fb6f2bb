//! Paths as text, read component by component.

use vstd::prelude::*;

use crate::text::{
    all_chars, characters_of, join, joined, lemma_join_then_split, lemma_split_around,
    lemma_split_then_join, same_text, split, split_text, Chars,
};

verus! {

/// The component that an absolute path starts with.
pub open spec fn root_component() -> Chars {
    seq!['/']
}

pub open spec fn is_absolute(path: Chars) -> bool {
    path.len() > 0 && path[0] == '/'
}

/// A piece between slashes that names something: not empty, and not the
/// directory itself.
pub open spec fn names_something(piece: Chars) -> bool {
    piece.len() > 0 && piece != seq!['.']
}

/// The components of a path: the root of an absolute one, then the names
/// between its slashes. A dot counts only at the start of a relative path.
pub open spec fn components(path: Chars) -> Seq<Chars> {
    let pieces = split(path, '/');
    let start = if is_absolute(path) {
        seq![root_component()]
    } else if pieces[0] == seq!['.'] {
        seq![seq!['.']]
    } else {
        Seq::empty()
    };
    start + pieces.filter(|piece: Chars| names_something(piece))
}

/// Whether two paths have the same components.
pub open spec fn same_path(a: Chars, b: Chars) -> bool {
    components(a) == components(b)
}

/// `path` as seen from `root`: itself where it is absolute, else below it.
pub open spec fn path_join(root: Chars, path: Chars) -> Chars {
    if is_absolute(path) {
        path
    } else if root.len() == 0 || root.last() == '/' {
        root + path
    } else {
        root.push('/') + path
    }
}

/// The components of `path` after those of `base`, if it starts with them.
pub open spec fn components_below(path: Chars, base: Chars) -> Option<Seq<Chars>> {
    if components(base).is_prefix_of(components(path)) {
        Some(components(path).skip(components(base).len() as int))
    } else {
        None
    }
}

/// A name that one component can have: between two slashes it stands for
/// something of its own.
pub open spec fn plain_name(name: Chars) -> bool {
    names_something(name) && !name.contains('/')
}

/// A relative path of those names.
pub open spec fn path_of(names: Seq<Chars>) -> Chars {
    join(names, seq!['/'])
}

proof fn lemma_all_kept(pieces: Seq<Chars>)
    requires
        forall|i: int| 0 <= i < pieces.len() ==> names_something(#[trigger] pieces[i]),
    ensures
        pieces.filter(|piece: Chars| names_something(piece)) == pieces,
    decreases pieces.len(),
{
    let keeps = |piece: Chars| names_something(piece);
    reveal_with_fuel(Seq::filter, 1);
    if pieces.len() == 0 {
        assert(pieces.filter(keeps) =~= pieces);
    } else {
        let rest = pieces.drop_last();
        assert forall|i: int| 0 <= i < rest.len() implies names_something(#[trigger] rest[i]) by {
            assert(rest[i] == pieces[i]);
        }
        lemma_all_kept(rest);
        assert(names_something(pieces[pieces.len() - 1]));
        assert(rest.push(pieces.last()) =~= pieces);
        rest.lemma_filter_push(pieces.last(), keeps);
    }
}

/// Names after other pieces add themselves to what is kept.
proof fn lemma_names_added(pieces: Seq<Chars>, names: Seq<Chars>)
    requires
        forall|i: int| 0 <= i < names.len() ==> names_something(#[trigger] names[i]),
    ensures
        (pieces + names).filter(|piece: Chars| names_something(piece)) == pieces.filter(
            |piece: Chars| names_something(piece),
        ) + names,
{
    lemma_all_kept(names);
    Seq::filter_distributes_over_add(pieces, names, |piece: Chars| names_something(piece));
}

/// An empty piece at the end is not kept.
proof fn lemma_nothing_added(pieces: Seq<Chars>)
    ensures
        pieces.push(Seq::<char>::empty()).filter(|piece: Chars| names_something(piece))
            == pieces.filter(|piece: Chars| names_something(piece)),
{
    pieces.lemma_filter_push(Seq::<char>::empty(), |piece: Chars| names_something(piece));
}

proof fn lemma_below_nothing(relative: Chars, names: Seq<Chars>)
    requires
        names.len() > 0,
        forall|i: int| 0 <= i < names.len() ==> names_something(#[trigger] names[i]),
        !is_absolute(relative),
        split(relative, '/') == names,
    ensures
        components(Seq::empty()) == Seq::<Chars>::empty(),
        components(relative) == names,
{
    lemma_nothing_added(Seq::empty());
    let nothing = Seq::<char>::empty();
    assert(split(nothing, '/') =~= Seq::<Chars>::empty().push(nothing));
    reveal_with_fuel(Seq::filter, 1);
    assert(components(nothing) =~= Seq::empty());
    lemma_all_kept(names);
    assert(names_something(names[0]));
    assert(components(relative) =~= names);
}

proof fn lemma_below_something(root: Chars, path: Chars, pieces: Seq<Chars>, names: Seq<Chars>)
    requires
        forall|i: int| 0 <= i < names.len() ==> names_something(#[trigger] names[i]),
        root.len() > 0,
        path.len() > 0,
        path[0] == root[0],
        pieces.len() > 0,
        split(path, '/') == pieces + names,
        split(root, '/') == pieces || split(root, '/') == pieces.push(Seq::<char>::empty()),
    ensures
        components(path) == components(root) + names,
{
    lemma_names_added(pieces, names);
    lemma_nothing_added(pieces);
    assert((pieces + names)[0] == pieces[0]);
    assert(split(root, '/')[0] == pieces[0]);
    assert(components(path) =~= components(root) + names);
}

/// The components of a path below a root are the root's and then its own.
pub proof fn lemma_components_of_join(root: Chars, names: Seq<Chars>)
    requires
        names.len() > 0,
        forall|i: int| 0 <= i < names.len() ==> plain_name(#[trigger] names[i]),
    ensures
        components(path_join(root, path_of(names))) == components(root) + names,
        components_below(path_join(root, path_of(names)), root) == Some(names),
{
    let relative = path_of(names);
    let path = path_join(root, relative);
    assert(plain_name(names[0]));
    assert forall|i: int| 0 <= i < names.len() implies !(#[trigger] names[i]).contains('/')
        && names_something(names[i]) by {
        assert(plain_name(names[i]));
    }
    lemma_join_then_split(names, '/');
    lemma_first_character(names);
    if root.len() == 0 {
        assert(path =~= relative);
        assert(root =~= Seq::empty());
        lemma_below_nothing(relative, names);
        assert(Seq::<Chars>::empty() + names =~= names);
    } else if root.last() == '/' {
        let trunk = root.drop_last();
        lemma_split_around(trunk, relative, '/');
        lemma_split_then_join(trunk, '/');
        assert(path =~= trunk.push('/') + relative);
        lemma_below_something(root, path, split(trunk, '/'), names);
    } else {
        lemma_split_around(root, relative, '/');
        lemma_split_then_join(root, '/');
        lemma_below_something(root, path, split(root, '/'), names);
    }
    let whole = components(path);
    let start = components(root);
    assert(whole.subrange(0, start.len() as int) =~= start);
    assert(whole.skip(start.len() as int) =~= names);
}

proof fn lemma_first_character(names: Seq<Chars>)
    requires
        names.len() > 0,
        plain_name(names[0]),
    ensures
        path_of(names).len() > 0,
        path_of(names)[0] == names[0][0],
        path_of(names)[0] != '/',
    decreases names.len(),
{
    assert(names[0].contains(names[0][0]));
    if names.len() > 1 {
        lemma_first_character(names.drop_last());
    }
}

/// The components of a path.
pub fn components_of(path: &str) -> (parts: Vec<String>)
    ensures
        all_chars(parts@) == components(path@),
{
    let characters = characters_of(path);
    let pieces = split_text(characters.as_slice(), '/');
    let ghost all = all_chars(pieces@);
    let ghost keeps = |piece: Chars| names_something(piece);
    let mut parts: Vec<String> = Vec::new();
    proof {
        reveal_strlit(".");
        assert("."@ =~= seq!['.']);
        reveal_strlit("/");
        assert("/"@ =~= seq!['/']);
        assert(all[0] == pieces@[0]@);
    }
    if characters.len() > 0 && characters[0] == '/' {
        parts.push("/".to_owned());
    } else if same_text(pieces[0].as_str(), ".") {
        parts.push(".".to_owned());
    }
    let ghost start = all_chars(parts@);
    let mut at: usize = 0;
    reveal_with_fuel(Seq::filter, 1);
    assert(all_chars(parts@) =~= start + all.take(0).filter(keeps));
    while at < pieces.len()
        invariant
            at <= pieces@.len(),
            all == all_chars(pieces@),
            keeps == (|piece: Chars| names_something(piece)),
            "."@ == seq!['.'],
            all_chars(parts@) == start + all.take(at as int).filter(keeps),
        decreases pieces@.len() - at,
    {
        let ghost held = all_chars(parts@);
        let ghost piece = pieces@[at as int]@;
        proof {
            assert(all.take(at + 1) =~= all.take(at as int).push(piece));
            all.take(at as int).lemma_filter_push(piece, keeps);
        }
        if !pieces[at].as_str().is_empty() && !same_text(pieces[at].as_str(), ".") {
            parts.push(pieces[at].clone());
            assert(all_chars(parts@) =~= held.push(piece));
        }
        assert(all_chars(parts@) =~= start + all.take(at + 1).filter(keeps));
        at = at + 1;
    }
    assert(all.take(at as int) =~= all);
    assert(all_chars(parts@) =~= components(path@));
    parts
}

fn same_parts(a: &[String], b: &[String]) -> (same: bool)
    ensures
        same == (all_chars(a@) == all_chars(b@)),
{
    if a.len() != b.len() {
        assert(all_chars(a@).len() != all_chars(b@).len());
        return false;
    }
    starts_with_parts(a, b)
}

fn starts_with_parts(path: &[String], base: &[String]) -> (held: bool)
    ensures
        held == all_chars(base@).is_prefix_of(all_chars(path@)),
        path@.len() == base@.len() ==> held == (all_chars(path@) == all_chars(base@)),
{
    let ghost whole = all_chars(path@);
    let ghost start = all_chars(base@);
    if base.len() > path.len() {
        return false;
    }
    let mut at: usize = 0;
    while at < base.len()
        invariant
            at <= base@.len() <= path@.len(),
            whole == all_chars(path@),
            start == all_chars(base@),
            forall|i: int| 0 <= i < at ==> start[i] == whole[i],
        decreases base@.len() - at,
    {
        assert(start[at as int] == base@[at as int]@);
        assert(whole[at as int] == path@[at as int]@);
        if !same_text(path[at].as_str(), base[at].as_str()) {
            assert(whole.subrange(0, start.len() as int)[at as int] != start[at as int]);
            return false;
        }
        at = at + 1;
    }
    proof {
        assert(start =~= whole.subrange(0, start.len() as int));
        if path@.len() == base@.len() {
            assert(whole =~= start);
        }
    }
    true
}

/// Whether two paths have the same components.
pub fn paths_agree(a: &str, b: &str) -> (same: bool)
    ensures
        same == same_path(a@, b@),
{
    let left = components_of(a);
    let right = components_of(b);
    same_parts(left.as_slice(), right.as_slice())
}

/// Whether a path is absolute.
pub fn path_is_absolute(path: &str) -> (held: bool)
    ensures
        held == is_absolute(path@),
{
    let characters = characters_of(path);
    characters.len() > 0 && characters[0] == '/'
}

/// `path` as seen from `root`.
pub fn join_path(root: &str, path: &str) -> (whole: String)
    ensures
        whole@ == path_join(root@, path@),
{
    if path_is_absolute(path) {
        return path.to_owned();
    }
    let characters = characters_of(root);
    if characters.len() == 0 || characters[characters.len() - 1] == '/' {
        joined(root, path)
    } else {
        let mut start = root.to_owned();
        start.push('/');
        joined(start.as_str(), path)
    }
}

/// The components of `path` after those of `base`, if it starts with them.
pub fn strip_base(path: &str, base: &str) -> (rest: Option<Vec<String>>)
    ensures
        rest is Some == components_below(path@, base@) is Some,
        rest matches Some(parts) ==> components_below(path@, base@) == Some(all_chars(parts@)),
{
    let whole = components_of(path);
    let start = components_of(base);
    if !starts_with_parts(whole.as_slice(), start.as_slice()) {
        return None;
    }
    let ghost all = all_chars(whole@);
    let mut rest: Vec<String> = Vec::new();
    let mut at: usize = start.len();
    assert(all_chars(rest@) =~= all.subrange(at as int, at as int));
    while at < whole.len()
        invariant
            start@.len() <= at <= whole@.len(),
            all == all_chars(whole@),
            all_chars(rest@) == all.subrange(start@.len() as int, at as int),
        decreases whole@.len() - at,
    {
        let ghost held = all_chars(rest@);
        rest.push(whole[at].clone());
        at = at + 1;
        assert(all_chars(rest@) =~= held.push(all[at - 1]));
        assert(all_chars(rest@) =~= all.subrange(start@.len() as int, at as int));
    }
    assert(all_chars(rest@) =~= all.skip(start@.len() as int));
    Some(rest)
}

} // verus!

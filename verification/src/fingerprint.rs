//! Fingerprints: one text that stands for a set of named inputs.
//!
//! A fingerprint is the inputs written out, each behind its own length, so
//! that two fingerprints are the same text exactly when the inputs are the
//! same.

use vstd::prelude::*;

use crate::text::{
    append_decimal, decimal, digits, lemma_decimal_injective, lemma_digits_shape, Chars,
};

verus! {

/// Named inputs, in order.
pub type Fields = Seq<(Chars, Chars)>;

/// The fields that pairs of texts are.
pub open spec fn fields_view(fields: Seq<(&str, &str)>) -> Fields {
    fields.map_values(|field: (&str, &str)| (field.0@, field.1@))
}

/// A text behind its length.
pub open spec fn framed(text: Chars) -> Chars {
    decimal(text.len() as int).push(':') + text
}

/// Every field, name and value behind their lengths.
pub open spec fn framed_fields(fields: Fields) -> Chars
    decreases fields.len(),
{
    if fields.len() == 0 {
        Seq::empty()
    } else {
        framed_fields(fields.drop_last()) + framed(fields.last().0) + framed(fields.last().1)
    }
}

/// The fingerprint of named inputs in a domain.
pub open spec fn fingerprint_text(domain: Chars, fields: Fields) -> Chars {
    framed(domain) + framed_fields(fields)
}

fn append_framed(out: &mut String, text: &str)
    ensures
        final(out)@ == old(out)@ + framed(text@),
{
    append_decimal(out, text.unicode_len());
    out.push(':');
    out.append(text);
    assert(out@ =~= old(out)@ + framed(text@));
}

/// The fingerprint of named inputs in a domain.
pub fn fingerprint(domain: &str, fields: &[(&str, &str)]) -> (text: String)
    ensures
        text@ == fingerprint_text(domain@, fields_view(fields@)),
{
    let mut text = String::new();
    append_framed(&mut text, domain);
    assert(text@ =~= framed(domain@));
    let ghost all = fields_view(fields@);
    let mut at: usize = 0;
    assert(text@ =~= framed(domain@) + framed_fields(all.take(0)));
    while at < fields.len()
        invariant
            at <= fields@.len(),
            all == fields_view(fields@),
            text@ == framed(domain@) + framed_fields(all.take(at as int)),
        decreases fields@.len() - at,
    {
        append_framed(&mut text, fields[at].0);
        append_framed(&mut text, fields[at].1);
        assert(all.take(at + 1).drop_last() =~= all.take(at as int));
        assert(all.take(at + 1).last() == (fields@[at as int].0@, fields@[at as int].1@));
        assert(text@ =~= framed(domain@) + framed_fields(all.take(at + 1)));
        at = at + 1;
    }
    assert(all.take(at as int) =~= all);
    text
}

/// The fields that pairs of owned texts are.
pub open spec fn pairs_view(pairs: Seq<(String, String)>) -> Fields {
    pairs.map_values(|pair: (String, String)| (pair.0@, pair.1@))
}

/// The fingerprint of named inputs in a domain.
pub fn fingerprint_pairs(domain: &str, pairs: &[(String, String)]) -> (text: String)
    ensures
        text@ == fingerprint_text(domain@, pairs_view(pairs@)),
{
    let mut fields: Vec<(&str, &str)> = Vec::new();
    let mut at: usize = 0;
    while at < pairs.len()
        invariant
            at <= pairs@.len(),
            fields@.len() == at,
            forall|i: int|
                0 <= i < at ==> (#[trigger] fields@[i]).0@ == pairs@[i].0@ && fields@[i].1@
                    == pairs@[i].1@,
        decreases pairs@.len() - at,
    {
        fields.push((pairs[at].0.as_str(), pairs[at].1.as_str()));
        at = at + 1;
    }
    assert(fields_view(fields@) =~= pairs_view(pairs@));
    fingerprint(domain, fields.as_slice())
}

proof fn lemma_framed_apart(a: Chars, x: Chars, b: Chars, y: Chars)
    requires
        framed(a) + x == framed(b) + y,
    ensures
        a == b,
        x == y,
{
    let whole = framed(a) + x;
    let left = decimal(a.len() as int);
    let right = decimal(b.len() as int);
    lemma_digits_shape(a.len());
    lemma_digits_shape(b.len());
    assert(left == digits(a.len()));
    assert(right == digits(b.len()));
    assert(whole[left.len() as int] == ':');
    assert(whole == framed(b) + y);
    assert(whole[right.len() as int] == ':');
    if left.len() < right.len() {
        assert(whole[left.len() as int] == right[left.len() as int]);
    } else if right.len() < left.len() {
        assert(whole[right.len() as int] == left[right.len() as int]);
    }
    assert(left =~= right) by {
        assert forall|i: int| 0 <= i < left.len() implies left[i] == right[i] by {
            assert(whole[i] == left[i]);
            assert(whole[i] == right[i]);
        }
    }
    lemma_decimal_injective(a.len() as int, b.len() as int);
    let start = left.len() as int + 1;
    let end = start + a.len();
    assert(a =~= whole.subrange(start, end));
    assert(b =~= whole.subrange(start, end));
    assert(x =~= whole.subrange(end, whole.len() as int));
    assert(y =~= whole.subrange(end, whole.len() as int));
}

proof fn lemma_framed_fields_front(fields: Fields)
    requires
        fields.len() > 0,
    ensures
        framed_fields(fields) == framed(fields[0].0) + (framed(fields[0].1) + framed_fields(
            fields.skip(1),
        )),
    decreases fields.len(),
{
    let first = framed(fields[0].0);
    let second = framed(fields[0].1);
    if fields.len() == 1 {
        assert(fields.drop_last() =~= Seq::empty());
        assert(fields.skip(1) =~= Seq::empty());
        assert(framed_fields(fields) =~= first + (second + framed_fields(fields.skip(1))));
    } else {
        let shorter = fields.drop_last();
        lemma_framed_fields_front(shorter);
        assert(shorter.skip(1) =~= fields.skip(1).drop_last());
        assert(fields.skip(1).last() == fields.last());
        assert(framed_fields(fields) =~= first + (second + framed_fields(fields.skip(1))));
    }
}

proof fn lemma_framed_fields_apart(a: Fields, b: Fields)
    requires
        framed_fields(a) == framed_fields(b),
    ensures
        a == b,
    decreases a.len(),
{
    if a.len() > 0 {
        lemma_framed_fields_front(a);
    }
    if b.len() > 0 {
        lemma_framed_fields_front(b);
    }
    if a.len() == 0 && b.len() == 0 {
        assert(a =~= b);
    } else if a.len() == 0 {
        assert(framed_fields(a).len() == 0);
        assert(framed(b[0].0).len() > 0);
    } else if b.len() == 0 {
        assert(framed_fields(b).len() == 0);
        assert(framed(a[0].0).len() > 0);
    } else {
        let left = framed(a[0].1) + framed_fields(a.skip(1));
        let right = framed(b[0].1) + framed_fields(b.skip(1));
        lemma_framed_apart(a[0].0, left, b[0].0, right);
        lemma_framed_apart(a[0].1, framed_fields(a.skip(1)), b[0].1, framed_fields(b.skip(1)));
        lemma_framed_fields_apart(a.skip(1), b.skip(1));
        assert(a =~= seq![a[0]] + a.skip(1));
        assert(b =~= seq![b[0]] + b.skip(1));
    }
}

/// Two fingerprints are the same exactly when their domains and inputs are.
pub proof fn lemma_fingerprint_identifies_its_inputs(
    domain: Chars,
    fields: Fields,
    other_domain: Chars,
    other_fields: Fields,
)
    ensures
        fingerprint_text(domain, fields) == fingerprint_text(other_domain, other_fields) <==> domain
            == other_domain && fields == other_fields,
{
    if fingerprint_text(domain, fields) == fingerprint_text(other_domain, other_fields) {
        lemma_framed_apart(
            domain,
            framed_fields(fields),
            other_domain,
            framed_fields(other_fields),
        );
        lemma_framed_fields_apart(fields, other_fields);
    }
}

} // verus!

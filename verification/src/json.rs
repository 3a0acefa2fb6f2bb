//! JSON values as the Python backend's protocol uses them.

use vstd::prelude::*;

use crate::text::{
    all_chars, count_text, debug_form, decimal, decimal_text, join, join_texts, joined, quoted,
    same_text, Chars,
};

verus! {

/// A JSON number, as far as the protocol reads one.
#[derive(Debug, PartialEq, Eq)]
pub enum JsonNumber {
    /// A non-negative integer.
    Unsigned(u64),
    /// A negative integer.
    Negative(i64),
    /// Any other number, kept as the text it is written with so that it
    /// can be handed back unchanged.
    Literal(String),
}

/// A JSON value. An object holds its members in order; a name that occurs
/// twice is read as its first member.
#[derive(Debug, PartialEq, Eq)]
pub enum Json {
    Null,
    Bool(bool),
    Number(JsonNumber),
    Text(String),
    Array(Vec<Json>),
    Object(Vec<(String, Json)>),
}

/// What a [`JsonNumber`] denotes.
pub ghost enum NumberView {
    Unsigned(u64),
    Negative(i64),
    Literal(Chars),
}

/// What a [`Json`] value denotes.
pub ghost enum JsonView {
    Null,
    Bool(bool),
    Number(NumberView),
    Text(Chars),
    Array(Seq<JsonView>),
    Object(Seq<(Chars, JsonView)>),
}

impl View for JsonNumber {
    type V = NumberView;

    open spec fn view(&self) -> NumberView {
        match self {
            JsonNumber::Unsigned(value) => NumberView::Unsigned(*value),
            JsonNumber::Negative(value) => NumberView::Negative(*value),
            JsonNumber::Literal(text) => NumberView::Literal(text@),
        }
    }
}

/// The view of a JSON value.
pub open spec fn json_view(value: Json) -> JsonView
    decreases value,
{
    match value {
        Json::Null => JsonView::Null,
        Json::Bool(held) => JsonView::Bool(held),
        Json::Number(number) => JsonView::Number(number@),
        Json::Text(text) => JsonView::Text(text@),
        Json::Array(items) => JsonView::Array(
            Seq::new(
                items@.len(),
                |i: int|
                    if 0 <= i < items@.len() {
                        json_view(items@[i])
                    } else {
                        JsonView::Null
                    },
            ),
        ),
        Json::Object(members) => JsonView::Object(
            Seq::new(
                members@.len(),
                |i: int|
                    if 0 <= i < members@.len() {
                        (members@[i].0@, json_view(members@[i].1))
                    } else {
                        (Seq::empty(), JsonView::Null)
                    },
            ),
        ),
    }
}

impl View for Json {
    type V = JsonView;

    open spec fn view(&self) -> JsonView {
        json_view(*self)
    }
}

/// The views of JSON values, in order.
pub open spec fn array_view(items: Seq<Json>) -> Seq<JsonView> {
    items.map_values(|item: Json| item@)
}

/// The views of object members, in order.
pub open spec fn members_view(members: Seq<(String, Json)>) -> Seq<(Chars, JsonView)> {
    members.map_values(|member: (String, Json)| (member.0@, member.1@))
}

/// An array denotes the array of what its items denote.
pub proof fn lemma_array_view(items: Vec<Json>)
    ensures
        Json::Array(items)@ == JsonView::Array(array_view(items@)),
{
    assert(json_view(Json::Array(items))->Array_0 =~= array_view(items@));
}

/// An object denotes the object of what its members denote.
pub proof fn lemma_object_view(members: Vec<(String, Json)>)
    ensures
        Json::Object(members)@ == JsonView::Object(members_view(members@)),
{
    assert(json_view(Json::Object(members))->Object_0 =~= members_view(members@));
}

// ---------------------------------------------------------------------
// Reading a value
// ---------------------------------------------------------------------

/// The first member of that name.
pub open spec fn lookup(members: Seq<(Chars, JsonView)>, name: Chars) -> Option<JsonView>
    decreases members.len(),
{
    if members.len() == 0 {
        None
    } else if members[0].0 == name {
        Some(members[0].1)
    } else {
        lookup(members.skip(1), name)
    }
}

/// The member of that name, if the value is an object that has one.
pub open spec fn member(value: JsonView, name: Chars) -> Option<JsonView> {
    match value {
        JsonView::Object(members) => lookup(members, name),
        _ => None,
    }
}

/// The text of a value that is one.
pub open spec fn text_in(value: JsonView) -> Option<Chars> {
    match value {
        JsonView::Text(text) => Some(text),
        _ => None,
    }
}

/// The number of a value that is a non-negative integer.
pub open spec fn unsigned_in(value: JsonView) -> Option<u64> {
    match value {
        JsonView::Number(NumberView::Unsigned(number)) => Some(number),
        _ => None,
    }
}

/// The truth value of a value that is one.
pub open spec fn bool_in(value: JsonView) -> Option<bool> {
    match value {
        JsonView::Bool(held) => Some(held),
        _ => None,
    }
}

/// The items of a value that is an array.
pub open spec fn items_in(value: JsonView) -> Option<Seq<JsonView>> {
    match value {
        JsonView::Array(items) => Some(items),
        _ => None,
    }
}

/// The text of that member, if the value is an object that has one.
pub open spec fn member_text(value: JsonView, name: Chars) -> Option<Chars> {
    match member(value, name) {
        Some(held) => text_in(held),
        None => None,
    }
}

impl Json {
    /// The member of that name, if the value is an object that has one.
    pub fn get(&self, name: &str) -> (found: Option<&Json>)
        ensures
            found is Some == member(self@, name@) is Some,
            found matches Some(held) ==> member(self@, name@) == Some(held@),
    {
        match self {
            Json::Object(members) => {
                let ghost all = members_view(members@);
                proof {
                    lemma_object_view(*members);
                    assert(all.skip(0) =~= all);
                }
                let mut at: usize = 0;
                while at < members.len()
                    invariant
                        at <= members@.len(),
                        all == members_view(members@),
                        self@ == JsonView::Object(all),
                        lookup(all, name@) == lookup(all.skip(at as int), name@),
                    decreases members@.len() - at,
                {
                    assert(all.skip(at as int)[0] == (members@[at as int].0@, members@[at as int].1@));
                    if same_text(members[at].0.as_str(), name) {
                        return Some(&members[at].1);
                    }
                    assert(all.skip(at as int).skip(1) =~= all.skip(at + 1));
                    at = at + 1;
                }
                None
            },
            _ => None,
        }
    }

    /// The text of a value that is one.
    pub fn as_str(&self) -> (found: Option<&String>)
        ensures
            found is Some == text_in(self@) is Some,
            found matches Some(held) ==> text_in(self@) == Some(held@),
    {
        match self {
            Json::Text(text) => Some(text),
            _ => None,
        }
    }

    /// The number of a value that is a non-negative integer.
    pub fn as_u64(&self) -> (found: Option<u64>)
        ensures
            found == unsigned_in(self@),
    {
        match self {
            Json::Number(JsonNumber::Unsigned(number)) => Some(*number),
            _ => None,
        }
    }

    /// The truth value of a value that is one.
    pub fn as_bool(&self) -> (found: Option<bool>)
        ensures
            found == bool_in(self@),
    {
        match self {
            Json::Bool(held) => Some(*held),
            _ => None,
        }
    }

    /// The items of a value that is an array.
    pub fn as_array(&self) -> (found: Option<&Vec<Json>>)
        ensures
            found is Some == items_in(self@) is Some,
            found matches Some(items) ==> items_in(self@) == Some(array_view(items@)),
    {
        match self {
            Json::Array(items) => {
                proof {
                    lemma_array_view(*items);
                }
                Some(items)
            },
            _ => None,
        }
    }
}

/// A text member, copied out.
pub fn text_member(value: &Json, name: &str) -> (found: Option<String>)
    ensures
        crate::text::optional_chars(found) == member_text(value@, name@),
{
    match value.get(name) {
        Some(held) => match held.as_str() {
            Some(text) => Some(text.clone()),
            None => None,
        },
        None => None,
    }
}

// ---------------------------------------------------------------------
// Building a value
// ---------------------------------------------------------------------

/// An object with no members.
pub open spec fn empty_object() -> JsonView {
    JsonView::Object(Seq::empty())
}

/// The object with one member more.
pub open spec fn with_member(object: JsonView, name: Chars, value: JsonView) -> JsonView {
    match object {
        JsonView::Object(members) => JsonView::Object(members.push((name, value))),
        other => other,
    }
}

/// A non-negative integer.
pub open spec fn number(value: int) -> JsonView {
    JsonView::Number(NumberView::Unsigned(value as u64))
}

/// An object under construction, member after member.
pub struct ObjectBuilder {
    members: Vec<(String, Json)>,
}

impl View for ObjectBuilder {
    type V = JsonView;

    closed spec fn view(&self) -> JsonView {
        JsonView::Object(members_view(self.members@))
    }
}

impl ObjectBuilder {
    pub fn new() -> (builder: Self)
        ensures
            builder@ == empty_object(),
    {
        let builder = ObjectBuilder { members: Vec::new() };
        assert(members_view(builder.members@) =~= Seq::empty());
        builder
    }

    /// The object with one member more.
    pub fn with(self, name: &str, value: Json) -> (builder: Self)
        ensures
            builder@ == with_member(self@, name@, value@),
    {
        let ghost held = members_view(self.members@);
        let mut members = self.members;
        members.push((name.to_owned(), value));
        assert(members_view(members@) =~= held.push((name@, value@)));
        ObjectBuilder { members }
    }

    /// The finished object.
    pub fn build(self) -> (object: Json)
        ensures
            object@ == self@,
    {
        proof {
            lemma_object_view(self.members);
        }
        Json::Object(self.members)
    }
}

/// A text value.
pub fn json_text(text: &str) -> (value: Json)
    ensures
        value@ == JsonView::Text(text@),
{
    Json::Text(text.to_owned())
}

/// A non-negative integer value.
pub fn json_number(value: u64) -> (json: Json)
    ensures
        json@ == number(value as int),
{
    Json::Number(JsonNumber::Unsigned(value))
}

/// The array of the texts.
pub fn json_texts(texts: &[String]) -> (value: Json)
    ensures
        value@ == texts_array(crate::text::all_chars(texts@)),
{
    let mut items: Vec<Json> = Vec::new();
    let mut at: usize = 0;
    while at < texts.len()
        invariant
            at <= texts@.len(),
            items@.len() == at,
            forall|i: int| 0 <= i < at ==> (#[trigger] items@[i])@ == JsonView::Text(texts@[i]@),
        decreases texts@.len() - at,
    {
        items.push(json_text(texts[at].as_str()));
        at = at + 1;
    }
    proof {
        lemma_array_view(items);
        assert(array_view(items@) =~= crate::text::all_chars(texts@).map_values(
            |text: Chars| JsonView::Text(text),
        ));
    }
    Json::Array(items)
}

/// The array of the texts.
pub open spec fn texts_array(texts: Seq<Chars>) -> JsonView {
    JsonView::Array(texts.map_values(|text: Chars| JsonView::Text(text)))
}

impl Clone for JsonNumber {
    fn clone(&self) -> (copy: Self)
        ensures
            copy == *self,
    {
        match self {
            JsonNumber::Unsigned(value) => JsonNumber::Unsigned(*value),
            JsonNumber::Negative(value) => JsonNumber::Negative(*value),
            JsonNumber::Literal(text) => JsonNumber::Literal(text.clone()),
        }
    }
}

impl Clone for Json {
    fn clone(&self) -> (copy: Self)
        ensures
            copy@ == self@,
        decreases self,
    {
        match self {
            Json::Null => Json::Null,
            Json::Bool(held) => Json::Bool(*held),
            Json::Number(number) => Json::Number(number.clone()),
            Json::Text(text) => Json::Text(text.clone()),
            Json::Array(items) => {
                let mut copies: Vec<Json> = Vec::new();
                let mut at: usize = 0;
                while at < items.len()
                    invariant
                        at <= items@.len(),
                        *self == Json::Array(*items),
                        copies@.len() == at,
                        forall|i: int| 0 <= i < at ==> (#[trigger] copies@[i])@ == items@[i]@,
                    decreases items@.len() - at,
                {
                    assert(decreases_to!(*self => self->Array_0));
                    assert(decreases_to!(*items => items@));
                    assert(decreases_to!(items@ => items@[at as int]));
                    let copy = items[at].clone();
                    copies.push(copy);
                    at = at + 1;
                }
                proof {
                    lemma_array_view(*items);
                    lemma_array_view(copies);
                    assert(array_view(copies@) =~= array_view(items@));
                }
                Json::Array(copies)
            },
            Json::Object(members) => {
                let mut copies: Vec<(String, Json)> = Vec::new();
                let mut at: usize = 0;
                while at < members.len()
                    invariant
                        at <= members@.len(),
                        *self == Json::Object(*members),
                        copies@.len() == at,
                        forall|i: int|
                            0 <= i < at ==> (#[trigger] copies@[i]).0@ == members@[i].0@
                                && copies@[i].1@ == members@[i].1@,
                    decreases members@.len() - at,
                {
                    assert(decreases_to!(*self => self->Object_0));
                    assert(decreases_to!(*members => members@));
                    assert(decreases_to!(members@ => members@[at as int]));
                    assert(decreases_to!(members@[at as int] => members@[at as int].1));
                    let name = members[at].0.clone();
                    let copy = members[at].1.clone();
                    copies.push((name, copy));
                    at = at + 1;
                }
                proof {
                    lemma_object_view(*members);
                    lemma_object_view(copies);
                    assert(members_view(copies@) =~= members_view(members@));
                }
                Json::Object(copies)
            },
        }
    }
}

// ---------------------------------------------------------------------
// The debugging form
// ---------------------------------------------------------------------

/// The debugging form of a list, given those of its items.
pub open spec fn list_form(items: Seq<Chars>) -> Chars {
    "["@ + join(items, ", "@) + "]"@
}

/// The debugging form of a list, given those of its items.
pub fn form_of_list(items: &[String]) -> (form: String)
    ensures
        form@ == list_form(all_chars(items@)),
{
    let inner = join_texts(items, ", ");
    joined(joined("[", inner.as_str()).as_str(), "]")
}

pub open spec fn number_form(number: NumberView) -> Chars {
    match number {
        NumberView::Unsigned(value) => decimal(value as int),
        NumberView::Negative(value) => decimal(value as int),
        NumberView::Literal(text) => text,
    }
}

/// The debugging form of a JSON value: the name of its kind with what it
/// holds, and the members of an object in braces.
pub open spec fn json_form(value: JsonView) -> Chars
    decreases value,
{
    match value {
        JsonView::Null => "Null"@,
        JsonView::Bool(true) => "Bool(true)"@,
        JsonView::Bool(false) => "Bool(false)"@,
        JsonView::Number(number) => "Number("@ + number_form(number) + ")"@,
        JsonView::Text(text) => "String("@ + debug_form(text) + ")"@,
        JsonView::Array(items) => "Array "@ + list_form(json_forms(items)),
        JsonView::Object(members) => "Object {"@ + join(member_forms(members), ", "@) + "}"@,
    }
}

/// The debugging forms of JSON values, in order.
pub open spec fn json_forms(items: Seq<JsonView>) -> Seq<Chars>
    decreases items,
{
    if items.len() == 0 {
        Seq::empty()
    } else {
        json_forms(items.subrange(0, items.len() - 1)).push(json_form(items[items.len() - 1]))
    }
}

/// The debugging forms of the members of an object, in order.
pub open spec fn member_forms(members: Seq<(Chars, JsonView)>) -> Seq<Chars>
    decreases members,
{
    if members.len() == 0 {
        Seq::empty()
    } else {
        let last = members[members.len() - 1];
        member_forms(members.subrange(0, members.len() - 1)).push(
            debug_form(last.0) + ": "@ + json_form(last.1),
        )
    }
}

fn form_of_number(number: &JsonNumber) -> (form: String)
    ensures
        form@ == number_form(number@),
{
    match number {
        JsonNumber::Unsigned(value) => count_text(*value),
        JsonNumber::Negative(value) => decimal_text(*value),
        JsonNumber::Literal(text) => text.clone(),
    }
}

/// The debugging form of a JSON value.
pub fn form_of_json(value: &Json) -> (form: String)
    ensures
        form@ == json_form(value@),
    decreases value,
{
    match value {
        Json::Null => "Null".to_owned(),
        Json::Bool(held) => if *held {
            "Bool(true)".to_owned()
        } else {
            "Bool(false)".to_owned()
        },
        Json::Number(number) => {
            let form = form_of_number(number);
            joined(joined("Number(", form.as_str()).as_str(), ")")
        },
        Json::Text(text) => {
            let form = quoted(text.as_str());
            joined(joined("String(", form.as_str()).as_str(), ")")
        },
        Json::Array(items) => {
            let mut forms: Vec<String> = Vec::new();
            let mut at: usize = 0;
            let ghost held = array_view(items@);
            assert(all_chars(forms@) =~= json_forms(held.take(0)));
            while at < items.len()
                invariant
                    at <= items@.len(),
                    *value == Json::Array(*items),
                    held == array_view(items@),
                    all_chars(forms@) == json_forms(held.take(at as int)),
                decreases items@.len() - at,
            {
                assert(decreases_to!(*value => value->Array_0));
                assert(decreases_to!(*items => items@));
                assert(decreases_to!(items@ => items@[at as int]));
                let ghost before = all_chars(forms@);
                let form = form_of_json(&items[at]);
                forms.push(form);
                proof {
                    let longer = held.take(at + 1);
                    assert(all_chars(forms@) =~= before.push(form@));
                    assert(longer.subrange(0, longer.len() - 1) =~= held.take(at as int));
                    assert(longer[longer.len() - 1] == items@[at as int]@);
                }
                at = at + 1;
            }
            proof {
                lemma_array_view(*items);
                assert(held.take(at as int) =~= held);
            }
            joined("Array ", form_of_list(forms.as_slice()).as_str())
        },
        Json::Object(members) => {
            let mut forms: Vec<String> = Vec::new();
            let mut at: usize = 0;
            let ghost all = members_view(members@);
            assert(all_chars(forms@) =~= member_forms(all.take(0)));
            while at < members.len()
                invariant
                    at <= members@.len(),
                    *value == Json::Object(*members),
                    all == members_view(members@),
                    all_chars(forms@) == member_forms(all.take(at as int)),
                decreases members@.len() - at,
            {
                assert(decreases_to!(*value => value->Object_0));
                assert(decreases_to!(*members => members@));
                assert(decreases_to!(members@ => members@[at as int]));
                assert(decreases_to!(members@[at as int] => members@[at as int].1));
                let name = quoted(members[at].0.as_str());
                let held = form_of_json(&members[at].1);
                let form = joined(joined(name.as_str(), ": ").as_str(), held.as_str());
                let ghost before = all_chars(forms@);
                forms.push(form);
                proof {
                    let longer = all.take(at + 1);
                    assert(all_chars(forms@) =~= before.push(form@));
                    assert(longer.subrange(0, longer.len() - 1) =~= all.take(at as int));
                    assert(longer[longer.len() - 1] == (
                        members@[at as int].0@,
                        members@[at as int].1@,
                    ));
                }
                at = at + 1;
            }
            proof {
                lemma_object_view(*members);
                assert(all.take(at as int) =~= all);
            }
            let inner = join_texts(forms.as_slice(), ", ");
            joined(joined("Object {", inner.as_str()).as_str(), "}")
        },
    }
}

// ---------------------------------------------------------------------
// Parsing
// ---------------------------------------------------------------------

/// What `serde_json::from_str` reads a text as: the value, or the error in
/// words.
pub uninterp spec fn parsed_json(text: Seq<char>) -> Result<JsonView, Seq<char>>;

/// `serde_json::from_str` into a `Value`, then `Value::get` and
/// `Value::as_str`: the text of the member of that name, where the value is
/// an object whose member is a text; the parse error in words where the
/// text is no JSON.
#[verifier::external_body]
pub(crate) fn parse_text_member(text: &str, name: &str) -> (found: Result<Option<String>, String>)
    ensures
        match parsed_json(text@) {
            Ok(value) => found is Ok && crate::text::optional_chars(found->Ok_0) == member_text(
                value,
                name@,
            ),
            Err(detail) => found is Err && found->Err_0@ == detail,
        },
{
    let value: serde_json::Value = serde_json::from_str(text).map_err(|error| error.to_string())?;
    Ok(value.get(name).and_then(serde_json::Value::as_str).map(str::to_owned))
}

/// The truth value of a member of a member.
pub open spec fn nested_flag(value: JsonView, outer: Chars, inner: Chars) -> Option<bool> {
    match member(value, outer) {
        Some(held) => match member(held, inner) {
            Some(flag) => bool_in(flag),
            None => None,
        },
        None => None,
    }
}

/// `serde_json::from_str` into a `Value`, then `Value::get` twice and
/// `Value::as_bool`: the truth value of the inner member of the outer one,
/// where there is such a member; the parse error in words where the text
/// is no JSON.
#[verifier::external_body]
pub(crate) fn parse_nested_flag(text: &str, outer: &str, inner: &str) -> (found: Result<
    Option<bool>,
    String,
>)
    ensures
        match parsed_json(text@) {
            Ok(value) => found == Ok::<Option<bool>, String>(nested_flag(value, outer@, inner@)),
            Err(detail) => found is Err && found->Err_0@ == detail,
        },
{
    let value: serde_json::Value = serde_json::from_str(text).map_err(|error| error.to_string())?;
    let held = value.get(outer).and_then(|held| held.get(inner));
    Ok(held.and_then(serde_json::Value::as_bool))
}

} // verus!

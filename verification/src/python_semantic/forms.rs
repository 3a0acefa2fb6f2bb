//! The backend's answers in the debugging form that an error quotes.

use vstd::prelude::*;

use crate::json::{array_view, form_of_json, form_of_list, json_form, list_form, JsonView};
use crate::python_semantic::coordinates::{Position, Range};
use crate::python_semantic::protocol::{
    calls_view, locations_view, IncomingCall, IncomingCallView, Location, LocationView,
    PythonResponse, ResponseView, TypeAnswer, TypeAnswerView,
};
use crate::text::{
    all_chars, count_text, debug_form, decimal, joined, optional_chars, quoted, Chars,
};

verus! {

// ---------------------------------------------------------------------
// The forms
// ---------------------------------------------------------------------

/// A name with what it holds in round brackets.
pub open spec fn applied_form(name: Chars, inner: Chars) -> Chars {
    name + "("@ + inner + ")"@
}

/// Something that may be missing.
pub open spec fn option_form(inner: Option<Chars>) -> Chars {
    match inner {
        Some(form) => applied_form("Some"@, form),
        None => "None"@,
    }
}

/// A text that may be missing.
pub open spec fn optional_text_form(text: Option<Chars>) -> Chars {
    match text {
        Some(held) => option_form(Some(debug_form(held))),
        None => option_form(None),
    }
}

pub open spec fn position_form(position: Position) -> Chars {
    "Position { line: "@ + decimal(position.line as int) + ", character: "@ + decimal(
        position.character as int,
    ) + " }"@
}

pub open spec fn range_form(range: Range) -> Chars {
    "Range { start: "@ + position_form(range.start) + ", end: "@ + position_form(range.end) + " }"@
}

pub open spec fn location_form(location: LocationView) -> Chars {
    "Location { uri: "@ + debug_form(location.uri) + ", range: "@ + range_form(location.range)
        + " }"@
}

pub open spec fn type_form(answer: TypeAnswerView) -> Chars {
    "TypeAnswer { declaration: "@ + option_form(
        match answer.declaration {
            Some(declaration) => Some(location_form(declaration)),
            None => None,
        },
    ) + ", module_name: "@ + optional_text_form(answer.module_name) + ", module_uri: "@
        + optional_text_form(answer.module_uri) + " }"@
}

pub open spec fn call_form(call: IncomingCallView) -> Chars {
    "IncomingCall { from: "@ + location_form(call.from) + ", from_ranges: "@ + list_form(
        call.from_ranges.map_values(|range: Range| range_form(range)),
    ) + " }"@
}

/// The debugging form of an answer.
pub open spec fn response_form(response: ResponseView) -> Chars {
    match response {
        ResponseView::ProtocolVersion(version) => applied_form(
            "ProtocolVersion"@,
            debug_form(version),
        ),
        ResponseView::Snapshot(snapshot) => applied_form("Snapshot"@, decimal(snapshot as int)),
        ResponseView::SearchPaths(paths) => applied_form(
            "SearchPaths"@,
            list_form(paths.map_values(|path: Chars| debug_form(path))),
        ),
        ResponseView::Import(uri) => applied_form("Import"@, optional_text_form(uri)),
        ResponseView::Type(answer) => applied_form(
            "Type"@,
            option_form(
                match answer {
                    Some(held) => Some(type_form(held)),
                    None => None,
                },
            ),
        ),
        ResponseView::Locations(locations) => applied_form(
            "Locations"@,
            list_form(locations.map_values(|location: LocationView| location_form(location))),
        ),
        ResponseView::CallHierarchyItems(items) => applied_form(
            "CallHierarchyItems"@,
            list_form(items.map_values(|item: JsonView| json_form(item))),
        ),
        ResponseView::IncomingCalls(calls) => applied_form(
            "IncomingCalls"@,
            list_form(calls.map_values(|call: IncomingCallView| call_form(call))),
        ),
        ResponseView::SnapshotStale => "SnapshotStale"@,
        ResponseView::Unsupported(name) => applied_form("Unsupported"@, debug_form(name)),
        ResponseView::Delivered => "Delivered"@,
    }
}

// ---------------------------------------------------------------------
// Writing them
// ---------------------------------------------------------------------

fn applied(name: &str, inner: &str) -> (form: String)
    ensures
        form@ == applied_form(name@, inner@),
{
    let mut form = joined(name, "(");
    form.append(inner);
    form.append(")");
    form
}

fn form_of_option(inner: Option<String>) -> (form: String)
    ensures
        form@ == option_form(optional_chars(inner)),
{
    match inner {
        Some(held) => applied("Some", held.as_str()),
        None => "None".to_owned(),
    }
}

fn form_of_optional_text(text: &Option<String>) -> (form: String)
    ensures
        form@ == optional_text_form(optional_chars(*text)),
{
    match text {
        Some(held) => form_of_option(Some(quoted(held.as_str()))),
        None => form_of_option(None),
    }
}

fn form_of_position(position: Position) -> (form: String)
    ensures
        form@ == position_form(position),
{
    let line = count_text(position.line as u64);
    let character = count_text(position.character as u64);
    let mut form = joined("Position { line: ", line.as_str());
    form.append(", character: ");
    form.append(character.as_str());
    form.append(" }");
    form
}

fn form_of_range(range: Range) -> (form: String)
    ensures
        form@ == range_form(range),
{
    let start = form_of_position(range.start);
    let end = form_of_position(range.end);
    let mut form = joined("Range { start: ", start.as_str());
    form.append(", end: ");
    form.append(end.as_str());
    form.append(" }");
    form
}

fn form_of_location(location: &Location) -> (form: String)
    ensures
        form@ == location_form(location@),
{
    let uri = quoted(location.uri.as_str());
    let range = form_of_range(location.range);
    let mut form = joined("Location { uri: ", uri.as_str());
    form.append(", range: ");
    form.append(range.as_str());
    form.append(" }");
    form
}

fn form_of_type(answer: &TypeAnswer) -> (form: String)
    ensures
        form@ == type_form(answer@),
{
    let declaration = match &answer.declaration {
        Some(held) => form_of_option(Some(form_of_location(held))),
        None => form_of_option(None),
    };
    let name = form_of_optional_text(&answer.module_name);
    let uri = form_of_optional_text(&answer.module_uri);
    let mut form = joined("TypeAnswer { declaration: ", declaration.as_str());
    form.append(", module_name: ");
    form.append(name.as_str());
    form.append(", module_uri: ");
    form.append(uri.as_str());
    form.append(" }");
    form
}

fn form_of_ranges(ranges: &[Range]) -> (form: String)
    ensures
        form@ == list_form(ranges@.map_values(|range: Range| range_form(range))),
{
    let mut forms: Vec<String> = Vec::new();
    let mut at: usize = 0;
    while at < ranges.len()
        invariant
            at <= ranges@.len(),
            forms@.len() == at,
            forall|i: int| 0 <= i < at ==> (#[trigger] forms@[i])@ == range_form(ranges@[i]),
        decreases ranges@.len() - at,
    {
        forms.push(form_of_range(ranges[at]));
        at = at + 1;
    }
    assert(all_chars(forms@) =~= ranges@.map_values(|range: Range| range_form(range)));
    form_of_list(forms.as_slice())
}

fn form_of_call(call: &IncomingCall) -> (form: String)
    ensures
        form@ == call_form(call@),
{
    let from = form_of_location(&call.from);
    let ranges = form_of_ranges(call.from_ranges.as_slice());
    let mut form = joined("IncomingCall { from: ", from.as_str());
    form.append(", from_ranges: ");
    form.append(ranges.as_str());
    form.append(" }");
    form
}

fn form_of_texts(texts: &[String]) -> (form: String)
    ensures
        form@ == list_form(all_chars(texts@).map_values(|text: Chars| debug_form(text))),
{
    let mut forms: Vec<String> = Vec::new();
    let mut at: usize = 0;
    while at < texts.len()
        invariant
            at <= texts@.len(),
            forms@.len() == at,
            forall|i: int| 0 <= i < at ==> (#[trigger] forms@[i])@ == debug_form(texts@[i]@),
        decreases texts@.len() - at,
    {
        forms.push(quoted(texts[at].as_str()));
        at = at + 1;
    }
    assert(all_chars(forms@) =~= all_chars(texts@).map_values(|text: Chars| debug_form(text)));
    form_of_list(forms.as_slice())
}

fn form_of_locations(locations: &[Location]) -> (form: String)
    ensures
        form@ == list_form(
            locations_view(locations@).map_values(
                |location: LocationView| location_form(location),
            ),
        ),
{
    let mut forms: Vec<String> = Vec::new();
    let mut at: usize = 0;
    while at < locations.len()
        invariant
            at <= locations@.len(),
            forms@.len() == at,
            forall|i: int| 0 <= i < at ==> (#[trigger] forms@[i])@ == location_form(locations@[i]@),
        decreases locations@.len() - at,
    {
        forms.push(form_of_location(&locations[at]));
        at = at + 1;
    }
    assert(all_chars(forms@) =~= locations_view(locations@).map_values(
        |location: LocationView| location_form(location),
    ));
    form_of_list(forms.as_slice())
}

fn form_of_calls(calls: &[IncomingCall]) -> (form: String)
    ensures
        form@ == list_form(
            calls_view(calls@).map_values(|call: IncomingCallView| call_form(call)),
        ),
{
    let mut forms: Vec<String> = Vec::new();
    let mut at: usize = 0;
    while at < calls.len()
        invariant
            at <= calls@.len(),
            forms@.len() == at,
            forall|i: int| 0 <= i < at ==> (#[trigger] forms@[i])@ == call_form(calls@[i]@),
        decreases calls@.len() - at,
    {
        forms.push(form_of_call(&calls[at]));
        at = at + 1;
    }
    assert(all_chars(forms@) =~= calls_view(calls@).map_values(
        |call: IncomingCallView| call_form(call),
    ));
    form_of_list(forms.as_slice())
}

fn form_of_items(items: &[crate::json::Json]) -> (form: String)
    ensures
        form@ == list_form(array_view(items@).map_values(|item: JsonView| json_form(item))),
{
    let mut forms: Vec<String> = Vec::new();
    let mut at: usize = 0;
    while at < items.len()
        invariant
            at <= items@.len(),
            forms@.len() == at,
            forall|i: int| 0 <= i < at ==> (#[trigger] forms@[i])@ == json_form(items@[i]@),
        decreases items@.len() - at,
    {
        forms.push(form_of_json(&items[at]));
        at = at + 1;
    }
    assert(all_chars(forms@) =~= array_view(items@).map_values(|item: JsonView| json_form(item)));
    form_of_list(forms.as_slice())
}

/// The debugging form of an answer.
pub fn form_of_response(response: &PythonResponse) -> (form: String)
    ensures
        form@ == response_form(response@),
{
    match response {
        PythonResponse::ProtocolVersion(version) => {
            let inner = quoted(version.as_str());
            applied("ProtocolVersion", inner.as_str())
        },
        PythonResponse::Snapshot(snapshot) => {
            let inner = count_text(*snapshot);
            applied("Snapshot", inner.as_str())
        },
        PythonResponse::SearchPaths(paths) => {
            let inner = form_of_texts(paths.as_slice());
            applied("SearchPaths", inner.as_str())
        },
        PythonResponse::Import(uri) => {
            let inner = form_of_optional_text(uri);
            applied("Import", inner.as_str())
        },
        PythonResponse::Type(answer) => {
            let inner = match answer {
                Some(held) => form_of_option(Some(form_of_type(held))),
                None => form_of_option(None),
            };
            applied("Type", inner.as_str())
        },
        PythonResponse::Locations(locations) => {
            let inner = form_of_locations(locations.as_slice());
            applied("Locations", inner.as_str())
        },
        PythonResponse::CallHierarchyItems(items) => {
            let inner = form_of_items(items.as_slice());
            applied("CallHierarchyItems", inner.as_str())
        },
        PythonResponse::IncomingCalls(calls) => {
            let inner = form_of_calls(calls.as_slice());
            applied("IncomingCalls", inner.as_str())
        },
        PythonResponse::SnapshotStale => "SnapshotStale".to_owned(),
        PythonResponse::Unsupported(name) => {
            let inner = quoted(name.as_str());
            applied("Unsupported", inner.as_str())
        },
        PythonResponse::Delivered => "Delivered".to_owned(),
    }
}

} // verus!

//! What goes over the wire to the Python backend, and what is read from it.

use vstd::prelude::*;

use crate::json::{lookup, member, texts_array, JsonView, NumberView};
use crate::python_semantic::coordinates::{Position, Range};
use crate::python_semantic::protocol::{
    call_in, carried_snapshot, change_view, classification, decoded, identifier, leading_dots,
    location_in, locations_in, module_parts, module_site, patch_of_tested, position_in,
    position_json, range_in, range_view, version_component, wire_method, wire_params,
    IncomingCallView, LocationView, ProtocolCompatibility, PythonRequest, ResponseView,
    WatchedChange, WatchedChangeKind,
};
use crate::text::{
    all_chars, ascii_digit, join, lemma_join_then_split, lemma_split_then_join, split, Chars,
};

verus! {

/// A non-negative number as it stands in JSON.
pub open spec fn json_of_number(value: u64) -> JsonView {
    JsonView::Number(NumberView::Unsigned(value))
}

/// Looking a name up finds the first member of that name, and only that.
pub proof fn law_lookup_finds_the_first_member(
    members: Seq<(Chars, JsonView)>,
    name: Chars,
    at: int,
)
    requires
        0 <= at < members.len(),
        members[at].0 == name,
        forall|i: int| 0 <= i < at ==> (#[trigger] members[i]).0 != name,
    ensures
        member(JsonView::Object(members), name) == Some(members[at].1),
    decreases at,
{
    if at > 0 {
        assert(members[0].0 != name);
        assert forall|i: int| 0 <= i < at - 1 implies (#[trigger] members.skip(1)[i]).0 != name by {
            assert(members.skip(1)[i] == members[i + 1]);
        }
        law_lookup_finds_the_first_member(members.skip(1), name, at - 1);
    }
}

/// A name that no member has is not found, and nothing but an object has
/// members.
pub proof fn law_a_missing_member_is_not_found(value: JsonView, name: Chars)
    requires
        value matches JsonView::Object(members) ==> forall|i: int|
            0 <= i < members.len() ==> (#[trigger] members[i]).0 != name,
    ensures
        member(value, name) is None,
    decreases value->Object_0.len(),
{
    if let JsonView::Object(members) = value {
        if members.len() > 0 {
            assert(members[0].0 != name);
            assert forall|i: int| 0 <= i < members.skip(1).len() implies (
            #[trigger] members.skip(1)[i]).0 != name by {
                assert(members.skip(1)[i] == members[i + 1]);
            }
            law_a_missing_member_is_not_found(JsonView::Object(members.skip(1)), name);
        }
    }
}

pub proof fn lemma_lookup_push(
    members: Seq<(Chars, JsonView)>,
    name: Chars,
    value: JsonView,
    wanted: Chars,
)
    ensures
        lookup(members.push((name, value)), wanted) == match lookup(members, wanted) {
            Some(held) => Some(held),
            None => if name == wanted {
                Some(value)
            } else {
                None
            },
        },
    decreases members.len(),
{
    let all = members.push((name, value));
    reveal_with_fuel(lookup, 2);
    if members.len() == 0 {
        assert(all.skip(1) =~= Seq::empty());
    } else {
        assert(all[0] == members[0]);
        assert(all.skip(1) =~= members.skip(1).push((name, value)));
        lemma_lookup_push(members.skip(1), name, value, wanted);
    }
}

/// The member names of the protocol, told apart.
proof fn lemma_names_differ()
    ensures
        "line"@ != "character"@,
        "start"@ != "end"@,
        "uri"@ != "range"@,
        "uri"@ != "type"@,
        "arg"@ != "snapshot"@,
        "fromUri"@ != "snapshot"@,
        "sourceUri"@ != "moduleDescriptor"@,
        "sourceUri"@ != "snapshot"@,
        "moduleDescriptor"@ != "snapshot"@,
        "leadingDots"@ != "nameParts"@,
        "textDocument"@ != "position"@,
        "textDocument"@ != "context"@,
        "position"@ != "context"@,
        "textDocument"@ != "snapshot"@,
        "position"@ != "snapshot"@,
        "context"@ != "snapshot"@,
        "item"@ != "snapshot"@,
        "changes"@ != "snapshot"@,
{
    reveal_strlit("line");
    reveal_strlit("character");
    reveal_strlit("start");
    reveal_strlit("end");
    reveal_strlit("uri");
    reveal_strlit("range");
    reveal_strlit("type");
    reveal_strlit("arg");
    reveal_strlit("snapshot");
    reveal_strlit("fromUri");
    reveal_strlit("sourceUri");
    reveal_strlit("moduleDescriptor");
    reveal_strlit("leadingDots");
    reveal_strlit("nameParts");
    reveal_strlit("textDocument");
    reveal_strlit("position");
    reveal_strlit("context");
    reveal_strlit("item");
    reveal_strlit("changes");
    assert("position"@[0] == 'p' && "snapshot"@[0] == 's');
    assert("line"@.len() == 4);
    assert("character"@.len() == 9);
    assert("start"@.len() == 5);
    assert("end"@.len() == 3);
    assert("uri"@.len() == 3);
    assert("range"@.len() == 5);
    assert("type"@.len() == 4);
    assert("arg"@.len() == 3);
    assert("snapshot"@.len() == 8);
    assert("fromUri"@.len() == 7);
    assert("sourceUri"@.len() == 9);
    assert("moduleDescriptor"@.len() == 16);
    assert("leadingDots"@.len() == 11);
    assert("nameParts"@.len() == 9);
    assert("textDocument"@.len() == 12);
    assert("position"@.len() == 8);
    assert("context"@.len() == 7);
    assert("item"@.len() == 4);
    assert("changes"@.len() == 7);
}

/// Putting members into an object, and finding them again.
proof fn lemma_two_members(first: Chars, a: JsonView, second: Chars, b: JsonView, wanted: Chars)
    requires
        first != second,
    ensures
        ({
            let object = JsonView::Object(Seq::empty().push((first, a)).push((second, b)));
            member(object, wanted) == if wanted == first {
                Some(a)
            } else if wanted == second {
                Some(b)
            } else {
                None
            }
        }),
{
    lemma_lookup_push(Seq::empty(), first, a, wanted);
    lemma_lookup_push(Seq::empty().push((first, a)), second, b, wanted);
}

/// What is written of a place reads as that place again, and a place is read
/// from the two numbers that an object holds as its line and its character.
pub proof fn law_places_are_read_as_they_are_written(value: JsonView, place: Position)
    ensures
        position_in(position_json(place)) == Some(place),
        member(position_json(place), "line"@) == Some(json_of_number(place.line as u64)),
        member(position_json(place), "character"@) == Some(json_of_number(place.character as u64)),
        position_in(value) == Some(place) <==> member(value, "line"@) == Some(
            json_of_number(place.line as u64),
        ) && member(value, "character"@) == Some(json_of_number(place.character as u64)),
{
    lemma_names_differ();
    let line = json_of_number(place.line as u64);
    let character = json_of_number(place.character as u64);
    lemma_two_members("line"@, line, "character"@, character, "line"@);
    lemma_two_members("line"@, line, "character"@, character, "character"@);
}

/// What is written of a range reads as that range again, and a range is read
/// from the places that an object holds as its start and its end.
pub proof fn law_ranges_are_read_as_they_are_written(value: JsonView, range: Range)
    ensures
        range_in(range_view(range)) == Some(range),
        member(range_view(range), "start"@) == Some(position_json(range.start)),
        member(range_view(range), "end"@) == Some(position_json(range.end)),
        range_in(value) == Some(range) <==> member(value, "start"@) is Some && member(
            value,
            "end"@,
        ) is Some && position_in(member(value, "start"@)->0) == Some(range.start) && position_in(
            member(value, "end"@)->0,
        ) == Some(range.end),
{
    lemma_names_differ();
    law_places_are_read_as_they_are_written(value, range.start);
    law_places_are_read_as_they_are_written(value, range.end);
    let start = position_json(range.start);
    let end = position_json(range.end);
    lemma_two_members("start"@, start, "end"@, end, "start"@);
    lemma_two_members("start"@, start, "end"@, end, "end"@);
}

/// Whether a request asks for places.
pub open spec fn asks_for_places(request: PythonRequest) -> bool {
    request is Definition || request is Declaration || request is TypeDefinition || request
        is References
}

/// A location is read from an object that names a document and a range: the
/// document under `uri`, and else under `targetUri`.
pub proof fn law_a_location_is_its_document_and_its_range(
    request: PythonRequest,
    value: JsonView,
    uri: Chars,
    range: Range,
)
    requires
        asks_for_places(request),
        value is Object,
        member(value, "uri"@) == Some(JsonView::Text(uri)) || (member(value, "uri"@) is None
            && member(value, "targetUri"@) == Some(JsonView::Text(uri))),
        member(value, "range"@) matches Some(held) && range_in(held) == Some(range),
    ensures
        decoded(request, value) == Ok::<ResponseView, Chars>(
            ResponseView::Locations(seq![LocationView { uri, range }]),
        ),
{
}

/// A link is read as the range of the name that it links to, not that of the
/// whole declaration: wherever it has a readable `targetSelectionRange` and
/// no range of its own, that is the range, whatever its `targetRange` holds.
pub proof fn law_a_link_leads_to_the_name(
    request: PythonRequest,
    value: JsonView,
    uri: Chars,
    selection: JsonView,
    range: Range,
)
    requires
        asks_for_places(request),
        value is Object,
        member(value, "uri"@) is None,
        member(value, "targetUri"@) == Some(JsonView::Text(uri)),
        member(value, "range"@) is None,
        member(value, "targetSelectionRange"@) == Some(selection),
        range_in(selection) == Some(range),
    ensures
        location_in(value) == Some(LocationView { uri, range }),
        decoded(request, value) == Ok::<ResponseView, Chars>(
            ResponseView::Locations(seq![LocationView { uri, range }]),
        ),
        decoded(request, JsonView::Array(seq![value])) == Ok::<ResponseView, Chars>(
            ResponseView::Locations(seq![LocationView { uri, range }]),
        ),
{
    lemma_one_item(value, LocationView { uri, range });
}

proof fn lemma_one_item(value: JsonView, location: LocationView)
    requires
        location_in(value) == Some(location),
    ensures
        locations_in(JsonView::Array(seq![value])) == seq![location],
{
    let reading = |item: JsonView| location_in(item);
    let items = seq![value];
    assert(items.take(0) =~= Seq::empty());
    assert(items.take(1) =~= items);
    items.lemma_filter_map_take_succ(reading, 0);
    assert(Seq::<JsonView>::empty().filter_map(reading) =~= Seq::empty());
}

/// A link without a range of a name is read as its `targetRange`, and one
/// whose `targetSelectionRange` is there but cannot be read is not read
/// another way.
pub proof fn law_a_link_without_a_name_range(value: JsonView, uri: Chars)
    requires
        value is Object,
        member(value, "uri"@) is None,
        member(value, "targetUri"@) == Some(JsonView::Text(uri)),
        member(value, "range"@) is None,
    ensures
        member(value, "targetSelectionRange"@) is None ==> location_in(value) == match member(
            value,
            "targetRange"@,
        ) {
            Some(held) => match range_in(held) {
                Some(range) => Some(LocationView { uri, range }),
                None => None,
            },
            None => None,
        },
        member(value, "targetSelectionRange"@) is Some && range_in(
            member(value, "targetSelectionRange"@)->0,
        ) is None ==> location_in(value) is None,
{
}

/// Something without a document or without a range is no location, and is
/// left out rather than read as another.
pub proof fn law_what_names_no_place_is_left_out(value: JsonView)
    ensures
        member(value, "uri"@) is None && member(value, "targetUri"@) is None ==> location_in(
            value,
        ) is None,
        member(value, "uri"@) matches Some(held) ==> (!(held is Text) ==> location_in(
            value,
        ) is None),
        member(value, "range"@) is None && member(value, "targetSelectionRange"@) is None
            && member(value, "targetRange"@) is None ==> location_in(value) is None,
        member(value, "range"@) matches Some(held) ==> (range_in(held) is None ==> location_in(
            value,
        ) is None),
        !(value is Array) && !(value is Object) ==> locations_in(value).len() == 0,
{
}

/// The places of an answer are those of its items, in order: what is
/// readable of one part of a list does not depend on another.
pub proof fn law_each_item_is_read_for_itself(first: Seq<JsonView>, second: Seq<JsonView>)
    ensures
        locations_in(JsonView::Array(first + second)) == locations_in(JsonView::Array(first))
            + locations_in(JsonView::Array(second)),
        locations_in(JsonView::Array(Seq::empty())).len() == 0,
    decreases second.len(),
{
    let reading = |item: JsonView| location_in(item);
    lemma_filter_map_concat(first, second, reading);
    assert(Seq::<JsonView>::empty().filter_map(reading) =~= Seq::empty());
}

pub proof fn lemma_filter_map_concat<A, B>(
    first: Seq<A>,
    second: Seq<A>,
    reading: spec_fn(A) -> Option<B>,
)
    ensures
        (first + second).filter_map(reading) == first.filter_map(reading) + second.filter_map(
            reading,
        ),
    decreases second.len(),
{
    if second.len() == 0 {
        assert(first + second =~= first);
        assert(second.filter_map(reading) =~= Seq::empty());
        assert(first.filter_map(reading) + Seq::<B>::empty() =~= first.filter_map(reading));
    } else {
        let all = first + second;
        let n = all.len() - 1;
        lemma_filter_map_concat(first, second.drop_last(), reading);
        all.lemma_filter_map_take_succ(reading, n);
        second.lemma_filter_map_take_succ(reading, second.len() - 1);
        assert(all.take(n) =~= first + second.drop_last());
        assert(all.take(n + 1) =~= all);
        assert(second.take(second.len() - 1) =~= second.drop_last());
        assert(second.take(second.len() as int) =~= second);
        assert(all[n] == second.last());
        assert(all.filter_map(reading) =~= first.filter_map(reading) + second.filter_map(reading));
    }
}

/// What a question is answered by is read as what was asked: a version as a
/// text, a snapshot as a number, a module as the file it is or as none, and
/// a version or snapshot that is something else is an error.
pub proof fn law_an_answer_is_read_as_what_was_asked(
    request: PythonRequest,
    text: Chars,
    value: u64,
    other: JsonView,
)
    ensures
        request is ProtocolVersion ==> decoded(request, JsonView::Text(text)) == Ok::<
            ResponseView,
            Chars,
        >(ResponseView::ProtocolVersion(text)),
        request is ProtocolVersion && !(other is Text) ==> decoded(request, other) is Err,
        request is Snapshot ==> decoded(request, json_of_number(value)) == Ok::<
            ResponseView,
            Chars,
        >(ResponseView::Snapshot(value)),
        request is Snapshot && !(other matches JsonView::Number(NumberView::Unsigned(_)))
            ==> decoded(request, other) is Err,
        request is ResolveImport ==> decoded(request, JsonView::Text(text)) == Ok::<
            ResponseView,
            Chars,
        >(ResponseView::Import(Some(text))),
        request is ResolveImport && !(other is Text) ==> decoded(request, other) == Ok::<
            ResponseView,
            Chars,
        >(ResponseView::Import(None)),
        request is WatchedFilesChanged ==> decoded(request, other) == Ok::<ResponseView, Chars>(
            ResponseView::Delivered,
        ),
        request is PrepareCallHierarchy && other is Array ==> decoded(request, other) == Ok::<
            ResponseView,
            Chars,
        >(ResponseView::CallHierarchyItems(other->Array_0)),
        request is PrepareCallHierarchy && !(other is Array) ==> decoded(request, other) == Ok::<
            ResponseView,
            Chars,
        >(ResponseView::CallHierarchyItems(Seq::empty())),
        asks_for_places(request) && !(other is Array) && !(other is Object) ==> decoded(
            request,
            other,
        ) == Ok::<ResponseView, Chars>(ResponseView::Locations(Seq::empty())),
        request is SearchPaths && !(other is Array) ==> decoded(request, other) == Ok::<
            ResponseView,
            Chars,
        >(ResponseView::SearchPaths(Seq::empty())),
        request is IncomingCalls && !(other is Array) ==> decoded(request, other) == Ok::<
            ResponseView,
            Chars,
        >(ResponseView::IncomingCalls(Seq::empty())),
{
}

/// The search paths are the texts of the answer, in its order.
pub proof fn law_search_paths_are_the_texts(request: PythonRequest, paths: Seq<Chars>)
    requires
        request is SearchPaths,
    ensures
        decoded(request, texts_array(paths)) == Ok::<ResponseView, Chars>(
            ResponseView::SearchPaths(paths),
        ),
    decreases paths.len(),
{
    let reading = |item: JsonView| crate::json::text_in(item);
    let wrap = |text: Chars| JsonView::Text(text);
    let items = paths.map_values(wrap);
    if paths.len() == 0 {
        assert(items.filter_map(reading) =~= paths);
    } else {
        law_search_paths_are_the_texts(request, paths.drop_last());
        let n = items.len() - 1;
        items.lemma_filter_map_take_succ(reading, n);
        assert(items.take(n) =~= paths.drop_last().map_values(wrap));
        assert(items.take(n + 1) =~= items);
        assert(items.filter_map(reading) =~= paths);
    }
}

/// A type is placed by the node of its declaration, or named by its module;
/// one with neither says nothing, and neither does what is no object.
pub proof fn law_a_type_is_its_declaration_or_its_module(request: PythonRequest, value: JsonView)
    requires
        request is DeclaredType || request is ComputedType || request is ExpectedType,
    ensures
        ({
            let node = match member(value, "declaration"@) {
                Some(declaration) => member(declaration, "node"@),
                None => None,
            };
            let place = match node {
                Some(held) => location_in(held),
                None => None,
            };
            let module_name = match member(value, "moduleName"@) {
                Some(JsonView::Text(name)) => Some(name),
                _ => None,
            };
            let module_uri = match member(value, "uri"@) {
                Some(JsonView::Text(uri)) => Some(uri),
                _ => None,
            };
            &&& decoded(request, value) matches Ok(ResponseView::Type(found))
            &&& found is Some <==> value is Object && (place is Some || module_name is Some)
            &&& found matches Some(answer) ==> answer.declaration == place && answer.module_name
                == module_name && answer.module_uri == module_uri
        }),
{
}

/// A caller is read with the place that it calls from and every readable
/// range of its calls; one without a place is left out.
pub proof fn law_a_caller_is_its_place_and_its_ranges(
    value: JsonView,
    from: JsonView,
    ranges: Seq<Range>,
)
    requires
        member(value, "from"@) == Some(from),
        member(value, "fromRanges"@) == Some(
            JsonView::Array(ranges.map_values(|range: Range| range_view(range))),
        ),
    ensures
        location_in(from) matches Some(place) ==> call_in(value) == Some(
            IncomingCallView { from: place, from_ranges: ranges },
        ),
        location_in(from) is None ==> call_in(value) is None,
{
    lemma_ranges_read(ranges);
}

proof fn lemma_ranges_read(ranges: Seq<Range>)
    ensures
        ranges.map_values(|range: Range| range_view(range)).filter_map(
            |item: JsonView| range_in(item),
        ) == ranges,
    decreases ranges.len(),
{
    let reading = |item: JsonView| range_in(item);
    let write = |range: Range| range_view(range);
    let items = ranges.map_values(write);
    if ranges.len() == 0 {
        assert(items.filter_map(reading) =~= ranges);
    } else {
        lemma_ranges_read(ranges.drop_last());
        let n = items.len() - 1;
        items.lemma_filter_map_take_succ(reading, n);
        law_ranges_are_read_as_they_are_written(JsonView::Null, ranges.last());
        assert(items.take(n) =~= ranges.drop_last().map_values(write));
        assert(items.take(n + 1) =~= items);
        assert(items.filter_map(reading) =~= ranges);
    }
}

/// Every question is sent under the protocol's name for it.
pub proof fn law_questions_go_by_their_names(request: PythonRequest)
    ensures
        request is ProtocolVersion ==> wire_method(request)
            == "typeServer/getSupportedProtocolVersion"@,
        request is Snapshot ==> wire_method(request) == "typeServer/getSnapshot"@,
        request is SearchPaths ==> wire_method(request) == "typeServer/getPythonSearchPaths"@,
        request is ResolveImport ==> wire_method(request) == "typeServer/resolveImport"@,
        request is DeclaredType ==> wire_method(request) == "typeServer/getDeclaredType"@,
        request is ComputedType ==> wire_method(request) == "typeServer/getComputedType"@,
        request is ExpectedType ==> wire_method(request) == "typeServer/getExpectedType"@,
        request is Definition ==> wire_method(request) == "textDocument/definition"@,
        request is Declaration ==> wire_method(request) == "textDocument/declaration"@,
        request is TypeDefinition ==> wire_method(request) == "textDocument/typeDefinition"@,
        request is References ==> wire_method(request) == "textDocument/references"@,
        request is PrepareCallHierarchy ==> wire_method(request)
            == "textDocument/prepareCallHierarchy"@,
        request is IncomingCalls ==> wire_method(request) == "callHierarchy/incomingCalls"@,
        request is WatchedFilesChanged ==> wire_method(request)
            == "workspace/didChangeWatchedFiles"@,
{
}

/// The document that a request is about, if it is about one.
pub open spec fn document_of(request: PythonRequest) -> Option<Chars> {
    match request {
        PythonRequest::SearchPaths { from_uri, .. } => Some(from_uri@),
        PythonRequest::ResolveImport { source_uri, .. } => Some(source_uri@),
        PythonRequest::DeclaredType { uri, .. } => Some(uri@),
        PythonRequest::ComputedType { uri, .. } => Some(uri@),
        PythonRequest::ExpectedType { uri, .. } => Some(uri@),
        PythonRequest::Definition { uri, .. } => Some(uri@),
        PythonRequest::Declaration { uri, .. } => Some(uri@),
        PythonRequest::TypeDefinition { uri, .. } => Some(uri@),
        PythonRequest::References { uri, .. } => Some(uri@),
        PythonRequest::PrepareCallHierarchy { uri, .. } => Some(uri@),
        _ => None,
    }
}

/// The place in a document that a request is about, if it is about one.
pub open spec fn place_of(request: PythonRequest) -> Option<Position> {
    match request {
        PythonRequest::Definition { position, .. } => Some(position),
        PythonRequest::Declaration { position, .. } => Some(position),
        PythonRequest::TypeDefinition { position, .. } => Some(position),
        PythonRequest::References { position, .. } => Some(position),
        PythonRequest::PrepareCallHierarchy { position, .. } => Some(position),
        _ => None,
    }
}

/// The range that a request asks the type of, and its snapshot.
pub open spec fn typed_range(request: PythonRequest) -> Option<(Range, u64)> {
    match request {
        PythonRequest::DeclaredType { range, snapshot, .. } => Some((range, snapshot)),
        PythonRequest::ComputedType { range, snapshot, .. } => Some((range, snapshot)),
        PythonRequest::ExpectedType { range, snapshot, .. } => Some((range, snapshot)),
        _ => None,
    }
}

/// A question about a place carries the document under `textDocument` and the
/// place under `position`; one about references says besides whether the
/// declaration counts.
pub proof fn law_a_question_about_a_place_names_it(
    request: PythonRequest,
    uri: Chars,
    place: Position,
)
    requires
        document_of(request) == Some(uri),
        place_of(request) == Some(place),
    ensures
        wire_params(request) matches Some(params) && {
            &&& member(params, "textDocument"@) matches Some(document)
            &&& member(document, "uri"@) == Some(JsonView::Text(uri))
            &&& member(params, "position"@) matches Some(position)
            &&& position_in(position) == Some(place)
            &&& member(params, "snapshot"@) is None
            &&& request matches PythonRequest::References { include_declaration, .. } ==> {
                &&& member(params, "context"@) matches Some(context)
                &&& member(context, "includeDeclaration"@) == Some(
                    JsonView::Bool(include_declaration),
                )
            }
        },
        carried_snapshot(request) is None,
{
    lemma_names_differ();
    law_places_are_read_as_they_are_written(JsonView::Null, place);
    let named = Seq::empty().push(("uri"@, JsonView::Text(uri)));
    lemma_lookup_push(Seq::empty(), "uri"@, JsonView::Text(uri), "uri"@);
    let document = JsonView::Object(named);
    let both = Seq::empty().push(("textDocument"@, document)).push(
        ("position"@, position_json(place)),
    );
    lemma_two_members("textDocument"@, document, "position"@, position_json(place), "textDocument"@);
    lemma_two_members("textDocument"@, document, "position"@, position_json(place), "position"@);
    lemma_two_members("textDocument"@, document, "position"@, position_json(place), "snapshot"@);
    if let PythonRequest::References { include_declaration, .. } = request {
        let counted = JsonView::Bool(include_declaration);
        let context = JsonView::Object(Seq::empty().push(("includeDeclaration"@, counted)));
        lemma_lookup_push(Seq::empty(), "includeDeclaration"@, counted, "includeDeclaration"@);
        lemma_two_members("textDocument"@, document, "position"@, position_json(place), "context"@);
        lemma_lookup_push(both, "context"@, context, "textDocument"@);
        lemma_lookup_push(both, "context"@, context, "position"@);
        lemma_lookup_push(both, "context"@, context, "context"@);
        lemma_lookup_push(both, "context"@, context, "snapshot"@);
    }
}

/// A question about a type carries the document and the range under `arg`,
/// and the snapshot that it is asked on.
pub proof fn law_a_question_about_a_type_names_its_range(
    request: PythonRequest,
    uri: Chars,
    range: Range,
    snapshot: u64,
)
    requires
        document_of(request) == Some(uri),
        typed_range(request) == Some((range, snapshot)),
    ensures
        carried_snapshot(request) == Some(snapshot),
        wire_params(request) matches Some(params) && {
            &&& member(params, "arg"@) matches Some(arg)
            &&& member(arg, "uri"@) == Some(JsonView::Text(uri))
            &&& member(arg, "range"@) matches Some(asked)
            &&& range_in(asked) == Some(range)
            &&& member(params, "snapshot"@) == Some(json_of_number(snapshot))
        },
{
    lemma_names_differ();
    law_ranges_are_read_as_they_are_written(JsonView::Null, range);
    lemma_two_members("uri"@, JsonView::Text(uri), "range"@, range_view(range), "uri"@);
    lemma_two_members("uri"@, JsonView::Text(uri), "range"@, range_view(range), "range"@);
    let arg = JsonView::Object(
        Seq::empty().push(("uri"@, JsonView::Text(uri))).push(("range"@, range_view(range))),
    );
    lemma_two_members("arg"@, arg, "snapshot"@, json_of_number(snapshot), "arg"@);
    lemma_two_members("arg"@, arg, "snapshot"@, json_of_number(snapshot), "snapshot"@);
}

/// A question about modules carries the document it is asked from, the module
/// as it is written, and the snapshot that it is asked on.
pub proof fn law_a_question_about_modules_names_them(request: PythonRequest)
    ensures
        request matches PythonRequest::SearchPaths { from_uri, snapshot } ==> {
            &&& carried_snapshot(request) == Some(snapshot)
            &&& wire_params(request) matches Some(params)
            &&& member(params, "fromUri"@) == Some(JsonView::Text(from_uri@))
            &&& member(params, "snapshot"@) == Some(json_of_number(snapshot))
        },
        request matches PythonRequest::ResolveImport { source_uri, module, snapshot } ==> {
            &&& carried_snapshot(request) == Some(snapshot)
            &&& wire_params(request) matches Some(params)
            &&& member(params, "sourceUri"@) == Some(JsonView::Text(source_uri@))
            &&& member(params, "moduleDescriptor"@) matches Some(descriptor)
            &&& member(descriptor, "leadingDots"@) == Some(
                json_of_number(module.leading_dots as u64),
            )
            &&& member(descriptor, "nameParts"@) == Some(
                JsonView::Array(
                    all_chars(module.name_parts@).map_values(|part: Chars| JsonView::Text(part)),
                ),
            )
            &&& member(params, "snapshot"@) == Some(json_of_number(snapshot))
        },
        request is ProtocolVersion || request is Snapshot ==> wire_params(request) is None
            && carried_snapshot(request) is None,
        request matches PythonRequest::IncomingCalls { item } ==> {
            &&& carried_snapshot(request) is None
            &&& wire_params(request) matches Some(params)
            &&& member(params, "item"@) == Some(item@)
        },
{
    lemma_names_differ();
    match request {
        PythonRequest::SearchPaths { from_uri, snapshot } => {
            let uri = JsonView::Text(from_uri@);
            lemma_two_members("fromUri"@, uri, "snapshot"@, json_of_number(snapshot), "fromUri"@);
            lemma_two_members("fromUri"@, uri, "snapshot"@, json_of_number(snapshot), "snapshot"@);
        },
        PythonRequest::ResolveImport { source_uri, module, snapshot } => {
            let uri = JsonView::Text(source_uri@);
            let dots = json_of_number(module.leading_dots as u64);
            let parts = texts_array(all_chars(module.name_parts@));
            lemma_two_members("leadingDots"@, dots, "nameParts"@, parts, "leadingDots"@);
            lemma_two_members("leadingDots"@, dots, "nameParts"@, parts, "nameParts"@);
            let descriptor = JsonView::Object(
                Seq::empty().push(("leadingDots"@, dots)).push(("nameParts"@, parts)),
            );
            let both = Seq::empty().push(("sourceUri"@, uri)).push(
                ("moduleDescriptor"@, descriptor),
            );
            lemma_two_members("sourceUri"@, uri, "moduleDescriptor"@, descriptor, "sourceUri"@);
            lemma_two_members(
                "sourceUri"@,
                uri,
                "moduleDescriptor"@,
                descriptor,
                "moduleDescriptor"@,
            );
            lemma_two_members("sourceUri"@, uri, "moduleDescriptor"@, descriptor, "snapshot"@);
            lemma_lookup_push(both, "snapshot"@, json_of_number(snapshot), "sourceUri"@);
            lemma_lookup_push(both, "snapshot"@, json_of_number(snapshot), "moduleDescriptor"@);
            lemma_lookup_push(both, "snapshot"@, json_of_number(snapshot), "snapshot"@);
        },
        PythonRequest::IncomingCalls { item } => {
            lemma_lookup_push(Seq::empty(), "item"@, item@, "item"@);
        },
        _ => {},
    }
}

/// A notification of file changes names every change in order, each by its
/// document and by the protocol's number for its kind: one created, two
/// changed, three deleted.
pub proof fn law_file_changes_are_told_one_by_one(changes: Vec<WatchedChange>, at: int)
    requires
        0 <= at < changes@.len(),
    ensures
        wire_params(PythonRequest::WatchedFilesChanged { changes }) matches Some(params) && {
            &&& member(params, "changes"@) matches Some(JsonView::Array(told))
            &&& told.len() == changes@.len()
            &&& member(told[at], "uri"@) == Some(JsonView::Text(changes@[at].uri@))
            &&& member(told[at], "type"@) == Some(
                json_of_number(
                    match changes@[at].kind {
                        WatchedChangeKind::Created => 1,
                        WatchedChangeKind::Changed => 2,
                        WatchedChangeKind::Deleted => 3,
                    },
                ),
            )
        },
        carried_snapshot(PythonRequest::WatchedFilesChanged { changes }) is None,
{
    lemma_names_differ();
    let told = JsonView::Array(changes@.map_values(|change: WatchedChange| change_view(change)));
    lemma_lookup_push(Seq::empty(), "changes"@, told, "changes"@);
    let uri = JsonView::Text(changes@[at].uri@);
    let code = json_of_number(
        match changes@[at].kind {
            WatchedChangeKind::Created => 1,
            WatchedChangeKind::Changed => 2,
            WatchedChangeKind::Deleted => 3,
        },
    );
    lemma_two_members("uri"@, uri, "type"@, code, "uri"@);
    lemma_two_members("uri"@, uri, "type"@, code, "type"@);
}

/// The backend's version may be parsed exactly when it is `0.4.` and a patch
/// number; the version that was tried is `0.4.1`.
pub proof fn law_only_patches_of_one_version_are_parsed(version: Chars)
    ensures
        classification(version) != ProtocolCompatibility::Unknown <==> exists|patch: Chars|
            patch.len() > 0 && (forall|i: int|
                0 <= i < patch.len() ==> '0' <= #[trigger] patch[i] <= '9') && version
                == #[trigger] ("0.4."@ + patch),
        classification(version) == ProtocolCompatibility::Tested <==> version == "0.4.1"@,
{
    reveal_strlit("0.4.");
    reveal_strlit("0.4.1");
    reveal_strlit("0");
    reveal_strlit("4");
    assert(seq!['.'] == "."@) by {
        reveal_strlit(".");
    }
    if patch_of_tested(version) {
        let parts = split(version, '.');
        lemma_split_then_join(version, '.');
        lemma_join_three(parts, seq!['.']);
        assert(version_component(parts[2]));
        let patch = parts[2];
        assert forall|i: int| 0 <= i < patch.len() implies '0' <= #[trigger] patch[i] <= '9' by {
            assert(ascii_digit(parts[2][i]));
        }
        assert(version =~= "0.4."@ + patch);
    }
    if version == "0.4.1"@ {
        assert(version =~= "0.4."@ + seq!['1']);
    }
    assert forall|patch: Chars|
        patch.len() > 0 && (forall|i: int|
            0 <= i < patch.len() ==> '0' <= #[trigger] patch[i] <= '9') && version
            == #[trigger] ("0.4."@ + patch) implies patch_of_tested(version) by {
        let parts = seq!["0"@, "4"@, patch];
        lemma_join_three(parts, seq!['.']);
        assert(join(parts, seq!['.']) =~= version);
        assert(!"0"@.contains('.'));
        assert(!"4"@.contains('.'));
        if patch.contains('.') {
            let k = choose|k: int| 0 <= k < patch.len() && patch[k] == '.';
            assert('0' <= patch[k]);
        }
        assert forall|i: int| 0 <= i < parts.len() implies !(#[trigger] parts[i]).contains('.') by {}
        lemma_join_then_split(parts, '.');
        assert(version_component("0"@)) by {
            assert(forall|i: int| 0 <= i < "0"@.len() ==> ascii_digit(#[trigger] "0"@[i]));
        }
        assert(version_component("4"@)) by {
            assert(forall|i: int| 0 <= i < "4"@.len() ==> ascii_digit(#[trigger] "4"@[i]));
        }
        assert(version_component(patch)) by {
            assert forall|i: int| 0 <= i < patch.len() implies ascii_digit(#[trigger] patch[i]) by {}
        }
        assert forall|i: int| 0 <= i < 3 implies version_component(
            #[trigger] split(version, '.')[i],
        ) by {}
    }
}

proof fn lemma_join_three(parts: Seq<Chars>, separator: Chars)
    requires
        parts.len() == 3,
    ensures
        join(parts, separator) == parts[0] + separator + parts[1] + separator + parts[2],
{
    reveal_with_fuel(join, 4);
    let two = parts.drop_last();
    assert(two.len() == 2 && two[0] == parts[0] && two.last() == parts[1]);
    assert(two.drop_last().len() == 1 && two.drop_last()[0] == parts[0]);
}

/// A module path is read as it is written: some dots, then the names that
/// stand between further dots. A single name without dots is no module path.
pub proof fn law_a_module_path_is_read_as_written(dots: nat, names: Seq<Chars>)
    requires
        dots <= u32::MAX,
        forall|i: int| 0 <= i < names.len() ==> identifier(#[trigger] names[i]),
        forall|i: int| 0 <= i < names.len() ==> !(#[trigger] names[i]).contains('.'),
    ensures
        ({
            let written = Seq::new(dots, |i: int| '.') + join(names, seq!['.']);
            &&& leading_dots(written) == dots
            &&& module_parts(written) == names
            &&& module_site(written) <==> dots > 0 || names.len() > 1
        }),
{
    let prefix = Seq::new(dots, |i: int| '.');
    let rest = join(names, seq!['.']);
    let written = prefix + rest;
    lemma_no_dot_first(names);
    lemma_dots_counted(dots, rest);
    assert(written.skip(dots as int) =~= rest);
    if names.len() == 0 {
        assert(rest =~= Seq::empty());
    } else {
        lemma_join_then_split(names, '.');
        lemma_joined_has_length(names);
    }
    if dots > 0 {
        assert(written[0] == '.');
        assert(written.contains('.'));
    } else {
        assert(written =~= rest);
        if names.len() == 0 {
            assert(!written.contains('.'));
        } else if names.len() == 1 {
            assert(rest == names[0]);
        } else {
            let head = join(names.drop_last(), seq!['.']);
            assert(rest[head.len() as int] == '.');
            assert(written.contains('.'));
        }
    }
}

/// A Python name starts with a letter or an underscore and goes on with
/// letters, numbers and underscores.
pub proof fn law_a_python_name_starts_with_a_letter(first: char, rest: Chars)
    ensures
        identifier(seq![first] + rest) <==> (first == '_' || crate::text::alphabetic(first))
            && forall|i: int|
            0 <= i < rest.len() ==> #[trigger] rest[i] == '_' || crate::text::alphanumeric(rest[i]),
        !identifier(Seq::empty()),
{
    let text = seq![first] + rest;
    assert(text[0] == first);
    if identifier(text) {
        assert forall|i: int| 0 <= i < rest.len() implies #[trigger] rest[i] == '_'
            || crate::text::alphanumeric(rest[i]) by {
            assert(text[i + 1] == rest[i]);
        }
    }
    if forall|i: int|
        0 <= i < rest.len() ==> #[trigger] rest[i] == '_' || crate::text::alphanumeric(rest[i]) {
        assert forall|i: int| 1 <= i < text.len() implies #[trigger] text[i] == '_'
            || crate::text::alphanumeric(text[i]) by {
            assert(text[i] == rest[i - 1]);
        }
    }
}

/// A version that is no text and a snapshot that is no number cannot be
/// read, and say what was expected; no other answer is unreadable.
pub proof fn law_an_unreadable_answer_says_what_was_expected(
    request: PythonRequest,
    result: JsonView,
)
    ensures
        decoded(request, result) is Err <==> (request is ProtocolVersion && !(result is Text)) || (
        request is Snapshot && !(result is Number && result->Number_0 is Unsigned)),
        request is ProtocolVersion && decoded(request, result) is Err ==> decoded(
            request,
            result,
        )->Err_0 == "expected a version string"@,
        request is Snapshot && decoded(request, result) is Err ==> decoded(request, result)->Err_0
            == "expected a snapshot number"@,
{
}

proof fn lemma_joined_has_length(names: Seq<Chars>)
    requires
        names.len() > 0,
        forall|i: int| 0 <= i < names.len() ==> identifier(#[trigger] names[i]),
    ensures
        join(names, seq!['.']).len() > 0,
{
    assert(identifier(names[0]));
    if names.len() > 1 {
        assert(identifier(names[names.len() - 1]));
        assert(names.last() == names[names.len() - 1]);
    }
}

proof fn lemma_no_dot_first(names: Seq<Chars>)
    requires
        forall|i: int| 0 <= i < names.len() ==> identifier(#[trigger] names[i]),
        forall|i: int| 0 <= i < names.len() ==> !(#[trigger] names[i]).contains('.'),
    ensures
        join(names, seq!['.']).len() > 0 ==> join(names, seq!['.'])[0] != '.',
    decreases names.len(),
{
    if names.len() == 1 {
        assert(identifier(names[0]));
        if names[0][0] == '.' {
            assert(names[0].contains('.'));
        }
    } else if names.len() > 1 {
        let fewer = names.drop_last();
        assert forall|i: int| 0 <= i < fewer.len() implies identifier(#[trigger] fewer[i]) by {
            assert(fewer[i] == names[i]);
        }
        assert forall|i: int| 0 <= i < fewer.len() implies !(#[trigger] fewer[i]).contains('.') by {
            assert(fewer[i] == names[i]);
        }
        lemma_no_dot_first(fewer);
        lemma_joined_has_length(fewer);
    }
}

proof fn lemma_dots_counted(dots: nat, rest: Chars)
    requires
        rest.len() > 0 ==> rest[0] != '.',
    ensures
        leading_dots(Seq::new(dots, |i: int| '.') + rest) == dots,
    decreases dots,
{
    let written = Seq::new(dots, |i: int| '.') + rest;
    if dots == 0 {
        assert(written =~= rest);
    } else {
        let fewer = (dots - 1) as nat;
        assert(written.skip(1) =~= Seq::new(fewer, |i: int| '.') + rest);
        lemma_dots_counted(fewer, rest);
    }
}

} // verus!

//! Replies as JSON values.

use vstd::prelude::*;
use crate::index::{DocumentView, HaproxyLsp, valid_index};
use crate::json::{
    JsonShape, array_value, bool_value, clone_value, members_of, null_value, number_value,
    object_value, parsed_json, read_json, rendered_json, shape, text_value, write_json,
};
use crate::model::{Position, Range};
use crate::protocol::{
    Location, LocationView, Reply, ReplyView, call_id, content_view, decode_request, index_after,
    location_views, needed_file, reply_to, request_of,
};

verus! {

/// Whether `value` is an object with exactly the keys `keys`.
pub open spec fn is_object_with(value: serde_json::Value, keys: Set<Seq<char>>) -> bool {
    shape(value) matches JsonShape::Object(members) && members.dom() == keys
}

/// The member under `key` of the object `value`.
pub open spec fn entry(value: serde_json::Value, key: Seq<char>) -> serde_json::Value {
    match shape(value) {
        JsonShape::Object(members) => members[key],
        _ => arbitrary(),
    }
}

/// Whether `value` is the JSON integer `number`.
pub open spec fn is_number(value: serde_json::Value, number: u64) -> bool {
    shape(value) == JsonShape::Number(Some(number))
}

/// Whether `value` is the object `{line, character}` of `position`.
pub open spec fn is_position(value: serde_json::Value, position: Position) -> bool {
    &&& is_object_with(value, set!["line"@, "character"@])
    &&& is_number(entry(value, "line"@), position.line as u64)
    &&& is_number(entry(value, "character"@), position.character as u64)
}

/// Whether `value` is the object `{start, end}` of `range`.
pub open spec fn is_range(value: serde_json::Value, range: Range) -> bool {
    &&& is_object_with(value, set!["start"@, "end"@])
    &&& is_position(entry(value, "start"@), range.start)
    &&& is_position(entry(value, "end"@), range.end)
}

/// Whether `value` is the object `{uri, range}` of `location`.
pub open spec fn is_location(value: serde_json::Value, location: LocationView) -> bool {
    &&& is_object_with(value, set!["uri"@, "range"@])
    &&& shape(entry(value, "uri"@)) == JsonShape::Text(location.uri)
    &&& is_range(entry(value, "range"@), location.range)
}

/// Whether `value` is the array of the objects of `locations`, in order.
pub open spec fn is_location_list(value: serde_json::Value, locations: Seq<LocationView>) -> bool {
    shape(value) matches JsonShape::Array(items) && items.len() == locations.len() && forall|
        i: int,
    |
        0 <= i < items.len() ==> is_location(#[trigger] items[i], locations[i])
}

/// Whether `value` states how documents are kept in step: open and close
/// are notified, and a change brings the full text, for which `change`
/// is 1.
pub open spec fn is_sync_options(value: serde_json::Value) -> bool {
    &&& is_object_with(value, set!["openClose"@, "change"@])
    &&& shape(entry(value, "openClose"@)) == JsonShape::Bool(true)
    &&& is_number(entry(value, "change"@), 1)
}

/// Whether `value` is the result of `initialize`: an object whose
/// `capabilities` announce definitions, declarations and full-text
/// synchronisation.
pub open spec fn is_capabilities(value: serde_json::Value) -> bool {
    &&& is_object_with(value, set!["capabilities"@])
    &&& is_object_with(
        entry(value, "capabilities"@),
        set!["definitionProvider"@, "declarationProvider"@, "textDocumentSync"@],
    )
    &&& shape(entry(entry(value, "capabilities"@), "definitionProvider"@)) == JsonShape::Bool(
        true,
    )
    &&& shape(entry(entry(value, "capabilities"@), "declarationProvider"@)) == JsonShape::Bool(
        true,
    )
    &&& is_sync_options(entry(entry(value, "capabilities"@), "textDocumentSync"@))
}

/// Whether `value` is the result that stands for `reply`: the capabilities;
/// the location of a definition, or null where none was found; the list of
/// the locations of a declaration's references.
pub open spec fn is_result(value: serde_json::Value, reply: ReplyView) -> bool {
    match reply {
        ReplyView::Capabilities => is_capabilities(value),
        ReplyView::Definition(Some(location)) => is_location(value, location),
        ReplyView::Definition(None) => shape(value) == JsonShape::Null,
        ReplyView::Declaration(locations) => is_location_list(value, locations),
    }
}

/// Whether `message` is the response with the result of `reply` to the
/// call with the id `id`: an object `{jsonrpc, id, result}` of version 2.0
/// that carries that id.
pub open spec fn is_response(
    message: serde_json::Value,
    id: serde_json::Value,
    reply: ReplyView,
) -> bool {
    &&& is_object_with(message, set!["jsonrpc"@, "id"@, "result"@])
    &&& shape(entry(message, "jsonrpc"@)) == JsonShape::Text("2.0"@)
    &&& entry(message, "id"@) == id
    &&& is_result(entry(message, "result"@), reply)
}

/// The object with the one member `a` under `key`.
fn object_of_one(key: &str, a: serde_json::Value) -> (value: serde_json::Value)
    ensures
        is_object_with(value, set![key@]),
        entry(value, key@) == a,
{
    let mut entries: Vec<(String, serde_json::Value)> = Vec::new();
    entries.push((key.to_owned(), a));
    let value = object_value(entries);
    proof {
        reveal_with_fuel(members_of, 2);
        assert(members_of(entries@).dom() =~= set![key@]);
    }
    value
}

/// The object with the two members `a` and `b` under their keys.
fn object_of_two(
    first: &str,
    a: serde_json::Value,
    second: &str,
    b: serde_json::Value,
) -> (value: serde_json::Value)
    requires
        first@ != second@,
    ensures
        is_object_with(value, set![first@, second@]),
        entry(value, first@) == a,
        entry(value, second@) == b,
{
    let mut entries: Vec<(String, serde_json::Value)> = Vec::new();
    entries.push((first.to_owned(), a));
    entries.push((second.to_owned(), b));
    let value = object_value(entries);
    proof {
        reveal_with_fuel(members_of, 3);
        assert(entries@.drop_last().last() == entries@[0]);
        assert(members_of(entries@).dom() =~= set![first@, second@]);
    }
    value
}

/// The object with the three members `a`, `b` and `c` under their keys.
fn object_of_three(
    first: &str,
    a: serde_json::Value,
    second: &str,
    b: serde_json::Value,
    third: &str,
    c: serde_json::Value,
) -> (value: serde_json::Value)
    requires
        first@ != second@,
        first@ != third@,
        second@ != third@,
    ensures
        is_object_with(value, set![first@, second@, third@]),
        entry(value, first@) == a,
        entry(value, second@) == b,
        entry(value, third@) == c,
{
    let mut entries: Vec<(String, serde_json::Value)> = Vec::new();
    entries.push((first.to_owned(), a));
    entries.push((second.to_owned(), b));
    entries.push((third.to_owned(), c));
    let value = object_value(entries);
    proof {
        reveal_with_fuel(members_of, 4);
        assert(entries@.drop_last().last() == entries@[1]);
        assert(entries@.drop_last().drop_last().last() == entries@[0]);
        assert(members_of(entries@).dom() =~= set![first@, second@, third@]);
    }
    value
}

/// `position` as a JSON object.
fn position_value(position: &Position) -> (value: serde_json::Value)
    ensures
        is_position(value, *position),
{
    proof {
        reveal_strlit("line");
        reveal_strlit("character");
        assert("line"@.len() != "character"@.len());
    }
    object_of_two(
        "line",
        number_value(position.line as u64),
        "character",
        number_value(position.character as u64),
    )
}

/// `range` as a JSON object.
fn range_value(range: &Range) -> (value: serde_json::Value)
    ensures
        is_range(value, *range),
{
    proof {
        reveal_strlit("start");
        reveal_strlit("end");
        assert("start"@.len() != "end"@.len());
    }
    object_of_two("start", position_value(&range.start), "end", position_value(&range.end))
}

/// `location` as a JSON object.
fn location_value(location: &Location) -> (value: serde_json::Value)
    ensures
        is_location(value, location@),
{
    proof {
        reveal_strlit("uri");
        reveal_strlit("range");
        assert("uri"@.len() != "range"@.len());
    }
    object_of_two(
        "uri",
        text_value(location.uri.as_str()),
        "range",
        range_value(&location.range),
    )
}

/// `locations` as a JSON array of objects.
fn location_list_value(locations: &Vec<Location>) -> (value: serde_json::Value)
    ensures
        is_location_list(value, location_views(locations@)),
{
    let mut items: Vec<serde_json::Value> = Vec::new();
    let mut i: usize = 0;
    while i < locations.len()
        invariant
            i <= locations.len(),
            items.len() == i,
            forall|j: int| 0 <= j < i ==> is_location(#[trigger] items@[j], locations@[j]@),
        decreases locations.len() - i,
    {
        items.push(location_value(&locations[i]));
        i += 1;
    }
    array_value(items)
}

/// The result of `initialize`.
fn capabilities_value() -> (value: serde_json::Value)
    ensures
        is_capabilities(value),
{
    proof {
        reveal_strlit("openClose");
        reveal_strlit("change");
        reveal_strlit("definitionProvider");
        reveal_strlit("declarationProvider");
        reveal_strlit("textDocumentSync");
        assert("openClose"@.len() == 9 && "change"@.len() == 6);
        assert("definitionProvider"@.len() == 18 && "declarationProvider"@.len() == 19);
        assert("textDocumentSync"@.len() == 16);
    }
    let sync = object_of_two("openClose", bool_value(true), "change", number_value(1));
    let capabilities = object_of_three(
        "definitionProvider",
        bool_value(true),
        "declarationProvider",
        bool_value(true),
        "textDocumentSync",
        sync,
    );
    object_of_one("capabilities", capabilities)
}

/// The response with the result of `reply` to the call with the id `id`.
pub fn encode_response(id: &serde_json::Value, reply: &Reply) -> (message: serde_json::Value)
    ensures
        is_response(message, *id, reply@),
{
    let result = match reply {
        Reply::Capabilities => capabilities_value(),
        Reply::Definition(Some(location)) => location_value(location),
        Reply::Definition(None) => null_value(),
        Reply::Declaration(locations) => location_list_value(locations),
    };
    let id = clone_value(id);
    proof {
        reveal_strlit("jsonrpc");
        reveal_strlit("id");
        reveal_strlit("result");
        assert("jsonrpc"@.len() == 7 && "id"@.len() == 2 && "result"@.len() == 6);
    }
    object_of_three("jsonrpc", text_value("2.0"), "id", id, "result", result)
}

/// What handling a message of shape `request` comes to, from the index
/// `table` and with the document text `content`: whether `response` is what
/// is sent back, and `after` what the index becomes. A message that makes no
/// request changes nothing and gets no response; a notification gets none
/// either; a call gets the response that carries its id and the result of
/// its reply.
pub open spec fn handled(
    table: Seq<DocumentView>,
    request: JsonShape,
    content: Option<Seq<char>>,
    after: Seq<DocumentView>,
    response: Option<serde_json::Value>,
) -> bool {
    match request_of(request) {
        Some(decoded) => after == index_after(table, decoded) && match (
            call_id(decoded),
            reply_to(table, decoded, content),
        ) {
            (Some(id), Some(reply)) => response matches Some(message) && is_response(
                message,
                id,
                reply,
            ),
            _ => response.is_none(),
        },
        None => after == table && response.is_none(),
    }
}

impl HaproxyLsp {
    /// Handles the message `request`: brings the index up to date where the
    /// message opens or changes a document, and gives the response where
    /// the message is a call. `content` is the text of the document that a
    /// query is about, or nothing where that text could not be had.
    pub fn handle_request(
        &mut self,
        request: &serde_json::Value,
        content: Option<&str>,
    ) -> (response: Option<serde_json::Value>)
        ensures
            valid_index(old(self)@),
            valid_index(final(self)@),
            handled(old(self)@, shape(*request), content_view(content), final(self)@, response),
    {
        proof {
            use_type_invariant(&*self);
        }
        let decoded = match decode_request(request) {
            Some(decoded) => decoded,
            None => {
                return None;
            },
        };
        match (decoded.id(), self.respond(&decoded, content)) {
            (Some(id), Some(reply)) => Some(encode_response(id, &reply)),
            _ => None,
        }
    }
}

/// The JSON value that `payload` is the text of; nothing for text that is
/// no JSON.
pub fn parse_message(payload: &str) -> (message: Option<serde_json::Value>)
    ensures
        message == parsed_json(payload@),
{
    match read_json(payload) {
        Ok(message) => Some(message),
        Err(_) => None,
    }
}

/// The text of the JSON value `message`.
pub fn render_message(message: &serde_json::Value) -> (text: Option<String>)
    ensures
        match text {
            Some(t) => rendered_json(*message) == Some(t@),
            None => rendered_json(*message).is_none(),
        },
{
    match write_json(message) {
        Ok(text) => Some(text),
        Err(_) => None,
    }
}


/// The file whose text the message with the text `payload` needs for its
/// answer: that of the document of a definition or declaration query. A
/// payload that is no JSON needs none, nor does a message that makes no
/// request.
pub open spec fn file_for(payload: Seq<char>) -> Option<Seq<char>> {
    match parsed_json(payload) {
        Some(message) => match request_of(shape(message)) {
            Some(request) => needed_file(request),
            None => None,
        },
        None => None,
    }
}

/// The file whose text the message with the text `payload` needs for its
/// answer.
pub fn message_document(payload: &str) -> (path: Option<String>)
    ensures
        match path {
            Some(p) => file_for(payload@) == Some(p@),
            None => file_for(payload@).is_none(),
        },
{
    match parse_message(payload) {
        Some(message) => match decode_request(&message) {
            Some(request) => request.document_path(),
            None => None,
        },
        None => None,
    }
}

impl HaproxyLsp {
    /// Handles the message whose text is `payload`, and gives the text of
    /// the response where there is one. A payload that is no JSON changes
    /// nothing and gets no response. `content` is the text of the document
    /// that a query is about, or nothing where that text could not be had.
    pub fn handle_message(&mut self, payload: &str, content: Option<&str>) -> (response: Option<
        String,
    >)
        ensures
            valid_index(old(self)@),
            valid_index(final(self)@),
            match parsed_json(payload@) {
                Some(request) => exists|message: Option<serde_json::Value>|
                    handled(
                        old(self)@,
                        shape(request),
                        content_view(content),
                        final(self)@,
                        message,
                    ) && match (message, response) {
                        (Some(m), Some(text)) => rendered_json(m) == Some(text@),
                        (Some(m), None) => rendered_json(m).is_none(),
                        (None, Some(text)) => false,
                        (None, None) => true,
                    },
                None => final(self)@ == old(self)@ && response.is_none(),
            },
    {
        proof {
            use_type_invariant(&*self);
        }
        let request = match parse_message(payload) {
            Some(request) => request,
            None => {
                return None;
            },
        };
        let message = self.handle_request(&request, content);
        match &message {
            Some(m) => render_message(m),
            None => None,
        }
    }
}

} // verus!

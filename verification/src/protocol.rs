//! The requests that the server understands and the replies that it gives,
//! as plain values, and the rules that take a request to its reply.

use vstd::prelude::*;
use crate::index::{DocumentView, HaproxyLsp, stored, valid_index};
use crate::json::{
    JsonShape, clone_value, member, shape, value_items, value_member, value_number, value_text,
};
use crate::model::{Position, Range, Reference, ReferenceView, reference_views};
use crate::query::{declaration_references, definition};
use crate::text::{same_chars, starts_with, to_chars, to_string};

verus! {

/// A place in some document.
#[derive(Debug)]
pub struct Location {
    pub uri: String,
    pub range: Range,
}

/// The mathematical content of a `Location`.
pub struct LocationView {
    pub uri: Seq<char>,
    pub range: Range,
}

impl View for Location {
    type V = LocationView;

    open spec fn view(&self) -> LocationView {
        LocationView { uri: self.uri@, range: self.range }
    }
}

/// The contents of a list of locations.
pub open spec fn location_views(locations: Seq<Location>) -> Seq<LocationView> {
    locations.map_values(|location: Location| location@)
}

/// A message that the server understands, with the fields that it reads.
#[derive(Debug)]
#[allow(inconsistent_fields)]
pub enum Request {
    /// The call `initialize`.
    Initialize { id: serde_json::Value },
    /// The notification `textDocument/didOpen`, with the document and its
    /// text.
    DidOpen { uri: String, text: String },
    /// The notification `textDocument/didChange`, with the document and the
    /// text of its first change, where that change has one.
    DidChange { uri: String, text: Option<String> },
    /// The call `textDocument/definition`, with the document and the
    /// cursor.
    Definition { id: serde_json::Value, uri: String, position: Position },
    /// The call `textDocument/declaration`, with the document and the
    /// cursor.
    Declaration { id: serde_json::Value, uri: String, position: Position },
}

/// The mathematical content of a `Request`.
#[allow(inconsistent_fields)]
pub enum RequestView {
    Initialize { id: serde_json::Value },
    DidOpen { uri: Seq<char>, text: Seq<char> },
    DidChange { uri: Seq<char>, text: Option<Seq<char>> },
    Definition { id: serde_json::Value, uri: Seq<char>, position: Position },
    Declaration { id: serde_json::Value, uri: Seq<char>, position: Position },
}

impl View for Request {
    type V = RequestView;

    open spec fn view(&self) -> RequestView {
        match self {
            Request::Initialize { id } => RequestView::Initialize { id: *id },
            Request::DidOpen { uri, text } => RequestView::DidOpen { uri: uri@, text: text@ },
            Request::DidChange { uri, text } => RequestView::DidChange {
                uri: uri@,
                text: match text {
                    Some(t) => Some(t@),
                    None => None,
                },
            },
            Request::Definition { id, uri, position } => RequestView::Definition {
                id: *id,
                uri: uri@,
                position: *position,
            },
            Request::Declaration { id, uri, position } => RequestView::Declaration {
                id: *id,
                uri: uri@,
                position: *position,
            },
        }
    }
}

/// The shape of what stands under `key` in a value of shape `of`: a null
/// where `of` is no object or lacks the key.
pub open spec fn field(of: JsonShape, key: Seq<char>) -> JsonShape {
    match member(of, key) {
        Some(found) => shape(found),
        None => JsonShape::Null,
    }
}

/// The text of a JSON string.
pub open spec fn text_in(of: JsonShape) -> Option<Seq<char>> {
    match of {
        JsonShape::Text(text) => Some(text),
        _ => None,
    }
}

/// The value of a JSON number that is an unsigned 64-bit integer.
pub open spec fn number_in(of: JsonShape) -> Option<u64> {
    match of {
        JsonShape::Number(number) => number,
        _ => None,
    }
}

/// The URI at `textDocument.uri` of the parameters `params`.
pub open spec fn document_uri(params: JsonShape) -> Option<Seq<char>> {
    text_in(field(field(params, "textDocument"@), "uri"@))
}

/// The position at `position` of the parameters `params`. Line and
/// character are read as unsigned 64-bit integers and cut to 32 bits.
pub open spec fn cursor(params: JsonShape) -> Option<Position> {
    match (
        number_in(field(field(params, "position"@), "line"@)),
        number_in(field(field(params, "position"@), "character"@)),
    ) {
        (Some(line), Some(character)) => Some(
            Position { line: line as u32, character: character as u32 },
        ),
        _ => None,
    }
}

/// The text that a change notification carries: that of the first entry of
/// `contentChanges`, where there is a first entry and it has a `text` that
/// is a string. Without an array at `contentChanges` the notification is
/// not understood.
pub open spec fn changed_text(params: JsonShape) -> Option<Option<Seq<char>>> {
    match field(params, "contentChanges"@) {
        JsonShape::Array(changes) => Some(
            if changes.len() > 0 {
                text_in(field(shape(changes[0]), "text"@))
            } else {
                None
            },
        ),
        _ => None,
    }
}

/// The request that a message of shape `message` makes; none where the
/// method is missing or unknown, or where a field that the method needs is
/// missing or of another type. A call needs an `id`; a notification does
/// not.
pub open spec fn request_of(message: JsonShape) -> Option<RequestView> {
    let params = field(message, "params"@);
    match text_in(field(message, "method"@)) {
        None => None,
        Some(method) => if method == "initialize"@ {
            match member(message, "id"@) {
                Some(id) => Some(RequestView::Initialize { id }),
                None => None,
            }
        } else if method == "textDocument/didOpen"@ {
            match (document_uri(params), text_in(field(field(params, "textDocument"@), "text"@))) {
                (Some(uri), Some(text)) => Some(RequestView::DidOpen { uri, text }),
                _ => None,
            }
        } else if method == "textDocument/didChange"@ {
            match (document_uri(params), changed_text(params)) {
                (Some(uri), Some(text)) => Some(RequestView::DidChange { uri, text }),
                _ => None,
            }
        } else if method == "textDocument/definition"@ {
            match (member(message, "id"@), document_uri(params), cursor(params)) {
                (Some(id), Some(uri), Some(position)) => Some(
                    RequestView::Definition { id, uri, position },
                ),
                _ => None,
            }
        } else if method == "textDocument/declaration"@ {
            match (member(message, "id"@), document_uri(params), cursor(params)) {
                (Some(id), Some(uri), Some(position)) => Some(
                    RequestView::Declaration { id, uri, position },
                ),
                _ => None,
            }
        } else {
            None
        },
    }
}

/// The shape of `value`; that of a null where there is no value.
pub open spec fn shape_of(value: Option<&serde_json::Value>) -> JsonShape {
    match value {
        Some(found) => shape(*found),
        None => JsonShape::Null,
    }
}

/// Whether `a` and `b` hold the same text.
pub fn same_text(a: &str, b: &str) -> (r: bool)
    ensures
        r == (a@ == b@),
{
    let a = to_chars(a);
    let b = to_chars(b);
    same_chars(a.as_slice(), b.as_slice())
}

/// What stands under `key` in `value`, if `value` is there and has it.
fn inside<'a>(value: Option<&'a serde_json::Value>, key: &str) -> (r: Option<
    &'a serde_json::Value,
>)
    ensures
        shape_of(r) == field(shape_of(value), key@),
{
    match value {
        Some(found) => value_member(found, key),
        None => None,
    }
}

/// The text of `value`, if `value` is there and is a string.
fn text_of(value: Option<&serde_json::Value>) -> (r: Option<String>)
    ensures
        match r {
            Some(text) => text_in(shape_of(value)) == Some(text@),
            None => text_in(shape_of(value)).is_none(),
        },
{
    match value {
        Some(found) => match value_text(found) {
            Some(text) => Some(text.to_owned()),
            None => None,
        },
        None => None,
    }
}

/// The number that `value` is, if `value` is there and is an unsigned
/// 64-bit integer.
fn number_of(value: Option<&serde_json::Value>) -> (r: Option<u64>)
    ensures
        r == number_in(shape_of(value)),
{
    match value {
        Some(found) => value_number(found),
        None => None,
    }
}

/// The URI of the document that `params` name.
fn read_uri(params: Option<&serde_json::Value>) -> (r: Option<String>)
    ensures
        match r {
            Some(uri) => document_uri(shape_of(params)) == Some(uri@),
            None => document_uri(shape_of(params)).is_none(),
        },
{
    text_of(inside(inside(params, "textDocument"), "uri"))
}

/// The cursor that `params` hold.
fn read_cursor(params: Option<&serde_json::Value>) -> (r: Option<Position>)
    ensures
        r == cursor(shape_of(params)),
{
    let position = inside(params, "position");
    let line: u64 = match number_of(inside(position, "line")) {
        Some(line) => line,
        None => {
            return None;
        },
    };
    let character: u64 = match number_of(inside(position, "character")) {
        Some(character) => character,
        None => {
            return None;
        },
    };
    Some(
        Position {
            line: #[verifier::truncate] (line as u32),
            character: #[verifier::truncate] (character as u32),
        },
    )
}

/// The text that the change notification with `params` carries.
fn read_changed_text(params: Option<&serde_json::Value>) -> (r: Option<Option<String>>)
    ensures
        match r {
            Some(Some(text)) => changed_text(shape_of(params)) == Some(Some(text@)),
            Some(None) => changed_text(shape_of(params)) == Some(None::<Seq<char>>),
            None => changed_text(shape_of(params)).is_none(),
        },
{
    let changes = match inside(params, "contentChanges") {
        Some(changes) => match value_items(changes) {
            Some(changes) => changes,
            None => {
                return None;
            },
        },
        None => {
            return None;
        },
    };
    if changes.len() == 0 {
        return Some(None);
    }
    Some(text_of(value_member(&changes[0], "text")))
}

/// The request that `message` makes.
pub fn decode_request(message: &serde_json::Value) -> (r: Option<Request>)
    ensures
        match r {
            Some(request) => request_of(shape(*message)) == Some(request@),
            None => request_of(shape(*message)).is_none(),
        },
{
    let method = match text_of(value_member(message, "method")) {
        Some(method) => method,
        None => {
            return None;
        },
    };
    let method = method.as_str();
    let params = value_member(message, "params");
    let id = value_member(message, "id");
    if same_text(method, "initialize") {
        match id {
            Some(id) => Some(Request::Initialize { id: clone_value(id) }),
            None => None,
        }
    } else if same_text(method, "textDocument/didOpen") {
        match (read_uri(params), text_of(inside(inside(params, "textDocument"), "text"))) {
            (Some(uri), Some(text)) => Some(Request::DidOpen { uri, text }),
            _ => None,
        }
    } else if same_text(method, "textDocument/didChange") {
        match (read_uri(params), read_changed_text(params)) {
            (Some(uri), Some(text)) => Some(Request::DidChange { uri, text }),
            _ => None,
        }
    } else if same_text(method, "textDocument/definition") {
        match (id, read_uri(params), read_cursor(params)) {
            (Some(id), Some(uri), Some(position)) => Some(
                Request::Definition { id: clone_value(id), uri, position },
            ),
            _ => None,
        }
    } else if same_text(method, "textDocument/declaration") {
        match (id, read_uri(params), read_cursor(params)) {
            (Some(id), Some(uri), Some(position)) => Some(
                Request::Declaration { id: clone_value(id), uri, position },
            ),
            _ => None,
        }
    } else {
        None
    }
}

/// What the server answers to a request.
#[derive(Debug)]
pub enum Reply {
    /// The capabilities of the server, which are fixed.
    Capabilities,
    /// The place of a definition, if one was found.
    Definition(Option<Location>),
    /// The places of the references to a declaration; empty where none
    /// were found.
    Declaration(Vec<Location>),
}

/// The mathematical content of a `Reply`.
pub enum ReplyView {
    Capabilities,
    Definition(Option<LocationView>),
    Declaration(Seq<LocationView>),
}

impl View for Reply {
    type V = ReplyView;

    open spec fn view(&self) -> ReplyView {
        match self {
            Reply::Capabilities => ReplyView::Capabilities,
            Reply::Definition(location) => ReplyView::Definition(
                match location {
                    Some(l) => Some(l@),
                    None => None,
                },
            ),
            Reply::Declaration(locations) => ReplyView::Declaration(location_views(locations@)),
        }
    }
}

/// The file that holds the document `uri`: the URI without a leading
/// `file://`.
pub open spec fn path_of(uri: Seq<char>) -> Seq<char> {
    if "file://"@.is_prefix_of(uri) {
        uri.skip("file://"@.len() as int)
    } else {
        uri
    }
}

/// The file whose text a request needs for its answer: that of the
/// document of a definition or declaration query.
pub open spec fn needed_file(request: RequestView) -> Option<Seq<char>> {
    match request {
        RequestView::Definition { id, uri, position } => Some(path_of(uri)),
        RequestView::Declaration { id, uri, position } => Some(path_of(uri)),
        _ => None,
    }
}

/// The `id` of a call; a notification has none.
pub open spec fn call_id(request: RequestView) -> Option<serde_json::Value> {
    match request {
        RequestView::Initialize { id } => Some(id),
        RequestView::Definition { id, uri, position } => Some(id),
        RequestView::Declaration { id, uri, position } => Some(id),
        _ => None,
    }
}

/// The index after `request` was handled: a notification that a document
/// was opened or changed has the document parsed again from the text that
/// it brings; nothing else changes the index.
pub open spec fn index_after(table: Seq<DocumentView>, request: RequestView) -> Seq<DocumentView> {
    match request {
        RequestView::DidOpen { uri, text } => stored(table, uri, text),
        RequestView::DidChange { uri, text: Some(text) } => stored(table, uri, text),
        _ => table,
    }
}

/// The places of `references`, in order.
pub open spec fn places_of(references: Seq<ReferenceView>) -> Seq<LocationView> {
    references.map_values(
        |reference: ReferenceView| LocationView { uri: reference.uri, range: reference.range },
    )
}

/// The reply to `request` from the index `table`, where `content` is the
/// text of the document that the request is about, or nothing where that
/// text could not be had. Notifications get no reply. A query without text
/// is answered as one that found nothing.
pub open spec fn reply_to(
    table: Seq<DocumentView>,
    request: RequestView,
    content: Option<Seq<char>>,
) -> Option<ReplyView> {
    match request {
        RequestView::Initialize { id } => Some(ReplyView::Capabilities),
        RequestView::DidOpen { uri, text } => None,
        RequestView::DidChange { uri, text } => None,
        RequestView::Definition { id, uri, position } => Some(
            ReplyView::Definition(
                match content {
                    Some(text) => match definition(table, text, position) {
                        Some(symbol) => Some(LocationView { uri: symbol.uri, range: symbol.range }),
                        None => None,
                    },
                    None => None,
                },
            ),
        ),
        RequestView::Declaration { id, uri, position } => Some(
            ReplyView::Declaration(
                match content {
                    Some(text) => match declaration_references(table, text, position) {
                        Some(references) => places_of(references),
                        None => Seq::empty(),
                    },
                    None => Seq::empty(),
                },
            ),
        ),
    }
}

/// The text that `content` holds, if any.
pub open spec fn content_view(content: Option<&str>) -> Option<Seq<char>> {
    match content {
        Some(text) => Some(text@),
        None => None,
    }
}

/// The file that holds the document `uri`.
pub fn document_path(uri: &str) -> (path: String)
    ensures
        path@ == path_of(uri@),
{
    let chars = to_chars(uri);
    let scheme = to_chars("file://");
    if starts_with(chars.as_slice(), scheme.as_slice()) {
        to_string(vstd::slice::slice_subrange(chars.as_slice(), scheme.len(), chars.len()))
    } else {
        uri.to_owned()
    }
}

/// The places of `references`, in order.
fn places(references: &Vec<Reference>) -> (locations: Vec<Location>)
    ensures
        location_views(locations@) == places_of(reference_views(references@)),
{
    let mut locations: Vec<Location> = Vec::new();
    let ghost wanted = places_of(reference_views(references@));
    let mut i: usize = 0;
    assert(location_views(locations@) =~= wanted.take(0));
    while i < references.len()
        invariant
            i <= references.len(),
            wanted == places_of(reference_views(references@)),
            location_views(locations@) == wanted.take(i as int),
        decreases references.len() - i,
    {
        let ghost before = location_views(locations@);
        let location = Location { uri: references[i].uri.clone(), range: references[i].range };
        assert(location@ == wanted[i as int]);
        locations.push(location);
        assert(location_views(locations@) =~= before.push(location@));
        assert(wanted.take(i + 1) =~= wanted.take(i as int).push(wanted[i as int]));
        i += 1;
    }
    assert(wanted.take(references.len() as int) =~= wanted);
    locations
}

impl Request {
    /// The file whose text this request needs for its answer.
    pub fn document_path(&self) -> (path: Option<String>)
        ensures
            match path {
                Some(p) => needed_file(self@) == Some(p@),
                None => needed_file(self@).is_none(),
            },
    {
        match self {
            Request::Definition { id, uri, position } => Some(document_path(uri.as_str())),
            Request::Declaration { id, uri, position } => Some(document_path(uri.as_str())),
            _ => None,
        }
    }

    /// The `id` that the response to this request carries; a notification
    /// has none.
    pub fn id(&self) -> (id: Option<&serde_json::Value>)
        ensures
            match id {
                Some(found) => call_id(self@) == Some(*found),
                None => call_id(self@).is_none(),
            },
    {
        match self {
            Request::Initialize { id } => Some(id),
            Request::Definition { id, uri, position } => Some(id),
            Request::Declaration { id, uri, position } => Some(id),
            _ => None,
        }
    }
}

impl HaproxyLsp {
    /// Handles `request`: brings the index up to date where the request
    /// opens or changes a document, and gives the reply where the request
    /// asks for one. `content` is the text of the document that a query is
    /// about, or nothing where that text could not be had.
    pub fn respond(&mut self, request: &Request, content: Option<&str>) -> (reply: Option<Reply>)
        ensures
            valid_index(old(self)@),
            valid_index(final(self)@),
            final(self)@ == index_after(old(self)@, request@),
            match reply {
                Some(r) => reply_to(old(self)@, request@, content_view(content)) == Some(r@),
                None => reply_to(old(self)@, request@, content_view(content)).is_none(),
            },
    {
        proof {
            use_type_invariant(&*self);
        }
        match request {
            Request::Initialize { id } => Some(Reply::Capabilities),
            Request::DidOpen { uri, text } => {
                self.parse_document(uri.as_str(), text.as_str());
                None
            },
            Request::DidChange { uri, text } => {
                match text {
                    Some(text) => {
                        self.parse_document(uri.as_str(), text.as_str());
                    },
                    None => {},
                }
                None
            },
            Request::Definition { id, uri, position } => {
                let found = match content {
                    Some(text) => self.find_definition(uri.as_str(), position, text),
                    None => None,
                };
                Some(
                    Reply::Definition(
                        match found {
                            Some(symbol) => Some(Location { uri: symbol.uri, range: symbol.range }),
                            None => None,
                        },
                    ),
                )
            },
            Request::Declaration { id, uri, position } => {
                let found = match content {
                    Some(text) => self.find_declaration(uri.as_str(), position, text),
                    None => None,
                };
                let locations = match found {
                    Some(references) => places(&references),
                    None => Vec::new(),
                };
                assert(found.is_none() ==> location_views(locations@) =~= Seq::empty());
                Some(Reply::Declaration(locations))
            },
        }
    }
}

} // verus!

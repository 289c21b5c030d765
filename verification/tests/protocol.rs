use haproxy_lsp::encoding::{encode_response, message_document, parse_message, render_message};
use haproxy_lsp::index::HaproxyLsp;
use haproxy_lsp::model::{Position, Range};
use haproxy_lsp::protocol::{decode_request, document_path, Location, Reply, Request};
use serde_json::Value;

const URI: &str = "file:///etc/haproxy/haproxy.cfg";
const TEXT: &str = "frontend web\n    acl is_api path_beg /api\n    use_backend api if is_api\n    default_backend api\nbackend api\n    server s1 10.0.0.1:80\n";

fn json(text: &str) -> Value {
    serde_json::from_str(text).unwrap()
}

fn open_message(uri: &str, text: &str) -> Value {
    let mut document = serde_json::Map::new();
    document.insert("uri".to_string(), Value::from(uri));
    document.insert("text".to_string(), Value::from(text));
    let mut params = serde_json::Map::new();
    params.insert("textDocument".to_string(), Value::Object(document));
    let mut message = serde_json::Map::new();
    message.insert("jsonrpc".to_string(), Value::from("2.0"));
    message.insert("method".to_string(), Value::from("textDocument/didOpen"));
    message.insert("params".to_string(), Value::Object(params));
    Value::Object(message)
}

fn query(method: &str, id: u64, line: u32, character: u32) -> Value {
    json(&format!(
        r#"{{"jsonrpc":"2.0","id":{},"method":"{}","params":{{"textDocument":{{"uri":"{}"}},"position":{{"line":{},"character":{}}}}}}}"#,
        id, method, URI, line, character
    ))
}

#[test]
fn initialize_announces_capabilities() {
    let mut lsp = HaproxyLsp::new();
    let request = json(r#"{"jsonrpc":"2.0","id":1,"method":"initialize","params":{}}"#);
    let response = lsp.handle_request(&request, None).unwrap();
    let expected = json(
        r#"{"jsonrpc":"2.0","id":1,"result":{"capabilities":{"definitionProvider":true,"declarationProvider":true,"textDocumentSync":{"openClose":true,"change":1}}}}"#,
    );
    assert_eq!(response, expected);
}

#[test]
fn response_echoes_any_id() {
    let mut lsp = HaproxyLsp::new();
    let request = json(r#"{"id":"abc-7","method":"initialize"}"#);
    let response = lsp.handle_request(&request, None).unwrap();
    assert_eq!(response["id"], Value::from("abc-7"));
    let request = json(r#"{"id":-2.5,"method":"initialize"}"#);
    let response = lsp.handle_request(&request, None).unwrap();
    assert_eq!(response["id"], json("-2.5"));
    let request = json(r#"{"id":null,"method":"initialize"}"#);
    let response = lsp.handle_request(&request, None).unwrap();
    assert_eq!(response["id"], Value::Null);
    assert!(response.as_object().unwrap().contains_key("id"));
    assert_eq!(response["jsonrpc"], Value::from("2.0"));
}

#[test]
fn call_without_id_gets_no_response() {
    let mut lsp = HaproxyLsp::new();
    lsp.handle_request(&open_message(URI, TEXT), None);
    let request = json(r#"{"method":"initialize"}"#);
    assert!(lsp.handle_request(&request, None).is_none());
    for method in ["textDocument/definition", "textDocument/declaration"] {
        let request = json(&format!(
            r#"{{"method":"{}","params":{{"textDocument":{{"uri":"{}"}},"position":{{"line":3,"character":22}}}}}}"#,
            method, URI
        ));
        assert!(decode_request(&request).is_none());
        assert!(lsp.handle_request(&request, Some(TEXT)).is_none());
    }
}

#[test]
fn notification_with_id_gets_no_response() {
    let mut lsp = HaproxyLsp::new();
    let mut message = open_message(URI, TEXT);
    message
        .as_object_mut()
        .unwrap()
        .insert("id".to_string(), Value::from(4u64));
    assert!(lsp.handle_request(&message, None).is_none());
    assert_eq!(lsp.symbols_of(URI).unwrap().len(), 4);
}

#[test]
fn did_open_parses_and_gives_no_response() {
    let mut lsp = HaproxyLsp::new();
    assert!(lsp.handle_request(&open_message(URI, TEXT), None).is_none());
    let symbols = lsp.symbols_of(URI).unwrap();
    let names: Vec<&str> = symbols.iter().map(|s| s.name.as_str()).collect();
    assert_eq!(names, vec!["web", "is_api", "api", "s1"]);
}

#[test]
fn did_change_uses_the_first_change_only() {
    let mut lsp = HaproxyLsp::new();
    lsp.handle_request(&open_message(URI, TEXT), None);
    let change = json(&format!(
        r#"{{"method":"textDocument/didChange","params":{{"textDocument":{{"uri":"{}"}},"contentChanges":[{{"text":"backend one\n"}},{{"text":"backend two\n"}}]}}}}"#,
        URI
    ));
    assert!(lsp.handle_request(&change, None).is_none());
    let symbols = lsp.symbols_of(URI).unwrap();
    assert_eq!(symbols.len(), 1);
    assert_eq!(symbols[0].name, "one");
    assert_eq!(lsp.document_count(), 1);
}

#[test]
fn did_change_without_usable_text_keeps_the_index() {
    let mut lsp = HaproxyLsp::new();
    lsp.handle_request(&open_message(URI, TEXT), None);
    for changes in [r#"[]"#, r#"[{"range":{}}]"#, r#"[{"text":5}]"#] {
        let change = json(&format!(
            r#"{{"method":"textDocument/didChange","params":{{"textDocument":{{"uri":"{}"}},"contentChanges":{}}}}}"#,
            URI, changes
        ));
        assert!(lsp.handle_request(&change, None).is_none());
        assert_eq!(lsp.symbols_of(URI).unwrap().len(), 4);
    }
}

#[test]
fn definition_answers_with_a_location() {
    let mut lsp = HaproxyLsp::new();
    lsp.handle_request(&open_message(URI, TEXT), None);
    let response = lsp
        .handle_request(&query("textDocument/definition", 5, 3, 22), Some(TEXT))
        .unwrap();
    let expected = json(&format!(
        r#"{{"jsonrpc":"2.0","id":5,"result":{{"uri":"{}","range":{{"start":{{"line":4,"character":0}},"end":{{"line":4,"character":11}}}}}}}}"#,
        URI
    ));
    assert_eq!(response, expected);
}

#[test]
fn definition_without_text_or_target_answers_null() {
    let mut lsp = HaproxyLsp::new();
    lsp.handle_request(&open_message(URI, TEXT), None);
    let expected = json(r#"{"jsonrpc":"2.0","id":5,"result":null}"#);
    let request = query("textDocument/definition", 5, 3, 22);
    assert_eq!(lsp.handle_request(&request, None).unwrap(), expected);
    let request = query("textDocument/definition", 5, 0, 2);
    assert_eq!(lsp.handle_request(&request, Some(TEXT)).unwrap(), expected);
    let request = query("textDocument/definition", 5, 99, 0);
    assert_eq!(lsp.handle_request(&request, Some(TEXT)).unwrap(), expected);
}

#[test]
fn declaration_answers_with_the_references_in_order() {
    let mut lsp = HaproxyLsp::new();
    lsp.handle_request(&open_message(URI, TEXT), None);
    let response = lsp
        .handle_request(&query("textDocument/declaration", 9, 4, 3), Some(TEXT))
        .unwrap();
    let expected = json(&format!(
        r#"{{"jsonrpc":"2.0","id":9,"result":[
            {{"uri":"{0}","range":{{"start":{{"line":2,"character":0}},"end":{{"line":2,"character":25}}}}}},
            {{"uri":"{0}","range":{{"start":{{"line":3,"character":0}},"end":{{"line":3,"character":19}}}}}}
        ]}}"#,
        URI
    ));
    assert_eq!(response, expected);
}

#[test]
fn declaration_without_references_answers_an_empty_list() {
    let mut lsp = HaproxyLsp::new();
    lsp.handle_request(&open_message(URI, TEXT), None);
    let expected = json(r#"{"jsonrpc":"2.0","id":9,"result":[]}"#);
    let request = query("textDocument/declaration", 9, 5, 0);
    assert_eq!(lsp.handle_request(&request, Some(TEXT)).unwrap(), expected);
    let request = query("textDocument/declaration", 9, 4, 0);
    assert_eq!(lsp.handle_request(&request, None).unwrap(), expected);
    let request = query("textDocument/declaration", 9, 2, 0);
    assert_eq!(lsp.handle_request(&request, Some(TEXT)).unwrap(), expected);
}

#[test]
fn messages_that_are_not_understood_get_no_response() {
    let mut lsp = HaproxyLsp::new();
    for text in [
        r#"{"id":1}"#,
        r#"{"id":1,"method":7}"#,
        r#"{"id":1,"method":"shutdown"}"#,
        r#"{"id":1,"method":"textDocument/didClose","params":{"textDocument":{"uri":"u"}}}"#,
        r#"{"id":1,"method":"textDocument/didOpen","params":{"textDocument":{"uri":"u"}}}"#,
        r#"{"id":1,"method":"textDocument/didOpen","params":{"textDocument":{"text":"backend a"}}}"#,
        r#"{"id":1,"method":"textDocument/didChange","params":{"textDocument":{"uri":"u"},"contentChanges":{}}}"#,
        r#"{"id":1,"method":"textDocument/definition","params":{"textDocument":{"uri":"u"},"position":{"line":1}}}"#,
        r#"{"id":1,"method":"textDocument/definition","params":{"textDocument":{"uri":"u"},"position":{"line":-1,"character":0}}}"#,
        r#"{"id":1,"method":"textDocument/declaration","params":{"position":{"line":1,"character":0}}}"#,
        r#"[1,2,3]"#,
        r#""initialize""#,
    ] {
        let message = json(text);
        assert!(decode_request(&message).is_none(), "{}", text);
        assert!(lsp.handle_request(&message, Some("backend a")).is_none(), "{}", text);
        assert_eq!(lsp.document_count(), 0);
    }
}

#[test]
fn positions_are_cut_to_32_bits() {
    let message = json(
        r#"{"id":1,"method":"textDocument/definition","params":{"textDocument":{"uri":"u"},"position":{"line":4294967297,"character":4294967296}}}"#,
    );
    match decode_request(&message) {
        Some(Request::Definition { id, uri, position }) => {
            assert_eq!(id, Value::from(1u64));
            assert_eq!(uri, "u");
            assert_eq!(position, Position { line: 1, character: 0 });
        }
        other => panic!("{:?}", other),
    }
}

#[test]
fn document_path_strips_the_file_scheme() {
    assert_eq!(document_path("file:///etc/haproxy.cfg"), "/etc/haproxy.cfg");
    assert_eq!(document_path("/etc/haproxy.cfg"), "/etc/haproxy.cfg");
    assert_eq!(document_path("untitled:Untitled-1"), "untitled:Untitled-1");
    assert_eq!(document_path("file://"), "");
    let request = decode_request(&query("textDocument/declaration", 1, 0, 0)).unwrap();
    assert_eq!(request.document_path(), Some("/etc/haproxy/haproxy.cfg".to_string()));
    let request = decode_request(&json(r#"{"id":1,"method":"initialize"}"#)).unwrap();
    assert_eq!(request.document_path(), None);
    assert_eq!(request.id(), Some(&Value::from(1u64)));
    let request = decode_request(&open_message(URI, TEXT)).unwrap();
    assert_eq!(request.document_path(), None);
    assert_eq!(request.id(), None);
}

#[test]
fn encoded_replies_have_the_protocol_shape() {
    let request = Value::from(3u64);
    let range = Range {
        start: Position { line: 7, character: 0 },
        end: Position { line: 7, character: 12 },
    };
    let reply = Reply::Definition(Some(Location { uri: "file:///a \"b\"".to_string(), range }));
    let message = encode_response(&request, &reply);
    assert_eq!(message["result"]["uri"], Value::from("file:///a \"b\""));
    assert_eq!(message["result"]["range"]["start"]["line"], Value::from(7u64));
    assert_eq!(message["result"]["range"]["end"]["character"], Value::from(12u64));
    assert_eq!(message["id"], Value::from(3u64));
    assert_eq!(message["jsonrpc"], Value::from("2.0"));
    assert_eq!(message.as_object().unwrap().len(), 3);
    let message = encode_response(&request, &Reply::Declaration(Vec::new()));
    assert_eq!(message["result"], Value::Array(Vec::new()));
    let message = encode_response(&request, &Reply::Definition(None));
    assert_eq!(message["result"], Value::Null);
    assert!(message.as_object().unwrap().contains_key("result"));
}

#[test]
fn malformed_payload_is_dropped_and_the_next_message_is_handled() {
    let mut lsp = HaproxyLsp::new();
    assert!(parse_message("{\"method\": \"initialize\"").is_none());
    assert!(lsp.handle_message("{\"method\": \"initialize\"", None).is_none());
    assert!(lsp.handle_message("not json at all", None).is_none());
    assert!(lsp.handle_message("", None).is_none());
    assert_eq!(lsp.document_count(), 0);
    let open = render_message(&open_message(URI, TEXT)).unwrap();
    assert!(lsp.handle_message(&open, None).is_none());
    assert_eq!(lsp.symbols_of(URI).unwrap().len(), 4);
    let response = lsp
        .handle_message(r#"{"jsonrpc":"2.0","id":2,"method":"initialize"}"#, None)
        .unwrap();
    assert_eq!(json(&response)["id"], Value::from(2u64));
    assert!(json(&response)["result"]["capabilities"]["definitionProvider"] == Value::Bool(true));
}

#[test]
fn rendering_and_parsing_round_trip() {
    let message = json(r#"{"a":[1,"two",null,{"b":false}]}"#);
    let text = render_message(&message).unwrap();
    assert_eq!(parse_message(&text), Some(message));
}

#[test]
fn only_queries_need_a_document() {
    let definition = render_message(&query("textDocument/definition", 1, 0, 0)).unwrap();
    assert_eq!(message_document(&definition), Some("/etc/haproxy/haproxy.cfg".to_string()));
    let declaration = render_message(&query("textDocument/declaration", 1, 0, 0)).unwrap();
    assert_eq!(message_document(&declaration), Some("/etc/haproxy/haproxy.cfg".to_string()));
    let open = render_message(&open_message(URI, TEXT)).unwrap();
    assert_eq!(message_document(&open), None);
    assert_eq!(message_document(r#"{"id":1,"method":"initialize"}"#), None);
    assert_eq!(message_document("{bad}"), None);
    assert_eq!(message_document(""), None);
    assert_eq!(
        message_document(
            r#"{"method":"textDocument/definition","params":{"textDocument":{"uri":"u"},"position":{"line":0,"character":0}}}"#
        ),
        None
    );
}

#[test]
fn a_query_is_answered_from_the_text_that_is_handed_in() {
    let mut lsp = HaproxyLsp::new();
    let open = render_message(&open_message(URI, TEXT)).unwrap();
    assert!(lsp.handle_message(&open, None).is_none());
    assert!(lsp.handle_message("{bad}", Some(TEXT)).is_none());
    let definition = render_message(&query("textDocument/definition", 8, 3, 22)).unwrap();
    let response = json(&lsp.handle_message(&definition, Some(TEXT)).unwrap());
    assert_eq!(response["id"], Value::from(8u64));
    assert_eq!(response["result"]["uri"], Value::from(URI));
    assert_eq!(response["result"]["range"]["start"]["line"], Value::from(4u64));
    let response = json(&lsp.handle_message(&definition, None).unwrap());
    assert_eq!(response["result"], Value::Null);
}

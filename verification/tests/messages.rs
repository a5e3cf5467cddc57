use cosmwasm_simulate::json::JsonValue;
use cosmwasm_simulate::messages::{CallType, Message, MessageError};

fn text(s: &str) -> String {
    s.to_string()
}

#[test]
fn default_message_is_empty() {
    let m = Message::default();
    assert_eq!(m.contract_addr, "");
    assert_eq!(m.wasm_file, "");
    assert_eq!(m.call_type, "");
    assert_eq!(m.sender, "");
    assert_eq!(m.message, "");
}

#[test]
fn new_keeps_each_field_in_its_place() {
    let m = Message::new(text("handle"), text("alice"), text("{}"), text("a.wasm"), text("addr"));
    assert_eq!(m.call_type, "handle");
    assert_eq!(m.sender, "alice");
    assert_eq!(m.message, "{}");
    assert_eq!(m.wasm_file, "a.wasm");
    assert_eq!(m.contract_addr, "addr");
}

#[test]
fn call_types_have_three_names() {
    assert_eq!(CallType::from_name("init"), Some(CallType::Init));
    assert_eq!(CallType::from_name("handle"), Some(CallType::Handle));
    assert_eq!(CallType::from_name("query"), Some(CallType::Query));
    assert_eq!(CallType::from_name("migrate"), None);
    assert_eq!(CallType::from_name(""), None);
    assert_eq!(CallType::Init.name(), "init");
    assert_eq!(CallType::Handle.name(), "handle");
    assert_eq!(CallType::Query.name(), "query");
}

#[test]
fn validate_accepts_what_keeps_the_rules() {
    let init = Message::new(text("init"), text(""), text("{}"), text("a.wasm"), text("addr"));
    assert_eq!(init.validate().unwrap(), CallType::Init);
    let handle = Message::new(text("handle"), text("alice"), text("{}"), text(""), text("addr"));
    assert_eq!(handle.validate().unwrap(), CallType::Handle);
    let query = Message::new(text("query"), text(""), text("{}"), text(""), text("addr"));
    assert_eq!(query.validate().unwrap(), CallType::Query);
}

#[test]
fn validate_refuses_an_init_without_wasm_file() {
    let m = Message::new(text("init"), text("s"), text("{\"a\":1}"), text(""), text("addr"));
    match m.validate() {
        Err(MessageError::MissingWasmFile { message }) => assert_eq!(message, "{\"a\":1}"),
        other => panic!("unexpected: {:?}", other),
    }
    assert_eq!(
        m.validate().unwrap_err().describe(),
        "A wasm file is expected for {\"a\":1}"
    );
}

#[test]
fn validate_refuses_a_missing_contract_address() {
    for call_type in ["init", "handle", "query"] {
        let m = Message::new(text(call_type), text("s"), text("p"), text("a.wasm"), text(""));
        match m.validate() {
            Err(MessageError::MissingContractAddr { message }) => assert_eq!(message, "p"),
            other => panic!("unexpected: {:?}", other),
        }
        assert_eq!(
            m.validate().unwrap_err().describe(),
            "A contract address is expected for p"
        );
    }
}

#[test]
fn validate_refuses_a_handle_without_sender() {
    let m = Message::new(text("handle"), text(""), text("p"), text(""), text("addr"));
    match m.validate() {
        Err(MessageError::MissingSender { message }) => assert_eq!(message, "p"),
        other => panic!("unexpected: {:?}", other),
    }
    assert_eq!(
        m.validate().unwrap_err().describe(),
        "A sender address is expected for p"
    );
}

#[test]
fn validate_refuses_an_unknown_call_type() {
    let m = Message::new(text("migrate"), text("s"), text("p"), text("a.wasm"), text("addr"));
    match m.validate() {
        Err(MessageError::IncorrectType { call_type }) => assert_eq!(call_type, "migrate"),
        other => panic!("unexpected: {:?}", other),
    }
    assert_eq!(
        m.validate().unwrap_err().describe(),
        "Incorrect type: migrate!. Only [query | init | handle] is expected."
    );
}

#[test]
fn from_texts_strips_quotes_but_not_from_the_payload() {
    let m = Message::from_texts("\"init\"", "\"bob\"", "{\"k\":\"v\"}", "\"c.wasm\"", "\"addr1\"")
        .unwrap();
    assert_eq!(m.call_type, "init");
    assert_eq!(m.sender, "bob");
    assert_eq!(m.message, "{\"k\":\"v\"}");
    assert_eq!(m.wasm_file, "c.wasm");
    assert_eq!(m.contract_addr, "addr1");
}

#[test]
fn build_msg_reads_a_batch_in_order() {
    let data = b"{\"messages\": [
        {\"type\": \"init\", \"sender\": \"alice\", \"contract_addr\": \"addrA\",
         \"wasm_file\": \"a.wasm\", \"message\": {\"count\": 1}},
        {\"type\": \"handle\", \"sender\": \"alice\", \"contract_addr\": \"addrA\",
         \"message\": {\"increment\": {}}},
        {\"type\": \"query\", \"contract_addr\": \"addrA\", \"message\": {\"get\": {}}}
    ]}";
    let msgs = Message::build_msg(data).unwrap();
    assert_eq!(msgs.len(), 3);
    assert_eq!(msgs[0].call_type, "init");
    assert_eq!(msgs[0].sender, "alice");
    assert_eq!(msgs[0].contract_addr, "addrA");
    assert_eq!(msgs[0].wasm_file, "a.wasm");
    assert_eq!(msgs[0].message, "{\"count\":1}");
    assert_eq!(msgs[1].call_type, "handle");
    assert_eq!(msgs[1].wasm_file, "");
    assert_eq!(msgs[1].message, "{\"increment\":{}}");
    assert_eq!(msgs[2].call_type, "query");
    assert_eq!(msgs[2].sender, "");
    assert_eq!(msgs[2].message, "{\"get\":{}}");
}

#[test]
fn build_msg_of_what_holds_no_batch_is_empty() {
    assert_eq!(Message::build_msg(b"not json").unwrap().len(), 0);
    assert_eq!(Message::build_msg(b"[1, 2]").unwrap().len(), 0);
    assert_eq!(Message::build_msg(b"{\"other\": []}").unwrap().len(), 0);
    assert_eq!(Message::build_msg(b"{\"messages\": 5}").unwrap().len(), 0);
    assert_eq!(Message::build_msg(b"{\"messages\": []}").unwrap().len(), 0);
}

#[test]
fn build_msg_stops_at_the_first_element_that_is_no_object() {
    let data = b"{\"messages\": [
        {\"type\": \"query\", \"contract_addr\": \"a\", \"message\": 1},
        7,
        {\"type\": \"query\", \"contract_addr\": \"b\", \"message\": 2}
    ]}";
    let msgs = Message::build_msg(data).unwrap();
    assert_eq!(msgs.len(), 1);
    assert_eq!(msgs[0].contract_addr, "a");
    assert_eq!(msgs[0].message, "1");
}

#[test]
fn build_msg_fails_on_the_first_element_that_breaks_a_rule() {
    let data = b"{\"messages\": [
        {\"type\": \"query\", \"contract_addr\": \"a\", \"message\": 1},
        {\"type\": \"init\", \"contract_addr\": \"a\", \"message\": \"m\"},
        {\"type\": \"bogus\"}
    ]}";
    match Message::build_msg(data) {
        Err(MessageError::MissingWasmFile { message }) => assert_eq!(message, "\"m\""),
        other => panic!("unexpected: {:?}", other),
    }
    let bogus = b"{\"messages\": [{\"type\": \"bogus\", \"message\": 1}]}";
    match Message::build_msg(bogus) {
        Err(MessageError::IncorrectType { call_type }) => assert_eq!(call_type, "bogus"),
        other => panic!("unexpected: {:?}", other),
    }
    let untyped = b"{\"messages\": [{\"message\": 1}]}";
    match Message::build_msg(untyped) {
        Err(MessageError::IncorrectType { call_type }) => assert_eq!(call_type, ""),
        other => panic!("unexpected: {:?}", other),
    }
}

#[test]
fn fields_that_are_no_strings_are_taken_by_their_json_text() {
    let data = b"{\"messages\": [
        {\"type\": \"query\", \"contract_addr\": 42, \"sender\": null, \"message\": [1, \"x\"]}
    ]}";
    let msgs = Message::build_msg(data).unwrap();
    assert_eq!(msgs[0].contract_addr, "42");
    assert_eq!(msgs[0].sender, "null");
    assert_eq!(msgs[0].message, "[1,\"x\"]");
}

#[test]
fn from_item_and_from_document_agree_with_build_msg() {
    let item = JsonValue::parse(
        b"{\"type\": \"handle\", \"sender\": \"s\", \"contract_addr\": \"c\", \"message\": {}}",
    )
    .unwrap();
    let m = Message::from_item(&item).unwrap();
    assert_eq!(m.call_type, "handle");
    assert_eq!(m.sender, "s");
    assert_eq!(m.contract_addr, "c");
    assert_eq!(m.message, "{}");
    let doc = JsonValue::Object(vec![("messages".to_string(), JsonValue::Array(vec![item]))]);
    let msgs = Message::from_document(&doc).unwrap();
    assert_eq!(msgs.len(), 1);
    assert_eq!(msgs[0].sender, "s");
}

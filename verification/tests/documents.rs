use tedge_dot_sdk::document::{
    json_object_to_inline, json_object_to_table, json_value_to_edit, merge_object_into_table,
};
use tedge_dot_sdk::json::{parse_json, payload_text, Json};
use tedge_dot_sdk::config::{ConnectorConfig, ConnectorSection, MqttSection};
use tedge_dot_sdk::management::{
    apply_management, document_to_text, load_document, propose, ConfigState, Verdict,
};
use tedge_dot_sdk::message::Message;

const DEVICES: &str = "[connector]\nprotocol = \"x\"\n\n[[device]]\nname = \"a\"\n\n[[device]]\nname = \"b\"\n";

fn json(text: &str) -> Json {
    parse_json(text.as_bytes()).expect("json")
}

fn members(text: &str) -> Vec<(String, Json)> {
    json(text).as_object().unwrap().clone()
}

/// The parsed text of a document after a command.
fn after(text: &str, verb: &str, request: &str) -> (toml::Table, Result<(), String>) {
    let mut doc = load_document(Some(text));
    let r = apply_management(verb, &json(request), &mut doc);
    (toml::from_str(&document_to_text(&doc)).expect("toml"), r)
}

fn refusal(text: &str, verb: &str, request: &str) -> String {
    let (root, r) = after(text, verb, request);
    assert_eq!(root, toml::from_str::<toml::Table>(text).unwrap(), "unchanged");
    r.unwrap_err()
}

fn parsed(text: &str) -> toml::Table {
    toml::from_str(text).expect("toml")
}

#[test]
fn every_refusal_tells_why() {
    let table = [
        ("set-config", "{}", "set-config requires a 'target'"),
        ("set-config", r#"{"target": 1}"#, "set-config requires a 'target'"),
        ("set-config", r#"{"target": "mqtt"}"#, "set-config requires a 'config' object"),
        (
            "set-config",
            r#"{"target": "mqtt", "config": []}"#,
            "set-config requires a 'config' object",
        ),
        (
            "set-config",
            r#"{"target": "device:z", "config": {}}"#,
            "device 'z' not found",
        ),
        (
            "set-config",
            r#"{"target": "bogus", "config": {}}"#,
            "unknown set-config target 'bogus' (expected connector, mqtt, connection or device:<name>)",
        ),
        ("define-device", "{}", "define-device requires a 'device' object"),
        ("define-device", r#"{"device": "a"}"#, "define-device requires a 'device' object"),
        ("define-device", r#"{"device": {}}"#, "device requires a 'name'"),
        (
            "define-device",
            r#"{"device": {"name": "n", "x": [null]}}"#,
            "null values are not allowed in config",
        ),
        ("remove-device", "{}", "remove-device requires a 'device' name string"),
        ("remove-device", r#"{"device": "z"}"#, "device 'z' not found"),
        ("frobnicate", "{}", "unsupported management verb 'frobnicate'"),
        (
            "set-config",
            r#"{"target": "connector", "config": {"a": null}}"#,
            "null values are not allowed in config",
        ),
    ];
    for (verb, request, why) in table {
        assert_eq!(refusal(DEVICES, verb, request), why);
    }
}

#[test]
fn refusals_without_devices() {
    let none = "[connector]\nprotocol = \"x\"\n";
    assert_eq!(
        refusal(none, "set-config", r#"{"target": "device:a", "config": {}}"#),
        "no devices are configured"
    );
    assert_eq!(
        refusal(none, "remove-device", r#"{"device": "a"}"#),
        "no devices are configured"
    );
    let odd = "device = 1\nmqtt = 2\n";
    assert_eq!(
        refusal(odd, "define-device", r#"{"device": {"name": "a"}}"#),
        "'device' is not an array of tables"
    );
    assert_eq!(
        refusal(odd, "set-config", r#"{"target": "mqtt", "config": {}}"#),
        "config section 'mqtt' is not a table"
    );
    assert_eq!(
        refusal(odd, "set-config", r#"{"target": "device:a", "config": {}}"#),
        "no devices are configured"
    );
}

#[test]
fn a_merge_stops_at_the_first_null() {
    let (root, r) = after(
        DEVICES,
        "set-config",
        r#"{"target": "connector", "config": {"a": 1, "b": null, "c": 3}}"#,
    );
    assert_eq!(r.unwrap_err(), "null values are not allowed in config");
    let connector = root["connector"].as_table().unwrap();
    assert_eq!(connector["a"].as_integer(), Some(1));
    assert!(connector.get("b").is_none());
    assert!(connector.get("c").is_none());
}

#[test]
fn a_missing_section_is_made() {
    let (root, r) =
        after(DEVICES, "set-config", r#"{"target": "mqtt", "config": {"port": 1884}}"#);
    assert_eq!(r, Ok(()));
    assert_eq!(root["mqtt"]["port"].as_integer(), Some(1884));
    assert_eq!(root["connector"]["protocol"].as_str(), Some("x"));
}

#[test]
fn merging_is_deep_into_tables_only() {
    let text = "[connector]\ninner = { a = 1, b = 2 }\n[connector.table]\na = 1\nb = 2\n";
    let patch = r#"{"target": "connector", "config": {"inner": {"a": 9}, "table": {"a": 9}}}"#;
    let (root, r) = after(text, "set-config", patch);
    assert_eq!(r, Ok(()));
    let expected = parsed(
        "[connector]\ninner = { a = 9 }\n[connector.table]\na = 9\nb = 2\n",
    );
    assert_eq!(root, expected);
}

#[test]
fn merging_twice_is_merging_once() {
    let patch = members(r#"{"a": {"x": 1, "y": {"z": [1, 2]}}, "b": "t", "c": 1.5}"#);
    let mut doc = load_document(Some("[a]\nx = 5\nw = 6\n"));
    merge_object_into_table(doc.as_table_mut(), &patch).unwrap();
    let once = document_to_text(&doc);
    merge_object_into_table(doc.as_table_mut(), &patch).unwrap();
    assert_eq!(parsed(&once), parsed(&document_to_text(&doc)));
    assert_eq!(
        parsed(&once),
        parsed("b = \"t\"\nc = 1.5\n[a]\nx = 1\nw = 6\ny = { z = [1, 2] }\n")
    );
}

#[test]
fn values_become_toml() {
    for (text, shown) in [
        ("true", "true"),
        ("-3", "-3"),
        ("9223372036854775807", "9223372036854775807"),
        ("1.5", "1.5"),
        ("\"a\\\"b\"", "'a\"b'"),
        ("[1, [true]]", "[1, [true]]"),
        ("{\"a\": {\"b\": 1}}", "{ a = { b = 1 } }"),
        ("[]", "[]"),
        ("{}", "{}"),
    ] {
        let value = json_value_to_edit(&json(text)).unwrap();
        let line = format!("v = {value}\n");
        let expected = format!("v = {shown}\n");
        assert_eq!(parsed(&line), parsed(&expected), "{text}");
    }
    // beyond the integers of a document, a number is a float
    let big = json_value_to_edit(&json("18446744073709551615")).unwrap();
    assert_eq!(big.as_float(), Some(18446744073709551615.0));
    assert_eq!(
        json_value_to_edit(&json("{\"a\": [null]}")).unwrap_err(),
        "null values are not allowed in config"
    );
}

#[test]
fn arrays_of_objects_become_tables() {
    let table = json_object_to_table(&members(
        r#"{"point": [{"id": "a", "sub": [{"k": 1}]}, {"id": "b"}], "mixed": [{"a": 1}, 2], "none": []}"#,
    ))
    .unwrap();
    let points = table["point"].as_array_of_tables().unwrap();
    assert_eq!(points.len(), 2);
    assert_eq!(points.get(1).unwrap()["id"].as_str(), Some("b"));
    assert_eq!(points.get(0).unwrap()["sub"].as_array_of_tables().unwrap().len(), 1);
    assert!(table["mixed"].is_array());
    assert!(table["none"].is_array());
    assert!(json_object_to_table(&members(r#"{"point": [{"id": null}]}"#)).is_err());
}

#[test]
fn defining_and_removing_leaves_the_document() {
    let mut doc = load_document(Some(DEVICES));
    let define = json(r#"{"device": {"name": "c", "x": 1}}"#);
    apply_management("define-device", &define, &mut doc).unwrap();
    let once = document_to_text(&doc);
    assert_eq!(parsed(&once)["device"].as_array().unwrap().len(), 3);
    apply_management("define-device", &define, &mut doc).unwrap();
    assert_eq!(parsed(&document_to_text(&doc)), parsed(&once));
    let remove = json(r#"{"device": "c"}"#);
    apply_management("remove-device", &remove, &mut doc).unwrap();
    assert_eq!(parsed(&document_to_text(&doc)), parsed(DEVICES));
    assert_eq!(
        apply_management("remove-device", &remove, &mut doc).unwrap_err(),
        "device 'c' not found"
    );
}

#[test]
fn removing_takes_the_first_of_a_name() {
    let text = "[[device]]\nname = \"a\"\nn = 1\n[[device]]\nname = \"b\"\n[[device]]\nname = \"a\"\nn = 2\n";
    let (root, r) = after(text, "remove-device", r#"{"device": "a"}"#);
    assert_eq!(r, Ok(()));
    let devices = root["device"].as_array().unwrap();
    assert_eq!(devices.len(), 2);
    assert_eq!(devices[0]["name"].as_str(), Some("b"));
    assert_eq!(devices[1]["n"].as_integer(), Some(2));
}

#[test]
fn comments_survive_a_patch() {
    let text = "# top\n[connector] # here\nprotocol = \"x\" # which\n";
    let mut doc = load_document(Some(text));
    let request = json(r#"{"target": "connector", "config": {"log_level": "debug"}}"#);
    apply_management("set-config", &request, &mut doc).unwrap();
    let shown = document_to_text(&doc);
    assert!(shown.contains("# top"), "{shown}");
    assert!(shown.contains("# which"), "{shown}");
    assert!(shown.contains("log_level = \"debug\""), "{shown}");
}

#[test]
fn a_text_that_is_no_document_loads_as_none() {
    assert_eq!(document_to_text(&load_document(Some("= nonsense"))), "");
    assert_eq!(document_to_text(&load_document(None)), "");
    assert_eq!(document_to_text(&load_document(Some("a = 1\n"))), "a = 1\n");
}

fn empty_config(protocol: &str) -> ConnectorConfig {
    ConnectorConfig {
        connector: ConnectorSection {
            protocol: protocol.into(),
            service_name: String::new(),
            poll_interval: String::new(),
            operation_timeout: String::new(),
            log_level: String::new(),
        },
        mqtt: MqttSection { host: String::new(), port: 0 },
        devices: Vec::new(),
    }
}

fn failed(message: &Message, topic: &str, reason: &str) {
    assert_eq!(message.topic, topic);
    assert!(message.retained);
    assert_eq!(
        message.payload,
        Json::Object(vec![
            ("status".into(), Json::text("failed")),
            ("reason".into(), Json::text(reason)),
        ])
    );
}

#[test]
fn only_an_accepted_candidate_is_put_in_force() {
    let mut state = ConfigState {
        doc: load_document(Some("a = 1\n")),
        config: empty_config("old"),
    };
    let request = json(r#"{"target": "mqtt", "config": {"port": 1}}"#);
    let candidate = || propose("t", "set-config", &request, &load_document(Some("a = 1\n"))).unwrap();
    let invalid = state.settle("t", candidate(), Verdict::Invalid("bad".into()));
    failed(&invalid.answer.unwrap(), "t", "resulting config is invalid: bad");
    assert!(!invalid.restore && !invalid.changed);
    let refused = state.settle("t", candidate(), Verdict::Unconfigurable("no".into()));
    failed(&refused.answer.unwrap(), "t", "configure failed: no");
    assert!(refused.restore && !refused.changed);
    assert_eq!(document_to_text(&state.doc), "a = 1\n");
    assert_eq!(state.config.connector.protocol, "old");
    let accepted = state.settle("t", candidate(), Verdict::Accepted(empty_config("new")));
    assert!(accepted.answer.is_none());
    assert!(!accepted.restore && accepted.changed);
    assert_eq!(parsed(&document_to_text(&state.doc)), parsed("a = 1\n[mqtt]\nport = 1\n"));
    assert_eq!(state.config.connector.protocol, "new");
}

#[test]
fn a_proposal_leaves_the_document() {
    let doc = load_document(Some(DEVICES));
    let removed = propose("t", "remove-device", &json(r#"{"device": "a"}"#), &doc).unwrap();
    assert_eq!(parsed(&document_to_text(&removed))["device"].as_array().unwrap().len(), 1);
    assert_eq!(document_to_text(&doc), DEVICES);
    let refused = propose("t", "remove-device", &json(r#"{"device": "z"}"#), &doc).unwrap_err();
    failed(&refused, "t", "device 'z' not found");
}

#[test]
fn objects_become_inline_tables() {
    let inline = json_object_to_inline(&members(r#"{"a": 1, "b": {"c": "x"}}"#)).unwrap();
    assert_eq!(inline.len(), 2);
    assert_eq!(inline.get("a").unwrap().as_integer(), Some(1));
    assert_eq!(
        inline.get("b").unwrap().as_inline_table().unwrap().get("c").unwrap().as_str(),
        Some("x")
    );
    assert_eq!(
        json_object_to_inline(&members(r#"{"a": null}"#)).unwrap_err(),
        "null values are not allowed in config"
    );
}

#[test]
fn a_patch_keeps_comments() {
    let text = "# head\n[connector]\nprotocol = \"x\" # why\n\n# the end\n";
    let request = json(r#"{"target": "connector", "config": {"log_level": "debug"}}"#);
    let doc = load_document(Some(text));
    let candidate = propose("t", "set-config", &request, &doc).unwrap();
    assert_eq!(
        document_to_text(&candidate),
        "# head\n[connector]\nprotocol = \"x\" # why\nlog_level = \"debug\"\n\n# the end\n"
    );
    assert_eq!(document_to_text(&doc), text);
}

#[test]
fn a_payload_is_written_in_key_order() {
    let payload = Json::Object(vec![
        ("b".into(), json("[1, -2.5, null, true]")),
        ("a".into(), Json::Text("x\"y".into())),
        ("\u{e9}".into(), Json::Object(vec![])),
        ("ab".into(), json("0")),
        ("B".into(), json("{}")),
        ("b".into(), json("[]")),
    ]);
    assert_eq!(
        payload_text(&payload),
        "{\"B\":{},\"a\":\"x\\\"y\",\"ab\":0,\"b\":[],\"\u{e9}\":{}}"
    );
    assert_eq!(payload_text(&json("[1, -2.5, null, true, {\"z\": 1, \"y\": 2}]")),
        "[1,-2.5,null,true,{\"y\":2,\"z\":1}]");
    assert_eq!(parse_json(payload_text(&json("{\"k\": [7]}")).as_bytes()), Some(json("{\"k\": [7]}")));
}

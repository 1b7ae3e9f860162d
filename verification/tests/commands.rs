use tedge_dot_sdk::commands::{
    answer_write, begin_batch, command_for, executing_message, route_command, BatchRun, Command,
    CommandResult,
};
use tedge_dot_sdk::json::{parse_json, Json};
use tedge_dot_sdk::message::{
    capabilities_topic, client_id, command_filter, health_message, health_topic, status_message,
};
use tedge_dot_sdk::model::ConnectorError;

const TOPIC: &str = "te/device/plc/ot/modbus/cmd/write/42";

fn json(text: &str) -> Json {
    parse_json(text.as_bytes()).expect("json")
}

fn object(members: &[(&str, &str)]) -> Json {
    Json::Object(members.iter().map(|(k, v)| (k.to_string(), json(v))).collect())
}

fn ignored(topic: &str, payload: &str) {
    let routed = route_command(topic, "modbus", payload.as_bytes());
    assert!(matches!(routed, Command::Ignored), "{topic} {payload}");
}

fn done(point: &str, value: Option<&str>, raw: Option<&str>) -> Result<CommandResult, ConnectorError> {
    Ok(CommandResult {
        point: point.into(),
        value: value.map(json),
        raw: raw.map(String::from),
    })
}

fn unknown() -> Result<CommandResult, ConnectorError> {
    Err(ConnectorError::UnknownPoint { device: "plc".into(), point: "p".into() })
}

fn denied() -> Result<CommandResult, ConnectorError> {
    Err(ConnectorError::AccessDenied("p".into()))
}

#[test]
fn a_write_is_routed() {
    let payload = br#"{"status": "init", "point": "p", "value": 3, "value_repr": "r", "raw": "00"}"#;
    match route_command(TOPIC, "modbus", payload) {
        Command::Execute { device, verb, request } => {
            assert_eq!(device, "plc");
            assert_eq!(verb, "write");
            assert_eq!(request.point, "p");
            assert_eq!(request.value, Some(json("3")));
            assert_eq!(request.value_repr.as_deref(), Some("r"));
            assert_eq!(request.raw.as_deref(), Some("00"));
        }
        other => panic!("{other:?}"),
    }
    match route_command(TOPIC, "modbus", br#"{"status": "init", "value": null, "raw": 1}"#) {
        Command::Execute { request, .. } => {
            assert_eq!(request.point, "");
            assert_eq!(request.value, Some(Json::Null));
            assert_eq!(request.raw, None);
        }
        other => panic!("{other:?}"),
    }
}

#[test]
fn other_verbs_are_routed() {
    for verb in ["set-config", "define-device", "remove-device"] {
        let topic = format!("te/device/plc/ot/modbus/cmd/{verb}/1");
        match route_command(&topic, "modbus", br#"{"status": "init", "x": 1}"#) {
            Command::Management { verb: v, request } => {
                assert_eq!(v, verb);
                assert_eq!(request.get("x"), Some(&json("1")));
            }
            other => panic!("{other:?}"),
        }
    }
    let topic = "te/device/plc/ot/modbus/cmd/write-batch/1";
    match command_for(topic, "modbus", Some(json(r#"{"status": "init"}"#))) {
        Command::WriteBatch { device, .. } => assert_eq!(device, "plc"),
        other => panic!("{other:?}"),
    }
    assert!(matches!(command_for(topic, "modbus", None), Command::Ignored));
}

#[test]
fn all_else_is_ignored() {
    let init = r#"{"status": "init"}"#;
    for topic in [
        "", "te", "te/device/plc/ot/modbus/cmd/write", "te/device/plc/ot/modbus/cmd/write/1/2",
        "xx/device/plc/ot/modbus/cmd/write/1", "te/dev/plc/ot/modbus/cmd/write/1",
        "te/device/plc/it/modbus/cmd/write/1", "te/device/plc/ot/opcua/cmd/write/1",
        "te/device/plc/ot/modbus/cmdx/write/1", "/te/device/plc/ot/modbus/cmd/write",
    ] {
        ignored(topic, init);
    }
    for payload in [
        "", "junk", "{", "3", "[]", "{}", r#"{"status": 1}"#, r#"{"status": "executing"}"#,
        r#"{"status": "successful"}"#, r#"{"status": "failed"}"#, r#"{"status": "INIT"}"#,
    ] {
        ignored(TOPIC, payload);
    }
}

#[test]
fn answers_come_back_and_are_ignored() {
    let executing = executing_message(TOPIC, "p");
    let ended = answer_write(TOPIC, "p", denied(), "no").unwrap();
    for message in [executing, ended, status_message(TOPIC, "successful")] {
        assert!(matches!(command_for(TOPIC, "modbus", Some(message.payload)), Command::Ignored));
    }
}

#[test]
fn a_write_is_answered() {
    let executing = executing_message(TOPIC, "p");
    assert_eq!(executing.topic, TOPIC);
    assert!(executing.retained);
    assert_eq!(executing.payload, object(&[("status", "\"executing\""), ("point", "\"p\"")]));
    let ok = answer_write(TOPIC, "p", done("q", Some("5"), Some("0005")), "").unwrap();
    assert_eq!(
        ok.payload,
        object(&[
            ("status", "\"successful\""),
            ("point", "\"q\""),
            ("value", "5"),
            ("raw", "\"0005\""),
        ])
    );
    let bare = answer_write(TOPIC, "p", done("p", None, None), "").unwrap();
    assert_eq!(bare.payload, object(&[("status", "\"successful\""), ("point", "\"p\"")]));
    let failed = answer_write(TOPIC, "p", denied(), "access denied").unwrap();
    assert_eq!(
        failed.payload,
        object(&[("status", "\"failed\""), ("point", "\"p\""), ("reason", "\"access denied\"")])
    );
    assert!(answer_write(TOPIC, "p", unknown(), "unknown").is_none());
}

fn batch(writes: &str) -> BatchRun {
    let (message, run) = begin_batch(TOPIC, &json(&format!("{{\"writes\": {writes}}}")));
    assert_eq!(message.payload.get_text("status"), Some("executing"));
    run.expect("started")
}

const TWO: &str = r#"[{"point": "a", "value": 1}, {"point": "b", "raw": "ff"}]"#;

#[test]
fn a_batch_runs_in_order() {
    let (message, run) = begin_batch(TOPIC, &json(&format!("{{\"writes\": {TWO}}}")));
    assert_eq!(
        message.payload,
        object(&[("status", "\"executing\""), ("points", "[\"a\", \"b\"]")])
    );
    let mut run = run.unwrap();
    let first = run.next_request().unwrap();
    assert_eq!(first.point, "a");
    assert_eq!(first.value, Some(json("1")));
    assert_eq!(first.raw, None);
    assert_eq!(first.value_repr, None);
    assert!(run.note(done("a", Some("1"), None), ""));
    let second = run.next_request().unwrap();
    assert_eq!(second.point, "b");
    assert_eq!(second.raw.as_deref(), Some("ff"));
    assert!(run.note(done("b", None, Some("ff")), ""));
    assert!(run.next_request().is_none());
    let end = run.finish(TOPIC);
    assert_eq!(end.topic, TOPIC);
    assert!(end.retained);
    assert_eq!(end.payload.get_text("status"), Some("successful"));
    assert_eq!(
        end.payload.get("results").unwrap().as_array().unwrap(),
        &vec![
            object(&[("point", "\"a\""), ("status", "\"successful\""), ("value", "1")]),
            object(&[("point", "\"b\""), ("status", "\"successful\""), ("raw", "\"ff\"")]),
        ]
    );
}

#[test]
fn a_batch_stops_at_the_first_failure() {
    let mut run = batch(r#"[{"point": "a", "value": 1}, {"point": "b", "value": 2}, {"point": "c", "value": 3}]"#);
    assert!(run.note(done("a", None, None), ""));
    assert!(run.note(unknown(), "no such point"), "a real failure after a success");
    assert!(run.next_request().is_none());
    let end = run.finish(TOPIC);
    assert_eq!(end.payload.get_text("status"), Some("failed"));
    assert_eq!(end.payload.get_text("reason"), Some("write to b failed: no such point"));
    let results = end.payload.get("results").unwrap().as_array().unwrap();
    assert_eq!(results.len(), 2);
    assert_eq!(
        results[1],
        object(&[
            ("point", "\"b\""),
            ("status", "\"failed\""),
            ("reason", "\"write to b failed: no such point\""),
        ])
    );
}

#[test]
fn a_batch_for_another_connector_is_given_up() {
    let mut run = batch(TWO);
    assert!(!run.note(unknown(), "no such point"));
    let mut run = batch(TWO);
    assert!(run.note(denied(), "denied"));
    assert_eq!(run.finish(TOPIC).payload.get_text("reason"), Some("write to a failed: denied"));
}

#[test]
fn a_batch_that_cannot_be_parsed_is_refused() {
    for (request, reason) in [
        ("{}", "write-batch request needs a `writes` array"),
        (r#"{"writes": 1}"#, "write-batch request needs a `writes` array"),
        (r#"{"writes": []}"#, "write-batch request has no writes"),
        (r#"{"writes": [{"point": "a", "value": 1}, {}]}"#, "writes[1] has no `point`"),
        (r#"{"writes": [{"point": "", "value": 1}]}"#, "writes[0] has no `point`"),
        (r#"{"writes": [7]}"#, "writes[0] has no `point`"),
        (
            r#"{"writes": [{"point": "a", "raw": 1}]}"#,
            "writes[0] (a) has neither `value` nor `raw`",
        ),
    ] {
        let (message, run) = begin_batch(TOPIC, &json(request));
        assert!(run.is_none());
        assert_eq!(
            message.payload,
            object(&[
                ("status", "\"failed\""),
                ("reason", &serde_json::to_string(reason).unwrap()),
                ("results", "[]"),
            ])
        );
    }
}

#[test]
fn a_far_entry_is_told_by_its_number() {
    let mut entries = vec![r#"{"point": "a", "value": 0}"#; 12];
    entries[10] = "{}";
    let request = format!("{{\"writes\": [{}]}}", entries.join(", "));
    let (message, _) = begin_batch(TOPIC, &json(&request));
    assert_eq!(message.payload.get_text("reason"), Some("writes[10] has no `point`"));
}

#[test]
fn a_service_speaks_of_itself() {
    assert_eq!(health_topic("dot"), "te/device/main/service/dot/status/health");
    assert_eq!(capabilities_topic("dot"), "te/device/main/service/dot/ot/capabilities");
    assert_eq!(command_filter("modbus"), "te/device/+/ot/modbus/cmd/+/+");
    assert_eq!(client_id("dot", "modbus"), "dot-modbus");
    let up = health_message("dot", "up", "T");
    assert_eq!(up.topic, "te/device/main/service/dot/status/health");
    assert!(up.retained);
    assert_eq!(up.payload, object(&[("status", "\"up\""), ("time", "\"T\"")]));
}

#[test]
fn json_is_read() {
    assert_eq!(parse_json(b""), None);
    assert_eq!(parse_json(b"1 2"), None);
    assert_eq!(parse_json(b"\xff"), None);
    let value = json(r#"{"b": [null, true, -1, 2.5, "x"], "a": {}, "b": 3}"#);
    assert_eq!(value.get("b"), Some(&json("3")), "the last of two members stands");
    assert_eq!(value.as_object().unwrap().len(), 2);
    assert_eq!(value.clone(), value);
    let items = json(r#"[null, true, -1, 2.5, "x"]"#);
    assert_eq!(
        items.as_array().unwrap()[4],
        Json::Text("x".into())
    );
    assert!(items.get("a").is_none());
    assert!(items.as_text().is_none());
}

use std::time::Duration;
use tedge_dot_sdk::capabilities::{augment_batch_caps, augment_management_caps};
use tedge_dot_sdk::clock::{next_backoff, reconnect_initial, reconnect_max};
use tedge_dot_sdk::commands::{batch_result, is_foreign_batch_point, parse_batch_writes};
use tedge_dot_sdk::config::{
    ConnectorConfig, ConnectorSection, DeviceConfig, MqttSection, PointConfig,
};
use tedge_dot_sdk::json::{parse_json, Json};
use tedge_dot_sdk::links::next_link_state;
use tedge_dot_sdk::management::{apply_management, document_to_text, load_document};
use tedge_dot_sdk::model::{Access, Capabilities, ConnectorError, DataType, LinkStatus, Mode};
use tedge_dot_sdk::samples::{build_meta_index, envelope_with_meta, MetaIndex, PointExtras};
use tedge_dot_sdk::schedule::{build_schedule, Subscribed};
use toml_edit::DocumentMut;

const BASE: &str = r#"
[connector]
protocol = "modbus"
poll_interval = "2s"
log_level = "info"

[mqtt]
host = "127.0.0.1"
port = 1883

[connection.serial]
baudrate = 9600
parity = "N"
stopbits = 2
databits = 8

[[device]]
name = "plc-1"
protocol_address = { transport = "tcp", host = "127.0.0.1", port = 502, unit_id = 1 }
default_mode = "typed"

  [[device.point]]
  id = "temp"
  datatype = "float32"
  address = { table = "holding", address = 7, count = 2 }
"#;

fn json(text: &str) -> Json {
    parse_json(text.as_bytes()).expect("json")
}

fn opt_text(table: &toml::Table, key: &str) -> Option<String> {
    table.get(key).and_then(|v| v.as_str()).map(String::from)
}

fn text_or(table: &toml::Table, key: &str, other: &str) -> String {
    opt_text(table, key).unwrap_or_else(|| other.to_string())
}

fn mode(name: Option<String>) -> Option<Mode> {
    name.map(|m| if m == "raw" { Mode::Raw } else { Mode::Typed })
}

fn datatype(name: Option<String>) -> Option<DataType> {
    name.map(|d| match d.as_str() {
        "float32" => DataType::Float32,
        "uint16" => DataType::Uint16,
        "int16" => DataType::Int16,
        other => panic!("datatype {other}"),
    })
}

fn point(table: &toml::Table) -> PointConfig {
    PointConfig {
        id: text_or(table, "id", ""),
        mode: mode(opt_text(table, "mode")),
        datatype: datatype(opt_text(table, "datatype")),
        endianness: opt_text(table, "endianness"),
        word_order: opt_text(table, "word_order"),
        access: opt_text(table, "access"),
        unit: opt_text(table, "unit"),
        transform: None,
        poll_interval: opt_text(table, "poll_interval"),
        subscribe: table.get("subscribe").and_then(|v| v.as_bool()),
        meta: table.get("meta").map(|v| json(&serde_json::to_string(v).unwrap())),
    }
}

fn tables(table: &toml::Table, key: &str) -> Vec<toml::Table> {
    match table.get(key) {
        Some(toml::Value::Array(items)) => {
            items.iter().map(|i| i.as_table().expect("table").clone()).collect()
        }
        _ => Vec::new(),
    }
}

fn section(table: &toml::Table, key: &str) -> toml::Table {
    table.get(key).and_then(|v| v.as_table()).cloned().unwrap_or_default()
}

fn config(text: &str) -> ConnectorConfig {
    let root: toml::Table = toml::from_str(text).expect("valid config");
    let connector = section(&root, "connector");
    let mqtt = section(&root, "mqtt");
    ConnectorConfig {
        connector: ConnectorSection {
            protocol: text_or(&connector, "protocol", ""),
            service_name: text_or(&connector, "service_name", ""),
            poll_interval: text_or(&connector, "poll_interval", "2s"),
            operation_timeout: text_or(&connector, "operation_timeout", "30s"),
            log_level: text_or(&connector, "log_level", "info"),
        },
        mqtt: MqttSection {
            host: text_or(&mqtt, "host", "127.0.0.1"),
            port: mqtt.get("port").and_then(|p| p.as_integer()).unwrap_or(1883) as u16,
        },
        devices: tables(&root, "device")
            .iter()
            .map(|d| DeviceConfig {
                name: text_or(d, "name", ""),
                poll_interval: opt_text(d, "poll_interval"),
                default_mode: mode(opt_text(d, "default_mode")),
                points: tables(d, "point").iter().map(point).collect(),
            })
            .collect(),
    }
}

fn doc() -> DocumentMut {
    load_document(Some(BASE))
}

/// Applies a verb and gives the resulting configuration.
fn apply(verb: &str, request: &str) -> (DocumentMut, ConnectorConfig) {
    let mut d = doc();
    apply_management(verb, &json(request), &mut d).expect("apply ok");
    let cfg = config(&document_to_text(&d));
    (d, cfg)
}

#[test]
fn set_config_patches_connector_section() {
    let (_d, cfg) = apply(
        "set-config",
        r#"{ "target": "connector", "config": { "poll_interval": "5s" } }"#,
    );
    assert_eq!(cfg.connector.poll_interval, "5s");
    // unrelated fields preserved
    assert_eq!(cfg.connector.log_level, "info");
}

#[test]
fn set_config_deep_merges_serial_defaults() {
    let (d, _cfg) = apply(
        "set-config",
        r#"{ "target": "connection", "config": { "serial": { "baudrate": 19200 } } }"#,
    );
    let text = document_to_text(&d);
    assert!(text.contains("baudrate = 19200"), "baudrate patched: {text}");
    // sibling serial keys are retained by the deep merge
    assert!(text.contains("parity"), "parity retained: {text}");
}

#[test]
fn set_config_patches_named_device() {
    let (_d, cfg) = apply(
        "set-config",
        r#"{ "target": "device:plc-1", "config": { "poll_interval": "10s" } }"#,
    );
    let dev = cfg.devices.iter().find(|d| d.name == "plc-1").unwrap();
    assert_eq!(dev.poll_interval.as_deref(), Some("10s"));
    // existing points untouched
    assert_eq!(dev.points.len(), 1);
}

#[test]
fn set_config_unknown_target_rejected() {
    let mut d = doc();
    let err = apply_management(
        "set-config",
        &json(r#"{ "target": "bogus", "config": {} }"#),
        &mut d,
    )
    .unwrap_err();
    assert!(err.contains("unknown set-config target"), "{err}");
}

#[test]
fn define_device_appends_new_device() {
    let (_d, cfg) = apply(
        "define-device",
        r#"{ "device": {
            "name": "plc-9",
            "protocol_address": { "transport": "tcp", "host": "10.0.0.9", "port": 502, "unit_id": 2 },
            "default_mode": "typed",
            "point": [
                { "id": "level", "datatype": "uint16", "address": { "table": "holding", "address": 1, "count": 1 } }
            ]
        }}"#,
    );
    assert_eq!(cfg.devices.len(), 2);
    let dev = cfg.devices.iter().find(|d| d.name == "plc-9").unwrap();
    assert_eq!(dev.points.len(), 1);
    assert_eq!(dev.points[0].id, "level");
}

#[test]
fn define_device_replaces_existing_by_name() {
    let (_d, cfg) = apply(
        "define-device",
        r#"{ "device": {
            "name": "plc-1",
            "protocol_address": { "transport": "tcp", "host": "1.2.3.4", "port": 502, "unit_id": 1 },
            "point": [
                { "id": "a", "datatype": "int16", "address": { "table": "holding", "address": 0, "count": 1 } },
                { "id": "b", "datatype": "int16", "address": { "table": "holding", "address": 1, "count": 1 } }
            ]
        }}"#,
    );
    assert_eq!(cfg.devices.len(), 1, "replaced, not appended");
    assert_eq!(cfg.devices[0].points.len(), 2);
}

#[test]
fn remove_device_deletes_entry() {
    let (_d, cfg) = apply("remove-device", r#"{ "device": "plc-1" }"#);
    assert!(cfg.devices.is_empty());
}

#[test]
fn remove_unknown_device_rejected() {
    let mut d = doc();
    let err =
        apply_management("remove-device", &json(r#"{ "device": "nope" }"#), &mut d).unwrap_err();
    assert!(err.contains("not found"), "{err}");
}

#[test]
fn a_point_is_scheduled_unless_it_is_subscribed() {
    let config = config(BASE);
    let now = Duration::from_secs(0);

    let none = Subscribed::new();
    let polled = build_schedule(&config, &none, now);
    assert_eq!(polled.len(), 1, "an unsubscribed point must be polled");
    assert_eq!(polled[0].point.id, "temp");

    let mut subscribed = Subscribed::new();
    subscribed.insert(0usize, "temp");
    assert!(
        build_schedule(&config, &subscribed, now).is_empty(),
        "a subscribed point must not also be polled (it would double-publish)"
    );

    // ...and dropping it from the set puts it straight back on the schedule.
    subscribed.remove(0usize, "temp");
    assert_eq!(
        build_schedule(&config, &subscribed, now).len(),
        1,
        "a point that lost its subscription must fall back to polling"
    );
}

#[test]
fn point_meta_parsed_and_indexed() {
    let cfg = config(
        r#"
[connector]
protocol = "modbus"

[[device]]
name = "plc-1"
protocol_address = { host = "127.0.0.1" }

  [[device.point]]
  id = "temp"
  datatype = "float32"
  address = { table = "holding", address = 7, count = 2 }
  meta = { on_change = true, min_interval = "5s", room = "boiler" }
"#,
    );
    let index = build_meta_index(&cfg);
    let extras = index.get("plc-1", "temp").unwrap();
    let meta = extras.meta.as_ref().unwrap();
    assert_eq!(extras.access, Access::Read);
    assert_eq!(meta.get("on_change"), Some(&json("true")));
    assert_eq!(meta.get("min_interval"), Some(&json("\"5s\"")));
    assert_eq!(meta.get("room"), Some(&json("\"boiler\"")));
}

#[test]
fn envelope_carries_point_meta() {
    let envelope = || {
        vec![
            ("device".to_string(), Json::text("plc-1")),
            ("protocol".to_string(), Json::text("modbus")),
            ("point".to_string(), Json::text("temp")),
            ("quality".to_string(), Json::text("good")),
        ]
    };
    let mut index = MetaIndex::new();
    index.insert(
        "plc-1",
        "temp",
        PointExtras {
            meta: Some(json(r#"{ "on_change": true }"#)),
            access: Access::ReadWrite,
        },
    );
    let env = envelope_with_meta(envelope(), "plc-1", "temp", &index);
    assert_eq!(env.get("meta").and_then(|m| m.get("on_change")), Some(&json("true")));
    assert_eq!(env.get("access"), Some(&json("\"read_write\"")));
    // a sample of an unindexed point has neither meta nor access
    let env2 = envelope_with_meta(envelope(), "plc-1", "temp", &MetaIndex::new());
    assert!(env2.get("meta").is_none());
    assert!(env2.get("access").is_none());
}

#[test]
fn schedule_skips_subscribed_points() {
    let cfg = config(BASE);
    let none = Subscribed::new();
    let now = Duration::from_secs(0);
    assert_eq!(build_schedule(&cfg, &none, now).len(), 1);
    let mut subscribed = Subscribed::new();
    subscribed.insert(0usize, "temp");
    assert_eq!(build_schedule(&cfg, &subscribed, now).len(), 0);
}

#[test]
fn schedule_resolves_point_interval() {
    let cfg = config(BASE);
    let schedule = build_schedule(&cfg, &Subscribed::new(), Duration::from_secs(0));
    // connector poll_interval = "2s" flows into the resolved PointRef interval
    assert_eq!(schedule[0].point.interval, Some(Duration::from_secs(2)));
}

#[test]
fn reconnect_backoff_doubles_and_caps() {
    assert_eq!(next_backoff(reconnect_initial()), Duration::from_secs(2));
    assert_eq!(next_backoff(Duration::from_secs(2)), Duration::from_secs(4));
    assert_eq!(next_backoff(Duration::from_secs(40)), reconnect_max());
    assert_eq!(next_backoff(reconnect_max()), reconnect_max());
}

#[test]
fn link_transitions_follow_poll_health() {
    let connected = LinkStatus::Connected;
    let degraded = LinkStatus::Degraded;
    let disconnected = LinkStatus::Disconnected;
    // healthy reads (re)connect from any non-connected state
    assert_eq!(next_link_state(Some(connected), true), None);
    assert_eq!(next_link_state(Some(degraded), true), Some(connected));
    assert_eq!(next_link_state(Some(disconnected), true), Some(connected));
    assert_eq!(next_link_state(None, true), Some(connected));
    // a fully-failing batch degrades a connected link, once
    assert_eq!(next_link_state(Some(connected), false), Some(degraded));
    assert_eq!(next_link_state(Some(degraded), false), None);
    // a device that never connected stays disconnected
    assert_eq!(next_link_state(Some(disconnected), false), None);
    assert_eq!(next_link_state(None, false), None);
}

#[test]
fn batch_writes_parse_typed_and_raw_entries() {
    let request = json(
        r#"{
            "status": "init",
            "writes": [
                { "point": "setpoint", "value": 21.5 },
                { "point": "mask", "raw": "00ff" }
            ]
        }"#,
    );
    let writes = parse_batch_writes(&request).unwrap();
    assert_eq!(writes.len(), 2);
    assert_eq!(writes[0].point, "setpoint");
    assert_eq!(writes[0].value, Some(json("21.5")));
    assert_eq!(writes[1].raw.as_deref(), Some("00ff"));
    assert_eq!(writes[1].value, None);
}

#[test]
fn batch_writes_reject_malformed_requests() {
    let missing = json(r#"{ "status": "init" }"#);
    assert!(parse_batch_writes(&missing).unwrap_err().contains("`writes`"));
    let empty = json(r#"{ "writes": [] }"#);
    assert!(parse_batch_writes(&empty).unwrap_err().contains("no writes"));
    let no_point = json(r#"{ "writes": [{ "value": 1 }] }"#);
    assert!(parse_batch_writes(&no_point).unwrap_err().contains("`point`"));
    let no_value = json(r#"{ "writes": [{ "point": "x" }] }"#);
    assert!(parse_batch_writes(&no_value).unwrap_err().contains("neither"));
    let null_value = json(r#"{ "writes": [{ "point": "x", "value": null }] }"#);
    assert!(parse_batch_writes(&null_value).is_err());
}

#[test]
fn batch_result_shapes_success_and_failure() {
    let ok = batch_result(None, vec![json(r#"{ "point": "a", "status": "successful" }"#)]);
    assert_eq!(ok.get_text("status"), Some("successful"));
    assert_eq!(ok.get("results").unwrap().as_array().unwrap().len(), 1);
    let failed = batch_result(
        Some("write to b failed: boom".into()),
        vec![
            json(r#"{ "point": "a", "status": "successful" }"#),
            json(r#"{ "point": "b", "status": "failed", "reason": "write to b failed: boom" }"#),
        ],
    );
    assert_eq!(failed.get_text("status"), Some("failed"));
    assert_eq!(failed.get_text("reason"), Some("write to b failed: boom"));
    let results = failed.get("results").unwrap().as_array().unwrap();
    assert_eq!(results[1].get_text("status"), Some("failed"));
}

#[test]
fn foreign_batch_point_only_before_any_success() {
    let unknown = ConnectorError::UnknownPoint {
        device: "sensor-1".to_string(),
        point: "threshold".to_string(),
    };
    // Nothing written yet: treat as "not my point", stay silent.
    assert!(is_foreign_batch_point(&unknown, 0));
    // Something in the batch already succeeded: a real, inconsistent failure now.
    assert!(!is_foreign_batch_point(&unknown, 1));
    // Any other error kind is always a real failure, regardless of progress.
    let denied = ConnectorError::AccessDenied("temperature_min".to_string());
    assert!(!is_foreign_batch_point(&denied, 0));
    assert!(!is_foreign_batch_point(&denied, 1));
}

#[test]
fn batch_caps_follow_write_support() {
    let mut caps = Capabilities {
        protocol: "x",
        version: "0",
        modes: vec![],
        datatypes: vec![],
        point_kinds: vec![],
        command_verbs: vec!["write".into()],
        features: vec![],
        subscribe: false,
    };
    augment_batch_caps(&mut caps);
    assert!(caps.command_verbs.iter().any(|v| v == "write-batch"));
    augment_batch_caps(&mut caps); // idempotent
    assert_eq!(caps.command_verbs.iter().filter(|v| *v == "write-batch").count(), 1);
    let mut read_only = caps.clone();
    read_only.command_verbs = vec![];
    augment_batch_caps(&mut read_only);
    assert!(read_only.command_verbs.is_empty());
}

#[test]
fn management_caps_are_advertised() {
    let mut caps = Capabilities {
        protocol: "modbus",
        version: "0.0.0",
        modes: vec![],
        datatypes: vec![],
        point_kinds: vec![],
        command_verbs: vec!["write".into()],
        features: vec!["polling".into()],
        subscribe: false,
    };
    augment_management_caps(&mut caps);
    for verb in ["write", "set-config", "define-device", "remove-device"] {
        assert!(caps.command_verbs.iter().any(|v| v == verb), "missing {verb}");
    }
    assert!(caps.features.iter().any(|f| f == "management"));
}

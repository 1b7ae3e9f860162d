use tedge_dot_sdk::config::{
    ConnectorConfig, ConnectorSection, DeviceConfig, MqttSection, PointConfig,
};
use tedge_dot_sdk::descriptor::{
    c8y_dtm_definitions, default_set, definition, invalid_keys, is_valid_key, parameter_of,
    parameters, property_at, property_schema, property_within, title_from_key, title_of_words,
};
use tedge_dot_sdk::json::{parse_json, Json};
use tedge_dot_sdk::model::{Access, DataType};

const CONFIG: &str = r#"
[connector]
protocol = "modbus"

[[device]]
name = "plc1"
protocol_address = { transport = "tcp", host = "127.0.0.1", port = 502, unit_id = 1 }

  [[device.point]]
  id = "temp_u16"
  datatype = "uint16"
  access = "read_write"
  unit = "°C"
  address = { table = "holding", address = 3, count = 1 }
  meta = { parameter = { title = "Temperature setpoint", min = 0, max = 100, order = 7 } }

  [[device.point]]
  id = "coil_rw"
  datatype = "bool"
  access = "read_write"
  address = { table = "coil", address = 48, count = 1 }

  [[device.point]]
  id = "pump_speed"
  datatype = "float32"
  access = "write"
  address = { table = "holding", address = 10, count = 2 }
  meta = { parameter = "pump" }

  [[device.point]]
  id = "level_f32"
  datatype = "float32"
  address = { table = "holding", address = 6, count = 2 }

  [[device.point]]
  id = "status_word"
  datatype = "uint16"
  address = { table = "holding", address = 20, count = 1 }
  meta = { parameter = true }

  [[device.point]]
  id = "hidden_rw"
  datatype = "uint16"
  access = "read_write"
  address = { table = "holding", address = 21, count = 1 }
  meta = { parameter = false }
"#;

fn json(text: &str) -> Json {
    parse_json(text.as_bytes()).expect("json")
}

fn text(table: &toml::Table, key: &str) -> Option<String> {
    table.get(key).and_then(|v| v.as_str()).map(String::from)
}

fn datatype(name: &str) -> DataType {
    match name {
        "bool" => DataType::Bool,
        "uint16" => DataType::Uint16,
        "float32" => DataType::Float32,
        other => panic!("datatype {other}"),
    }
}

fn point(table: &toml::Table) -> PointConfig {
    PointConfig {
        id: text(table, "id").unwrap(),
        mode: None,
        datatype: text(table, "datatype").map(|d| datatype(&d)),
        endianness: None,
        word_order: None,
        access: text(table, "access"),
        unit: text(table, "unit"),
        transform: None,
        poll_interval: None,
        subscribe: None,
        meta: table.get("meta").map(|v| json(&serde_json::to_string(v).unwrap())),
    }
}

fn cfg() -> ConnectorConfig {
    let root: toml::Table = toml::from_str(CONFIG).unwrap();
    let protocol = text(root["connector"].as_table().unwrap(), "protocol").unwrap();
    ConnectorConfig {
        connector: ConnectorSection {
            protocol,
            service_name: String::new(),
            poll_interval: "2s".into(),
            operation_timeout: "30s".into(),
            log_level: "info".into(),
        },
        mqtt: MqttSection { host: "127.0.0.1".into(), port: 1883 },
        devices: root["device"]
            .as_array()
            .unwrap()
            .iter()
            .map(|d| {
                let d = d.as_table().unwrap();
                DeviceConfig {
                    name: text(d, "name").unwrap(),
                    poll_interval: None,
                    default_mode: None,
                    points: d["point"]
                        .as_array()
                        .unwrap()
                        .iter()
                        .map(|p| point(p.as_table().unwrap()))
                        .collect(),
                }
            })
            .collect(),
    }
}

fn at<'a>(value: &'a Json, key: &str) -> &'a Json {
    value.get(key).unwrap_or_else(|| panic!("no {key}"))
}

#[test]
fn parameters_select_writable_and_opted_in_points() {
    let params = parameters(&cfg(), "modbus_parameters");
    let names: Vec<(&str, &str)> =
        params.iter().map(|p| (p.point.as_str(), p.set.as_str())).collect();
    assert_eq!(
        names,
        vec![
            ("temp_u16", "modbus_parameters"),
            ("coil_rw", "modbus_parameters"),
            ("pump_speed", "pump"),
            ("status_word", "modbus_parameters"),
        ]
    );
    assert_eq!(params[3].access, Access::Read);
}

#[test]
fn key_validation_and_default_set() {
    assert!(is_valid_key("ok_id_1"));
    assert!(!is_valid_key("Environment.Temperature"));
    assert!(!is_valid_key(""));
    assert_eq!(default_set("opc-ua"), "opc_ua_parameters");
    let mut c = cfg();
    c.devices[0].points[0].id = "Boiler.Temp".into();
    let bad = invalid_keys(&c, "modbus_parameters");
    assert_eq!(bad, vec!["point id 'Boiler.Temp'"]);
    assert!(invalid_keys(&cfg(), "plant.floor").iter().all(|b| b.contains("parameter set")));
}

#[test]
fn dtm_definitions_group_by_set_and_render_schema() {
    let defs = c8y_dtm_definitions(&cfg(), None);
    assert_eq!(defs.len(), 2);
    let main = &defs[0];
    assert_eq!(at(main, "identifier"), &json("\"modbus_parameters\""));
    assert_eq!(at(main, "contexts"), &json(r#"["asset", "operation"]"#));
    let props = at(at(main, "jsonSchema"), "properties");
    let temp = at(props, "temp_u16");
    assert_eq!(at(temp, "type"), &json("\"integer\""));
    assert_eq!(at(temp, "title"), &json("\"Temperature setpoint\""));
    assert_eq!(at(temp, "minimum"), &json("0.0"));
    assert_eq!(at(temp, "maximum"), &json("100.0"));
    assert_eq!(at(temp, "order"), &json("7"));
    assert_eq!(at(temp, "description"), &json("\"[°C]\""));
    let coil = at(props, "coil_rw");
    assert_eq!(at(coil, "type"), &json("\"boolean\""));
    assert_eq!(at(coil, "order"), &json("2"));
    let status = at(props, "status_word");
    assert_eq!(at(status, "readOnly"), &json("true"));
    assert_eq!(at(status, "maximum"), &json("65535.0"));
    assert!(props.get("hidden_rw").is_none());
    assert!(props.get("level_f32").is_none());

    let pump = &defs[1];
    assert_eq!(at(pump, "identifier"), &json("\"pump\""));
    assert_eq!(at(at(pump, "jsonSchema"), "title"), &json("\"Pump\""));
    let speed = at(at(at(pump, "jsonSchema"), "properties"), "pump_speed");
    assert_eq!(at(speed, "type"), &json("\"number\""));
    assert!(speed.get_text("description").unwrap().contains("write-only"));
}

#[test]
fn dtm_default_set_override() {
    let defs = c8y_dtm_definitions(&cfg(), Some("plant_settings"));
    assert_eq!(at(&defs[0], "identifier"), &json("\"plant_settings\""));
}

fn plain_point(id: &str, access: Option<&str>, meta: Option<&str>) -> PointConfig {
    PointConfig {
        id: id.into(),
        mode: None,
        datatype: None,
        endianness: None,
        word_order: None,
        access: access.map(String::from),
        unit: None,
        transform: None,
        poll_interval: None,
        subscribe: None,
        meta: meta.map(json),
    }
}

#[test]
fn only_writable_or_marked_points_are_parameters() {
    assert!(parameter_of(&plain_point("a", None, None), "d").is_none());
    assert!(parameter_of(&plain_point("a", Some("read"), None), "d").is_none());
    assert!(parameter_of(&plain_point("a", Some("bogus"), None), "d").is_none());
    assert!(parameter_of(&plain_point("a", Some("write"), None), "d").is_some());
    assert!(parameter_of(&plain_point("a", Some("read_write"), None), "d").is_some());
    let out = r#"{ "parameter": false }"#;
    assert!(parameter_of(&plain_point("a", Some("write"), Some(out)), "d").is_none());
    let in_ = r#"{ "parameter": true }"#;
    assert!(parameter_of(&plain_point("a", None, Some(in_)), "d").is_some());
    // a marking of another type counts as opting in, without options
    let odd = parameter_of(&plain_point("a", None, Some(r#"{ "parameter": 3 }"#)), "d").unwrap();
    assert!(odd.options.is_empty());
    assert_eq!(odd.set, "d");
    // other metadata does not mark a point
    assert!(parameter_of(&plain_point("a", None, Some(r#"{ "room": "x" }"#)), "d").is_none());
}

#[test]
fn a_parameter_picks_its_set() {
    let named = parameter_of(&plain_point("a", None, Some(r#"{ "parameter": "pump" }"#)), "d");
    assert_eq!(named.unwrap().set, "pump");
    let table = r#"{ "parameter": { "set": "boiler", "title": "T" } }"#;
    let p = parameter_of(&plain_point("a", None, Some(table)), "d").unwrap();
    assert_eq!(p.set, "boiler");
    assert_eq!(p.options.len(), 2);
    let no_text = r#"{ "parameter": { "set": 5 } }"#;
    assert_eq!(parameter_of(&plain_point("a", None, Some(no_text)), "d").unwrap().set, "d");
}

#[test]
fn a_schema_has_the_limits_of_its_type() {
    let limits = |datatype: Option<DataType>| {
        let mut point = plain_point("a", Some("write"), None);
        point.datatype = datatype;
        let schema = property_schema(&parameter_of(&point, "d").unwrap());
        (
            schema.get_text("type").unwrap().to_string(),
            schema.get("minimum").cloned(),
            schema.get("maximum").cloned(),
        )
    };
    let both = |a: &str, b: &str| (Some(json(a)), Some(json(b)));
    for (datatype, name, (least, greatest)) in [
        (Some(DataType::Bool), "boolean", (None, None)),
        (Some(DataType::Int8), "integer", both("-128.0", "127.0")),
        (Some(DataType::Uint8), "integer", both("0.0", "255.0")),
        (Some(DataType::Int16), "integer", both("-32768.0", "32767.0")),
        (Some(DataType::Uint16), "integer", both("0.0", "65535.0")),
        (Some(DataType::Int32), "integer", both("-2147483648.0", "2147483647.0")),
        (Some(DataType::Uint32), "integer", both("0.0", "4294967295.0")),
        (Some(DataType::Int64), "integer", (None, None)),
        (Some(DataType::Uint64), "integer", (None, None)),
        (Some(DataType::Float32), "number", (None, None)),
        (Some(DataType::Float64), "number", (None, None)),
        (Some(DataType::String), "string", (None, None)),
        (Some(DataType::Bytes), "string", (None, None)),
        (None, "string", (None, None)),
    ] {
        assert_eq!(limits(datatype), (name.to_string(), least, greatest), "{datatype:?}");
    }
}

#[test]
fn options_override_limits_and_are_handed_on() {
    let meta = r#"{ "parameter": {
        "title": "T", "description": "D", "min": 5, "max": 7.5, "enum": [5, 6], "default": 6
    } }"#;
    let mut point = plain_point("a", Some("write"), Some(meta));
    point.datatype = Some(DataType::Int8);
    point.unit = Some("bar".into());
    let schema = property_schema(&parameter_of(&point, "d").unwrap());
    assert_eq!(at(&schema, "title"), &json("\"T\""));
    assert_eq!(
        at(&schema, "description"),
        &json("\"D [bar] (write-only: shows the last value written)\"")
    );
    assert_eq!(at(&schema, "minimum"), &json("5.0"));
    assert_eq!(at(&schema, "maximum"), &json("7.5"));
    assert_eq!(at(&schema, "enum"), &json("[5, 6]"));
    assert_eq!(at(&schema, "default"), &json("6"));
    assert!(schema.get("order").is_none());
    assert!(schema.get("readOnly").is_none());
}

#[test]
fn a_bound_that_is_no_number_is_passed_over() {
    let meta = r#"{ "parameter": { "min": "low" } }"#;
    let mut point = plain_point("a", Some("write"), Some(meta));
    point.datatype = Some(DataType::Uint8);
    let schema = property_schema(&parameter_of(&point, "d").unwrap());
    assert_eq!(at(&schema, "minimum"), &json("0.0"));
}

#[test]
fn a_plain_schema_has_no_description() {
    let schema = property_schema(&parameter_of(&plain_point("a", Some("read_write"), None), "d").unwrap());
    assert!(schema.get("description").is_none());
    assert_eq!(at(&schema, "title"), &json("\"a\""));
}

#[test]
fn titles_are_made_of_keys() {
    assert_eq!(title_from_key("pump"), "Pump");
    assert_eq!(title_from_key("modbus_parameters"), "Modbus parameters");
    assert_eq!(title_from_key("__a__b_"), "A b");
    assert_eq!(title_from_key(""), "");
    assert_eq!(title_from_key("___"), "");
    assert_eq!(title_from_key("\u{df}x"), "SSx");
    assert_eq!(title_from_key("9lives"), "9lives");
    assert_eq!(title_from_key("__flow__Rate_"), "Flow Rate");
}

#[test]
fn a_title_is_its_own_title() {
    for key in ["__flow__Rate_", "modbus_parameters", "9_lives", "Pump", ""] {
        let title = title_from_key(key);
        assert!(!title.contains('_'));
        assert_eq!(title_from_key(&title), title);
    }
}

#[test]
fn words_are_joined_under_a_given_initial() {
    let words = vec!["pump".to_string(), "speed".to_string()];
    assert_eq!(title_of_words(&words, "P"), "Pump speed");
    assert_eq!(title_of_words(&Vec::new(), "P"), "");
}

#[test]
fn default_sets_are_valid_keys() {
    for protocol in ["", "opc-ua", "a.b$c", "modbus", "\u{e9}t\u{e9}"] {
        assert!(is_valid_key(&default_set(protocol)), "{protocol}");
    }
    assert_eq!(default_set(""), "_parameters");
    assert_eq!(default_set("\u{e9}1"), "_1_parameters");
}

#[test]
fn keys_of_other_characters_are_invalid() {
    assert!(!is_valid_key("a b"));
    assert!(!is_valid_key("a-b"));
    assert!(!is_valid_key("$a"));
    assert!(!is_valid_key("\u{e9}"));
    assert!(is_valid_key("_"));
    assert!(is_valid_key("Z9"));
}

#[test]
fn both_keys_of_a_parameter_can_be_invalid() {
    let mut c = cfg();
    c.devices[0].points = vec![plain_point("a.b", Some("write"), Some(r#"{"parameter": "x y"}"#))];
    assert_eq!(invalid_keys(&c, "d"), vec!["point id 'a.b'", "parameter set 'x y'"]);
}

#[test]
fn the_first_definition_of_a_key_wins() {
    let mut c = cfg();
    let mut first = plain_point("level", Some("write"), None);
    first.datatype = Some(DataType::Bool);
    let mut second = plain_point("level", Some("write"), None);
    second.datatype = Some(DataType::Float32);
    let other = plain_point("flow", Some("write"), None);
    c.devices[0].points = vec![first];
    c.devices.push(DeviceConfig {
        name: "plc2".into(),
        poll_interval: None,
        default_mode: None,
        points: vec![second, other],
    });
    let defs = c8y_dtm_definitions(&c, None);
    assert_eq!(defs.len(), 1);
    let props = at(at(&defs[0], "jsonSchema"), "properties");
    assert_eq!(props.as_object().unwrap().len(), 2);
    assert_eq!(at(at(props, "level"), "type"), &json("\"boolean\""));
    assert_eq!(at(at(props, "level"), "order"), &json("1"));
    assert_eq!(at(at(props, "flow"), "order"), &json("2"));
}

#[test]
fn sets_and_keys_come_in_order_of_first_appearance() {
    let mut c = cfg();
    let zeta = Some(r#"{"parameter": "zeta"}"#);
    let alpha = Some(r#"{"parameter": "alpha"}"#);
    let own = Some(r#"{"parameter": {"set": "zeta", "order": 9}}"#);
    c.devices[0].points = vec![
        plain_point("z2", None, zeta),
        plain_point("a1", None, alpha),
        plain_point("z1", None, own),
        plain_point("z2", None, zeta),
        plain_point("z0", None, zeta),
    ];
    let defs = c8y_dtm_definitions(&c, None);
    assert_eq!(defs.len(), 2);
    assert_eq!(at(&defs[0], "identifier"), &json("\"zeta\""));
    assert_eq!(at(&defs[1], "identifier"), &json("\"alpha\""));
    let properties = at(at(&defs[0], "jsonSchema"), "properties").as_object().unwrap();
    let keys: Vec<&str> = properties.iter().map(|(key, _)| key.as_str()).collect();
    assert_eq!(keys, vec!["z2", "z1", "z0"]);
    let places: Vec<&Json> = properties.iter().map(|(_, p)| at(p, "order")).collect();
    assert_eq!(places, vec![&json("1"), &json("9"), &json("3")]);
}

#[test]
fn a_definition_is_complete() {
    let mut c = cfg();
    c.devices[0].points = vec![plain_point("x", Some("read_write"), None)];
    assert_eq!(
        c8y_dtm_definitions(&c, None),
        vec![Json::Object(vec![
            ("identifier".into(), json("\"modbus_parameters\"")),
            (
                "jsonSchema".into(),
                Json::Object(vec![
                    ("$schema".into(), json("\"http://json-schema.org/draft-07/schema#\"")),
                    ("title".into(), json("\"Modbus parameters\"")),
                    (
                        "description".into(),
                        json(
                            "\"Writable modbus points exposed by tedge-dot (generated from the connector configuration)\""
                        )
                    ),
                    ("type".into(), json("\"object\"")),
                    (
                        "properties".into(),
                        Json::Object(vec![(
                            "x".into(),
                            Json::Object(vec![
                                ("type".into(), json("\"string\"")),
                                ("title".into(), json("\"x\"")),
                                ("order".into(), json("1")),
                            ])
                        )])
                    ),
                ])
            ),
            ("contexts".into(), json(r#"["asset", "operation"]"#)),
            ("tags".into(), json(r#"["tedge-dot", "modbus"]"#)),
        ])]
    );
}

#[test]
fn a_configuration_without_parameters_defines_nothing() {
    let mut c = cfg();
    c.devices[0].points = vec![plain_point("x", None, None)];
    assert!(c8y_dtm_definitions(&c, None).is_empty());
    c.devices.clear();
    assert!(parameters(&c, "d").is_empty());
}

#[test]
fn a_property_has_the_bounds_it_is_given() {
    let param = parameter_of(&plain_point("a", Some("write"), None), "d").unwrap();
    let property = property_within(&param, Some(json("1")), None);
    assert_eq!(at(&property, "minimum"), &json("1"));
    assert!(property.get("maximum").is_none());
}

#[test]
fn a_property_keeps_the_place_it_names() {
    let named = property_at(&json(r#"{"order": 9}"#), json("1"));
    assert_eq!(at(&named, "order"), &json("9"));
    let placed = property_at(&json(r#"{"type": "x"}"#), json("1"));
    assert_eq!(at(&placed, "order"), &json("1"));
    assert_eq!(property_at(&json("3"), json("1")), json("3"));
}

#[test]
fn a_definition_has_the_title_it_is_given() {
    let made = definition("set", "A title".to_string(), Vec::new(), "can");
    assert_eq!(at(&made, "identifier"), &json("\"set\""));
    assert_eq!(at(at(&made, "jsonSchema"), "title"), &json("\"A title\""));
    assert_eq!(at(&made, "tags"), &json(r#"["tedge-dot", "can"]"#));
}

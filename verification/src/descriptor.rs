//! Device parameters: which points a configuration exposes as settings that an operator can
//! edit, and how they are declared in Cumulocity's Digital Twin Manager (DTM).
//!
//! A parameter is a point whose `access` permits writes, and any point that opts in through
//! `meta.parameter` (`meta.parameter = false` opts a writable point out). Parameters are grouped
//! into sets (`meta.parameter.set`, by default `<protocol>_parameters`): one set is one fragment
//! on the device and one DTM property definition. The keys of a set are the point ids, so those
//! must be plain identifiers.

use crate::config::{ConnectorConfig, DeviceConfig, PointConfig};
use crate::json;
use crate::json::{copy_members, float_number, integer_number, push_member, Json, JsonView};
use crate::model;
use crate::model::{Access, DataType};
use crate::text;
use crate::text::{copy_opt, joined, same_text, split_text};
use vstd::prelude::*;
use vstd::string::*;

verus! {

/// True for an ASCII letter or digit.
pub open spec fn is_alphanumeric(c: char) -> bool {
    '0' <= c <= '9' || 'A' <= c <= 'Z' || 'a' <= c <= 'z'
}

/// True for an ASCII letter or digit.
fn alphanumeric(c: char) -> (r: bool)
    ensures
        r == is_alphanumeric(c),
{
    ('0' <= c && c <= '9') || ('A' <= c && c <= 'Z') || ('a' <= c && c <= 'z')
}

/// A text with every character but ASCII letters and digits replaced by an underscore.
pub open spec fn underscored(s: Seq<char>) -> Seq<char> {
    s.map_values(
        |c: char|
            if is_alphanumeric(c) {
                c
            } else {
                '_'
            },
    )
}

/// The set of the parameters of a protocol that name none.
pub open spec fn set_by_default(protocol: Seq<char>) -> Seq<char> {
    underscored(protocol) + "_parameters"@
}

/// The set of the parameters of a protocol that name none: `<protocol>_parameters`.
pub fn default_set(protocol: &str) -> (r: String)
    ensures
        r@ == set_by_default(protocol@),
{
    let ghost all = protocol@;
    let mut out = String::new();
    for c in it: protocol.chars()
        invariant
            it.seq() == all,
            out@ == underscored(all).take(it.index() as int),
    {
        let ghost i = it.index() as int;
        if alphanumeric(c) {
            out.push(c);
        } else {
            out.push('_');
        }
        assert(out@ =~= underscored(all).take(i + 1));
    }
    assert(out@ =~= underscored(all));
    out.append("_parameters");
    out
}

/// True for a character of a fragment key.
pub open spec fn is_key_char(c: char) -> bool {
    is_alphanumeric(c) || c == '_'
}

/// True when `id` can be used as a fragment key as it is.
pub open spec fn valid_key(id: Seq<char>) -> bool {
    id.len() > 0 && forall|i: int| 0 <= i < id.len() ==> is_key_char(#[trigger] id[i])
}

/// True when `id` can be used as a fragment key as it is (Cumulocity rejects `.` and `$`).
pub fn is_valid_key(id: &str) -> (r: bool)
    ensures
        r == valid_key(id@),
{
    let ghost all = id@;
    let mut empty = true;
    for c in it: id.chars()
        invariant
            all == id@,
            it.seq() == all,
            empty == (it.index() == 0),
            forall|i: int| 0 <= i < it.index() ==> is_key_char(#[trigger] all[i]),
    {
        empty = false;
        if !(alphanumeric(c) || c == '_') {
            assert(!is_key_char(all[it.index() as int]));
            return false;
        }
    }
    !empty
}

/// The set of a protocol's parameters is a fragment key, whatever the protocol is called.
pub proof fn default_set_is_a_valid_key(protocol: Seq<char>)
    ensures
        valid_key(set_by_default(protocol)),
{
    reveal_strlit("_parameters");
    let set = set_by_default(protocol);
    assert forall|i: int| 0 <= i < set.len() implies is_key_char(#[trigger] set[i]) by {
        if i < protocol.len() {
            assert(set[i] == underscored(protocol)[i]);
        } else {
            assert(set[i] == "_parameters"@[i - protocol.len()]);
        }
    }
}

/// One parameter, made of a configured point.
#[derive(Clone, Debug, PartialEq)]
pub struct Parameter {
    /// The point's id, which is the key in the set.
    pub point: String,
    /// The parameter set.
    pub set: String,
    pub datatype: Option<DataType>,
    pub access: Access,
    pub unit: Option<String>,
    /// The members of `meta.parameter`.
    pub options: Vec<(String, Json)>,
}

/// What a [`Parameter`] holds.
#[verifier::ext_equal]
pub struct ParameterView {
    pub point: Seq<char>,
    pub set: Seq<char>,
    pub datatype: Option<DataType>,
    pub access: Access,
    pub unit: Option<Seq<char>>,
    pub options: Seq<(Seq<char>, JsonView)>,
}

impl View for Parameter {
    type V = ParameterView;

    open spec fn view(&self) -> ParameterView {
        ParameterView {
            point: self.point@,
            set: self.set@,
            datatype: self.datatype,
            access: self.access,
            unit: text::opt_text(self.unit),
            options: json::members_view(self.options@),
        }
    }
}

/// What `meta.parameter` says of a point.
pub enum Marking {
    /// Nothing.
    Unmarked,
    /// That the point is no parameter.
    OptedOut,
    /// That it is one, with these options.
    Marked(Seq<(Seq<char>, JsonView)>),
}

/// What a point's `meta` says of it being a parameter.
pub open spec fn marking_of(meta: Option<JsonView>) -> Marking {
    match meta {
        None => Marking::Unmarked,
        Some(m) => match m.get("parameter"@) {
            None => Marking::Unmarked,
            Some(JsonView::Bool(false)) => Marking::OptedOut,
            Some(JsonView::Text(set)) => Marking::Marked(seq![("set"@, JsonView::Text(set))]),
            Some(JsonView::Object(members)) => Marking::Marked(members),
            Some(_) => Marking::Marked(Seq::empty()),
        },
    }
}

/// The set that options name, else the default.
pub open spec fn chosen_set(
    options: Seq<(Seq<char>, JsonView)>,
    default_set: Seq<char>,
) -> Seq<char> {
    match JsonView::Object(options).get_text("set"@) {
        Some(set) => set,
        None => default_set,
    }
}

/// The parameter that a point is, if it is one: by its access, or by its marking.
pub open spec fn parameter_from(point: PointConfig, default_set: Seq<char>) -> Option<
    ParameterView,
> {
    let access = model::access_of(text::opt_text(point.access));
    let options = match marking_of(json::opt_json(point.meta)) {
        Marking::OptedOut => None,
        Marking::Marked(members) => Some(members),
        Marking::Unmarked => if model::writable(access) {
            Some(Seq::empty())
        } else {
            None
        },
    };
    match options {
        None => None,
        Some(members) => Some(
            ParameterView {
                point: point.id@,
                set: chosen_set(members, default_set),
                datatype: point.datatype,
                access,
                unit: text::opt_text(point.unit),
                options: members,
            },
        ),
    }
}

/// What an optional parameter holds.
pub open spec fn opt_parameter(p: Option<Parameter>) -> Option<ParameterView> {
    match p {
        Some(v) => Some(v@),
        None => None,
    }
}

/// The parameter that a point is, if it is one. `default_set` names the set of a point that does
/// not pick its own.
pub fn parameter_of(point: &PointConfig, default_set: &str) -> (r: Option<Parameter>)
    ensures
        opt_parameter(r) == parameter_from(*point, default_set@),
{
    let access = point.resolved_access();
    let mark = match &point.meta {
        Some(m) => m.get("parameter"),
        None => None,
    };
    let options: Vec<(String, Json)> = match mark {
        None => {
            if !access.can_write() {
                return None;
            }
            Vec::new()
        },
        Some(Json::Bool(wanted)) => {
            if !*wanted {
                return None;
            }
            Vec::new()
        },
        Some(Json::Text(set)) => {
            let mut m: Vec<(String, Json)> = Vec::new();
            push_member(&mut m, "set", Json::Text(set.clone()));
            assert(json::members_view(m@) =~= seq![("set"@, JsonView::Text(set@))]);
            m
        },
        Some(Json::Object(members)) => copy_members(members),
        Some(_) => Vec::new(),
    };
    let ghost members = json::members_view(options@);
    assert(options@.len() == 0 ==> members =~= Seq::empty());
    let options = Json::Object(options);
    let set = match options.get_text("set") {
        Some(s) => String::from_str(s),
        None => String::from_str(default_set),
    };
    let options = match options {
        Json::Object(m) => m,
        _ => Vec::new(),
    };
    Some(
        Parameter {
            point: point.id.clone(),
            set,
            datatype: point.datatype,
            access,
            unit: copy_opt(&point.unit),
            options,
        },
    )
}

/// What parameters hold, one by one.
pub open spec fn parameter_views(v: Seq<Parameter>) -> Seq<ParameterView> {
    v.map_values(|p: Parameter| p@)
}

/// The parameters among points, in their order.
pub open spec fn point_parameters(
    points: Seq<PointConfig>,
    default_set: Seq<char>,
) -> Seq<ParameterView>
    decreases points.len(),
{
    if points.len() == 0 {
        Seq::empty()
    } else {
        let before = point_parameters(points.drop_last(), default_set);
        match parameter_from(points.last(), default_set) {
            Some(p) => before.push(p),
            None => before,
        }
    }
}

/// The parameters of devices, in the order of the configuration.
pub open spec fn device_parameters(
    devices: Seq<DeviceConfig>,
    default_set: Seq<char>,
) -> Seq<ParameterView>
    decreases devices.len(),
{
    if devices.len() == 0 {
        Seq::empty()
    } else {
        device_parameters(devices.drop_last(), default_set) + point_parameters(
            devices.last().points@,
            default_set,
        )
    }
}

/// Every parameter of every device, in the order of the configuration.
pub fn parameters(config: &ConnectorConfig, default_set: &str) -> (r: Vec<Parameter>)
    ensures
        parameter_views(r@) == device_parameters(config.devices@, default_set@),
{
    let ghost devices = config.devices@;
    let mut out: Vec<Parameter> = Vec::new();
    assert(parameter_views(out@) =~= Seq::empty());
    let mut d: usize = 0;
    while d < config.devices.len()
        invariant
            0 <= d <= config.devices.len(),
            devices == config.devices@,
            parameter_views(out@) == device_parameters(devices.take(d as int), default_set@),
        decreases config.devices.len() - d,
    {
        let points = &config.devices[d].points;
        let ghost before = parameter_views(out@);
        let mut i: usize = 0;
        assert(before + point_parameters(points@.take(0), default_set@) =~= before);
        while i < points.len()
            invariant
                0 <= i <= points.len(),
                parameter_views(out@) == before + point_parameters(
                    points@.take(i as int),
                    default_set@,
                ),
            decreases points.len() - i,
        {
            assert(points@.take(i + 1).drop_last() =~= points@.take(i as int));
            let ghost sofar = parameter_views(out@);
            let ghost inner = point_parameters(points@.take(i as int), default_set@);
            if let Some(p) = parameter_of(&points[i], default_set) {
                let ghost v = p@;
                out.push(p);
                assert(parameter_views(out@) =~= sofar.push(v));
                assert((before + inner).push(v) =~= before + inner.push(v));
            }
            i += 1;
        }
        assert(points@.take(i as int) =~= points@);
        assert(devices.take(d + 1).drop_last() =~= devices.take(d as int));
        assert(devices.take(d + 1).last() == devices[d as int]);
        d += 1;
    }
    assert(devices.take(d as int) =~= devices);
    out
}

/// What cannot be used as a fragment key in one parameter.
pub open spec fn bad_keys(p: ParameterView) -> Seq<Seq<char>> {
    let point = "point id '"@ + p.point + "'"@;
    let set = "parameter set '"@ + p.set + "'"@;
    if valid_key(p.point) {
        if valid_key(p.set) {
            Seq::empty()
        } else {
            seq![set]
        }
    } else {
        if valid_key(p.set) {
            seq![point]
        } else {
            seq![point, set]
        }
    }
}

/// What cannot be used as a fragment key in a list of parameters.
pub open spec fn all_bad_keys(params: Seq<ParameterView>) -> Seq<Seq<char>>
    decreases params.len(),
{
    if params.len() == 0 {
        Seq::empty()
    } else {
        all_bad_keys(params.drop_last()) + bad_keys(params.last())
    }
}

/// The point ids and set names that cannot be used as fragment keys.
pub fn invalid_keys(config: &ConnectorConfig, default_set: &str) -> (r: Vec<String>)
    ensures
        text::texts(r@) == all_bad_keys(device_parameters(config.devices@, default_set@)),
{
    let params = parameters(config, default_set);
    let ghost all = parameter_views(params@);
    let mut out: Vec<String> = Vec::new();
    assert(text::texts(out@) =~= Seq::empty());
    let mut i: usize = 0;
    while i < params.len()
        invariant
            0 <= i <= params.len(),
            all == parameter_views(params@),
            text::texts(out@) == all_bad_keys(all.take(i as int)),
        decreases params.len() - i,
    {
        let p = &params[i];
        let ghost before = text::texts(out@);
        assert(all[i as int] == p@);
        assert(all.take(i + 1).drop_last() =~= all.take(i as int));
        if !is_valid_key(p.point.as_str()) {
            out.push(joined("point id '", p.point.as_str(), "'"));
        }
        if !is_valid_key(p.set.as_str()) {
            out.push(joined("parameter set '", p.set.as_str(), "'"));
        }
        assert(text::texts(out@) =~= before + bad_keys(p@));
        i += 1;
    }
    assert(all.take(i as int) =~= all);
    out
}

/// The JSON type of a data type.
pub open spec fn json_type(datatype: Option<DataType>) -> Seq<char> {
    match datatype {
        Some(DataType::Bool) => "boolean"@,
        Some(DataType::Float32) | Some(DataType::Float64) => "number"@,
        Some(DataType::String) | Some(DataType::Bytes) | None => "string"@,
        _ => "integer"@,
    }
}

/// The least and the greatest value of a data type, where both can be told apart in a float.
pub open spec fn range_of(datatype: Option<DataType>) -> Option<(int, int)> {
    match datatype {
        Some(DataType::Int8) => Some((i8::MIN as int, i8::MAX as int)),
        Some(DataType::Uint8) => Some((0, u8::MAX as int)),
        Some(DataType::Int16) => Some((i16::MIN as int, i16::MAX as int)),
        Some(DataType::Uint16) => Some((0, u16::MAX as int)),
        Some(DataType::Int32) => Some((i32::MIN as int, i32::MAX as int)),
        Some(DataType::Uint32) => Some((0, u32::MAX as int)),
        _ => None,
    }
}

/// The bound that the options name under `key`, else that of the data type, as a float.
pub open spec fn bound_of(
    options: Seq<(Seq<char>, JsonView)>,
    key: Seq<char>,
    limit: Option<int>,
) -> Option<JsonView> {
    match json::lookup(options, key) {
        Some(JsonView::Number(n)) => Some(JsonView::Number(json::number_float(n))),
        _ => match limit {
            Some(i) => Some(JsonView::Number(json::number_float(json::number_of(i)))),
            None => None,
        },
    }
}

/// Two texts with a space between, where the first holds anything.
pub open spec fn spaced(a: Seq<char>, b: Seq<char>) -> Seq<char> {
    if a.len() == 0 {
        b
    } else {
        a + " "@ + b
    }
}

/// The description of a parameter: its own, its unit, and a remark where it can only be written.
pub open spec fn description_of(p: ParameterView) -> Seq<char> {
    let own = match JsonView::Object(p.options).get_text("description"@) {
        Some(d) => d,
        None => Seq::empty(),
    };
    let with_unit = match p.unit {
        Some(unit) => spaced(own, "["@ + unit + "]"@),
        None => own,
    };
    if p.access == Access::Write {
        spaced(with_unit, "(write-only: shows the last value written)"@)
    } else {
        with_unit
    }
}

/// The title of a parameter: its own, else the point's id.
pub open spec fn title_of(p: ParameterView) -> Seq<char> {
    match JsonView::Object(p.options).get_text("title"@) {
        Some(t) => t,
        None => p.point,
    }
}

/// A member where there is a value.
pub open spec fn optional_member(key: Seq<char>, value: Option<JsonView>) -> Seq<
    (Seq<char>, JsonView),
> {
    match value {
        Some(v) => seq![(key, v)],
        None => Seq::empty(),
    }
}

/// The least value of a data type.
pub open spec fn least_of(datatype: Option<DataType>) -> Option<int> {
    match range_of(datatype) {
        Some(r) => Some(r.0),
        None => None,
    }
}

/// The greatest value of a data type.
pub open spec fn greatest_of(datatype: Option<DataType>) -> Option<int> {
    match range_of(datatype) {
        Some(r) => Some(r.1),
        None => None,
    }
}

/// The members of the JSON-schema property of a parameter with these bounds.
pub open spec fn members_within(
    p: ParameterView,
    least: Option<JsonView>,
    greatest: Option<JsonView>,
) -> Seq<(Seq<char>, JsonView)> {
    let description = description_of(p);
    seq![("type"@, JsonView::Text(json_type(p.datatype))), ("title"@, JsonView::Text(title_of(p)))]
        + optional_member(
        "description"@,
        if description.len() > 0 {
            Some(JsonView::Text(description))
        } else {
            None
        },
    ) + optional_member("minimum"@, least) + optional_member("maximum"@, greatest)
        + optional_member("enum"@, json::lookup(p.options, "enum"@)) + optional_member(
        "default"@,
        json::lookup(p.options, "default"@),
    ) + optional_member("order"@, json::lookup(p.options, "order"@)) + optional_member(
        "readOnly"@,
        if model::writable(p.access) {
            None
        } else {
            Some(JsonView::Bool(true))
        },
    )
}

/// The members of the JSON-schema property of a parameter.
pub open spec fn schema_members(p: ParameterView) -> Seq<(Seq<char>, JsonView)> {
    members_within(
        p,
        bound_of(p.options, "min"@, least_of(p.datatype)),
        bound_of(p.options, "max"@, greatest_of(p.datatype)),
    )
}

/// Appends a member where there is a value.
fn push_optional(members: &mut Vec<(String, Json)>, key: &str, value: Option<Json>)
    ensures
        json::members_view(final(members)@) == json::members_view(old(members)@)
            + optional_member(key@, json::opt_json(value)),
{
    match value {
        Some(v) => {
            push_member(members, key, v);
        },
        None => {
            assert(json::members_view(members@) + Seq::empty() =~= json::members_view(members@));
        },
    }
}

/// The JSON type of a data type.
fn schema_type(datatype: Option<DataType>) -> (r: &'static str)
    ensures
        r@ == json_type(datatype),
{
    match datatype {
        Some(DataType::Bool) => "boolean",
        Some(DataType::Float32) | Some(DataType::Float64) => "number",
        Some(DataType::String) | Some(DataType::Bytes) | None => "string",
        _ => "integer",
    }
}

/// The least and the greatest value of a data type, where both can be told apart in a float.
fn limits_of(datatype: Option<DataType>) -> (r: (Option<i64>, Option<i64>))
    ensures
        opt_int(r.0) == least_of(datatype),
        opt_int(r.1) == greatest_of(datatype),
{
    match datatype {
        Some(DataType::Int8) => (Some(-128), Some(127)),
        Some(DataType::Uint8) => (Some(0), Some(255)),
        Some(DataType::Int16) => (Some(-32_768), Some(32_767)),
        Some(DataType::Uint16) => (Some(0), Some(65_535)),
        Some(DataType::Int32) => (Some(-2_147_483_648), Some(2_147_483_647)),
        Some(DataType::Uint32) => (Some(0), Some(4_294_967_295)),
        _ => (None, None),
    }
}

/// An optional integer.
pub open spec fn opt_int(i: Option<i64>) -> Option<int> {
    match i {
        Some(n) => Some(n as int),
        None => None,
    }
}

/// The bound that the options name under `key`, else that of the data type, as a float.
fn bound(options: &Vec<(String, Json)>, key: &str, limit: Option<i64>) -> (r: Option<Json>)
    ensures
        json::opt_json(r) == bound_of(json::members_view(options@), key@, opt_int(limit)),
{
    match json::member(options, key) {
        Some(Json::Number(n)) => Some(Json::Number(float_number(n))),
        _ => match limit {
            Some(i) => Some(Json::Number(float_number(&integer_number(i as i128)))),
            None => None,
        },
    }
}

/// The text under `key` in the options.
fn option_text(options: &Vec<(String, Json)>, key: &str) -> (r: Option<String>)
    ensures
        text::opt_text(r) == JsonView::Object(json::members_view(options@)).get_text(key@),
{
    match json::member(options, key) {
        Some(v) => match v.as_text() {
            Some(s) => Some(String::from_str(s)),
            None => None,
        },
        None => None,
    }
}

/// A copy of the value under `key` in the options.
fn option_value(options: &Vec<(String, Json)>, key: &str) -> (r: Option<Json>)
    ensures
        json::opt_json(r) == json::lookup(json::members_view(options@), key@),
{
    match json::member(options, key) {
        Some(v) => Some(v.clone()),
        None => None,
    }
}

/// Adds a text to another, with a space between where the first holds anything.
fn add_spaced(s: &mut String, more: &str)
    ensures
        final(s)@ == spaced(old(s)@, more@),
{
    let ghost before = s@;
    if s.as_str().unicode_len() > 0 {
        s.append(" ");
    }
    s.append(more);
    assert(before.len() == 0 ==> s@ =~= more@);
}

/// The description of a parameter.
fn description(param: &Parameter) -> (r: String)
    ensures
        r@ == description_of(param@),
{
    let mut out = match option_text(&param.options, "description") {
        Some(d) => d,
        None => String::new(),
    };
    assert(JsonView::Object(param@.options).get_text("description"@) is None ==> out@
        =~= Seq::empty());
    if let Some(unit) = &param.unit {
        add_spaced(&mut out, joined("[", unit.as_str(), "]").as_str());
    }
    if param.access == Access::Write {
        add_spaced(&mut out, "(write-only: shows the last value written)");
    }
    out
}

/// The JSON-schema property of a parameter with these bounds.
pub fn property_within(param: &Parameter, least: Option<Json>, greatest: Option<Json>) -> (r: Json)
    ensures
        r@ == JsonView::Object(
            members_within(param@, json::opt_json(least), json::opt_json(greatest)),
        ),
{
    let mut schema: Vec<(String, Json)> = Vec::new();
    push_member(&mut schema, "type", Json::text(schema_type(param.datatype)));
    let title = match option_text(&param.options, "title") {
        Some(t) => t,
        None => param.point.clone(),
    };
    push_member(&mut schema, "title", Json::Text(title));
    assert(json::members_view(schema@) =~= seq![
        ("type"@, JsonView::Text(json_type(param.datatype))),
        ("title"@, JsonView::Text(title_of(param@))),
    ]);
    let description = description(param);
    if description.as_str().unicode_len() > 0 {
        push_optional(&mut schema, "description", Some(Json::Text(description)));
    } else {
        push_optional(&mut schema, "description", None);
    }
    push_optional(&mut schema, "minimum", least);
    push_optional(&mut schema, "maximum", greatest);
    push_optional(&mut schema, "enum", option_value(&param.options, "enum"));
    push_optional(&mut schema, "default", option_value(&param.options, "default"));
    push_optional(&mut schema, "order", option_value(&param.options, "order"));
    if param.access.can_write() {
        push_optional(&mut schema, "readOnly", None);
    } else {
        push_optional(&mut schema, "readOnly", Some(Json::Bool(true)));
    }
    Json::Object(schema)
}

/// The JSON-schema property of a parameter: type and limits from the data type, all else from
/// the options.
pub fn property_schema(param: &Parameter) -> (r: Json)
    ensures
        r@ == JsonView::Object(schema_members(param@)),
{
    let (least, greatest) = limits_of(param.datatype);
    property_within(
        param,
        bound(&param.options, "min", least),
        bound(&param.options, "max", greatest),
    )
}

/// The uppercase of a character, as `char::to_uppercase` gives it: one character or more.
pub uninterp spec fn uppercase(c: char) -> Seq<char>;

/// `char::to_uppercase` of std, its characters joined to a text. Of an ASCII character it gives
/// that one character, a letter in uppercase.
#[verifier::external_body]
fn upper(c: char) -> (r: String)
    ensures
        r@ == uppercase(c),
        text::is_ascii_char(c) ==> r@ == seq![text::ascii_upper(c)],
{
    c.to_uppercase().to_string()
}

/// The pieces that hold anything.
pub open spec fn nonempty(pieces: Seq<Seq<char>>) -> Seq<Seq<char>>
    decreases pieces.len(),
{
    if pieces.len() == 0 {
        Seq::empty()
    } else if pieces.last().len() > 0 {
        nonempty(pieces.drop_last()).push(pieces.last())
    } else {
        nonempty(pieces.drop_last())
    }
}

/// Words joined by spaces.
pub open spec fn spaced_words(words: Seq<Seq<char>>) -> Seq<char>
    decreases words.len(),
{
    if words.len() == 0 {
        Seq::empty()
    } else if words.len() == 1 {
        words[0]
    } else {
        spaced_words(words.drop_last()) + " "@ + words.last()
    }
}

/// The words of a key, which are joined by underscores.
pub open spec fn key_words(key: Seq<char>) -> Seq<Seq<char>> {
    nonempty(text::split_seq(key, '_'))
}

/// Words joined by spaces, the first one beginning with `initial` in place of its first
/// character.
pub open spec fn titled(words: Seq<Seq<char>>, initial: Seq<char>) -> Seq<char> {
    if words.len() == 0 {
        Seq::empty()
    } else {
        spaced_words(words.update(0, initial + words[0].skip(1)))
    }
}

/// The title made of a key: its words joined by spaces, the first one with an uppercase initial.
pub open spec fn key_title(key: Seq<char>) -> Seq<char> {
    let words = key_words(key);
    titled(words, uppercase(words[0][0]))
}

/// The title made of an ASCII key, whose initial is uppercased by itself.
pub open spec fn ascii_title(key: Seq<char>) -> Seq<char> {
    let words = key_words(key);
    titled(words, seq![text::ascii_upper(words[0][0])])
}

/// The pieces that hold anything are pieces, and hold something.
proof fn lemma_nonempty(pieces: Seq<Seq<char>>)
    ensures
        forall|i: int|
            0 <= i < nonempty(pieces).len() ==> (#[trigger] nonempty(pieces)[i]).len() > 0
                && pieces.contains(nonempty(pieces)[i]),
    decreases pieces.len(),
{
    if pieces.len() > 0 {
        let less = pieces.drop_last();
        let before = nonempty(less);
        lemma_nonempty(less);
        assert forall|i: int| 0 <= i < nonempty(pieces).len() implies (#[trigger] nonempty(
            pieces,
        )[i]).len() > 0 && pieces.contains(nonempty(pieces)[i]) by {
            if i < before.len() {
                assert(nonempty(pieces)[i] == before[i]);
                let k = choose|k: int| 0 <= k < less.len() && less[k] == before[i];
                assert(pieces[k] == before[i]);
            } else {
                assert(pieces[pieces.len() - 1] == nonempty(pieces)[i]);
            }
        }
    }
}

/// True for an ASCII text without an underscore.
spec fn is_plain(s: Seq<char>) -> bool {
    text::is_ascii_text(s) && text::without(s, '_')
}

/// The words of an ASCII key hold something, and no underscore.
proof fn lemma_ascii_words(key: Seq<char>)
    requires
        text::is_ascii_text(key),
    ensures
        forall|i: int|
            0 <= i < key_words(key).len() ==> is_plain(#[trigger] key_words(key)[i])
                && key_words(key)[i].len() > 0,
{
    let pieces = text::split_seq(key, '_');
    text::lemma_split_pieces(key, '_');
    lemma_nonempty(pieces);
    assert forall|i: int| 0 <= i < key_words(key).len() implies is_plain(
        #[trigger] key_words(key)[i],
    ) && key_words(key)[i].len() > 0 by {
        let word = nonempty(pieces)[i];
        let k = choose|k: int| 0 <= k < pieces.len() && pieces[k] == word;
        assert(text::without(pieces[k], '_'));
    }
}

/// Plain words joined by spaces are plain, and begin as the first word does.
proof fn lemma_plain_words(words: Seq<Seq<char>>)
    requires
        words.len() > 0,
        words[0].len() > 0,
        forall|i: int| 0 <= i < words.len() ==> is_plain(#[trigger] words[i]),
    ensures
        is_plain(spaced_words(words)),
        spaced_words(words).len() > 0,
        spaced_words(words)[0] == words[0][0],
    decreases words.len(),
{
    reveal_strlit(" ");
    if words.len() > 1 {
        let less = words.drop_last();
        assert forall|i: int| 0 <= i < less.len() implies is_plain(#[trigger] less[i]) by {
            assert(less[i] == words[i]);
        }
        lemma_plain_words(less);
        assert(is_plain(words[words.len() - 1]));
    }
}

/// The title of an ASCII key is an ASCII text without underscores, and its own title.
pub proof fn a_title_is_its_own_title(key: Seq<char>)
    requires
        text::is_ascii_text(key),
    ensures
        text::is_ascii_text(ascii_title(key)),
        text::without(ascii_title(key), '_'),
        ascii_title(ascii_title(key)) == ascii_title(key),
{
    let words = key_words(key);
    let title = ascii_title(key);
    lemma_ascii_words(key);
    reveal_with_fuel(nonempty, 2);
    if words.len() > 0 {
        let first = words[0];
        assert(is_plain(first));
        let initial = text::ascii_upper(first[0]);
        let capital = seq![initial] + first.skip(1);
        let capitals = words.update(0, capital);
        assert(text::is_ascii_char(first[0]) && first[0] != '_');
        assert forall|i: int| 0 <= i < capitals.len() implies is_plain(
            #[trigger] capitals[i],
        ) by {
            if i > 0 {
                assert(capitals[i] == words[i]);
            } else {
                assert forall|k: int| 0 <= k < capital.len() implies text::is_ascii_char(
                    #[trigger] capital[k],
                ) && capital[k] != '_' by {
                    if k > 0 {
                        assert(capital[k] == first[k]);
                    }
                }
            }
        }
        lemma_plain_words(capitals);
        text::lemma_split_plain(title, '_');
        assert(seq![title].drop_last() =~= Seq::empty());
        assert(key_words(title) =~= seq![title]);
        assert(seq![title].update(0, seq![initial] + title.skip(1)) =~= seq![
            seq![initial] + title.skip(1),
        ]);
        assert(seq![initial] + title.skip(1) =~= title);
    } else {
        assert(title =~= Seq::empty());
        text::lemma_split_plain(title, '_');
        assert(seq![title].drop_last() =~= Seq::empty());
        assert(key_words(title) =~= Seq::empty());
    }
}

/// The words of a key, which are joined by underscores.
pub fn words_of_key(key: &str) -> (r: Vec<String>)
    ensures
        text::texts(r@) == key_words(key@),
{
    let pieces = split_text(key, '_');
    let ghost all = text::texts(pieces@);
    let mut out: Vec<String> = Vec::new();
    assert(text::texts(out@) =~= Seq::empty());
    let mut i: usize = 0;
    while i < pieces.len()
        invariant
            0 <= i <= pieces.len(),
            all == text::texts(pieces@),
            text::texts(out@) == nonempty(all.take(i as int)),
        decreases pieces.len() - i,
    {
        let ghost before = text::texts(out@);
        assert(all.take(i + 1).drop_last() =~= all.take(i as int));
        assert(all[i as int] == pieces@[i as int]@);
        if pieces[i].as_str().unicode_len() > 0 {
            out.push(pieces[i].clone());
            assert(text::texts(out@) =~= before.push(all[i as int]));
        }
        i += 1;
    }
    assert(all.take(i as int) =~= all);
    out
}

/// Joins words by spaces, the first one beginning with `initial` in place of its first
/// character.
pub fn title_of_words(words: &Vec<String>, initial: &str) -> (r: String)
    requires
        words@.len() > 0 ==> words@[0]@.len() > 0,
    ensures
        r@ == titled(text::texts(words@), initial@),
{
    if words.len() == 0 {
        let out = String::new();
        assert(out@ =~= Seq::empty());
        return out;
    }
    let ghost all = text::texts(words@);
    let first = words[0].as_str();
    let mut out = String::from_str(initial);
    let n: usize = first.unicode_len();
    out.append(first.substring_char(1, n));
    let ghost capital = all.update(0, initial@ + all[0].skip(1));
    assert(all[0] == first@);
    assert(first@.subrange(1, n as int) =~= first@.skip(1));
    assert(capital.take(1)[0] == out@);
    let mut i: usize = 1;
    while i < words.len()
        invariant
            1 <= i <= words.len(),
            all == text::texts(words@),
            capital == all.update(0, initial@ + all[0].skip(1)),
            out@ == spaced_words(capital.take(i as int)),
        decreases words.len() - i,
    {
        assert(capital.take(i + 1).drop_last() =~= capital.take(i as int));
        assert(capital[i as int] == words@[i as int]@);
        out.append(" ");
        out.append(words[i].as_str());
        i += 1;
    }
    assert(capital.take(i as int) =~= capital);
    out
}

/// The title made of a key: its words joined by spaces, the first one with an uppercase initial.
pub fn title_from_key(key: &str) -> (r: String)
    ensures
        r@ == key_title(key@),
        text::is_ascii_text(key@) ==> r@ == ascii_title(key@),
{
    let words = words_of_key(key);
    proof {
        lemma_nonempty(text::split_seq(key@, '_'));
        if text::is_ascii_text(key@) {
            lemma_ascii_words(key@);
        }
    }
    let ghost all = text::texts(words@);
    assert(all.len() > 0 ==> all[0] == words@[0]@);
    if words.len() == 0 {
        title_of_words(&words, "")
    } else {
        assert(all[0].len() > 0);
        let first = words[0].as_str().get_char(0);
        let initial = upper(first);
        title_of_words(&words, initial.as_str())
    }
}

/// What a list of sets holds: each with its name and its properties.
pub open spec fn sets_view(sets: Seq<(String, Vec<(String, Json)>)>) -> Seq<
    (Seq<char>, Seq<(Seq<char>, JsonView)>),
> {
    sets.map_values(|s: (String, Vec<(String, Json)>)| (s.0@, json::members_view(s.1@)))
}

/// The position of the first set called `name`, or the number of sets.
pub open spec fn set_index(
    sets: Seq<(Seq<char>, Seq<(Seq<char>, JsonView)>)>,
    name: Seq<char>,
) -> int
    decreases sets.len(),
{
    if sets.len() == 0 {
        0
    } else if sets.first().0 == name {
        0
    } else {
        1 + set_index(sets.drop_first(), name)
    }
}

/// The sets after a parameter was added to its own: a new set at the end where there is none,
/// and nothing where the set has the key already.
pub open spec fn with_parameter(
    sets: Seq<(Seq<char>, Seq<(Seq<char>, JsonView)>)>,
    p: ParameterView,
) -> Seq<(Seq<char>, Seq<(Seq<char>, JsonView)>)> {
    let i = set_index(sets, p.set);
    let property = (p.point, JsonView::Object(schema_members(p)));
    if i < sets.len() {
        if json::lookup(sets[i].1, p.point) is Some {
            sets
        } else {
            sets.update(i, (p.set, sets[i].1.push(property)))
        }
    } else {
        sets.push((p.set, seq![property]))
    }
}

/// Parameters by set, in the order in which sets and keys first occur.
pub open spec fn grouped(params: Seq<ParameterView>) -> Seq<
    (Seq<char>, Seq<(Seq<char>, JsonView)>),
>
    decreases params.len(),
{
    if params.len() == 0 {
        Seq::empty()
    } else {
        with_parameter(grouped(params.drop_last()), params.last())
    }
}

/// [`set_index`] is the first position that holds a set of that name.
proof fn lemma_set_index(sets: Seq<(Seq<char>, Seq<(Seq<char>, JsonView)>)>, name: Seq<char>)
    ensures
        0 <= set_index(sets, name) <= sets.len(),
        set_index(sets, name) < sets.len() ==> sets[set_index(sets, name)].0 == name,
        forall|j: int| 0 <= j < set_index(sets, name) ==> (#[trigger] sets[j]).0 != name,
    decreases sets.len(),
{
    if sets.len() > 0 && sets.first().0 != name {
        let rest = sets.drop_first();
        lemma_set_index(rest, name);
        assert forall|j: int| 0 <= j < set_index(sets, name) implies (#[trigger] sets[j]).0
            != name by {
            if j > 0 {
                assert(sets[j] == rest[j - 1]);
            }
        }
    }
}

/// A position that holds a set of that name, with no earlier one, is [`set_index`].
proof fn lemma_set_index_unique(
    sets: Seq<(Seq<char>, Seq<(Seq<char>, JsonView)>)>,
    name: Seq<char>,
    i: int,
)
    requires
        0 <= i <= sets.len(),
        i < sets.len() ==> sets[i].0 == name,
        forall|j: int| 0 <= j < i ==> (#[trigger] sets[j]).0 != name,
    ensures
        set_index(sets, name) == i,
{
    lemma_set_index(sets, name);
    let k = set_index(sets, name);
    if k < i {
        assert(sets[k].0 != name);
    }
    if i < k {
        assert(sets[i].0 != name);
    }
}

/// The position of the first set called `name`, or the number of sets.
fn find_set(sets: &Vec<(String, Vec<(String, Json)>)>, name: &str) -> (i: usize)
    ensures
        i == set_index(sets_view(sets@), name@),
{
    let ghost all = sets_view(sets@);
    let mut i: usize = 0;
    while i < sets.len()
        invariant
            0 <= i <= sets.len(),
            all == sets_view(sets@),
            forall|j: int| 0 <= j < i ==> (#[trigger] all[j]).0 != name@,
        decreases sets.len() - i,
    {
        assert(all[i as int].0 == sets@[i as int].0@);
        if same_text(sets[i].0.as_str(), name) {
            proof {
                lemma_set_index_unique(all, name@, i as int);
            }
            return i;
        }
        i += 1;
    }
    proof {
        lemma_set_index_unique(all, name@, i as int);
    }
    i
}

/// Adds a parameter to its set.
fn add_parameter(sets: &mut Vec<(String, Vec<(String, Json)>)>, param: &Parameter)
    ensures
        sets_view(final(sets)@) == with_parameter(sets_view(old(sets)@), param@),
{
    let ghost before = sets_view(sets@);
    let i = find_set(sets, param.set.as_str());
    proof {
        lemma_set_index(before, param.set@);
    }
    if i < sets.len() {
        assert(before[i as int] == (sets@[i as int].0@, json::members_view(sets@[i as int].1@)));
        if json::member(&sets[i].1, param.point.as_str()).is_none() {
            let schema = property_schema(param);
            let entry = &mut sets[i];
            push_member(&mut entry.1, param.point.as_str(), schema);
            assert(sets_view(sets@) =~= with_parameter(before, param@));
        }
    } else {
        let mut properties: Vec<(String, Json)> = Vec::new();
        push_member(&mut properties, param.point.as_str(), property_schema(param));
        assert(json::members_view(properties@) =~= seq![
            (param.point@, JsonView::Object(schema_members(param@))),
        ]);
        sets.push((param.set.clone(), properties));
        assert(sets_view(sets@) =~= with_parameter(before, param@));
    }
}

/// Groups parameters by set.
fn group(params: &Vec<Parameter>) -> (r: Vec<(String, Vec<(String, Json)>)>)
    ensures
        sets_view(r@) == grouped(parameter_views(params@)),
{
    let ghost all = parameter_views(params@);
    let mut sets: Vec<(String, Vec<(String, Json)>)> = Vec::new();
    assert(sets_view(sets@) =~= Seq::empty());
    let mut i: usize = 0;
    while i < params.len()
        invariant
            0 <= i <= params.len(),
            all == parameter_views(params@),
            sets_view(sets@) == grouped(all.take(i as int)),
        decreases params.len() - i,
    {
        assert(all[i as int] == params@[i as int]@);
        assert(all.take(i + 1).drop_last() =~= all.take(i as int));
        add_parameter(&mut sets, &params[i]);
        i += 1;
    }
    assert(all.take(i as int) =~= all);
    sets
}

/// A property with its place among its set's, where it does not name its own.
pub open spec fn with_order(property: JsonView, place: JsonView) -> JsonView {
    match property {
        JsonView::Object(members) => if json::lookup(members, "order"@) is Some {
            property
        } else {
            JsonView::Object(members.push(("order"@, place)))
        },
        _ => property,
    }
}

/// The place with that number.
pub open spec fn place_of(n: int) -> JsonView {
    JsonView::Number(json::number_of(n))
}

/// The properties of a set, each with its place, counted from one.
pub open spec fn ordered(properties: Seq<(Seq<char>, JsonView)>) -> Seq<(Seq<char>, JsonView)> {
    Seq::new(
        properties.len(),
        |i: int| (properties[i].0, with_order(properties[i].1, place_of(i + 1))),
    )
}

/// The definition of one set, under a title.
pub open spec fn definition_titled(
    set: Seq<char>,
    title: Seq<char>,
    properties: Seq<(Seq<char>, JsonView)>,
    protocol: Seq<char>,
) -> JsonView {
    JsonView::Object(
        seq![
            ("identifier"@, JsonView::Text(set)),
            (
                "jsonSchema"@,
                JsonView::Object(
                    seq![
                        (
                            "$schema"@,
                            JsonView::Text("http://json-schema.org/draft-07/schema#"@),
                        ),
                        ("title"@, JsonView::Text(title)),
                        (
                            "description"@,
                            JsonView::Text(
                                "Writable "@ + protocol
                                    + " points exposed by tedge-dot (generated from the connector configuration)"@,
                            ),
                        ),
                        ("type"@, JsonView::Text("object"@)),
                        ("properties"@, JsonView::Object(properties)),
                    ],
                ),
            ),
            (
                "contexts"@,
                JsonView::Array(seq![JsonView::Text("asset"@), JsonView::Text("operation"@)]),
            ),
            (
                "tags"@,
                JsonView::Array(seq![JsonView::Text("tedge-dot"@), JsonView::Text(protocol)]),
            ),
        ],
    )
}

/// The definition of one set.
pub open spec fn definition_of(
    set: Seq<char>,
    properties: Seq<(Seq<char>, JsonView)>,
    protocol: Seq<char>,
) -> JsonView {
    definition_titled(set, key_title(set), ordered(properties), protocol)
}

/// The definitions of a configuration's parameter sets.
pub open spec fn definitions_of(
    devices: Seq<DeviceConfig>,
    default_set: Seq<char>,
    protocol: Seq<char>,
) -> Seq<JsonView> {
    grouped(device_parameters(devices, default_set)).map_values(
        |s: (Seq<char>, Seq<(Seq<char>, JsonView)>)| definition_of(s.0, s.1, protocol),
    )
}

/// A property with its place among its set's, where it does not name its own.
pub fn property_at(property: &Json, place: Json) -> (r: Json)
    ensures
        r@ == with_order(property@, place@),
{
    match property {
        Json::Object(members) => if json::member(members, "order").is_some() {
            property.clone()
        } else {
            let mut out = copy_members(members);
            push_member(&mut out, "order", place);
            Json::Object(out)
        },
        _ => property.clone(),
    }
}

/// The properties of a set, each with its place, counted from one.
fn ordered_properties(properties: &Vec<(String, Json)>) -> (r: Vec<(String, Json)>)
    ensures
        json::members_view(r@) == ordered(json::members_view(properties@)),
{
    let ghost all = json::members_view(properties@);
    let mut out: Vec<(String, Json)> = Vec::new();
    assert(json::members_view(out@) =~= ordered(all).take(0));
    let mut i: usize = 0;
    while i < properties.len()
        invariant
            0 <= i <= properties.len(),
            all == json::members_view(properties@),
            json::members_view(out@) == ordered(all).take(i as int),
        decreases properties.len() - i,
    {
        let property = &properties[i];
        assert(all[i as int] == (property.0@, property.1@));
        let place: u64 = i as u64 + 1;
        push_member(
            &mut out,
            property.0.as_str(),
            property_at(&property.1, Json::Number(integer_number(place as i128))),
        );
        assert(json::members_view(out@) =~= ordered(all).take(i + 1));
        i += 1;
    }
    assert(ordered(all).take(i as int) =~= ordered(all));
    out
}

/// An array of two texts.
fn two_texts(a: &str, b: &str) -> (r: Json)
    ensures
        r@ == JsonView::Array(seq![JsonView::Text(a@), JsonView::Text(b@)]),
{
    let mut items: Vec<Json> = Vec::new();
    items.push(Json::text(a));
    items.push(Json::text(b));
    assert(json::array_view(items@) =~= seq![JsonView::Text(a@), JsonView::Text(b@)]);
    Json::Array(items)
}

/// The definition of one set, under a title.
pub fn definition(
    set: &str,
    title: String,
    properties: Vec<(String, Json)>,
    protocol: &str,
) -> (r: Json)
    ensures
        r@ == definition_titled(set@, title@, json::members_view(properties@), protocol@),
{
    let ghost whole = definition_titled(
        set@,
        title@,
        json::members_view(properties@),
        protocol@,
    )->Object_0;
    let mut schema: Vec<(String, Json)> = Vec::new();
    push_member(&mut schema, "$schema", Json::text("http://json-schema.org/draft-07/schema#"));
    push_member(&mut schema, "title", Json::Text(title));
    push_member(
        &mut schema,
        "description",
        Json::Text(
            joined(
                "Writable ",
                protocol,
                " points exposed by tedge-dot (generated from the connector configuration)",
            ),
        ),
    );
    push_member(&mut schema, "type", Json::text("object"));
    push_member(&mut schema, "properties", Json::Object(properties));
    let ghost inner = json::members_view(schema@);
    let mut out: Vec<(String, Json)> = Vec::new();
    push_member(&mut out, "identifier", Json::text(set));
    push_member(&mut out, "jsonSchema", Json::Object(schema));
    push_member(&mut out, "contexts", two_texts("asset", "operation"));
    push_member(&mut out, "tags", two_texts("tedge-dot", protocol));
    proof {
        assert(inner =~= whole[1].1->Object_0);
        assert(json::members_view(out@) =~= whole);
    }
    Json::Object(out)
}

/// The property definitions of the Digital Twin Manager, one for each parameter set of the
/// configuration. Each is a request body of `POST /service/dtm/definitions/properties`, which a
/// tenant's admin registers once. A set that occurs on several devices is one set (its name
/// holds for the whole tenant): the first definition of a key wins.
pub fn c8y_dtm_definitions(config: &ConnectorConfig, default_set: Option<&str>) -> (r: Vec<Json>)
    ensures
        json::array_view(r@) == definitions_of(
            config.devices@,
            match default_set {
                Some(set) => set@,
                None => set_by_default(config.connector.protocol@),
            },
            config.connector.protocol@,
        ),
{
    let protocol = config.connector.protocol.as_str();
    let set: String = match default_set {
        Some(set) => String::from_str(set),
        None => self::default_set(protocol),
    };
    let params = parameters(config, set.as_str());
    let sets = group(&params);
    let ghost all = sets_view(sets@);
    let ghost wanted = definitions_of(config.devices@, set@, protocol@);
    let mut out: Vec<Json> = Vec::new();
    assert(json::array_view(out@) =~= wanted.take(0));
    let mut i: usize = 0;
    while i < sets.len()
        invariant
            0 <= i <= sets.len(),
            all == sets_view(sets@),
            all.len() == wanted.len(),
            wanted == all.map_values(
                |s: (Seq<char>, Seq<(Seq<char>, JsonView)>)| definition_of(s.0, s.1, protocol@),
            ),
            json::array_view(out@) == wanted.take(i as int),
        decreases sets.len() - i,
    {
        assert(all[i as int] == (sets@[i as int].0@, json::members_view(sets@[i as int].1@)));
        let set = sets[i].0.as_str();
        let made = definition(
            set,
            title_from_key(set),
            ordered_properties(&sets[i].1),
            protocol,
        );
        let ghost before = json::array_view(out@);
        assert(made@ == wanted[i as int]);
        out.push(made);
        assert(json::array_view(out@) =~= before.push(wanted[i as int]));
        assert(wanted.take(i + 1) =~= before.push(wanted[i as int]));
        i += 1;
    }
    assert(wanted.take(i as int) =~= wanted);
    out
}

/// A point is a parameter when it can be written and does not opt out, or when it opts in.
pub proof fn what_makes_a_parameter(point: PointConfig, default_set: Seq<char>)
    ensures
        parameter_from(point, default_set) is Some <==> match marking_of(
            json::opt_json(point.meta),
        ) {
            Marking::Marked(_) => true,
            Marking::Unmarked => model::writable(model::access_of(text::opt_text(point.access))),
            Marking::OptedOut => false,
        },
{
}

/// The place of a name among the names of a property's members.
spec fn name_rank(name: Seq<char>) -> int {
    if name == "type"@ {
        0
    } else if name == "title"@ {
        1
    } else if name == "description"@ {
        2
    } else if name == "minimum"@ {
        3
    } else if name == "maximum"@ {
        4
    } else if name == "enum"@ {
        5
    } else if name == "default"@ {
        6
    } else if name == "order"@ {
        7
    } else {
        8
    }
}

/// True when the members come in the order of their names' ranks, all below `rank`.
spec fn ranked_below(members: Seq<(Seq<char>, JsonView)>, rank: int) -> bool {
    &&& forall|i: int|
        0 <= i < members.len() ==> 0 <= name_rank((#[trigger] members[i]).0) < rank
    &&& forall|i: int, j: int|
        0 <= i < j < members.len() ==> name_rank((#[trigger] members[i]).0) < name_rank(
            (#[trigger] members[j]).0,
        )
}

proof fn lemma_ranked(
    members: Seq<(Seq<char>, JsonView)>,
    key: Seq<char>,
    value: Option<JsonView>,
    rank: int,
)
    requires
        rank >= 0,
        ranked_below(members, rank),
        name_rank(key) == rank,
    ensures
        ranked_below(members + optional_member(key, value), rank + 1),
{
}

proof fn lemma_name_ranks()
    ensures
        name_rank("type"@) == 0,
        name_rank("title"@) == 1,
        name_rank("description"@) == 2,
        name_rank("minimum"@) == 3,
        name_rank("maximum"@) == 4,
        name_rank("enum"@) == 5,
        name_rank("default"@) == 6,
        name_rank("order"@) == 7,
        name_rank("readOnly"@) == 8,
{
    reveal_strlit("type");
    reveal_strlit("title");
    reveal_strlit("description");
    reveal_strlit("minimum");
    reveal_strlit("maximum");
    reveal_strlit("enum");
    reveal_strlit("default");
    reveal_strlit("order");
    reveal_strlit("readOnly");
    assert("type"@.len() == 4 && "title"@.len() == 5 && "description"@.len() == 11);
    assert("minimum"@.len() == 7 && "maximum"@.len() == 7 && "enum"@.len() == 4);
    assert("default"@.len() == 7 && "order"@.len() == 5 && "readOnly"@.len() == 8);
    assert("type"@[0] == 't' && "enum"@[0] == 'e');
    assert("title"@[0] == 't' && "order"@[0] == 'o');
    assert("minimum"@[1] == 'i' && "maximum"@[1] == 'a' && "default"@[0] == 'd');
    assert("minimum"@[0] == 'm' && "maximum"@[0] == 'm');
}

/// A property names each of its members once.
pub proof fn a_property_names_each_member_once(p: ParameterView)
    ensures
        json::distinct_keys(schema_members(p)),
{
    lemma_name_ranks();
    let description = description_of(p);
    let m0 = seq![
        ("type"@, JsonView::Text(json_type(p.datatype))),
        ("title"@, JsonView::Text(title_of(p))),
    ];
    let told = if description.len() > 0 {
        Some(JsonView::Text(description))
    } else {
        None
    };
    let least = bound_of(p.options, "min"@, least_of(p.datatype));
    let greatest = bound_of(p.options, "max"@, greatest_of(p.datatype));
    let m1 = m0 + optional_member("description"@, told);
    let m2 = m1 + optional_member("minimum"@, least);
    let m3 = m2 + optional_member("maximum"@, greatest);
    let m4 = m3 + optional_member("enum"@, json::lookup(p.options, "enum"@));
    let m5 = m4 + optional_member("default"@, json::lookup(p.options, "default"@));
    let m6 = m5 + optional_member("order"@, json::lookup(p.options, "order"@));
    lemma_ranked(m0, "description"@, told, 2);
    lemma_ranked(m1, "minimum"@, least, 3);
    lemma_ranked(m2, "maximum"@, greatest, 4);
    lemma_ranked(m3, "enum"@, json::lookup(p.options, "enum"@), 5);
    lemma_ranked(m4, "default"@, json::lookup(p.options, "default"@), 6);
    lemma_ranked(m5, "order"@, json::lookup(p.options, "order"@), 7);
    let fixed = if model::writable(p.access) {
        None
    } else {
        Some(JsonView::Bool(true))
    };
    lemma_ranked(m6, "readOnly"@, fixed, 8);
    let all = m6 + optional_member("readOnly"@, fixed);
    assert(all == schema_members(p));
    assert forall|i: int, j: int| 0 <= i < j < all.len() implies (#[trigger] all[i]).0 != (
    #[trigger] all[j]).0 by {
        assert(name_rank(all[i].0) < name_rank(all[j].0));
    }
}

/// What a member found by its name is, after one more that may be there was appended.
proof fn lemma_lookup_optional(
    members: Seq<(Seq<char>, JsonView)>,
    name: Seq<char>,
    value: Option<JsonView>,
    key: Seq<char>,
)
    requires
        json::lookup(members, name) is None,
    ensures
        json::lookup(members + optional_member(name, value), key) == if key == name {
            value
        } else {
            json::lookup(members, key)
        },
{
    match value {
        Some(v) => {
            assert(members + optional_member(name, value) =~= members.push((name, v)));
            lemma_lookup_pushed(members, (name, v), key);
        },
        None => {
            assert(members + optional_member(name, value) =~= members);
        },
    }
}

/// What the property of a parameter says under each name.
pub open spec fn schema_value(p: ParameterView, key: Seq<char>) -> Option<JsonView> {
    if key == "type"@ {
        Some(JsonView::Text(json_type(p.datatype)))
    } else if key == "title"@ {
        Some(JsonView::Text(title_of(p)))
    } else if key == "description"@ {
        if description_of(p).len() > 0 {
            Some(JsonView::Text(description_of(p)))
        } else {
            None
        }
    } else if key == "minimum"@ {
        bound_of(p.options, "min"@, least_of(p.datatype))
    } else if key == "maximum"@ {
        bound_of(p.options, "max"@, greatest_of(p.datatype))
    } else if key == "enum"@ || key == "default"@ || key == "order"@ {
        json::lookup(p.options, key)
    } else if key == "readOnly"@ && !model::writable(p.access) {
        Some(JsonView::Bool(true))
    } else {
        None
    }
}

/// A property says just this: its type and title, its description and bounds where it has them,
/// what its options add, and that it is read-only where it cannot be written.
pub proof fn what_a_property_says(p: ParameterView, key: Seq<char>)
    ensures
        json::lookup(schema_members(p), key) == schema_value(p, key),
{
    lemma_name_ranks();
    let m0 = seq![
        ("type"@, JsonView::Text(json_type(p.datatype))),
        ("title"@, JsonView::Text(title_of(p))),
    ];
    assert forall|k: Seq<char>| #[trigger] json::lookup(m0, k) == if k == "type"@ {
        Some(JsonView::Text(json_type(p.datatype)))
    } else if k == "title"@ {
        Some(JsonView::Text(title_of(p)))
    } else {
        None
    } by {
        if k == "type"@ {
            json::lemma_key_index_unique(m0, k, 0);
        } else if k == "title"@ {
            json::lemma_key_index_unique(m0, k, 1);
        } else {
            json::lemma_key_index_unique(m0, k, 2);
        }
    }
    let description = if description_of(p).len() > 0 {
        Some(JsonView::Text(description_of(p)))
    } else {
        None
    };
    let least = bound_of(p.options, "min"@, least_of(p.datatype));
    let greatest = bound_of(p.options, "max"@, greatest_of(p.datatype));
    let choices = json::lookup(p.options, "enum"@);
    let default = json::lookup(p.options, "default"@);
    let order = json::lookup(p.options, "order"@);
    let fixed = if model::writable(p.access) {
        None
    } else {
        Some(JsonView::Bool(true))
    };
    let m1 = m0 + optional_member("description"@, description);
    let m2 = m1 + optional_member("minimum"@, least);
    let m3 = m2 + optional_member("maximum"@, greatest);
    let m4 = m3 + optional_member("enum"@, choices);
    let m5 = m4 + optional_member("default"@, default);
    let m6 = m5 + optional_member("order"@, order);
    let m7 = m6 + optional_member("readOnly"@, fixed);
    assert(m7 == schema_members(p));
    assert forall|k: Seq<char>| #[trigger] json::lookup(m1, k) == if k == "description"@ {
        description
    } else {
        json::lookup(m0, k)
    } by {
        lemma_lookup_optional(m0, "description"@, description, k);
    }
    assert forall|k: Seq<char>| #[trigger] json::lookup(m2, k) == if k == "minimum"@ {
        least
    } else {
        json::lookup(m1, k)
    } by {
        lemma_lookup_optional(m1, "minimum"@, least, k);
    }
    assert forall|k: Seq<char>| #[trigger] json::lookup(m3, k) == if k == "maximum"@ {
        greatest
    } else {
        json::lookup(m2, k)
    } by {
        lemma_lookup_optional(m2, "maximum"@, greatest, k);
    }
    assert forall|k: Seq<char>| #[trigger] json::lookup(m4, k) == if k == "enum"@ {
        choices
    } else {
        json::lookup(m3, k)
    } by {
        lemma_lookup_optional(m3, "enum"@, choices, k);
    }
    assert forall|k: Seq<char>| #[trigger] json::lookup(m5, k) == if k == "default"@ {
        default
    } else {
        json::lookup(m4, k)
    } by {
        lemma_lookup_optional(m4, "default"@, default, k);
    }
    assert forall|k: Seq<char>| #[trigger] json::lookup(m6, k) == if k == "order"@ {
        order
    } else {
        json::lookup(m5, k)
    } by {
        lemma_lookup_optional(m5, "order"@, order, k);
    }
    lemma_lookup_optional(m6, "readOnly"@, fixed, key);
}

/// There is nothing to complain of exactly when every parameter's id and set can be used as
/// fragment keys.
pub proof fn no_complaint_means_valid_keys(params: Seq<ParameterView>)
    ensures
        all_bad_keys(params).len() == 0 <==> forall|i: int|
            0 <= i < params.len() ==> valid_key((#[trigger] params[i]).point) && valid_key(
                params[i].set,
            ),
    decreases params.len(),
{
    if params.len() > 0 {
        let less = params.drop_last();
        let n = params.len() - 1;
        no_complaint_means_valid_keys(less);
        if all_bad_keys(params).len() == 0 {
            assert forall|i: int| 0 <= i < params.len() implies valid_key(
                (#[trigger] params[i]).point,
            ) && valid_key(params[i].set) by {
                if i < n {
                    assert(less[i] == params[i]);
                }
            }
        }
        if forall|i: int|
            0 <= i < params.len() ==> valid_key((#[trigger] params[i]).point) && valid_key(
                params[i].set,
            ) {
            assert forall|i: int| 0 <= i < less.len() implies valid_key(
                (#[trigger] less[i]).point,
            ) && valid_key(less[i].set) by {
                assert(less[i] == params[i]);
            }
            assert(valid_key(params[n].point));
        }
    }
}

/// The first parameter of a set with that key.
pub open spec fn first_definition(
    params: Seq<ParameterView>,
    set: Seq<char>,
    key: Seq<char>,
) -> Option<ParameterView>
    decreases params.len(),
{
    if params.len() == 0 {
        None
    } else {
        match first_definition(params.drop_last(), set, key) {
            Some(p) => Some(p),
            None => if params.last().set == set && params.last().point == key {
                Some(params.last())
            } else {
                None
            },
        }
    }
}

/// The property of a set with that key.
pub open spec fn property_in(
    sets: Seq<(Seq<char>, Seq<(Seq<char>, JsonView)>)>,
    set: Seq<char>,
    key: Seq<char>,
) -> Option<JsonView> {
    let i = set_index(sets, set);
    if i < sets.len() {
        json::lookup(sets[i].1, key)
    } else {
        None
    }
}

/// Every parameter has its property in its set, under its key: where several share a set and a
/// key, the first one's. There are no other properties.
pub proof fn the_first_definition_wins(
    params: Seq<ParameterView>,
    set: Seq<char>,
    key: Seq<char>,
)
    ensures
        property_in(grouped(params), set, key) == match first_definition(params, set, key) {
            Some(p) => Some(JsonView::Object(schema_members(p))),
            None => None,
        },
    decreases params.len(),
{
    if params.len() > 0 {
        let less = params.drop_last();
        let p = params.last();
        the_first_definition_wins(less, set, key);
        the_first_definition_wins(less, p.set, p.point);
        let before = grouped(less);
        let after = grouped(params);
        lemma_set_index(before, set);
        lemma_set_index(before, p.set);
        lemma_set_index(after, set);
        let i = set_index(before, p.set);
        let k = set_index(before, set);
        let property = (p.point, JsonView::Object(schema_members(p)));
        if i < before.len() {
            assert forall|j: int| 0 <= j < k implies (#[trigger] after[j]).0 != set by {
                assert(before[j].0 != set);
            }
            lemma_set_index_unique(after, set, k);
            if json::lookup(before[i].1, p.point) is None && p.set == set {
                lemma_lookup_pushed(before[i].1, property, key);
            }
        } else {
            assert forall|j: int| 0 <= j < before.len() implies (#[trigger] after[j]).0
                == before[j].0 by {}
            if p.set == set {
                assert forall|j: int| 0 <= j < before.len() implies (#[trigger] after[j]).0
                    != set by {
                    assert(before[j].0 != set);
                }
                lemma_set_index_unique(after, set, before.len() as int);
                assert(after[before.len() as int].1 =~= Seq::<(Seq<char>, JsonView)>::empty().push(
                    property,
                ));
                lemma_lookup_pushed(Seq::empty(), property, key);
            } else if k < before.len() {
                assert forall|j: int| 0 <= j < k implies (#[trigger] after[j]).0 != set by {
                    assert(before[j].0 != set);
                }
                lemma_set_index_unique(after, set, k);
            } else {
                assert forall|j: int| 0 <= j < after.len() implies (#[trigger] after[j]).0
                    != set by {
                    if j < before.len() {
                        assert(before[j].0 != set);
                    }
                }
                lemma_set_index_unique(after, set, after.len() as int);
            }
        }
    }
}

/// A member that was appended is found where its name is new, and changes no other.
proof fn lemma_lookup_pushed(
    members: Seq<(Seq<char>, JsonView)>,
    added: (Seq<char>, JsonView),
    key: Seq<char>,
)
    requires
        json::lookup(members, added.0) is None,
    ensures
        json::lookup(members.push(added), key) == if key == added.0 {
            Some(added.1)
        } else {
            json::lookup(members, key)
        },
{
    json::lemma_key_index(members, added.0);
    json::lemma_with_member(members, added.0, added.1, key);
}

/// Each set of a configuration is defined once, and each key of a set once.
pub proof fn each_set_is_defined_once(params: Seq<ParameterView>)
    ensures
        forall|i: int, j: int|
            0 <= i < j < grouped(params).len() ==> (#[trigger] grouped(params)[i]).0 != (
            #[trigger] grouped(params)[j]).0,
        forall|i: int|
            0 <= i < grouped(params).len() ==> json::distinct_keys(
                (#[trigger] grouped(params)[i]).1,
            ),
    decreases params.len(),
{
    if params.len() > 0 {
        let p = params.last();
        let before = grouped(params.drop_last());
        each_set_is_defined_once(params.drop_last());
        lemma_set_index(before, p.set);
        let after = grouped(params);
        assert forall|i: int, j: int| 0 <= i < j < after.len() implies (#[trigger] after[i]).0 != (
        #[trigger] after[j]).0 by {
            assert(before[i].0 == after[i].0);
            if j < before.len() {
                assert(before[j].0 == after[j].0);
            }
        }
        assert forall|i: int| 0 <= i < after.len() implies json::distinct_keys(
            (#[trigger] after[i]).1,
        ) by {
            if i < before.len() {
                assert(json::distinct_keys(before[i].1));
                json::lemma_key_index(before[i].1, p.point);
            }
        }
    }
}

/// The position of the first parameter of a set, or the number of parameters.
pub open spec fn first_of(params: Seq<ParameterView>, set: Seq<char>) -> int
    decreases params.len(),
{
    if params.len() == 0 {
        0
    } else {
        let less = params.drop_last();
        if first_of(less, set) < less.len() {
            first_of(less, set)
        } else if params.last().set == set {
            less.len() as int
        } else {
            params.len() as int
        }
    }
}

/// [`first_of`] is the first position that holds a parameter of that set.
proof fn lemma_first_of(params: Seq<ParameterView>, set: Seq<char>)
    ensures
        0 <= first_of(params, set) <= params.len(),
        first_of(params, set) < params.len() ==> params[first_of(params, set)].set == set,
        forall|k: int| 0 <= k < first_of(params, set) ==> (#[trigger] params[k]).set != set,
    decreases params.len(),
{
    if params.len() > 0 {
        let less = params.drop_last();
        lemma_first_of(less, set);
        assert forall|k: int| 0 <= k < first_of(params, set) implies (#[trigger] params[k]).set
            != set by {
            if k < less.len() {
                assert(params[k] == less[k]);
            }
        }
    }
}

/// There is a set where a parameter has it, and the sets come in the order in which the first
/// parameter of each does.
pub proof fn sets_come_in_order_of_first_appearance(params: Seq<ParameterView>)
    ensures
        forall|set: Seq<char>|
            (#[trigger] set_index(grouped(params), set) < grouped(params).len()) == (first_of(
                params,
                set,
            ) < params.len()),
        forall|i: int, j: int|
            0 <= i < j < grouped(params).len() ==> first_of(
                params,
                (#[trigger] grouped(params)[i]).0,
            ) < first_of(params, (#[trigger] grouped(params)[j]).0) < params.len(),
    decreases params.len(),
{
    if params.len() > 0 {
        let less = params.drop_last();
        let p = params.last();
        let before = grouped(less);
        let after = grouped(params);
        sets_come_in_order_of_first_appearance(less);
        lemma_set_index(before, p.set);
        lemma_first_of(less, p.set);
        assert forall|i: int| 0 <= i < before.len() implies (#[trigger] after[i]).0
            == before[i].0 && first_of(params, after[i].0) == first_of(less, before[i].0)
            && first_of(less, before[i].0) < less.len() by {
            lemma_set_index(before, before[i].0);
            let k = set_index(before, before[i].0);
            assert(k <= i);
        }
        assert forall|set: Seq<char>|
            (#[trigger] set_index(after, set) < after.len()) == (first_of(params, set)
                < params.len()) by {
            lemma_set_index(before, set);
            lemma_set_index(after, set);
            lemma_first_of(less, set);
            let k = set_index(before, set);
            let n = set_index(after, set);
            if k < before.len() {
                assert(after[k].0 == set);
            } else if set == p.set {
                assert(after[before.len() as int].0 == set);
            } else if n < after.len() && n < before.len() {
                assert(before[n].0 == set);
            }
        }
        assert forall|i: int, j: int| 0 <= i < j < after.len() implies first_of(
            params,
            (#[trigger] after[i]).0,
        ) < first_of(params, (#[trigger] after[j]).0) < params.len() by {
            assert(first_of(params, after[i].0) == first_of(less, before[i].0));
            if j < before.len() {
                assert(first_of(params, after[j].0) == first_of(less, before[j].0));
                assert(first_of(less, before[i].0) < first_of(less, before[j].0));
            } else {
                assert(after[j].0 == p.set);
            }
        }
    }
}

/// The parameters of a set that have a property: the first one with each key, in their order.
pub open spec fn kept(params: Seq<ParameterView>, set: Seq<char>) -> Seq<ParameterView>
    decreases params.len(),
{
    if params.len() == 0 {
        Seq::empty()
    } else {
        let less = params.drop_last();
        let p = params.last();
        if p.set == set && first_definition(less, set, p.point) is None {
            kept(less, set).push(p)
        } else {
            kept(less, set)
        }
    }
}

/// The properties of the set called `set`, none where there is no such set.
pub open spec fn properties_in(
    sets: Seq<(Seq<char>, Seq<(Seq<char>, JsonView)>)>,
    set: Seq<char>,
) -> Seq<(Seq<char>, JsonView)> {
    let i = set_index(sets, set);
    if i < sets.len() {
        sets[i].1
    } else {
        Seq::empty()
    }
}

/// The properties of a set are those of the parameters it keeps, in their order.
pub proof fn properties_come_in_order_of_first_appearance(
    params: Seq<ParameterView>,
    set: Seq<char>,
)
    ensures
        properties_in(grouped(params), set) == kept(params, set).map_values(
            |p: ParameterView| (p.point, JsonView::Object(schema_members(p))),
        ),
    decreases params.len(),
{
    let property = |p: ParameterView| (p.point, JsonView::Object(schema_members(p)));
    if params.len() > 0 {
        let less = params.drop_last();
        let p = params.last();
        let before = grouped(less);
        let after = grouped(params);
        properties_come_in_order_of_first_appearance(less, set);
        the_first_definition_wins(less, p.set, p.point);
        lemma_set_index(before, set);
        lemma_set_index(before, p.set);
        let k = set_index(before, set);
        if k < before.len() {
            assert forall|j: int| 0 <= j < k implies (#[trigger] after[j]).0 != set by {
                assert(before[j].0 != set);
            }
            lemma_set_index_unique(after, set, k);
        } else {
            assert forall|j: int| 0 <= j < before.len() implies (#[trigger] after[j]).0
                != set by {
                assert(before[j].0 != set);
            }
            lemma_set_index_unique(
                after,
                set,
                if p.set == set {
                    before.len() as int
                } else {
                    after.len() as int
                },
            );
        }
        assert(properties_in(after, set) =~= kept(params, set).map_values(property));
    } else {
        assert(properties_in(grouped(params), set) =~= kept(params, set).map_values(property));
    }
}

/// The parameter that a set keeps after `i` others has the place `i + 1` in it, unless its
/// options name another.
pub proof fn kept_parameters_are_counted_from_one(
    params: Seq<ParameterView>,
    set: Seq<char>,
    i: int,
)
    requires
        0 <= i < kept(params, set).len(),
    ensures
        ordered(properties_in(grouped(params), set)).len() == kept(params, set).len(),
        ({
            let p = kept(params, set)[i];
            let (key, property) = ordered(properties_in(grouped(params), set))[i];
            &&& key == p.point
            &&& property == with_order(JsonView::Object(schema_members(p)), place_of(i + 1))
            &&& property.get("order"@) == match json::lookup(p.options, "order"@) {
                Some(own) => Some(own),
                None => Some(place_of(i + 1)),
            }
        }),
{
    let p = kept(params, set)[i];
    let members = schema_members(p);
    properties_come_in_order_of_first_appearance(params, set);
    what_a_property_says(p, "order"@);
    lemma_name_ranks();
    if json::lookup(members, "order"@) is None {
        lemma_lookup_pushed(members, ("order"@, place_of(i + 1)), "order"@);
    }
}

/// Every property of a definition says at which place it stands.
pub proof fn every_property_has_a_place(p: ParameterView, place: JsonView)
    ensures
        with_order(JsonView::Object(schema_members(p)), place).get("order"@) is Some,
{
    let members = schema_members(p);
    if json::lookup(members, "order"@) is None {
        lemma_lookup_pushed(members, ("order"@, place), "order"@);
    }
}

/// The least and the greatest value of a data type that has both within 32 bits.
pub proof fn the_range_of_a_data_type(datatype: Option<DataType>)
    ensures
        least_of(datatype) == match datatype {
            Some(DataType::Int8) => Some(-128int),
            Some(DataType::Int16) => Some(-32_768int),
            Some(DataType::Int32) => Some(-2_147_483_648int),
            Some(DataType::Uint8) | Some(DataType::Uint16) | Some(DataType::Uint32) => Some(0int),
            _ => None,
        },
        greatest_of(datatype) == match datatype {
            Some(DataType::Int8) => Some(127int),
            Some(DataType::Int16) => Some(32_767int),
            Some(DataType::Int32) => Some(2_147_483_647int),
            Some(DataType::Uint8) => Some(255int),
            Some(DataType::Uint16) => Some(65_535int),
            Some(DataType::Uint32) => Some(4_294_967_295int),
            _ => None,
        },
{
}

/// The limits of a property: whatever the data type is, a number among the options counts, as a
/// float; only where there is none, the limit of the data type does; and there is no limit only
/// where there is neither.
pub proof fn configured_limits_come_first(p: ParameterView)
    ensures
        ({
            let least = json::lookup(schema_members(p), "minimum"@);
            let greatest = json::lookup(schema_members(p), "maximum"@);
            let min = json::lookup(p.options, "min"@);
            let max = json::lookup(p.options, "max"@);
            &&& min matches Some(JsonView::Number(n)) ==> least == Some(
                JsonView::Number(json::number_float(n)),
            )
            &&& !(min is Some && min->0 is Number) ==> match p.datatype {
                Some(DataType::Int8) => least == Some(
                    JsonView::Number(json::number_float(json::number_of(-128))),
                ),
                Some(DataType::Int16) => least == Some(
                    JsonView::Number(json::number_float(json::number_of(-32_768))),
                ),
                Some(DataType::Int32) => least == Some(
                    JsonView::Number(json::number_float(json::number_of(-2_147_483_648))),
                ),
                Some(DataType::Uint8) | Some(DataType::Uint16) | Some(DataType::Uint32) => least
                    == Some(JsonView::Number(json::number_float(json::number_of(0)))),
                _ => least is None,
            }
            &&& max matches Some(JsonView::Number(n)) ==> greatest == Some(
                JsonView::Number(json::number_float(n)),
            )
            &&& !(max is Some && max->0 is Number) ==> match p.datatype {
                Some(DataType::Int8) => greatest == Some(
                    JsonView::Number(json::number_float(json::number_of(127))),
                ),
                Some(DataType::Int16) => greatest == Some(
                    JsonView::Number(json::number_float(json::number_of(32_767))),
                ),
                Some(DataType::Int32) => greatest == Some(
                    JsonView::Number(json::number_float(json::number_of(2_147_483_647))),
                ),
                Some(DataType::Uint8) => greatest == Some(
                    JsonView::Number(json::number_float(json::number_of(255))),
                ),
                Some(DataType::Uint16) => greatest == Some(
                    JsonView::Number(json::number_float(json::number_of(65_535))),
                ),
                Some(DataType::Uint32) => greatest == Some(
                    JsonView::Number(json::number_float(json::number_of(4_294_967_295))),
                ),
                _ => greatest is None,
            }
        }),
{
    lemma_name_ranks();
    what_a_property_says(p, "minimum"@);
    what_a_property_says(p, "maximum"@);
}

/// What a property tells of its parameter: the JSON type of its data type, the title that its
/// options name or else its point, its own values, default and place where the options have
/// them, and that it is read-only exactly where it can only be read.
pub proof fn what_a_property_tells(p: ParameterView)
    ensures
        ({
            let property = JsonView::Object(schema_members(p));
            let options = JsonView::Object(p.options);
            &&& property.get("type"@) == Some(
                JsonView::Text(
                    match p.datatype {
                        Some(DataType::Bool) => "boolean"@,
                        Some(DataType::Int8) | Some(DataType::Uint8) | Some(DataType::Int16)
                        | Some(DataType::Uint16) | Some(DataType::Int32) | Some(DataType::Uint32)
                        | Some(DataType::Int64) | Some(DataType::Uint64) => "integer"@,
                        Some(DataType::Float32) | Some(DataType::Float64) => "number"@,
                        Some(DataType::String) | Some(DataType::Bytes) | None => "string"@,
                    },
                ),
            )
            &&& options.get_text("title"@) is Some ==> property.get_text("title"@)
                == options.get_text("title"@)
            &&& options.get_text("title"@) is None ==> property.get_text("title"@) == Some(
                p.point,
            )
            &&& property.get("enum"@) == options.get("enum"@)
            &&& property.get("default"@) == options.get("default"@)
            &&& property.get("order"@) == options.get("order"@)
            &&& property.get("readOnly"@) == if p.access == Access::Read {
                Some(JsonView::Bool(true))
            } else {
                None
            }
        }),
{
    lemma_name_ranks();
    what_a_property_says(p, "type"@);
    what_a_property_says(p, "title"@);
    what_a_property_says(p, "enum"@);
    what_a_property_says(p, "default"@);
    what_a_property_says(p, "order"@);
    what_a_property_says(p, "readOnly"@);
    model::what_an_access_is_called(p.access);
}

/// The description of a property: what its options say, its unit in brackets, and a remark where
/// it can only be written, with a space between what there is. Where there is nothing to say,
/// there is no description.
pub proof fn what_a_description_tells(p: ParameterView)
    ensures
        ({
            let own = match JsonView::Object(p.options).get_text("description"@) {
                Some(d) => d,
                None => ""@,
            };
            let unit = match p.unit {
                Some(u) => "["@ + u + "]"@,
                None => ""@,
            };
            let remark = if p.access == Access::Write {
                "(write-only: shows the last value written)"@
            } else {
                ""@
            };
            let first = if own.len() > 0 && unit.len() > 0 {
                " "@
            } else {
                ""@
            };
            let second = if own.len() + unit.len() > 0 && remark.len() > 0 {
                " "@
            } else {
                ""@
            };
            let whole = own + first + unit + second + remark;
            JsonView::Object(schema_members(p)).get("description"@) == if whole.len() > 0 {
                Some(JsonView::Text(whole))
            } else {
                None
            }
        }),
{
    lemma_name_ranks();
    what_a_property_says(p, "description"@);
    reveal_strlit("");
    reveal_strlit(" ");
    reveal_strlit("[");
    reveal_strlit("]");
    reveal_strlit("(write-only: shows the last value written)");
    let own = match JsonView::Object(p.options).get_text("description"@) {
        Some(d) => d,
        None => ""@,
    };
    let unit = match p.unit {
        Some(u) => "["@ + u + "]"@,
        None => ""@,
    };
    let remark = if p.access == Access::Write {
        "(write-only: shows the last value written)"@
    } else {
        ""@
    };
    let first = if own.len() > 0 && unit.len() > 0 {
        " "@
    } else {
        ""@
    };
    let second = if own.len() + unit.len() > 0 && remark.len() > 0 {
        " "@
    } else {
        ""@
    };
    assert(""@ =~= Seq::<char>::empty());
    assert("["@.len() == 1 && " "@.len() == 1);
    assert(description_of(p) =~= own + first + unit + second + remark);
}

/// Which points are parameters, and which. One that says `parameter = false` is none; one that
/// says nothing is one where its access is `write` or `read_write`; any other is one. It has the
/// point's id, data type, unit and access, the members under `parameter` as its options, and the
/// set that these name, or the text under `parameter`, or else the default.
pub proof fn which_points_are_parameters(point: PointConfig, default_set: Seq<char>)
    ensures
        ({
            let mark = match point.meta {
                Some(meta) => meta@.get("parameter"@),
                None => None,
            };
            let access = text::opt_text(point.access);
            let made = parameter_from(point, default_set);
            &&& mark == Some(JsonView::Bool(false)) ==> made is None
            &&& mark is None ==> (made is Some <==> access == Some("write"@) || access == Some(
                "read_write"@,
            ))
            &&& mark is Some && mark != Some(JsonView::Bool(false)) ==> made is Some
            &&& made matches Some(p) ==> {
                &&& p.point == point.id@
                &&& p.datatype == point.datatype
                &&& p.unit == text::opt_text(point.unit)
                &&& p.access == Access::Write <==> access == Some("write"@)
                &&& p.access == Access::ReadWrite <==> access == Some("read_write"@)
                &&& mark matches Some(JsonView::Object(members)) ==> p.options == members
                &&& mark matches Some(JsonView::Object(members)) ==> p.set == match mark->0.get_text(
                    "set"@,
                ) {
                    Some(set) => set,
                    None => default_set,
                }
                &&& mark matches Some(JsonView::Text(set)) ==> p.set == set
                &&& !(mark is Some && (mark->0 is Object || mark->0 is Text)) ==> p.options.len()
                    == 0 && p.set == default_set
            }
        }),
{
    model::what_an_access_name_permits(text::opt_text(point.access));
    let mark = match point.meta {
        Some(meta) => meta@.get("parameter"@),
        None => None,
    };
    match mark {
        Some(JsonView::Text(set)) => {
            let options = seq![("set"@, JsonView::Text(set))];
            json::the_first_member_of_a_name_counts(options, 0);
        },
        Some(JsonView::Object(_)) => {},
        _ => {
            json::a_name_that_no_member_has_is_not_found(
                JsonView::Object(Seq::empty()),
                "set"@,
            );
        },
    }
}

/// One more point adds its parameter at the end, where it is one, and one more device those of its
/// points behind the others'.
pub proof fn parameters_come_in_the_order_of_the_configuration(
    points: Seq<PointConfig>,
    point: PointConfig,
    devices: Seq<DeviceConfig>,
    device: DeviceConfig,
    set: Seq<char>,
)
    ensures
        parameter_from(point, set) matches Some(p) ==> point_parameters(
            points.push(point),
            set,
        ) == point_parameters(points, set).push(p),
        parameter_from(point, set) is None ==> point_parameters(points.push(point), set)
            == point_parameters(points, set),
        point_parameters(Seq::empty(), set).len() == 0,
        device_parameters(devices.push(device), set) == device_parameters(devices, set)
            + point_parameters(device.points@, set),
        device_parameters(Seq::empty(), set).len() == 0,
{
    assert(points.push(point).drop_last() =~= points);
    assert(devices.push(device).drop_last() =~= devices);
}

/// The set of a protocol's parameters is its name with every character but ASCII letters and
/// digits replaced by an underscore, and `_parameters` behind it.
pub proof fn what_a_default_set_is_called(protocol: Seq<char>, i: int)
    requires
        0 <= i < protocol.len(),
    ensures
        set_by_default(protocol).len() == protocol.len() + "_parameters"@.len(),
        set_by_default(protocol).skip(protocol.len() as int) == "_parameters"@,
        '0' <= protocol[i] <= '9' || 'A' <= protocol[i] <= 'Z' || 'a' <= protocol[i] <= 'z'
            ==> set_by_default(protocol)[i] == protocol[i],
        !('0' <= protocol[i] <= '9' || 'A' <= protocol[i] <= 'Z' || 'a' <= protocol[i] <= 'z')
            ==> set_by_default(protocol)[i] == '_',
{
    assert(set_by_default(protocol).skip(protocol.len() as int) =~= "_parameters"@);
}

/// A key is valid exactly where it holds something, and nothing but ASCII letters, digits and
/// underscores.
pub proof fn what_a_valid_key_is(id: Seq<char>)
    ensures
        valid_key(id) <==> id.len() > 0 && forall|i: int|
            0 <= i < id.len() ==> ('0' <= #[trigger] id[i] <= '9' || 'A' <= id[i] <= 'Z' || 'a'
                <= id[i] <= 'z' || id[i] == '_'),
{
    if valid_key(id) {
        assert forall|i: int| 0 <= i < id.len() implies ('0' <= #[trigger] id[i] <= '9' || 'A'
            <= id[i] <= 'Z' || 'a' <= id[i] <= 'z' || id[i] == '_') by {
            assert(is_key_char(id[i]));
        }
    }
}

/// What is complained of in a parameter: its point's id and its set, each where it is no valid key,
/// in this order; and of several parameters, in their order.
pub proof fn what_is_complained_of(params: Seq<ParameterView>, p: ParameterView)
    ensures
        ({
            let before = all_bad_keys(params);
            let after = all_bad_keys(params.push(p));
            let point = "point id '"@ + p.point + "'"@;
            let set = "parameter set '"@ + p.set + "'"@;
            &&& valid_key(p.point) && valid_key(p.set) ==> after == before
            &&& !valid_key(p.point) && valid_key(p.set) ==> after == before.push(point)
            &&& valid_key(p.point) && !valid_key(p.set) ==> after == before.push(set)
            &&& !valid_key(p.point) && !valid_key(p.set) ==> after == before.push(point).push(set)
        }),
        all_bad_keys(Seq::empty()).len() == 0,
{
    assert(params.push(p).drop_last() =~= params);
    let before = all_bad_keys(params);
    let point = "point id '"@ + p.point + "'"@;
    let set = "parameter set '"@ + p.set + "'"@;
    assert(before + Seq::empty() =~= before);
    assert(before + seq![point] =~= before.push(point));
    assert(before + seq![set] =~= before.push(set));
    assert(before + seq![point, set] =~= before.push(point).push(set));
}

/// How a title is made of a key. One word begins with an uppercase letter and is else as it was; a
/// word more, behind an underscore, comes behind a space; and an underscore with nothing behind
/// it, or before it, adds nothing.
pub proof fn how_a_title_is_made(key: Seq<char>, word: Seq<char>)
    requires
        text::without(word, '_'),
        word.len() > 0,
    ensures
        key_title(word) == uppercase(word[0]) + word.skip(1),
        key_title(Seq::empty()).len() == 0,
        key_title(key.push('_')) == key_title(key),
        key_words(key).len() == 0 ==> key_title(key.push('_') + word) == key_title(word),
        key_words(key).len() > 0 ==> key_title(key.push('_') + word) == key_title(key) + " "@
            + word,
{
    let words = key_words(key);
    let pieces = text::split_seq(key, '_');
    text::lemma_split_plain(word, '_');
    text::lemma_split_plain(Seq::empty(), '_');
    text::lemma_split_append(key, word, '_');
    text::lemma_split_append(key, Seq::empty(), '_');
    assert(key.push('_') + Seq::empty() =~= key.push('_'));
    assert(pieces.push(word).drop_last() =~= pieces);
    assert(pieces.push(Seq::empty()).drop_last() =~= pieces);
    assert(key_words(key.push('_') + word) == words.push(word));
    assert(key_words(key.push('_')) == words);
    reveal_with_fuel(nonempty, 2);
    assert(seq![word].drop_last() =~= Seq::<Seq<char>>::empty());
    assert(seq![Seq::<char>::empty()].drop_last() =~= Seq::<Seq<char>>::empty());
    assert(key_words(word) =~= seq![word]);
    assert(key_words(Seq::empty()) =~= Seq::<Seq<char>>::empty());
    let capital = uppercase(word[0]) + word.skip(1);
    assert(seq![word].update(0, capital) =~= seq![capital]);
    if words.len() == 0 {
        assert(words.push(word) =~= seq![word]);
    } else {
        let initial = uppercase(words[0][0]);
        let first = initial + words[0].skip(1);
        let more = words.push(word).update(0, first);
        assert(more.drop_last() =~= words.update(0, first));
        assert(more.last() == word);
    }
}

/// The names in a definition differ.
proof fn lemma_definition_names()
    ensures
        "identifier"@ != "jsonSchema"@,
        "identifier"@ != "contexts"@,
        "identifier"@ != "tags"@,
        "jsonSchema"@ != "contexts"@,
        "jsonSchema"@ != "tags"@,
        "contexts"@ != "tags"@,
        "$schema"@ != "title"@,
        "$schema"@ != "description"@,
        "$schema"@ != "type"@,
        "$schema"@ != "properties"@,
        "title"@ != "description"@,
        "title"@ != "type"@,
        "title"@ != "properties"@,
        "description"@ != "type"@,
        "description"@ != "properties"@,
        "type"@ != "properties"@,
{
    reveal_strlit("identifier");
    reveal_strlit("jsonSchema");
    reveal_strlit("contexts");
    reveal_strlit("tags");
    reveal_strlit("$schema");
    reveal_strlit("title");
    reveal_strlit("description");
    reveal_strlit("type");
    reveal_strlit("properties");
    assert("identifier"@[0] == 'i' && "jsonSchema"@[0] == 'j' && "contexts"@[0] == 'c'
        && "tags"@[0] == 't');
    assert("$schema"@.len() == 7 && "title"@.len() == 5 && "description"@.len() == 11
        && "type"@.len() == 4 && "properties"@.len() == 10);
}

/// What the definition of a set says: the set as its identifier, a JSON schema of an object with
/// the title of the set, a description that names the protocol, and the properties, and the
/// contexts and tags that it is registered under.
pub proof fn what_a_definition_says(
    set: Seq<char>,
    title: Seq<char>,
    properties: Seq<(Seq<char>, JsonView)>,
    protocol: Seq<char>,
)
    ensures
        ({
            let made = definition_titled(set, title, properties, protocol);
            &&& made.get("identifier"@) == Some(JsonView::Text(set))
            &&& made.get("contexts"@) == Some(
                JsonView::Array(seq![JsonView::Text("asset"@), JsonView::Text("operation"@)]),
            )
            &&& made.get("tags"@) == Some(
                JsonView::Array(seq![JsonView::Text("tedge-dot"@), JsonView::Text(protocol)]),
            )
            &&& made.get("jsonSchema"@) matches Some(schema) && {
                &&& schema.get("$schema"@) == Some(
                    JsonView::Text("http://json-schema.org/draft-07/schema#"@),
                )
                &&& schema.get("title"@) == Some(JsonView::Text(title))
                &&& schema.get("type"@) == Some(JsonView::Text("object"@))
                &&& schema.get("properties"@) == Some(JsonView::Object(properties))
                &&& schema.get("description"@) == Some(
                    JsonView::Text(
                        "Writable "@ + protocol
                            + " points exposed by tedge-dot (generated from the connector configuration)"@,
                    ),
                )
            }
        }),
        definition_of(set, properties, protocol) == definition_titled(
            set,
            key_title(set),
            ordered(properties),
            protocol,
        ),
{
    lemma_definition_names();
    let members = definition_titled(set, title, properties, protocol)->Object_0;
    json::the_first_member_of_a_name_counts(members, 0);
    json::the_first_member_of_a_name_counts(members, 1);
    json::the_first_member_of_a_name_counts(members, 2);
    json::the_first_member_of_a_name_counts(members, 3);
    let schema = members[1].1->Object_0;
    json::the_first_member_of_a_name_counts(schema, 0);
    json::the_first_member_of_a_name_counts(schema, 1);
    json::the_first_member_of_a_name_counts(schema, 2);
    json::the_first_member_of_a_name_counts(schema, 3);
    json::the_first_member_of_a_name_counts(schema, 4);
}

/// There is one definition for each set, in the order of the sets, and the properties of a set keep
/// their keys and their order in it.
pub proof fn each_set_has_its_definition(
    devices: Seq<DeviceConfig>,
    default_set: Seq<char>,
    protocol: Seq<char>,
    i: int,
)
    requires
        0 <= i < grouped(device_parameters(devices, default_set)).len(),
    ensures
        ({
            let sets = grouped(device_parameters(devices, default_set));
            let made = definitions_of(devices, default_set, protocol);
            &&& made.len() == sets.len()
            &&& made[i].get("identifier"@) == Some(JsonView::Text(sets[i].0))
            &&& made[i].get("jsonSchema"@) matches Some(schema) && schema.get("title"@) == Some(
                JsonView::Text(key_title(sets[i].0)),
            ) && (schema.get("properties"@) matches Some(JsonView::Object(properties)) && {
                &&& properties.len() == sets[i].1.len()
                &&& forall|k: int|
                    0 <= k < properties.len() ==> (#[trigger] properties[k]).0 == sets[i].1[k].0
            })
        }),
{
    let sets = grouped(device_parameters(devices, default_set));
    what_a_definition_says(sets[i].0, key_title(sets[i].0), ordered(sets[i].1), protocol);
}

/// The first definition of a key in a set is that of the first parameter with both.
pub proof fn which_definition_is_the_first(
    params: Seq<ParameterView>,
    set: Seq<char>,
    key: Seq<char>,
    i: int,
)
    requires
        0 <= i <= params.len(),
        i < params.len() ==> params[i].set == set && params[i].point == key,
        forall|j: int|
            0 <= j < i ==> !((#[trigger] params[j]).set == set && params[j].point == key),
    ensures
        first_definition(params, set, key) == if i < params.len() {
            Some(params[i])
        } else {
            None
        },
    decreases params.len(),
{
    if params.len() > 0 {
        let less = params.drop_last();
        let n = params.len() - 1;
        let at = if i < n {
            i
        } else {
            n as int
        };
        assert forall|j: int| 0 <= j < at implies !((#[trigger] less[j]).set == set
            && less[j].point == key) by {
            assert(less[j] == params[j]);
        }
        if i < n {
            assert(less[i] == params[i]);
        }
        if i > n {
            assert(!(params[n].set == set && params[n].point == key));
        }
        which_definition_is_the_first(less, set, key, at);
    }
}

/// What a set defines under a key is the property of the first parameter of that set and key.
pub proof fn a_key_is_defined_by_its_first_parameter(params: Seq<ParameterView>, i: int)
    requires
        0 <= i < params.len(),
        forall|j: int|
            0 <= j < i ==> !((#[trigger] params[j]).set == params[i].set && params[j].point
                == params[i].point),
    ensures
        property_in(grouped(params), params[i].set, params[i].point) == Some(
            JsonView::Object(schema_members(params[i])),
        ),
{
    which_definition_is_the_first(params, params[i].set, params[i].point, i);
    the_first_definition_wins(params, params[i].set, params[i].point);
}

/// Whatever the data type of a parameter is, a number that its options have under `min` or `max` is
/// the limit of its property, as a float.
pub proof fn property_schema_keeps_configured_limits(
    param: &Parameter,
    r: Json,
    n: serde_json::Number,
)
    requires
        call_ensures(property_schema, (param,), r),
    ensures
        json::lookup(json::members_view(param.options@), "min"@) == Some(JsonView::Number(n))
            ==> r@.get("minimum"@) == Some(JsonView::Number(json::number_float(n))),
        json::lookup(json::members_view(param.options@), "max"@) == Some(JsonView::Number(n))
            ==> r@.get("maximum"@) == Some(JsonView::Number(json::number_float(n))),
        json::lookup(json::members_view(param.options@), "min"@) is None ==> (r@.get("minimum"@)
            is Some <==> param.datatype == Some(DataType::Int8) || param.datatype == Some(
            DataType::Uint8,
        ) || param.datatype == Some(DataType::Int16) || param.datatype == Some(DataType::Uint16)
            || param.datatype == Some(DataType::Int32) || param.datatype == Some(
            DataType::Uint32,
        )),
{
    configured_limits_come_first(param@);
}

} // verus!

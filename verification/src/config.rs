//! The configuration that the runtime reads.

use crate::clock;
use crate::clock::{seconds, span};
use crate::json::Json;
use crate::model;
use crate::model::{
    resolve_mode, Access, ConnectorError, DataType, Endianness, Mode, PointRef, PointView, Transform,
    WordOrder,
};
use crate::text;
use crate::text::{copy_opt, decimal_text, same_text};
use std::time::Duration;
use vstd::prelude::*;
use vstd::string::*;

verus! {

/// What the runtime reads of a connector's configuration.
#[derive(Debug)]
pub struct ConnectorConfig {
    pub connector: ConnectorSection,
    pub mqtt: MqttSection,
    pub devices: Vec<DeviceConfig>,
}

/// The section `connector`.
#[derive(Debug)]
pub struct ConnectorSection {
    pub protocol: String,
    pub service_name: String,
    pub poll_interval: String,
    pub operation_timeout: String,
    pub log_level: String,
}

/// The section `mqtt`.
#[derive(Debug)]
pub struct MqttSection {
    pub host: String,
    pub port: u16,
}

/// One device.
#[derive(Debug)]
pub struct DeviceConfig {
    pub name: String,
    pub poll_interval: Option<String>,
    pub default_mode: Option<Mode>,
    pub points: Vec<PointConfig>,
}

/// One point of a device.
#[derive(Debug)]
pub struct PointConfig {
    pub id: String,
    pub mode: Option<Mode>,
    pub datatype: Option<DataType>,
    pub endianness: Option<String>,
    pub word_order: Option<String>,
    pub access: Option<String>,
    pub unit: Option<String>,
    pub transform: Option<Transform>,
    pub poll_interval: Option<String>,
    pub subscribe: Option<bool>,
    /// Free-form data that is handed on with each sample.
    pub meta: Option<Json>,
}

/// True for `0` to `9`.
pub open spec fn is_digit(c: char) -> bool {
    '0' <= c <= '9'
}

/// How many digits a text begins with.
pub open spec fn digit_run(s: Seq<char>) -> nat
    decreases s.len(),
{
    if s.len() > 0 && is_digit(s.first()) {
        1 + digit_run(s.drop_first())
    } else {
        0
    }
}

/// The number that digits stand for.
pub open spec fn digits_value(s: Seq<char>) -> nat
    decreases s.len(),
{
    if s.len() == 0 {
        0
    } else {
        digits_value(s.drop_last()) * 10 + (s.last() as nat - '0' as nat) as nat
    }
}

/// The nanoseconds of `count` units, where the unit is known and the span can be held.
pub open spec fn unit_span(count: nat, unit: Seq<char>) -> Option<nat> {
    if count > u64::MAX {
        None
    } else if unit == "ms"@ {
        Some(count * 1_000_000)
    } else if unit == "s"@ {
        Some(count * 1_000_000_000)
    } else if unit == "m"@ && count * 60 <= u64::MAX {
        Some(count * 60_000_000_000)
    } else if unit == "h"@ && count * 3600 <= u64::MAX {
        Some(count * 3_600_000_000_000)
    } else {
        None
    }
}

/// The span that a text such as `250ms`, `2s`, `5m` or `1h` stands for, in nanoseconds.
pub open spec fn duration_of(s: Seq<char>) -> Option<nat> {
    let n = digit_run(s);
    if n == 0 {
        None
    } else {
        unit_span(digits_value(s.take(n as int)), s.skip(n as int))
    }
}

/// The digits that a text begins with reach up to the first character that is none.
proof fn lemma_digit_run(s: Seq<char>, n: int)
    requires
        0 <= n <= s.len(),
        forall|i: int| 0 <= i < n ==> is_digit(#[trigger] s[i]),
        n < s.len() ==> !is_digit(s[n]),
    ensures
        digit_run(s) == n,
    decreases n,
{
    if n > 0 {
        let rest = s.drop_first();
        assert(is_digit(s[0]));
        assert forall|i: int| 0 <= i < n - 1 implies is_digit(#[trigger] rest[i]) by {
            assert(rest[i] == s[i + 1]);
        }
        lemma_digit_run(rest, n - 1);
    }
}

/// The span of `count` units, where the unit is known and the span can be held.
fn unit_duration(count: u64, unit: &str) -> (r: Option<Duration>)
    ensures
        clock::opt_nanos(r) == unit_span(count as nat, unit@),
{
    let n: u128 = count as u128;
    if same_text(unit, "ms") {
        Some(span(n * clock::MILLISECOND))
    } else if same_text(unit, "s") {
        Some(seconds(count))
    } else if same_text(unit, "m") && n * 60 <= u64::MAX as u128 {
        Some(seconds(count * 60))
    } else if same_text(unit, "h") && n * 3600 <= u64::MAX as u128 {
        Some(seconds(count * 3600))
    } else {
        None
    }
}

/// Reads a span such as `250ms`, `2s`, `5m` or `1h`. Any other text is none.
pub fn parse_duration(text: &str) -> (r: Option<Duration>)
    ensures
        clock::opt_nanos(r) == duration_of(text@),
{
    let ghost all = text@;
    let mut count: u128 = 0;
    let mut digits: usize = 0;
    let mut unit = String::new();
    let mut in_unit = false;
    let mut too_large = false;
    let ghost mut n: int = 0;
    for c in it: text.chars()
        invariant
            it.seq() == all,
            0 <= n <= it.index(),
            forall|i: int| 0 <= i < n ==> is_digit(#[trigger] all[i]),
            !in_unit ==> n == it.index() && unit@.len() == 0,
            in_unit ==> n < it.index() && !is_digit(all[n]),
            unit@ == all.subrange(n, it.index() as int),
            (digits > 0) == (n > 0),
            !too_large ==> count == digits_value(all.take(n)) && count <= u64::MAX,
            too_large ==> digits_value(all.take(n)) > u64::MAX,
    {
        let ghost i = it.index() as int;
        if !in_unit && '0' <= c && c <= '9' {
            proof {
                assert(all.take(i + 1).drop_last() =~= all.take(i));
                n = n + 1;
            }
            if !too_large {
                count = count * 10 + (c as u32 - '0' as u32) as u128;
                if count > u64::MAX as u128 {
                    too_large = true;
                }
            }
            digits = 1;
        } else {
            in_unit = true;
            unit.push(c);
            assert(unit@ =~= all.subrange(n, i + 1));
        }
        assert(unit@ =~= all.subrange(n, i + 1));
    }
    proof {
        lemma_digit_run(all, n);
        assert(unit@ =~= all.skip(n));
    }
    if digits == 0 || too_large {
        None
    } else {
        unit_duration(count as u64, unit.as_str())
    }
}

/// An optional span read from an optional text.
pub open spec fn opt_duration_of(s: Option<String>) -> Option<nat> {
    match s {
        Some(t) => duration_of(t@),
        None => None,
    }
}

/// Reads a span from an optional text.
pub fn parse_opt_duration(s: &Option<String>) -> (r: Option<Duration>)
    ensures
        clock::opt_nanos(r) == opt_duration_of(*s),
{
    match s {
        Some(t) => parse_duration(t.as_str()),
        None => None,
    }
}

/// The text of an optional string.
fn opt_as_str(s: &Option<String>) -> (r: Option<&str>)
    ensures
        model::opt_str(r) == text::opt_text(*s),
{
    match s {
        Some(t) => Some(t.as_str()),
        None => None,
    }
}

impl PointConfig {
    /// The mode of the point: its own, else that of its device, else typed.
    pub fn resolved_mode(&self, device_default: Option<Mode>) -> (r: Mode)
        ensures
            r == model::mode_of(self.mode, device_default),
    {
        resolve_mode(self.mode, device_default)
    }

    /// The access of the point.
    pub fn resolved_access(&self) -> (r: Access)
        ensures
            r == model::access_of(text::opt_text(self.access)),
    {
        Access::parse(opt_as_str(&self.access))
    }
}

/// What a configured point resolves to, read at the given interval.
pub open spec fn resolved(
    point: PointConfig,
    device_default: Option<Mode>,
    interval: Option<nat>,
) -> PointView {
    PointView {
        id: point.id@,
        mode: model::mode_of(point.mode, device_default),
        datatype: point.datatype,
        endianness: model::endianness_of(text::opt_text(point.endianness)),
        word_order: model::word_order_of(text::opt_text(point.word_order)),
        access: model::access_of(text::opt_text(point.access)),
        unit: text::opt_text(point.unit),
        transform: match point.transform {
            Some(t) => t,
            None => Transform { decimal_shift: 0 },
        },
        interval,
    }
}

/// Resolves a configured point. Its interval is the one that it configures itself.
pub fn point_ref(point: &PointConfig, device_default: Option<Mode>) -> (r: PointRef)
    ensures
        r@ == resolved(*point, device_default, opt_duration_of(point.poll_interval)),
        r.id@ == point.id@,
        r.datatype == point.datatype,
        text::opt_text(r.unit) == text::opt_text(point.unit),
        point.transform matches Some(t) ==> r.transform == t,
        point.transform is None ==> r.transform.decimal_shift == 0,
        point.mode matches Some(m) ==> r.mode == m,
        (r.endianness == Endianness::Little) == (text::opt_text(point.endianness) == Some(
            "little"@,
        )),
        (r.word_order == WordOrder::Little) == (text::opt_text(point.word_order) == Some(
            "little"@,
        )),
        (r.access == Access::Write) == (text::opt_text(point.access) == Some("write"@)),
        (r.access == Access::ReadWrite) == (text::opt_text(point.access) == Some("read_write"@)),
{
    proof {
        model::what_an_access_name_permits(text::opt_text(point.access));
    }
    PointRef {
        id: point.id.clone(),
        mode: point.resolved_mode(device_default),
        datatype: point.datatype,
        endianness: Endianness::parse(opt_as_str(&point.endianness)),
        word_order: WordOrder::parse(opt_as_str(&point.word_order)),
        access: point.resolved_access(),
        unit: copy_opt(&point.unit),
        transform: match point.transform {
            Some(t) => t,
            None => Transform::default(),
        },
        interval: parse_opt_duration(&point.poll_interval),
    }
}

/// The bound on one call of the protocol module that a configuration sets, in nanoseconds:
/// 30 seconds where it sets none that is a positive span.
pub open spec fn operation_limit(timeout: Seq<char>) -> nat {
    match duration_of(timeout) {
        Some(n) => if n > 0 {
            n
        } else {
            30_000_000_000
        },
        None => 30_000_000_000,
    }
}

/// The bounds that the runtime puts on the protocol module.
#[derive(Clone, Copy, Debug)]
pub struct Limits {
    /// The longest that one call may take.
    pub operation: Duration,
}

impl Limits {
    /// The bounds that a configuration sets.
    pub fn from_config(config: &ConnectorConfig) -> (r: Limits)
        ensures
            clock::nanos(r.operation) == operation_limit(config.connector.operation_timeout@),
    {
        let operation = match parse_duration(config.connector.operation_timeout.as_str()) {
            Some(d) => if d.as_nanos() > 0 {
                d
            } else {
                seconds(30)
            },
            None => seconds(30),
        };
        Limits { operation }
    }
}

/// What a call that did not return in time comes to.
pub open spec fn timeout_text(what: Seq<char>, limit: nat) -> Seq<char> {
    what + " did not return within "@ + text::decimal(limit / 1_000_000_000)
        + "s (operation_timeout)"@
}

/// Bounds one call of the protocol module. `answer` is what the call returned, and nothing where
/// it did not return within the limit: a call that hangs comes to a transport failure, so that
/// it is dealt with as one.
pub fn bounded<T>(
    limits: Limits,
    what: &str,
    answer: Option<Result<T, ConnectorError>>,
) -> (r: Result<T, ConnectorError>)
    ensures
        match answer {
            Some(given) => r == given,
            None => r matches Err(ConnectorError::Transport(t)) && t@ == timeout_text(
                what@,
                clock::nanos(limits.operation),
            ),
        },
{
    match answer {
        Some(given) => given,
        None => {
            let secs: u128 = limits.operation.as_nanos() / clock::SECOND;
            assert(secs <= u64::MAX);
            let mut message = String::from_str(what);
            message.append(" did not return within ");
            message.append(decimal_text(secs as u64).as_str());
            message.append("s (operation_timeout)");
            Err(ConnectorError::Transport(message))
        },
    }
}

/// True when a point is handed to the protocol module as it is configured: by its id, with its
/// type, its unit and its scaling, in its byte and word order, with the access that its name
/// stands for, and in its own mode before that of its device.
pub open spec fn is_as_configured(
    view: PointView,
    point: PointConfig,
    device_default: Option<Mode>,
) -> bool {
    &&& view.id == point.id@
    &&& view.datatype == point.datatype
    &&& view.unit == text::opt_text(point.unit)
    &&& view.transform.decimal_shift == match point.transform {
        Some(t) => t.decimal_shift,
        None => 0,
    }
    &&& view.endianness == Endianness::Little <==> text::opt_text(point.endianness) == Some(
        "little"@,
    )
    &&& view.word_order == WordOrder::Little <==> text::opt_text(point.word_order) == Some(
        "little"@,
    )
    &&& view.access == Access::Write <==> text::opt_text(point.access) == Some("write"@)
    &&& view.access == Access::ReadWrite <==> text::opt_text(point.access) == Some("read_write"@)
    &&& view.mode == Mode::Raw <==> point.mode == Some(Mode::Raw) || (point.mode is None
        && device_default == Some(Mode::Raw))
}

/// A point resolves to what is configured for it, field by field.
pub proof fn a_point_resolves_to_its_configuration(
    point: PointConfig,
    device_default: Option<Mode>,
    interval: Option<nat>,
)
    ensures
        resolved(point, device_default, interval).id == point.id@,
        resolved(point, device_default, interval).datatype == point.datatype,
        resolved(point, device_default, interval).unit == text::opt_text(point.unit),
        resolved(point, device_default, interval).interval == interval,
        point.transform matches Some(t) ==> resolved(
            point,
            device_default,
            interval,
        ).transform == t,
        is_as_configured(resolved(point, device_default, interval), point, device_default),
{
    model::what_an_access_name_permits(text::opt_text(point.access));
}

proof fn lemma_notation(n: nat, unit: Seq<char>)
    requires
        unit.len() > 0,
        !is_digit(unit[0]),
    ensures
        digits_value(text::decimal(n)) == n,
        duration_of(text::decimal(n) + unit) == unit_span(n, unit),
{
    let number = text::decimal(n);
    let all = number + unit;
    lemma_number_reads_back(n);
    text::decimal_is_digits(n);
    assert forall|i: int| 0 <= i < number.len() implies is_digit(#[trigger] all[i]) by {
        assert(all[i] == number[i]);
    }
    assert(all[number.len() as int] == unit[0]);
    lemma_digit_run(all, number.len() as int);
    assert(all.take(number.len() as int) =~= number);
    assert(all.skip(number.len() as int) =~= unit);
}

proof fn lemma_number_reads_back(n: nat)
    ensures
        digits_value(text::decimal(n)) == n,
    decreases n,
{
    if n >= 10 {
        lemma_number_reads_back(n / 10);
        assert(text::decimal(n).drop_last() =~= text::decimal(n / 10));
    } else {
        assert(text::decimal(n).drop_last() =~= Seq::empty());
        assert(digits_value(Seq::<char>::empty()) == 0);
    }
}

/// A number and a unit are read as that many of the unit: milliseconds, seconds, minutes or hours.
/// A span whose seconds cannot be counted is none.
pub proof fn a_duration_is_read_in_its_unit(n: nat)
    requires
        n <= u64::MAX,
    ensures
        duration_of(text::decimal(n) + "ms"@) == Some(n * 1_000_000),
        duration_of(text::decimal(n) + "s"@) == Some(n * 1_000_000_000),
        duration_of(text::decimal(n) + "m"@) == if n * 60 <= u64::MAX {
            Some(60 * n * 1_000_000_000)
        } else {
            None
        },
        duration_of(text::decimal(n) + "h"@) == if n * 3600 <= u64::MAX {
            Some(3600 * n * 1_000_000_000)
        } else {
            None
        },
{
    reveal_strlit("ms");
    reveal_strlit("s");
    reveal_strlit("m");
    reveal_strlit("h");
    assert("ms"@.len() == 2 && "s"@.len() == 1 && "m"@.len() == 1 && "h"@.len() == 1);
    assert("s"@[0] == 's' && "m"@[0] == 'm' && "h"@[0] == 'h' && "ms"@[0] == 'm');
    lemma_notation(n, "ms"@);
    lemma_notation(n, "s"@);
    lemma_notation(n, "m"@);
    lemma_notation(n, "h"@);
}

/// A number that no `u64` holds is no span, whatever its unit.
pub proof fn a_duration_that_is_too_long_is_none(n: nat, unit: Seq<char>)
    requires
        n > u64::MAX,
        unit.len() > 0,
        !('0' <= unit[0] <= '9'),
    ensures
        duration_of(text::decimal(n) + unit) is None,
{
    lemma_notation(n, unit);
}

/// Only digits and one of four units behind them are a span.
pub proof fn only_known_units_are_durations(number: Seq<char>, unit: Seq<char>)
    requires
        forall|i: int| 0 <= i < number.len() ==> '0' <= #[trigger] number[i] <= '9',
        unit.len() > 0 ==> !('0' <= unit[0] <= '9'),
    ensures
        duration_of(number + unit) is Some ==> number.len() > 0 && (unit == "ms"@ || unit == "s"@
            || unit == "m"@ || unit == "h"@),
{
    let all = number + unit;
    assert forall|i: int| 0 <= i < number.len() implies is_digit(#[trigger] all[i]) by {
        assert(all[i] == number[i]);
    }
    if unit.len() > 0 {
        assert(all[number.len() as int] == unit[0]);
    }
    lemma_digit_run(all, number.len() as int);
    assert(all.skip(number.len() as int) =~= unit);
}

/// A call may take as long as the configuration says; where that is no span, or an empty one,
/// half a minute.
pub proof fn a_call_is_always_bounded(timeout: Seq<char>)
    ensures
        operation_limit(timeout) > 0,
        duration_of(timeout) matches Some(n) ==> n > 0 ==> operation_limit(timeout) == n,
        duration_of(timeout) is None || duration_of(timeout) == Some(0nat) ==> operation_limit(
            timeout,
        ) == 30 * clock::SECOND,
{
}

/// A call that did not return is told by what was called and by the limit in whole seconds.
pub proof fn a_timeout_tells_the_call_and_its_limit(what: Seq<char>, seconds: nat, rest: nat)
    requires
        rest < clock::SECOND,
    ensures
        timeout_text(what, seconds * 1_000_000_000 + rest) == what + " did not return within "@
            + text::decimal(seconds) + "s (operation_timeout)"@,
{
    assert((seconds * 1_000_000_000 + rest) / 1_000_000_000 == seconds);
}

/// Whatever point is resolved, the result has the configured id, type, unit and scaling, the
/// configured orders and access, the point's own mode before its device's, and the interval that
/// the point configures itself.
pub proof fn point_ref_keeps_what_is_configured(
    point: &PointConfig,
    device_default: Option<Mode>,
    r: PointRef,
)
    requires
        call_ensures(point_ref, (point, device_default), r),
    ensures
        r.id@ == point.id@,
        r.datatype == point.datatype,
        text::opt_text(r.unit) == text::opt_text(point.unit),
        r.transform.decimal_shift == match point.transform {
            Some(t) => t.decimal_shift,
            None => 0,
        },
        r.endianness == Endianness::Little <==> text::opt_text(point.endianness) == Some(
            "little"@,
        ),
        r.word_order == WordOrder::Little <==> text::opt_text(point.word_order) == Some(
            "little"@,
        ),
        r.access == Access::Write <==> text::opt_text(point.access) == Some("write"@),
        r.access == Access::ReadWrite <==> text::opt_text(point.access) == Some("read_write"@),
        r.mode == Mode::Raw <==> point.mode == Some(Mode::Raw) || (point.mode is None
            && device_default == Some(Mode::Raw)),
        clock::opt_nanos(r.interval) == match point.poll_interval {
            Some(t) => duration_of(t@),
            None => None,
        },
{
    a_point_resolves_to_its_configuration(
        *point,
        device_default,
        opt_duration_of(point.poll_interval),
    );
    assert(r@.transform == r.transform && r@.mode == r.mode);
}

/// A text of a number and a unit is read as that many of the unit.
pub proof fn parse_duration_reads_units(text: &str, r: Option<Duration>, n: nat)
    requires
        call_ensures(parse_duration, (text,), r),
        n <= u64::MAX,
    ensures
        text@ == text::decimal(n) + "ms"@ ==> r is Some && clock::nanos(r->0) == n * 1_000_000,
        text@ == text::decimal(n) + "s"@ ==> r is Some && clock::nanos(r->0) == n * 1_000_000_000,
        text@ == text::decimal(n) + "m"@ && n * 60 <= u64::MAX ==> r is Some && clock::nanos(r->0)
            == 60 * n * 1_000_000_000,
        text@ == text::decimal(n) + "h"@ && n * 3600 <= u64::MAX ==> r is Some && clock::nanos(
            r->0,
        ) == 3600 * n * 1_000_000_000,
{
    a_duration_is_read_in_its_unit(n);
}

} // verus!

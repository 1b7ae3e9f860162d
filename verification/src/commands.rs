//! Commands: which are acted on, and how they are answered.

use crate::json;
use crate::json::{parse_json, push_member, Json, JsonView};
use crate::management;
use crate::management::is_management_verb;
use crate::message;
use crate::message::{retained_message, Message, MessageView};
use crate::model::ConnectorError;
use crate::text;
use crate::text::{copy_opt, decimal_text, joined, same_text, split_text};
use vstd::prelude::*;
use vstd::string::*;

verus! {

/// What a protocol module is asked to do with a point.
#[derive(Debug)]
pub struct CommandRequest {
    pub point: String,
    pub value: Option<Json>,
    pub value_repr: Option<String>,
    pub raw: Option<String>,
}

/// What a [`CommandRequest`] holds.
#[verifier::ext_equal]
pub struct RequestView {
    pub point: Seq<char>,
    pub value: Option<JsonView>,
    pub value_repr: Option<Seq<char>>,
    pub raw: Option<Seq<char>>,
}

impl View for CommandRequest {
    type V = RequestView;

    open spec fn view(&self) -> RequestView {
        RequestView {
            point: self.point@,
            value: json::opt_json(self.value),
            value_repr: text::opt_text(self.value_repr),
            raw: text::opt_text(self.raw),
        }
    }
}

/// What a protocol module did with a point.
#[derive(Debug)]
pub struct CommandResult {
    pub point: String,
    pub value: Option<Json>,
    pub raw: Option<String>,
}

/// What a [`CommandResult`] holds.
#[verifier::ext_equal]
pub struct ResultView {
    pub point: Seq<char>,
    pub value: Option<JsonView>,
    pub raw: Option<Seq<char>>,
}

impl View for CommandResult {
    type V = ResultView;

    open spec fn view(&self) -> ResultView {
        ResultView {
            point: self.point@,
            value: json::opt_json(self.value),
            raw: text::opt_text(self.raw),
        }
    }
}

/// What a message on a command topic asks for.
#[derive(Debug)]
pub enum Command {
    /// Nothing of this connector.
    Ignored,
    /// A change of the configuration.
    Management { verb: String, request: Json },
    /// A sequence of writes.
    WriteBatch { device: String, request: Json },
    /// A verb of the protocol module.
    Execute { device: String, verb: String, request: CommandRequest },
}

/// What a [`Command`] holds.
pub enum CommandView {
    Ignored,
    Management { verb: Seq<char>, request: JsonView },
    WriteBatch { device: Seq<char>, request: JsonView },
    Execute { device: Seq<char>, verb: Seq<char>, request: RequestView },
}

impl View for Command {
    type V = CommandView;

    open spec fn view(&self) -> CommandView {
        match self {
            Command::Ignored => CommandView::Ignored,
            Command::Management { verb, request } => CommandView::Management {
                verb: verb@,
                request: request@,
            },
            Command::WriteBatch { device, request } => CommandView::WriteBatch {
                device: device@,
                request: request@,
            },
            Command::Execute { device, verb, request } => CommandView::Execute {
                device: device@,
                verb: verb@,
                request: request@,
            },
        }
    }
}

/// True for the parts of a topic `te/device/<device>/ot/<protocol>/cmd/<verb>/<id>`.
pub open spec fn is_command_topic(parts: Seq<Seq<char>>, protocol: Seq<char>) -> bool {
    parts.len() == 8 && parts[0] == "te"@ && parts[1] == "device"@ && parts[3] == "ot"@ && parts[4]
        == protocol && parts[5] == "cmd"@
}

/// What a request asks of the protocol module.
pub open spec fn request_of(request: JsonView) -> RequestView {
    RequestView {
        point: match request.get_text("point"@) {
            Some(p) => p,
            None => Seq::empty(),
        },
        value: request.get("value"@),
        value_repr: request.get_text("value_repr"@),
        raw: request.get_text("raw"@),
    }
}

/// What a message asks for. Only new requests are acted on: the runtime's own answers come back
/// on the same topic.
pub open spec fn command_of(
    topic: Seq<char>,
    protocol: Seq<char>,
    request: Option<JsonView>,
) -> CommandView {
    let parts = text::split_seq(topic, '/');
    if !is_command_topic(parts, protocol) {
        CommandView::Ignored
    } else {
        match request {
            None => CommandView::Ignored,
            Some(json) => if json.get_text("status"@) != Some("init"@) {
                CommandView::Ignored
            } else if management::management_verb(parts[6]) {
                CommandView::Management { verb: parts[6], request: json }
            } else if parts[6] == "write-batch"@ {
                CommandView::WriteBatch { device: parts[2], request: json }
            } else {
                CommandView::Execute {
                    device: parts[2],
                    verb: parts[6],
                    request: request_of(json),
                }
            },
        }
    }
}

/// A copy of an optional text.
fn own(s: Option<&str>) -> (r: Option<String>)
    ensures
        text::opt_text(r) == crate::model::opt_str(s),
{
    match s {
        Some(t) => Some(String::from_str(t)),
        None => None,
    }
}

/// A copy of the member `key` of a value.
fn own_member(v: &Json, key: &str) -> (r: Option<Json>)
    ensures
        json::opt_json(r) == v@.get(key@),
{
    match v.get(key) {
        Some(m) => Some(m.clone()),
        None => None,
    }
}

/// The parts of a topic, where it is that of a command for the protocol.
fn command_parts(topic: &str, protocol: &str) -> (r: Option<Vec<String>>)
    ensures
        match r {
            Some(parts) => text::texts(parts@) == text::split_seq(topic@, '/') && is_command_topic(
                text::texts(parts@),
                protocol@,
            ),
            None => !is_command_topic(text::split_seq(topic@, '/'), protocol@),
        },
{
    let parts = split_text(topic, '/');
    let ghost all = text::texts(parts@);
    assert forall|i: int| 0 <= i < parts@.len() implies #[trigger] all[i] == parts@[i]@ by {}
    if parts.len() == 8 && same_text(parts[0].as_str(), "te") && same_text(
        parts[1].as_str(),
        "device",
    ) && same_text(parts[3].as_str(), "ot") && same_text(parts[4].as_str(), protocol) && same_text(
        parts[5].as_str(),
        "cmd",
    ) {
        Some(parts)
    } else {
        None
    }
}

/// What a message asks for, given what its payload was read as (nothing where it is not JSON, as
/// with the empty message that clears a topic).
pub fn command_for(topic: &str, protocol: &str, request: Option<Json>) -> (r: Command)
    ensures
        r@ == command_of(topic@, protocol@, json::opt_json(request)),
{
    let parts = match command_parts(topic, protocol) {
        Some(p) => p,
        None => {
            return Command::Ignored;
        },
    };
    let ghost all = text::texts(parts@);
    let json = match request {
        Some(j) => j,
        None => {
            return Command::Ignored;
        },
    };
    let new = match json.get_text("status") {
        Some(s) => same_text(s, "init"),
        None => false,
    };
    if !new {
        return Command::Ignored;
    }
    assert(all[6] == parts@[6]@ && all[2] == parts@[2]@);
    let verb = parts[6].as_str();
    if is_management_verb(verb) {
        Command::Management { verb: String::from_str(verb), request: json }
    } else if same_text(verb, "write-batch") {
        Command::WriteBatch { device: parts[2].clone(), request: json }
    } else {
        let point = match json.get_text("point") {
            Some(p) => String::from_str(p),
            None => {
                let none = String::new();
                assert(none@ =~= Seq::empty());
                none
            },
        };
        let request = CommandRequest {
            point,
            value: own_member(&json, "value"),
            value_repr: own(json.get_text("value_repr")),
            raw: own(json.get_text("raw")),
        };
        Command::Execute { device: parts[2].clone(), verb: String::from_str(verb), request }
    }
}

/// What a message asks for.
pub fn route_command(topic: &str, protocol: &str, payload: &[u8]) -> (r: Command)
    ensures
        r@ == command_of(topic@, protocol@, json::json_of_bytes(payload@)),
{
    match command_parts(topic, protocol) {
        Some(_) => command_for(topic, protocol, parse_json(payload)),
        None => Command::Ignored,
    }
}

/// The answer that a write has begun.
pub open spec fn executing(topic: Seq<char>, point: Seq<char>) -> MessageView {
    message::retained(
        topic,
        seq![message::status_member("executing"@), ("point"@, JsonView::Text(point))],
    )
}

/// The answer that a write has begun.
pub fn executing_message(topic: &str, point: &str) -> (r: Message)
    ensures
        r@ == executing(topic@, point@),
{
    let mut members: Vec<(String, Json)> = Vec::new();
    push_member(&mut members, "status", Json::text("executing"));
    push_member(&mut members, "point", Json::text(point));
    assert(json::members_view(members@) =~= seq![
        message::status_member("executing"@),
        ("point"@, JsonView::Text(point@)),
    ]);
    retained_message(topic, members)
}

/// What a result says besides its point: the value and the raw bytes, where it has them.
pub open spec fn result_tail(result: ResultView) -> Seq<(Seq<char>, JsonView)> {
    let value = match result.value {
        Some(v) => seq![("value"@, v)],
        None => Seq::empty(),
    };
    let raw = match result.raw {
        Some(r) => seq![("raw"@, JsonView::Text(r))],
        None => Seq::empty(),
    };
    value + raw
}

/// Appends what a result says besides its point.
fn push_tail(members: &mut Vec<(String, Json)>, result: CommandResult)
    ensures
        json::members_view(final(members)@) == json::members_view(old(members)@) + result_tail(
            result@,
        ),
{
    let ghost before = json::members_view(members@);
    let ghost whole = result@;
    if let Some(v) = result.value {
        push_member(members, "value", v);
    }
    if let Some(r) = result.raw {
        push_member(members, "raw", Json::Text(r));
    }
    assert(json::members_view(members@) =~= before + result_tail(whole));
}

/// How a write is answered. A point that the module does not have is not answered at all: every
/// connector of a protocol hears every command, and another one may have that point on a device
/// of the same name. A failure published here would race its success.
pub open spec fn write_answer(
    topic: Seq<char>,
    point: Seq<char>,
    reply: Result<CommandResult, ConnectorError>,
    told: Seq<char>,
) -> Option<MessageView> {
    match reply {
        Ok(result) => Some(
            message::retained(
                topic,
                seq![
                    message::status_member("successful"@),
                    ("point"@, JsonView::Text(result@.point)),
                ] + result_tail(result@),
            ),
        ),
        Err(ConnectorError::UnknownPoint { .. }) => None,
        Err(_) => Some(
            message::retained(
                topic,
                seq![
                    message::status_member("failed"@),
                    ("point"@, JsonView::Text(point)),
                    ("reason"@, JsonView::Text(told)),
                ],
            ),
        ),
    }
}

/// What an optional message holds.
pub open spec fn opt_message(m: Option<Message>) -> Option<MessageView> {
    match m {
        Some(v) => Some(v@),
        None => None,
    }
}

/// The answer to a write of `point`, if any. `told` is what the module says of its failure.
pub fn answer_write(
    topic: &str,
    point: &str,
    reply: Result<CommandResult, ConnectorError>,
    told: &str,
) -> (r: Option<Message>)
    ensures
        opt_message(r) == write_answer(topic@, point@, reply, told@),
{
    let mut members: Vec<(String, Json)> = Vec::new();
    match reply {
        Ok(result) => {
            push_member(&mut members, "status", Json::text("successful"));
            push_member(&mut members, "point", Json::text(result.point.as_str()));
            assert(json::members_view(members@) =~= seq![
                message::status_member("successful"@),
                ("point"@, JsonView::Text(result@.point)),
            ]);
            push_tail(&mut members, result);
            Some(retained_message(topic, members))
        },
        Err(ConnectorError::UnknownPoint { .. }) => None,
        Err(_) => {
            push_member(&mut members, "status", Json::text("failed"));
            push_member(&mut members, "point", Json::text(point));
            push_member(&mut members, "reason", Json::text(told));
            assert(json::members_view(members@) =~= seq![
                message::status_member("failed"@),
                ("point"@, JsonView::Text(point@)),
                ("reason"@, JsonView::Text(told@)),
            ]);
            Some(retained_message(topic, members))
        },
    }
}

/// One write of a batch.
#[derive(Clone, Debug, PartialEq)]
pub struct BatchWrite {
    pub point: String,
    pub value: Option<Json>,
    pub raw: Option<String>,
}

/// What a [`BatchWrite`] holds.
#[verifier::ext_equal]
pub struct WriteView {
    pub point: Seq<char>,
    pub value: Option<JsonView>,
    pub raw: Option<Seq<char>>,
}

impl View for BatchWrite {
    type V = WriteView;

    open spec fn view(&self) -> WriteView {
        WriteView {
            point: self.point@,
            value: json::opt_json(self.value),
            raw: text::opt_text(self.raw),
        }
    }
}

/// What writes hold, one by one.
pub open spec fn write_views(writes: Seq<BatchWrite>) -> Seq<WriteView> {
    writes.map_values(|w: BatchWrite| w@)
}

/// What an entry of `writes` asks for, or why it cannot be done: it needs a point, and either a
/// value or raw bytes.
pub open spec fn write_of(entry: JsonView, place: nat) -> Result<WriteView, Seq<char>> {
    match entry.get_text("point"@) {
        Some(point) => if point.len() == 0 {
            Err("writes["@ + text::decimal(place) + "] has no `point`"@)
        } else {
            let value = match entry.get("value"@) {
                Some(JsonView::Null) => None,
                v => v,
            };
            let raw = entry.get_text("raw"@);
            if value is None && raw is None {
                Err(
                    "writes["@ + text::decimal(place) + "] ("@ + point
                        + ") has neither `value` nor `raw`"@,
                )
            } else {
                Ok(WriteView { point, value, raw })
            }
        },
        None => Err("writes["@ + text::decimal(place) + "] has no `point`"@),
    }
}

/// What the entries of `writes` ask for, or why the first bad one cannot be done.
pub open spec fn writes_of(entries: Seq<JsonView>) -> Result<Seq<WriteView>, Seq<char>>
    decreases entries.len(),
{
    if entries.len() == 0 {
        Ok(Seq::empty())
    } else {
        match writes_of(entries.drop_last()) {
            Err(e) => Err(e),
            Ok(before) => match write_of(entries.last(), (entries.len() - 1) as nat) {
                Err(e) => Err(e),
                Ok(w) => Ok(before.push(w)),
            },
        }
    }
}

/// What a `write-batch` request asks for. An empty one is refused, so that a malformed request
/// cannot succeed without touching the device.
pub open spec fn batch_of(request: JsonView) -> Result<Seq<WriteView>, Seq<char>> {
    match request.get("writes"@) {
        Some(JsonView::Array(entries)) => if entries.len() == 0 {
            Err("write-batch request has no writes"@)
        } else {
            writes_of(entries)
        },
        _ => Err("write-batch request needs a `writes` array"@),
    }
}

/// What a result of parsing writes holds.
pub open spec fn parsed(r: Result<Vec<BatchWrite>, String>) -> Result<Seq<WriteView>, Seq<char>> {
    match r {
        Ok(writes) => Ok(write_views(writes@)),
        Err(e) => Err(e@),
    }
}

/// What one parsed entry holds.
pub open spec fn parsed_one(r: Result<BatchWrite, String>) -> Result<WriteView, Seq<char>> {
    match r {
        Ok(w) => Ok(w@),
        Err(e) => Err(e@),
    }
}

/// Parses one entry of `writes`.
fn parse_write(entry: &Json, place: u64) -> (r: Result<BatchWrite, String>)
    ensures
        parsed_one(r) == write_of(entry@, place as nat),
{
    let point = match entry.get_text("point") {
        Some(p) if p.unicode_len() > 0 => String::from_str(p),
        _ => {
            return Err(joined("writes[", decimal_text(place).as_str(), "] has no `point`"));
        },
    };
    let value = match entry.get("value") {
        Some(Json::Null) => None,
        Some(v) => Some(v.clone()),
        None => None,
    };
    let raw = own(entry.get_text("raw"));
    if value.is_none() && raw.is_none() {
        let mut message = joined("writes[", decimal_text(place).as_str(), "] (");
        message.append(point.as_str());
        message.append(") has neither `value` nor `raw`");
        return Err(message);
    }
    Ok(BatchWrite { point, value, raw })
}

/// An error among the first entries is that of all.
proof fn lemma_writes_stop(entries: Seq<JsonView>, n: int)
    requires
        0 <= n <= entries.len(),
        writes_of(entries.take(n)) is Err,
    ensures
        writes_of(entries) == writes_of(entries.take(n)),
    decreases entries.len(),
{
    if n < entries.len() {
        let less = entries.drop_last();
        assert(less.take(n) =~= entries.take(n));
        lemma_writes_stop(less, n);
    } else {
        assert(entries.take(n) =~= entries);
    }
}

/// Parses the member `writes` of a `write-batch` request.
pub fn parse_batch_writes(request: &Json) -> (r: Result<Vec<BatchWrite>, String>)
    ensures
        parsed(r) == batch_of(request@),
{
    let entries = match request.get("writes") {
        Some(Json::Array(items)) => items,
        _ => {
            return Err(String::from_str("write-batch request needs a `writes` array"));
        },
    };
    if entries.len() == 0 {
        return Err(String::from_str("write-batch request has no writes"));
    }
    let ghost all = json::array_view(entries@);
    let mut out: Vec<BatchWrite> = Vec::new();
    assert(write_views(out@) =~= Seq::empty());
    let mut i: usize = 0;
    while i < entries.len()
        invariant
            0 <= i <= entries.len(),
            request@.get("writes"@) == Some(JsonView::Array(all)),
            all.len() > 0,
            all == json::array_view(entries@),
            writes_of(all.take(i as int)) == Ok::<Seq<WriteView>, Seq<char>>(write_views(out@)),
        decreases entries.len() - i,
    {
        assert(all.take(i + 1).drop_last() =~= all.take(i as int));
        assert(all[i as int] == entries@[i as int]@);
        match parse_write(&entries[i], i as u64) {
            Ok(w) => {
                let ghost before = write_views(out@);
                let ghost v = w@;
                out.push(w);
                assert(write_views(out@) =~= before.push(v));
            },
            Err(e) => {
                proof {
                    lemma_writes_stop(all, i + 1);
                }
                return Err(e);
            },
        }
        i += 1;
    }
    assert(all.take(i as int) =~= all);
    Ok(out)
}

/// True when a failure in a batch means that the batch is not for this connector: the module does
/// not have the point, and nothing was written yet. Once a write has succeeded, a point that the
/// module does not have is a failure of the request.
pub open spec fn foreign(error: ConnectorError, results_so_far: nat) -> bool {
    results_so_far == 0 && error is UnknownPoint
}

/// True when a failure in a batch means that the batch is not for this connector.
pub fn is_foreign_batch_point(error: &ConnectorError, results_so_far: usize) -> (r: bool)
    ensures
        r == foreign(*error, results_so_far as nat),
{
    match error {
        ConnectorError::UnknownPoint { .. } => results_so_far == 0,
        _ => false,
    }
}

/// The end of a batch: all results, and the first failure's reason where there was one.
pub open spec fn batch_end(failure: Option<Seq<char>>, results: Seq<JsonView>) -> Seq<
    (Seq<char>, JsonView),
> {
    match failure {
        None => seq![
            message::status_member("successful"@),
            ("results"@, JsonView::Array(results)),
        ],
        Some(reason) => seq![
            message::status_member("failed"@),
            ("reason"@, JsonView::Text(reason)),
            ("results"@, JsonView::Array(results)),
        ],
    }
}

/// The members of a batch's last answer.
fn batch_members(failure: Option<String>, results: Vec<Json>) -> (r: Vec<(String, Json)>)
    ensures
        json::members_view(r@) == batch_end(
            text::opt_text(failure),
            json::array_view(results@),
        ),
{
    let ghost wanted = batch_end(text::opt_text(failure), json::array_view(results@));
    let mut members: Vec<(String, Json)> = Vec::new();
    match failure {
        None => {
            push_member(&mut members, "status", Json::text("successful"));
        },
        Some(reason) => {
            push_member(&mut members, "status", Json::text("failed"));
            push_member(&mut members, "reason", Json::Text(reason));
        },
    }
    push_member(&mut members, "results", Json::Array(results));
    assert(json::members_view(members@) =~= wanted);
    members
}

/// The payload that ends a batch: `successful` with every result, or `failed` with the first
/// failure's reason and the results up to and with it.
pub fn batch_result(failure: Option<String>, results: Vec<Json>) -> (r: Json)
    ensures
        r@ == JsonView::Object(batch_end(text::opt_text(failure), json::array_view(results@))),
{
    Json::Object(batch_members(failure, results))
}

/// A batch under way: the writes run in the order of the request, and stop at the first failure.
pub struct BatchRun {
    writes: Vec<BatchWrite>,
    results: Vec<Json>,
    failure: Option<String>,
}

/// What a [`BatchRun`] holds.
#[verifier::ext_equal]
pub struct RunView {
    pub writes: Seq<WriteView>,
    /// One result for each write that was tried.
    pub results: Seq<JsonView>,
    /// Why the last one failed, if it did.
    pub failure: Option<Seq<char>>,
}

impl View for BatchRun {
    type V = RunView;

    closed spec fn view(&self) -> RunView {
        RunView {
            writes: write_views(self.writes@),
            results: json::array_view(self.results@),
            failure: text::opt_text(self.failure),
        }
    }
}

/// A value with a status.
pub open spec fn has_status(v: JsonView, status: Seq<char>) -> bool {
    v.get_text("status"@) == Some(status)
}

/// The result of a write that succeeded.
pub open spec fn success_of(result: ResultView) -> JsonView {
    JsonView::Object(
        seq![
            ("point"@, JsonView::Text(result.point)),
            message::status_member("successful"@),
        ] + result_tail(result),
    )
}

/// The reason of a write that failed.
pub open spec fn failure_reason(point: Seq<char>, told: Seq<char>) -> Seq<char> {
    "write to "@ + point + " failed: "@ + told
}

/// The result of a write that failed.
pub open spec fn failure_of(point: Seq<char>, reason: Seq<char>) -> JsonView {
    JsonView::Object(
        seq![
            ("point"@, JsonView::Text(point)),
            message::status_member("failed"@),
            ("reason"@, JsonView::Text(reason)),
        ],
    )
}

impl RunView {
    /// True when a write is left to try.
    pub open spec fn pending(self) -> bool {
        self.failure is None && self.results.len() < self.writes.len()
    }

    /// What the module is asked next.
    pub open spec fn request(self) -> Option<RequestView> {
        if self.pending() {
            let write = self.writes[self.results.len() as int];
            Some(
                RequestView {
                    point: write.point,
                    value: write.value,
                    value_repr: None,
                    raw: write.raw,
                },
            )
        } else {
            None
        }
    }

    /// After the module's reply, or nothing where the batch turned out not to be for this
    /// connector.
    pub open spec fn noted(
        self,
        reply: Result<CommandResult, ConnectorError>,
        told: Seq<char>,
    ) -> Option<RunView> {
        match reply {
            Ok(result) => Some(
                RunView { results: self.results.push(success_of(result@)), ..self },
            ),
            Err(error) => if foreign(error, self.results.len()) {
                None
            } else {
                let point = self.writes[self.results.len() as int].point;
                let reason = failure_reason(point, told);
                Some(
                    RunView {
                        results: self.results.push(failure_of(point, reason)),
                        failure: Some(reason),
                        ..self
                    },
                )
            },
        }
    }

    /// At most one result for each write; all of them successes, but for the last one where the
    /// batch has failed.
    pub open spec fn sound(self) -> bool {
        &&& self.results.len() <= self.writes.len()
        &&& forall|i: int|
            0 <= i < self.results.len() && (self.failure is None || i < self.results.len() - 1)
                ==> has_status(#[trigger] self.results[i], "successful"@)
        &&& self.failure matches Some(reason) ==> {
            &&& self.results.len() > 0
            &&& self.results.last() == failure_of(
                self.writes[self.results.len() - 1].point,
                reason,
            )
        }
    }
}

/// How a batch that cannot be parsed is answered.
pub open spec fn batch_refused(topic: Seq<char>, reason: Seq<char>) -> MessageView {
    message::retained(topic, batch_end(Some(reason), Seq::empty()))
}

/// The points of writes.
pub open spec fn points_of(writes: Seq<WriteView>) -> Seq<JsonView> {
    writes.map_values(|w: WriteView| JsonView::Text(w.point))
}

/// The answer that a batch has begun: it tells the points.
pub open spec fn batch_begun(topic: Seq<char>, writes: Seq<WriteView>) -> MessageView {
    message::retained(
        topic,
        seq![
            message::status_member("executing"@),
            ("points"@, JsonView::Array(points_of(writes))),
        ],
    )
}

/// The answer that a batch has begun.
fn begun_message(topic: &str, writes: &Vec<BatchWrite>) -> (r: Message)
    ensures
        r@ == batch_begun(topic@, write_views(writes@)),
{
    let ghost all = points_of(write_views(writes@));
    let mut points: Vec<Json> = Vec::new();
    assert(json::array_view(points@) =~= all.take(0));
    let mut i: usize = 0;
    while i < writes.len()
        invariant
            0 <= i <= writes.len(),
            all == points_of(write_views(writes@)),
            json::array_view(points@) == all.take(i as int),
        decreases writes.len() - i,
    {
        let ghost before = json::array_view(points@);
        points.push(Json::Text(writes[i].point.clone()));
        assert(all[i as int] == JsonView::Text(writes@[i as int].point@));
        assert(json::array_view(points@) =~= before.push(all[i as int]));
        assert(all.take(i + 1) =~= before.push(all[i as int]));
        i += 1;
    }
    assert(all.take(i as int) =~= all);
    let mut members: Vec<(String, Json)> = Vec::new();
    push_member(&mut members, "status", Json::text("executing"));
    push_member(&mut members, "points", Json::Array(points));
    assert(json::members_view(members@) =~= batch_begun(
        topic@,
        write_views(writes@),
    ).payload->Object_0);
    retained_message(topic, members)
}

/// Begins a batch: either it runs, and the answer tells its points, or it is refused, and the
/// answer tells why.
pub fn begin_batch(topic: &str, request: &Json) -> (r: (Message, Option<BatchRun>))
    ensures
        match batch_of(request@) {
            Ok(writes) => r.0@ == batch_begun(topic@, writes) && r.1 is Some && r.1->0@ == (
            RunView { writes, results: Seq::empty(), failure: None }),
            Err(reason) => r.0@ == batch_refused(topic@, reason) && r.1 is None,
        },
{
    match parse_batch_writes(request) {
        Ok(writes) => {
            let message = begun_message(topic, &writes);
            let run = BatchRun { writes, results: Vec::new(), failure: None };
            assert(run@.results =~= Seq::empty());
            (message, Some(run))
        },
        Err(reason) => {
            let none: Vec<Json> = Vec::new();
            assert(json::array_view(none@) =~= Seq::empty());
            (retained_message(topic, batch_members(Some(reason), none)), None)
        },
    }
}

/// The result of a write that succeeded.
fn success(result: CommandResult) -> (r: Json)
    ensures
        r@ == success_of(result@),
{
    let mut members: Vec<(String, Json)> = Vec::new();
    push_member(&mut members, "point", Json::text(result.point.as_str()));
    push_member(&mut members, "status", Json::text("successful"));
    assert(json::members_view(members@) =~= seq![
        ("point"@, JsonView::Text(result@.point)),
        message::status_member("successful"@),
    ]);
    push_tail(&mut members, result);
    Json::Object(members)
}

/// The result of a write that failed.
fn failure(point: &str, reason: &str) -> (r: Json)
    ensures
        r@ == failure_of(point@, reason@),
{
    let mut members: Vec<(String, Json)> = Vec::new();
    push_member(&mut members, "point", Json::text(point));
    push_member(&mut members, "status", Json::text("failed"));
    push_member(&mut members, "reason", Json::text(reason));
    assert(json::members_view(members@) =~= failure_of(point@, reason@)->Object_0);
    Json::Object(members)
}

impl BatchRun {
    /// What the module is asked next; nothing where the batch is done or has failed.
    pub fn next_request(&self) -> (r: Option<CommandRequest>)
        ensures
            match r {
                Some(request) => self@.request() == Some(request@),
                None => self@.request() is None,
            },
    {
        if self.failure.is_none() && self.results.len() < self.writes.len() {
            let write = &self.writes[self.results.len()];
            assert(self@.writes[self@.results.len() as int] == write@);
            Some(
                CommandRequest {
                    point: write.point.clone(),
                    value: json::copy_opt_json(&write.value),
                    value_repr: None,
                    raw: copy_opt(&write.raw),
                },
            )
        } else {
            None
        }
    }

    /// Notes the module's reply to the last request. `told` is what the module says of its
    /// failure. False where the batch turned out not to be for this connector: then nothing more
    /// is to be published.
    pub fn note(&mut self, reply: Result<CommandResult, ConnectorError>, told: &str) -> (r: bool)
        requires
            old(self)@.pending(),
        ensures
            match old(self)@.noted(reply, told@) {
                Some(after) => r && final(self)@ == after,
                None => !r && final(self)@ == old(self)@,
            },
    {
        let ghost before = self@;
        match reply {
            Ok(result) => {
                let ghost v = success_of(result@);
                self.results.push(success(result));
                assert(self@.results =~= before.results.push(v));
                true
            },
            Err(error) => if is_foreign_batch_point(&error, self.results.len()) {
                false
            } else {
                let point = self.writes[self.results.len()].point.clone();
                assert(before.writes[before.results.len() as int].point == point@);
                let mut reason = joined("write to ", point.as_str(), " failed: ");
                reason.append(told);
                let ghost v = failure_of(point@, reason@);
                self.results.push(failure(point.as_str(), reason.as_str()));
                self.failure = Some(reason);
                assert(self@.results =~= before.results.push(v));
                true
            },
        }
    }

    /// The answer that ends the batch.
    pub fn finish(self, topic: &str) -> (r: Message)
        ensures
            r@ == message::retained(topic@, batch_end(self@.failure, self@.results)),
    {
        retained_message(topic, batch_members(self.failure, self.results))
    }
}

/// The names of a result's members are three.
proof fn lemma_result_names()
    ensures
        "point"@ != "status"@,
{
    reveal_strlit("point");
    reveal_strlit("status");
    assert("point"@.len() != "status"@.len());
}

/// Every reply keeps a batch sound: it holds a result for each write that was tried, in order,
/// all successes up to the first failure, which ends it.
pub proof fn a_batch_stays_sound(
    run: RunView,
    reply: Result<CommandResult, ConnectorError>,
    told: Seq<char>,
)
    requires
        run.sound(),
        run.pending(),
    ensures
        run.noted(reply, told) matches Some(after) ==> {
            &&& after.sound()
            &&& after.writes == run.writes
            &&& after.results.len() == run.results.len() + 1
            &&& after.results.drop_last() == run.results
            &&& reply is Err ==> after.request() is None
        },
{
    lemma_result_names();
    if let Some(after) = run.noted(reply, told) {
        assert(after.results.drop_last() =~= run.results);
        let n = run.results.len() as int;
        if let Ok(result) = reply {
            let members = success_of(result@)->Object_0;
            assert(members[1] == message::status_member("successful"@));
            assert forall|j: int| 0 <= j < 1 implies (#[trigger] members[j]).0 != "status"@ by {
                assert(members[0].0 == "point"@);
            }
            json::lemma_key_index_unique(members, "status"@, 1);
            assert(has_status(after.results[n], "successful"@));
        }
        assert forall|i: int|
            0 <= i < after.results.len() && (after.failure is None || i < after.results.len()
                - 1) implies has_status(#[trigger] after.results[i], "successful"@) by {
            if i < n {
                assert(has_status(run.results[i], "successful"@));
            }
        }
    }
}

/// A batch that ends without a failure has written every point.
pub proof fn a_batch_without_failure_is_complete(run: RunView)
    requires
        run.sound(),
        run.request() is None,
        run.failure is None,
    ensures
        run.results.len() == run.writes.len(),
        forall|i: int|
            0 <= i < run.results.len() ==> has_status(#[trigger] run.results[i], "successful"@),
{
}

/// A batch is given up without an answer only before anything was written.
pub proof fn a_batch_is_foreign_only_at_its_start(
    run: RunView,
    reply: Result<CommandResult, ConnectorError>,
    told: Seq<char>,
)
    ensures
        run.noted(reply, told) is None ==> run.results.len() == 0 && reply is Err
            && reply->Err_0 is UnknownPoint,
{
}

/// Every write of a parsed batch names a point, and has a value or raw bytes.
pub proof fn parsed_writes_are_complete(entries: Seq<JsonView>)
    ensures
        writes_of(entries) matches Ok(writes) ==> {
            &&& writes.len() == entries.len()
            &&& forall|i: int|
                0 <= i < writes.len() ==> (#[trigger] writes[i]).point.len() > 0 && (
                writes[i].value is Some || writes[i].raw is Some)
        },
    decreases entries.len(),
{
    if entries.len() > 0 {
        parsed_writes_are_complete(entries.drop_last());
    }
}

/// An answer of the runtime, come back on the command's topic, is not taken for a request.
pub proof fn answers_are_not_requests(
    topic: Seq<char>,
    protocol: Seq<char>,
    members: Seq<(Seq<char>, JsonView)>,
    status: Seq<char>,
)
    requires
        members.len() > 0,
        members[0] == message::status_member(status),
        status == "executing"@ || status == "successful"@ || status == "failed"@,
    ensures
        command_of(topic, protocol, Some(JsonView::Object(members))) is Ignored,
{
    reveal_strlit("init");
    reveal_strlit("executing");
    reveal_strlit("successful");
    reveal_strlit("failed");
    assert("init"@.len() == 4 && "executing"@.len() == 9 && "successful"@.len() == 10
        && "failed"@.len() == 6);
    json::lemma_key_index_unique(members, "status"@, 0);
}

/// The topic of a command.
pub open spec fn command_topic(
    device: Seq<char>,
    protocol: Seq<char>,
    verb: Seq<char>,
    id: Seq<char>,
) -> Seq<char> {
    message::device_topic(device, protocol, "/cmd/"@) + verb + "/"@ + id
}

/// A topic made for a device and a verb is understood as being for them.
pub proof fn a_command_topic_reads_back(
    device: Seq<char>,
    protocol: Seq<char>,
    verb: Seq<char>,
    id: Seq<char>,
)
    requires
        text::without(device, '/'),
        text::without(protocol, '/'),
        text::without(verb, '/'),
        text::without(id, '/'),
    ensures
        ({
            let parts = text::split_seq(command_topic(device, protocol, verb, id), '/');
            is_command_topic(parts, protocol) && parts[2] == device && parts[6] == verb
        }),
{
    reveal_strlit("te/device/");
    reveal_strlit("/ot/");
    reveal_strlit("/cmd/");
    reveal_strlit("/");
    reveal_strlit("te");
    reveal_strlit("device");
    reveal_strlit("ot");
    reveal_strlit("cmd");
    let t0 = "te"@;
    let t1 = t0.push('/') + "device"@;
    let t2 = t1.push('/') + device;
    let t3 = t2.push('/') + "ot"@;
    let t4 = t3.push('/') + protocol;
    let t5 = t4.push('/') + "cmd"@;
    let t6 = t5.push('/') + verb;
    let t7 = t6.push('/') + id;
    text::lemma_split_plain(t0, '/');
    text::lemma_split_append(t0, "device"@, '/');
    text::lemma_split_append(t1, device, '/');
    text::lemma_split_append(t2, "ot"@, '/');
    text::lemma_split_append(t3, protocol, '/');
    text::lemma_split_append(t4, "cmd"@, '/');
    text::lemma_split_append(t5, verb, '/');
    text::lemma_split_append(t6, id, '/');
    assert("te/device/"@ =~= t1.push('/'));
    assert("/ot/"@ =~= seq!['/', 'o', 't', '/']);
    assert(t2 + "/ot/"@ =~= t3.push('/'));
    assert("/cmd/"@ =~= seq!['/', 'c', 'm', 'd', '/']);
    assert(t4 + "/cmd/"@ =~= t5.push('/'));
    assert(command_topic(device, protocol, verb, id) =~= t7);
}

/// The names of an answer's members are seven.
proof fn lemma_answer_names()
    ensures
        "status"@ != "point"@,
        "status"@ != "value"@,
        "status"@ != "raw"@,
        "status"@ != "reason"@,
        "status"@ != "results"@,
        "status"@ != "points"@,
        "point"@ != "value"@,
        "point"@ != "raw"@,
        "point"@ != "reason"@,
        "value"@ != "raw"@,
        "value"@ != "reason"@,
        "raw"@ != "reason"@,
        "reason"@ != "results"@,
{
    reveal_strlit("status");
    reveal_strlit("point");
    reveal_strlit("value");
    reveal_strlit("raw");
    reveal_strlit("reason");
    reveal_strlit("results");
    reveal_strlit("points");
    assert("status"@.len() == 6 && "point"@.len() == 5 && "value"@.len() == 5 && "raw"@.len() == 3
        && "reason"@.len() == 6 && "results"@.len() == 7 && "points"@.len() == 6);
    assert("status"@[0] == 's' && "reason"@[0] == 'r' && "points"@[0] == 'p');
    assert("point"@[0] == 'p' && "value"@[0] == 'v');
}

/// An entry of a batch that names a point is accepted where it has a value that is not null, or
/// raw bytes: with that value, whatever it is, and those bytes. Only where it has neither it is
/// refused.
pub proof fn a_write_keeps_its_value(entry: JsonView, place: nat, point: Seq<char>)
    requires
        entry.get("point"@) == Some(JsonView::Text(point)),
        point.len() > 0,
    ensures
        entry.get("value"@) is Some && entry.get("value"@) != Some(JsonView::Null) ==> write_of(
            entry,
            place,
        ) is Ok && write_of(entry, place)->Ok_0.value == entry.get("value"@),
        entry.get_text("raw"@) is Some ==> write_of(entry, place) is Ok,
        write_of(entry, place) matches Ok(w) ==> {
            &&& w.point == point
            &&& w.raw == entry.get_text("raw"@)
            &&& w.value is Some <==> entry.get("value"@) is Some && entry.get("value"@) != Some(
                JsonView::Null,
            )
            &&& w.value is Some ==> w.value == entry.get("value"@)
        },
        write_of(entry, place) is Err <==> (entry.get("value"@) is None || entry.get("value"@)
            == Some(JsonView::Null)) && entry.get_text("raw"@) is None,
        write_of(entry, place) matches Err(why) ==> why == "writes["@ + text::decimal(place)
            + "] ("@ + point + ") has neither `value` nor `raw`"@,
{
}

/// An entry of a batch that names no point is refused, and the refusal tells its place.
pub proof fn a_write_without_a_point_is_refused(entry: JsonView, place: nat)
    requires
        entry.get_text("point"@) is None || entry.get_text("point"@)->0.len() == 0,
    ensures
        write_of(entry, place) is Err,
        write_of(entry, place)->Err_0 == "writes["@ + text::decimal(place) + "] has no `point`"@,
{
}

/// A batch is accepted exactly where every entry is, and has then one write for each, in order.
/// Else it is refused for the first entry that is not.
pub proof fn a_batch_is_its_entries(entries: Seq<JsonView>)
    ensures
        writes_of(entries) is Ok <==> forall|i: int|
            0 <= i < entries.len() ==> write_of(#[trigger] entries[i], i as nat) is Ok,
        writes_of(entries) matches Ok(writes) ==> writes.len() == entries.len() && forall|i: int|
            0 <= i < entries.len() ==> write_of(#[trigger] entries[i], i as nat) == Ok::<
                WriteView,
                Seq<char>,
            >(writes[i]),
        writes_of(entries) matches Err(why) ==> exists|i: int|
            0 <= i < entries.len() && write_of(#[trigger] entries[i], i as nat) == Err::<
                WriteView,
                Seq<char>,
            >(why) && forall|j: int|
                0 <= j < i ==> write_of(#[trigger] entries[j], j as nat) is Ok,
    decreases entries.len(),
{
    if entries.len() > 0 {
        let less = entries.drop_last();
        let n = entries.len() - 1;
        a_batch_is_its_entries(less);
        assert forall|i: int| 0 <= i < n implies less[i] == #[trigger] entries[i] by {}
        match writes_of(less) {
            Err(why) => {
                let i = choose|i: int|
                    0 <= i < less.len() && write_of(#[trigger] less[i], i as nat) == Err::<
                        WriteView,
                        Seq<char>,
                    >(why) && forall|j: int|
                        0 <= j < i ==> write_of(#[trigger] less[j], j as nat) is Ok;
                assert(write_of(entries[i], i as nat) is Err);
                assert forall|j: int| 0 <= j < i implies write_of(
                    #[trigger] entries[j],
                    j as nat,
                ) is Ok by {
                    assert(write_of(less[j], j as nat) is Ok);
                }
            },
            Ok(before) => {
                assert forall|i: int| 0 <= i < n implies write_of(
                    #[trigger] entries[i],
                    i as nat,
                ) == Ok::<WriteView, Seq<char>>(before[i]) by {
                    assert(write_of(less[i], i as nat) == Ok::<WriteView, Seq<char>>(before[i]));
                }
                if write_of(entries[n], n as nat) is Err {
                    assert(entries.last() == entries[n]);
                }
            },
        }
    }
}

/// A batch needs an array of writes with something in it.
pub proof fn a_batch_needs_writes(request: JsonView, entries: Seq<JsonView>)
    ensures
        !(request.get("writes"@) is Some && request.get("writes"@)->0 is Array) ==> batch_of(
            request,
        ) == Err::<Seq<WriteView>, Seq<char>>("write-batch request needs a `writes` array"@),
        request.get("writes"@) == Some(JsonView::Array(entries)) && entries.len() == 0 ==> batch_of(
            request,
        ) == Err::<Seq<WriteView>, Seq<char>>("write-batch request has no writes"@),
        request.get("writes"@) == Some(JsonView::Array(entries)) && entries.len() > 0 ==> batch_of(
            request,
        ) == writes_of(entries),
{
}

/// What a result says besides its point, after what stands before it.
proof fn lemma_tail(before: Seq<(Seq<char>, JsonView)>, result: ResultView, key: Seq<char>)
    requires
        forall|i: int|
            0 <= i < before.len() ==> (#[trigger] before[i]).0 != "value"@ && before[i].0
                != "raw"@,
    ensures
        json::lookup(before + result_tail(result), "value"@) == result.value,
        json::lookup(before + result_tail(result), "raw"@) == match result.raw {
            Some(r) => Some(JsonView::Text(r)),
            None => None,
        },
        key != "value"@ && key != "raw"@ ==> json::lookup(before + result_tail(result), key)
            == json::lookup(before, key),
{
    lemma_answer_names();
    let all = before + result_tail(result);
    let n = before.len() as int;
    assert forall|i: int| 0 <= i < n implies #[trigger] all[i] == before[i] by {}
    let after = if result.value is Some {
        n + 1
    } else {
        n
    };
    if result.value is Some {
        assert(all[n] == ("value"@, result.value->0));
        json::lemma_key_index_unique(all, "value"@, n);
    } else {
        json::lemma_key_index_unique(all, "value"@, all.len() as int);
    }
    if result.raw is Some {
        assert(all[after] == ("raw"@, JsonView::Text(result.raw->0)));
        json::lemma_key_index_unique(all, "raw"@, after);
    } else {
        json::lemma_key_index_unique(all, "raw"@, all.len() as int);
    }
    if key != "value"@ && key != "raw"@ {
        json::lemma_key_index(before, key);
        let k = json::key_index(before, key);
        if k < n {
            assert forall|j: int| 0 <= j < k implies (#[trigger] all[j]).0 != key by {
                assert(before[j].0 != key);
            }
            json::lemma_key_index_unique(all, key, k);
        } else {
            assert forall|j: int| 0 <= j < all.len() implies (#[trigger] all[j]).0 != key by {
                if j < n {
                    assert(before[j].0 != key);
                }
            }
            json::lemma_key_index_unique(all, key, all.len() as int);
        }
    }
}

/// How a write is answered: a success with the point, the value and the raw bytes that the module
/// tells, a failure with the point that was asked for and the reason. Only a point that the
/// module does not have is not answered.
pub proof fn what_a_write_is_answered(
    topic: Seq<char>,
    point: Seq<char>,
    reply: Result<CommandResult, ConnectorError>,
    told: Seq<char>,
)
    ensures
        write_answer(topic, point, reply, told) is None <==> reply is Err
            && reply->Err_0 is UnknownPoint,
        write_answer(topic, point, reply, told) matches Some(answer) ==> {
            &&& answer.topic == topic
            &&& answer.retained
            &&& reply matches Ok(result) ==> {
                &&& answer.payload.get("status"@) == Some(JsonView::Text("successful"@))
                &&& answer.payload.get("point"@) == Some(JsonView::Text(result.point@))
                &&& answer.payload.get("value"@) == json::opt_json(result.value)
                &&& answer.payload.get_text("raw"@) == text::opt_text(result.raw)
                &&& answer.payload.get("reason"@) is None
            }
            &&& reply is Err ==> {
                &&& answer.payload.get("status"@) == Some(JsonView::Text("failed"@))
                &&& answer.payload.get("point"@) == Some(JsonView::Text(point))
                &&& answer.payload.get("reason"@) == Some(JsonView::Text(told))
            }
        },
{
    lemma_answer_names();
    if let Some(answer) = write_answer(topic, point, reply, told) {
        let members = answer.payload->Object_0;
        match reply {
            Ok(result) => {
                let before = seq![
                    message::status_member("successful"@),
                    ("point"@, JsonView::Text(result@.point)),
                ];
                json::the_first_member_of_a_name_counts(before, 0);
                json::the_first_member_of_a_name_counts(before, 1);
                lemma_tail(before, result@, "status"@);
                lemma_tail(before, result@, "point"@);
                lemma_tail(before, result@, "reason"@);
                json::lemma_key_index_unique(before, "reason"@, 2);
            },
            Err(_) => {
                json::the_first_member_of_a_name_counts(members, 0);
                json::the_first_member_of_a_name_counts(members, 1);
                json::the_first_member_of_a_name_counts(members, 2);
            },
        }
    }
}

/// That a write has begun is told with its point, that a batch has begun with all its points in
/// order.
pub proof fn what_is_told_at_the_start(
    topic: Seq<char>,
    point: Seq<char>,
    writes: Seq<WriteView>,
    i: int,
)
    requires
        0 <= i < writes.len(),
    ensures
        executing(topic, point).topic == topic,
        executing(topic, point).retained,
        executing(topic, point).payload.get("status"@) == Some(JsonView::Text("executing"@)),
        executing(topic, point).payload.get("point"@) == Some(JsonView::Text(point)),
        batch_begun(topic, writes).topic == topic,
        batch_begun(topic, writes).retained,
        batch_begun(topic, writes).payload.get("status"@) == Some(JsonView::Text("executing"@)),
        batch_begun(topic, writes).payload.get("points"@) matches Some(JsonView::Array(points))
            && points.len() == writes.len() && points[i] == JsonView::Text(writes[i].point),
{
    lemma_answer_names();
    let one = executing(topic, point).payload->Object_0;
    json::the_first_member_of_a_name_counts(one, 0);
    json::the_first_member_of_a_name_counts(one, 1);
    let many = batch_begun(topic, writes).payload->Object_0;
    json::the_first_member_of_a_name_counts(many, 0);
    json::the_first_member_of_a_name_counts(many, 1);
}

/// A batch ends with all its results: successful where nothing failed, else failed, with the
/// reason. One that cannot be parsed is answered as failed without a result.
pub proof fn what_is_told_at_the_end(
    failure: Option<Seq<char>>,
    results: Seq<JsonView>,
    topic: Seq<char>,
    why: Seq<char>,
)
    ensures
        json::lookup(batch_end(failure, results), "results"@) == Some(JsonView::Array(results)),
        json::lookup(batch_end(failure, results), "status"@) == Some(
            JsonView::Text(
                if failure is None {
                    "successful"@
                } else {
                    "failed"@
                },
            ),
        ),
        json::lookup(batch_end(failure, results), "reason"@) == match failure {
            Some(reason) => Some(JsonView::Text(reason)),
            None => None,
        },
        batch_refused(topic, why).topic == topic,
        batch_refused(topic, why).payload == JsonView::Object(
            batch_end(Some(why), Seq::<JsonView>::empty()),
        ),
{
    lemma_answer_names();
    let members = batch_end(failure, results);
    json::the_first_member_of_a_name_counts(members, 0);
    json::the_first_member_of_a_name_counts(members, 1);
    if failure is Some {
        json::the_first_member_of_a_name_counts(members, 2);
    } else {
        json::lemma_key_index_unique(members, "reason"@, 2);
    }
}

/// A batch asks the module for its writes in order, each with its own point, value and raw bytes,
/// as long as none has failed.
pub proof fn a_batch_asks_for_its_writes_in_order(run: RunView)
    ensures
        run.request() is Some <==> run.failure is None && run.results.len() < run.writes.len(),
        run.request() matches Some(request) ==> {
            let write = run.writes[run.results.len() as int];
            &&& request.point == write.point
            &&& request.value == write.value
            &&& request.raw == write.raw
            &&& request.value_repr is None
        },
{
}

/// What a reply adds to a batch: a success says what the module told, a failure names the point
/// that was asked for, tells why, and ends the batch. A point that the module does not have ends
/// it without a trace, where nothing was written before.
pub proof fn what_a_reply_adds_to_a_batch(
    run: RunView,
    reply: Result<CommandResult, ConnectorError>,
    told: Seq<char>,
)
    requires
        run.failure is None,
        run.results.len() < run.writes.len(),
    ensures
        run.noted(reply, told) is None <==> run.results.len() == 0 && reply is Err
            && reply->Err_0 is UnknownPoint,
        run.noted(reply, told) matches Some(after) ==> {
            let point = run.writes[run.results.len() as int].point;
            let added = after.results.last();
            &&& after.writes == run.writes
            &&& after.results.len() == run.results.len() + 1
            &&& after.results.drop_last() == run.results
            &&& reply matches Ok(result) ==> {
                &&& after.failure is None
                &&& added.get("status"@) == Some(JsonView::Text("successful"@))
                &&& added.get("point"@) == Some(JsonView::Text(result.point@))
                &&& added.get("value"@) == json::opt_json(result.value)
                &&& added.get_text("raw"@) == text::opt_text(result.raw)
            }
            &&& reply is Err ==> {
                &&& after.failure == Some("write to "@ + point + " failed: "@ + told)
                &&& added.get("status"@) == Some(JsonView::Text("failed"@))
                &&& added.get("point"@) == Some(JsonView::Text(point))
                &&& added.get_text("reason"@) == after.failure
            }
        },
{
    lemma_answer_names();
    if let Some(after) = run.noted(reply, told) {
        assert(after.results.drop_last() =~= run.results);
        let added = after.results.last();
        match reply {
            Ok(result) => {
                let before = seq![
                    ("point"@, JsonView::Text(result@.point)),
                    message::status_member("successful"@),
                ];
                json::the_first_member_of_a_name_counts(before, 0);
                json::the_first_member_of_a_name_counts(before, 1);
                lemma_tail(before, result@, "status"@);
                lemma_tail(before, result@, "point"@);
            },
            Err(_) => {
                let members = added->Object_0;
                json::the_first_member_of_a_name_counts(members, 0);
                json::the_first_member_of_a_name_counts(members, 1);
                json::the_first_member_of_a_name_counts(members, 2);
            },
        }
    }
}

/// What a new request on a command's topic asks for: the management verbs the configuration, with
/// the whole request, `write-batch` a batch on the device, and any other verb the module, with
/// the point, the value, its representation and the raw bytes as they were sent. What is no JSON,
/// or is not new, is ignored.
pub proof fn what_a_command_asks_for(
    device: Seq<char>,
    protocol: Seq<char>,
    verb: Seq<char>,
    id: Seq<char>,
    request: JsonView,
)
    requires
        text::without(device, '/'),
        text::without(protocol, '/'),
        text::without(verb, '/'),
        text::without(id, '/'),
    ensures
        ({
            let topic = "te/device/"@ + device + "/ot/"@ + protocol + "/cmd/"@ + verb + "/"@ + id;
            let asked = command_of(topic, protocol, Some(request));
            let managing = verb == "set-config"@ || verb == "define-device"@ || verb
                == "remove-device"@;
            &&& command_of(topic, protocol, None) is Ignored
            &&& request.get_text("status"@) != Some("init"@) ==> asked is Ignored
            &&& request.get_text("status"@) == Some("init"@) ==> {
                &&& managing ==> asked == (CommandView::Management { verb, request })
                &&& !managing && verb == "write-batch"@ ==> asked == (CommandView::WriteBatch {
                    device,
                    request,
                })
                &&& !managing && verb != "write-batch"@ ==> {
                    &&& asked is Execute
                    &&& asked->Execute_device == device
                    &&& asked->Execute_verb == verb
                    &&& asked->Execute_request.value == request.get("value"@)
                    &&& asked->Execute_request.value_repr == request.get_text("value_repr"@)
                    &&& asked->Execute_request.raw == request.get_text("raw"@)
                    &&& request.get_text("point"@) matches Some(point) ==>
                        asked->Execute_request.point == point
                    &&& request.get_text("point"@) is None ==> asked->Execute_request.point.len()
                        == 0
                }
            }
        }),
{
    a_command_topic_reads_back(device, protocol, verb, id);
    let topic = "te/device/"@ + device + "/ot/"@ + protocol + "/cmd/"@ + verb + "/"@ + id;
    assert(topic =~= command_topic(device, protocol, verb, id));
    management::the_management_verbs_are_three(verb);
}

/// A message on any other topic is ignored: one that has not eight parts, is of another protocol,
/// or has something else where a command's topic has `te`, `device`, `ot` and `cmd`.
pub proof fn other_topics_are_ignored(
    topic: Seq<char>,
    protocol: Seq<char>,
    request: Option<JsonView>,
)
    requires
        ({
            let parts = text::split_seq(topic, '/');
            ||| parts.len() != 8
            ||| parts[0] != "te"@
            ||| parts[1] != "device"@
            ||| parts[3] != "ot"@
            ||| parts[4] != protocol
            ||| parts[5] != "cmd"@
        }),
    ensures
        command_of(topic, protocol, request) is Ignored,
{
}

/// A batch is accepted where every entry names a point and has a value that is not null, or raw
/// bytes. Each write then has its entry's point, its value, whatever that is, and its raw bytes.
pub proof fn parse_batch_writes_keeps_the_entries(
    request: &Json,
    r: Result<Vec<BatchWrite>, String>,
    entries: Seq<JsonView>,
    i: int,
)
    requires
        call_ensures(parse_batch_writes, (request,), r),
        request@.get("writes"@) == Some(JsonView::Array(entries)),
        0 <= i < entries.len(),
    ensures
        r is Ok <==> forall|k: int|
            0 <= k < entries.len() ==> {
                let point = (#[trigger] entries[k]).get_text("point"@);
                let value = entries[k].get("value"@);
                &&& point is Some && point->0.len() > 0
                &&& (value is Some && value != Some(JsonView::Null)) || entries[k].get_text(
                    "raw"@,
                ) is Some
            },
        r matches Ok(writes) ==> {
            &&& writes@.len() == entries.len()
            &&& Some(writes@[i].point@) == entries[i].get_text("point"@)
            &&& text::opt_text(writes@[i].raw) == entries[i].get_text("raw"@)
            &&& entries[i].get("value"@) is Some && entries[i].get("value"@) != Some(
                JsonView::Null,
            ) ==> json::opt_json(writes@[i].value) == entries[i].get("value"@)
            &&& entries[i].get("value"@) is None || entries[i].get("value"@) == Some(
                JsonView::Null,
            ) ==> writes@[i].value is None
        },
{
    a_batch_needs_writes(request@, entries);
    a_batch_is_its_entries(entries);
    assert forall|k: int| 0 <= k < entries.len() implies ((write_of(
        #[trigger] entries[k],
        k as nat,
    ) is Ok) <==> {
        let point = entries[k].get_text("point"@);
        let value = entries[k].get("value"@);
        &&& point is Some && point->0.len() > 0
        &&& (value is Some && value != Some(JsonView::Null)) || entries[k].get_text(
            "raw"@,
        ) is Some
    }) by {
        match entries[k].get_text("point"@) {
            Some(point) if point.len() > 0 => {
                a_write_keeps_its_value(entries[k], k as nat, point);
            },
            _ => {
                a_write_without_a_point_is_refused(entries[k], k as nat);
            },
        }
    }
    if let Ok(writes) = r {
        let views = write_views(writes@);
        assert(writes_of(entries) == Ok::<Seq<WriteView>, Seq<char>>(views));
        assert(write_of(entries[i], i as nat) == Ok::<WriteView, Seq<char>>(views[i]));
        assert(views[i] == writes@[i]@);
        a_write_keeps_its_value(entries[i], i as nat, entries[i].get_text("point"@)->0);
    }
}

/// A command for the module has the value, the representation, the raw bytes and the point of the
/// request, and its device and verb are those of the topic.
pub proof fn command_for_keeps_the_request(
    topic: &str,
    protocol: &str,
    request: Json,
    r: Command,
)
    requires
        call_ensures(command_for, (topic, protocol, Some(request)), r),
    ensures
        r matches Command::Execute { device, verb, request: asked } ==> {
            let parts = text::split_seq(topic@, '/');
            &&& parts.len() == 8
            &&& device@ == parts[2]
            &&& verb@ == parts[6]
            &&& parts[4] == protocol@
            &&& request@.get_text("status"@) == Some("init"@)
            &&& json::opt_json(asked.value) == request@.get("value"@)
            &&& text::opt_text(asked.value_repr) == request@.get_text("value_repr"@)
            &&& text::opt_text(asked.raw) == request@.get_text("raw"@)
            &&& request@.get_text("point"@) is Some ==> request@.get_text("point"@) == Some(
                asked.point@,
            )
        },
        r matches Command::Management { verb, request: asked } ==> asked@ == request@ && (verb@
            == "set-config"@ || verb@ == "define-device"@ || verb@ == "remove-device"@),
        r matches Command::WriteBatch { device, request: asked } ==> asked@ == request@ && device@
            == text::split_seq(topic@, '/')[2],
{
    let parts = text::split_seq(topic@, '/');
    management::the_management_verbs_are_three(parts[6]);
    assert(r@ == command_of(topic@, protocol@, Some(request@)));
    match r {
        Command::Execute { device, verb, request: asked } => {
            assert(r@ == CommandView::Execute { device: device@, verb: verb@, request: asked@ });
        },
        _ => {},
    }
}

/// The answer to a write tells of a success what the module told, of a failure the point that was
/// asked for and the reason; and there is none only for a point that the module does not have.
pub proof fn answer_write_tells_the_result(
    topic: &str,
    point: &str,
    reply: Result<CommandResult, ConnectorError>,
    told: &str,
    r: Option<Message>,
)
    requires
        call_ensures(answer_write, (topic, point, reply, told), r),
    ensures
        r is None <==> reply is Err && reply->Err_0 is UnknownPoint,
        r matches Some(answer) ==> {
            &&& answer.retained
            &&& answer.topic@ == topic@
            &&& reply matches Ok(result) ==> {
                &&& answer.payload@.get("status"@) == Some(JsonView::Text("successful"@))
                &&& answer.payload@.get("point"@) == Some(JsonView::Text(result.point@))
                &&& answer.payload@.get("value"@) == json::opt_json(result.value)
                &&& answer.payload@.get_text("raw"@) == text::opt_text(result.raw)
            }
            &&& reply is Err ==> {
                &&& answer.payload@.get("status"@) == Some(JsonView::Text("failed"@))
                &&& answer.payload@.get("point"@) == Some(JsonView::Text(point@))
                &&& answer.payload@.get("reason"@) == Some(JsonView::Text(told@))
            }
        },
{
    what_a_write_is_answered(topic@, point@, reply, told@);
    if let Some(answer) = r {
        assert(answer@.payload == answer.payload@ && answer@.topic == answer.topic@);
    }
}

} // verus!

//! Messages and their topics.

use crate::json;
use crate::json::{push_member, Json, JsonView};
use crate::text::joined;
use vstd::prelude::*;
use vstd::string::*;

verus! {

/// A message for the broker.
#[derive(Debug)]
pub struct Message {
    pub topic: String,
    pub payload: Json,
    /// Whether the broker keeps it for those who subscribe later.
    pub retained: bool,
}

/// What a [`Message`] holds.
pub struct MessageView {
    pub topic: Seq<char>,
    pub payload: JsonView,
    pub retained: bool,
}

impl View for Message {
    type V = MessageView;

    open spec fn view(&self) -> MessageView {
        MessageView { topic: self.topic@, payload: self.payload@, retained: self.retained }
    }
}

/// A retained message of an object with these members.
pub open spec fn retained(topic: Seq<char>, members: Seq<(Seq<char>, JsonView)>) -> MessageView {
    MessageView { topic, payload: JsonView::Object(members), retained: true }
}

/// The topic under which a device has what `tail` says.
pub open spec fn device_topic(device: Seq<char>, protocol: Seq<char>, tail: Seq<char>) -> Seq<
    char,
> {
    "te/device/"@ + device + "/ot/"@ + protocol + tail
}

/// The topic under which a device has what `tail` says.
fn make_device_topic(device: &str, protocol: &str, tail: &str) -> (r: String)
    ensures
        r@ == device_topic(device@, protocol@, tail@),
{
    let mut topic = joined("te/device/", device, "/ot/");
    topic.append(protocol);
    topic.append(tail);
    topic
}

/// The topic of a device's link status.
pub open spec fn link_topic_of(device: Seq<char>, protocol: Seq<char>) -> Seq<char> {
    device_topic(device, protocol, "/status/link"@)
}

/// The topic of a device's link status.
pub fn link_topic(device: &str, protocol: &str) -> (r: String)
    ensures
        r@ == link_topic_of(device@, protocol@),
{
    make_device_topic(device, protocol, "/status/link")
}

/// The topic of a point's samples.
pub open spec fn sample_topic_of(device: Seq<char>, protocol: Seq<char>, point: Seq<char>) -> Seq<
    char,
> {
    device_topic(device, protocol, "/sample/"@) + point
}

/// The topic of a point's samples.
pub fn sample_topic(device: &str, protocol: &str, point: &str) -> (r: String)
    ensures
        r@ == sample_topic_of(device@, protocol@, point@),
{
    let mut topic = make_device_topic(device, protocol, "/sample/");
    topic.append(point);
    topic
}

/// What a service publishes about itself under `tail`.
pub open spec fn service_topic(service: Seq<char>, tail: Seq<char>) -> Seq<char> {
    "te/device/main/service/"@ + service + tail
}

/// The topic of a service's health.
pub fn health_topic(service: &str) -> (r: String)
    ensures
        r@ == service_topic(service@, "/status/health"@),
{
    joined("te/device/main/service/", service, "/status/health")
}

/// The topic of a service's capability descriptor.
pub fn capabilities_topic(service: &str) -> (r: String)
    ensures
        r@ == service_topic(service@, "/ot/capabilities"@),
{
    joined("te/device/main/service/", service, "/ot/capabilities")
}

/// The topics of all commands for a protocol: any device, any verb, any id.
pub fn command_filter(protocol: &str) -> (r: String)
    ensures
        r@ == "te/device/+/ot/"@ + protocol@ + "/cmd/+/+"@,
{
    joined("te/device/+/ot/", protocol, "/cmd/+/+")
}

/// The name under which a service is known to the broker.
pub fn client_id(service: &str, protocol: &str) -> (r: String)
    ensures
        r@ == service@ + "-"@ + protocol@,
{
    joined(service, "-", protocol)
}

/// A service's health: its status, and since when.
pub open spec fn health_members(status: Seq<char>, time: Seq<char>) -> Seq<(Seq<char>, JsonView)> {
    seq![("status"@, JsonView::Text(status)), ("time"@, JsonView::Text(time))]
}

/// The message that tells a service's health.
pub fn health_message(service: &str, status: &str, time: &str) -> (r: Message)
    ensures
        r@ == retained(
            service_topic(service@, "/status/health"@),
            health_members(status@, time@),
        ),
{
    let mut members: Vec<(String, Json)> = Vec::new();
    push_member(&mut members, "status", Json::text(status));
    push_member(&mut members, "time", Json::text(time));
    assert(json::members_view(members@) =~= health_members(status@, time@));
    Message { topic: health_topic(service), payload: Json::Object(members), retained: true }
}

/// A retained message of an object with these members.
pub fn retained_message(topic: &str, members: Vec<(String, Json)>) -> (r: Message)
    ensures
        r@ == retained(topic@, json::members_view(members@)),
{
    Message { topic: String::from_str(topic), payload: Json::Object(members), retained: true }
}

/// The first member of every answer to a command.
pub open spec fn status_member(status: Seq<char>) -> (Seq<char>, JsonView) {
    ("status"@, JsonView::Text(status))
}

/// An answer to a command that has nothing but a status.
pub fn status_message(topic: &str, status: &str) -> (r: Message)
    ensures
        r@ == retained(topic@, seq![status_member(status@)]),
{
    let mut members: Vec<(String, Json)> = Vec::new();
    push_member(&mut members, "status", Json::text(status));
    assert(json::members_view(members@) =~= seq![status_member(status@)]);
    retained_message(topic, members)
}

/// The answer to a command that failed.
pub open spec fn failed(topic: Seq<char>, reason: Seq<char>) -> MessageView {
    retained(topic, seq![status_member("failed"@), ("reason"@, JsonView::Text(reason))])
}

/// The answer to a command that failed.
pub fn failed_message(topic: &str, reason: &str) -> (r: Message)
    ensures
        r@ == failed(topic@, reason@),
{
    let mut members: Vec<(String, Json)> = Vec::new();
    push_member(&mut members, "status", Json::text("failed"));
    push_member(&mut members, "reason", Json::text(reason));
    assert(json::members_view(members@) =~= seq![
        status_member("failed"@),
        ("reason"@, JsonView::Text(reason@)),
    ]);
    retained_message(topic, members)
}

/// Where messages go: the link status and the samples of a device under the device and the
/// protocol, what a service says of itself under the service.
pub proof fn where_messages_go(
    device: Seq<char>,
    protocol: Seq<char>,
    point: Seq<char>,
    service: Seq<char>,
    tail: Seq<char>,
)
    ensures
        link_topic_of(device, protocol) == "te/device/"@ + device + "/ot/"@ + protocol
            + "/status/link"@,
        sample_topic_of(device, protocol, point) == "te/device/"@ + device + "/ot/"@ + protocol
            + "/sample/"@ + point,
        service_topic(service, tail) == "te/device/main/service/"@ + service + tail,
{
}

/// What a retained message is: the broker keeps it, and it is an object of just these members.
pub proof fn a_retained_message_is_kept(topic: Seq<char>, members: Seq<(Seq<char>, JsonView)>)
    ensures
        retained(topic, members).retained,
        retained(topic, members).topic == topic,
        retained(topic, members).payload == JsonView::Object(members),
{
}

/// The names in a failure and in a health message differ.
proof fn lemma_message_names()
    ensures
        "status"@ != "reason"@,
        "status"@ != "time"@,
{
    reveal_strlit("status");
    reveal_strlit("reason");
    reveal_strlit("time");
    assert("status"@[0] != "reason"@[0]);
    assert("status"@.len() != "time"@.len());
}

/// What messages say: a failure that it is one and why, a health message the status and the time.
pub proof fn what_messages_say(
    topic: Seq<char>,
    reason: Seq<char>,
    status: Seq<char>,
    time: Seq<char>,
)
    ensures
        failed(topic, reason).topic == topic,
        failed(topic, reason).retained,
        failed(topic, reason).payload.get("status"@) == Some(JsonView::Text("failed"@)),
        failed(topic, reason).payload.get("reason"@) == Some(JsonView::Text(reason)),
        json::lookup(health_members(status, time), "status"@) == Some(JsonView::Text(status)),
        json::lookup(health_members(status, time), "time"@) == Some(JsonView::Text(time)),
        status_member(status) == ("status"@, JsonView::Text(status)),
{
    lemma_message_names();
    let failure = failed(topic, reason).payload->Object_0;
    json::the_first_member_of_a_name_counts(failure, 0);
    json::the_first_member_of_a_name_counts(failure, 1);
    json::the_first_member_of_a_name_counts(health_members(status, time), 0);
    json::the_first_member_of_a_name_counts(health_members(status, time), 1);
}

/// Where a service tells its health and what it can do, where commands are listened for, and the
/// name that a service has with the broker.
pub proof fn the_topics_of_a_service(
    service: &str,
    protocol: &str,
    health: String,
    capabilities: String,
    filter: String,
    id: String,
)
    requires
        call_ensures(health_topic, (service,), health),
        call_ensures(capabilities_topic, (service,), capabilities),
        call_ensures(command_filter, (protocol,), filter),
        call_ensures(client_id, (service, protocol), id),
    ensures
        health@ == "te/device/main/service/"@ + service@ + "/status/health"@,
        capabilities@ == "te/device/main/service/"@ + service@ + "/ot/capabilities"@,
        filter@ == "te/device/+/ot/"@ + protocol@ + "/cmd/+/+"@,
        id@ == service@ + "-"@ + protocol@,
{
}

/// A health message and an answer that has nothing but a status are kept by the broker, and tell
/// just what they were given.
pub proof fn what_is_told_of_a_service(
    service: &str,
    topic: &str,
    status: &str,
    time: &str,
    health: Message,
    answer: Message,
)
    requires
        call_ensures(health_message, (service, status, time), health),
        call_ensures(status_message, (topic, status), answer),
    ensures
        health.retained,
        health.topic@ == "te/device/main/service/"@ + service@ + "/status/health"@,
        health.payload@.get("status"@) == Some(JsonView::Text(status@)),
        health.payload@.get("time"@) == Some(JsonView::Text(time@)),
        answer.retained,
        answer.topic@ == topic@,
        answer.payload@.get("status"@) == Some(JsonView::Text(status@)),
{
    what_messages_say(topic@, status@, status@, time@);
    let members = answer.payload@->Object_0;
    assert(answer@.payload == answer.payload@ && health@.payload == health.payload@);
    assert(members =~= seq![status_member(status@)]);
    json::the_first_member_of_a_name_counts(members, 0);
}

} // verus!

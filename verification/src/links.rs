//! The link status of each device: what is published of it, and when.

use crate::json;
use crate::json::{copy_opt_json, push_member, Json, JsonView};
use crate::message;
use crate::message::{link_topic, Message, MessageView};
use crate::model;
use crate::model::{ConnectorError, LinkReport, LinkStatus};
use crate::text;
use crate::text::{copy_opt, same_text};
use vstd::hash_map::StringHashMap;
use vstd::prelude::*;
use vstd::string::*;

verus! {

/// The link state to publish after a batch of reads, or none where nothing changed. A batch that
/// had a readable point connects; one that had none degrades a connected link, and says nothing
/// new of a device that was not connected.
pub open spec fn link_state_after(current: Option<LinkStatus>, healthy: bool) -> Option<
    LinkStatus,
> {
    if healthy {
        if current == Some(LinkStatus::Connected) {
            None
        } else {
            Some(LinkStatus::Connected)
        }
    } else if current == Some(LinkStatus::Connected) {
        Some(LinkStatus::Degraded)
    } else {
        None
    }
}

/// The link state to publish after a batch of reads, or none where nothing changed.
pub fn next_link_state(current: Option<LinkStatus>, healthy: bool) -> (r: Option<LinkStatus>)
    ensures
        r == link_state_after(current, healthy),
{
    match current {
        Some(LinkStatus::Connected) => if healthy {
            None
        } else {
            Some(LinkStatus::Degraded)
        },
        _ => if healthy {
            Some(LinkStatus::Connected)
        } else {
            None
        },
    }
}

/// What a [`LinkReport`] holds.
pub struct ReportView {
    pub device: Seq<char>,
    pub status: LinkStatus,
    pub reason: Option<Seq<char>>,
    pub info: Option<JsonView>,
}

impl View for LinkReport {
    type V = ReportView;

    open spec fn view(&self) -> ReportView {
        ReportView {
            device: self.device@,
            status: self.status,
            reason: text::opt_text(self.reason),
            info: json::opt_json(self.info),
        }
    }
}

/// What reports hold, one by one.
pub open spec fn report_views(reports: Seq<LinkReport>) -> Seq<ReportView> {
    reports.map_values(|r: LinkReport| r@)
}

/// What an optional report holds.
pub open spec fn opt_report(r: Option<LinkReport>) -> Option<ReportView> {
    match r {
        Some(v) => Some(v@),
        None => None,
    }
}

/// The last published link status of each device, and the last descriptor seen of it.
pub struct LinkTracker {
    protocol: String,
    states: StringHashMap<LinkStatus>,
    infos: StringHashMap<Json>,
}

/// What a [`LinkTracker`] knows.
#[verifier::ext_equal]
pub struct LinkView {
    pub protocol: Seq<char>,
    pub states: Map<Seq<char>, LinkStatus>,
    pub infos: Map<Seq<char>, JsonView>,
}

impl View for LinkTracker {
    type V = LinkView;

    closed spec fn view(&self) -> LinkView {
        LinkView {
            protocol: self.protocol@,
            states: self.states@,
            infos: self.infos@.map_values(|j: Json| j@),
        }
    }
}

impl LinkView {
    /// The status of a device, where one was published.
    pub open spec fn status(self, device: Seq<char>) -> Option<LinkStatus> {
        if self.states.contains_key(device) {
            Some(self.states[device])
        } else {
            None
        }
    }

    /// The descriptor of a device, where one was seen.
    pub open spec fn info(self, device: Seq<char>) -> Option<JsonView> {
        if self.infos.contains_key(device) {
            Some(self.infos[device])
        } else {
            None
        }
    }

    /// With a descriptor noted, where there is one.
    pub open spec fn stashed(self, device: Seq<char>, info: Option<JsonView>) -> LinkView {
        match info {
            Some(i) => LinkView { infos: self.infos.insert(device, i), ..self },
            None => self,
        }
    }

    /// With a report noted.
    pub open spec fn recorded(self, report: ReportView) -> LinkView {
        LinkView {
            states: self.states.insert(report.device, report.status),
            ..self.stashed(report.device, report.info)
        }
    }

    /// With reports noted, one after the other.
    pub open spec fn all_recorded(self, reports: Seq<ReportView>) -> LinkView
        decreases reports.len(),
    {
        if reports.len() == 0 {
            self
        } else {
            self.all_recorded(reports.drop_last()).recorded(reports.last())
        }
    }

    /// The report of a batch of reads, where it changed the status.
    pub open spec fn poll_report(
        self,
        device: Seq<char>,
        healthy: bool,
        reason: Option<Seq<char>>,
    ) -> Option<ReportView> {
        match link_state_after(self.status(device), healthy) {
            Some(status) => Some(
                ReportView { device, status, reason, info: self.info(device) },
            ),
            None => None,
        }
    }

    /// With the report of a batch of reads noted, where there is one.
    pub open spec fn polled(
        self,
        device: Seq<char>,
        healthy: bool,
        reason: Option<Seq<char>>,
    ) -> LinkView {
        match self.poll_report(device, healthy, reason) {
            Some(report) => self.recorded(report),
            None => self,
        }
    }
}

impl LinkTracker {
    /// A tracker that has seen nothing.
    pub fn new(protocol: &str) -> (r: Self)
        ensures
            r@.protocol == protocol@,
            r@.states == Map::<Seq<char>, LinkStatus>::empty(),
            r@.infos == Map::<Seq<char>, JsonView>::empty(),
    {
        let r = LinkTracker {
            protocol: String::from_str(protocol),
            states: StringHashMap::new(),
            infos: StringHashMap::new(),
        };
        assert(r@.infos =~= Map::<Seq<char>, JsonView>::empty());
        r
    }

    /// The status of a device, where one was published.
    pub fn status(&self, device: &str) -> (r: Option<LinkStatus>)
        ensures
            r == self@.status(device@),
    {
        match self.states.get(device) {
            Some(s) => Some(*s),
            None => None,
        }
    }

    /// The descriptor of a device, where one was seen.
    pub fn info(&self, device: &str) -> (r: Option<Json>)
        ensures
            json::opt_json(r) == self@.info(device@),
    {
        match self.infos.get(device) {
            Some(j) => Some(j.clone()),
            None => None,
        }
    }

    /// Notes a descriptor, where there is one, so that a later report carries it.
    pub fn stash_info(&mut self, device: &str, info: Option<Json>)
        ensures
            final(self)@ == old(self)@.stashed(device@, json::opt_json(info)),
    {
        let ghost before = self@;
        if let Some(j) = info {
            self.infos.insert(String::from_str(device), j);
            assert(self@.infos =~= before.infos.insert(device@, j@));
        }
    }

    /// Notes a report.
    pub fn record(&mut self, report: &LinkReport)
        ensures
            final(self)@ == old(self)@.recorded(report@),
    {
        self.stash_info(report.device.as_str(), copy_opt_json(&report.info));
        self.states.insert(report.device.clone(), report.status);
    }

    /// Notes reports, one after the other. Each of them is then to be published.
    pub fn record_reports(&mut self, reports: &Vec<LinkReport>)
        ensures
            final(self)@ == old(self)@.all_recorded(report_views(reports@)),
    {
        let ghost start = self@;
        let ghost all = report_views(reports@);
        let mut i: usize = 0;
        while i < reports.len()
            invariant
                0 <= i <= reports.len(),
                all == report_views(reports@),
                self@ == start.all_recorded(all.take(i as int)),
            decreases reports.len() - i,
        {
            assert(all.take(i + 1).drop_last() =~= all.take(i as int));
            assert(all[i as int] == reports@[i as int]@);
            self.record(&reports[i]);
            i += 1;
        }
        assert(all.take(i as int) =~= all);
    }

    /// Notes a report only when it changes the status, and says whether it did: then it is to be
    /// published. Attempts to reconnect repeat, and must not publish one status again and again.
    pub fn record_if_changed(&mut self, report: &LinkReport) -> (r: bool)
        ensures
            r == (old(self)@.status(report.device@) != Some(report.status)),
            final(self)@ == if r {
                old(self)@.recorded(report@)
            } else {
                old(self)@
            },
    {
        let unchanged = match self.status(report.device.as_str()) {
            Some(s) => s == report.status,
            None => false,
        };
        if unchanged {
            false
        } else {
            self.record(report);
            true
        }
    }

    /// Notes the outcome of a batch of reads (`healthy`: at least one point could be read), and
    /// gives the report to publish where the status changed.
    pub fn note_poll(&mut self, device: &str, healthy: bool, reason: Option<String>) -> (r: Option<
        LinkReport,
    >)
        ensures
            opt_report(r) == old(self)@.poll_report(device@, healthy, text::opt_text(reason)),
            final(self)@ == old(self)@.polled(device@, healthy, text::opt_text(reason)),
    {
        let status = match next_link_state(self.status(device), healthy) {
            Some(s) => s,
            None => {
                return None;
            },
        };
        let report = LinkReport {
            device: String::from_str(device),
            status,
            reason,
            info: self.info(device),
        };
        self.record(&report);
        Some(report)
    }

    /// The message that tells a report. `now` is the time.
    pub fn link_message(&self, report: &LinkReport, now: &str) -> (r: Message)
        ensures
            r@ == message_of(self@.protocol, report@, now@),
    {
        let mut members: Vec<(String, Json)> = Vec::new();
        push_member(&mut members, "status", Json::text(report.status.as_str()));
        if report.status == LinkStatus::Connected {
            push_member(&mut members, "since", Json::text(now));
        }
        if let Some(reason) = &report.reason {
            push_member(&mut members, "reason", Json::Text(reason.clone()));
        }
        if let Some(info) = &report.info {
            push_member(&mut members, "info", info.clone());
        }
        assert(json::members_view(members@) =~= link_members(report@, now@));
        Message {
            topic: link_topic(report.device.as_str(), self.protocol.as_str()),
            payload: Json::Object(members),
            retained: true,
        }
    }
}

/// What is published of a link: its status, since when it is connected, why it is not, and the
/// device descriptor.
pub open spec fn link_members(report: ReportView, now: Seq<char>) -> Seq<(Seq<char>, JsonView)> {
    let status = seq![("status"@, JsonView::Text(model::status_name(report.status)))];
    let since = if report.status == LinkStatus::Connected {
        seq![("since"@, JsonView::Text(now))]
    } else {
        Seq::empty()
    };
    let reason = match report.reason {
        Some(r) => seq![("reason"@, JsonView::Text(r))],
        None => Seq::empty(),
    };
    let info = match report.info {
        Some(i) => seq![("info"@, i)],
        None => Seq::empty(),
    };
    status + since + reason + info
}

/// The message that tells a report.
pub open spec fn message_of(protocol: Seq<char>, report: ReportView, now: Seq<char>) -> MessageView {
    message::retained(
        message::link_topic_of(report.device, protocol),
        link_members(report, now),
    )
}

/// What a reply to a reconnect attempt leads to.
pub enum Attempt {
    /// The attempt came to these reports.
    Reports(Vec<LinkReport>),
    /// The module cannot reconnect one device: connect all of them.
    ConnectAll,
    /// The attempt failed.
    Failed,
}

/// What the reply of the module's own reconnect leads to: where it does not support that, all
/// devices are connected.
pub fn after_reconnect(reply: Result<LinkReport, ConnectorError>) -> (r: Attempt)
    ensures
        match reply {
            Ok(report) => r matches Attempt::Reports(reports) && reports@ == seq![report],
            Err(ConnectorError::Unsupported(_)) => r is ConnectAll,
            Err(_) => r is Failed,
        },
{
    match reply {
        Ok(report) => {
            let mut reports: Vec<LinkReport> = Vec::new();
            reports.push(report);
            assert(reports@ =~= seq![report]);
            Attempt::Reports(reports)
        },
        Err(ConnectorError::Unsupported(_)) => Attempt::ConnectAll,
        Err(_) => Attempt::Failed,
    }
}

/// What the reply of connecting all devices leads to.
pub fn after_connect(reply: Result<Vec<LinkReport>, ConnectorError>) -> (r: Attempt)
    ensures
        match reply {
            Ok(reports) => r == Attempt::Reports(reports),
            Err(_) => r is Failed,
        },
{
    match reply {
        Ok(reports) => Attempt::Reports(reports),
        Err(_) => Attempt::Failed,
    }
}

/// What the reports of a reconnect attempt come to.
pub struct Absorbed {
    pub links: LinkView,
    /// Whether the device that was to be reconnected has its transport back.
    pub restored: bool,
    /// The reports to publish, in order.
    pub published: Seq<ReportView>,
}

impl LinkView {
    /// What the reports of an attempt to reconnect `device` come to.
    pub open spec fn absorbed(self, device: Seq<char>, reports: Seq<ReportView>) -> Absorbed
        decreases reports.len(),
    {
        if reports.len() == 0 {
            Absorbed { links: self, restored: false, published: Seq::empty() }
        } else {
            let before = self.absorbed(device, reports.drop_last());
            let report = reports.last();
            if report.status == LinkStatus::Connected {
                Absorbed {
                    links: before.links.stashed(report.device, report.info),
                    restored: before.restored || report.device == device,
                    published: before.published,
                }
            } else if before.links.status(report.device) != Some(report.status) {
                Absorbed {
                    links: before.links.recorded(report),
                    restored: before.restored,
                    published: before.published.push(report),
                }
            } else {
                before
            }
        }
    }
}

impl LinkView {
    /// The report of an attempt to reconnect that failed: the device is disconnected, for the
    /// reason that was told. It carries the last descriptor seen, so that the retained status
    /// keeps it.
    pub open spec fn failure_report(self, device: Seq<char>, told: Seq<char>) -> ReportView {
        ReportView {
            device,
            status: LinkStatus::Disconnected,
            reason: Some(told),
            info: self.info(device),
        }
    }
}

/// A copy of a report.
fn copy_report(report: &LinkReport) -> (r: LinkReport)
    ensures
        r@ == report@,
{
    LinkReport {
        device: report.device.clone(),
        status: report.status,
        reason: copy_opt(&report.reason),
        info: copy_opt_json(&report.info),
    }
}

impl LinkTracker {
    /// The report of an attempt to reconnect that failed. `told` is what the module says of it.
    pub fn failure_report(&self, device: &str, told: &str) -> (r: LinkReport)
        ensures
            r@ == self@.failure_report(device@, told@),
    {
        LinkReport {
            device: String::from_str(device),
            status: LinkStatus::Disconnected,
            reason: Some(String::from_str(told)),
            info: self.info(device),
        }
    }

    /// Takes in the reports of an attempt to reconnect `device`. Says whether its transport is
    /// back, and gives the reports to publish.
    ///
    /// A transport that is back is not published as connected: where the device still fails, the
    /// retained status would flap. The next batch of reads that succeeds publishes it, with the
    /// descriptor that was noted here. A device that is reported not to be connected is published
    /// once.
    pub fn absorb_reports(&mut self, device: &str, reports: &Vec<LinkReport>) -> (r: (
        bool,
        Vec<LinkReport>,
    ))
        ensures
            ({
                let out = old(self)@.absorbed(device@, report_views(reports@));
                final(self)@ == out.links && r.0 == out.restored && report_views(r.1@)
                    == out.published
            }),
    {
        let ghost start = self@;
        let ghost all = report_views(reports@);
        let mut restored = false;
        let mut published: Vec<LinkReport> = Vec::new();
        assert(report_views(published@) =~= Seq::empty());
        let mut i: usize = 0;
        while i < reports.len()
            invariant
                0 <= i <= reports.len(),
                all == report_views(reports@),
                self@ == start.absorbed(device@, all.take(i as int)).links,
                restored == start.absorbed(device@, all.take(i as int)).restored,
                report_views(published@) == start.absorbed(
                    device@,
                    all.take(i as int),
                ).published,
            decreases reports.len() - i,
        {
            let report = &reports[i];
            assert(all.take(i + 1).drop_last() =~= all.take(i as int));
            assert(all[i as int] == report@);
            if report.status == LinkStatus::Connected {
                if same_text(report.device.as_str(), device) {
                    restored = true;
                }
                self.stash_info(report.device.as_str(), copy_opt_json(&report.info));
            } else if self.record_if_changed(report) {
                let ghost before = report_views(published@);
                published.push(copy_report(report));
                assert(report_views(published@) =~= before.push(report@));
            }
            i += 1;
        }
        assert(all.take(i as int) =~= all);
        (restored, published)
    }
}

/// A report of a batch of reads never repeats the status that was published before.
pub proof fn a_transition_changes_the_status(current: Option<LinkStatus>, healthy: bool)
    ensures
        link_state_after(current, healthy) is Some ==> link_state_after(current, healthy)
            != current,
{
}

/// After a batch that had a readable point the device is connected; after one that had none it
/// is not.
pub proof fn health_decides_connected(
    links: LinkView,
    device: Seq<char>,
    healthy: bool,
    reason: Option<Seq<char>>,
)
    ensures
        links.polled(device, healthy, reason).status(device) == Some(LinkStatus::Connected)
            <==> healthy,
{
}

/// A device that was never connected is not published as degraded.
pub proof fn only_connected_links_degrade(
    links: LinkView,
    device: Seq<char>,
    reason: Option<Seq<char>>,
)
    requires
        links.status(device) != Some(LinkStatus::Connected),
    ensures
        links.poll_report(device, false, reason) is None,
        links.polled(device, false, reason) == links,
{
}

/// The same outcome twice is published once.
pub proof fn a_steady_outcome_is_published_once(
    links: LinkView,
    device: Seq<char>,
    healthy: bool,
    reason: Option<Seq<char>>,
    again: Option<Seq<char>>,
)
    ensures
        links.polled(device, healthy, reason).poll_report(device, healthy, again) is None,
{
}

/// A batch of reads says nothing of other devices.
pub proof fn a_poll_concerns_one_device(
    links: LinkView,
    device: Seq<char>,
    healthy: bool,
    reason: Option<Seq<char>>,
    other: Seq<char>,
)
    requires
        other != device,
    ensures
        links.polled(device, healthy, reason).status(other) == links.status(other),
        links.polled(device, healthy, reason).info(other) == links.info(other),
{
}

/// An attempt to reconnect never publishes that a device is connected, and no status becomes
/// connected by it.
pub proof fn reconnecting_publishes_no_connected(
    links: LinkView,
    device: Seq<char>,
    reports: Seq<ReportView>,
    any: Seq<char>,
)
    ensures
        forall|i: int|
            0 <= i < links.absorbed(device, reports).published.len() ==> (
            #[trigger] links.absorbed(device, reports).published[i]).status
                != LinkStatus::Connected,
        links.absorbed(device, reports).links.status(any) == Some(LinkStatus::Connected)
            ==> links.status(any) == Some(LinkStatus::Connected),
    decreases reports.len(),
{
    if reports.len() > 0 {
        reconnecting_publishes_no_connected(links, device, reports.drop_last(), any);
        let before = links.absorbed(device, reports.drop_last());
        let after = links.absorbed(device, reports);
        assert forall|i: int| 0 <= i < after.published.len() implies (
        #[trigger] after.published[i]).status != LinkStatus::Connected by {
            if i < before.published.len() {
                assert(after.published[i] == before.published[i]);
            }
        }
    }
}

/// A transport is back exactly when the attempt reported the device connected.
pub proof fn restored_means_reported_connected(
    links: LinkView,
    device: Seq<char>,
    reports: Seq<ReportView>,
)
    ensures
        links.absorbed(device, reports).restored <==> exists|i: int|
            0 <= i < reports.len() && (#[trigger] reports[i]).device == device && reports[i].status
                == LinkStatus::Connected,
    decreases reports.len(),
{
    if reports.len() > 0 {
        let less = reports.drop_last();
        let n = reports.len() - 1;
        restored_means_reported_connected(links, device, less);
        if links.absorbed(device, less).restored {
            let i = choose|i: int|
                0 <= i < less.len() && (#[trigger] less[i]).device == device && less[i].status
                    == LinkStatus::Connected;
            assert(reports[i].device == device);
        }
        if exists|i: int|
            0 <= i < reports.len() && (#[trigger] reports[i]).device == device
                && reports[i].status == LinkStatus::Connected {
            let i = choose|i: int|
                0 <= i < reports.len() && (#[trigger] reports[i]).device == device
                    && reports[i].status == LinkStatus::Connected;
            if i < n {
                assert(less[i].device == device);
            }
        }
    }
}

/// A descriptor that came with a reconnect is in the report that later says connected.
pub proof fn a_noted_descriptor_is_published(
    links: LinkView,
    device: Seq<char>,
    info: JsonView,
    reason: Option<Seq<char>>,
)
    requires
        links.status(device) != Some(LinkStatus::Connected),
    ensures
        links.stashed(device, Some(info)).poll_report(device, true, reason) == Some(
            ReportView { device, status: LinkStatus::Connected, reason, info: Some(info) },
        ),
{
}

/// A failure that repeats is published once.
pub proof fn a_repeated_failure_is_published_once(
    links: LinkView,
    device: Seq<char>,
    report: ReportView,
)
    requires
        report.status != LinkStatus::Connected,
    ensures
        links.absorbed(device, seq![report]).links.absorbed(
            device,
            seq![report],
        ).published.len() == 0,
{
    let once = links.absorbed(device, seq![report]).links;
    assert(seq![report].drop_last() =~= Seq::<ReportView>::empty());
    reveal_with_fuel(LinkView::absorbed, 2);
    assert(once.status(report.device) == Some(report.status));
}

/// What a batch of reads does to a link: a good one connects what was not connected, a bad one
/// degrades what was connected, and nothing else changes.
pub proof fn how_a_link_changes(current: Option<LinkStatus>)
    ensures
        link_state_after(current, true) == if current == Some(LinkStatus::Connected) {
            None
        } else {
            Some(LinkStatus::Connected)
        },
        link_state_after(Some(LinkStatus::Connected), false) == Some(LinkStatus::Degraded),
        current != Some(LinkStatus::Connected) ==> link_state_after(current, false) is None,
{
}

/// The report of a batch of reads is about its device: the status that the batch leads to, the
/// reason that was given, and the last descriptor seen. The status is noted, and the descriptor
/// stays.
pub proof fn what_a_poll_reports(
    links: LinkView,
    device: Seq<char>,
    healthy: bool,
    reason: Option<Seq<char>>,
)
    ensures
        links.poll_report(device, healthy, reason) is Some <==> (healthy && links.status(device)
            != Some(LinkStatus::Connected)) || (!healthy && links.status(device) == Some(
            LinkStatus::Connected,
        )),
        links.poll_report(device, healthy, reason) matches Some(report) ==> {
            &&& report.device == device
            &&& report.status == if healthy {
                LinkStatus::Connected
            } else {
                LinkStatus::Degraded
            }
            &&& report.reason == reason
            &&& report.info == links.info(device)
            &&& links.polled(device, healthy, reason).status(device) == Some(report.status)
        },
        links.poll_report(device, healthy, reason) is None ==> links.polled(
            device,
            healthy,
            reason,
        ) == links,
        links.polled(device, healthy, reason).info(device) == links.info(device),
        links.polled(device, healthy, reason).protocol == links.protocol,
{
}

/// What is noted of a report: the status and, where it has one, the descriptor of its device, and
/// nothing of another device.
pub proof fn what_is_noted_of_a_report(links: LinkView, report: ReportView, other: Seq<char>)
    ensures
        links.recorded(report).status(report.device) == Some(report.status),
        report.info is Some ==> links.recorded(report).info(report.device) == report.info,
        report.info is None ==> links.recorded(report).info(report.device) == links.info(
            report.device,
        ),
        other != report.device ==> links.recorded(report).status(other) == links.status(other)
            && links.recorded(report).info(other) == links.info(other),
        links.recorded(report).protocol == links.protocol,
        links.stashed(report.device, report.info).status(other) == links.status(other),
        report.info is Some ==> links.stashed(report.device, report.info).info(report.device)
            == report.info,
{
}

/// Of several reports of one device the last one's status stands.
pub proof fn the_last_report_stands(links: LinkView, reports: Seq<ReportView>, i: int)
    requires
        0 <= i < reports.len(),
        forall|j: int| i < j < reports.len() ==> (#[trigger] reports[j]).device
            != reports[i].device,
    ensures
        links.all_recorded(reports).status(reports[i].device) == Some(reports[i].status),
    decreases reports.len(),
{
    let n = reports.len() - 1;
    let less = reports.drop_last();
    what_is_noted_of_a_report(links.all_recorded(less), reports[n], reports[i].device);
    if i < n {
        assert(reports[n].device != reports[i].device);
        assert forall|j: int| i < j < less.len() implies (#[trigger] less[j]).device
            != less[i].device by {
            assert(reports[j].device != reports[i].device);
        }
        assert(less[i] == reports[i]);
        the_last_report_stands(links, less, i);
    }
}

/// What one more report of an attempt to reconnect does: one that says connected is noted with its
/// descriptor, and not published; any other is published, and its status noted, where that
/// changes the status.
pub proof fn what_a_report_of_an_attempt_does(
    links: LinkView,
    device: Seq<char>,
    reports: Seq<ReportView>,
    report: ReportView,
)
    ensures
        ({
            let before = links.absorbed(device, reports);
            let after = links.absorbed(device, reports.push(report));
            &&& report.status == LinkStatus::Connected ==> {
                &&& after.published == before.published
                &&& after.links.states == before.links.states
                &&& report.info is Some ==> after.links.info(report.device) == report.info
                &&& after.restored == (before.restored || report.device == device)
            }
            &&& report.status != LinkStatus::Connected ==> after.restored == before.restored
            &&& report.status != LinkStatus::Connected && before.links.status(report.device)
                != Some(report.status) ==> {
                &&& after.published == before.published.push(report)
                &&& after.links.status(report.device) == Some(report.status)
            }
            &&& report.status != LinkStatus::Connected && before.links.status(report.device)
                == Some(report.status) ==> after == before
            &&& links.absorbed(device, Seq::empty()).published.len() == 0
            &&& links.absorbed(device, Seq::empty()).links == links
            &&& !links.absorbed(device, Seq::empty()).restored
        }),
{
    let all = reports.push(report);
    assert(all.drop_last() =~= reports);
    assert(all.last() == report);
}

/// The names in a link status are four.
proof fn lemma_link_names()
    ensures
        "status"@ != "since"@,
        "status"@ != "reason"@,
        "status"@ != "info"@,
        "since"@ != "reason"@,
        "since"@ != "info"@,
        "reason"@ != "info"@,
{
    reveal_strlit("status");
    reveal_strlit("since");
    reveal_strlit("reason");
    reveal_strlit("info");
    assert("status"@.len() == 6 && "since"@.len() == 5 && "reason"@.len() == 6 && "info"@.len()
        == 4);
    assert("status"@[0] != "reason"@[0]);
}

/// What is published of a link: under the device's topic, and kept by the broker. It tells the
/// name of the status, the time where the link is connected and only there, the reason and the
/// descriptor where there are any.
pub proof fn what_is_published_of_a_link(
    protocol: Seq<char>,
    report: ReportView,
    now: Seq<char>,
)
    ensures
        ({
            let message = message_of(protocol, report, now);
            &&& message.retained
            &&& message.topic == "te/device/"@ + report.device + "/ot/"@ + protocol
                + "/status/link"@
            &&& message.payload.get("status"@) == Some(
                JsonView::Text(
                    match report.status {
                        LinkStatus::Connected => "connected"@,
                        LinkStatus::Degraded => "degraded"@,
                        LinkStatus::Disconnected => "disconnected"@,
                    },
                ),
            )
            &&& message.payload.get("since"@) == if report.status == LinkStatus::Connected {
                Some(JsonView::Text(now))
            } else {
                None
            }
            &&& message.payload.get_text("reason"@) == report.reason
            &&& message.payload.get("info"@) == report.info
        }),
{
    lemma_link_names();
    model::what_a_link_state_is_called(report.status);
    let members = link_members(report, now);
    let since: int = 1;
    let reason: int = if report.status == LinkStatus::Connected {
        2
    } else {
        1
    };
    let info: int = if report.reason is Some {
        reason + 1
    } else {
        reason
    };
    let end = members.len() as int;
    assert(members[0].0 == "status"@);
    if report.status == LinkStatus::Connected {
        assert(members[1] == ("since"@, JsonView::Text(now)));
    }
    if report.reason is Some {
        assert(members[reason] == ("reason"@, JsonView::Text(report.reason->0)));
    }
    if report.info is Some {
        assert(members[info] == ("info"@, report.info->0));
    }
    json::lemma_key_index_unique(members, "status"@, 0);
    json::lemma_key_index_unique(
        members,
        "since"@,
        if report.status == LinkStatus::Connected {
            1
        } else {
            end
        },
    );
    json::lemma_key_index_unique(
        members,
        "reason"@,
        if report.reason is Some {
            reason
        } else {
            end
        },
    );
    json::lemma_key_index_unique(
        members,
        "info"@,
        if report.info is Some {
            info
        } else {
            end
        },
    );
}

/// A failed attempt reports its device as disconnected, for the reason that was told.
pub proof fn what_a_failed_attempt_reports(links: LinkView, device: Seq<char>, told: Seq<char>)
    ensures
        links.failure_report(device, told).device == device,
        links.failure_report(device, told).status == LinkStatus::Disconnected,
        links.failure_report(device, told).reason == Some(told),
        links.failure_report(device, told).info == links.info(device),
{
}

/// What the message of a report tells: the status by its name, since when the link is connected
/// where it is, the reason and the descriptor.
pub proof fn link_message_tells_the_report(
    tracker: &LinkTracker,
    report: &LinkReport,
    now: &str,
    r: Message,
)
    requires
        call_ensures(LinkTracker::link_message, (tracker, report, now), r),
    ensures
        r.retained,
        r.topic@ == "te/device/"@ + report.device@ + "/ot/"@ + tracker@.protocol
            + "/status/link"@,
        r.payload@.get_text("status"@) == Some(
            match report.status {
                LinkStatus::Connected => "connected"@,
                LinkStatus::Degraded => "degraded"@,
                LinkStatus::Disconnected => "disconnected"@,
            },
        ),
        r.payload@.get_text("reason"@) == text::opt_text(report.reason),
        r.payload@.get("info"@) == json::opt_json(report.info),
        r.payload@.get("since"@) is Some <==> report.status == LinkStatus::Connected,
{
    what_is_published_of_a_link(tracker@.protocol, report@, now@);
    assert(r@.payload == r.payload@ && r@.topic == r.topic@ && r@.retained == r.retained);
}

} // verus!

//! One round of a connector's run: what a tick of the clock sets off.
//!
//! First the points that are due are read, device by device. After that the devices whose transport is
//! gone are reconnected, each once, where its time has come. A round tells which call of the
//! protocol module comes next, and takes the reply.

use crate::clock;
use crate::config::ConnectorConfig;
use crate::links;
use crate::links::{after_connect, after_reconnect, Attempt, LinkTracker, LinkView, ReportView};
use crate::model;
use crate::model::{ConnectorError, LinkReport, LinkStatus, PointRef, PointView};
use crate::reconnects;
use crate::samples::Reading;
use crate::schedule;
use crate::schedule::{push_request, DueBatch, EntryView};
use crate::session;
use crate::session::{to_resubscribe, Session};
use crate::text;
use std::time::Duration;
use vstd::prelude::*;
use vstd::string::*;

verus! {

/// What is to be done for a device beyond its reconnect.
#[derive(Clone, Copy, Debug, PartialEq, Eq, Structural)]
pub enum Still {
    Nothing,
    /// The module cannot reconnect one device: connect all of them.
    ConnectAll,
    /// The transport is back: set up push delivery again for the device at this position.
    Subscribe(usize),
}

/// One round.
pub struct Round {
    reads: Vec<DueBatch>,
    read: usize,
    marked: bool,
    devices: Vec<String>,
    tried: usize,
    still: Still,
}

/// What a [`Round`] holds.
#[verifier::ext_equal]
pub struct RoundView {
    /// The batches to read.
    pub reads: Seq<(int, Seq<PointView>)>,
    /// How many of them were read.
    pub read: int,
    /// Whether the reads are done and the progress was marked.
    pub marked: bool,
    /// The devices to reconnect.
    pub devices: Seq<Seq<char>>,
    /// How many of them were tried.
    pub tried: int,
    /// What is to be done for the device that is being tried.
    pub still: Still,
}

impl View for Round {
    type V = RoundView;

    closed spec fn view(&self) -> RoundView {
        RoundView {
            reads: schedule::batch_views(self.reads@),
            read: self.read as int,
            marked: self.marked,
            devices: text::texts(self.devices@),
            tried: self.tried as int,
            still: self.still,
        }
    }
}

/// What comes next in a round.
pub enum Task<'a> {
    /// Read this batch.
    Read(&'a DueBatch),
    /// Mark the progress: a supervisor watches for it.
    Mark,
    /// Reconnect this device.
    Reconnect(&'a str),
    /// Connect all devices, for this one's sake.
    ConnectAll(&'a str),
    /// Ask push delivery for the device at this position.
    Subscribe(usize),
    /// Nothing: the round is over.
    Rest,
}

/// What a [`Task`] holds.
pub enum TaskView {
    Read(int, Seq<PointView>),
    Mark,
    Reconnect(Seq<char>),
    ConnectAll(Seq<char>),
    Subscribe(int),
    Rest,
}

impl<'a> View for Task<'a> {
    type V = TaskView;

    open spec fn view(&self) -> TaskView {
        match self {
            Task::Read(batch) => TaskView::Read(
                batch.device_index as int,
                model::point_views(batch.points@),
            ),
            Task::Mark => TaskView::Mark,
            Task::Reconnect(device) => TaskView::Reconnect(device@),
            Task::ConnectAll(device) => TaskView::ConnectAll(device@),
            Task::Subscribe(index) => TaskView::Subscribe(*index as int),
            Task::Rest => TaskView::Rest,
        }
    }
}

impl RoundView {
    /// The reads come before the reconnects, and every position is one of the configuration.
    pub open spec fn wf(self, devices: nat) -> bool {
        &&& 0 <= self.read <= self.reads.len()
        &&& forall|i: int| 0 <= i < self.reads.len() ==> 0 <= (#[trigger] self.reads[i]).0 < devices
        &&& self.marked ==> self.read == self.reads.len()
        &&& 0 <= self.tried <= self.devices.len()
        &&& !self.marked ==> self.devices.len() == 0
        &&& self.still != Still::Nothing ==> self.tried < self.devices.len()
        &&& self.still matches Still::Subscribe(i) ==> i < devices
        &&& self.devices.no_duplicates()
    }

    /// What comes next.
    pub open spec fn task(self) -> TaskView {
        if self.read < self.reads.len() {
            TaskView::Read(self.reads[self.read].0, self.reads[self.read].1)
        } else if !self.marked {
            TaskView::Mark
        } else if self.tried < self.devices.len() {
            match self.still {
                Still::Nothing => TaskView::Reconnect(self.devices[self.tried]),
                Still::ConnectAll => TaskView::ConnectAll(self.devices[self.tried]),
                Still::Subscribe(i) => TaskView::Subscribe(i as int),
            }
        } else {
            TaskView::Rest
        }
    }

    /// After one more batch was read.
    pub open spec fn after_read(self) -> RoundView {
        RoundView { read: self.read + 1, ..self }
    }

    /// After the progress was marked.
    pub open spec fn after_mark(self, devices: Seq<Seq<char>>) -> RoundView {
        RoundView { marked: true, devices, ..self }
    }

    /// After it turned out that the module cannot reconnect one device.
    pub open spec fn asking_all(self) -> RoundView {
        RoundView { still: Still::ConnectAll, ..self }
    }

    /// After an attempt for a device: on to its push delivery, or to the next device.
    pub open spec fn after_attempt(self, again: Option<usize>) -> RoundView {
        match again {
            Some(i) => RoundView { still: Still::Subscribe(i), ..self },
            None => RoundView { still: Still::Nothing, tried: self.tried + 1, ..self },
        }
    }

    /// After push delivery was asked for again: on to the next device.
    pub open spec fn after_subscribe(self) -> RoundView {
        RoundView { still: Still::Nothing, tried: self.tried + 1, ..self }
    }

    /// How far a round is from its end: by its phase, and within the phase.
    pub open spec fn left(self) -> (nat, nat) {
        if self.read < self.reads.len() {
            (2, (self.reads.len() - self.read) as nat)
        } else if !self.marked {
            (1, 0)
        } else {
            let done: nat = match self.still {
                Still::Nothing => 0,
                Still::ConnectAll => 1,
                Still::Subscribe(_) => 2,
            };
            (0, (3 * (self.devices.len() - self.tried) - done) as nat)
        }
    }
}

/// The device to set up push delivery again for, after an attempt.
pub open spec fn resubscribed_at(
    config: ConnectorConfig,
    subscribe_capable: bool,
    restored: bool,
    device: Seq<char>,
) -> Option<int> {
    let i = session::position_of(config.devices@, device);
    if restored && subscribe_capable && i < config.devices@.len() {
        Some(i)
    } else {
        None
    }
}

/// An optional position.
pub open spec fn opt_position(i: Option<usize>) -> Option<int> {
    match i {
        Some(n) => Some(n as int),
        None => None,
    }
}

/// The device whose batch is being read.
pub open spec fn device_read(config: ConnectorConfig, round: RoundView) -> Seq<char> {
    config.devices@[round.reads[round.read].0].name@
}

/// True when nothing of a session but the waits differs.
pub open spec fn same_but_waits(a: Session, b: Session) -> bool {
    &&& a.schedule@ == b.schedule@
    &&& a.subscribed@ == b.subscribed@
    &&& a.index@ == b.index@
    &&& a.counters@ == b.counters@
}

impl Round {
    /// The reads come before the reconnects, and every position is one of the configuration.
    pub open spec fn wf(self, config: ConnectorConfig) -> bool {
        self@.wf(config.devices@.len())
    }

    /// A round that begins at `now`: the points that are due are to be read.
    pub fn begin(session: &mut Session, config: &ConnectorConfig, now: Duration) -> (r: Round)
        requires
            old(session).wf(*config),
            schedule::fits(schedule::entry_views(old(session).schedule@), clock::nanos(now)),
        ensures
            r.wf(*config),
            r@ == (RoundView {
                reads: schedule::gathered(
                    schedule::entry_views(old(session).schedule@),
                    clock::nanos(now),
                ),
                read: 0,
                marked: false,
                devices: Seq::empty(),
                tried: 0,
                still: Still::Nothing,
            }),
            final(session).wf(*config),
            schedule::entry_views(final(session).schedule@) == schedule::entry_views(
                old(session).schedule@,
            ).map_values(|e: EntryView| schedule::rescheduled(e, clock::nanos(now))),
            final(session).subscribed@ == old(session).subscribed@,
            final(session).index@ == old(session).index@,
            final(session).counters@ == old(session).counters@,
            final(session).reconnects@ == old(session).reconnects@,
    {
        let reads = session.take_due(config, now);
        let r = Round {
            reads,
            read: 0,
            marked: false,
            devices: Vec::new(),
            tried: 0,
            still: Still::Nothing,
        };
        assert(r@.devices =~= Seq::empty());
        assert forall|i: int| 0 <= i < r@.reads.len() implies 0 <= (#[trigger] r@.reads[i]).0
            < config.devices@.len() by {
            assert(r@.reads[i].0 == reads@[i].device_index);
        }
        r
    }

    /// What comes next.
    pub fn task(&self) -> (r: Task<'_>)
        ensures
            r@ == self@.task(),
    {
        if self.read < self.reads.len() {
            assert(self@.reads[self.read as int] == (
                self.reads@[self.read as int].device_index as int,
                model::point_views(self.reads@[self.read as int].points@),
            ));
            Task::Read(&self.reads[self.read])
        } else if !self.marked {
            Task::Mark
        } else if self.tried < self.devices.len() {
            assert(self@.devices[self.tried as int] == self.devices@[self.tried as int]@);
            match self.still {
                Still::Nothing => Task::Reconnect(self.devices[self.tried].as_str()),
                Still::ConnectAll => Task::ConnectAll(self.devices[self.tried].as_str()),
                Still::Subscribe(i) => Task::Subscribe(i),
            }
        } else {
            Task::Rest
        }
    }

    /// Takes what the points of the batch were read as, or why they could not be. Gives the
    /// report to publish where the link changed.
    pub fn on_read(
        &mut self,
        session: &mut Session,
        links: &mut LinkTracker,
        config: &ConnectorConfig,
        reply: Result<&Vec<Reading>, String>,
        now: Duration,
    ) -> (r: Option<LinkReport>)
        requires
            old(self).wf(*config),
            old(self)@.task() is Read,
            old(session).wf(*config),
            session::shows_failure(reply) ==> reconnects::can_begin(
                old(session).reconnects@,
                device_read(*config, old(self)@),
                clock::nanos(now),
            ),
        ensures
            final(self).wf(*config),
            final(self)@ == old(self)@.after_read(),
            final(session).wf(*config),
            same_but_waits(*final(session), *old(session)),
            ({
                let device = device_read(*config, old(self)@);
                let waits = old(session).reconnects@;
                match session::read_outcome(reply) {
                    None => r is None && final(links)@ == old(links)@
                        && final(session).reconnects@ == waits,
                    Some((healthy, reason)) => links::opt_report(r) == old(links)@.poll_report(
                        device,
                        healthy,
                        reason,
                    ) && final(links)@ == old(links)@.polled(device, healthy, reason)
                        && final(session).reconnects@ == session::waits_after(
                        waits,
                        device,
                        healthy,
                        clock::nanos(now),
                    ),
                }
            }),
    {
        assert(self@.reads[self.read as int].0 == self.reads@[self.read as int].device_index);
        let index = self.reads[self.read].device_index;
        let device = config.devices[index].name.as_str();
        assert(self.read < self.reads.len());
        self.read = self.read + 1;
        session.note_read(links, device, reply, now)
    }

    /// As [`Round::on_read`], for a run without a broker: the report is there to be logged, and no
    /// reading at all ends the wait too.
    pub fn on_read_logged(
        &mut self,
        session: &mut Session,
        links: &mut LinkTracker,
        config: &ConnectorConfig,
        reply: Result<&Vec<Reading>, String>,
        now: Duration,
    ) -> (r: Option<LinkReport>)
        requires
            old(self).wf(*config),
            old(self)@.task() is Read,
            old(session).wf(*config),
            session::shows_failure(reply) ==> reconnects::can_begin(
                old(session).reconnects@,
                device_read(*config, old(self)@),
                clock::nanos(now),
            ),
        ensures
            final(self).wf(*config),
            final(self)@ == old(self)@.after_read(),
            final(session).wf(*config),
            same_but_waits(*final(session), *old(session)),
            ({
                let device = device_read(*config, old(self)@);
                let waits = old(session).reconnects@;
                match session::read_outcome(reply) {
                    None => r is None && final(links)@ == old(links)@
                        && final(session).reconnects@ == waits.remove(device),
                    Some((healthy, reason)) => links::opt_report(r) == old(links)@.poll_report(
                        device,
                        healthy,
                        reason,
                    ) && final(links)@ == old(links)@.polled(device, healthy, reason)
                        && final(session).reconnects@ == session::waits_after(
                        waits,
                        device,
                        healthy,
                        clock::nanos(now),
                    ),
                }
            }),
    {
        assert(self@.reads[self.read as int].0 == self.reads@[self.read as int].device_index);
        let index = self.reads[self.read].device_index;
        let device = config.devices[index].name.as_str();
        assert(self.read < self.reads.len());
        self.read = self.read + 1;
        session.note_read_logged(links, device, reply, now)
    }
}

/// What an attempt to reconnect came to: whether the transport is back, and what is published.
/// An attempt that failed without a report is one that reports the device disconnected.
pub open spec fn attempted(
    links: LinkView,
    device: Seq<char>,
    reports: Option<Seq<ReportView>>,
    told: Seq<char>,
) -> links::Absorbed {
    match reports {
        Some(seq) => links.absorbed(device, seq),
        None => links.absorbed(device, seq![links.failure_report(device, told)]),
    }
}

/// What a reply to a reconnect came to: reports, nothing where it failed. Not for a reply that
/// the module cannot reconnect one device.
pub open spec fn reconnect_reports(reply: Result<LinkReport, ConnectorError>) -> Option<
    Seq<ReportView>,
> {
    match reply {
        Ok(report) => Some(seq![report@]),
        Err(_) => None,
    }
}

/// What a reply to connecting all devices came to.
pub open spec fn connect_reports(reply: Result<Vec<LinkReport>, ConnectorError>) -> Option<
    Seq<ReportView>,
> {
    match reply {
        Ok(reports) => Some(links::report_views(reports@)),
        Err(_) => None,
    }
}

impl Round {
    /// Takes note that the progress was marked. Now the devices come whose time has come.
    pub fn on_mark(&mut self, session: &Session, config: &ConnectorConfig, now: Duration)
        requires
            old(self).wf(*config),
            old(self)@.task() is Mark,
            session.reconnects.wf(),
        ensures
            final(self).wf(*config),
            final(self)@ == old(self)@.after_mark(final(self)@.devices),
            forall|device: Seq<char>|
                #![trigger session.reconnects@.contains_key(device)]
                final(self)@.devices.contains(device) <==> session.reconnects@.contains_key(
                    device,
                ) && session.reconnects@[device].due <= clock::nanos(now),
    {
        self.devices = session.reconnects.due(now);
        self.marked = true;
    }

    /// Takes in what an attempt for the device came to.
    fn finish_attempt(
        &mut self,
        session: &mut Session,
        links: &mut LinkTracker,
        config: &ConnectorConfig,
        subscribe_capable: bool,
        reports: Option<Vec<LinkReport>>,
        told: &str,
        now: Duration,
    ) -> (r: Vec<LinkReport>)
        requires
            old(self).wf(*config),
            old(self)@.task() is Reconnect || old(self)@.task() is ConnectAll,
            old(session).wf(*config),
            reconnects::can_re_arm(
                old(session).reconnects@,
                old(self)@.devices[old(self)@.tried],
                clock::nanos(now),
            ),
        ensures
            final(self).wf(*config),
            final(session).wf(*config),
            same_but_waits(*final(session), *old(session)),
            ({
                let device = old(self)@.devices[old(self)@.tried];
                let out = attempted(
                    old(links)@,
                    device,
                    match reports {
                        Some(v) => Some(links::report_views(v@)),
                        None => None,
                    },
                    told@,
                );
                let again = resubscribed_at(*config, subscribe_capable, out.restored, device);
                &&& final(links)@ == out.links
                &&& links::report_views(r@) == out.published
                &&& final(session).reconnects@ == reconnects::with_attempt(
                    old(session).reconnects@,
                    device,
                    clock::nanos(now),
                )
                &&& exists|i: Option<usize>|
                    #[trigger] opt_position(i) == again && final(self)@
                        == old(self)@.after_attempt(i)
            }),
    {
        assert(self@.devices[self.tried as int] == self.devices@[self.tried as int]@);
        assert(self.tried < self.devices.len());
        let device = self.devices[self.tried].as_str();
        let (restored, published) = match &reports {
            Some(v) => links.absorb_reports(device, v),
            None => {
                let mut failure: Vec<LinkReport> = Vec::new();
                failure.push(links.failure_report(device, told));
                assert(links::report_views(failure@) =~= seq![
                    links@.failure_report(device@, told@),
                ]);
                links.absorb_reports(device, &failure)
            },
        };
        session.reconnects.re_arm(device, now);
        let again = to_resubscribe(config, subscribe_capable, restored, device);
        match again {
            Some(i) => {
                self.still = Still::Subscribe(i);
            },
            None => {
                self.still = Still::Nothing;
                self.tried = self.tried + 1;
            },
        }
        assert(opt_position(again) == resubscribed_at(
            *config,
            subscribe_capable,
            restored,
            old(self)@.devices[old(self)@.tried],
        ));
        published
    }

    /// Takes the reply to the reconnect of a device. `told` is what the module says of its failure.
    /// Gives the reports to publish: an attempt that failed is published as disconnected, once.
    /// Where the module cannot reconnect one device, all are to be connected. A device whose
    /// transport is back has its push delivery set up again.
    pub fn on_reconnect(
        &mut self,
        session: &mut Session,
        links: &mut LinkTracker,
        config: &ConnectorConfig,
        subscribe_capable: bool,
        reply: Result<LinkReport, ConnectorError>,
        told: &str,
        now: Duration,
    ) -> (r: Vec<LinkReport>)
        requires
            old(self).wf(*config),
            old(self)@.task() is Reconnect,
            old(session).wf(*config),
            reply matches Err(ConnectorError::Unsupported(_)) || reconnects::can_re_arm(
                old(session).reconnects@,
                old(self)@.devices[old(self)@.tried],
                clock::nanos(now),
            ),
        ensures
            final(self).wf(*config),
            final(session).wf(*config),
            same_but_waits(*final(session), *old(session)),
            reply matches Err(ConnectorError::Unsupported(_)) ==> {
                &&& final(self)@ == old(self)@.asking_all()
                &&& final(links)@ == old(links)@
                &&& final(session).reconnects@ == old(session).reconnects@
                &&& r@.len() == 0
            },
            !(reply matches Err(ConnectorError::Unsupported(_))) ==> ({
                let device = old(self)@.devices[old(self)@.tried];
                let out = attempted(old(links)@, device, reconnect_reports(reply), told@);
                let again = resubscribed_at(*config, subscribe_capable, out.restored, device);
                &&& final(links)@ == out.links
                &&& links::report_views(r@) == out.published
                &&& final(session).reconnects@ == reconnects::with_attempt(
                    old(session).reconnects@,
                    device,
                    clock::nanos(now),
                )
                &&& exists|i: Option<usize>|
                    #[trigger] opt_position(i) == again && final(self)@
                        == old(self)@.after_attempt(i)
            }),
    {
        match after_reconnect(reply) {
            Attempt::ConnectAll => {
                self.still = Still::ConnectAll;
                Vec::new()
            },
            Attempt::Reports(reports) => {
                assert(links::report_views(reports@) =~= reconnect_reports(reply)->0);
                self.finish_attempt(
                    session,
                    links,
                    config,
                    subscribe_capable,
                    Some(reports),
                    told,
                    now,
                )
            },
            Attempt::Failed => self.finish_attempt(
                session,
                links,
                config,
                subscribe_capable,
                None,
                told,
                now,
            ),
        }
    }

    /// Takes the reply to connecting all devices for the sake of one. `told` is what the module
    /// says of its failure. Gives the reports to publish.
    pub fn on_connect_all(
        &mut self,
        session: &mut Session,
        links: &mut LinkTracker,
        config: &ConnectorConfig,
        subscribe_capable: bool,
        reply: Result<Vec<LinkReport>, ConnectorError>,
        told: &str,
        now: Duration,
    ) -> (r: Vec<LinkReport>)
        requires
            old(self).wf(*config),
            old(self)@.task() is ConnectAll,
            old(session).wf(*config),
            reconnects::can_re_arm(
                old(session).reconnects@,
                old(self)@.devices[old(self)@.tried],
                clock::nanos(now),
            ),
        ensures
            final(self).wf(*config),
            final(session).wf(*config),
            same_but_waits(*final(session), *old(session)),
            ({
                let device = old(self)@.devices[old(self)@.tried];
                let out = attempted(old(links)@, device, connect_reports(reply), told@);
                let again = resubscribed_at(*config, subscribe_capable, out.restored, device);
                &&& final(links)@ == out.links
                &&& links::report_views(r@) == out.published
                &&& final(session).reconnects@ == reconnects::with_attempt(
                    old(session).reconnects@,
                    device,
                    clock::nanos(now),
                )
                &&& exists|i: Option<usize>|
                    #[trigger] opt_position(i) == again && final(self)@
                        == old(self)@.after_attempt(i)
            }),
    {
        match after_connect(reply) {
            Attempt::Reports(reports) => self.finish_attempt(
                session,
                links,
                config,
                subscribe_capable,
                Some(reports),
                told,
                now,
            ),
            _ => self.finish_attempt(session, links, config, subscribe_capable, None, told, now),
        }
    }

    /// The points of the device that push delivery is to be asked for. Where it has none, nothing
    /// is asked: the schedule is built anew at once, and the round goes on.
    pub fn begin_subscribe(
        &mut self,
        session: &mut Session,
        config: &ConnectorConfig,
        subscribe_capable: bool,
        now: Duration,
    ) -> (r: Option<Vec<PointRef>>)
        requires
            old(self).wf(*config),
            old(self)@.task() is Subscribe,
            old(session).wf(*config),
        ensures
            final(self).wf(*config),
            final(session).wf(*config),
            ({
                let asked = schedule::push_asked(
                    *config,
                    subscribe_capable,
                    old(self)@.task()->Subscribe_0,
                );
                match r {
                    Some(points) => asked.len() > 0 && model::point_views(points@) == asked
                        && final(self)@ == old(self)@ && *final(session) == *old(session),
                    None => asked.len() == 0 && final(self)@ == old(self)@.after_subscribe()
                        && final(session).subscribed@ == old(session).subscribed@
                        && schedule::entry_views(final(session).schedule@) == schedule::jobs_of(
                        *config,
                        old(session).subscribed@,
                        clock::nanos(now),
                    ),
                }
            }),
            final(session).index@ == old(session).index@,
            final(session).counters@ == old(session).counters@,
            final(session).reconnects@ == old(session).reconnects@,
    {
        let index: usize = match self.still {
            Still::Subscribe(index) => index,
            _ => 0,
        };
        let points = push_request(config, subscribe_capable, index);
        assert(model::point_views(points@).len() == points@.len());
        if points.len() > 0 {
            Some(points)
        } else {
            let ghost before = session.subscribed@;
            self.on_subscribe(session, config, &points, &Ok(()), now);
            assert(session.subscribed@ =~= before);
            None
        }
    }

    /// Takes the reply to asking push delivery for `points` of the device, and builds the
    /// schedule anew.
    pub fn on_subscribe(
        &mut self,
        session: &mut Session,
        config: &ConnectorConfig,
        points: &Vec<PointRef>,
        reply: &Result<(), ConnectorError>,
        now: Duration,
    )
        requires
            old(self).wf(*config),
            old(self)@.task() is Subscribe,
            old(session).wf(*config),
        ensures
            final(self).wf(*config),
            final(self)@ == old(self)@.after_subscribe(),
            final(session).wf(*config),
            final(session).subscribed@ == schedule::settled(
                old(session).subscribed@,
                old(self)@.task()->Subscribe_0,
                model::point_views(points@),
                reply is Ok,
            ),
            schedule::entry_views(final(session).schedule@) == schedule::jobs_of(
                *config,
                final(session).subscribed@,
                clock::nanos(now),
            ),
            final(session).index@ == old(session).index@,
            final(session).counters@ == old(session).counters@,
            final(session).reconnects@ == old(session).reconnects@,
    {
        assert(self.tried < self.devices.len());
        if let Still::Subscribe(index) = self.still {
            session.resubscribe(config, index, points, reply, now);
        }
        self.still = Still::Nothing;
        self.tried = self.tried + 1;
    }
}

/// True when a round is nearer to its end than another.
pub open spec fn nearer(a: RoundView, b: RoundView) -> bool {
    a.left().0 < b.left().0 || (a.left().0 == b.left().0 && a.left().1 < b.left().1)
}

/// Every reply brings a round nearer to its end, whatever it is: no round goes on forever.
pub proof fn a_round_comes_to_rest(
    round: RoundView,
    devices: nat,
    due: Seq<Seq<char>>,
    again: Option<usize>,
)
    requires
        round.wf(devices),
    ensures
        round.task() is Read ==> nearer(round.after_read(), round),
        round.task() is Mark ==> nearer(round.after_mark(due), round),
        round.task() is Reconnect ==> nearer(round.asking_all(), round) && nearer(
            round.after_attempt(again),
            round,
        ),
        round.task() is ConnectAll ==> nearer(round.after_attempt(again), round),
        round.task() is Subscribe ==> nearer(round.after_subscribe(), round),
{
}

/// A round reads every batch once and in order, and only then goes on.
pub proof fn a_round_reads_every_batch(round: RoundView, devices: nat)
    requires
        round.wf(devices),
        !(round.task() is Read),
    ensures
        round.read == round.reads.len(),
{
}

/// A round that is over has tried every device that was due, each once.
pub proof fn a_round_tries_every_device(round: RoundView, devices: nat)
    requires
        round.wf(devices),
        round.task() is Rest,
    ensures
        round.tried == round.devices.len(),
        round.devices.no_duplicates(),
{
}

/// An attempt that failed leaves the device disconnected and does not bring its transport back.
/// It is published where the device was not disconnected before, and only the first time.
pub proof fn a_failed_attempt_is_published_once(
    links: LinkView,
    device: Seq<char>,
    told: Seq<char>,
    again: Seq<char>,
    other: Seq<char>,
)
    ensures
        ({
            let out = attempted(links, device, None, told);
            &&& !out.restored
            &&& out.links.status(device) == Some(LinkStatus::Disconnected)
            &&& out.published == if links.status(device) == Some(LinkStatus::Disconnected) {
                Seq::empty()
            } else {
                seq![links.failure_report(device, told)]
            }
            &&& attempted(out.links, device, None, again).published.len() == 0
            &&& other != device ==> out.links.status(other) == links.status(other)
            &&& out.links.info(device) == links.info(device)
        }),
{
    reveal_with_fuel(LinkView::absorbed, 2);
    let first = seq![links.failure_report(device, told)];
    assert(first.drop_last() =~= Seq::empty());
    let out = attempted(links, device, None, told);
    let second = seq![out.links.failure_report(device, again)];
    assert(second.drop_last() =~= Seq::empty());
    assert(out.published =~= if links.status(device) == Some(LinkStatus::Disconnected) {
        Seq::empty()
    } else {
        first
    });
}

/// A device whose transport is back has its push delivery set up again, where the module can push
/// and the device is configured: what was set up before died with the old transport.
pub proof fn a_restored_device_is_subscribed_again(
    round: RoundView,
    config: ConnectorConfig,
    device: Seq<char>,
    again: Option<usize>,
)
    requires
        round.wf(config.devices@.len()),
        round.task() == TaskView::Reconnect(device) || round.task() == TaskView::ConnectAll(
            device,
        ),
        session::position_of(config.devices@, device) < config.devices@.len(),
        opt_position(again) == resubscribed_at(config, true, true, device),
    ensures
        round.after_attempt(again).task() == TaskView::Subscribe(
            session::position_of(config.devices@, device),
        ),
{
}

/// A round reads its batches one after the other, marks the progress, and only after that tries
/// the devices, one after the other: first to reconnect each, and for it to connect all or to set
/// up push delivery where that has to be done.
pub proof fn what_comes_next_in_a_round(round: RoundView)
    ensures
        round.read < round.reads.len() ==> round.task() == TaskView::Read(
            round.reads[round.read].0,
            round.reads[round.read].1,
        ),
        round.read >= round.reads.len() && !round.marked ==> round.task() is Mark,
        round.read >= round.reads.len() && round.marked && round.tried < round.devices.len() ==> {
            let device = round.devices[round.tried];
            &&& round.still == Still::Nothing ==> round.task() == TaskView::Reconnect(device)
            &&& round.still == Still::ConnectAll ==> round.task() == TaskView::ConnectAll(device)
            &&& round.still matches Still::Subscribe(i) ==> round.task() == TaskView::Subscribe(
                i as int,
            )
        },
        round.read >= round.reads.len() && round.marked && round.tried >= round.devices.len()
            ==> round.task() is Rest,
{
}

/// What a reply changes in a round: a read goes on to the next batch, a mark tells the devices, and
/// an attempt goes on to the next device, unless all are to be connected for it or its push
/// delivery has to be set up first. Nothing else changes.
pub proof fn what_a_reply_changes_in_a_round(
    round: RoundView,
    devices: Seq<Seq<char>>,
    i: usize,
)
    ensures
        round.after_read() == (RoundView {
            reads: round.reads,
            read: round.read + 1,
            marked: round.marked,
            devices: round.devices,
            tried: round.tried,
            still: round.still,
        }),
        round.after_mark(devices) == (RoundView {
            reads: round.reads,
            read: round.read,
            marked: true,
            devices,
            tried: round.tried,
            still: round.still,
        }),
        round.asking_all().still == Still::ConnectAll,
        round.asking_all().tried == round.tried,
        round.after_attempt(Some(i)).still == Still::Subscribe(i),
        round.after_attempt(Some(i)).tried == round.tried,
        round.after_attempt(None).still == Still::Nothing,
        round.after_attempt(None).tried == round.tried + 1,
        round.after_subscribe().still == Still::Nothing,
        round.after_subscribe().tried == round.tried + 1,
        round.after_attempt(None).devices == round.devices,
        round.after_subscribe().devices == round.devices,
{
}

/// Push delivery is set up again for a device exactly where its transport is back, the module can
/// push, and the device is configured; then for the first device of that name.
pub proof fn when_push_is_set_up_again(
    config: ConnectorConfig,
    capable: bool,
    restored: bool,
    device: Seq<char>,
    i: int,
)
    requires
        0 <= i < config.devices@.len(),
        config.devices@[i].name@ == device,
        forall|j: int| 0 <= j < i ==> (#[trigger] config.devices@[j]).name@ != device,
    ensures
        resubscribed_at(config, capable, restored, device) == if capable && restored {
            Some(i)
        } else {
            None
        },
{
    session::a_device_is_found_by_its_name(config.devices@, device, i);
}

/// What an attempt tells: the report of the device, or those of all devices, as they came, and
/// nothing where it failed; a failure is then absorbed as one report that the device is
/// disconnected.
pub proof fn what_an_attempt_tells(
    one: LinkReport,
    all: Vec<LinkReport>,
    error: ConnectorError,
    links: LinkView,
    device: Seq<char>,
    told: Seq<char>,
)
    ensures
        reconnect_reports(Ok(one)) == Some(seq![one@]),
        reconnect_reports(Err(error)) is None,
        connect_reports(Ok(all)) matches Some(reports) && reports.len() == all@.len()
            && forall|i: int| 0 <= i < reports.len() ==> reports[i] == (#[trigger] all@[i])@,
        connect_reports(Err(error)) is None,
        attempted(links, device, Some(seq![one@]), told) == links.absorbed(device, seq![one@]),
        attempted(links, device, None, told) == links.absorbed(
            device,
            seq![
                ReportView {
                    device,
                    status: LinkStatus::Disconnected,
                    reason: Some(told),
                    info: links.info(device),
                },
            ],
        ),
{
}

/// A reply to a read is about the device whose batch was read.
pub proof fn a_read_is_about_its_device(config: ConnectorConfig, round: RoundView)
    requires
        round.task() is Read,
    ensures
        device_read(config, round) == config.devices@[round.task()->Read_0].name@,
{
}

/// What a reply leaves alone in a run: the schedule, the points that are pushed, what is added to
/// samples and how they are counted.
pub proof fn what_a_reply_leaves_alone(after: Session, before: Session)
    requires
        same_but_waits(after, before),
    ensures
        after.schedule@ == before.schedule@,
        after.subscribed@ == before.subscribed@,
        after.index@ == before.index@,
        after.counters@ == before.counters@,
{
}

} // verus!

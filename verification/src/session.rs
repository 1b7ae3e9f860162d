//! The state of a connector's run: what is read when, what is counted, and who waits.

use crate::clock;
use crate::config::{ConnectorConfig, DeviceConfig, PointConfig};
use crate::links;
use crate::links::LinkTracker;
use crate::model;
use crate::model::{ConnectorError, LinkReport, Mode, PointRef};
use crate::reconnects;
use crate::reconnects::{Reconnects, WaitView};
use crate::samples;
use crate::samples::{
    build_meta_index, find_error, some_usable, MetaIndex, Reading, SeqCounters,
};
use crate::schedule;
use crate::schedule::{
    build_schedule, subscribe_device, take_due, DueBatch, EntryView, ScheduleEntry, Subscribed,
};
use crate::text::same_text;
use std::time::Duration;
use vstd::prelude::*;
use vstd::string::*;

verus! {

/// The state of a connector's run.
pub struct Session {
    /// The jobs of the points that are polled.
    pub schedule: Vec<ScheduleEntry>,
    /// The points that are pushed.
    pub subscribed: Subscribed,
    /// What the configuration adds to samples.
    pub index: MetaIndex,
    /// How many samples of each point have gone out.
    pub counters: SeqCounters,
    /// The devices that wait for their transport.
    pub reconnects: Reconnects,
}

/// A job without its time.
pub open spec fn untimed(entry: EntryView) -> EntryView {
    EntryView { next_due: 0, ..entry }
}

/// Jobs without their times.
pub open spec fn all_untimed(entries: Seq<EntryView>) -> Seq<EntryView> {
    entries.map_values(|e: EntryView| untimed(e))
}

/// Whether reads of one device tell anything, and if so whether it is healthy: one reading of use
/// is enough, as a single bad point says nothing of the device.
pub open spec fn health_of(readings: Seq<Reading>) -> Option<bool> {
    if readings.len() == 0 {
        None
    } else {
        Some(samples::any_usable(readings))
    }
}

/// Why a device that answers is not healthy: the first error of its readings.
pub open spec fn reason_of(readings: Seq<Reading>) -> Option<Seq<char>> {
    if samples::any_usable(readings) {
        None
    } else {
        samples::first_error(readings)
    }
}

/// What a reply to a read tells of the device: whether it is healthy, and why not; nothing where
/// there was no reading.
pub open spec fn read_outcome(reply: Result<&Vec<Reading>, String>) -> Option<
    (bool, Option<Seq<char>>),
> {
    match reply {
        Ok(readings) => match health_of(readings@) {
            Some(healthy) => Some((healthy, reason_of(readings@))),
            None => None,
        },
        Err(reason) => Some((false, Some(reason@))),
    }
}

/// True when the reply to a read shows a device that is not healthy.
pub open spec fn shows_failure(reply: Result<&Vec<Reading>, String>) -> bool {
    read_outcome(reply) matches Some(outcome) && !outcome.0
}

/// The devices that wait, after a device was found healthy or not.
pub open spec fn waits_after(
    waits: Map<Seq<char>, WaitView>,
    device: Seq<char>,
    healthy: bool,
    now: nat,
) -> Map<Seq<char>, WaitView> {
    if healthy {
        waits.remove(device)
    } else {
        reconnects::with_waiting(waits, device, now)
    }
}

proof fn lemma_untimed_points(
    points: Seq<PointConfig>,
    index: int,
    mode: Option<Mode>,
    device: nat,
    subscribed: Set<(int, Seq<char>)>,
    now: nat,
)
    ensures
        all_untimed(schedule::point_jobs(points, index, mode, device, subscribed, now))
            == schedule::point_jobs(points, index, mode, device, subscribed, 0),
    decreases points.len(),
{
    if points.len() > 0 {
        lemma_untimed_points(points.drop_last(), index, mode, device, subscribed, now);
        let before = schedule::point_jobs(
            points.drop_last(),
            index,
            mode,
            device,
            subscribed,
            now,
        );
        let jobs = schedule::point_jobs(points, index, mode, device, subscribed, now);
        if !subscribed.contains((index, points.last().id@)) {
            assert(all_untimed(jobs) =~= all_untimed(before).push(untimed(jobs.last())));
        }
    }
    assert(all_untimed(schedule::point_jobs(points, index, mode, device, subscribed, now))
        =~= schedule::point_jobs(points, index, mode, device, subscribed, 0));
}

proof fn lemma_untimed_devices(
    devices: Seq<DeviceConfig>,
    connector: nat,
    subscribed: Set<(int, Seq<char>)>,
    now: nat,
)
    ensures
        all_untimed(schedule::device_jobs(devices, connector, subscribed, now))
            == schedule::device_jobs(devices, connector, subscribed, 0),
    decreases devices.len(),
{
    if devices.len() > 0 {
        let last = devices.last();
        lemma_untimed_devices(devices.drop_last(), connector, subscribed, now);
        lemma_untimed_points(
            last.points@,
            devices.len() - 1,
            last.default_mode,
            schedule::device_interval(last, connector),
            subscribed,
            now,
        );
        let before = schedule::device_jobs(devices.drop_last(), connector, subscribed, now);
        let added = schedule::point_jobs(
            last.points@,
            devices.len() - 1,
            last.default_mode,
            schedule::device_interval(last, connector),
            subscribed,
            now,
        );
        assert(all_untimed(before + added) =~= all_untimed(before) + all_untimed(added));
    }
    assert(all_untimed(schedule::device_jobs(devices, connector, subscribed, now))
        =~= schedule::device_jobs(devices, connector, subscribed, 0));
}

proof fn lemma_untimed_jobs(
    config: ConnectorConfig,
    subscribed: Set<(int, Seq<char>)>,
    now: nat,
)
    ensures
        all_untimed(schedule::jobs_of(config, subscribed, now)) == schedule::jobs_of(
            config,
            subscribed,
            0,
        ),
{
    lemma_untimed_devices(
        config.devices@,
        schedule::connector_interval(config.connector.poll_interval@),
        subscribed,
        now,
    );
}

impl Session {
    /// The schedule has a job for each point that is not pushed and for no other, and the index
    /// is that of the configuration.
    pub open spec fn wf(self, config: ConnectorConfig) -> bool {
        &&& all_untimed(schedule::entry_views(self.schedule@)) == schedule::jobs_of(
            config,
            self.subscribed@,
            0,
        )
        &&& self.index@ == samples::devices_indexed(config.devices@)
        &&& self.reconnects.wf()
    }

    /// A run that begins at `now`, with these points pushed. All others are due at once.
    pub fn start(config: &ConnectorConfig, subscribed: Subscribed, now: Duration) -> (r: Session)
        ensures
            r.wf(*config),
            r.subscribed@ == subscribed@,
            schedule::entry_views(r.schedule@) == schedule::jobs_of(
                *config,
                subscribed@,
                clock::nanos(now),
            ),
            r.counters@ == Map::<(Seq<char>, Seq<char>), u64>::empty(),
            r.reconnects@ == Map::<Seq<char>, WaitView>::empty(),
    {
        proof {
            lemma_untimed_jobs(*config, subscribed@, clock::nanos(now));
        }
        let schedule = build_schedule(config, &subscribed, now);
        Session {
            schedule,
            subscribed,
            index: build_meta_index(config),
            counters: SeqCounters::new(),
            reconnects: Reconnects::new(),
        }
    }
}

proof fn lemma_point_jobs_index(
    points: Seq<PointConfig>,
    index: int,
    mode: Option<Mode>,
    device: nat,
    subscribed: Set<(int, Seq<char>)>,
    now: nat,
)
    ensures
        forall|i: int|
            0 <= i < schedule::point_jobs(points, index, mode, device, subscribed, now).len() ==> (
            #[trigger] schedule::point_jobs(
                points,
                index,
                mode,
                device,
                subscribed,
                now,
            )[i]).device_index == index,
    decreases points.len(),
{
    if points.len() > 0 {
        lemma_point_jobs_index(points.drop_last(), index, mode, device, subscribed, now);
    }
}

proof fn lemma_jobs_in_range(
    devices: Seq<DeviceConfig>,
    connector: nat,
    subscribed: Set<(int, Seq<char>)>,
    now: nat,
)
    ensures
        forall|i: int|
            0 <= i < schedule::device_jobs(devices, connector, subscribed, now).len() ==> 0 <= (
            #[trigger] schedule::device_jobs(
                devices,
                connector,
                subscribed,
                now,
            )[i]).device_index < devices.len(),
    decreases devices.len(),
{
    if devices.len() > 0 {
        let last = devices.last();
        let before = schedule::device_jobs(devices.drop_last(), connector, subscribed, now);
        lemma_jobs_in_range(devices.drop_last(), connector, subscribed, now);
        lemma_point_jobs_index(
            last.points@,
            devices.len() - 1,
            last.default_mode,
            schedule::device_interval(last, connector),
            subscribed,
            now,
        );
        let jobs = schedule::device_jobs(devices, connector, subscribed, now);
        assert forall|i: int| 0 <= i < jobs.len() implies 0 <= (#[trigger] jobs[i]).device_index
            < devices.len() by {
            if i < before.len() {
                assert(jobs[i] == before[i]);
            }
        }
    }
}

proof fn lemma_gathered_in_range(entries: Seq<EntryView>, now: nat, bound: int)
    requires
        forall|i: int|
            0 <= i < entries.len() ==> 0 <= (#[trigger] entries[i]).device_index < bound,
    ensures
        forall|i: int|
            0 <= i < schedule::gathered(entries, now).len() ==> 0 <= (
            #[trigger] schedule::gathered(entries, now)[i]).0 < bound,
    decreases entries.len(),
{
    if entries.len() > 0 {
        let less = entries.drop_last();
        assert forall|i: int| 0 <= i < less.len() implies 0 <= (#[trigger] less[i]).device_index
            < bound by {
            assert(less[i] == entries[i]);
        }
        lemma_gathered_in_range(less, now, bound);
        let before = schedule::gathered(less, now);
        let after = schedule::gathered(entries, now);
        let entry = entries[entries.len() - 1];
        assert(0 <= entry.device_index < bound);
        schedule::lemma_batch_index(before, entry.device_index);
        assert forall|i: int| 0 <= i < after.len() implies 0 <= (#[trigger] after[i]).0 < bound by {
            if i < before.len() {
                assert(0 <= before[i].0 < bound);
            }
        }
    }
}

impl Session {
    /// Gathers the points that are due at `now`, by device, and sets their jobs an interval
    /// ahead. Each device of a batch is one of the configuration.
    pub fn take_due(&mut self, config: &ConnectorConfig, now: Duration) -> (r: Vec<DueBatch>)
        requires
            old(self).wf(*config),
            schedule::fits(schedule::entry_views(old(self).schedule@), clock::nanos(now)),
        ensures
            final(self).wf(*config),
            schedule::batch_views(r@) == schedule::gathered(
                schedule::entry_views(old(self).schedule@),
                clock::nanos(now),
            ),
            forall|i: int|
                0 <= i < r@.len() ==> (#[trigger] r@[i]).device_index < config.devices@.len(),
            schedule::entry_views(final(self).schedule@) == schedule::entry_views(
                old(self).schedule@,
            ).map_values(|e: EntryView| schedule::rescheduled(e, clock::nanos(now))),
            final(self).subscribed@ == old(self).subscribed@,
            final(self).index@ == old(self).index@,
            final(self).counters@ == old(self).counters@,
            final(self).reconnects@ == old(self).reconnects@,
    {
        let ghost before = schedule::entry_views(self.schedule@);
        let ghost jobs = schedule::jobs_of(*config, self.subscribed@, 0);
        proof {
            lemma_jobs_in_range(
                config.devices@,
                schedule::connector_interval(config.connector.poll_interval@),
                self.subscribed@,
                0,
            );
            assert forall|i: int| 0 <= i < before.len() implies 0 <= (
            #[trigger] before[i]).device_index < config.devices@.len() by {
                assert(all_untimed(before)[i] == untimed(before[i]));
                assert(jobs[i].device_index == before[i].device_index);
            }
            lemma_gathered_in_range(before, clock::nanos(now), config.devices@.len() as int);
        }
        let batches = take_due(&mut self.schedule, now);
        proof {
            let after = schedule::entry_views(self.schedule@);
            assert(all_untimed(after) =~= all_untimed(before));
            let views = schedule::batch_views(batches@);
            assert forall|i: int| 0 <= i < batches@.len() implies (
            #[trigger] batches@[i]).device_index < config.devices@.len() by {
                assert(views[i].0 == batches@[i].device_index);
            }
        }
        batches
    }

    /// Notes what the points of a device were read as, or why they could not be, and gives the
    /// report to publish where the link changed. A device that is healthy waits no more; one that
    /// is not begins to wait.
    pub fn note_read(
        &mut self,
        links: &mut LinkTracker,
        device: &str,
        reply: Result<&Vec<Reading>, String>,
        now: Duration,
    ) -> (r: Option<LinkReport>)
        requires
            old(self).reconnects.wf(),
            shows_failure(reply) ==> reconnects::can_begin(
                old(self).reconnects@,
                device@,
                clock::nanos(now),
            ),
        ensures
            final(self).reconnects.wf(),
            match read_outcome(reply) {
                None => r is None && final(links)@ == old(links)@ && final(self).reconnects@
                    == old(self).reconnects@,
                Some((healthy, reason)) => links::opt_report(r) == old(links)@.poll_report(
                    device@,
                    healthy,
                    reason,
                ) && final(links)@ == old(links)@.polled(device@, healthy, reason)
                    && final(self).reconnects@ == waits_after(
                    old(self).reconnects@,
                    device@,
                    healthy,
                    clock::nanos(now),
                ),
            },
            final(self).schedule@ == old(self).schedule@,
            final(self).subscribed@ == old(self).subscribed@,
            final(self).index@ == old(self).index@,
            final(self).counters@ == old(self).counters@,
    {
        match reply {
            Ok(readings) => if readings.len() == 0 {
                None
            } else if some_usable(readings) {
                let report = links.note_poll(device, true, None);
                self.reconnects.remove(device);
                report
            } else {
                let report = links.note_poll(device, false, find_error(readings));
                self.reconnects.begin(device, now);
                report
            },
            Err(reason) => {
                let report = links.note_poll(device, false, Some(reason));
                self.reconnects.begin(device, now);
                report
            },
        }
    }

    /// As [`Session::note_read`], for a run without a broker: the report is there to be logged,
    /// and no reading at all ends the wait too.
    pub fn note_read_logged(
        &mut self,
        links: &mut LinkTracker,
        device: &str,
        reply: Result<&Vec<Reading>, String>,
        now: Duration,
    ) -> (r: Option<LinkReport>)
        requires
            old(self).reconnects.wf(),
            shows_failure(reply) ==> reconnects::can_begin(
                old(self).reconnects@,
                device@,
                clock::nanos(now),
            ),
        ensures
            final(self).reconnects.wf(),
            final(self).reconnects@ == waits_after(
                old(self).reconnects@,
                device@,
                !shows_failure(reply),
                clock::nanos(now),
            ),
            match read_outcome(reply) {
                None => r is None && final(links)@ == old(links)@,
                Some((healthy, reason)) => links::opt_report(r) == old(links)@.poll_report(
                    device@,
                    healthy,
                    reason,
                ) && final(links)@ == old(links)@.polled(device@, healthy, reason),
            },
            final(self).schedule@ == old(self).schedule@,
            final(self).subscribed@ == old(self).subscribed@,
            final(self).index@ == old(self).index@,
            final(self).counters@ == old(self).counters@,
    {
        let silent = match &reply {
            Ok(readings) => readings.len() == 0,
            Err(_) => false,
        };
        if silent {
            self.reconnects.remove(device);
            None
        } else {
            self.note_read(links, device, reply, now)
        }
    }

    /// Notes the reply to asking push delivery for `points` of the device at `index`, and builds
    /// the schedule anew: a point that is not pushed any more has to be polled.
    pub fn resubscribe(
        &mut self,
        config: &ConnectorConfig,
        index: usize,
        points: &Vec<PointRef>,
        reply: &Result<(), ConnectorError>,
        now: Duration,
    ) -> (r: bool)
        requires
            old(self).wf(*config),
        ensures
            final(self).wf(*config),
            r == (reply is Ok),
            final(self).subscribed@ == schedule::settled(
                old(self).subscribed@,
                index as int,
                model::point_views(points@),
                reply is Ok,
            ),
            schedule::entry_views(final(self).schedule@) == schedule::jobs_of(
                *config,
                final(self).subscribed@,
                clock::nanos(now),
            ),
            final(self).index@ == old(self).index@,
            final(self).counters@ == old(self).counters@,
            final(self).reconnects@ == old(self).reconnects@,
    {
        let agreed = subscribe_device(&mut self.subscribed, index, points, reply);
        proof {
            lemma_untimed_jobs(*config, self.subscribed@, clock::nanos(now));
        }
        self.schedule = build_schedule(config, &self.subscribed, now);
        agreed
    }
}

/// The position of the first device called `name`, or the number of devices.
pub open spec fn position_of(
    devices: Seq<DeviceConfig>,
    name: Seq<char>,
) -> int
    decreases devices.len(),
{
    if devices.len() == 0 {
        0
    } else if devices.first().name@ == name {
        0
    } else {
        1 + position_of(devices.drop_first(), name)
    }
}

/// The position of the first device called `name`.
pub fn find_device(config: &ConnectorConfig, name: &str) -> (r: Option<usize>)
    ensures
        match r {
            Some(i) => i == position_of(config.devices@, name@) && i < config.devices@.len(),
            None => position_of(config.devices@, name@) == config.devices@.len(),
        },
{
    let ghost all = config.devices@;
    let mut i: usize = 0;
    assert(all.skip(0) =~= all);
    while i < config.devices.len()
        invariant
            0 <= i <= config.devices.len(),
            all == config.devices@,
            position_of(all, name@) == i + position_of(all.skip(i as int), name@),
        decreases config.devices.len() - i,
    {
        assert(all.skip(i as int).drop_first() =~= all.skip(i + 1));
        assert(all.skip(i as int).first() == all[i as int]);
        if same_text(config.devices[i].name.as_str(), name) {
            return Some(i);
        }
        i += 1;
    }
    None
}

/// The device whose push delivery has to be set up again after an attempt to reconnect it: what
/// was set up before died with the old transport. None where the transport is not back, or the
/// module cannot push.
pub fn to_resubscribe(
    config: &ConnectorConfig,
    subscribe_capable: bool,
    restored: bool,
    device: &str,
) -> (r: Option<usize>)
    ensures
        match r {
            Some(i) => restored && subscribe_capable && i == position_of(config.devices@, device@)
                && i < config.devices@.len(),
            None => !restored || !subscribe_capable || position_of(config.devices@, device@)
                == config.devices@.len(),
        },
{
    if restored && subscribe_capable {
        find_device(config, device)
    } else {
        None
    }
}

/// A device waits for its transport exactly as long as its reads fail: the first bad batch makes
/// it wait, and only a healthy one ends that.
pub proof fn only_healthy_reads_end_the_wait(
    waits: Map<Seq<char>, WaitView>,
    device: Seq<char>,
    healthy: bool,
    now: nat,
)
    ensures
        waits_after(waits, device, healthy, now).contains_key(device) <==> !healthy,
        reconnects::with_attempt(waits, device, now).contains_key(device) <==> waits.contains_key(
            device,
        ),
{
}

/// A device that waits keeps its backoff while its reads go on failing.
pub proof fn failing_reads_keep_the_backoff(
    waits: Map<Seq<char>, WaitView>,
    device: Seq<char>,
    now: nat,
)
    requires
        waits.contains_key(device),
    ensures
        waits_after(waits, device, false, now) == waits,
{
}

/// A single bad point does not make a device unhealthy.
pub proof fn one_usable_reading_is_enough(readings: Seq<Reading>, i: int)
    requires
        0 <= i < readings.len(),
        readings[i].quality != model::Quality::Bad,
    ensures
        health_of(readings) == Some(true),
{
    assert(samples::any_usable(readings));
}

/// Of one device's reads, no other device's wait is touched.
pub proof fn a_wait_concerns_one_device(
    waits: Map<Seq<char>, WaitView>,
    device: Seq<char>,
    healthy: bool,
    now: nat,
    other: Seq<char>,
)
    requires
        other != device,
    ensures
        waits_after(waits, device, healthy, now).contains_key(other) == waits.contains_key(other),
        waits.contains_key(other) ==> waits_after(waits, device, healthy, now)[other]
            == waits[other],
{
}

/// What a reply to a read tells: nothing where there is no reading, else whether one of them is
/// good or stale. Why a device is not healthy is the first error that a reading has, or what was
/// told where it could not be read at all; a healthy device has no reason.
pub proof fn what_a_read_tells(readings: &Vec<Reading>, told: String, i: int)
    ensures
        readings@.len() == 0 ==> read_outcome(Ok(readings)) is None && !shows_failure(
            Ok(readings),
        ),
        readings@.len() > 0 ==> (read_outcome(Ok(readings)) matches Some((healthy, reason)) && {
            &&& healthy <==> exists|k: int|
                0 <= k < readings@.len() && ((#[trigger] readings@[k]).quality
                    == model::Quality::Good || readings@[k].quality == model::Quality::Stale)
            &&& healthy ==> reason is None
            &&& !healthy && 0 <= i < readings@.len() && readings@[i].error is Some && (forall|
                j: int,
            |
                0 <= j < i ==> (#[trigger] readings@[j]).error is None) ==> reason == Some(
                readings@[i].error->0@,
            )
            &&& (forall|j: int|
                0 <= j < readings@.len() ==> (#[trigger] readings@[j]).error is None)
                ==> reason is None
            &&& shows_failure(Ok(readings)) <==> !healthy
        }),
        read_outcome(Err(told)) == Some((false, Some(told@))),
        shows_failure(Err(told)),
{
    samples::good_and_stale_readings_are_of_use(readings@);
    if 0 <= i < readings@.len() && readings@[i].error is Some && (forall|j: int|
        0 <= j < i ==> (#[trigger] readings@[j]).error is None) {
        samples::the_first_error_is_told(readings@, i);
    }
    if forall|j: int| 0 <= j < readings@.len() ==> (#[trigger] readings@[j]).error is None {
        samples::the_first_error_is_told(readings@, readings@.len() as int);
    }
}

/// In a sound run a configured point is polled exactly when it is not pushed, and samples are given
/// what the configuration says of their points.
pub proof fn a_sound_run_polls_what_is_not_pushed(
    run: Session,
    config: ConnectorConfig,
    device: int,
    id: Seq<char>,
)
    requires
        run.wf(config),
        0 <= device < config.devices@.len(),
        schedule::has_point(config.devices@[device].points@, id),
    ensures
        schedule::scheduled(schedule::entry_views(run.schedule@), device, id)
            <==> !run.subscribed@.contains((device, id)),
        run.index@ == samples::devices_indexed(config.devices@),
{
    let entries = schedule::entry_views(run.schedule@);
    let plain = all_untimed(entries);
    schedule::a_point_is_scheduled_unless_it_is_subscribed(
        config,
        run.subscribed@,
        0,
        device,
        id,
    );
    if schedule::scheduled(entries, device, id) {
        let i = choose|i: int|
            0 <= i < entries.len() && (#[trigger] entries[i]).device_index == device
                && entries[i].point.id == id;
        assert(plain[i].device_index == device && plain[i].point.id == id);
    }
    if schedule::scheduled(plain, device, id) {
        let i = choose|i: int|
            0 <= i < plain.len() && (#[trigger] plain[i]).device_index == device
                && plain[i].point.id == id;
        assert(entries[i].device_index == device && entries[i].point.id == id);
    }
}

/// Every job of a sound run reads a point that is configured and not pushed, as it is configured
/// and as often as it has to be.
pub proof fn a_sound_run_reads_configured_points(run: Session, config: ConnectorConfig, k: int)
    requires
        run.wf(config),
        0 <= k < run.schedule@.len(),
    ensures
        schedule::reads_unpushed(
            EntryView { next_due: 0, ..run.schedule@[k]@ },
            config,
            run.subscribed@,
            0,
        ),
{
    let entries = schedule::entry_views(run.schedule@);
    assert(all_untimed(entries)[k] == EntryView { next_due: 0, ..run.schedule@[k]@ });
    schedule::every_job_reads_a_configured_point(config, run.subscribed@, 0, k);
}

/// A device that is found not to be healthy is tried again after one second, and one that is
/// healthy is not tried again.
pub proof fn when_a_device_is_tried_again(
    waits: Map<Seq<char>, WaitView>,
    device: Seq<char>,
    now: nat,
)
    ensures
        !waits_after(waits, device, true, now).contains_key(device),
        !waits.contains_key(device) ==> waits_after(waits, device, false, now).contains_key(device)
            && waits_after(waits, device, false, now)[device].delay == clock::SECOND
            && waits_after(waits, device, false, now)[device].due == now + clock::SECOND,
{
}

/// A device is found at the first position that has its name.
pub proof fn a_device_is_found_by_its_name(
    devices: Seq<DeviceConfig>,
    name: Seq<char>,
    i: int,
)
    requires
        0 <= i <= devices.len(),
        i < devices.len() ==> devices[i].name@ == name,
        forall|j: int| 0 <= j < i ==> (#[trigger] devices[j]).name@ != name,
    ensures
        position_of(devices, name) == i,
    decreases devices.len(),
{
    if i > 0 {
        let rest = devices.drop_first();
        assert(devices[0].name@ != name);
        assert forall|j: int| 0 <= j < i - 1 implies (#[trigger] rest[j]).name@ != name by {
            assert(rest[j] == devices[j + 1]);
        }
        a_device_is_found_by_its_name(rest, name, i - 1);
    }
}

} // verus!

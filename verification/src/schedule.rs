//! Which points are pushed, which are polled, and when.

use crate::clock;
use crate::clock::{later, not_after, seconds};
use crate::config;
use crate::config::{
    parse_duration, parse_opt_duration, point_ref, ConnectorConfig, DeviceConfig, PointConfig,
};
use crate::model;
use crate::model::{ConnectorError, Mode, PointRef, PointView};
use crate::text::same_text;
use std::time::Duration;
use vstd::prelude::*;
use vstd::string::*;

verus! {

/// The points that are delivered by push, by the device's position and the point's id.
pub struct Subscribed {
    entries: Vec<(usize, String)>,
}

/// The pairs that a list holds.
pub open spec fn pairs_in(entries: Seq<(usize, String)>) -> Set<(int, Seq<char>)>
    decreases entries.len(),
{
    if entries.len() == 0 {
        Set::empty()
    } else {
        pairs_in(entries.drop_last()).insert((entries.last().0 as int, entries.last().1@))
    }
}

impl View for Subscribed {
    type V = Set<(int, Seq<char>)>;

    closed spec fn view(&self) -> Set<(int, Seq<char>)> {
        pairs_in(self.entries@)
    }
}

impl Subscribed {
    /// No point.
    pub fn new() -> (r: Self)
        ensures
            r@ == Set::<(int, Seq<char>)>::empty(),
    {
        Subscribed { entries: Vec::new() }
    }

    /// True when the point is delivered by push.
    pub fn contains(&self, device: usize, point: &str) -> (r: bool)
        ensures
            r == self@.contains((device as int, point@)),
    {
        let ghost all = self.entries@;
        let mut found = false;
        let mut i: usize = 0;
        while i < self.entries.len()
            invariant
                0 <= i <= self.entries.len(),
                all == self.entries@,
                found == pairs_in(all.take(i as int)).contains((device as int, point@)),
            decreases self.entries.len() - i,
        {
            assert(all.take(i + 1).drop_last() =~= all.take(i as int));
            if self.entries[i].0 == device && same_text(self.entries[i].1.as_str(), point) {
                found = true;
            }
            i += 1;
        }
        assert(all.take(i as int) =~= all);
        found
    }

    /// Adds a point.
    pub fn insert(&mut self, device: usize, point: &str)
        ensures
            final(self)@ == old(self)@.insert((device as int, point@)),
    {
        let ghost before = self.entries@;
        if self.contains(device, point) {
            assert(self@ =~= self@.insert((device as int, point@)));
        } else {
            self.entries.push((device, String::from_str(point)));
            assert(self.entries@.drop_last() =~= before);
        }
    }

    /// Takes a point out.
    pub fn remove(&mut self, device: usize, point: &str)
        ensures
            final(self)@ == old(self)@.remove((device as int, point@)),
    {
        let ghost all = self.entries@;
        let ghost gone = (device as int, point@);
        let mut kept: Vec<(usize, String)> = Vec::new();
        let mut i: usize = 0;
        while i < self.entries.len()
            invariant
                0 <= i <= self.entries.len(),
                all == self.entries@,
                gone == (device as int, point@),
                pairs_in(kept@) =~= pairs_in(all.take(i as int)).remove(gone),
            decreases self.entries.len() - i,
        {
            assert(all.take(i + 1).drop_last() =~= all.take(i as int));
            let ghost held = kept@;
            let entry = &self.entries[i];
            if !(entry.0 == device && same_text(entry.1.as_str(), point)) {
                kept.push((entry.0, entry.1.clone()));
                assert(kept@.drop_last() =~= held);
            }
            i += 1;
        }
        assert(all.take(i as int) =~= all);
        self.entries = kept;
    }
}

/// A job: one point of one device, read again and again.
pub struct ScheduleEntry {
    /// The device's position in the configuration.
    pub device_index: usize,
    pub point: PointRef,
    pub interval: Duration,
    /// When the point is read next.
    pub next_due: Duration,
}

/// What a [`ScheduleEntry`] holds, its times in nanoseconds.
#[verifier::ext_equal]
pub struct EntryView {
    pub device_index: int,
    pub point: PointView,
    pub interval: nat,
    pub next_due: nat,
}

impl View for ScheduleEntry {
    type V = EntryView;

    open spec fn view(&self) -> EntryView {
        EntryView {
            device_index: self.device_index as int,
            point: self.point@,
            interval: clock::nanos(self.interval),
            next_due: clock::nanos(self.next_due),
        }
    }
}

/// What entries hold, one by one.
pub open spec fn entry_views(entries: Seq<ScheduleEntry>) -> Seq<EntryView> {
    entries.map_values(|e: ScheduleEntry| e@)
}

/// A span, or another where there is none.
pub open spec fn span_or(span: Option<nat>, other: nat) -> nat {
    match span {
        Some(n) => n,
        None => other,
    }
}

/// How often points are read that neither they nor their device say anything of: every two
/// seconds, unless the connector says otherwise.
pub open spec fn connector_interval(poll_interval: Seq<char>) -> nat {
    span_or(config::duration_of(poll_interval), 2_000_000_000)
}

/// How often a device's points are read that say nothing of it themselves.
pub open spec fn device_interval(device: DeviceConfig, connector: nat) -> nat {
    span_or(config::opt_duration_of(device.poll_interval), connector)
}

/// How often a point is read.
pub open spec fn point_interval(point: PointConfig, device: nat) -> nat {
    span_or(config::opt_duration_of(point.poll_interval), device)
}

/// A point as it is read on its device.
pub open spec fn timed_point(point: PointConfig, mode: Option<Mode>, device: nat) -> PointView {
    config::resolved(point, mode, Some(point_interval(point, device)))
}

/// The jobs of the points of one device, but for those that are pushed.
pub open spec fn point_jobs(
    points: Seq<PointConfig>,
    index: int,
    mode: Option<Mode>,
    device: nat,
    subscribed: Set<(int, Seq<char>)>,
    now: nat,
) -> Seq<EntryView>
    decreases points.len(),
{
    if points.len() == 0 {
        Seq::empty()
    } else {
        let before = point_jobs(points.drop_last(), index, mode, device, subscribed, now);
        let point = points.last();
        if subscribed.contains((index, point.id@)) {
            before
        } else {
            before.push(
                EntryView {
                    device_index: index,
                    point: timed_point(point, mode, device),
                    interval: point_interval(point, device),
                    next_due: now,
                },
            )
        }
    }
}

/// The jobs of devices, but for the points that are pushed.
pub open spec fn device_jobs(
    devices: Seq<DeviceConfig>,
    connector: nat,
    subscribed: Set<(int, Seq<char>)>,
    now: nat,
) -> Seq<EntryView>
    decreases devices.len(),
{
    if devices.len() == 0 {
        Seq::empty()
    } else {
        let device = devices.last();
        device_jobs(devices.drop_last(), connector, subscribed, now) + point_jobs(
            device.points@,
            devices.len() - 1,
            device.default_mode,
            device_interval(device, connector),
            subscribed,
            now,
        )
    }
}

/// The jobs of a configuration, but for the points that are pushed. All are due at once.
pub open spec fn jobs_of(
    config: ConnectorConfig,
    subscribed: Set<(int, Seq<char>)>,
    now: nat,
) -> Seq<EntryView> {
    device_jobs(
        config.devices@,
        connector_interval(config.connector.poll_interval@),
        subscribed,
        now,
    )
}

/// How often points are read that neither they nor their device say anything of.
fn connector_default(config: &ConnectorConfig) -> (r: Duration)
    ensures
        clock::nanos(r) == connector_interval(config.connector.poll_interval@),
{
    match parse_duration(config.connector.poll_interval.as_str()) {
        Some(d) => d,
        None => seconds(2),
    }
}

/// A span read from an optional text, or another where there is none.
fn duration_or(s: &Option<String>, other: Duration) -> (r: Duration)
    ensures
        clock::nanos(r) == span_or(config::opt_duration_of(*s), clock::nanos(other)),
{
    match parse_opt_duration(s) {
        Some(d) => d,
        None => other,
    }
}

/// A point as it is read on its device, and how often.
fn timed(point: &PointConfig, mode: Option<Mode>, device: Duration) -> (r: (PointRef, Duration))
    ensures
        r.0@ == timed_point(*point, mode, clock::nanos(device)),
        clock::nanos(r.1) == point_interval(*point, clock::nanos(device)),
{
    let interval = duration_or(&point.poll_interval, device);
    let mut resolved = point_ref(point, mode);
    resolved.interval = Some(interval);
    (resolved, interval)
}

/// The polling schedule: every point but those that are delivered by push. All jobs are due at
/// `now`.
pub fn build_schedule(config: &ConnectorConfig, subscribed: &Subscribed, now: Duration) -> (r: Vec<
    ScheduleEntry,
>)
    ensures
        entry_views(r@) == jobs_of(*config, subscribed@, clock::nanos(now)),
{
    let connector = connector_default(config);
    let ghost devices = config.devices@;
    let ghost every = clock::nanos(connector);
    let ghost at = clock::nanos(now);
    let mut schedule: Vec<ScheduleEntry> = Vec::new();
    assert(entry_views(schedule@) =~= Seq::empty());
    let mut d: usize = 0;
    while d < config.devices.len()
        invariant
            0 <= d <= config.devices.len(),
            devices == config.devices@,
            every == clock::nanos(connector),
            at == clock::nanos(now),
            entry_views(schedule@) == device_jobs(
                devices.take(d as int),
                every,
                subscribed@,
                at,
            ),
        decreases config.devices.len() - d,
    {
        let device = &config.devices[d];
        let ghost before = entry_views(schedule@);
        let points = &device.points;
        let mode = device.default_mode;
        let default = duration_or(&device.poll_interval, connector);
        let ghost each = clock::nanos(default);
        let mut i: usize = 0;
        assert(before + point_jobs(points@.take(0), d as int, mode, each, subscribed@, at)
            =~= before);
        while i < points.len()
            invariant
                0 <= i <= points.len(),
                each == clock::nanos(default),
                at == clock::nanos(now),
                entry_views(schedule@) == before + point_jobs(
                    points@.take(i as int),
                    d as int,
                    mode,
                    each,
                    subscribed@,
                    at,
                ),
            decreases points.len() - i,
        {
            let point = &points[i];
            assert(points@.take(i + 1).drop_last() =~= points@.take(i as int));
            let ghost sofar = entry_views(schedule@);
            let ghost inner = point_jobs(
                points@.take(i as int),
                d as int,
                mode,
                each,
                subscribed@,
                at,
            );
            if !subscribed.contains(d, point.id.as_str()) {
                let (resolved, interval) = timed(point, mode, default);
                let entry = ScheduleEntry {
                    device_index: d,
                    point: resolved,
                    interval,
                    next_due: now,
                };
                let ghost v = entry@;
                schedule.push(entry);
                assert(entry_views(schedule@) =~= sofar.push(v));
                assert((before + inner).push(v) =~= before + inner.push(v));
            }
            i += 1;
        }
        assert(points@.take(i as int) =~= points@);
        assert(devices.take(d + 1).drop_last() =~= devices.take(d as int));
        assert(devices.take(d + 1).last() == devices[d as int]);
        d += 1;
    }
    assert(devices.take(d as int) =~= devices);
    schedule
}

/// The points of a device to ask push delivery for: all but those that refuse it.
pub open spec fn push_points(points: Seq<PointConfig>, mode: Option<Mode>, device: nat) -> Seq<
    PointView,
>
    decreases points.len(),
{
    if points.len() == 0 {
        Seq::empty()
    } else {
        let before = push_points(points.drop_last(), mode, device);
        if points.last().subscribe == Some(false) {
            before
        } else {
            before.push(timed_point(points.last(), mode, device))
        }
    }
}

/// The points of the device at `index` to ask push delivery for.
pub open spec fn push_points_of(config: ConnectorConfig, index: int) -> Seq<PointView> {
    let device = config.devices@[index];
    push_points(
        device.points@,
        device.default_mode,
        device_interval(device, connector_interval(config.connector.poll_interval@)),
    )
}

/// The points of a device to ask push delivery for: all but those with `subscribe = false`.
fn subscription_points(config: &ConnectorConfig, index: usize) -> (r: Vec<PointRef>)
    requires
        index < config.devices@.len(),
    ensures
        model::point_views(r@) == push_points_of(*config, index as int),
{
    let device = &config.devices[index];
    let default = duration_or(&device.poll_interval, connector_default(config));
    let ghost each = clock::nanos(default);
    let points = &device.points;
    let mode = device.default_mode;
    let mut out: Vec<PointRef> = Vec::new();
    assert(model::point_views(out@) =~= Seq::empty());
    let mut i: usize = 0;
    while i < points.len()
        invariant
            0 <= i <= points.len(),
            each == clock::nanos(default),
            model::point_views(out@) == push_points(points@.take(i as int), mode, each),
        decreases points.len() - i,
    {
        let point = &points[i];
        assert(points@.take(i + 1).drop_last() =~= points@.take(i as int));
        let wanted = match point.subscribe {
            Some(b) => b,
            None => true,
        };
        if wanted {
            let ghost before = model::point_views(out@);
            let (resolved, _) = timed(point, mode, default);
            let ghost v = resolved@;
            out.push(resolved);
            assert(model::point_views(out@) =~= before.push(v));
        }
        i += 1;
    }
    assert(points@.take(i as int) =~= points@);
    out
}

/// The points of a device that push delivery is asked for: none where the module cannot push.
pub open spec fn push_asked(
    config: ConnectorConfig,
    subscribe_capable: bool,
    index: int,
) -> Seq<PointView> {
    if subscribe_capable {
        push_points_of(config, index)
    } else {
        Seq::empty()
    }
}

/// The points of a device to ask push delivery for, and none where the module cannot push.
pub fn push_request(config: &ConnectorConfig, subscribe_capable: bool, index: usize) -> (r: Vec<
    PointRef,
>)
    requires
        index < config.devices@.len(),
    ensures
        model::point_views(r@) == push_asked(*config, subscribe_capable, index as int),
{
    if subscribe_capable {
        subscription_points(config, index)
    } else {
        let none: Vec<PointRef> = Vec::new();
        assert(model::point_views(none@) =~= Seq::empty());
        none
    }
}

/// The first device from `from` on that push delivery is asked for, and its points. A device
/// without such points is not asked for.
pub fn next_push(config: &ConnectorConfig, subscribe_capable: bool, from: usize) -> (r: Option<
    (usize, Vec<PointRef>),
>)
    ensures
        match r {
            Some((index, points)) => {
                &&& from <= index < config.devices@.len()
                &&& model::point_views(points@) == push_asked(
                    *config,
                    subscribe_capable,
                    index as int,
                )
                &&& points@.len() > 0
                &&& forall|i: int|
                    from <= i < index ==> (#[trigger] push_asked(
                        *config,
                        subscribe_capable,
                        i,
                    )).len() == 0
            },
            None => forall|i: int|
                from <= i < config.devices@.len() ==> (#[trigger] push_asked(
                    *config,
                    subscribe_capable,
                    i,
                )).len() == 0,
        },
{
    let mut index: usize = from;
    while index < config.devices.len()
        invariant
            from <= index,
            forall|i: int|
                from <= i < index ==> (#[trigger] push_asked(
                    *config,
                    subscribe_capable,
                    i,
                )).len() == 0,
        decreases config.devices.len() - index,
    {
        let points = push_request(config, subscribe_capable, index);
        assert(model::point_views(points@).len() == points@.len());
        if points.len() > 0 {
            return Some((index, points));
        }
        index += 1;
    }
    None
}

/// The pairs of a device's points.
pub open spec fn pairs_of(index: int, points: Seq<PointView>) -> Set<(int, Seq<char>)> {
    Set::new(
        |p: (int, Seq<char>)|
            p.0 == index && exists|i: int| 0 <= i < points.len() && (#[trigger] points[i]).id
                == p.1,
    )
}

/// One point more.
proof fn lemma_pairs_of(index: int, points: Seq<PointView>, i: int)
    requires
        0 <= i < points.len(),
    ensures
        pairs_of(index, points.take(i + 1)) == pairs_of(index, points.take(i)).insert(
            (index, points[i].id),
        ),
{
    let more = points.take(i + 1);
    let less = points.take(i);
    assert forall|p: (int, Seq<char>)|
        pairs_of(index, more).contains(p) == pairs_of(index, less).insert(
            (index, points[i].id),
        ).contains(p) by {
        if pairs_of(index, less).contains(p) {
            let k = choose|k: int| 0 <= k < less.len() && (#[trigger] less[k]).id == p.1;
            assert(more[k].id == p.1);
        }
        if p == (index, points[i].id) {
            assert(more[i].id == p.1);
        }
        if pairs_of(index, more).contains(p) && p != (index, points[i].id) {
            let k = choose|k: int| 0 <= k < more.len() && (#[trigger] more[k]).id == p.1;
            assert(less[k].id == p.1);
        }
    }
    assert(pairs_of(index, more) =~= pairs_of(index, less).insert((index, points[i].id)));
}

/// Before push delivery is asked for: the points are taken out, so that they are polled again
/// should it not come about.
fn begin_subscribe(subscribed: &mut Subscribed, index: usize, points: &Vec<PointRef>)
    ensures
        final(subscribed)@ == old(subscribed)@.difference(
            pairs_of(index as int, model::point_views(points@)),
        ),
{
    let ghost start = subscribed@;
    let ghost all = model::point_views(points@);
    let mut i: usize = 0;
    assert(start =~= start.difference(pairs_of(index as int, all.take(0))));
    while i < points.len()
        invariant
            0 <= i <= points.len(),
            all == model::point_views(points@),
            subscribed@ == start.difference(pairs_of(index as int, all.take(i as int))),
        decreases points.len() - i,
    {
        proof {
            lemma_pairs_of(index as int, all, i as int);
        }
        assert(all[i as int] == points@[i as int]@);
        subscribed.remove(index, points[i].id.as_str());
        assert(subscribed@ =~= start.difference(pairs_of(index as int, all.take(i + 1))));
        i += 1;
    }
    assert(all.take(i as int) =~= all);
}

/// After push delivery was asked for: where the module agreed, the points are delivered by push.
/// Says whether it did.
fn finish_subscribe(
    subscribed: &mut Subscribed,
    index: usize,
    points: &Vec<PointRef>,
    reply: &Result<(), ConnectorError>,
) -> (r: bool)
    ensures
        r == (reply is Ok),
        final(subscribed)@ == if r {
            old(subscribed)@.union(pairs_of(index as int, model::point_views(points@)))
        } else {
            old(subscribed)@
        },
{
    let ghost start = subscribed@;
    let ghost all = model::point_views(points@);
    match reply {
        Ok(_) => {
            let mut i: usize = 0;
            assert(start =~= start.union(pairs_of(index as int, all.take(0))));
            while i < points.len()
                invariant
                    0 <= i <= points.len(),
                    all == model::point_views(points@),
                    subscribed@ == start.union(pairs_of(index as int, all.take(i as int))),
                decreases points.len() - i,
            {
                proof {
                    lemma_pairs_of(index as int, all, i as int);
                }
                assert(all[i as int] == points@[i as int]@);
                subscribed.insert(index, points[i].id.as_str());
                assert(subscribed@ =~= start.union(pairs_of(index as int, all.take(i + 1))));
                i += 1;
            }
            assert(all.take(i as int) =~= all);
            true
        },
        Err(_) => false,
    }
}

/// The points that are pushed after push delivery was asked for `points` of one device.
pub open spec fn settled(
    subscribed: Set<(int, Seq<char>)>,
    index: int,
    points: Seq<PointView>,
    agreed: bool,
) -> Set<(int, Seq<char>)> {
    if agreed {
        subscribed.union(pairs_of(index, points))
    } else {
        subscribed.difference(pairs_of(index, points))
    }
}

/// Notes the reply to asking push delivery for `points` of the device at `index`: on success
/// they are pushed, else they are not, and so fall back to polling. Says which.
///
/// This is for one device, as one that reconnects has lost what was set up with its old
/// transport, while the others have not.
pub fn subscribe_device(
    subscribed: &mut Subscribed,
    index: usize,
    points: &Vec<PointRef>,
    reply: &Result<(), ConnectorError>,
) -> (r: bool)
    ensures
        r == (reply is Ok),
        final(subscribed)@ == settled(
            old(subscribed)@,
            index as int,
            model::point_views(points@),
            reply is Ok,
        ),
{
    let ghost before = subscribed@;
    begin_subscribe(subscribed, index, points);
    let agreed = finish_subscribe(subscribed, index, points, reply);
    assert(subscribed@ =~= settled(
        before,
        index as int,
        model::point_views(points@),
        reply is Ok,
    ));
    agreed
}

/// The points of one device that are to be read now.
pub struct DueBatch {
    /// The device's position in the configuration.
    pub device_index: usize,
    pub points: Vec<PointRef>,
}

/// What batches hold, one by one.
pub open spec fn batch_views(batches: Seq<DueBatch>) -> Seq<(int, Seq<PointView>)> {
    batches.map_values(|b: DueBatch| (b.device_index as int, model::point_views(b.points@)))
}

/// The position of the first batch of a device, or the number of batches.
pub open spec fn batch_index(batches: Seq<(int, Seq<PointView>)>, device: int) -> int
    decreases batches.len(),
{
    if batches.len() == 0 {
        0
    } else if batches.first().0 == device {
        0
    } else {
        1 + batch_index(batches.drop_first(), device)
    }
}

/// The batches with a point added to its device's.
pub open spec fn with_due(
    batches: Seq<(int, Seq<PointView>)>,
    device: int,
    point: PointView,
) -> Seq<(int, Seq<PointView>)> {
    let i = batch_index(batches, device);
    if i < batches.len() {
        batches.update(i, (device, batches[i].1.push(point)))
    } else {
        batches.push((device, seq![point]))
    }
}

/// The points that are due, by device.
pub open spec fn gathered(entries: Seq<EntryView>, now: nat) -> Seq<(int, Seq<PointView>)>
    decreases entries.len(),
{
    if entries.len() == 0 {
        Seq::empty()
    } else {
        let before = gathered(entries.drop_last(), now);
        let entry = entries.last();
        if entry.next_due <= now {
            with_due(before, entry.device_index, entry.point)
        } else {
            before
        }
    }
}

/// A job after a look at the clock: where it was due, it is due again an interval from now.
pub open spec fn rescheduled(entry: EntryView, now: nat) -> EntryView {
    if entry.next_due <= now {
        EntryView { next_due: now + entry.interval, ..entry }
    } else {
        entry
    }
}

/// True when every job's next time can be told.
pub open spec fn fits(entries: Seq<EntryView>, now: nat) -> bool {
    forall|i: int|
        0 <= i < entries.len() ==> now + (#[trigger] entries[i]).interval <= clock::LONGEST
}

/// [`batch_index`] is the first position that holds a batch of that device.
pub proof fn lemma_batch_index(batches: Seq<(int, Seq<PointView>)>, device: int)
    ensures
        0 <= batch_index(batches, device) <= batches.len(),
        batch_index(batches, device) < batches.len() ==> batches[batch_index(
            batches,
            device,
        )].0 == device,
        forall|j: int|
            0 <= j < batch_index(batches, device) ==> (#[trigger] batches[j]).0 != device,
    decreases batches.len(),
{
    if batches.len() > 0 && batches.first().0 != device {
        let rest = batches.drop_first();
        lemma_batch_index(rest, device);
        assert forall|j: int| 0 <= j < batch_index(batches, device) implies (
        #[trigger] batches[j]).0 != device by {
            if j > 0 {
                assert(batches[j] == rest[j - 1]);
            }
        }
    }
}

/// A position that holds a batch of that device, with no earlier one, is [`batch_index`].
proof fn lemma_batch_index_unique(batches: Seq<(int, Seq<PointView>)>, device: int, i: int)
    requires
        0 <= i <= batches.len(),
        i < batches.len() ==> batches[i].0 == device,
        forall|j: int| 0 <= j < i ==> (#[trigger] batches[j]).0 != device,
    ensures
        batch_index(batches, device) == i,
{
    lemma_batch_index(batches, device);
    let k = batch_index(batches, device);
    if k < i {
        assert(batches[k].0 != device);
    }
    if i < k {
        assert(batches[i].0 != device);
    }
}

/// Adds a point to its device's batch.
fn add_due(batches: &mut Vec<DueBatch>, device: usize, point: PointRef)
    ensures
        batch_views(final(batches)@) == with_due(
            batch_views(old(batches)@),
            device as int,
            point@,
        ),
{
    let ghost before = batch_views(batches@);
    let mut i: usize = 0;
    while i < batches.len()
        invariant
            0 <= i <= batches.len(),
            before == batch_views(batches@),
            forall|j: int| 0 <= j < i ==> (#[trigger] before[j]).0 != device,
        ensures
            0 <= i <= batches.len(),
            before == batch_views(batches@),
            i < batches.len() ==> batches@[i as int].device_index == device,
            forall|j: int| 0 <= j < i ==> (#[trigger] before[j]).0 != device,
        decreases batches.len() - i,
    {
        assert(before[i as int].0 == batches@[i as int].device_index);
        if batches[i].device_index == device {
            break;
        }
        i += 1;
    }
    proof {
        lemma_batch_index_unique(before, device as int, i as int);
    }
    if i < batches.len() {
        let ghost held = model::point_views(batches@[i as int].points@);
        assert(before[i as int] == (device as int, held));
        let batch = &mut batches[i];
        batch.points.push(point);
        assert(model::point_views(batches@[i as int].points@) =~= held.push(point@));
        assert(batch_views(batches@) =~= with_due(before, device as int, point@));
    } else {
        let mut points: Vec<PointRef> = Vec::new();
        points.push(point);
        assert(model::point_views(points@) =~= seq![point@]);
        batches.push(DueBatch { device_index: device, points });
        assert(batch_views(batches@) =~= with_due(before, device as int, point@));
    }
}

/// Gathers the points that are due at `now`, by device, and sets each of their jobs an interval
/// ahead.
pub fn take_due(schedule: &mut Vec<ScheduleEntry>, now: Duration) -> (r: Vec<DueBatch>)
    requires
        fits(entry_views(old(schedule)@), clock::nanos(now)),
    ensures
        batch_views(r@) == gathered(entry_views(old(schedule)@), clock::nanos(now)),
        entry_views(final(schedule)@) == entry_views(old(schedule)@).map_values(
            |e: EntryView| rescheduled(e, clock::nanos(now)),
        ),
{
    let ghost all = entry_views(schedule@);
    let ghost at = clock::nanos(now);
    let ghost wanted = all.map_values(|e: EntryView| rescheduled(e, at));
    let mut batches: Vec<DueBatch> = Vec::new();
    assert(batch_views(batches@) =~= Seq::empty());
    assert(entry_views(schedule@) =~= wanted.take(0) + all.skip(0));
    let mut i: usize = 0;
    while i < schedule.len()
        invariant
            0 <= i <= schedule.len(),
            schedule.len() == all.len(),
            at == clock::nanos(now),
            fits(all, at),
            wanted == all.map_values(|e: EntryView| rescheduled(e, at)),
            entry_views(schedule@) == wanted.take(i as int) + all.skip(i as int),
            batch_views(batches@) == gathered(all.take(i as int), at),
        decreases schedule.len() - i,
    {
        assert(all.take(i + 1).drop_last() =~= all.take(i as int));
        assert(entry_views(schedule@)[i as int] == schedule@[i as int]@);
        assert(schedule@[i as int]@ == all[i as int]);
        let ghost before = entry_views(schedule@);
        let due = not_after(schedule[i].next_due, now);
        if due {
            let point = schedule[i].point.clone();
            let device = schedule[i].device_index;
            add_due(&mut batches, device, point);
            let next = later(now, schedule[i].interval);
            let entry = &mut schedule[i];
            entry.next_due = next;
        }
        assert(entry_views(schedule@) =~= before.update(i as int, rescheduled(all[i as int], at)));
        assert(entry_views(schedule@) =~= wanted.take(i + 1) + all.skip(i + 1));
        i += 1;
    }
    assert(all.take(i as int) =~= all);
    assert(entry_views(schedule@) =~= wanted);
    batches
}

/// True when every job's next time can be told.
pub fn schedule_fits(schedule: &Vec<ScheduleEntry>, now: Duration) -> (r: bool)
    ensures
        r == fits(entry_views(schedule@), clock::nanos(now)),
{
    let ghost all = entry_views(schedule@);
    let mut i: usize = 0;
    while i < schedule.len()
        invariant
            0 <= i <= schedule.len(),
            all == entry_views(schedule@),
            forall|j: int|
                0 <= j < i ==> clock::nanos(now) + (#[trigger] all[j]).interval <= clock::LONGEST,
        decreases schedule.len() - i,
    {
        assert(all[i as int] == schedule@[i as int]@);
        if schedule[i].interval.as_nanos() > clock::LONGEST - now.as_nanos() {
            return false;
        }
        i += 1;
    }
    true
}

/// The points of one device that are due, in the order of the schedule.
pub open spec fn due_points(entries: Seq<EntryView>, device: int, now: nat) -> Seq<PointView>
    decreases entries.len(),
{
    if entries.len() == 0 {
        Seq::empty()
    } else {
        let before = due_points(entries.drop_last(), device, now);
        let entry = entries.last();
        if entry.next_due <= now && entry.device_index == device {
            before.push(entry.point)
        } else {
            before
        }
    }
}

/// The points in a device's batch, and none where it has no batch.
pub open spec fn batch_of(batches: Seq<(int, Seq<PointView>)>, device: int) -> Seq<PointView> {
    let i = batch_index(batches, device);
    if i < batches.len() {
        batches[i].1
    } else {
        Seq::empty()
    }
}

/// A device's batch holds all its points that are due, in the order of the schedule, and no
/// other.
pub proof fn a_batch_holds_what_is_due(entries: Seq<EntryView>, device: int, now: nat)
    ensures
        batch_of(gathered(entries, now), device) == due_points(entries, device, now),
    decreases entries.len(),
{
    if entries.len() > 0 {
        let less = entries.drop_last();
        let entry = entries.last();
        a_batch_holds_what_is_due(less, device, now);
        if entry.next_due <= now {
            let before = gathered(less, now);
            let after = gathered(entries, now);
            lemma_batch_index(before, device);
            lemma_batch_index(before, entry.device_index);
            let i = batch_index(before, entry.device_index);
            let k = batch_index(before, device);
            assert forall|j: int| 0 <= j < k implies (#[trigger] after[j]).0 != device by {
                assert(before[j].0 != device);
            }
            if k < before.len() {
                lemma_batch_index_unique(after, device, k);
            } else if entry.device_index == device {
                lemma_batch_index_unique(after, device, before.len() as int);
                assert(after[i].1 =~= Seq::<PointView>::empty().push(entry.point));
            } else {
                lemma_batch_index_unique(after, device, after.len() as int);
            }
        }
    }
}

/// No device has two batches.
pub proof fn one_batch_a_device(entries: Seq<EntryView>, now: nat)
    ensures
        forall|i: int, j: int|
            0 <= i < j < gathered(entries, now).len() ==> (#[trigger] gathered(entries, now)[i]).0
                != (#[trigger] gathered(entries, now)[j]).0,
    decreases entries.len(),
{
    if entries.len() > 0 {
        let before = gathered(entries.drop_last(), now);
        one_batch_a_device(entries.drop_last(), now);
        lemma_batch_index(before, entries.last().device_index);
        let after = gathered(entries, now);
        assert forall|i: int, j: int| 0 <= i < j < after.len() implies (#[trigger] after[i]).0 != (
        #[trigger] after[j]).0 by {
            assert(before[i].0 == after[i].0);
            if j < before.len() {
                assert(before[j].0 == after[j].0);
            }
        }
    }
}

/// A job that was due is not due again before its interval has passed.
pub proof fn a_job_waits_its_interval(entry: EntryView, now: nat, then: nat)
    requires
        entry.next_due <= now,
        rescheduled(entry, now).next_due <= then,
    ensures
        then >= now + entry.interval,
{
}

/// True when the schedule has a job for the point with that id on that device.
pub open spec fn scheduled(entries: Seq<EntryView>, device: int, id: Seq<char>) -> bool {
    exists|i: int|
        0 <= i < entries.len() && (#[trigger] entries[i]).device_index == device
            && entries[i].point.id == id
}

/// True when the device configures a point with that id.
pub open spec fn has_point(points: Seq<PointConfig>, id: Seq<char>) -> bool {
    exists|i: int| 0 <= i < points.len() && (#[trigger] points[i]).id@ == id
}

proof fn lemma_point_jobs(
    points: Seq<PointConfig>,
    index: int,
    mode: Option<Mode>,
    device: nat,
    subscribed: Set<(int, Seq<char>)>,
    now: nat,
    id: Seq<char>,
)
    ensures
        scheduled(point_jobs(points, index, mode, device, subscribed, now), index, id) <==> (
        has_point(points, id) && !subscribed.contains((index, id))),
        forall|other: int|
            other != index ==> !#[trigger] scheduled(
                point_jobs(points, index, mode, device, subscribed, now),
                other,
                id,
            ),
    decreases points.len(),
{
    let jobs = point_jobs(points, index, mode, device, subscribed, now);
    if points.len() > 0 {
        let less = points.drop_last();
        let point = points.last();
        let n = points.len() - 1;
        let before = point_jobs(less, index, mode, device, subscribed, now);
        lemma_point_jobs(less, index, mode, device, subscribed, now, id);
        if has_point(less, id) {
            let i = choose|i: int| 0 <= i < less.len() && (#[trigger] less[i]).id@ == id;
            assert(points[i].id@ == id);
        }
        if has_point(points, id) && point.id@ != id {
            let i = choose|i: int| 0 <= i < points.len() && (#[trigger] points[i]).id@ == id;
            assert(less[i].id@ == id);
        }
        if scheduled(before, index, id) {
            let i = choose|i: int|
                0 <= i < before.len() && (#[trigger] before[i]).device_index == index
                    && before[i].point.id == id;
            assert(jobs[i] == before[i]);
        }
        if point.id@ == id {
            assert(points[n].id@ == id);
            if !subscribed.contains((index, id)) {
                assert(jobs[before.len() as int].point.id == id);
            }
        }
        if scheduled(jobs, index, id) && point.id@ != id {
            let i = choose|i: int|
                0 <= i < jobs.len() && (#[trigger] jobs[i]).device_index == index
                    && jobs[i].point.id == id;
            assert(before[i] == jobs[i]);
        }
        assert forall|other: int| other != index implies !#[trigger] scheduled(jobs, other, id) by {
            if scheduled(jobs, other, id) {
                let i = choose|i: int|
                    0 <= i < jobs.len() && (#[trigger] jobs[i]).device_index == other
                        && jobs[i].point.id == id;
                assert(before[i] == jobs[i]);
                assert(scheduled(before, other, id));
            }
        }
    }
}

proof fn lemma_device_jobs(
    devices: Seq<DeviceConfig>,
    connector: nat,
    subscribed: Set<(int, Seq<char>)>,
    now: nat,
    device: int,
    id: Seq<char>,
)
    ensures
        scheduled(device_jobs(devices, connector, subscribed, now), device, id) <==> (0 <= device
            < devices.len() && has_point(devices[device].points@, id) && !subscribed.contains(
            (device, id),
        )),
    decreases devices.len(),
{
    if devices.len() > 0 {
        let less = devices.drop_last();
        let n = devices.len() - 1;
        let last = devices.last();
        let before = device_jobs(less, connector, subscribed, now);
        let added = point_jobs(
            last.points@,
            n,
            last.default_mode,
            device_interval(last, connector),
            subscribed,
            now,
        );
        let jobs = device_jobs(devices, connector, subscribed, now);
        lemma_device_jobs(less, connector, subscribed, now, device, id);
        lemma_point_jobs(
            last.points@,
            n,
            last.default_mode,
            device_interval(last, connector),
            subscribed,
            now,
            id,
        );
        if scheduled(before, device, id) {
            let i = choose|i: int|
                0 <= i < before.len() && (#[trigger] before[i]).device_index == device
                    && before[i].point.id == id;
            assert(jobs[i] == before[i]);
        }
        if scheduled(added, device, id) {
            let i = choose|i: int|
                0 <= i < added.len() && (#[trigger] added[i]).device_index == device
                    && added[i].point.id == id;
            assert(jobs[before.len() + i] == added[i]);
        }
        if scheduled(jobs, device, id) {
            let i = choose|i: int|
                0 <= i < jobs.len() && (#[trigger] jobs[i]).device_index == device
                    && jobs[i].point.id == id;
            if i < before.len() {
                assert(before[i] == jobs[i]);
            } else {
                assert(added[i - before.len()] == jobs[i]);
            }
        }
        if device == n {
            assert(!(scheduled(before, device, id)));
        } else {
            assert(!scheduled(added, device, id));
        }
    }
}

/// A configured point is polled exactly when it is not delivered by push: nothing is published
/// twice, and nothing falls silent.
pub proof fn a_point_is_scheduled_unless_it_is_subscribed(
    config: ConnectorConfig,
    subscribed: Set<(int, Seq<char>)>,
    now: nat,
    device: int,
    id: Seq<char>,
)
    requires
        0 <= device < config.devices@.len(),
        has_point(config.devices@[device].points@, id),
    ensures
        scheduled(jobs_of(config, subscribed, now), device, id) <==> !subscribed.contains(
            (device, id),
        ),
{
    lemma_device_jobs(
        config.devices@,
        connector_interval(config.connector.poll_interval@),
        subscribed,
        now,
        device,
        id,
    );
}

/// A device whose push delivery was refused has every point polled that was asked for.
pub proof fn a_refused_subscription_is_polled(
    config: ConnectorConfig,
    subscribed: Set<(int, Seq<char>)>,
    now: nat,
    device: int,
    id: Seq<char>,
)
    requires
        0 <= device < config.devices@.len(),
        has_point(config.devices@[device].points@, id),
        pairs_of(device, push_points_of(config, device)).contains((device, id)),
    ensures
        scheduled(
            jobs_of(
                config,
                settled(subscribed, device, push_points_of(config, device), false),
                now,
            ),
            device,
            id,
        ),
{
    a_point_is_scheduled_unless_it_is_subscribed(
        config,
        settled(subscribed, device, push_points_of(config, device), false),
        now,
        device,
        id,
    );
}

/// A point that refuses push delivery is never among those that it is asked for, unless another
/// point of its device has the same id.
pub proof fn a_point_may_refuse_push(
    points: Seq<PointConfig>,
    mode: Option<Mode>,
    device: nat,
    index: int,
    id: Seq<char>,
)
    requires
        forall|i: int|
            0 <= i < points.len() && (#[trigger] points[i]).id@ == id ==> points[i].subscribe
                == Some(false),
    ensures
        !pairs_of(index, push_points(points, mode, device)).contains((index, id)),
    decreases points.len(),
{
    if points.len() > 0 {
        let less = points.drop_last();
        let n = points.len() - 1;
        assert forall|i: int| 0 <= i < less.len() && (#[trigger] less[i]).id@ == id implies less[i].subscribe
            == Some(false) by {
            assert(points[i] == less[i]);
        }
        a_point_may_refuse_push(less, mode, device, index, id);
        let before = push_points(less, mode, device);
        let after = push_points(points, mode, device);
        if pairs_of(index, after).contains((index, id)) {
            let i = choose|i: int| 0 <= i < after.len() && (#[trigger] after[i]).id == id;
            if i < before.len() {
                assert(before[i].id == id);
            } else {
                assert(points[n].id@ == id);
            }
        }
    }
}

/// Asking push delivery for one device leaves the points of the others as they were.
pub proof fn subscribing_concerns_one_device(
    subscribed: Set<(int, Seq<char>)>,
    index: int,
    points: Seq<PointView>,
    agreed: bool,
    other: int,
    id: Seq<char>,
)
    requires
        other != index,
    ensures
        settled(subscribed, index, points, agreed).contains((other, id)) == subscribed.contains(
            (other, id),
        ),
{
}

/// After push delivery was agreed on, each of the points is pushed, and none is polled.
pub proof fn an_agreed_subscription_is_pushed(
    config: ConnectorConfig,
    subscribed: Set<(int, Seq<char>)>,
    now: nat,
    device: int,
    i: int,
)
    requires
        0 <= device < config.devices@.len(),
        0 <= i < push_points_of(config, device).len(),
    ensures
        ({
            let points = push_points_of(config, device);
            let after = settled(subscribed, device, points, true);
            after.contains((device, points[i].id)) && !scheduled(
                jobs_of(config, after, now),
                device,
                points[i].id,
            )
        }),
{
    let points = push_points_of(config, device);
    let after = settled(subscribed, device, points, true);
    assert(pairs_of(device, points).contains((device, points[i].id)));
    lemma_device_jobs(
        config.devices@,
        connector_interval(config.connector.poll_interval@),
        after,
        now,
        device,
        points[i].id,
    );
}

/// True when a point is to be read every `n` nanoseconds: as often as it says itself, else as its
/// device says, else as the connector says, and every two seconds where none says it so that it
/// can be understood.
pub open spec fn reads_every(
    n: nat,
    point: PointConfig,
    device: DeviceConfig,
    connector: Seq<char>,
) -> bool {
    let own = match point.poll_interval {
        Some(t) => config::duration_of(t@),
        None => None,
    };
    let shared = match device.poll_interval {
        Some(t) => config::duration_of(t@),
        None => None,
    };
    let common = config::duration_of(connector);
    &&& own is Some ==> own == Some(n)
    &&& own is None && shared is Some ==> shared == Some(n)
    &&& own is None && shared is None && common is Some ==> common == Some(n)
    &&& own is None && shared is None && common is None ==> n == 2_000_000_000
}

/// True when a job reads a configured point: as it is configured, as often as it has to be, and
/// first at `now`.
pub open spec fn job_reads(
    job: EntryView,
    config: ConnectorConfig,
    index: int,
    i: int,
    now: nat,
) -> bool {
    let device = config.devices@[index];
    &&& 0 <= index < config.devices@.len()
    &&& 0 <= i < device.points@.len()
    &&& job.device_index == index
    &&& job.next_due == now
    &&& job.point.interval == Some(job.interval)
    &&& config::is_as_configured(job.point, device.points@[i], device.default_mode)
    &&& reads_every(job.interval, device.points@[i], device, config.connector.poll_interval@)
}

/// True when a job reads some configured point that is not pushed.
pub open spec fn reads_unpushed(
    job: EntryView,
    config: ConnectorConfig,
    subscribed: Set<(int, Seq<char>)>,
    now: nat,
) -> bool {
    exists|d: int, i: int|
        #[trigger] job_reads(job, config, d, i, now) && !subscribed.contains(
            (d, config.devices@[d].points@[i].id@),
        )
}

proof fn lemma_timed_point(config: ConnectorConfig, index: int, i: int)
    requires
        0 <= index < config.devices@.len(),
        0 <= i < config.devices@[index].points@.len(),
    ensures
        ({
            let device = config.devices@[index];
            let each = device_interval(
                device,
                connector_interval(config.connector.poll_interval@),
            );
            let point = device.points@[i];
            let view = timed_point(point, device.default_mode, each);
            &&& config::is_as_configured(view, point, device.default_mode)
            &&& view.interval == Some(point_interval(point, each))
            &&& reads_every(
                point_interval(point, each),
                point,
                device,
                config.connector.poll_interval@,
            )
        }),
{
    let device = config.devices@[index];
    let each = device_interval(device, connector_interval(config.connector.poll_interval@));
    let point = device.points@[i];
    config::a_point_resolves_to_its_configuration(
        point,
        device.default_mode,
        Some(point_interval(point, each)),
    );
}

/// The jobs of the first `n` points of a device are those of the points that are not pushed.
proof fn lemma_jobs_read_points(
    config: ConnectorConfig,
    index: int,
    n: int,
    subscribed: Set<(int, Seq<char>)>,
    now: nat,
)
    requires
        0 <= index < config.devices@.len(),
        0 <= n <= config.devices@[index].points@.len(),
    ensures
        ({
            let device = config.devices@[index];
            let jobs = point_jobs(
                device.points@.take(n),
                index,
                device.default_mode,
                device_interval(device, connector_interval(config.connector.poll_interval@)),
                subscribed,
                now,
            );
            &&& forall|k: int|
                0 <= k < jobs.len() ==> reads_unpushed(
                    #[trigger] jobs[k],
                    config,
                    subscribed,
                    now,
                )
            &&& forall|i: int|
                0 <= i < n && !subscribed.contains(
                    (index, (#[trigger] device.points@[i]).id@),
                ) ==> exists|k: int|
                    0 <= k < jobs.len() && job_reads(#[trigger] jobs[k], config, index, i, now)
        }),
    decreases n,
{
    let device = config.devices@[index];
    let each = device_interval(device, connector_interval(config.connector.poll_interval@));
    let points = device.points@;
    let mode = device.default_mode;
    if n > 0 {
        lemma_jobs_read_points(config, index, n - 1, subscribed, now);
        lemma_timed_point(config, index, n - 1);
        assert(points.take(n).drop_last() =~= points.take(n - 1));
        assert(points.take(n).last() == points[n - 1]);
        let before = point_jobs(points.take(n - 1), index, mode, each, subscribed, now);
        let jobs = point_jobs(points.take(n), index, mode, each, subscribed, now);
        assert forall|k: int| 0 <= k < jobs.len() implies reads_unpushed(
            #[trigger] jobs[k],
            config,
            subscribed,
            now,
        ) by {
            if k < before.len() {
                assert(jobs[k] == before[k]);
            } else {
                assert(job_reads(jobs[k], config, index, n - 1, now));
            }
        }
        assert forall|i: int|
            0 <= i < n && !subscribed.contains(
                (index, (#[trigger] device.points@[i]).id@),
            ) implies exists|k: int|
            0 <= k < jobs.len() && job_reads(#[trigger] jobs[k], config, index, i, now) by {
            if i < n - 1 {
                let k = choose|k: int|
                    0 <= k < before.len() && job_reads(
                        #[trigger] before[k],
                        config,
                        index,
                        i,
                        now,
                    );
                assert(jobs[k] == before[k]);
            } else {
                assert(job_reads(jobs[before.len() as int], config, index, i, now));
            }
        }
    }
}

proof fn lemma_jobs_read_devices(
    config: ConnectorConfig,
    n: int,
    subscribed: Set<(int, Seq<char>)>,
    now: nat,
)
    requires
        0 <= n <= config.devices@.len(),
    ensures
        ({
            let jobs = device_jobs(
                config.devices@.take(n),
                connector_interval(config.connector.poll_interval@),
                subscribed,
                now,
            );
            &&& forall|k: int|
                0 <= k < jobs.len() ==> reads_unpushed(
                    #[trigger] jobs[k],
                    config,
                    subscribed,
                    now,
                )
            &&& forall|d: int, i: int|
                #![trigger config.devices@[d].points@[i]]
                0 <= d < n && 0 <= i < config.devices@[d].points@.len() && !subscribed.contains(
                    (d, config.devices@[d].points@[i].id@),
                ) ==> exists|k: int|
                    0 <= k < jobs.len() && job_reads(#[trigger] jobs[k], config, d, i, now)
        }),
    decreases n,
{
    let devices = config.devices@;
    let connector = connector_interval(config.connector.poll_interval@);
    if n > 0 {
        lemma_jobs_read_devices(config, n - 1, subscribed, now);
        let device = devices[n - 1];
        lemma_jobs_read_points(
            config,
            n - 1,
            device.points@.len() as int,
            subscribed,
            now,
        );
        assert(device.points@.take(device.points@.len() as int) =~= device.points@);
        assert(devices.take(n).drop_last() =~= devices.take(n - 1));
        assert(devices.take(n).last() == device);
        let before = device_jobs(devices.take(n - 1), connector, subscribed, now);
        let added = point_jobs(
            device.points@,
            n - 1,
            device.default_mode,
            device_interval(device, connector),
            subscribed,
            now,
        );
        let jobs = device_jobs(devices.take(n), connector, subscribed, now);
        assert(jobs == before + added);
        assert forall|k: int| 0 <= k < jobs.len() implies reads_unpushed(
            #[trigger] jobs[k],
            config,
            subscribed,
            now,
        ) by {
            if k < before.len() {
                assert(jobs[k] == before[k]);
            } else {
                assert(jobs[k] == added[k - before.len()]);
            }
        }
        assert forall|d: int, i: int|
            #![trigger config.devices@[d].points@[i]]
            0 <= d < n && 0 <= i < config.devices@[d].points@.len() && !subscribed.contains(
                (d, config.devices@[d].points@[i].id@),
            ) implies exists|k: int|
            0 <= k < jobs.len() && job_reads(#[trigger] jobs[k], config, d, i, now) by {
            if d < n - 1 {
                let k = choose|k: int|
                    0 <= k < before.len() && job_reads(#[trigger] before[k], config, d, i, now);
                assert(jobs[k] == before[k]);
            } else {
                let k = choose|k: int|
                    0 <= k < added.len() && job_reads(#[trigger] added[k], config, d, i, now);
                assert(jobs[before.len() + k] == added[k]);
            }
        }
    }
}

/// Every job reads a configured point that is not pushed: with its id, its type, its byte and
/// word order, its access, its unit and its scaling, as often as it is to be read, and at once.
pub proof fn every_job_reads_a_configured_point(
    config: ConnectorConfig,
    subscribed: Set<(int, Seq<char>)>,
    now: nat,
    k: int,
)
    requires
        0 <= k < jobs_of(config, subscribed, now).len(),
    ensures
        reads_unpushed(jobs_of(config, subscribed, now)[k], config, subscribed, now),
{
    lemma_jobs_read_devices(config, config.devices@.len() as int, subscribed, now);
    assert(config.devices@.take(config.devices@.len() as int) =~= config.devices@);
}

/// Every configured point that is not pushed has a job that reads it as it is configured.
pub proof fn every_configured_point_has_its_job(
    config: ConnectorConfig,
    subscribed: Set<(int, Seq<char>)>,
    now: nat,
    d: int,
    i: int,
)
    requires
        0 <= d < config.devices@.len(),
        0 <= i < config.devices@[d].points@.len(),
        !subscribed.contains((d, config.devices@[d].points@[i].id@)),
    ensures
        exists|k: int|
            0 <= k < jobs_of(config, subscribed, now).len() && job_reads(
                #[trigger] jobs_of(config, subscribed, now)[k],
                config,
                d,
                i,
                now,
            ),
{
    lemma_jobs_read_devices(config, config.devices@.len() as int, subscribed, now);
    assert(config.devices@.take(config.devices@.len() as int) =~= config.devices@);
    let jobs = jobs_of(config, subscribed, now);
    let point = config.devices@[d].points@[i];
    assert(!subscribed.contains((d, point.id@)));
    let k = choose|k: int|
        0 <= k < jobs.len() && job_reads(#[trigger] jobs[k], config, d, i, now);
    assert(job_reads(jobs_of(config, subscribed, now)[k], config, d, i, now));
}

/// One more point at the end of a device adds one job at the end, or none where it is pushed, and
/// one more device at the end adds its jobs behind those of the others.
pub proof fn jobs_come_in_the_order_of_the_configuration(
    points: Seq<PointConfig>,
    point: PointConfig,
    index: int,
    mode: Option<Mode>,
    each: nat,
    subscribed: Set<(int, Seq<char>)>,
    now: nat,
    devices: Seq<DeviceConfig>,
    device: DeviceConfig,
    connector: nat,
)
    ensures
        ({
            let before = point_jobs(points, index, mode, each, subscribed, now);
            let after = point_jobs(points.push(point), index, mode, each, subscribed, now);
            &&& subscribed.contains((index, point.id@)) ==> after == before
            &&& !subscribed.contains((index, point.id@)) ==> after.len() == before.len() + 1
                && after.drop_last() == before && after.last().point.id == point.id@
        }),
        ({
            let before = device_jobs(devices, connector, subscribed, now);
            let after = device_jobs(devices.push(device), connector, subscribed, now);
            &&& after.len() >= before.len()
            &&& after.take(before.len() as int) == before
            &&& subscribed =~= Set::<(int, Seq<char>)>::empty() ==> after.len() == before.len()
                + device.points@.len()
        }),
{
    assert(points.push(point).drop_last() =~= points);
    assert(devices.push(device).drop_last() =~= devices);
    let before = point_jobs(points, index, mode, each, subscribed, now);
    let after = point_jobs(points.push(point), index, mode, each, subscribed, now);
    if !subscribed.contains((index, point.id@)) {
        assert(after.drop_last() =~= before);
    }
    let earlier = device_jobs(devices, connector, subscribed, now);
    let later = device_jobs(devices.push(device), connector, subscribed, now);
    assert(later.take(earlier.len() as int) =~= earlier);
    if subscribed =~= Set::<(int, Seq<char>)>::empty() {
        lemma_every_point_has_a_job(
            device.points@,
            devices.len() as int,
            device.default_mode,
            device_interval(device, connector),
            subscribed,
            now,
        );
    }
}

proof fn lemma_every_point_has_a_job(
    points: Seq<PointConfig>,
    index: int,
    mode: Option<Mode>,
    each: nat,
    subscribed: Set<(int, Seq<char>)>,
    now: nat,
)
    requires
        forall|id: Seq<char>| !subscribed.contains((index, id)),
    ensures
        point_jobs(points, index, mode, each, subscribed, now).len() == points.len(),
    decreases points.len(),
{
    if points.len() > 0 {
        lemma_every_point_has_a_job(points.drop_last(), index, mode, each, subscribed, now);
    }
}

/// True when push delivery is asked for a configured point: as it is configured, and as often as
/// it would be read.
pub open spec fn asks_for(
    asked: PointView,
    config: ConnectorConfig,
    index: int,
    i: int,
) -> bool {
    let device = config.devices@[index];
    &&& 0 <= i < device.points@.len()
    &&& asked.interval is Some
    &&& config::is_as_configured(asked, device.points@[i], device.default_mode)
    &&& reads_every(
        asked.interval->0,
        device.points@[i],
        device,
        config.connector.poll_interval@,
    )
}

/// True when push delivery is asked for a configured point that does not refuse it.
pub open spec fn asks_for_willing(asked: PointView, config: ConnectorConfig, index: int) -> bool {
    exists|i: int|
        #[trigger] asks_for(asked, config, index, i)
            && config.devices@[index].points@[i].subscribe != Some(false)
}

proof fn lemma_push_asks(config: ConnectorConfig, index: int, n: int)
    requires
        0 <= index < config.devices@.len(),
        0 <= n <= config.devices@[index].points@.len(),
    ensures
        ({
            let device = config.devices@[index];
            let asked = push_points(
                device.points@.take(n),
                device.default_mode,
                device_interval(device, connector_interval(config.connector.poll_interval@)),
            );
            &&& forall|k: int|
                0 <= k < asked.len() ==> asks_for_willing(#[trigger] asked[k], config, index)
            &&& forall|i: int|
                0 <= i < n && (#[trigger] device.points@[i]).subscribe != Some(false)
                    ==> exists|k: int|
                    0 <= k < asked.len() && asks_for(#[trigger] asked[k], config, index, i)
        }),
    decreases n,
{
    let device = config.devices@[index];
    let each = device_interval(device, connector_interval(config.connector.poll_interval@));
    let points = device.points@;
    let mode = device.default_mode;
    if n > 0 {
        lemma_push_asks(config, index, n - 1);
        lemma_timed_point(config, index, n - 1);
        assert(points.take(n).drop_last() =~= points.take(n - 1));
        assert(points.take(n).last() == points[n - 1]);
        let before = push_points(points.take(n - 1), mode, each);
        let asked = push_points(points.take(n), mode, each);
        assert forall|k: int| 0 <= k < asked.len() implies asks_for_willing(
            #[trigger] asked[k],
            config,
            index,
        ) by {
            if k < before.len() {
                assert(asked[k] == before[k]);
            } else {
                assert(asks_for(asked[k], config, index, n - 1));
            }
        }
        assert forall|i: int|
            0 <= i < n && (#[trigger] device.points@[i]).subscribe != Some(
                false,
            ) implies exists|k: int|
            0 <= k < asked.len() && asks_for(#[trigger] asked[k], config, index, i) by {
            if i < n - 1 {
                let k = choose|k: int|
                    0 <= k < before.len() && asks_for(#[trigger] before[k], config, index, i);
                assert(asked[k] == before[k]);
            } else {
                assert(asks_for(asked[before.len() as int], config, index, i));
            }
        }
    }
}

/// Push delivery is asked for every point of a device but those that are configured with
/// `subscribe = false`, each as it is configured; and for none where the module cannot push.
pub proof fn push_is_asked_for_configured_points(config: ConnectorConfig, index: int)
    requires
        0 <= index < config.devices@.len(),
    ensures
        push_asked(config, false, index).len() == 0,
        forall|k: int|
            0 <= k < push_asked(config, true, index).len() ==> asks_for_willing(
                #[trigger] push_asked(config, true, index)[k],
                config,
                index,
            ),
        forall|i: int|
            0 <= i < config.devices@[index].points@.len() && (
            #[trigger] config.devices@[index].points@[i]).subscribe != Some(false) ==> exists|
                k: int,
            |
                0 <= k < push_asked(config, true, index).len() && asks_for(
                    #[trigger] push_asked(config, true, index)[k],
                    config,
                    index,
                    i,
                ),
{
    let points = config.devices@[index].points@;
    let asked = push_asked(config, true, index);
    lemma_push_asks(config, index, points.len() as int);
    assert(points.take(points.len() as int) =~= points);
    assert forall|i: int|
        0 <= i < config.devices@[index].points@.len() && (
        #[trigger] config.devices@[index].points@[i]).subscribe != Some(false) implies exists|
        k: int,
    |
        0 <= k < push_asked(config, true, index).len() && asks_for(
            #[trigger] push_asked(config, true, index)[k],
            config,
            index,
            i,
        ) by {
        let k = choose|k: int|
            0 <= k < asked.len() && asks_for(#[trigger] asked[k], config, index, i);
        assert(asks_for(push_asked(config, true, index)[k], config, index, i));
    }
}

proof fn lemma_due_points(entries: Seq<EntryView>, device: int, now: nat)
    ensures
        forall|k: int|
            0 <= k < entries.len() && (#[trigger] entries[k]).device_index == device
                && entries[k].next_due <= now ==> due_points(entries, device, now).contains(
                entries[k].point,
            ),
        forall|j: int|
            0 <= j < due_points(entries, device, now).len() ==> exists|k: int|
                0 <= k < entries.len() && (#[trigger] entries[k]).device_index == device
                    && entries[k].next_due <= now && entries[k].point == #[trigger] due_points(
                    entries,
                    device,
                    now,
                )[j],
    decreases entries.len(),
{
    if entries.len() > 0 {
        let less = entries.drop_last();
        let n = entries.len() - 1;
        let before = due_points(less, device, now);
        let after = due_points(entries, device, now);
        lemma_due_points(less, device, now);
        assert forall|k: int|
            0 <= k < entries.len() && (#[trigger] entries[k]).device_index == device
                && entries[k].next_due <= now implies after.contains(entries[k].point) by {
            if k < n {
                assert(less[k] == entries[k]);
                assert(before.contains(less[k].point));
                let j = choose|j: int| 0 <= j < before.len() && before[j] == less[k].point;
                assert(after[j] == entries[k].point);
            } else {
                assert(after[before.len() as int] == entries[k].point);
            }
        }
        assert forall|j: int| 0 <= j < after.len() implies exists|k: int|
            0 <= k < entries.len() && (#[trigger] entries[k]).device_index == device
                && entries[k].next_due <= now && entries[k].point == #[trigger] after[j] by {
            if j < before.len() {
                assert(after[j] == before[j]);
                let k = choose|k: int|
                    0 <= k < less.len() && (#[trigger] less[k]).device_index == device
                        && less[k].next_due <= now && less[k].point == before[j];
                assert(entries[k] == less[k]);
            } else {
                assert(entries[n].point == after[j]);
            }
        }
    }
}

/// A point that is due is read with its device's batch.
pub proof fn a_due_point_is_read(entries: Seq<EntryView>, now: nat, k: int)
    requires
        0 <= k < entries.len(),
        entries[k].next_due <= now,
    ensures
        exists|b: int|
            0 <= b < gathered(entries, now).len() && (#[trigger] gathered(entries, now)[b]).0
                == entries[k].device_index && gathered(entries, now)[b].1.contains(
                entries[k].point,
            ),
{
    let device = entries[k].device_index;
    a_batch_holds_what_is_due(entries, device, now);
    lemma_due_points(entries, device, now);
    lemma_batch_index(gathered(entries, now), device);
    let b = batch_index(gathered(entries, now), device);
    assert(due_points(entries, device, now).contains(entries[k].point));
    assert(b < gathered(entries, now).len());
}

/// Only points that are due are read, each with the batch of its own device.
pub proof fn only_due_points_are_read(entries: Seq<EntryView>, now: nat, b: int, j: int)
    requires
        0 <= b < gathered(entries, now).len(),
        0 <= j < gathered(entries, now)[b].1.len(),
    ensures
        exists|k: int|
            0 <= k < entries.len() && (#[trigger] entries[k]).device_index == gathered(
                entries,
                now,
            )[b].0 && entries[k].next_due <= now && entries[k].point == gathered(
                entries,
                now,
            )[b].1[j],
{
    let batches = gathered(entries, now);
    let device = batches[b].0;
    one_batch_a_device(entries, now);
    a_batch_holds_what_is_due(entries, device, now);
    lemma_batch_index_unique(batches, device, b);
    lemma_due_points(entries, device, now);
    assert(due_points(entries, device, now)[j] == batches[b].1[j]);
}

/// A job that was due is due again one interval from now, and one that was not keeps its time.
/// Nothing else of a job changes.
pub proof fn when_a_job_is_due_again(entry: EntryView, now: nat)
    ensures
        entry.next_due <= now ==> rescheduled(entry, now).next_due == now + entry.interval,
        entry.next_due > now ==> rescheduled(entry, now).next_due == entry.next_due,
        rescheduled(entry, now).point == entry.point,
        rescheduled(entry, now).interval == entry.interval,
        rescheduled(entry, now).device_index == entry.device_index,
{
}

/// After push delivery was asked for, just the points that were asked for have changed: they are
/// pushed where it was agreed on, and are not where it was refused.
pub proof fn what_a_subscription_changes(
    subscribed: Set<(int, Seq<char>)>,
    index: int,
    points: Seq<PointView>,
    id: Seq<char>,
)
    ensures
        ({
            let asked = exists|i: int| 0 <= i < points.len() && (#[trigger] points[i]).id == id;
            &&& asked ==> settled(subscribed, index, points, true).contains((index, id))
            &&& asked ==> !settled(subscribed, index, points, false).contains((index, id))
            &&& !asked ==> settled(subscribed, index, points, true).contains((index, id))
                == subscribed.contains((index, id))
            &&& !asked ==> settled(subscribed, index, points, false).contains((index, id))
                == subscribed.contains((index, id))
        }),
{
}

/// Every job of the schedule reads a configured point that is not pushed, with the data type, the
/// orders, the access, the unit and the scaling that are configured for it.
pub proof fn build_schedule_keeps_what_is_configured(
    config: &ConnectorConfig,
    subscribed: &Subscribed,
    now: Duration,
    r: Vec<ScheduleEntry>,
    k: int,
)
    requires
        call_ensures(build_schedule, (config, subscribed, now), r),
        0 <= k < r@.len(),
    ensures
        exists|i: int|
            #![trigger config.devices@[r@[k].device_index as int].points@[i]]
            0 <= i < config.devices@[r@[k].device_index as int].points@.len() && ({
                let device = config.devices@[r@[k].device_index as int];
                let point = device.points@[i];
                &&& r@[k].point.id@ == point.id@
                &&& r@[k].point.datatype == point.datatype
                &&& config::is_as_configured(r@[k].point@, point, device.default_mode)
                &&& reads_every(
                    clock::nanos(r@[k].interval),
                    point,
                    device,
                    config.connector.poll_interval@,
                )
                &&& !subscribed@.contains((r@[k].device_index as int, point.id@))
            }),
{
    every_job_reads_a_configured_point(*config, subscribed@, clock::nanos(now), k);
    let job = entry_views(r@)[k];
    assert(job == r@[k]@);
    let (d, i) = choose|d: int, i: int|
        #[trigger] job_reads(job, *config, d, i, clock::nanos(now)) && !subscribed@.contains(
            (d, config.devices@[d].points@[i].id@),
        );
    let point = config.devices@[d].points@[i];
    assert(r@[k].point@.id == point.id@);
    assert(r@[k].device_index == d);
}

/// Every point that push delivery is asked for is a configured point of the device that does not
/// refuse it, with the data type, the orders, the access, the unit and the scaling that are
/// configured for it.
pub proof fn push_request_keeps_what_is_configured(
    config: &ConnectorConfig,
    capable: bool,
    index: usize,
    r: Vec<PointRef>,
    k: int,
)
    requires
        index < config.devices@.len(),
        call_ensures(push_request, (config, capable, index), r),
        0 <= k < r@.len(),
    ensures
        capable,
        exists|i: int|
            #![trigger config.devices@[index as int].points@[i]]
            0 <= i < config.devices@[index as int].points@.len() && ({
                let device = config.devices@[index as int];
                let point = device.points@[i];
                &&& r@[k].id@ == point.id@
                &&& r@[k].datatype == point.datatype
                &&& config::is_as_configured(r@[k]@, point, device.default_mode)
                &&& point.subscribe != Some(false)
            }),
{
    push_is_asked_for_configured_points(*config, index as int);
    let asked = model::point_views(r@);
    assert(asked[k] == r@[k]@);
    assert(asks_for_willing(push_asked(*config, true, index as int)[k], *config, index as int));
    let i = choose|i: int|
        #[trigger] asks_for(asked[k], *config, index as int, i)
            && config.devices@[index as int].points@[i].subscribe != Some(false);
    let point = config.devices@[index as int].points@[i];
    assert(r@[k]@.id == point.id@);
}

} // verus!

//! Samples on their way out: their numbers, and what the configuration adds to them.

use crate::config::{ConnectorConfig, DeviceConfig, PointConfig};
use crate::json;
use crate::json::{copy_opt_json, set_member, Json, JsonView};
use crate::message;
use crate::message::{sample_topic, Message, MessageView};
use crate::model;
use crate::model::{access_str, Access, Quality};
use crate::pairs::PairMap;
use crate::text;
use vstd::prelude::*;
use vstd::string::*;

verus! {

/// What the configuration adds to every sample of a point: its free-form `meta`, and its access,
/// so that a consumer can tell a writable point without the configuration.
#[derive(Debug)]
pub struct PointExtras {
    pub meta: Option<Json>,
    pub access: Access,
}

/// What a [`PointExtras`] holds.
pub struct ExtrasView {
    pub meta: Option<JsonView>,
    pub access: Access,
}

impl View for PointExtras {
    type V = ExtrasView;

    open spec fn view(&self) -> ExtrasView {
        ExtrasView { meta: json::opt_json(self.meta), access: self.access }
    }
}

/// What the configuration adds to samples, by device and point.
pub struct MetaIndex {
    extras: PairMap<PointExtras>,
}

impl View for MetaIndex {
    type V = Map<(Seq<char>, Seq<char>), ExtrasView>;

    closed spec fn view(&self) -> Map<(Seq<char>, Seq<char>), ExtrasView> {
        self.extras@.map_values(|e: PointExtras| e@)
    }
}

impl MetaIndex {
    /// Nothing is added.
    pub fn new() -> (r: Self)
        ensures
            r@ == Map::<(Seq<char>, Seq<char>), ExtrasView>::empty(),
    {
        let r = MetaIndex { extras: PairMap::new() };
        assert(r@ =~= Map::<(Seq<char>, Seq<char>), ExtrasView>::empty());
        r
    }

    /// What is added to the samples of a point.
    pub fn get(&self, device: &str, point: &str) -> (r: Option<&PointExtras>)
        ensures
            match r {
                Some(e) => self@.contains_key((device@, point@)) && e@ == self@[(
                    device@,
                    point@,
                )],
                None => !self@.contains_key((device@, point@)),
            },
    {
        self.extras.get(device, point)
    }

    /// Sets what is added to the samples of a point.
    pub fn insert(&mut self, device: &str, point: &str, extras: PointExtras)
        ensures
            final(self)@ == old(self)@.insert((device@, point@), extras@),
    {
        let ghost before = self@;
        self.extras.insert(device, point, extras);
        assert(self@ =~= before.insert((device@, point@), extras@));
    }
}

/// What a point's configuration adds to its samples.
pub open spec fn extras_of(point: PointConfig) -> ExtrasView {
    ExtrasView {
        meta: json::opt_json(point.meta),
        access: model::access_of(text::opt_text(point.access)),
    }
}

/// An index with the points of one device added.
pub open spec fn points_indexed(
    index: Map<(Seq<char>, Seq<char>), ExtrasView>,
    device: Seq<char>,
    points: Seq<PointConfig>,
) -> Map<(Seq<char>, Seq<char>), ExtrasView>
    decreases points.len(),
{
    if points.len() == 0 {
        index
    } else {
        points_indexed(index, device, points.drop_last()).insert(
            (device, points.last().id@),
            extras_of(points.last()),
        )
    }
}

/// The index of devices. Of two points with one name on devices with one name, the later stands.
pub open spec fn devices_indexed(devices: Seq<DeviceConfig>) -> Map<
    (Seq<char>, Seq<char>),
    ExtrasView,
>
    decreases devices.len(),
{
    if devices.len() == 0 {
        Map::empty()
    } else {
        points_indexed(
            devices_indexed(devices.drop_last()),
            devices.last().name@,
            devices.last().points@,
        )
    }
}

/// What a configuration adds to samples.
pub fn build_meta_index(config: &ConnectorConfig) -> (r: MetaIndex)
    ensures
        r@ == devices_indexed(config.devices@),
{
    let ghost devices = config.devices@;
    let mut index = MetaIndex::new();
    let mut d: usize = 0;
    while d < config.devices.len()
        invariant
            0 <= d <= config.devices.len(),
            devices == config.devices@,
            index@ == devices_indexed(devices.take(d as int)),
        decreases config.devices.len() - d,
    {
        let device = &config.devices[d];
        let points = &device.points;
        let ghost before = index@;
        let mut i: usize = 0;
        while i < points.len()
            invariant
                0 <= i <= points.len(),
                index@ == points_indexed(before, device.name@, points@.take(i as int)),
            decreases points.len() - i,
        {
            let point = &points[i];
            assert(points@.take(i + 1).drop_last() =~= points@.take(i as int));
            index.insert(
                device.name.as_str(),
                point.id.as_str(),
                PointExtras { meta: copy_opt_json(&point.meta), access: point.resolved_access() },
            );
            i += 1;
        }
        assert(points@.take(i as int) =~= points@);
        assert(devices.take(d + 1).drop_last() =~= devices.take(d as int));
        assert(devices.take(d + 1).last() == devices[d as int]);
        d += 1;
    }
    assert(devices.take(d as int) =~= devices);
    index
}

/// An envelope with what the configuration adds: the `meta`, where there is one, and the access.
pub open spec fn extended(
    envelope: Seq<(Seq<char>, JsonView)>,
    extras: Option<ExtrasView>,
) -> Seq<(Seq<char>, JsonView)> {
    match extras {
        None => envelope,
        Some(e) => {
            let told = match e.meta {
                Some(meta) => json::with_member(envelope, "meta"@, meta),
                None => envelope,
            };
            json::with_member(told, "access"@, JsonView::Text(model::access_name(e.access)))
        },
    }
}

/// What an index holds for a point.
pub open spec fn extras_in(
    index: Map<(Seq<char>, Seq<char>), ExtrasView>,
    device: Seq<char>,
    point: Seq<char>,
) -> Option<ExtrasView> {
    if index.contains_key((device, point)) {
        Some(index[(device, point)])
    } else {
        None
    }
}

/// The envelope of a sample as it is published: its own members, and what the configuration adds.
pub fn envelope_with_meta(
    envelope: Vec<(String, Json)>,
    device: &str,
    point: &str,
    index: &MetaIndex,
) -> (r: Json)
    ensures
        r@ == JsonView::Object(
            extended(json::members_view(envelope@), extras_in(index@, device@, point@)),
        ),
{
    let mut members = envelope;
    if let Some(extras) = index.get(device, point) {
        if let Some(meta) = &extras.meta {
            set_member(&mut members, "meta", meta.clone());
        }
        set_member(&mut members, "access", Json::text(access_str(extras.access)));
    }
    Json::Object(members)
}

/// How many samples of each point have gone out.
pub struct SeqCounters {
    counts: PairMap<u64>,
}

impl View for SeqCounters {
    type V = Map<(Seq<char>, Seq<char>), u64>;

    closed spec fn view(&self) -> Map<(Seq<char>, Seq<char>), u64> {
        self.counts@
    }
}

/// How many samples of a point were counted.
pub open spec fn counted(
    counts: Map<(Seq<char>, Seq<char>), u64>,
    device: Seq<char>,
    point: Seq<char>,
) -> u64 {
    if counts.contains_key((device, point)) {
        counts[(device, point)]
    } else {
        0
    }
}

impl SeqCounters {
    /// No sample has gone out.
    pub fn new() -> (r: Self)
        ensures
            r@ == Map::<(Seq<char>, Seq<char>), u64>::empty(),
    {
        SeqCounters { counts: PairMap::new() }
    }

    /// How many samples of a point have gone out.
    pub fn count(&self, device: &str, point: &str) -> (r: u64)
        ensures
            r == counted(self@, device@, point@),
    {
        match self.counts.get(device, point) {
            Some(n) => *n,
            None => 0,
        }
    }

    /// Counts one more sample of a point, and gives it its number.
    pub fn next(&mut self, device: &str, point: &str) -> (r: u64)
        requires
            counted(old(self)@, device@, point@) < u64::MAX,
        ensures
            r == counted(old(self)@, device@, point@) + 1,
            final(self)@ == old(self)@.insert((device@, point@), r),
    {
        let n: u64 = self.count(device, point) + 1;
        self.counts.insert(device, point, n);
        n
    }
}

/// The message that publishes a sample.
pub fn sample_message(protocol: &str, device: &str, point: &str, payload: Json) -> (r: Message)
    ensures
        r@ == (MessageView {
            topic: message::sample_topic_of(device@, protocol@, point@),
            payload: payload@,
            retained: false,
        }),
{
    Message { topic: sample_topic(device, protocol, point), payload, retained: false }
}

/// What one read of a point came to.
#[derive(Debug)]
pub struct Reading {
    pub quality: Quality,
    pub error: Option<String>,
}

/// True when at least one of the readings is of use.
pub open spec fn any_usable(readings: Seq<Reading>) -> bool {
    exists|i: int| 0 <= i < readings.len() && (#[trigger] readings[i]).quality != Quality::Bad
}

/// The first error among readings.
pub open spec fn first_error(readings: Seq<Reading>) -> Option<Seq<char>>
    decreases readings.len(),
{
    if readings.len() == 0 {
        None
    } else {
        match readings.first().error {
            Some(e) => Some(e@),
            None => first_error(readings.drop_first()),
        }
    }
}

/// True when at least one of the readings is of use.
pub fn some_usable(readings: &Vec<Reading>) -> (r: bool)
    ensures
        r == any_usable(readings@),
{
    let mut i: usize = 0;
    while i < readings.len()
        invariant
            0 <= i <= readings.len(),
            forall|j: int| 0 <= j < i ==> (#[trigger] readings@[j]).quality == Quality::Bad,
        decreases readings.len() - i,
    {
        if readings[i].quality != Quality::Bad {
            assert(readings@[i as int].quality != Quality::Bad);
            return true;
        }
        i += 1;
    }
    false
}

/// The first error among readings.
pub fn find_error(readings: &Vec<Reading>) -> (r: Option<String>)
    ensures
        text::opt_text(r) == first_error(readings@),
{
    let ghost all = readings@;
    let mut i: usize = 0;
    assert(all.skip(0) =~= all);
    while i < readings.len()
        invariant
            0 <= i <= readings.len(),
            all == readings@,
            first_error(all) == first_error(all.skip(i as int)),
        decreases readings.len() - i,
    {
        assert(all.skip(i as int).drop_first() =~= all.skip(i + 1));
        assert(all.skip(i as int).first() == all[i as int]);
        if let Some(e) = &readings[i].error {
            return Some(e.clone());
        }
        i += 1;
    }
    None
}

/// The samples of a point are numbered one after the other, and no other point's count moves.
pub proof fn numbers_are_consecutive(
    counts: Map<(Seq<char>, Seq<char>), u64>,
    device: Seq<char>,
    point: Seq<char>,
    other: (Seq<char>, Seq<char>),
)
    requires
        counted(counts, device, point) < u64::MAX,
    ensures
        ({
            let n = (counted(counts, device, point) + 1) as u64;
            let after = counts.insert((device, point), n);
            counted(after, device, point) == n && (other != (device, point) ==> counted(
                after,
                other.0,
                other.1,
            ) == counted(counts, other.0, other.1))
        }),
{
}

/// Points that do not have the key leave what an index holds for it.
proof fn lemma_points_without(
    index: Map<(Seq<char>, Seq<char>), ExtrasView>,
    device: Seq<char>,
    points: Seq<PointConfig>,
    key: (Seq<char>, Seq<char>),
)
    requires
        forall|i: int|
            0 <= i < points.len() ==> (device, (#[trigger] points[i]).id@) != key,
    ensures
        extras_in(points_indexed(index, device, points), key.0, key.1) == extras_in(
            index,
            key.0,
            key.1,
        ),
    decreases points.len(),
{
    if points.len() > 0 {
        let less = points.drop_last();
        assert forall|i: int| 0 <= i < less.len() implies (device, (#[trigger] less[i]).id@)
            != key by {
            assert(less[i] == points[i]);
        }
        lemma_points_without(index, device, less, key);
        assert((device, points[points.len() - 1].id@) != key);
    }
}

/// Of points with one id, the last one's extras stand.
proof fn lemma_points_with(
    index: Map<(Seq<char>, Seq<char>), ExtrasView>,
    device: Seq<char>,
    points: Seq<PointConfig>,
    i: int,
)
    requires
        0 <= i < points.len(),
        forall|j: int| i < j < points.len() ==> (#[trigger] points[j]).id@ != points[i].id@,
    ensures
        extras_in(points_indexed(index, device, points), device, points[i].id@) == Some(
            extras_of(points[i]),
        ),
    decreases points.len(),
{
    let n = points.len() - 1;
    if i < n {
        let less = points.drop_last();
        assert(points[n].id@ != points[i].id@);
        assert(less[i] == points[i]);
        assert forall|j: int| i < j < less.len() implies (#[trigger] less[j]).id@
            != less[i].id@ by {
            assert(less[j] == points[j]);
        }
        lemma_points_with(index, device, less, i);
    }
}

/// Every configured point has its extras in the index, unless a later one has the same id on a
/// device of the same name.
pub proof fn every_point_is_indexed(devices: Seq<DeviceConfig>, d: int, i: int)
    requires
        0 <= d < devices.len(),
        0 <= i < devices[d].points@.len(),
        forall|j: int|
            i < j < devices[d].points@.len() ==> (#[trigger] devices[d].points@[j]).id@
                != devices[d].points@[i].id@,
        forall|e: int, j: int|
            #![trigger devices[e].points@[j]]
            d < e < devices.len() && 0 <= j < devices[e].points@.len() ==> (
                devices[e].name@,
                devices[e].points@[j].id@,
            ) != (devices[d].name@, devices[d].points@[i].id@),
    ensures
        extras_in(devices_indexed(devices), devices[d].name@, devices[d].points@[i].id@) == Some(
            extras_of(devices[d].points@[i]),
        ),
    decreases devices.len(),
{
    let n = devices.len() - 1;
    let less = devices.drop_last();
    if d == n {
        lemma_points_with(devices_indexed(less), devices[n].name@, devices[n].points@, i);
    } else {
        assert(less[d] == devices[d]);
        assert forall|e: int, j: int|
            #![trigger less[e].points@[j]]
            d < e < less.len() && 0 <= j < less[e].points@.len() implies (
            less[e].name@,
            less[e].points@[j].id@,
        ) != (less[d].name@, less[d].points@[i].id@) by {
            assert(less[e] == devices[e]);
            assert(devices[e].points@[j] == less[e].points@[j]);
        }
        every_point_is_indexed(less, d, i);
        let key = (devices[d].name@, devices[d].points@[i].id@);
        assert forall|j: int| 0 <= j < devices[n].points@.len() implies (
            devices[n].name@,
            (#[trigger] devices[n].points@[j]).id@,
        ) != key by {}
        lemma_points_without(devices_indexed(less), devices[n].name@, devices[n].points@, key);
    }
}

/// What a published envelope says under `access` and `meta`, and that it says all else as the
/// sample did.
pub proof fn an_envelope_carries_its_extras(
    envelope: Seq<(Seq<char>, JsonView)>,
    extras: ExtrasView,
    key: Seq<char>,
)
    ensures
        json::lookup(extended(envelope, Some(extras)), "access"@) == Some(
            JsonView::Text(model::access_name(extras.access)),
        ),
        extras.meta matches Some(meta) ==> json::lookup(
            extended(envelope, Some(extras)),
            "meta"@,
        ) == Some(meta),
        key != "access"@ && (key != "meta"@ || extras.meta is None) ==> json::lookup(
            extended(envelope, Some(extras)),
            key,
        ) == json::lookup(envelope, key),
        extended(envelope, None) == envelope,
{
    reveal_strlit("meta");
    reveal_strlit("access");
    assert("meta"@.len() != "access"@.len());
    let access = JsonView::Text(model::access_name(extras.access));
    let told = match extras.meta {
        Some(meta) => json::with_member(envelope, "meta"@, meta),
        None => envelope,
    };
    json::lemma_with_member(told, "access"@, access, "meta"@);
    json::lemma_with_member(told, "access"@, access, key);
    if let Some(meta) = extras.meta {
        json::lemma_with_member(envelope, "meta"@, meta, key);
    }
}

/// The index holds for every configured point its own `meta` and the access that its configured
/// name stands for, unless a later point has the same id on a device of the same name.
pub proof fn the_index_holds_what_is_configured(devices: Seq<DeviceConfig>, d: int, i: int)
    requires
        0 <= d < devices.len(),
        0 <= i < devices[d].points@.len(),
        forall|j: int|
            i < j < devices[d].points@.len() ==> (#[trigger] devices[d].points@[j]).id@
                != devices[d].points@[i].id@,
        forall|e: int, j: int|
            #![trigger devices[e].points@[j]]
            d < e < devices.len() && 0 <= j < devices[e].points@.len() ==> (
                devices[e].name@,
                devices[e].points@[j].id@,
            ) != (devices[d].name@, devices[d].points@[i].id@),
    ensures
        ({
            let point = devices[d].points@[i];
            let key = (devices[d].name@, point.id@);
            let index = devices_indexed(devices);
            &&& index.contains_key(key)
            &&& index[key].meta == json::opt_json(point.meta)
            &&& index[key].access == Access::Write <==> text::opt_text(point.access) == Some(
                "write"@,
            )
            &&& index[key].access == Access::ReadWrite <==> text::opt_text(point.access) == Some(
                "read_write"@,
            )
        }),
{
    every_point_is_indexed(devices, d, i);
    model::what_an_access_name_permits(text::opt_text(devices[d].points@[i].access));
}

proof fn lemma_points_absent(
    index: Map<(Seq<char>, Seq<char>), ExtrasView>,
    device: Seq<char>,
    points: Seq<PointConfig>,
    key: (Seq<char>, Seq<char>),
)
    requires
        !index.contains_key(key),
        forall|j: int| 0 <= j < points.len() ==> (device, (#[trigger] points[j]).id@) != key,
    ensures
        !points_indexed(index, device, points).contains_key(key),
{
    lemma_points_without(index, device, points, key);
    assert(extras_in(index, key.0, key.1) is None);
}

/// Nothing is added to the samples of a point that is not configured.
pub proof fn the_index_holds_nothing_else(
    devices: Seq<DeviceConfig>,
    device: Seq<char>,
    point: Seq<char>,
)
    requires
        forall|e: int, j: int|
            #![trigger devices[e].points@[j]]
            0 <= e < devices.len() && 0 <= j < devices[e].points@.len() ==> (
                devices[e].name@,
                devices[e].points@[j].id@,
            ) != (device, point),
    ensures
        !devices_indexed(devices).contains_key((device, point)),
    decreases devices.len(),
{
    if devices.len() > 0 {
        let less = devices.drop_last();
        let n = devices.len() - 1;
        assert forall|e: int, j: int|
            #![trigger less[e].points@[j]]
            0 <= e < less.len() && 0 <= j < less[e].points@.len() implies (
            less[e].name@,
            less[e].points@[j].id@,
        ) != (device, point) by {
            assert(less[e] == devices[e]);
            assert(devices[e].points@[j] == less[e].points@[j]);
        }
        the_index_holds_nothing_else(less, device, point);
        assert forall|j: int| 0 <= j < devices[n].points@.len() implies (
            devices[n].name@,
            (#[trigger] devices[n].points@[j]).id@,
        ) != (device, point) by {}
        lemma_points_absent(
            devices_indexed(less),
            devices[n].name@,
            devices[n].points@,
            (device, point),
        );
    }
}

/// A published envelope tells the access of its point by the name that is configured: `write` and
/// `read_write` as they stand, all else as `read`. It carries the point's `meta`, where there is
/// one, and says all else as the sample did.
pub proof fn a_published_envelope_tells_what_is_configured(
    devices: Seq<DeviceConfig>,
    d: int,
    i: int,
    envelope: Seq<(Seq<char>, JsonView)>,
    key: Seq<char>,
)
    requires
        0 <= d < devices.len(),
        0 <= i < devices[d].points@.len(),
        forall|j: int|
            i < j < devices[d].points@.len() ==> (#[trigger] devices[d].points@[j]).id@
                != devices[d].points@[i].id@,
        forall|e: int, j: int|
            #![trigger devices[e].points@[j]]
            d < e < devices.len() && 0 <= j < devices[e].points@.len() ==> (
                devices[e].name@,
                devices[e].points@[j].id@,
            ) != (devices[d].name@, devices[d].points@[i].id@),
    ensures
        ({
            let point = devices[d].points@[i];
            let published = extended(
                envelope,
                extras_in(devices_indexed(devices), devices[d].name@, point.id@),
            );
            let configured = text::opt_text(point.access);
            &&& json::lookup(published, "access"@) == Some(
                JsonView::Text(
                    if configured == Some("read_write"@) {
                        "read_write"@
                    } else if configured == Some("write"@) {
                        "write"@
                    } else {
                        "read"@
                    },
                ),
            )
            &&& point.meta matches Some(meta) ==> json::lookup(published, "meta"@) == Some(meta@)
            &&& key != "access"@ && (key != "meta"@ || point.meta is None) ==> json::lookup(
                published,
                key,
            ) == json::lookup(envelope, key)
        }),
{
    let point = devices[d].points@[i];
    the_index_holds_what_is_configured(devices, d, i);
    let extras = devices_indexed(devices)[(devices[d].name@, point.id@)];
    an_envelope_carries_its_extras(envelope, extras, key);
    model::what_an_access_is_called(extras.access);
    model::what_an_access_name_permits(text::opt_text(point.access));
}

/// Readings are of use as long as one of them is good or stale.
pub proof fn good_and_stale_readings_are_of_use(readings: Seq<Reading>)
    ensures
        any_usable(readings) <==> exists|i: int|
            0 <= i < readings.len() && ((#[trigger] readings[i]).quality == Quality::Good
                || readings[i].quality == Quality::Stale),
{
    if any_usable(readings) {
        let i = choose|i: int|
            0 <= i < readings.len() && (#[trigger] readings[i]).quality != Quality::Bad;
        assert(readings[i].quality == Quality::Good || readings[i].quality == Quality::Stale);
    }
}

/// The first error among readings is that of the first reading that has one.
pub proof fn the_first_error_is_told(readings: Seq<Reading>, i: int)
    requires
        0 <= i <= readings.len(),
        forall|j: int| 0 <= j < i ==> (#[trigger] readings[j]).error is None,
        i < readings.len() ==> readings[i].error is Some,
    ensures
        i < readings.len() ==> first_error(readings) == Some(readings[i].error->0@),
        i == readings.len() ==> first_error(readings) is None,
    decreases readings.len(),
{
    if i > 0 {
        let rest = readings.drop_first();
        assert(readings[0].error is None);
        assert forall|j: int| 0 <= j < i - 1 implies (#[trigger] rest[j]).error is None by {
            assert(rest[j] == readings[j + 1]);
        }
        the_first_error_is_told(rest, i - 1);
    }
}

/// The first sample of a point has the number one.
pub proof fn counting_begins_at_one(device: Seq<char>, point: Seq<char>)
    ensures
        counted(Map::<(Seq<char>, Seq<char>), u64>::empty(), device, point) + 1 == 1,
{
}

/// The samples of a configured point are published with the access that its configured name stands
/// for and with its `meta`, unless a later point has the same id on a device of the same name.
pub proof fn samples_are_published_with_what_is_configured(
    config: &ConnectorConfig,
    index: &MetaIndex,
    d: int,
    i: int,
    envelope: Vec<(String, Json)>,
    device: &str,
    point: &str,
    r: Json,
)
    requires
        call_ensures(build_meta_index, (config,), *index),
        call_ensures(envelope_with_meta, (envelope, device, point, index), r),
        0 <= d < config.devices@.len(),
        0 <= i < config.devices@[d].points@.len(),
        device@ == config.devices@[d].name@,
        point@ == config.devices@[d].points@[i].id@,
        forall|j: int|
            i < j < config.devices@[d].points@.len() ==> (
            #[trigger] config.devices@[d].points@[j]).id@ != point@,
        forall|e: int, j: int|
            #![trigger config.devices@[e].points@[j]]
            d < e < config.devices@.len() && 0 <= j < config.devices@[e].points@.len() ==> (
                config.devices@[e].name@,
                config.devices@[e].points@[j].id@,
            ) != (device@, point@),
    ensures
        ({
            let configured = text::opt_text(config.devices@[d].points@[i].access);
            let access = r@.get_text("access"@);
            &&& configured == Some("read_write"@) ==> access == Some("read_write"@)
            &&& configured == Some("write"@) ==> access == Some("write"@)
            &&& configured != Some("read_write"@) && configured != Some("write"@) ==> access
                == Some("read"@)
            &&& config.devices@[d].points@[i].meta matches Some(meta) ==> r@.get("meta"@) == Some(
                meta@,
            )
        }),
{
    a_published_envelope_tells_what_is_configured(
        config.devices@,
        d,
        i,
        json::members_view(envelope@),
        "meta"@,
    );
    model::what_an_access_name_permits(text::opt_text(config.devices@[d].points@[i].access));
}

/// A sample goes out under its device, the protocol and its point, with its payload as it is, and
/// the broker does not keep it.
pub proof fn how_a_sample_goes_out(
    protocol: &str,
    device: &str,
    point: &str,
    payload: Json,
    r: Message,
)
    requires
        call_ensures(sample_message, (protocol, device, point, payload), r),
    ensures
        !r.retained,
        r.topic@ == "te/device/"@ + device@ + "/ot/"@ + protocol@ + "/sample/"@ + point@,
        r.payload@ == payload@,
{
    message::where_messages_go(device@, protocol@, point@, protocol@, point@);
    assert(r@.topic == r.topic@ && r@.retained == r.retained && r@.payload == r.payload@);
}

} // verus!

use std::time::{Duration, Instant};
use tedge_dot_sdk::clock::{idle_between, stamp_of, Progress, ReconnectEntry};
use tedge_dot_sdk::config::{
    bounded, parse_duration, point_ref, ConnectorConfig, ConnectorSection, DeviceConfig, Limits,
    MqttSection, PointConfig,
};
use tedge_dot_sdk::json::{parse_json, Json};
use tedge_dot_sdk::links::{after_connect, after_reconnect, Attempt, LinkTracker};
use tedge_dot_sdk::model::{
    resolve_mode, Access, ConnectorError, Endianness, LinkReport, LinkStatus, Mode, Quality,
    Transform, WordOrder,
};
use tedge_dot_sdk::reconnects::Reconnects;
use tedge_dot_sdk::round::{Round, Task};
use tedge_dot_sdk::samples::{sample_message, Reading, SeqCounters};
use tedge_dot_sdk::schedule::{
    build_schedule, next_push, push_request, schedule_fits, subscribe_device, take_due, Subscribed,
};
use tedge_dot_sdk::session::{find_device, to_resubscribe, Session};

fn json(text: &str) -> Json {
    parse_json(text.as_bytes()).expect("json")
}

fn secs(n: u64) -> Duration {
    Duration::from_secs(n)
}

fn point(id: &str) -> PointConfig {
    PointConfig {
        id: id.into(),
        mode: None,
        datatype: None,
        endianness: None,
        word_order: None,
        access: None,
        unit: None,
        transform: None,
        poll_interval: None,
        subscribe: None,
        meta: None,
    }
}

fn device(name: &str, points: Vec<PointConfig>) -> DeviceConfig {
    DeviceConfig { name: name.into(), poll_interval: None, default_mode: None, points }
}

fn config(devices: Vec<DeviceConfig>) -> ConnectorConfig {
    ConnectorConfig {
        connector: ConnectorSection {
            protocol: "modbus".into(),
            service_name: "dot".into(),
            poll_interval: "3s".into(),
            operation_timeout: "30s".into(),
            log_level: "info".into(),
        },
        mqtt: MqttSection { host: "h".into(), port: 1883 },
        devices,
    }
}

fn good() -> Reading {
    Reading { quality: Quality::Good, error: None }
}

fn bad(error: Option<&str>) -> Reading {
    Reading { quality: Quality::Bad, error: error.map(String::from) }
}

fn report(device: &str, status: LinkStatus, info: Option<Json>) -> LinkReport {
    LinkReport { device: device.into(), status, reason: None, info }
}

#[test]
fn durations_are_read() {
    assert_eq!(parse_duration("250ms"), Some(Duration::from_millis(250)));
    assert_eq!(parse_duration("1999ms"), Some(Duration::from_millis(1999)));
    assert_eq!(parse_duration("2s"), Some(secs(2)));
    assert_eq!(parse_duration("5m"), Some(secs(300)));
    assert_eq!(parse_duration("1h"), Some(secs(3600)));
    assert_eq!(parse_duration("0s"), Some(secs(0)));
    assert_eq!(parse_duration("007s"), Some(secs(7)));
    assert_eq!(parse_duration("18446744073709551615s"), Some(secs(u64::MAX)));
    for text in [
        "", "s", "2", "2 s", "-2s", "2.5s", "2S", "2d", " 2s", "2s ", "s2", "2ss",
        "18446744073709551616s", "18446744073709551615m", "18446744073709551615h",
        "99999999999999999999999999999999999999999999ms", "\u{0}", "\u{661}s",
    ] {
        assert_eq!(parse_duration(text), None, "{text:?}");
    }
}

#[test]
fn a_limit_is_thirty_seconds_unless_configured() {
    let limit = |text: &str| {
        let mut c = config(vec![]);
        c.connector.operation_timeout = text.into();
        Limits::from_config(&c).operation
    };
    assert_eq!(limit("5s"), secs(5));
    assert_eq!(limit("1ms"), Duration::from_millis(1));
    assert_eq!(limit("0s"), secs(30));
    assert_eq!(limit("soon"), secs(30));
    assert_eq!(limit(""), secs(30));
}

#[test]
fn a_call_that_hangs_is_a_transport_failure() {
    let limits = Limits { operation: Duration::from_millis(2500) };
    match bounded::<u8>(limits, "read", None) {
        Err(ConnectorError::Transport(text)) => {
            assert_eq!(text, "read did not return within 2s (operation_timeout)")
        }
        other => panic!("{other:?}"),
    }
    assert!(matches!(bounded(limits, "read", Some(Ok(7u8))), Ok(7)));
    match bounded::<u8>(limits, "read", Some(Err(ConnectorError::AccessDenied("x".into())))) {
        Err(ConnectorError::AccessDenied(text)) => assert_eq!(text, "x"),
        other => panic!("{other:?}"),
    }
}

#[test]
fn modes_are_resolved() {
    assert_eq!(resolve_mode(Some(Mode::Raw), Some(Mode::Typed)), Mode::Raw);
    assert_eq!(resolve_mode(None, Some(Mode::Raw)), Mode::Raw);
    assert_eq!(resolve_mode(None, None), Mode::Typed);
}

#[test]
fn a_point_is_resolved() {
    let mut p = point("temp");
    p.endianness = Some("little".into());
    p.word_order = Some("little".into());
    p.access = Some("read_write".into());
    p.unit = Some("bar".into());
    p.transform = Some(Transform { decimal_shift: -3 });
    p.poll_interval = Some("5s".into());
    let r = point_ref(&p, Some(Mode::Raw));
    assert_eq!(r.id, "temp");
    assert_eq!(r.mode, Mode::Raw);
    assert_eq!(r.endianness, Endianness::Little);
    assert_eq!(r.word_order, WordOrder::Little);
    assert_eq!(r.access, Access::ReadWrite);
    assert_eq!(r.unit.as_deref(), Some("bar"));
    assert_eq!(r.transform.decimal_shift, -3);
    assert_eq!(r.interval, Some(secs(5)));
    let plain = point_ref(&point("x"), None);
    assert_eq!(plain.endianness, Endianness::Big);
    assert_eq!(plain.word_order, WordOrder::Big);
    assert_eq!(plain.access, Access::Read);
    assert_eq!(plain.transform.decimal_shift, 0);
    assert_eq!(plain.interval, None);
}

#[test]
fn intervals_come_from_point_device_or_connector() {
    let mut own = point("own");
    own.poll_interval = Some("1s".into());
    let mut broken = point("broken");
    broken.poll_interval = Some("soon".into());
    let mut d0 = device("a", vec![own, broken]);
    d0.poll_interval = Some("2s".into());
    let c = config(vec![d0, device("b", vec![point("plain")])]);
    let schedule = build_schedule(&c, &Subscribed::new(), secs(9));
    let intervals: Vec<Duration> = schedule.iter().map(|e| e.interval).collect();
    assert_eq!(intervals, vec![secs(1), secs(2), secs(3)]);
    let devices: Vec<usize> = schedule.iter().map(|e| e.device_index).collect();
    assert_eq!(devices, vec![0, 0, 1]);
    assert!(schedule.iter().all(|e| e.next_due == secs(9)));
    assert_eq!(schedule[1].point.interval, Some(secs(2)));
    let mut c = config(vec![device("b", vec![point("plain")])]);
    c.connector.poll_interval = "bogus".into();
    assert_eq!(build_schedule(&c, &Subscribed::new(), secs(0))[0].interval, secs(2));
}

#[test]
fn due_points_are_gathered_by_device() {
    let mut fast = point("fast");
    fast.poll_interval = Some("1s".into());
    let c = config(vec![
        device("a", vec![fast, point("slow")]),
        device("b", vec![point("other")]),
    ]);
    let mut schedule = build_schedule(&c, &Subscribed::new(), secs(10));
    assert!(take_due(&mut schedule, secs(9)).is_empty());
    assert!(schedule_fits(&schedule, secs(10)));
    let first = take_due(&mut schedule, secs(10));
    let ids: Vec<(usize, Vec<String>)> = first
        .iter()
        .map(|b| (b.device_index, b.points.iter().map(|p| p.id.clone()).collect()))
        .collect();
    assert_eq!(
        ids,
        vec![(0, vec!["fast".to_string(), "slow".to_string()]), (1, vec!["other".to_string()])]
    );
    assert!(take_due(&mut schedule, secs(10)).is_empty());
    let second = take_due(&mut schedule, secs(11));
    assert_eq!(second.len(), 1);
    assert_eq!(second[0].points.len(), 1);
    assert_eq!(second[0].points[0].id, "fast");
    assert_eq!(schedule[0].next_due, secs(12));
    assert_eq!(schedule[1].next_due, secs(13));
}

#[test]
fn an_interval_may_be_too_long_to_schedule() {
    let mut p = point("p");
    p.poll_interval = Some("18446744073709551615s".into());
    let c = config(vec![device("a", vec![p])]);
    let schedule = build_schedule(&c, &Subscribed::new(), secs(0));
    assert!(schedule_fits(&schedule, secs(0)));
    assert!(!schedule_fits(&schedule, secs(1)));
}

#[test]
fn push_is_asked_for_all_but_refusing_points() {
    let mut no = point("no");
    no.subscribe = Some(false);
    let mut yes = point("yes");
    yes.subscribe = Some(true);
    let c = config(vec![device("a", vec![point("plain"), no, yes])]);
    let points = push_request(&c, true, 0);
    let ids: Vec<&str> = points.iter().map(|p| p.id.as_str()).collect();
    assert_eq!(ids, vec!["plain", "yes"]);
    assert_eq!(points[0].interval, Some(secs(3)));
    assert!(push_request(&c, false, 0).is_empty());
}

#[test]
fn a_refused_subscription_falls_back_to_polling() {
    let c = config(vec![device("a", vec![point("p")]), device("b", vec![point("p")])]);
    let points = push_request(&c, true, 0);
    let mut subscribed = Subscribed::new();
    assert!(subscribe_device(&mut subscribed, 0, &points, &Ok(())));
    assert!(subscribe_device(&mut subscribed, 1, &points, &Ok(())));
    assert!(subscribed.contains(0, "p") && subscribed.contains(1, "p"));
    assert!(build_schedule(&c, &subscribed, secs(0)).is_empty());
    let refused = Err(ConnectorError::Unsupported("push".into()));
    assert!(!subscribe_device(&mut subscribed, 0, &points, &refused));
    assert!(!subscribed.contains(0, "p"));
    assert!(subscribed.contains(1, "p"), "the other device keeps its own");
    let schedule = build_schedule(&c, &subscribed, secs(0));
    assert_eq!(schedule.len(), 1);
    assert_eq!(schedule[0].device_index, 0);
}

#[test]
fn samples_are_numbered_per_point() {
    let mut counters = SeqCounters::new();
    assert_eq!(counters.count("a", "p"), 0);
    assert_eq!(counters.next("a", "p"), 1);
    assert_eq!(counters.next("a", "p"), 2);
    assert_eq!(counters.next("a", "q"), 1);
    assert_eq!(counters.next("b", "p"), 1);
    assert_eq!(counters.next("a", "p"), 3);
    assert_eq!(counters.count("a", "q"), 1);
}

#[test]
fn a_sample_is_published_on_its_topic() {
    let m = sample_message("modbus", "plc", "temp", json("{\"v\": 1}"));
    assert_eq!(m.topic, "te/device/plc/ot/modbus/sample/temp");
    assert!(!m.retained);
    assert_eq!(m.payload, json("{\"v\": 1}"));
}

#[test]
fn waits_double_up_to_a_minute() {
    let mut entry = ReconnectEntry::new(secs(100));
    assert_eq!(entry.delay, secs(1));
    assert_eq!(entry.due, secs(101));
    let mut waits = Vec::new();
    for _ in 0..8 {
        entry.re_arm(secs(200));
        waits.push(entry.delay.as_secs());
    }
    assert_eq!(waits, vec![2, 4, 8, 16, 32, 60, 60, 60]);
    assert_eq!(entry.due, secs(260));
}

#[test]
fn devices_wait_each_for_itself() {
    let mut waits = Reconnects::new();
    waits.begin("a", secs(0));
    waits.begin("b", secs(5));
    waits.begin("a", secs(9));
    assert!(waits.due(Duration::from_millis(999)).is_empty());
    assert_eq!(waits.due(secs(1)), vec!["a"]);
    assert_eq!(waits.due(secs(6)), vec!["a", "b"]);
    waits.re_arm("a", secs(6));
    assert_eq!(waits.due(secs(7)), vec!["b"]);
    assert_eq!(waits.due(secs(8)), vec!["a", "b"]);
    waits.remove("b");
    waits.remove("nobody");
    waits.re_arm("nobody", secs(8));
    assert!(!waits.contains("b") && !waits.contains("nobody"));
    assert_eq!(waits.due(secs(8)), vec!["a"]);
}

#[test]
fn a_run_follows_the_health_of_its_devices() {
    let c = config(vec![device("a", vec![point("p")])]);
    let mut s = Session::start(&c, Subscribed::new(), secs(0));
    let mut links = LinkTracker::new("modbus");
    links.record(&report("a", LinkStatus::Connected, Some(json("{\"fw\": 1}"))));
    assert_eq!(s.take_due(&c, secs(0)).len(), 1);
    // one usable point keeps the link
    assert!(s.note_read(&mut links, "a", Ok(&vec![bad(Some("x")), good()]), secs(1)).is_none());
    assert!(!s.reconnects.contains("a"));
    // no reading tells nothing
    assert!(s.note_read(&mut links, "a", Ok(&vec![]), secs(1)).is_none());
    // a batch where every point failed degrades it, with the first error, once
    let r = s.note_read(&mut links, "a", Ok(&vec![bad(None), bad(Some("e1")), bad(Some("e2"))]), secs(2));
    let r = r.unwrap();
    assert_eq!(r.status, LinkStatus::Degraded);
    assert_eq!(r.reason.as_deref(), Some("e1"));
    assert_eq!(r.info, Some(json("{\"fw\": 1}")));
    assert!(s.note_read(&mut links, "a", Err("gone".into()), secs(3)).is_none());
    assert_eq!(s.reconnects.due(secs(3)), vec!["a"]);
    // reads that succeed end the wait
    let r = s.note_read(&mut links, "a", Ok(&vec![good()]), secs(4)).unwrap();
    assert_eq!(r.status, LinkStatus::Connected);
    assert_eq!(r.reason, None);
    assert!(!s.reconnects.contains("a"));
    assert_eq!(links.status("a"), Some(LinkStatus::Connected));
}

#[test]
fn a_stale_reading_is_of_use() {
    let c = config(vec![device("a", vec![point("p")])]);
    let mut s = Session::start(&c, Subscribed::new(), secs(0));
    let mut links = LinkTracker::new("modbus");
    let stale = Reading { quality: Quality::Stale, error: Some("old".into()) };
    let r = s.note_read(&mut links, "a", Ok(&vec![stale]), secs(0)).unwrap();
    assert_eq!(r.status, LinkStatus::Connected);
    assert_eq!(r.reason, None);
}

#[test]
fn a_run_without_a_broker_tells_transitions_too() {
    let c = config(vec![device("a", vec![point("p")])]);
    let mut s = Session::start(&c, Subscribed::new(), secs(0));
    let mut links = LinkTracker::new("modbus");
    assert!(s.note_read_logged(&mut links, "a", Err("gone".into()), secs(0)).is_none());
    assert!(s.reconnects.contains("a"));
    assert!(s.note_read_logged(&mut links, "a", Ok(&vec![]), secs(0)).is_none());
    assert!(!s.reconnects.contains("a"), "no reading ends the wait");
    let up = s.note_read_logged(&mut links, "a", Ok(&vec![good(), bad(None)]), secs(0)).unwrap();
    assert_eq!(up.status, LinkStatus::Connected);
    assert!(!s.reconnects.contains("a"));
    let down = s.note_read_logged(&mut links, "a", Ok(&vec![bad(Some("e"))]), secs(0)).unwrap();
    assert_eq!((down.status, down.reason.as_deref()), (LinkStatus::Degraded, Some("e")));
    assert!(s.reconnects.contains("a"));
}

#[test]
fn a_failed_resubscription_is_polled_again() {
    let c = config(vec![device("a", vec![point("p")])]);
    let points = push_request(&c, true, 0);
    let mut subscribed = Subscribed::new();
    subscribe_device(&mut subscribed, 0, &points, &Ok(()));
    let mut s = Session::start(&c, subscribed, secs(0));
    assert!(s.schedule.is_empty());
    assert_eq!(to_resubscribe(&c, true, true, "a"), Some(0));
    assert_eq!(to_resubscribe(&c, true, false, "a"), None);
    assert_eq!(to_resubscribe(&c, false, true, "a"), None);
    assert_eq!(to_resubscribe(&c, true, true, "z"), None);
    let refused = Err(ConnectorError::Transport("down".into()));
    assert!(!s.resubscribe(&c, 0, &points, &refused, secs(4)));
    assert_eq!(s.schedule.len(), 1);
    assert_eq!(s.schedule[0].next_due, secs(4));
    assert!(s.resubscribe(&c, 0, &points, &Ok(()), secs(5)));
    assert!(s.schedule.is_empty());
}

#[test]
fn devices_are_found_by_name() {
    let c = config(vec![device("a", vec![]), device("b", vec![]), device("a", vec![])]);
    assert_eq!(find_device(&c, "a"), Some(0));
    assert_eq!(find_device(&c, "b"), Some(1));
    assert_eq!(find_device(&c, "c"), None);
}

#[test]
fn a_link_message_tells_the_report() {
    let links = LinkTracker::new("modbus");
    let m = links.link_message(&report("plc", LinkStatus::Connected, Some(json("3"))), "T");
    assert_eq!(m.topic, "te/device/plc/ot/modbus/status/link");
    assert!(m.retained);
    assert_eq!(
        m.payload,
        Json::Object(vec![
            ("status".into(), Json::text("connected")),
            ("since".into(), Json::text("T")),
            ("info".into(), json("3")),
        ])
    );
    let down = LinkReport {
        device: "plc".into(),
        status: LinkStatus::Disconnected,
        reason: Some("gone".into()),
        info: None,
    };
    assert_eq!(
        links.link_message(&down, "T").payload,
        Json::Object(vec![
            ("status".into(), Json::text("disconnected")),
            ("reason".into(), Json::text("gone")),
        ])
    );
    let degraded = links.link_message(&report("plc", LinkStatus::Degraded, None), "T");
    assert_eq!(degraded.payload.get_text("status"), Some("degraded"));
}

#[test]
fn a_reconnect_reply_leads_on() {
    let ok = report("a", LinkStatus::Connected, None);
    match after_reconnect(Ok(ok)) {
        Attempt::Reports(reports) => assert_eq!(reports.len(), 1),
        _ => panic!("reports"),
    }
    let unsupported = ConnectorError::Unsupported("reconnect".into());
    assert!(matches!(after_reconnect(Err(unsupported)), Attempt::ConnectAll));
    let failed = ConnectorError::Transport("down".into());
    assert!(matches!(after_reconnect(Err(failed)), Attempt::Failed));
    let unsupported = ConnectorError::Unsupported("connect".into());
    assert!(matches!(after_connect(Err(unsupported)), Attempt::Failed));
    match after_connect(Ok(vec![])) {
        Attempt::Reports(reports) => assert!(reports.is_empty()),
        _ => panic!("reports"),
    }
}

#[test]
fn a_reconnect_is_confirmed_by_reads_only() {
    let mut links = LinkTracker::new("modbus");
    let down = report("a", LinkStatus::Disconnected, None);
    let (restored, published) = links.absorb_reports("a", &vec![down]);
    assert!(!restored);
    assert_eq!(published.len(), 1);
    let down = report("a", LinkStatus::Disconnected, None);
    let (_, published) = links.absorb_reports("a", &vec![down]);
    assert!(published.is_empty(), "a failure is published once");
    let reports = vec![
        report("b", LinkStatus::Connected, None),
        report("a", LinkStatus::Connected, Some(json("9"))),
    ];
    let (restored, published) = links.absorb_reports("a", &reports);
    assert!(restored);
    assert!(published.is_empty());
    assert_eq!(links.status("a"), Some(LinkStatus::Disconnected));
    assert_eq!(links.status("b"), None);
    let r = links.note_poll("a", true, None).unwrap();
    assert_eq!(r.status, LinkStatus::Connected);
    assert_eq!(r.info, Some(json("9")));
    assert!(links.note_poll("a", true, None).is_none());
    let (restored, _) = links.absorb_reports("c", &reports);
    assert!(!restored, "another device's transport");
}

#[test]
fn connect_reports_are_recorded() {
    let mut links = LinkTracker::new("modbus");
    links.record_reports(&vec![
        report("a", LinkStatus::Connected, Some(json("1"))),
        report("b", LinkStatus::Disconnected, None),
        report("a", LinkStatus::Degraded, None),
    ]);
    assert_eq!(links.status("a"), Some(LinkStatus::Degraded));
    assert_eq!(links.status("b"), Some(LinkStatus::Disconnected));
    assert_eq!(links.info("a"), Some(json("1")));
    assert_eq!(links.info("b"), None);
    assert!(!links.record_if_changed(&report("b", LinkStatus::Disconnected, None)));
    assert!(links.record_if_changed(&report("b", LinkStatus::Connected, None)));
}

#[test]
fn a_marker_tells_how_long_it_is_idle() {
    assert_eq!(stamp_of(Duration::from_micros(1999)), 1);
    assert_eq!(stamp_of(secs(u64::MAX)), ((u64::MAX as u128 * 1000) % (1u128 << 64)) as u64);
    assert_eq!(idle_between(1500, 1000), Duration::from_millis(500));
    assert_eq!(idle_between(1000, 1500), Duration::from_millis(0));
    let progress = Progress::new();
    let shared = progress.clone();
    shared.mark();
    assert!(progress.idle() < secs(10));
    // a marker is stamped when it is made, however long ago its start lies
    if let Some(start) = Instant::now().checked_sub(secs(60)) {
        assert!(Progress::counting_from(start).idle() < secs(10));
    }
    assert_eq!(Progress::default().idle().subsec_nanos() % 1_000_000, 0);
}

fn names(task: &Task<'_>) -> String {
    match task {
        Task::Read(batch) => format!("read {}", batch.device_index),
        Task::Mark => "mark".to_string(),
        Task::Reconnect(device) => format!("reconnect {device}"),
        Task::ConnectAll(device) => format!("connect all for {device}"),
        Task::Subscribe(index) => format!("subscribe {index}"),
        Task::Rest => "rest".to_string(),
    }
}

#[test]
fn a_round_reads_then_reconnects() {
    let c = config(vec![device("a", vec![point("p")]), device("b", vec![point("q")])]);
    let mut s = Session::start(&c, Subscribed::new(), secs(0));
    let mut links = LinkTracker::new("modbus");
    let mut round = Round::begin(&mut s, &c, secs(0));
    assert_eq!(names(&round.task()), "read 0");
    let failed = Err("gone".to_string());
    assert!(round.on_read(&mut s, &mut links, &c, failed, secs(0)).is_none());
    assert_eq!(names(&round.task()), "read 1");
    let up = round.on_read(&mut s, &mut links, &c, Ok(&vec![good()]), secs(0)).unwrap();
    assert_eq!((up.device.as_str(), up.status), ("b", LinkStatus::Connected));
    assert_eq!(names(&round.task()), "mark");
    round.on_mark(&s, &c, secs(1));
    assert_eq!(names(&round.task()), "reconnect a");
    let down = Ok(report("a", LinkStatus::Disconnected, None));
    let published = round.on_reconnect(&mut s, &mut links, &c, true, down, "", secs(1));
    assert_eq!(published.len(), 1);
    assert_eq!(names(&round.task()), "rest");
    assert!(s.reconnects.contains("a"), "only reads end the wait");
    assert!(s.reconnects.due(secs(2)).is_empty());
    assert_eq!(s.reconnects.due(secs(3)), vec!["a"]);
}

#[test]
fn a_transport_that_is_back_is_subscribed_again() {
    let c = config(vec![device("a", vec![point("p")])]);
    let mut s = Session::start(&c, Subscribed::new(), secs(0));
    let mut links = LinkTracker::new("modbus");
    let mut round = Round::begin(&mut s, &c, secs(0));
    round.on_read(&mut s, &mut links, &c, Ok(&vec![bad(None)]), secs(0));
    round.on_mark(&s, &c, secs(5));
    let unsupported = Err(ConnectorError::Unsupported("reconnect".into()));
    let published = round.on_reconnect(&mut s, &mut links, &c, true, unsupported, "no", secs(5));
    assert!(published.is_empty());
    assert_eq!(names(&round.task()), "connect all for a");
    let reports = Ok(vec![report("a", LinkStatus::Connected, Some(json("7")))]);
    let published = round.on_connect_all(&mut s, &mut links, &c, true, reports, "", secs(5));
    assert!(published.is_empty());
    assert_eq!(names(&round.task()), "subscribe 0");
    let points = round.begin_subscribe(&mut s, &c, true, secs(5)).unwrap();
    assert_eq!(points.len(), 1);
    assert_eq!(names(&round.task()), "subscribe 0");
    round.on_subscribe(&mut s, &c, &points, &Ok(()), secs(5));
    assert_eq!(names(&round.task()), "rest");
    assert!(s.subscribed.contains(0, "p"));
    assert!(s.schedule.is_empty());
}

#[test]
fn a_module_that_cannot_push_is_not_asked() {
    let c = config(vec![device("a", vec![point("p")])]);
    let mut s = Session::start(&c, Subscribed::new(), secs(0));
    let mut links = LinkTracker::new("modbus");
    let mut round = Round::begin(&mut s, &c, secs(0));
    round.on_read(&mut s, &mut links, &c, Ok(&vec![bad(None)]), secs(0));
    round.on_mark(&s, &c, secs(5));
    let back = Ok(report("a", LinkStatus::Connected, None));
    round.on_reconnect(&mut s, &mut links, &c, false, back, "", secs(5));
    assert_eq!(names(&round.task()), "rest");
}

#[test]
fn a_failed_reconnect_is_published_once() {
    let c = config(vec![device("a", vec![point("p")])]);
    let mut s = Session::start(&c, Subscribed::new(), secs(0));
    let mut links = LinkTracker::new("modbus");
    links.record(&report("a", LinkStatus::Connected, Some(json("{\"fw\": 1}"))));
    let mut round = Round::begin(&mut s, &c, secs(0));
    let worse = round.on_read(&mut s, &mut links, &c, Err("gone".into()), secs(0)).unwrap();
    assert_eq!(worse.status, LinkStatus::Degraded);
    round.on_mark(&s, &c, secs(1));
    let refused = Err(ConnectorError::Other("refused".into()));
    let published =
        round.on_reconnect(&mut s, &mut links, &c, true, refused, "protocol: refused", secs(1));
    assert_eq!(published.len(), 1);
    assert_eq!(published[0].device, "a");
    assert_eq!(published[0].status, LinkStatus::Disconnected);
    assert_eq!(published[0].reason.as_deref(), Some("protocol: refused"));
    assert_eq!(published[0].info, Some(json("{\"fw\": 1}")), "the descriptor stays on the link");
    assert_eq!(links.status("a"), Some(LinkStatus::Disconnected));
    assert_eq!(names(&round.task()), "rest");
    // the next attempt is due after two seconds, and its failure is published no more
    assert_eq!(s.reconnects.due(secs(3)), vec!["a"]);
    let mut next = Round::begin(&mut s, &c, secs(3));
    assert!(next.on_read(&mut s, &mut links, &c, Err("gone".into()), secs(3)).is_none());
    next.on_mark(&s, &c, secs(3));
    let refused = Err(ConnectorError::Other("refused".into()));
    assert!(next.on_reconnect(&mut s, &mut links, &c, true, refused, "x", secs(3)).is_empty());
    // reads that succeed are published as connected again
    let mut last = Round::begin(&mut s, &c, secs(20));
    let up = last.on_read(&mut s, &mut links, &c, Ok(&vec![good()]), secs(20)).unwrap();
    assert_eq!(up.status, LinkStatus::Connected);
}

#[test]
fn a_failed_full_connect_is_published_once() {
    let c = config(vec![device("a", vec![point("p")])]);
    let mut s = Session::start(&c, Subscribed::new(), secs(0));
    let mut links = LinkTracker::new("modbus");
    links.record(&report("a", LinkStatus::Degraded, None));
    let mut round = Round::begin(&mut s, &c, secs(0));
    assert!(round.on_read(&mut s, &mut links, &c, Err("gone".into()), secs(0)).is_none());
    round.on_mark(&s, &c, secs(1));
    let unsupported = Err(ConnectorError::Unsupported("reconnect".into()));
    assert!(round.on_reconnect(&mut s, &mut links, &c, true, unsupported, "no", secs(1)).is_empty());
    assert_eq!(links.status("a"), Some(LinkStatus::Degraded));
    let refused = Err(ConnectorError::Other("down".into()));
    let published = round.on_connect_all(&mut s, &mut links, &c, true, refused, "down", secs(1));
    assert_eq!(published.len(), 1);
    assert_eq!(published[0].status, LinkStatus::Disconnected);
    assert_eq!(published[0].reason.as_deref(), Some("down"));
    assert_eq!(names(&round.task()), "rest");
    assert!(s.reconnects.contains("a"));
}

#[test]
fn a_round_without_a_broker_subscribes_again() {
    let c = config(vec![device("a", vec![point("p")])]);
    let mut s = Session::start(&c, Subscribed::new(), secs(0));
    let mut links = LinkTracker::new("modbus");
    links.record(&report("a", LinkStatus::Connected, None));
    let mut round = Round::begin(&mut s, &c, secs(0));
    let worse = round.on_read_logged(&mut s, &mut links, &c, Err("gone".into()), secs(0)).unwrap();
    assert_eq!(worse.status, LinkStatus::Degraded);
    round.on_mark(&s, &c, secs(1));
    let back = Ok(report("a", LinkStatus::Connected, None));
    assert!(round.on_reconnect(&mut s, &mut links, &c, true, back, "", secs(1)).is_empty());
    assert_eq!(names(&round.task()), "subscribe 0");
    round.on_subscribe(&mut s, &c, &push_request(&c, true, 0), &Ok(()), secs(1));
    assert_eq!(names(&round.task()), "rest");
    assert!(s.subscribed.contains(0, "p"));
}

#[test]
fn an_idle_round_only_marks() {
    let c = config(vec![device("a", vec![])]);
    let mut s = Session::start(&c, Subscribed::new(), secs(0));
    let mut idle = Round::begin(&mut s, &c, secs(1));
    assert_eq!(names(&idle.task()), "mark");
    idle.on_mark(&s, &c, secs(1));
    assert_eq!(names(&idle.task()), "rest");
}

#[test]
fn the_next_attempt_may_lie_at_the_end_of_time() {
    let mut waits = Reconnects::new();
    waits.begin("a", secs(0));
    let late = Duration::MAX - secs(2);
    waits.re_arm("a", late);
    assert!(waits.due(Duration::MAX - secs(1)).is_empty());
    assert_eq!(waits.due(Duration::MAX), vec!["a"]);
}

#[test]
fn each_attempt_backs_off() {
    let mut waits = Reconnects::new();
    waits.begin("a", secs(0));
    let mut now = 1;
    for wait in [2, 4, 8, 16, 32, 60, 60] {
        assert_eq!(waits.due(secs(now)), vec!["a"]);
        waits.re_arm("a", secs(now));
        assert!(waits.due(secs(now + wait - 1)).is_empty());
        now += wait;
    }
}

fn polled(id: &str) -> PointConfig {
    PointConfig { subscribe: Some(false), ..point(id) }
}

#[test]
fn only_devices_with_points_to_push_are_asked() {
    let c = config(vec![
        device("a", vec![polled("p")]),
        device("b", vec![polled("q"), point("r")]),
        device("c", vec![]),
        device("d", vec![point("s")]),
    ]);
    let (index, points) = next_push(&c, true, 0).unwrap();
    assert_eq!((index, points.len(), points[0].id.as_str()), (1, 1, "r"));
    assert_eq!(next_push(&c, true, 1).unwrap().0, 1);
    assert_eq!(next_push(&c, true, 2).unwrap().0, 3);
    assert!(next_push(&c, true, 4).is_none());
    assert!(next_push(&c, true, 9).is_none());
    assert!(next_push(&c, false, 0).is_none());
}

#[test]
fn a_device_without_points_to_push_is_not_asked_again() {
    let c = config(vec![device("a", vec![polled("p")])]);
    let mut s = Session::start(&c, Subscribed::new(), secs(0));
    let mut links = LinkTracker::new("modbus");
    let mut round = Round::begin(&mut s, &c, secs(0));
    round.on_read(&mut s, &mut links, &c, Err("gone".into()), secs(0));
    round.on_mark(&s, &c, secs(5));
    let back = Ok(report("a", LinkStatus::Connected, None));
    round.on_reconnect(&mut s, &mut links, &c, true, back, "", secs(5));
    assert_eq!(names(&round.task()), "subscribe 0");
    assert!(round.begin_subscribe(&mut s, &c, true, secs(5)).is_none());
    assert_eq!(names(&round.task()), "rest");
    assert_eq!(s.schedule.len(), 1);
}

//! Spans of time, the reconnect backoff and the liveness marker of a connector's loop.
//!
//! A point in time is the span since the runtime started.

use std::sync::atomic::{AtomicU64, Ordering};
use std::sync::Arc;
use std::time::{Duration, Instant};
use vstd::prelude::*;

verus! {

/// `std::time::Instant`: a reading of the monotonic clock.
#[verifier::external_type_specification]
#[verifier::external_body]
pub struct ExInstant(std::time::Instant);

/// The nanoseconds of a span, as `Duration::as_nanos` gives them.
pub uninterp spec fn nanos(d: Duration) -> nat;

/// The nanoseconds of an optional span.
pub open spec fn opt_nanos(d: Option<Duration>) -> Option<nat> {
    match d {
        Some(v) => Some(nanos(v)),
        None => None,
    }
}

/// The nanoseconds in a second.
pub const SECOND: u128 = 1_000_000_000;

/// The nanoseconds in a millisecond.
pub const MILLISECOND: u128 = 1_000_000;

/// The longest span that a `Duration` holds, in nanoseconds.
pub const LONGEST: u128 = 18_446_744_073_709_551_615_999_999_999;

/// `Duration::as_nanos`: the length in nanoseconds, at most that of `Duration::MAX`.
pub assume_specification[ std::time::Duration::as_nanos ](d: &std::time::Duration) -> (r: u128)
    ensures
        r == nanos(*d),
        r <= LONGEST,
;

/// `Duration::new`: the span of so many seconds and nanoseconds.
pub assume_specification[ std::time::Duration::new ](
    secs: u64,
    subsec_nanos: u32,
) -> (r: std::time::Duration)
    requires
        subsec_nanos < 1_000_000_000,
    ensures
        nanos(r) == secs * SECOND + subsec_nanos,
;

/// `Instant::now`: nothing is promised of the reading.
pub assume_specification[ std::time::Instant::now ]() -> (r: std::time::Instant);

/// `Instant::elapsed`: nothing is promised of the span.
pub assume_specification[ std::time::Instant::elapsed ](i: &std::time::Instant) -> (r:
    std::time::Duration);

/// The span of so many nanoseconds.
pub fn span(n: u128) -> (r: Duration)
    requires
        n <= LONGEST,
    ensures
        nanos(r) == n,
{
    let secs: u128 = n / SECOND;
    let rest: u128 = n % SECOND;
    assert(secs <= u64::MAX);
    Duration::new(secs as u64, rest as u32)
}

/// The span of so many seconds.
pub fn seconds(n: u64) -> (r: Duration)
    ensures
        nanos(r) == n * SECOND,
{
    Duration::new(n, 0)
}

/// True when `a` is no later than `b`.
pub fn not_after(a: Duration, b: Duration) -> (r: bool)
    ensures
        r == (nanos(a) <= nanos(b)),
{
    a.as_nanos() <= b.as_nanos()
}

/// The point in time that lies `by` after `now`.
pub fn later(now: Duration, by: Duration) -> (r: Duration)
    requires
        nanos(now) + nanos(by) <= LONGEST,
    ensures
        nanos(r) == nanos(now) + nanos(by),
{
    span(now.as_nanos() + by.as_nanos())
}

/// The first retry comes after so many seconds.
pub const RECONNECT_INITIAL_SECS: u64 = 1;

/// No two retries lie further apart than so many seconds.
pub const RECONNECT_MAX_SECS: u64 = 60;

/// The wait before the first retry.
pub fn reconnect_initial() -> (r: Duration)
    ensures
        nanos(r) == RECONNECT_INITIAL_SECS * SECOND,
{
    seconds(RECONNECT_INITIAL_SECS)
}

/// The longest wait between two retries.
pub fn reconnect_max() -> (r: Duration)
    ensures
        nanos(r) == RECONNECT_MAX_SECS * SECOND,
{
    seconds(RECONNECT_MAX_SECS)
}

/// The wait after a wait of `current` nanoseconds that did not bring the device back.
pub open spec fn backed_off(current: nat) -> nat {
    if 2 * current <= RECONNECT_MAX_SECS * SECOND {
        2 * current
    } else {
        (RECONNECT_MAX_SECS * SECOND) as nat
    }
}

/// The wait after a reconnect attempt that did not restore data flow: twice the last one, up to
/// the longest.
pub fn next_backoff(current: Duration) -> (r: Duration)
    ensures
        nanos(r) == backed_off(nanos(current)),
{
    let doubled: u128 = current.as_nanos() * 2;
    let max: u128 = RECONNECT_MAX_SECS as u128 * SECOND;
    if doubled <= max {
        span(doubled)
    } else {
        reconnect_max()
    }
}

/// One device that waits for its transport: made when a whole batch of reads fails, set again
/// after each attempt, and gone once reads succeed.
pub struct ReconnectEntry {
    /// The wait before the next attempt.
    pub delay: Duration,
    /// When the next attempt is due.
    pub due: Duration,
}

impl ReconnectEntry {
    /// The wait is no shorter than the first one and no longer than the longest.
    pub open spec fn wf(self) -> bool {
        RECONNECT_INITIAL_SECS * SECOND <= nanos(self.delay) <= RECONNECT_MAX_SECS * SECOND
    }

    /// An entry made at `now`.
    pub fn new(now: Duration) -> (r: Self)
        requires
            nanos(now) + RECONNECT_INITIAL_SECS * SECOND <= LONGEST,
        ensures
            r.wf(),
            nanos(r.delay) == RECONNECT_INITIAL_SECS * SECOND,
            nanos(r.due) == nanos(now) + RECONNECT_INITIAL_SECS * SECOND,
    {
        ReconnectEntry { delay: reconnect_initial(), due: later(now, reconnect_initial()) }
    }

    /// Sets the entry again after an attempt at `now`.
    pub fn re_arm(&mut self, now: Duration)
        requires
            nanos(now) + backed_off(nanos(old(self).delay)) <= LONGEST,
        ensures
            old(self).wf() ==> final(self).wf(),
            forall|n: nat|
                nanos(old(self).delay) == #[trigger] wait_after(n) ==> nanos(final(self).delay)
                    == wait_after(n + 1),
            nanos(final(self).delay) == backed_off(nanos(old(self).delay)),
            nanos(final(self).due) == nanos(now) + backed_off(nanos(old(self).delay)),
    {
        let delay = next_backoff(self.delay);
        self.delay = delay;
        self.due = later(now, delay);
    }
}

/// The wait after `attempts` attempts that did not bring the device back.
pub open spec fn wait_after(attempts: nat) -> nat
    decreases attempts,
{
    if attempts == 0 {
        (RECONNECT_INITIAL_SECS * SECOND) as nat
    } else {
        backed_off(wait_after((attempts - 1) as nat))
    }
}

/// The waits start at one second, never shrink, never pass one minute, and double as long as
/// that keeps them below it: after `n` attempts the wait is two to the power of `n` seconds, and
/// one minute from the sixth on.
pub proof fn backoff_doubles_up_to_the_cap(attempts: nat)
    ensures
        wait_after(0) == RECONNECT_INITIAL_SECS * SECOND,
        RECONNECT_INITIAL_SECS * SECOND <= wait_after(attempts) <= RECONNECT_MAX_SECS * SECOND,
        wait_after(attempts) <= wait_after(attempts + 1),
        2 * wait_after(attempts) <= RECONNECT_MAX_SECS * SECOND ==> wait_after(attempts + 1) == 2
            * wait_after(attempts),
        attempts < 6 ==> wait_after(attempts) == vstd::arithmetic::power2::pow2(attempts)
            * SECOND,
        attempts >= 6 ==> wait_after(attempts) == RECONNECT_MAX_SECS * SECOND,
    decreases attempts,
{
    vstd::arithmetic::power2::lemma2_to64();
    if attempts > 0 {
        backoff_doubles_up_to_the_cap((attempts - 1) as nat);
    }
    reveal_with_fuel(wait_after, 8);
}

/// The milliseconds of a span, in the width of the marker.
pub open spec fn stamp(since: Duration) -> u64 {
    ((nanos(since) / 1_000_000) % 0x1_0000_0000_0000_0000) as u64
}

/// The milliseconds of a span, in the width of the marker.
pub fn stamp_of(elapsed: Duration) -> (r: u64)
    ensures
        r == stamp(elapsed),
        r == (nanos(elapsed) / 1_000_000) % 0x1_0000_0000_0000_0000,
{
    let ms: u128 = elapsed.as_nanos() / MILLISECOND;
    assert((#[verifier::truncate] (ms as u64)) == ms % 0x1_0000_0000_0000_0000) by (bit_vector);
    #[verifier::truncate] (ms as u64)
}

/// The nanoseconds between a mark and now, both in milliseconds; none where the mark lies ahead.
pub open spec fn idle_nanos(now: u64, marked: u64) -> nat {
    if now >= marked {
        ((now - marked) * 1_000_000) as nat
    } else {
        0
    }
}

/// The time between a mark and now, both in milliseconds.
pub fn idle_between(now: u64, marked: u64) -> (r: Duration)
    ensures
        nanos(r) == idle_nanos(now, marked),
{
    let ms: u64 = now.saturating_sub(marked);
    span(ms as u128 * MILLISECOND)
}

/// The idle time is none at a mark, counts on from there, and is never more than it would be with
/// an earlier mark alone. All are in milliseconds since the start.
pub proof fn the_idle_time_counts_from_the_last_mark(earlier: u64, marked: u64, now: u64)
    requires
        earlier <= marked <= now,
    ensures
        idle_nanos(marked, marked) == 0,
        idle_nanos(now, marked) == (now - marked) * MILLISECOND,
        idle_nanos(now, marked) <= idle_nanos(now, earlier),
{
}

/// Liveness marker of a connector's loop, shared with whoever supervises it.
///
/// The loop stamps it on every iteration; a supervisor that sees it go stale knows that the loop
/// is wedged. It counts from a shared start on the monotonic clock, so a change of the wall clock
/// cannot make a live loop look stuck.
#[derive(Debug)]
pub struct Progress(Arc<(Instant, AtomicU64)>);

/// Asks a clock.
fn reading<F: FnOnce() -> Instant>(clock: F) -> (r: Instant)
    requires
        call_requires(clock, ()),
    ensures
        call_ensures(clock, (), r),
{
    clock()
}

/// Asks for the time since a reading of the clock.
fn measured<F: FnOnce(&Instant) -> Duration>(elapsed: F, start: &Instant) -> (r: Duration)
    requires
        call_requires(elapsed, (start,)),
    ensures
        call_ensures(elapsed, (start,), r),
{
    elapsed(start)
}

/// Asks for the stamp of a marker.
fn loaded<F: FnOnce(&AtomicU64, Ordering) -> u64>(load: F, marker: &AtomicU64) -> (r: u64)
    requires
        call_requires(load, (marker, Ordering::Relaxed)),
    ensures
        call_ensures(load, (marker, Ordering::Relaxed), r),
{
    load(marker, Ordering::Relaxed)
}

/// Has a marker stamped.
fn stored<F: FnOnce(&AtomicU64, u64, Ordering)>(store: F, marker: &AtomicU64, stamp: u64)
    requires
        call_requires(store, (marker, stamp, Ordering::Relaxed)),
    ensures
        call_ensures(store, (marker, stamp, Ordering::Relaxed), ()),
{
    store(marker, stamp, Ordering::Relaxed)
}

impl Progress {
    /// The reading of the clock that the marker counts from.
    pub closed spec fn start(self) -> Instant {
        self.0.0
    }

    /// The cell that holds the stamp. Which stamp it holds changes as the loop goes on.
    pub closed spec fn marker(self) -> AtomicU64 {
        self.0.1
    }

    /// `since` is a time that `Instant::elapsed` gives for the start.
    pub open spec fn elapsed(self, since: Duration) -> bool {
        call_ensures(Instant::elapsed, (&self.start(),), since)
    }

    /// `AtomicU64::store` was called on the marker, with the stamp of the time since the start.
    pub open spec fn stamped(self) -> bool {
        exists|since: Duration|
            #[trigger] self.elapsed(since) && call_ensures(
                AtomicU64::store,
                (&self.marker(), stamp(since), Ordering::Relaxed),
                (),
            )
    }

    /// `marked` is a stamp that `AtomicU64::load` gives for the marker.
    pub open spec fn holds(self, marked: u64) -> bool {
        call_ensures(AtomicU64::load, (&self.marker(), Ordering::Relaxed), marked)
    }

    /// A marker that counts from now, as `Instant::now` gives it, and was stamped just now.
    pub fn new() -> (r: Self)
        ensures
            call_ensures(Instant::now, (), r.start()),
            r.stamped(),
    {
        Progress::counting_from(reading(Instant::now))
    }

    /// A marker that counts from a reading of the clock and was stamped just now.
    pub fn counting_from(start: Instant) -> (r: Self)
        ensures
            r.start() == start,
            r.stamped(),
    {
        let progress = Progress(Arc::new((start, AtomicU64::new(0))));
        progress.mark();
        progress
    }

    /// Records that the loop made progress: stores the stamp of the time since the start.
    pub fn mark(&self)
        ensures
            self.stamped(),
    {
        let since = measured(Instant::elapsed, &self.0.0);
        stored(AtomicU64::store, &self.0.1, stamp_of(since));
        assert(self.elapsed(since));
    }

    /// How long since the last mark, in whole milliseconds: from the stamp that the marker holds
    /// to the time since the start.
    pub fn idle(&self) -> (r: Duration)
        ensures
            exists|since: Duration, marked: u64|
                #[trigger] self.elapsed(since) && #[trigger] self.holds(marked) && nanos(r)
                    == idle_nanos(stamp(since), marked),
    {
        let since = measured(Instant::elapsed, &self.0.0);
        let marked = loaded(AtomicU64::load, &self.0.1);
        assert(self.elapsed(since));
        assert(self.holds(marked));
        idle_between(stamp_of(since), marked)
    }
}

/// `<Arc as Clone>::clone` of std: another pointer to the same allocation.
#[verifier::external_body]
fn share(marker: &Arc<(Instant, AtomicU64)>) -> (r: Arc<(Instant, AtomicU64)>)
    ensures
        r == *marker,
{
    marker.clone()
}

impl Clone for Progress {
    /// The same marker once more, not a copy of it: a mark through either is seen through both.
    fn clone(&self) -> (r: Self)
        ensures
            r == *self,
            r.start() == self.start(),
            r.marker() == self.marker(),
    {
        Progress(share(&self.0))
    }
}

impl Default for Progress {
    /// As [`Progress::new`].
    fn default() -> (r: Self)
        ensures
            call_ensures(Instant::now, (), r.start()),
            r.stamped(),
    {
        Progress::new()
    }
}

/// The first wait is one second, the longest one minute, and a wait that did not help is doubled
/// up to that.
pub proof fn a_backoff_doubles_up_to_a_minute(current: nat)
    ensures
        wait_after(0) == 1_000_000_000,
        backed_off(current) == if 2 * current <= 60_000_000_000 {
            2 * current
        } else {
            60_000_000_000
        },
{
}

/// A stamp is the milliseconds of a span, as far as they go into 64 bits.
pub proof fn a_stamp_counts_milliseconds(since: Duration)
    requires
        nanos(since) < 1_000_000 * 0x1_0000_0000_0000_0000,
    ensures
        stamp(since) * 1_000_000 <= nanos(since) < (stamp(since) + 1) * 1_000_000,
{
}

} // verus!

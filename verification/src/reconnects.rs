//! The devices that wait for their transport to come back.

use crate::clock;
use crate::clock::{not_after, ReconnectEntry};
use crate::text;
use crate::text::same_text;
use std::time::Duration;
use vstd::prelude::*;
use vstd::string::*;

verus! {

/// What a device waits for.
#[verifier::ext_equal]
pub struct WaitView {
    /// The wait before the next attempt, in nanoseconds.
    pub delay: nat,
    /// When the next attempt is due.
    pub due: nat,
}

/// What an entry says.
pub open spec fn wait_of(entry: ReconnectEntry) -> WaitView {
    WaitView { delay: clock::nanos(entry.delay), due: clock::nanos(entry.due) }
}

/// The devices that wait for their transport to come back, each once.
pub struct Reconnects {
    entries: Vec<(String, ReconnectEntry)>,
}

/// The position of the first entry of a device, or the number of entries.
pub open spec fn wait_index(entries: Seq<(String, ReconnectEntry)>, device: Seq<char>) -> int
    decreases entries.len(),
{
    if entries.len() == 0 {
        0
    } else if entries.first().0@ == device {
        0
    } else {
        1 + wait_index(entries.drop_first(), device)
    }
}

impl View for Reconnects {
    type V = Map<Seq<char>, WaitView>;

    closed spec fn view(&self) -> Map<Seq<char>, WaitView> {
        Map::new(
            |device: Seq<char>| wait_index(self.entries@, device) < self.entries@.len(),
            |device: Seq<char>| wait_of(self.entries@[wait_index(self.entries@, device)].1),
        )
    }
}

/// [`wait_index`] is the first position that holds the device.
proof fn lemma_wait_index(entries: Seq<(String, ReconnectEntry)>, device: Seq<char>)
    ensures
        0 <= wait_index(entries, device) <= entries.len(),
        wait_index(entries, device) < entries.len() ==> entries[wait_index(
            entries,
            device,
        )].0@ == device,
        forall|j: int|
            0 <= j < wait_index(entries, device) ==> (#[trigger] entries[j]).0@ != device,
    decreases entries.len(),
{
    if entries.len() > 0 && entries.first().0@ != device {
        let rest = entries.drop_first();
        lemma_wait_index(rest, device);
        assert forall|j: int| 0 <= j < wait_index(entries, device) implies (
        #[trigger] entries[j]).0@ != device by {
            if j > 0 {
                assert(entries[j] == rest[j - 1]);
            }
        }
    }
}

/// A position that holds the device, with no earlier one, is [`wait_index`].
proof fn lemma_wait_index_unique(
    entries: Seq<(String, ReconnectEntry)>,
    device: Seq<char>,
    i: int,
)
    requires
        0 <= i <= entries.len(),
        i < entries.len() ==> entries[i].0@ == device,
        forall|j: int| 0 <= j < i ==> (#[trigger] entries[j]).0@ != device,
    ensures
        wait_index(entries, device) == i,
{
    lemma_wait_index(entries, device);
    let k = wait_index(entries, device);
    if k < i {
        assert(entries[k].0@ != device);
    }
    if i < k {
        assert(entries[i].0@ != device);
    }
}

/// True when a device is among the first `n` entries and its attempt is due.
spec fn due_among(
    entries: Seq<(String, ReconnectEntry)>,
    n: int,
    device: Seq<char>,
    now: nat,
) -> bool {
    exists|j: int|
        0 <= j < n && (#[trigger] entries[j]).0@ == device && clock::nanos(entries[j].1.due) <= now
}

/// The wait of a device that just began to wait.
pub open spec fn first_wait(now: nat) -> WaitView {
    WaitView {
        delay: (clock::RECONNECT_INITIAL_SECS * clock::SECOND) as nat,
        due: (now + clock::RECONNECT_INITIAL_SECS * clock::SECOND) as nat,
    }
}

/// The wait after one more attempt.
pub open spec fn next_wait(wait: WaitView, now: nat) -> WaitView {
    WaitView { delay: clock::backed_off(wait.delay), due: now + clock::backed_off(wait.delay) }
}

/// The devices that wait, with one more among them.
pub open spec fn with_waiting(
    waits: Map<Seq<char>, WaitView>,
    device: Seq<char>,
    now: nat,
) -> Map<Seq<char>, WaitView> {
    if waits.contains_key(device) {
        waits
    } else {
        waits.insert(device, first_wait(now))
    }
}

/// The devices that wait, after an attempt for one of them.
pub open spec fn with_attempt(
    waits: Map<Seq<char>, WaitView>,
    device: Seq<char>,
    now: nat,
) -> Map<Seq<char>, WaitView> {
    if waits.contains_key(device) {
        waits.insert(device, next_wait(waits[device], now))
    } else {
        waits
    }
}

/// The waits after attempts for a device at these times, none of which brought it back.
pub open spec fn with_attempts(
    waits: Map<Seq<char>, WaitView>,
    device: Seq<char>,
    times: Seq<nat>,
) -> Map<Seq<char>, WaitView>
    decreases times.len(),
{
    if times.len() == 0 {
        waits
    } else {
        with_attempt(with_attempts(waits, device, times.drop_last()), device, times.last())
    }
}

/// A device that begins to wait and is not brought back waits as [`clock::wait_after`] tells,
/// each time from the last attempt on.
pub proof fn each_attempt_backs_off(
    waits: Map<Seq<char>, WaitView>,
    device: Seq<char>,
    now: nat,
    times: Seq<nat>,
)
    requires
        !waits.contains_key(device),
    ensures
        ({
            let after = with_attempts(with_waiting(waits, device, now), device, times);
            let delay = clock::wait_after(times.len());
            let last = if times.len() == 0 {
                now
            } else {
                times.last()
            };
            after.contains_key(device) && after[device] == (WaitView { delay, due: last + delay })
        }),
    decreases times.len(),
{
    if times.len() > 0 {
        each_attempt_backs_off(waits, device, now, times.drop_last());
    }
}

/// True when the first attempt for a device can be told, where it does not wait yet.
pub open spec fn can_begin(
    waits: Map<Seq<char>, WaitView>,
    device: Seq<char>,
    now: nat,
) -> bool {
    waits.contains_key(device) || now + clock::RECONNECT_INITIAL_SECS * clock::SECOND
        <= clock::LONGEST
}

/// True when the next attempt for a device can be told, where it waits.
pub open spec fn can_re_arm(
    waits: Map<Seq<char>, WaitView>,
    device: Seq<char>,
    now: nat,
) -> bool {
    waits.contains_key(device) ==> now + clock::backed_off(waits[device].delay) <= clock::LONGEST
}

impl Reconnects {
    /// Each device is there once, and no wait is too short or too long.
    pub closed spec fn wf(self) -> bool {
        &&& forall|i: int, j: int|
            0 <= i < j < self.entries@.len() ==> (#[trigger] self.entries@[i]).0@ != (
            #[trigger] self.entries@[j]).0@
        &&& forall|i: int| 0 <= i < self.entries@.len() ==> (#[trigger] self.entries@[i]).1.wf()
    }

    /// Every device that waits does so for one second at least and one minute at most.
    pub proof fn waits_stay_within_bounds(self, device: Seq<char>)
        requires
            self.wf(),
            self@.contains_key(device),
        ensures
            clock::RECONNECT_INITIAL_SECS * clock::SECOND <= self@[device].delay
                <= clock::RECONNECT_MAX_SECS * clock::SECOND,
    {
        lemma_wait_index(self.entries@, device);
        assert(self.entries@[wait_index(self.entries@, device)].1.wf());
    }

    /// No device waits.
    pub fn new() -> (r: Self)
        ensures
            r.wf(),
            r@ == Map::<Seq<char>, WaitView>::empty(),
    {
        let r = Reconnects { entries: Vec::new() };
        assert(r@ =~= Map::<Seq<char>, WaitView>::empty());
        r
    }

    /// The position of a device, or the number of entries.
    fn find(&self, device: &str) -> (i: usize)
        ensures
            i == wait_index(self.entries@, device@),
            i <= self.entries@.len(),
    {
        let ghost all = self.entries@;
        let mut i: usize = 0;
        while i < self.entries.len()
            invariant
                0 <= i <= self.entries.len(),
                all == self.entries@,
                forall|j: int| 0 <= j < i ==> (#[trigger] all[j]).0@ != device@,
            decreases self.entries.len() - i,
        {
            if same_text(self.entries[i].0.as_str(), device) {
                proof {
                    lemma_wait_index_unique(all, device@, i as int);
                }
                return i;
            }
            i += 1;
        }
        proof {
            lemma_wait_index_unique(all, device@, i as int);
        }
        i
    }

    /// True when the device waits.
    pub fn contains(&self, device: &str) -> (r: bool)
        ensures
            r == self@.contains_key(device@),
    {
        self.find(device) < self.entries.len()
    }

    /// Lets a device wait from `now` on. One that waits already keeps its wait.
    pub fn begin(&mut self, device: &str, now: Duration)
        requires
            old(self).wf(),
            can_begin(old(self)@, device@, clock::nanos(now)),
        ensures
            final(self).wf(),
            final(self)@ == with_waiting(old(self)@, device@, clock::nanos(now)),
    {
        let ghost before = self.entries@;
        let ghost start = self@;
        let i = self.find(device);
        proof {
            lemma_wait_index(before, device@);
        }
        if i == self.entries.len() {
            self.entries.push((String::from_str(device), ReconnectEntry::new(now)));
            let ghost after = self.entries@;
            let ghost wanted = start.insert(device@, first_wait(clock::nanos(now)));
            assert forall|k: Seq<char>|
                (#[trigger] self@.contains_key(k)) == wanted.contains_key(k) && (
                self@.contains_key(k) ==> self@[k] == wanted[k]) by {
                lemma_wait_index(before, k);
                let at = wait_index(before, k);
                assert forall|j: int| 0 <= j < at implies (#[trigger] after[j]).0@ != k by {
                    assert(before[j].0@ != k);
                }
                if k == device@ {
                    lemma_wait_index_unique(after, k, i as int);
                } else if at < before.len() {
                    lemma_wait_index_unique(after, k, at);
                } else {
                    lemma_wait_index_unique(after, k, after.len() as int);
                }
            }
            assert(self@ =~= wanted);
        }
    }

    /// Lets a device wait no more.
    pub fn remove(&mut self, device: &str)
        requires
            old(self).wf(),
        ensures
            final(self).wf(),
            final(self)@ == old(self)@.remove(device@),
    {
        let ghost before = self.entries@;
        let ghost start = self@;
        let i = self.find(device);
        proof {
            lemma_wait_index(before, device@);
        }
        if i < self.entries.len() {
            let _ = self.entries.remove(i);
        }
        let ghost after = self.entries@;
        let ghost wanted = start.remove(device@);
        assert forall|j: int| 0 <= j < after.len() implies #[trigger] after[j] == if j < i {
            before[j]
        } else {
            before[j + 1]
        } by {}
        assert forall|k: Seq<char>|
            (#[trigger] self@.contains_key(k)) == wanted.contains_key(k) && (self@.contains_key(k)
                ==> self@[k] == wanted[k]) by {
            lemma_wait_index(before, k);
            let at = wait_index(before, k);
            if k == device@ {
                assert forall|j: int| 0 <= j < after.len() implies (#[trigger] after[j]).0@ != k by {
                    if j < i {
                        assert(before[j].0@ != k);
                    } else {
                        assert(before[i as int].0@ != before[j + 1].0@);
                    }
                }
                lemma_wait_index_unique(after, k, after.len() as int);
            } else {
                let to = if at < i {
                    at
                } else if at < before.len() {
                    at - 1
                } else {
                    after.len() as int
                };
                assert forall|j: int| 0 <= j < to implies (#[trigger] after[j]).0@ != k by {
                    if j < i {
                        assert(before[j].0@ != k);
                    } else {
                        assert(before[j + 1].0@ != k);
                    }
                }
                lemma_wait_index_unique(after, k, to);
            }
        }
        assert(self@ =~= wanted);
    }

    /// Sets the wait of a device again, after an attempt at `now`.
    pub fn re_arm(&mut self, device: &str, now: Duration)
        requires
            old(self).wf(),
            can_re_arm(old(self)@, device@, clock::nanos(now)),
        ensures
            final(self).wf(),
            final(self)@ == with_attempt(old(self)@, device@, clock::nanos(now)),
    {
        let ghost before = self.entries@;
        let ghost start = self@;
        let i = self.find(device);
        proof {
            lemma_wait_index(before, device@);
        }
        if i < self.entries.len() {
            let entry = &mut self.entries[i];
            entry.1.re_arm(now);
            let ghost after = self.entries@;
            let ghost wanted = start.insert(
                device@,
                next_wait(start[device@], clock::nanos(now)),
            );
            assert forall|j: int| 0 <= j < after.len() implies (#[trigger] after[j]).0
                == before[j].0 by {}
            assert forall|k: Seq<char>|
                (#[trigger] self@.contains_key(k)) == wanted.contains_key(k) && (
                self@.contains_key(k) ==> self@[k] == wanted[k]) by {
                lemma_wait_index(before, k);
                let at = wait_index(before, k);
                assert forall|j: int| 0 <= j < at implies (#[trigger] after[j]).0@ != k by {
                    assert(before[j].0@ != k);
                }
                lemma_wait_index_unique(after, k, at);
            }
            assert(self@ =~= wanted);
        }
    }

    /// The devices whose next attempt is due at `now`, each once.
    pub fn due(&self, now: Duration) -> (r: Vec<String>)
        requires
            self.wf(),
        ensures
            forall|device: Seq<char>|
                #![trigger self@.contains_key(device)]
                text::texts(r@).contains(device) <==> self@.contains_key(device)
                    && self@[device].due <= clock::nanos(now),
            text::texts(r@).no_duplicates(),
    {
        let ghost all = self.entries@;
        let ghost at = clock::nanos(now);
        let mut out: Vec<String> = Vec::new();
        let mut i: usize = 0;
        while i < self.entries.len()
            invariant
                0 <= i <= self.entries.len(),
                self.wf(),
                all == self.entries@,
                at == clock::nanos(now),
                forall|k: int|
                    0 <= k < out@.len() ==> due_among(all, i as int, (#[trigger] out@[k])@, at),
                forall|j: int|
                    0 <= j < i && clock::nanos((#[trigger] all[j]).1.due) <= at
                        ==> text::texts(out@).contains(all[j].0@),
                text::texts(out@).no_duplicates(),
            decreases self.entries.len() - i,
        {
            let ghost held = out@;
            let entry = &self.entries[i];
            if not_after(entry.1.due, now) {
                proof {
                    if text::texts(held).contains(all[i as int].0@) {
                        let k = text::texts(held).index_of(all[i as int].0@);
                        assert(due_among(all, i as int, held[k]@, at));
                    }
                }
                out.push(entry.0.clone());
                assert(text::texts(out@) =~= text::texts(held).push(all[i as int].0@));
                assert forall|j: int|
                    0 <= j < i + 1 && clock::nanos((#[trigger] all[j]).1.due)
                        <= at implies text::texts(out@).contains(all[j].0@) by {
                    if j < i {
                        let k = text::texts(held).index_of(all[j].0@);
                        assert(text::texts(out@)[k] == all[j].0@);
                    } else {
                        assert(text::texts(out@)[held.len() as int] == all[j].0@);
                    }
                }
            }
            assert forall|k: int| 0 <= k < out@.len() implies due_among(
                all,
                i + 1,
                (#[trigger] out@[k])@,
                at,
            ) by {
                if k < held.len() {
                    assert(due_among(all, i as int, held[k]@, at));
                } else {
                    assert(all[i as int].0@ == out@[k]@);
                }
            }
            i += 1;
        }
        assert forall|device: Seq<char>|
            #![trigger self@.contains_key(device)]
            text::texts(out@).contains(device) <==> self@.contains_key(device)
                && self@[device].due <= at by {
            lemma_wait_index(all, device);
            if text::texts(out@).contains(device) {
                let k = text::texts(out@).index_of(device);
                assert(due_among(all, all.len() as int, out@[k]@, at));
                let j = choose|j: int|
                    0 <= j < all.len() && (#[trigger] all[j]).0@ == out@[k]@ && clock::nanos(
                        all[j].1.due,
                    ) <= at;
                assert forall|l: int| 0 <= l < j implies (#[trigger] all[l]).0@ != device by {
                    assert(all[l].0@ != all[j].0@);
                }
                lemma_wait_index_unique(all, device, j);
            }
        }
        out
    }
}

/// A device begins to wait for one second, and each attempt doubles the wait, up to one minute.
pub proof fn a_wait_doubles_up_to_a_minute(
    waits: Map<Seq<char>, WaitView>,
    device: Seq<char>,
    now: nat,
    other: Seq<char>,
)
    ensures
        !waits.contains_key(device) ==> with_waiting(waits, device, now).contains_key(device)
            && with_waiting(waits, device, now)[device].delay == 1_000_000_000 && with_waiting(
            waits,
            device,
            now,
        )[device].due == now + 1_000_000_000,
        waits.contains_key(device) ==> with_waiting(waits, device, now) == waits,
        waits.contains_key(device) ==> {
            let after = with_attempt(waits, device, now);
            let doubled = 2 * waits[device].delay;
            &&& after.contains_key(device)
            &&& after[device].delay == if doubled <= 60_000_000_000 {
                doubled
            } else {
                60_000_000_000
            }
            &&& after[device].due == now + after[device].delay
        },
        !waits.contains_key(device) ==> with_attempt(waits, device, now) == waits,
        other != device ==> with_attempt(waits, device, now).contains_key(other)
            == waits.contains_key(other) && (waits.contains_key(other) ==> with_attempt(
            waits,
            device,
            now,
        )[other] == waits[other]),
{
}

} // verus!

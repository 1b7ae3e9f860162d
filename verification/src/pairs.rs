//! A map keyed by a device's name and a point's id.

use crate::text::same_text;
use vstd::prelude::*;
use vstd::string::*;

verus! {

/// A map keyed by a device's name and a point's id.
pub struct PairMap<V> {
    entries: Vec<(String, String, V)>,
}

/// The position of the first entry with that key, or the number of entries.
pub open spec fn pair_index<V>(
    entries: Seq<(String, String, V)>,
    key: (Seq<char>, Seq<char>),
) -> int
    decreases entries.len(),
{
    if entries.len() == 0 {
        0
    } else if (entries.first().0@, entries.first().1@) == key {
        0
    } else {
        1 + pair_index(entries.drop_first(), key)
    }
}

impl<V> View for PairMap<V> {
    type V = Map<(Seq<char>, Seq<char>), V>;

    closed spec fn view(&self) -> Map<(Seq<char>, Seq<char>), V> {
        Map::new(
            |key: (Seq<char>, Seq<char>)| pair_index(self.entries@, key) < self.entries@.len(),
            |key: (Seq<char>, Seq<char>)| self.entries@[pair_index(self.entries@, key)].2,
        )
    }
}

/// [`pair_index`] is the first position that holds the key.
proof fn lemma_pair_index<V>(entries: Seq<(String, String, V)>, key: (Seq<char>, Seq<char>))
    ensures
        0 <= pair_index(entries, key) <= entries.len(),
        pair_index(entries, key) < entries.len() ==> (
            entries[pair_index(entries, key)].0@,
            entries[pair_index(entries, key)].1@,
        ) == key,
        forall|j: int|
            #![trigger entries[j]]
            0 <= j < pair_index(entries, key) ==> (entries[j].0@, entries[j].1@) != key,
    decreases entries.len(),
{
    if entries.len() > 0 && (entries.first().0@, entries.first().1@) != key {
        let rest = entries.drop_first();
        lemma_pair_index(rest, key);
        assert forall|j: int|
            #![trigger entries[j]]
            0 <= j < pair_index(entries, key) implies (entries[j].0@, entries[j].1@) != key by {
            if j > 0 {
                assert(entries[j] == rest[j - 1]);
            }
        }
    }
}

/// A position that holds the key, with no earlier one, is [`pair_index`].
proof fn lemma_pair_index_unique<V>(
    entries: Seq<(String, String, V)>,
    key: (Seq<char>, Seq<char>),
    i: int,
)
    requires
        0 <= i <= entries.len(),
        i < entries.len() ==> (entries[i].0@, entries[i].1@) == key,
        forall|j: int|
            #![trigger entries[j]]
            0 <= j < i ==> (entries[j].0@, entries[j].1@) != key,
    ensures
        pair_index(entries, key) == i,
{
    lemma_pair_index(entries, key);
    let k = pair_index(entries, key);
    if k < i {
        assert((entries[k].0@, entries[k].1@) != key);
    }
    if i < k {
        assert((entries[i].0@, entries[i].1@) != key);
    }
}

impl<V> PairMap<V> {
    /// No entry.
    pub fn new() -> (r: Self)
        ensures
            r@ == Map::<(Seq<char>, Seq<char>), V>::empty(),
    {
        let r = PairMap { entries: Vec::new() };
        assert(r@ =~= Map::<(Seq<char>, Seq<char>), V>::empty());
        r
    }

    /// The position of the entry, or the number of entries.
    fn find(&self, device: &str, point: &str) -> (i: usize)
        ensures
            i == pair_index(self.entries@, (device@, point@)),
            i <= self.entries@.len(),
    {
        let ghost all = self.entries@;
        let ghost key = (device@, point@);
        let mut i: usize = 0;
        while i < self.entries.len()
            invariant
                0 <= i <= self.entries.len(),
                all == self.entries@,
                key == (device@, point@),
                forall|j: int|
                    #![trigger all[j]]
                    0 <= j < i ==> (all[j].0@, all[j].1@) != key,
            decreases self.entries.len() - i,
        {
            let entry = &self.entries[i];
            if same_text(entry.0.as_str(), device) && same_text(entry.1.as_str(), point) {
                proof {
                    lemma_pair_index_unique(all, key, i as int);
                }
                return i;
            }
            i += 1;
        }
        proof {
            lemma_pair_index_unique(all, key, i as int);
        }
        i
    }

    /// What the map holds for a point.
    pub fn get(&self, device: &str, point: &str) -> (r: Option<&V>)
        ensures
            match r {
                Some(v) => self@.contains_key((device@, point@)) && *v == self@[(device@, point@)],
                None => !self@.contains_key((device@, point@)),
            },
    {
        let i = self.find(device, point);
        if i < self.entries.len() {
            Some(&self.entries[i].2)
        } else {
            None
        }
    }

    /// Gives a point a value, in place of any it had.
    pub fn insert(&mut self, device: &str, point: &str, value: V)
        ensures
            final(self)@ == old(self)@.insert((device@, point@), value),
    {
        let ghost before = self.entries@;
        let ghost start = self@;
        let ghost key = (device@, point@);
        let i = self.find(device, point);
        proof {
            lemma_pair_index(before, key);
        }
        let entry = (String::from_str(device), String::from_str(point), value);
        if i < self.entries.len() {
            self.entries.set(i, entry);
        } else {
            self.entries.push(entry);
        }
        let ghost after = self.entries@;
        assert forall|k: (Seq<char>, Seq<char>)|
            (#[trigger] self@.contains_key(k)) == start.insert(key, value).contains_key(k) && (
            self@.contains_key(k) ==> self@[k] == start.insert(key, value)[k]) by {
            lemma_pair_index(before, k);
            let at = pair_index(before, k);
            if k == key {
                assert forall|j: int|
                    #![trigger after[j]]
                    0 <= j < i implies (after[j].0@, after[j].1@) != key by {
                    assert((before[j].0@, before[j].1@) != key);
                }
                lemma_pair_index_unique(after, key, i as int);
            } else if at < before.len() {
                assert forall|j: int|
                    #![trigger after[j]]
                    0 <= j < at implies (after[j].0@, after[j].1@) != k by {
                    assert((before[j].0@, before[j].1@) != k);
                }
                assert(after[at] == before[at]);
                lemma_pair_index_unique(after, k, at);
            } else {
                assert forall|j: int|
                    #![trigger after[j]]
                    0 <= j < after.len() implies (after[j].0@, after[j].1@) != k by {
                    if j < before.len() {
                        assert((before[j].0@, before[j].1@) != k);
                    }
                }
                lemma_pair_index_unique(after, k, after.len() as int);
            }
        }
        assert(self@ =~= start.insert(key, value));
    }
}

} // verus!

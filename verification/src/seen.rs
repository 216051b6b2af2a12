//! A table of text keys with the second at which each was last seen.
//!
//! It stands where a hash map from text to time would: a key occurs at most once.

use crate::text::{chars_of, same};
use vstd::prelude::*;

verus! {

/// One key and the second at which it was last seen.
#[derive(Debug)]
pub struct Seen {
    pub key: String,
    pub at: i64,
}

/// Keys with the second at which each was last seen, oldest entry first.
#[derive(Debug)]
pub struct SeenTable {
    entries: Vec<Seen>,
}

/// Position of the entry for `key`, or `-1` where there is none.
pub open spec fn key_index(entries: Seq<(Seq<char>, i64)>, key: Seq<char>) -> int
    decreases entries.len(),
{
    if entries.len() == 0 {
        -1
    } else if entries.last().0 == key {
        entries.len() - 1
    } else {
        key_index(entries.drop_last(), key)
    }
}

/// The second at which `key` was last seen, if it is in the table.
pub open spec fn lookup(entries: Seq<(Seq<char>, i64)>, key: Seq<char>) -> Option<i64> {
    if key_index(entries, key) >= 0 {
        Some(entries[key_index(entries, key)].1)
    } else {
        None
    }
}

/// The table after `key` was seen at `now`: its entry is updated, or a new one added at the end.
pub open spec fn recorded(entries: Seq<(Seq<char>, i64)>, key: Seq<char>, now: i64) -> Seq<
    (Seq<char>, i64),
> {
    if key_index(entries, key) >= 0 {
        entries.update(key_index(entries, key), (key, now))
    } else {
        entries.push((key, now))
    }
}

/// The table after `key` was met at `now`: a key that is new is added at the end, one
/// that is known keeps the second at which it was first met.
pub open spec fn noted(entries: Seq<(Seq<char>, i64)>, key: Seq<char>, now: i64) -> Seq<
    (Seq<char>, i64),
> {
    if key_index(entries, key) >= 0 {
        entries
    } else {
        entries.push((key, now))
    }
}

/// The entries that are younger than `max_age` at `now`, in their order.
pub open spec fn retained(entries: Seq<(Seq<char>, i64)>, now: i64, max_age: int) -> Seq<
    (Seq<char>, i64),
>
    decreases entries.len(),
{
    if entries.len() == 0 {
        Seq::empty()
    } else if now - entries.last().1 < max_age {
        retained(entries.drop_last(), now, max_age).push(entries.last())
    } else {
        retained(entries.drop_last(), now, max_age)
    }
}

/// No key occurs twice.
pub open spec fn distinct_keys(entries: Seq<(Seq<char>, i64)>) -> bool {
    forall|i: int, j: int|
        0 <= i < j < entries.len() ==> (#[trigger] entries[i]).0 != (#[trigger] entries[j]).0
}

/// `key_index` points at an entry for the key, and no later entry has the key.
pub proof fn lemma_key_index(entries: Seq<(Seq<char>, i64)>, key: Seq<char>)
    ensures
        -1 <= key_index(entries, key) < entries.len(),
        key_index(entries, key) >= 0 ==> entries[key_index(entries, key)].0 == key,
        forall|j: int| key_index(entries, key) < j < entries.len() ==> entries[j].0 != key,
    decreases entries.len(),
{
    if entries.len() != 0 && entries.last().0 != key {
        let init = entries.drop_last();
        lemma_key_index(init, key);
        assert forall|j: int| key_index(entries, key) < j < entries.len() implies entries[j].0
            != key by {
            if j < entries.len() - 1 {
                assert(entries[j] == init[j]);
            }
        }
        if key_index(entries, key) >= 0 {
            assert(entries[key_index(entries, key)] == init[key_index(init, key)]);
        }
    }
}

/// Any position that fits the description of `key_index` is `key_index`.
pub proof fn lemma_key_index_is(entries: Seq<(Seq<char>, i64)>, key: Seq<char>, i: int)
    requires
        -1 <= i < entries.len(),
        i >= 0 ==> entries[i].0 == key,
        forall|j: int| i < j < entries.len() ==> entries[j].0 != key,
    ensures
        key_index(entries, key) == i,
{
    lemma_key_index(entries, key);
    let f = key_index(entries, key);
    if f > i {
        assert(entries[f].0 != key);
    } else if i > f {
        assert(entries[i].0 == key);
    }
}

/// A key that was recorded is found, with the second at which it was recorded; the
/// other keys are found as before.
pub proof fn lemma_recorded(entries: Seq<(Seq<char>, i64)>, key: Seq<char>, now: i64)
    ensures
        lookup(recorded(entries, key, now), key) == Some(now),
        forall|other: Seq<char>|
            other != key ==> lookup(recorded(entries, key, now), other) == lookup(entries, other),
        distinct_keys(entries) ==> distinct_keys(recorded(entries, key, now)),
{
    lemma_key_index(entries, key);
    let i = key_index(entries, key);
    let after = recorded(entries, key, now);
    if i >= 0 {
        lemma_key_index_is(after, key, i);
    } else {
        lemma_key_index_is(after, key, entries.len() as int);
    }
    assert forall|other: Seq<char>| other != key implies lookup(after, other) == lookup(
        entries,
        other,
    ) by {
        lemma_key_index(entries, other);
        let k = key_index(entries, other);
        assert forall|j: int| k < j < after.len() implies after[j].0 != other by {
            if j < entries.len() && j != i {
                assert(after[j] == entries[j]);
            }
        }
        lemma_key_index_is(after, other, k);
    }
    if distinct_keys(entries) {
        assert forall|a: int, b: int| 0 <= a < b < after.len() implies (#[trigger] after[a]).0 != (
        #[trigger] after[b]).0 by {
            if i >= 0 {
                assert(after[a].0 == entries[a].0);
                assert(after[b].0 == entries[b].0);
            } else if b < entries.len() {
                assert(after[a] == entries[a]);
                assert(after[b] == entries[b]);
            } else {
                assert(after[a] == entries[a]);
            }
        }
    }
}

/// What is retained was in the table, is young enough, and keeps keys apart.
pub proof fn lemma_retained(entries: Seq<(Seq<char>, i64)>, now: i64, max_age: int)
    ensures
        retained(entries, now, max_age).len() <= entries.len(),
        forall|k: int|
            0 <= k < retained(entries, now, max_age).len() ==> now - (#[trigger] retained(
                entries,
                now,
                max_age,
            )[k]).1 < max_age && exists|j: int|
                0 <= j < entries.len() && entries[j] == retained(entries, now, max_age)[k],
        forall|j: int|
            0 <= j < entries.len() && now - (#[trigger] entries[j]).1 < max_age ==> exists|k: int|
                0 <= k < retained(entries, now, max_age).len() && retained(
                    entries,
                    now,
                    max_age,
                )[k] == entries[j],
        distinct_keys(entries) ==> distinct_keys(retained(entries, now, max_age)),
    decreases entries.len(),
{
    if entries.len() > 0 {
        let init = entries.drop_last();
        let last = entries.last();
        let ri = retained(init, now, max_age);
        let r = retained(entries, now, max_age);
        lemma_retained(init, now, max_age);
        assert forall|k: int| 0 <= k < r.len() implies now - (#[trigger] r[k]).1 < max_age
            && exists|j: int| 0 <= j < entries.len() && entries[j] == r[k] by {
            if k < ri.len() {
                assert(r[k] == ri[k]);
                let j = choose|j: int| 0 <= j < init.len() && init[j] == ri[k];
                assert(entries[j] == r[k]);
            } else {
                assert(entries[entries.len() - 1] == r[k]);
            }
        }
        assert forall|j: int|
            0 <= j < entries.len() && now - (#[trigger] entries[j]).1 < max_age implies exists|
            k: int,
        | 0 <= k < r.len() && r[k] == entries[j] by {
            if j < init.len() {
                assert(init[j] == entries[j]);
                let k = choose|k: int| 0 <= k < ri.len() && ri[k] == init[j];
                assert(r[k] == entries[j]);
            } else {
                assert(r[r.len() - 1] == entries[j]);
            }
        }
        if distinct_keys(entries) {
            assert(distinct_keys(init)) by {
                assert forall|a: int, b: int| 0 <= a < b < init.len() implies (
                #[trigger] init[a]).0 != (#[trigger] init[b]).0 by {
                    assert(init[a] == entries[a]);
                    assert(init[b] == entries[b]);
                }
            }
            assert forall|a: int, b: int| 0 <= a < b < r.len() implies (#[trigger] r[a]).0 != (
            #[trigger] r[b]).0 by {
                if b < ri.len() {
                    assert(r[a] == ri[a]);
                    assert(r[b] == ri[b]);
                } else {
                    assert(r[a] == ri[a]);
                    let j = choose|j: int| 0 <= j < init.len() && init[j] == ri[a];
                    assert(entries[j] == init[j]);
                    assert(r[b] == entries[entries.len() - 1]);
                }
            }
        }
    }
}

impl View for SeenTable {
    type V = Seq<(Seq<char>, i64)>;

    closed spec fn view(&self) -> Seq<(Seq<char>, i64)> {
        Seq::new(self.entries@.len(), |i: int| (self.entries@[i].key@, self.entries@[i].at))
    }
}

impl SeenTable {
    /// No key occurs twice.
    pub open spec fn wf(&self) -> bool {
        distinct_keys(self@)
    }

    /// An empty table.
    pub fn new() -> (r: Self)
        ensures
            r@ == Seq::<(Seq<char>, i64)>::empty(),
            r.wf(),
    {
        let r = SeenTable { entries: Vec::new() };
        assert(r@ =~= Seq::empty());
        r
    }

    /// The number of keys.
    pub fn len(&self) -> (n: usize)
        ensures
            n == self@.len(),
    {
        self.entries.len()
    }

    /// Position of the entry for `key`.
    fn position(&self, key: &Vec<char>) -> (r: Option<usize>)
        ensures
            match r {
                Some(i) => i == key_index(self@, key@) && i < self.entries.len(),
                None => key_index(self@, key@) == -1,
            },
    {
        let mut i: usize = self.entries.len();
        while i > 0
            invariant
                i <= self.entries.len(),
                forall|j: int| i <= j < self@.len() ==> self@[j].0 != key@,
            decreases i,
        {
            i -= 1;
            let k = chars_of(self.entries[i].key.as_str());
            if same(&k, key) {
                proof {
                    lemma_key_index_is(self@, key@, i as int);
                }
                return Some(i);
            }
        }
        proof {
            lemma_key_index_is(self@, key@, -1);
        }
        None
    }

    /// The second at which `key` was last seen, if it is in the table.
    pub fn last_seen(&self, key: &str) -> (r: Option<i64>)
        ensures
            r == lookup(self@, key@),
    {
        let k = chars_of(key);
        match self.position(&k) {
            Some(i) => {
                assert(self@[i as int].1 == self.entries@[i as int].at);
                Some(self.entries[i].at)
            },
            None => None,
        }
    }

    /// Whether `key` is in the table.
    pub fn contains_key(&self, key: &str) -> (r: bool)
        ensures
            r == (lookup(self@, key@) is Some),
    {
        self.last_seen(key).is_some()
    }

    /// Notes that `key` was seen at `now`.
    pub fn record(&mut self, key: String, now: i64)
        ensures
            final(self)@ == recorded(old(self)@, key@, now),
            old(self).wf() ==> final(self).wf(),
    {
        let k = chars_of(key.as_str());
        proof {
            lemma_recorded(self@, key@, now);
        }
        match self.position(&k) {
            Some(i) => {
                proof {
                    lemma_key_index(self@, key@);
                }
                let entry = Seen { key, at: now };
                self.entries[i] = entry;
                assert(self@ =~= recorded(old(self)@, key@, now));
            },
            None => {
                self.entries.push(Seen { key, at: now });
                assert(self@ =~= recorded(old(self)@, key@, now));
            },
        }
    }

    /// Notes that `key` was met at `now`, unless it is known already.
    pub fn note(&mut self, key: String, now: i64)
        ensures
            final(self)@ == noted(old(self)@, key@, now),
            old(self).wf() ==> final(self).wf(),
    {
        let k = chars_of(key.as_str());
        match self.position(&k) {
            Some(_) => {},
            None => {
                proof {
                    lemma_recorded(self@, key@, now);
                }
                self.entries.push(Seen { key, at: now });
                assert(self@ =~= noted(old(self)@, key@, now));
            },
        }
    }

    /// Drops the entries that are `max_age` seconds old or older at `now`.
    pub fn evict(&mut self, now: i64, max_age: u32)
        ensures
            final(self)@ == retained(old(self)@, now, max_age as int),
            old(self).wf() ==> final(self).wf(),
    {
        let mut kept: Vec<Seen> = Vec::new();
        let mut i: usize = 0;
        let ghost all = self@;
        while i < self.entries.len()
            invariant
                i <= self.entries.len(),
                self@ == all,
                Seq::new(kept@.len(), |k: int| (kept@[k].key@, kept@[k].at)) == retained(
                    all.subrange(0, i as int),
                    now,
                    max_age as int,
                ),
            decreases self.entries.len() - i,
        {
            let ghost before = Seq::new(kept@.len(), |k: int| (kept@[k].key@, kept@[k].at));
            let e = &self.entries[i];
            proof {
                assert(all.subrange(0, i + 1).drop_last() =~= all.subrange(0, i as int));
                assert(all.subrange(0, i + 1).last() == (e.key@, e.at));
            }
            if (now as i128) - (e.at as i128) < max_age as i128 {
                kept.push(Seen { key: e.key.clone(), at: e.at });
                assert(Seq::new(kept@.len(), |k: int| (kept@[k].key@, kept@[k].at)) =~= before.push(
                    (e.key@, e.at),
                ));
            }
            i += 1;
        }
        proof {
            assert(all.subrange(0, i as int) =~= all);
            lemma_retained(all, now, max_age as int);
        }
        self.entries = kept;
        assert(self@ =~= retained(all, now, max_age as int));
    }
}

} // verus!

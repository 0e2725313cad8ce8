//! Usage-history store: per-target launch counters with a debounced flush
//! policy.  The store itself never touches the disk; `increment` reports
//! when a flush is due and the surrounding process performs the write.

use vstd::prelude::*;

use crate::text::{chars_of, eq_chars};

verus! {

/// A map from action strings to usage counts, kept as an association list
/// with unique keys.
pub struct UsageMap {
    entries: Vec<(String, u32)>,
}

impl UsageMap {
    /// Keys are pairwise distinct.
    pub closed spec fn wf(&self) -> bool {
        forall|i: int, j: int|
            0 <= i < j < self.entries@.len() ==> self.entries@[i].0@ != self.entries@[j].0@
    }

    pub closed spec fn spec_entries(&self) -> Seq<(String, u32)> {
        self.entries@
    }

    pub closed spec fn contains_key(&self, k: Seq<char>) -> bool {
        exists|i: int| 0 <= i < self.entries@.len() && self.entries@[i].0@ == k
    }

    pub closed spec fn spec_usage(&self, k: Seq<char>) -> u32 {
        if self.contains_key(k) {
            let i = choose|i: int| 0 <= i < self.entries@.len() && self.entries@[i].0@ == k;
            self.entries@[i].1
        } else {
            0u32
        }
    }

    /// With unique keys, any entry whose key is `k` holds `spec_usage(k)`.
    proof fn lemma_usage_at(&self, i: int)
        requires
            self.wf(),
            0 <= i < self.spec_entries().len(),
        ensures
            self.contains_key(self.spec_entries()[i].0@),
            self.spec_usage(self.spec_entries()[i].0@) == self.spec_entries()[i].1,
    {
        let k = self.entries@[i].0@;
        assert(self.contains_key(k));
        let j = choose|j: int| 0 <= j < self.entries@.len() && self.entries@[j].0@ == k;
        if i != j {
            assert(self.entries@[i].0@ == self.entries@[j].0@);
            assert(false);
        }
    }

    /// An empty map.
    pub fn new() -> (r: UsageMap)
        ensures
            r.wf(),
            forall|k: Seq<char>| r.spec_usage(k) == 0,
            r.spec_entries().len() == 0,
    {
        UsageMap { entries: Vec::new() }
    }

    fn find(&self, k: &[char]) -> (r: Option<usize>)
        ensures
            match r {
                Some(i) => 0 <= i < self.spec_entries().len() && self.spec_entries()[i as int].0@
                    == k@,
                None => !self.contains_key(k@),
            },
    {
        let mut i: usize = 0;
        while i < self.entries.len()
            invariant
                0 <= i <= self.entries@.len(),
                forall|j: int| 0 <= j < i ==> self.entries@[j].0@ != k@,
            decreases self.entries@.len() - i,
        {
            let ec = chars_of(self.entries[i].0.as_str());
            if eq_chars(ec.as_slice(), k) {
                return Some(i);
            }
            i = i + 1;
        }
        None
    }

    /// The recorded count for a key, zero when unknown.
    pub fn get(&self, k: &str) -> (r: u32)
        requires
            self.wf(),
        ensures
            r == self.spec_usage(k@),
    {
        let kc = chars_of(k);
        match self.find(kc.as_slice()) {
            Some(i) => {
                proof {
                    self.lemma_usage_at(i as int);
                }
                self.entries[i].1
            },
            None => 0,
        }
    }

    /// Raises the count for a key by one, saturating at the maximum;
    /// an unknown key starts at one.
    pub fn bump(&mut self, k: &str)
        requires
            old(self).wf(),
        ensures
            final(self).wf(),
            final(self).spec_usage(k@) == (if old(self).spec_usage(k@) < u32::MAX {
                (old(self).spec_usage(k@) + 1) as u32
            } else {
                u32::MAX
            }),
            forall|k2: Seq<char>|
                k2 != k@ ==> final(self).spec_usage(k2) == old(self).spec_usage(k2),
    {
        let kc = chars_of(k);
        match self.find(kc.as_slice()) {
            Some(i) => {
                proof {
                    self.lemma_usage_at(i as int);
                }
                let ghost prev = self.entries@;
                let s = self.entries[i].0.clone();
                let c = self.entries[i].1;
                let c2: u32 = if c < u32::MAX {
                    c + 1
                } else {
                    c
                };
                self.entries[i] = (s, c2);
                proof {
                    assert(self.entries@ =~= prev.update(i as int, (s, c2)));
                    assert(forall|j: int|
                        0 <= j < self.entries@.len() ==> self.entries@[j].0@ == prev[j].0@);
                    assert(self.wf());
                    self.lemma_usage_at(i as int);
                    assert forall|k2: Seq<char>| k2 != k@ implies self.spec_usage(k2) == old(
                        self,
                    ).spec_usage(k2) by {
                        if self.contains_key(k2) {
                            let j = choose|j: int|
                                0 <= j < self.entries@.len() && self.entries@[j].0@ == k2;
                            assert(j != i);
                            assert(prev[j].0@ == k2);
                            old(self).lemma_usage_at(j);
                            self.lemma_usage_at(j);
                        } else {
                            assert(!old(self).contains_key(k2));
                        }
                    }
                }
            },
            None => {
                let ghost prev = self.entries@;
                let ks = crate::text::string_from_chars(kc.as_slice());
                self.entries.push((ks, 1));
                proof {
                    assert(self.entries@ =~= prev.push((ks, 1u32)));
                    assert(forall|j: int| 0 <= j < prev.len() ==> self.entries@[j] == prev[j]);
                    assert(self.entries@[prev.len() as int].0@ == k@);
                    assert(self.wf());
                    self.lemma_usage_at(prev.len() as int);
                    assert(old(self).spec_usage(k@) == 0);
                    assert forall|k2: Seq<char>| k2 != k@ implies self.spec_usage(k2) == old(
                        self,
                    ).spec_usage(k2) by {
                        if self.contains_key(k2) {
                            let j = choose|j: int|
                                0 <= j < self.entries@.len() && self.entries@[j].0@ == k2;
                            assert(j < prev.len());
                            old(self).lemma_usage_at(j);
                            self.lemma_usage_at(j);
                        } else {
                            assert(!old(self).contains_key(k2));
                        }
                    }
                }
            },
        }
    }

    /// The entries as plain pairs, for persistence by the caller.
    pub fn pairs(&self) -> (r: &Vec<(String, u32)>)
        ensures
            r@ == self.spec_entries(),
    {
        &self.entries
    }

    /// Builds a map from loaded pairs; on a duplicate key the first pair
    /// wins, mirroring how a JSON object with repeated names is read.
    pub fn from_pairs(pairs: Vec<(String, u32)>) -> (r: UsageMap)
        ensures
            r.wf(),
            forall|i: int|
                0 <= i < pairs@.len() && (forall|j: int|
                    0 <= j < i ==> pairs@[j].0@ != pairs@[i].0@) ==> r.spec_usage(pairs@[i].0@)
                    == pairs@[i].1,
            forall|k: Seq<char>|
                (forall|i: int| 0 <= i < pairs@.len() ==> pairs@[i].0@ != k) ==> r.spec_usage(k)
                    == 0,
    {
        let mut r = UsageMap { entries: Vec::new() };
        let mut i: usize = 0;
        while i < pairs.len()
            invariant
                0 <= i <= pairs@.len(),
                r.wf(),
                forall|a: int|
                    0 <= a < i && (forall|j: int| 0 <= j < a ==> pairs@[j].0@ != pairs@[a].0@)
                        ==> r.contains_key(pairs@[a].0@) && r.spec_usage(pairs@[a].0@)
                        == pairs@[a].1,
                forall|k: Seq<char>|
                    r.contains_key(k) ==> exists|a: int| 0 <= a < i && pairs@[a].0@ == k,
            decreases pairs@.len() - i,
        {
            let kc = chars_of(pairs[i].0.as_str());
            match r.find(kc.as_slice()) {
                Some(_) => {
                },
                None => {
                    let ghost prev = r;
                    let ks = crate::text::string_from_chars(kc.as_slice());
                    let c = pairs[i].1;
                    r.entries.push((ks, c));
                    proof {
                        assert(r.entries@ =~= prev.entries@.push((ks, c)));
                        assert(forall|j: int|
                            0 <= j < prev.entries@.len() ==> r.entries@[j] == prev.entries@[j]);
                        assert(r.wf());
                        assert forall|a: int|
                            0 <= a < i + 1 && (forall|j: int|
                                0 <= j < a ==> pairs@[j].0@ != pairs@[a].0@) implies r.contains_key(
                            pairs@[a].0@,
                        ) && r.spec_usage(pairs@[a].0@) == pairs@[a].1 by {
                            if a < i {
                                assert(prev.contains_key(pairs@[a].0@) && prev.spec_usage(
                                    pairs@[a].0@,
                                ) == pairs@[a].1);
                                let j = choose|j: int|
                                    0 <= j < prev.entries@.len() && prev.entries@[j].0@
                                        == pairs@[a].0@;
                                r.lemma_usage_at(j);
                                prev.lemma_usage_at(j);
                            } else {
                                r.lemma_usage_at(prev.entries@.len() as int);
                            }
                        }
                        assert forall|k: Seq<char>| r.contains_key(k) implies exists|a: int|
                            0 <= a < i + 1 && pairs@[a].0@ == k by {
                            let j = choose|j: int|
                                0 <= j < r.entries@.len() && r.entries@[j].0@ == k;
                            if j < prev.entries@.len() {
                                assert(prev.contains_key(k));
                            } else {
                                assert(pairs@[i as int].0@ == k);
                            }
                        }
                    }
                },
            }
            i = i + 1;
        }
        r
    }
}

/// Number of pending increments at which a flush becomes due.
pub open spec fn flush_count_threshold() -> u32 {
    20
}

/// Elapsed milliseconds since the last flush at which a flush becomes due.
pub open spec fn flush_interval_ms() -> u64 {
    2000
}

/// Whether a flush is due after an increment: either enough increments have
/// accumulated or enough time has passed since the last flush.
pub open spec fn spec_flush_due(dirty: u32, last_save_ms: u64, now_ms: u64) -> bool {
    dirty >= flush_count_threshold() || (now_ms >= last_save_ms && now_ms - last_save_ms
        >= flush_interval_ms())
}

/// Per-target usage counters with debounced persistence: the caller writes
/// the counters out exactly when `increment` returns true.
pub struct History {
    /// The usage counters keyed by action string.
    pub usage: UsageMap,
    /// Increments accumulated since the last flush.
    pub dirty_count: u32,
    /// Clock reading at the last flush.
    pub last_save_ms: u64,
}

impl History {
    pub open spec fn wf(&self) -> bool {
        self.usage.wf()
    }

    pub open spec fn spec_dirty(&self) -> u32 {
        self.dirty_count
    }

    pub open spec fn spec_last_save(&self) -> u64 {
        self.last_save_ms
    }

    /// A fresh, empty history; `now_ms` is the current clock reading.
    pub fn new(now_ms: u64) -> (r: History)
        ensures
            r.wf(),
            forall|k: Seq<char>| r.usage.spec_usage(k) == 0,
            r.spec_dirty() == 0,
            r.spec_last_save() == now_ms,
    {
        History { usage: UsageMap::new(), dirty_count: 0, last_save_ms: now_ms }
    }

    /// A history over counters loaded from disk.
    pub fn from_loaded(usage: UsageMap, now_ms: u64) -> (r: History)
        requires
            usage.wf(),
        ensures
            r.wf(),
            r.usage == usage,
            r.spec_dirty() == 0,
            r.spec_last_save() == now_ms,
    {
        History { usage, dirty_count: 0, last_save_ms: now_ms }
    }

    /// The recorded count for a target, zero when unknown.
    pub fn get_usage(&self, exec: &str) -> (r: u32)
        requires
            self.wf(),
        ensures
            r == self.usage.spec_usage(exec@),
    {
        self.usage.get(exec)
    }

    /// Records one use of a target.  Returns true exactly when the counters
    /// should be flushed to disk now: at least 20 increments have
    /// accumulated since the last flush, or at least 2 seconds have passed
    /// since it.  When a flush is due the debounce state resets; the caller
    /// is expected to perform the actual write.
    pub fn increment(&mut self, exec: &str, now_ms: u64) -> (flush: bool)
        requires
            old(self).wf(),
        ensures
            final(self).wf(),
            final(self).usage.spec_usage(exec@) == (if old(self).usage.spec_usage(exec@)
                < u32::MAX {
                (old(self).usage.spec_usage(exec@) + 1) as u32
            } else {
                u32::MAX
            }),
            forall|k: Seq<char>|
                k != exec@ ==> final(self).usage.spec_usage(k) == old(self).usage.spec_usage(k),
            flush == spec_flush_due(
                (if old(self).spec_dirty() < u32::MAX {
                    (old(self).spec_dirty() + 1) as u32
                } else {
                    u32::MAX
                }),
                old(self).spec_last_save(),
                now_ms,
            ),
            final(self).spec_dirty() == (if flush {
                0u32
            } else if old(self).spec_dirty() < u32::MAX {
                (old(self).spec_dirty() + 1) as u32
            } else {
                u32::MAX
            }),
            final(self).spec_last_save() == (if flush {
                now_ms
            } else {
                old(self).spec_last_save()
            }),
    {
        self.usage.bump(exec);
        let dirty: u32 = if self.dirty_count < u32::MAX {
            self.dirty_count + 1
        } else {
            u32::MAX
        };
        self.dirty_count = dirty;
        let flush_by_count = dirty >= 20;
        let flush_by_time = now_ms >= self.last_save_ms && now_ms - self.last_save_ms >= 2000;
        let flush = flush_by_count || flush_by_time;
        if flush {
            self.dirty_count = 0;
            self.last_save_ms = now_ms;
        }
        flush
    }

    /// Whether a final flush is owed at shutdown.
    pub fn has_pending(&self) -> (r: bool)
        ensures
            r == (self.spec_dirty() > 0),
    {
        self.dirty_count > 0
    }

    /// Marks the pending increments as flushed.
    pub fn mark_flushed(&mut self, now_ms: u64)
        ensures
            final(self).usage == old(self).usage,
            final(self).spec_dirty() == 0,
            final(self).spec_last_save() == now_ms,
    {
        self.dirty_count = 0;
        self.last_save_ms = now_ms;
    }
}

} // verus!

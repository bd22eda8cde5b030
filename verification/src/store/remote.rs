//! Decisions of the remote store: the server keeps the watched queries that
//! clients registered and drops those not registered again in time; the
//! client keeps its pending queries and mutations, which time out, its
//! watched queries, which it registers again at intervals, and the store node
//! it talks to.
use vstd::prelude::*;
use crate::node_map::NodeMap;
use crate::transport::ConnectionStatus;

verus! {

/// Time, in milliseconds, at which each request was last sent or registered,
/// by request id.
pub struct TimedRegistry {
    entries: Vec<(u64, u64)>,
}

pub open spec fn has_key(entries: Seq<(u64, u64)>, key: u64) -> bool {
    exists|i: int| 0 <= i < entries.len() && #[trigger] entries[i].0 == key
}

/// More than `timeout_ms` passed since `time` at `now`.
pub open spec fn elapsed_over(time: u64, now: u64, timeout_ms: u64) -> bool {
    now > time + timeout_ms
}

/// The registration is due at `now`: forced, or older than the interval.
pub open spec fn is_due(time: u64, now: u64, interval_ms: u64, force: bool) -> bool {
    force || elapsed_over(time, now, interval_ms)
}

impl TimedRegistry {
    pub closed spec fn view(&self) -> Map<u64, u64> {
        Map::new(
            |key: u64| has_key(self.entries@, key),
            |key: u64| self.entries@[choose|i: int| 0 <= i < self.entries@.len() && #[trigger] self.entries@[i].0 == key].1,
        )
    }

    pub closed spec fn wf(&self) -> bool {
        forall|i: int, j: int| 0 <= i < self.entries@.len() && 0 <= j < self.entries@.len() && i != j
            ==> #[trigger] self.entries@[i].0 != #[trigger] self.entries@[j].0
    }

    /// A registry of no request.
    pub fn new() -> (res: TimedRegistry)
        ensures
            res.wf(),
            res@ == Map::<u64, u64>::empty(),
    {
        let res = TimedRegistry { entries: Vec::new() };
        proof {
            assert(res@ =~= Map::<u64, u64>::empty());
        }
        res
    }

    fn find(&self, key: u64) -> (res: Option<usize>)
        requires
            self.wf(),
        ensures
            match res {
                Some(i) => i < self.entries@.len() && self.entries@[i as int].0 == key,
                None => !has_key(self.entries@, key),
            },
    {
        let mut i: usize = 0;
        while i < self.entries.len()
            invariant
                i <= self.entries@.len(),
                forall|j: int| 0 <= j < i ==> self.entries@[j].0 != key,
            decreases self.entries@.len() - i,
        {
            if self.entries[i].0 == key {
                return Some(i);
            }
            i = i + 1;
        }
        None
    }

    /// Whether the request is registered.
    pub fn contains(&self, key: u64) -> (res: bool)
        requires
            self.wf(),
        ensures
            res == self@.contains_key(key),
    {
        self.find(key).is_some()
    }

    /// Registers the request at `now`, or notes that it got registered again
    /// at `now`; tells whether it was registered already.
    pub fn register(&mut self, key: u64, now: u64) -> (was_registered: bool)
        requires
            old(self).wf(),
        ensures
            final(self).wf(),
            was_registered == old(self)@.contains_key(key),
            final(self)@ == old(self)@.insert(key, now),
    {
        let ghost before = self.entries@;
        match self.find(key) {
            Some(i) => {
                self.entries.set(i, (key, now));
                proof {
                    assert forall|k: u64| #[trigger] has_key(self.entries@, k) == has_key(before, k) by {
                        if has_key(before, k) {
                            let j = choose|j: int| 0 <= j < before.len() && #[trigger] before[j].0 == k;
                            assert(self.entries@[j].0 == k);
                        }
                        if has_key(self.entries@, k) {
                            let j = choose|j: int| 0 <= j < self.entries@.len() && #[trigger] self.entries@[j].0 == k;
                            assert(before[j].0 == k);
                        }
                    }
                    assert forall|k: u64| self@.contains_key(k) implies #[trigger] self@[k] == old(self)@.insert(key, now)[k] by {
                        let c = choose|j: int| 0 <= j < self.entries@.len() && #[trigger] self.entries@[j].0 == k;
                        if k == key {
                            if c != i {
                                assert(self.entries@[c].0 != self.entries@[i as int].0);
                            }
                        } else {
                            let c0 = choose|j: int| 0 <= j < before.len() && #[trigger] before[j].0 == k;
                            assert(c != i);
                            if c0 != c {
                                assert(before[c0].0 != before[c].0);
                            }
                        }
                    }
                    assert(self@ =~= old(self)@.insert(key, now));
                }
                true
            },
            None => {
                self.entries.push((key, now));
                proof {
                    let n = before.len() as int;
                    assert forall|k: u64| #[trigger] has_key(self.entries@, k) == (has_key(before, k) || k == key) by {
                        if has_key(before, k) {
                            let j = choose|j: int| 0 <= j < before.len() && #[trigger] before[j].0 == k;
                            assert(self.entries@[j].0 == k);
                        }
                        if k == key {
                            assert(self.entries@[n].0 == k);
                        }
                        if has_key(self.entries@, k) && k != key {
                            let j = choose|j: int| 0 <= j < self.entries@.len() && #[trigger] self.entries@[j].0 == k;
                            assert(before[j].0 == k);
                        }
                    }
                    assert forall|a: int, b: int| 0 <= a < self.entries@.len() && 0 <= b < self.entries@.len() && a != b
                        implies #[trigger] self.entries@[a].0 != #[trigger] self.entries@[b].0 by {
                        if a == n {
                            assert(!(before[b].0 == key));
                        } else if b == n {
                            assert(!(before[a].0 == key));
                        }
                    }
                    assert forall|k: u64| self@.contains_key(k) implies #[trigger] self@[k] == old(self)@.insert(key, now)[k] by {
                        let c = choose|j: int| 0 <= j < self.entries@.len() && #[trigger] self.entries@[j].0 == k;
                        if k == key {
                            if c != n {
                                assert(before[c].0 == key);
                            }
                        } else {
                            let c0 = choose|j: int| 0 <= j < before.len() && #[trigger] before[j].0 == k;
                            assert(before[c].0 == k);
                            if c0 != c {
                                assert(before[c0].0 != before[c].0);
                            }
                        }
                    }
                    assert(self@ =~= old(self)@.insert(key, now));
                }
                false
            },
        }
    }

    /// Removes the request; tells whether it was registered.
    pub fn remove(&mut self, key: u64) -> (was_registered: bool)
        requires
            old(self).wf(),
        ensures
            final(self).wf(),
            was_registered == old(self)@.contains_key(key),
            final(self)@ == old(self)@.remove(key),
    {
        let ghost before = self.entries@;
        match self.find(key) {
            Some(i) => {
                self.entries.remove(i);
                proof {
                    assert(self.entries@ =~= before.take(i as int) + before.skip(i as int + 1));
                    assert forall|k: u64| #[trigger] has_key(self.entries@, k) == (has_key(before, k) && k != key) by {
                        if has_key(self.entries@, k) {
                            let j = choose|j: int| 0 <= j < self.entries@.len() && #[trigger] self.entries@[j].0 == k;
                            if j < i {
                                assert(before[j].0 == k);
                                assert(before[j].0 != before[i as int].0);
                            } else {
                                assert(before[j + 1].0 == k);
                                assert(before[j + 1].0 != before[i as int].0);
                            }
                        }
                        if has_key(before, k) && k != key {
                            let j = choose|j: int| 0 <= j < before.len() && #[trigger] before[j].0 == k;
                            assert(j != i);
                            if j < i {
                                assert(self.entries@[j].0 == k);
                            } else {
                                assert(self.entries@[j - 1].0 == k);
                            }
                        }
                    }
                    assert forall|a: int, b: int| 0 <= a < self.entries@.len() && 0 <= b < self.entries@.len() && a != b
                        implies #[trigger] self.entries@[a].0 != #[trigger] self.entries@[b].0 by {
                        let a0 = if a < i { a } else { a + 1 };
                        let b0 = if b < i { b } else { b + 1 };
                        assert(self.entries@[a] == before[a0]);
                        assert(self.entries@[b] == before[b0]);
                    }
                    assert forall|k: u64| self@.contains_key(k) implies #[trigger] self@[k] == old(self)@.remove(key)[k] by {
                        let c = choose|j: int| 0 <= j < self.entries@.len() && #[trigger] self.entries@[j].0 == k;
                        let c0 = choose|j: int| 0 <= j < before.len() && #[trigger] before[j].0 == k;
                        let c1 = if c < i { c } else { c + 1 };
                        assert(before[c1] == self.entries@[c]);
                        if c0 != c1 {
                            assert(before[c0].0 != before[c1].0);
                        }
                    }
                    assert(self@ =~= old(self)@.remove(key));
                }
                true
            },
            None => {
                proof {
                    assert(self@ =~= old(self)@.remove(key));
                }
                false
            },
        }
    }

    /// Removes the requests registered more than `timeout_ms` before `now`,
    /// and gives their ids.
    pub fn remove_expired(&mut self, now: u64, timeout_ms: u64) -> (expired: Vec<u64>)
        requires
            old(self).wf(),
        ensures
            final(self).wf(),
            expired@.no_duplicates(),
            forall|k: u64| expired@.contains(k) <==> (old(self)@.contains_key(k) && elapsed_over(old(self)@[k], now, timeout_ms)),
            final(self)@ == old(self)@.restrict(
                old(self)@.dom().filter(|k: u64| !elapsed_over(old(self)@[k], now, timeout_ms)),
            ),
    {
        let ghost before = self.entries@;
        let ghost m0 = self@;
        let mut kept: Vec<(u64, u64)> = Vec::new();
        let mut expired: Vec<u64> = Vec::new();
        let ghost mut kept_idx: Seq<int> = seq![];
        let ghost mut expired_idx: Seq<int> = seq![];
        let mut i: usize = 0;
        while i < self.entries.len()
            invariant
                self.entries@ == before,
                self.wf(),
                m0 == self@,
                i <= before.len(),
                kept_idx.len() == kept@.len(),
                expired_idx.len() == expired@.len(),
                forall|a: int| 0 <= a < kept@.len() ==> 0 <= #[trigger] kept_idx[a] < i,
                forall|a: int| 0 <= a < kept@.len() ==> kept@[a] == before[#[trigger] kept_idx[a]],
                forall|a: int| 0 <= a < kept@.len() ==> !elapsed_over(before[#[trigger] kept_idx[a]].1, now, timeout_ms),
                forall|a: int, c: int| 0 <= a < c < kept@.len() ==> #[trigger] kept_idx[a] < #[trigger] kept_idx[c],
                forall|a: int| 0 <= a < expired@.len() ==> 0 <= #[trigger] expired_idx[a] < i,
                forall|a: int| 0 <= a < expired@.len() ==> expired@[a] == before[#[trigger] expired_idx[a]].0,
                forall|a: int| 0 <= a < expired@.len() ==> elapsed_over(before[#[trigger] expired_idx[a]].1, now, timeout_ms),
                forall|a: int, c: int| 0 <= a < c < expired@.len() ==> #[trigger] expired_idx[a] < #[trigger] expired_idx[c],
                forall|b: int| 0 <= b < i && !elapsed_over(#[trigger] before[b].1, now, timeout_ms)
                    ==> exists|a: int| 0 <= a < kept@.len() && #[trigger] kept_idx[a] == b,
                forall|b: int| 0 <= b < i && elapsed_over(#[trigger] before[b].1, now, timeout_ms)
                    ==> exists|a: int| 0 <= a < expired@.len() && #[trigger] expired_idx[a] == b,
            decreases before.len() - i,
        {
            let e = self.entries[i];
            let ghost ki0 = kept_idx;
            let ghost ei0 = expired_idx;
            if (now as u128) > (e.1 as u128) + (timeout_ms as u128) {
                expired.push(e.0);
                proof {
                    expired_idx = expired_idx.push(i as int);
                    assert(expired_idx[expired_idx.len() - 1] == i);
                    assert forall|b: int| 0 <= b < i + 1 && elapsed_over(#[trigger] before[b].1, now, timeout_ms)
                        implies exists|a: int| 0 <= a < expired@.len() && #[trigger] expired_idx[a] == b by {
                        if b == i {
                            assert(expired_idx[expired_idx.len() - 1] == b);
                        } else {
                            let a0 = choose|a: int| 0 <= a < ei0.len() && #[trigger] ei0[a] == b;
                            assert(expired_idx[a0] == b);
                        }
                    }
                    assert forall|b: int| 0 <= b < i + 1 && !elapsed_over(#[trigger] before[b].1, now, timeout_ms)
                        implies exists|a: int| 0 <= a < kept@.len() && #[trigger] kept_idx[a] == b by {
                        let a0 = choose|a: int| 0 <= a < ki0.len() && #[trigger] ki0[a] == b;
                        assert(kept_idx[a0] == b);
                    }
                }
            } else {
                kept.push(e);
                proof {
                    kept_idx = kept_idx.push(i as int);
                    assert(kept_idx[kept_idx.len() - 1] == i);
                    assert forall|b: int| 0 <= b < i + 1 && !elapsed_over(#[trigger] before[b].1, now, timeout_ms)
                        implies exists|a: int| 0 <= a < kept@.len() && #[trigger] kept_idx[a] == b by {
                        if b == i {
                            assert(kept_idx[kept_idx.len() - 1] == b);
                        } else {
                            let a0 = choose|a: int| 0 <= a < ki0.len() && #[trigger] ki0[a] == b;
                            assert(kept_idx[a0] == b);
                        }
                    }
                    assert forall|b: int| 0 <= b < i + 1 && elapsed_over(#[trigger] before[b].1, now, timeout_ms)
                        implies exists|a: int| 0 <= a < expired@.len() && #[trigger] expired_idx[a] == b by {
                        let a0 = choose|a: int| 0 <= a < ei0.len() && #[trigger] ei0[a] == b;
                        assert(expired_idx[a0] == b);
                    }
                }
            }
            i = i + 1;
        }
        self.entries = kept;
        proof {
            // distinct keys of before, by index
            assert forall|x: int, y: int| 0 <= x < before.len() && 0 <= y < before.len() && x != y
                implies before[x].0 != before[y].0 by {
                assert(old(self).entries@[x] == before[x]);
            }
            assert forall|a: int, c: int| 0 <= a < self.entries@.len() && 0 <= c < self.entries@.len() && a != c
                implies #[trigger] self.entries@[a].0 != #[trigger] self.entries@[c].0 by {
                if a < c {
                    assert(kept_idx[a] < kept_idx[c]);
                } else {
                    assert(kept_idx[c] < kept_idx[a]);
                }
            }
            assert forall|a: int, c: int| 0 <= a < expired@.len() && 0 <= c < expired@.len() && a != c
                implies expired@[a] != expired@[c] by {
                if a < c {
                    assert(expired_idx[a] < expired_idx[c]);
                } else {
                    assert(expired_idx[c] < expired_idx[a]);
                }
            }
            assert forall|k: u64| expired@.contains(k) <==> (m0.contains_key(k) && elapsed_over(m0[k], now, timeout_ms)) by {
                if expired@.contains(k) {
                    let j = choose|j: int| 0 <= j < expired@.len() && expired@[j] == k;
                    let b = expired_idx[j];
                    assert(before[b].0 == k);
                    assert(has_key(before, k));
                    let c = choose|c: int| 0 <= c < before.len() && #[trigger] before[c].0 == k;
                    if c != b {
                        assert(before[c].0 != before[b].0);
                    }
                }
                if m0.contains_key(k) && elapsed_over(m0[k], now, timeout_ms) {
                    let c = choose|c: int| 0 <= c < before.len() && #[trigger] before[c].0 == k;
                    assert(elapsed_over(before[c].1, now, timeout_ms));
                    let a = choose|a: int| 0 <= a < expired@.len() && #[trigger] expired_idx[a] == c;
                    assert(expired@[a] == k);
                }
            }
            let target = m0.restrict(m0.dom().filter(|k: u64| !elapsed_over(m0[k], now, timeout_ms)));
            assert forall|k: u64| #[trigger] has_key(self.entries@, k) == target.contains_key(k) by {
                if has_key(self.entries@, k) {
                    let a = choose|a: int| 0 <= a < self.entries@.len() && #[trigger] self.entries@[a].0 == k;
                    let b = kept_idx[a];
                    assert(before[b].0 == k);
                    assert(has_key(before, k));
                    let c = choose|c: int| 0 <= c < before.len() && #[trigger] before[c].0 == k;
                    if c != b {
                        assert(before[c].0 != before[b].0);
                    }
                }
                if target.contains_key(k) {
                    let c = choose|c: int| 0 <= c < before.len() && #[trigger] before[c].0 == k;
                    assert(!elapsed_over(before[c].1, now, timeout_ms));
                    let a = choose|a: int| 0 <= a < self.entries@.len() && #[trigger] kept_idx[a] == c;
                    assert(self.entries@[a].0 == k);
                }
            }
            assert forall|k: u64| self@.contains_key(k) implies #[trigger] self@[k] == target[k] by {
                let a = choose|a: int| 0 <= a < self.entries@.len() && #[trigger] self.entries@[a].0 == k;
                let b = kept_idx[a];
                let c = choose|c: int| 0 <= c < before.len() && #[trigger] before[c].0 == k;
                if c != b {
                    assert(before[c].0 != before[b].0);
                }
            }
            assert(self@ =~= target);
        }
        expired
    }

    /// Notes at `now` a new registration of the requests that are due, all of
    /// them if `force` is set, else those registered more than `interval_ms`
    /// before `now`, and gives their ids.
    pub fn refresh_due(&mut self, now: u64, interval_ms: u64, force: bool) -> (due: Vec<u64>)
        requires
            old(self).wf(),
        ensures
            final(self).wf(),
            due@.no_duplicates(),
            forall|k: u64| due@.contains(k) <==> (old(self)@.contains_key(k) && is_due(old(self)@[k], now, interval_ms, force)),
            final(self)@.dom() == old(self)@.dom(),
            forall|k: u64| #[trigger] final(self)@.contains_key(k) ==> final(self)@[k] == if due@.contains(k) {
                now
            } else {
                old(self)@[k]
            },
    {
        let ghost before = self.entries@;
        let ghost m0 = self@;
        let mut due: Vec<u64> = Vec::new();
        let ghost mut due_idx: Seq<int> = seq![];
        let mut i: usize = 0;
        while i < self.entries.len()
            invariant
                self.entries@.len() == before.len(),
                i <= before.len(),
                forall|b: int| 0 <= b < before.len() ==> (#[trigger] self.entries@[b]).0 == before[b].0,
                forall|b: int| i <= b < before.len() ==> #[trigger] self.entries@[b] == before[b],
                forall|b: int| 0 <= b < i ==> (#[trigger] self.entries@[b]).1 == if is_due(before[b].1, now, interval_ms, force) {
                    now
                } else {
                    before[b].1
                },
                due_idx.len() == due@.len(),
                forall|a: int| 0 <= a < due@.len() ==> 0 <= #[trigger] due_idx[a] < i,
                forall|a: int| 0 <= a < due@.len() ==> due@[a] == before[#[trigger] due_idx[a]].0,
                forall|a: int| 0 <= a < due@.len() ==> is_due(before[#[trigger] due_idx[a]].1, now, interval_ms, force),
                forall|a: int, c: int| 0 <= a < c < due@.len() ==> #[trigger] due_idx[a] < #[trigger] due_idx[c],
                forall|b: int| #![trigger before[b]] 0 <= b < i && is_due(before[b].1, now, interval_ms, force)
                    ==> exists|a: int| 0 <= a < due@.len() && #[trigger] due_idx[a] == b,
            decreases before.len() - i,
        {
            let e = self.entries[i];
            let ghost di0 = due_idx;
            let ghost entries0 = self.entries@;
            if force || (now as u128) > (e.1 as u128) + (interval_ms as u128) {
                self.entries.set(i, (e.0, now));
                due.push(e.0);
                proof {
                    due_idx = due_idx.push(i as int);
                    assert(due_idx[due_idx.len() - 1] == i);
                    assert forall|b: int| #![trigger before[b]] 0 <= b < i + 1 && is_due(before[b].1, now, interval_ms, force)
                        implies exists|a: int| 0 <= a < due@.len() && #[trigger] due_idx[a] == b by {
                        if b == i {
                            assert(due_idx[due_idx.len() - 1] == b);
                        } else {
                            let a0 = choose|a: int| 0 <= a < di0.len() && #[trigger] di0[a] == b;
                            assert(due_idx[a0] == b);
                        }
                    }
                    assert forall|b: int| 0 <= b < i + 1 implies (#[trigger] self.entries@[b]).1 == if is_due(before[b].1, now, interval_ms, force) {
                        now
                    } else {
                        before[b].1
                    } by {
                        if b < i {
                            assert(self.entries@[b] == entries0[b]);
                        }
                    }
                }
            } else {
                proof {
                    assert forall|b: int| #![trigger before[b]] 0 <= b < i + 1 && is_due(before[b].1, now, interval_ms, force)
                        implies exists|a: int| 0 <= a < due@.len() && #[trigger] due_idx[a] == b by {
                        let a0 = choose|a: int| 0 <= a < di0.len() && #[trigger] di0[a] == b;
                        assert(due_idx[a0] == b);
                    }
                }
            }
            i = i + 1;
        }
        proof {
            assert forall|x: int, y: int| 0 <= x < before.len() && 0 <= y < before.len() && x != y
                implies before[x].0 != before[y].0 by {
                assert(old(self).entries@[x] == before[x]);
            }
            assert forall|k: u64| #[trigger] has_key(self.entries@, k) == has_key(before, k) by {
                if has_key(before, k) {
                    let j = choose|j: int| 0 <= j < before.len() && #[trigger] before[j].0 == k;
                    assert(self.entries@[j].0 == k);
                }
                if has_key(self.entries@, k) {
                    let j = choose|j: int| 0 <= j < self.entries@.len() && #[trigger] self.entries@[j].0 == k;
                    assert(before[j].0 == k);
                }
            }
            assert forall|x: int, y: int| 0 <= x < self.entries@.len() && 0 <= y < self.entries@.len() && x != y
                implies #[trigger] self.entries@[x].0 != #[trigger] self.entries@[y].0 by {
                assert(self.entries@[x].0 == before[x].0);
                assert(self.entries@[y].0 == before[y].0);
            }
            assert forall|a: int, c: int| 0 <= a < due@.len() && 0 <= c < due@.len() && a != c implies due@[a] != due@[c] by {
                if a < c {
                    assert(due_idx[a] < due_idx[c]);
                } else {
                    assert(due_idx[c] < due_idx[a]);
                }
            }
            assert forall|k: u64| due@.contains(k) <==> (m0.contains_key(k) && is_due(m0[k], now, interval_ms, force)) by {
                if due@.contains(k) {
                    let j = choose|j: int| 0 <= j < due@.len() && due@[j] == k;
                    let b = due_idx[j];
                    assert(before[b].0 == k);
                    assert(has_key(before, k));
                    let c = choose|c: int| 0 <= c < before.len() && #[trigger] before[c].0 == k;
                    if c != b {
                        assert(before[c].0 != before[b].0);
                    }
                }
                if m0.contains_key(k) && is_due(m0[k], now, interval_ms, force) {
                    let c = choose|c: int| 0 <= c < before.len() && #[trigger] before[c].0 == k;
                    assert(is_due(before[c].1, now, interval_ms, force));
                    let a = choose|a: int| 0 <= a < due@.len() && #[trigger] due_idx[a] == c;
                    assert(due@[a] == k);
                }
            }
            assert(self@.dom() =~= m0.dom());
            assert forall|k: u64| #[trigger] self@.contains_key(k) implies self@[k] == if due@.contains(k) { now } else { m0[k] } by {
                let a = choose|a: int| 0 <= a < self.entries@.len() && #[trigger] self.entries@[a].0 == k;
                let c = choose|c: int| 0 <= c < before.len() && #[trigger] before[c].0 == k;
                if c != a {
                    assert(before[c].0 != before[a].0);
                }
                if due@.contains(k) {
                    let j = choose|j: int| 0 <= j < due@.len() && due@[j] == k;
                    let b = due_idx[j];
                    assert(before[b].0 == k);
                    if b != a {
                        assert(before[b].0 != before[a].0);
                    }
                } else {
                    if is_due(before[a].1, now, interval_ms, force) {
                        let j = choose|j: int| 0 <= j < due@.len() && #[trigger] due_idx[j] == a;
                        assert(due@[j] == k);
                    }
                }
            }
        }
        due
    }
}

/// A request registered again within the timeout doesn't expire: removing the
/// expired requests at `now` keeps it, with its registration time.
pub proof fn lemma_registered_in_time_kept(registered: Map<u64, u64>, key: u64, time: u64, now: u64, timeout_ms: u64)
    requires
        now <= time + timeout_ms,
    ensures
        ({
            let m = registered.insert(key, time);
            let kept = m.restrict(m.dom().filter(|k: u64| !elapsed_over(m[k], now, timeout_ms)));
            kept.contains_key(key) && kept[key] == time
        }),
{
    let m = registered.insert(key, time);
    assert(m.dom().filter(|k: u64| !elapsed_over(m[k], now, timeout_ms)).contains(key));
}

/// The node is known as connected.
pub open spec fn is_connected(statuses: Map<Seq<char>, ConnectionStatus>, node: Seq<char>) -> bool {
    statuses.contains_key(node) && statuses[node] == ConnectionStatus::Connected
}

/// Position of the first connected node among the given ones, if any.
pub open spec fn first_connected(statuses: Map<Seq<char>, ConnectionStatus>, nodes: Seq<Seq<char>>) -> Option<int> {
    if exists|i: int| 0 <= i < nodes.len() && is_connected(statuses, #[trigger] nodes[i]) {
        Some(choose|i: int| 0 <= i < nodes.len() && is_connected(statuses, #[trigger] nodes[i])
            && forall|j: int| 0 <= j < i ==> !is_connected(statuses, nodes[j]))
    } else {
        None
    }
}

/// Connection status of each node of the cell, and the store node that a
/// client talks to.
pub struct ClientNodes {
    statuses: NodeMap<ConnectionStatus>,
    store_node: Option<String>,
}

impl ClientNodes {
    pub closed spec fn statuses(&self) -> Map<Seq<char>, ConnectionStatus> {
        self.statuses@
    }

    pub closed spec fn store_node(&self) -> Option<Seq<char>> {
        match self.store_node {
            Some(n) => Some(n@),
            None => None,
        }
    }

    pub closed spec fn wf(&self) -> bool {
        self.statuses.wf()
    }

    /// No node status known, no store node.
    pub fn new() -> (res: ClientNodes)
        ensures
            res.wf(),
            res.statuses() == Map::<Seq<char>, ConnectionStatus>::empty(),
            res.store_node() is None,
    {
        ClientNodes { statuses: NodeMap::new(), store_node: None }
    }

    /// The store node, if any.
    pub fn get_store_node(&self) -> (res: Option<String>)
        ensures
            match res {
                Some(n) => self.store_node() == Some(n@),
                None => self.store_node() is None,
            },
    {
        match &self.store_node {
            Some(n) => Some(n.clone()),
            None => None,
        }
    }

    fn is_node_connected(&self, node_id: &String) -> (res: bool)
        requires
            self.wf(),
        ensures
            res == is_connected(self.statuses(), node_id@),
    {
        match self.statuses.get(node_id) {
            Some(ConnectionStatus::Connected) => true,
            _ => false,
        }
    }

    /// Notes the new status of a node. The store node stays if it is
    /// connected; otherwise the first connected node among the cell's store
    /// nodes becomes the store node, if any. Tells whether the watched
    /// queries are to be registered again right away: when the store node
    /// stays and the node just connected, or when the store node was looked
    /// for.
    pub fn handle_node_status_change(&mut self, node_id: &String, status: ConnectionStatus, store_nodes: &Vec<String>) -> (force_keepalive: bool)
        requires
            old(self).wf(),
        ensures
            final(self).wf(),
            final(self).statuses() == old(self).statuses().insert(node_id@, status),
            ({
                let statuses = old(self).statuses().insert(node_id@, status);
                let nodes = store_nodes@.map_values(|n: String| n@);
                if old(self).store_node() matches Some(s) && is_connected(statuses, s) {
                    &&& final(self).store_node() == old(self).store_node()
                    &&& force_keepalive == (status == ConnectionStatus::Connected)
                } else {
                    &&& final(self).store_node() == match first_connected(statuses, nodes) {
                        Some(i) => Some(nodes[i]),
                        None => old(self).store_node(),
                    }
                    &&& force_keepalive
                }
            }),
    {
        self.statuses.insert(node_id, status);
        let ghost statuses = self.statuses();
        let ghost nodes = store_nodes@.map_values(|n: String| n@);
        let current_connected = match &self.store_node {
            Some(store_node) => self.is_node_connected(store_node),
            None => false,
        };
        if current_connected {
            return status == ConnectionStatus::Connected;
        }
        let mut i: usize = 0;
        while i < store_nodes.len()
            invariant
                i <= store_nodes@.len(),
                self.wf(),
                statuses == self.statuses(),
                statuses == old(self).statuses().insert(node_id@, status),
                self.store_node == old(self).store_node,
                !(old(self).store_node() matches Some(s) && is_connected(statuses, s)),
                nodes == store_nodes@.map_values(|n: String| n@),
                forall|j: int| 0 <= j < i ==> !is_connected(statuses, #[trigger] nodes[j]),
            decreases store_nodes@.len() - i,
        {
            if self.is_node_connected(&store_nodes[i]) {
                proof {
                    assert(nodes[i as int] == store_nodes@[i as int]@);
                    assert(0 <= i < nodes.len() && is_connected(statuses, nodes[i as int])
                        && forall|j: int| 0 <= j < i ==> !is_connected(statuses, nodes[j]));
                    let c = choose|c: int| 0 <= c < nodes.len() && is_connected(statuses, #[trigger] nodes[c])
                        && forall|j: int| 0 <= j < c ==> !is_connected(statuses, nodes[j]);
                    if c < i {
                        assert(!is_connected(statuses, nodes[c]));
                    } else if c > i {
                        assert(!is_connected(statuses, nodes[i as int]));
                    }
                }
                self.store_node = Some(store_nodes[i].clone());
                return true;
            }
            proof {
                assert(nodes[i as int] == store_nodes@[i as int]@);
            }
            i = i + 1;
        }
        proof {
            assert forall|j: int| !(0 <= j < nodes.len() && is_connected(statuses, #[trigger] nodes[j])) by {
                if 0 <= j < nodes.len() {
                    assert(!is_connected(statuses, nodes[j]));
                }
            }
        }
        true
    }

    /// Messages are taken from the store node only, or from any node while
    /// there is none.
    pub fn accepts_message_from(&self, node_id: &String) -> (res: bool)
        ensures
            res == match self.store_node() {
                Some(s) => s == node_id@,
                None => true,
            },
    {
        match &self.store_node {
            Some(store_node) => *store_node == *node_id,
            None => true,
        }
    }
}

/// What a response that came to the client is.
#[derive(Debug, Copy, Clone, PartialEq, Eq, Structural)]
pub enum ResponseKind {
    /// Result of a mutation.
    Mutation,
    /// Results of a query or of a watched query.
    Query,
    /// A response that couldn't be read.
    Invalid,
}

/// Where a response goes.
#[derive(Debug, Copy, Clone, PartialEq, Eq, Structural)]
pub enum ResponseTarget {
    /// The pending mutation, which completes.
    PendingMutation,
    /// The pending query, which completes.
    PendingQuery,
    /// The watched query, which stays watched.
    WatchedQuery,
    /// The watched query, which stops being watched (the response was
    /// invalid).
    UnwatchedQuery,
    /// No request: an invalid response for no request is dropped.
    Nothing,
}

/// Why the client refused a response.
#[derive(Debug, Copy, Clone, PartialEq, Eq, Structural)]
pub enum ResponseError {
    /// No pending mutation has the response's request id.
    UnknownMutation,
    /// No pending or watched query has the response's request id.
    UnknownQuery,
}

/// Pending and watched requests of a client, by request id.
pub struct ClientRequests {
    pub pending_mutations: TimedRegistry,
    pub pending_queries: TimedRegistry,
    pub watched_queries: TimedRegistry,
}

impl ClientRequests {
    pub open spec fn wf(&self) -> bool {
        &&& self.pending_mutations.wf()
        &&& self.pending_queries.wf()
        &&& self.watched_queries.wf()
    }

    /// Routes a response to the request it answers: a mutation result to its
    /// pending mutation; query results to their pending query, else to their
    /// watched query; an invalid response to the pending mutation, else the
    /// watched query (which stops being watched), else the pending query.
    /// Completed requests are removed.
    pub fn route_response(&mut self, kind: ResponseKind, request_id: u64) -> (res: Result<ResponseTarget, ResponseError>)
        requires
            old(self).wf(),
        ensures
            final(self).wf(),
            ({
                let m = old(self).pending_mutations@;
                let q = old(self).pending_queries@;
                let w = old(self).watched_queries@;
                match kind {
                    ResponseKind::Mutation => if m.contains_key(request_id) {
                        &&& res == Ok::<ResponseTarget, ResponseError>(ResponseTarget::PendingMutation)
                        &&& final(self).pending_mutations@ == m.remove(request_id)
                        &&& final(self).pending_queries@ == q
                        &&& final(self).watched_queries@ == w
                    } else {
                        &&& res == Err::<ResponseTarget, ResponseError>(ResponseError::UnknownMutation)
                        &&& final(self).pending_mutations@ == m
                        &&& final(self).pending_queries@ == q
                        &&& final(self).watched_queries@ == w
                    },
                    ResponseKind::Query => {
                        &&& final(self).pending_mutations@ == m
                        &&& final(self).watched_queries@ == w
                        &&& if q.contains_key(request_id) {
                            &&& res == Ok::<ResponseTarget, ResponseError>(ResponseTarget::PendingQuery)
                            &&& final(self).pending_queries@ == q.remove(request_id)
                        } else if w.contains_key(request_id) {
                            &&& res == Ok::<ResponseTarget, ResponseError>(ResponseTarget::WatchedQuery)
                            &&& final(self).pending_queries@ == q
                        } else {
                            &&& res == Err::<ResponseTarget, ResponseError>(ResponseError::UnknownQuery)
                            &&& final(self).pending_queries@ == q
                        }
                    },
                    ResponseKind::Invalid => if m.contains_key(request_id) {
                        &&& res == Ok::<ResponseTarget, ResponseError>(ResponseTarget::PendingMutation)
                        &&& final(self).pending_mutations@ == m.remove(request_id)
                        &&& final(self).pending_queries@ == q
                        &&& final(self).watched_queries@ == w
                    } else if w.contains_key(request_id) {
                        &&& res == Ok::<ResponseTarget, ResponseError>(ResponseTarget::UnwatchedQuery)
                        &&& final(self).pending_mutations@ == m
                        &&& final(self).pending_queries@ == q
                        &&& final(self).watched_queries@ == w.remove(request_id)
                    } else {
                        &&& res == Ok::<ResponseTarget, ResponseError>(
                            if q.contains_key(request_id) { ResponseTarget::PendingQuery } else { ResponseTarget::Nothing },
                        )
                        &&& final(self).pending_mutations@ == m
                        &&& final(self).pending_queries@ == q.remove(request_id)
                        &&& final(self).watched_queries@ == w
                    },
                }
            }),
    {
        match kind {
            ResponseKind::Mutation => {
                if self.pending_mutations.remove(request_id) {
                    Ok(ResponseTarget::PendingMutation)
                } else {
                    Err(ResponseError::UnknownMutation)
                }
            },
            ResponseKind::Query => {
                if self.pending_queries.remove(request_id) {
                    Ok(ResponseTarget::PendingQuery)
                } else if self.watched_queries.contains(request_id) {
                    Ok(ResponseTarget::WatchedQuery)
                } else {
                    Err(ResponseError::UnknownQuery)
                }
            },
            ResponseKind::Invalid => {
                if self.pending_mutations.remove(request_id) {
                    Ok(ResponseTarget::PendingMutation)
                } else if self.watched_queries.remove(request_id) {
                    Ok(ResponseTarget::UnwatchedQuery)
                } else if self.pending_queries.remove(request_id) {
                    Ok(ResponseTarget::PendingQuery)
                } else {
                    Ok(ResponseTarget::Nothing)
                }
            },
        }
    }
}

} // verus!

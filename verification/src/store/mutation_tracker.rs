//! Tracking of mutations for which the user asked to be notified once they got
//! indexed and are reflected in the store.
use vstd::prelude::*;
use crate::store::mutation::OperationId;
use crate::sequences::lemma_filter_take_step;

verus! {

pub type RequestId = usize;

/// A mutation request waiting for its operations to be indexed.
#[derive(Debug)]
pub struct WatchedMutationRequest {
    id: RequestId,
    received_time_ms: u64,
    operation_ids: Vec<OperationId>,
    completed_operation_ids: Vec<OperationId>,
}

/// State of a watched request.
pub struct WatchedRequestView {
    pub id: RequestId,
    pub received_time_ms: u64,
    /// Operations of the request, without duplicates, in the order they were given.
    pub operation_ids: Seq<OperationId>,
    /// Operations of the request that got indexed.
    pub completed: Set<OperationId>,
}

impl WatchedMutationRequest {
    pub closed spec fn view(&self) -> WatchedRequestView {
        WatchedRequestView {
            id: self.id,
            received_time_ms: self.received_time_ms,
            operation_ids: self.operation_ids@,
            completed: self.completed_operation_ids@.to_set(),
        }
    }

    closed spec fn wf(&self) -> bool {
        &&& self.operation_ids@.no_duplicates()
        &&& self.completed_operation_ids@.no_duplicates()
        &&& forall|k: int| 0 <= k < self.completed_operation_ids@.len()
            ==> self.operation_ids@.contains(#[trigger] self.completed_operation_ids@[k])
    }
}

/// The request's state once the given operations got indexed.
pub open spec fn with_indexed(r: WatchedRequestView, indexed: Set<OperationId>) -> WatchedRequestView {
    WatchedRequestView { completed: r.completed.union(r.operation_ids.to_set().intersect(indexed)), ..r }
}

/// The request has operations, and all of them got indexed. A request with
/// no operation never completes: it waits until it expires.
pub open spec fn is_complete(r: WatchedRequestView) -> bool {
    &&& r.operation_ids.len() > 0
    &&& r.operation_ids.to_set().subset_of(r.completed)
}

/// The request waited longer than the timeout.
pub open spec fn is_expired(r: WatchedRequestView, now_ms: u64, timeout_ms: u64) -> bool {
    now_ms > r.received_time_ms + timeout_ms
}

pub open spec fn indexed_all(rs: Seq<WatchedRequestView>, indexed: Set<OperationId>) -> Seq<WatchedRequestView> {
    rs.map_values(|r: WatchedRequestView| with_indexed(r, indexed))
}

/// Requests still watched after an indexation pass.
pub open spec fn remaining_requests(rs: Seq<WatchedRequestView>, indexed: Set<OperationId>, now_ms: u64, timeout_ms: u64) -> Seq<WatchedRequestView> {
    indexed_all(rs, indexed).filter(|r: WatchedRequestView| !is_complete(r) && !is_expired(r, now_ms, timeout_ms))
}

/// Requests completed by an indexation pass.
pub open spec fn completed_requests(rs: Seq<WatchedRequestView>, indexed: Set<OperationId>) -> Seq<WatchedRequestView> {
    indexed_all(rs, indexed).filter(|r: WatchedRequestView| is_complete(r))
}

/// Requests dropped for having timed out during an indexation pass.
pub open spec fn expired_requests(rs: Seq<WatchedRequestView>, indexed: Set<OperationId>, now_ms: u64, timeout_ms: u64) -> Seq<WatchedRequestView> {
    indexed_all(rs, indexed).filter(|r: WatchedRequestView| !is_complete(r) && is_expired(r, now_ms, timeout_ms))
}

/// Request that completed: its id and its operations.
pub struct CompletedRequest {
    pub request_id: RequestId,
    pub operation_ids: Vec<OperationId>,
}

/// Outcome of an indexation pass: requests to reply to with their operations,
/// and requests that timed out and get dropped.
pub struct IndexedOutcome {
    pub completed: Vec<CompletedRequest>,
    pub expired: Vec<RequestId>,
}

/// Pushing an item onto a sequence adds exactly that item to what it contains.
proof fn lemma_push_contains<T>(s: Seq<T>, x: T)
    ensures
        forall|y: T| #[trigger] s.push(x).contains(y) <==> s.contains(y) || y == x,
{
    assert forall|y: T| #[trigger] s.push(x).contains(y) implies s.contains(y) || y == x by {
        let i = choose|i: int| 0 <= i < s.push(x).len() && s.push(x)[i] == y;
        if i < s.len() {
            assert(s[i] == y);
        }
    }
    assert forall|y: T| s.contains(y) || y == x implies #[trigger] s.push(x).contains(y) by {
        if s.contains(y) {
            let i = choose|i: int| 0 <= i < s.len() && s[i] == y;
            assert(s.push(x)[i] == y);
        } else {
            assert(s.push(x)[s.len() as int] == y);
        }
    }
}

fn contains_op(v: &Vec<OperationId>, x: OperationId) -> (b: bool)
    ensures
        b == v@.contains(x),
{
    let mut j: usize = 0;
    while j < v.len()
        invariant
            j <= v@.len(),
            forall|i: int| 0 <= i < j ==> v@[i] != x,
        decreases v@.len() - j,
    {
        if v[j] == x {
            proof {
                assert(v@[j as int] == x);
            }
            return true;
        }
        j = j + 1;
    }
    false
}

/// Marks the request's operations that are among `indexed` as completed.
fn index_request(r: WatchedMutationRequest, indexed: &Vec<OperationId>) -> (res: WatchedMutationRequest)
    requires
        r.wf(),
    ensures
        res.wf(),
        res.view() == with_indexed(r.view(), indexed@.to_set()),
{
    let mut r = r;
    let ghost orig = r.view();
    let mut k: usize = 0;
    while k < r.operation_ids.len()
        invariant
            k <= r.operation_ids@.len(),
            r.wf(),
            r.id == orig.id,
            r.received_time_ms == orig.received_time_ms,
            r.operation_ids@ == orig.operation_ids,
            r.completed_operation_ids@.to_set()
                == orig.completed.union(r.operation_ids@.take(k as int).to_set().intersect(indexed@.to_set())),
        decreases r.operation_ids@.len() - k,
    {
        let op = r.operation_ids[k];
        let ghost before = r.completed_operation_ids@;
        proof {
            assert(r.operation_ids@.take(k as int + 1) =~= r.operation_ids@.take(k as int).push(op));
            lemma_push_contains(r.operation_ids@.take(k as int), op);
        }
        let in_indexed = contains_op(indexed, op);
        let already = contains_op(&r.completed_operation_ids, op);
        if in_indexed && !already {
            r.completed_operation_ids.push(op);
            proof {
                lemma_push_contains(before, op);
                assert(r.operation_ids@.contains(op)) by {
                    assert(r.operation_ids@[k as int] == op);
                }
                assert forall|a: int, b: int| 0 <= a < r.completed_operation_ids@.len() && 0 <= b < r.completed_operation_ids@.len() && a != b
                    implies r.completed_operation_ids@[a] != r.completed_operation_ids@[b] by {
                    if a == before.len() {
                        assert(before[b] != op) by {
                            if before[b] == op {
                                assert(before.contains(op));
                            }
                        }
                    } else if b == before.len() {
                        assert(before[a] != op) by {
                            if before[a] == op {
                                assert(before.contains(op));
                            }
                        }
                    }
                }
                assert forall|i: int| 0 <= i < r.completed_operation_ids@.len()
                    implies r.operation_ids@.contains(#[trigger] r.completed_operation_ids@[i]) by {
                    if i < before.len() {
                        assert(r.completed_operation_ids@[i] == before[i]);
                    }
                }
            }
        }
        proof {
            let target = orig.completed.union(r.operation_ids@.take(k as int + 1).to_set().intersect(indexed@.to_set()));
            let prev = orig.completed.union(r.operation_ids@.take(k as int).to_set().intersect(indexed@.to_set()));
            assert(before.to_set() == prev);
            assert forall|x: OperationId| r.completed_operation_ids@.to_set().contains(x) <==> target.contains(x) by {
                assert(before.to_set().contains(x) <==> prev.contains(x));
                if in_indexed && !already {
                    assert(r.completed_operation_ids@ == before.push(op));
                } else {
                    assert(r.completed_operation_ids@ == before);
                }
            }
            assert(r.completed_operation_ids@.to_set() =~= target);
        }
        k = k + 1;
    }
    proof {
        assert(r.operation_ids@.take(k as int) =~= r.operation_ids@);
        assert(r.view().completed =~= with_indexed(orig, indexed@.to_set()).completed);
    }
    r
}

/// Checks whether all operations of the request got indexed.
fn request_is_complete(r: &WatchedMutationRequest) -> (b: bool)
    ensures
        b == is_complete(r.view()),
{
    if r.operation_ids.len() == 0 {
        return false;
    }
    let mut k: usize = 0;
    while k < r.operation_ids.len()
        invariant
            k <= r.operation_ids@.len(),
            forall|i: int| 0 <= i < k ==> r.completed_operation_ids@.contains(#[trigger] r.operation_ids@[i]),
        decreases r.operation_ids@.len() - k,
    {
        if !contains_op(&r.completed_operation_ids, r.operation_ids[k]) {
            proof {
                assert(r.operation_ids@.to_set().contains(r.operation_ids@[k as int]));
            }
            return false;
        }
        k = k + 1;
    }
    proof {
        assert forall|x: OperationId| r.operation_ids@.to_set().contains(x) implies r.view().completed.contains(x) by {
            let i = choose|i: int| 0 <= i < r.operation_ids@.len() && r.operation_ids@[i] == x;
            assert(r.completed_operation_ids@.contains(r.operation_ids@[i]));
        }
    }
    true
}

/// Tracks the indexation of the operations of mutation requests.
pub struct MutationTracker {
    timeout_ms: u64,
    next_request_id: RequestId,
    requests: Vec<WatchedMutationRequest>,
}

/// Operations indexed over several passes count together: a request
/// completes once every one of its operations got indexed, whichever pass
/// indexed it.
pub proof fn lemma_indexed_passes_accumulate(r: WatchedRequestView, first: Set<OperationId>, second: Set<OperationId>)
    ensures
        with_indexed(with_indexed(r, first), second) == with_indexed(r, first.union(second)),
        is_complete(with_indexed(r, first.union(second)))
            <==> r.operation_ids.len() > 0 && r.operation_ids.to_set().subset_of(r.completed.union(first.union(second))),
{
    let a = with_indexed(with_indexed(r, first), second);
    let b = with_indexed(r, first.union(second));
    assert(a.completed =~= b.completed);
    let ops = r.operation_ids.to_set();
    if is_complete(b) {
        assert forall|x: OperationId| ops.contains(x) implies r.completed.union(first.union(second)).contains(x) by {
            assert(b.completed.contains(x));
        }
    }
    if ops.subset_of(r.completed.union(first.union(second))) {
        assert forall|x: OperationId| ops.contains(x) implies b.completed.contains(x) by {
            assert(r.completed.union(first.union(second)).contains(x));
        }
    }
}

/// Operations indexed by the first `n` passes.
pub open spec fn indexed_upto(passes: Seq<(Set<OperationId>, u64)>, n: nat) -> Set<OperationId>
    decreases n,
{
    if n == 0 || n > passes.len() {
        Set::empty()
    } else {
        indexed_upto(passes, (n - 1) as nat).union(passes[n - 1].0)
    }
}

/// A watched request as it stands after the first `n` indexation passes,
/// each giving the operations indexed and the time of the pass; `None` once
/// it completed or expired.
pub open spec fn request_after(r: WatchedRequestView, passes: Seq<(Set<OperationId>, u64)>, timeout_ms: u64, n: nat) -> Option<WatchedRequestView>
    decreases n,
{
    if n == 0 || n > passes.len() {
        Some(r)
    } else {
        match request_after(r, passes, timeout_ms, (n - 1) as nat) {
            None => None,
            Some(x) => {
                let y = with_indexed(x, passes[n - 1].0);
                if is_complete(y) || is_expired(y, passes[n - 1].1, timeout_ms) {
                    None
                } else {
                    Some(y)
                }
            },
        }
    }
}

/// The request completes during pass `j`.
pub open spec fn completes_at(r: WatchedRequestView, passes: Seq<(Set<OperationId>, u64)>, timeout_ms: u64, j: nat) -> bool {
    &&& j < passes.len()
    &&& request_after(r, passes, timeout_ms, j) matches Some(x) && is_complete(with_indexed(x, passes[j as int].0))
}

/// The request, with the operations of the first `i + 1` passes indexed,
/// neither completes nor expires at pass `i`.
pub open spec fn survives_pass(r: WatchedRequestView, passes: Seq<(Set<OperationId>, u64)>, timeout_ms: u64, i: int) -> bool {
    &&& !is_complete(with_indexed(r, indexed_upto(passes, (i + 1) as nat)))
    &&& !is_expired(r, passes[i].1, timeout_ms)
}

/// A request is still watched after `n` passes exactly when none of them
/// completed or expired it, and it then has the operations indexed by them
/// completed.
proof fn lemma_request_after(r: WatchedRequestView, passes: Seq<(Set<OperationId>, u64)>, timeout_ms: u64, n: nat)
    requires
        n <= passes.len(),
    ensures
        request_after(r, passes, timeout_ms, n) is Some <==> forall|i: int| 0 <= i < n ==> #[trigger] survives_pass(r, passes, timeout_ms, i),
        request_after(r, passes, timeout_ms, n) is Some ==> request_after(r, passes, timeout_ms, n)->0 == with_indexed(r, indexed_upto(passes, n)),
    decreases n,
{
    if n == 0 {
        assert(with_indexed(r, indexed_upto(passes, 0)).completed =~= r.completed);
        assert(with_indexed(r, indexed_upto(passes, 0)) =~= r);
    } else {
        let m = (n - 1) as nat;
        lemma_request_after(r, passes, timeout_ms, m);
        let prev = request_after(r, passes, timeout_ms, m);
        assert(indexed_upto(passes, n) == indexed_upto(passes, m).union(passes[m as int].0));
        if prev is Some {
            lemma_indexed_passes_accumulate(r, indexed_upto(passes, m), passes[m as int].0);
            let y = with_indexed(prev->0, passes[m as int].0);
            assert(y == with_indexed(r, indexed_upto(passes, n)));
            assert(is_expired(y, passes[m as int].1, timeout_ms) == is_expired(r, passes[m as int].1, timeout_ms));
        }
        if request_after(r, passes, timeout_ms, n) is Some {
            assert(prev is Some);
            assert forall|i: int| 0 <= i < n implies #[trigger] survives_pass(r, passes, timeout_ms, i) by {
                if i < m {
                    assert(survives_pass(r, passes, timeout_ms, i));
                }
            }
        }
        if forall|i: int| 0 <= i < n ==> #[trigger] survives_pass(r, passes, timeout_ms, i) {
            assert forall|i: int| 0 <= i < m implies #[trigger] survives_pass(r, passes, timeout_ms, i) by {
                assert(survives_pass(r, passes, timeout_ms, i));
            }
            assert(survives_pass(r, passes, timeout_ms, m as int));
        }
    }
}

/// A tracked request completes exactly once: during the first indexation
/// pass after which every one of its operations got indexed, provided that
/// it has operations and didn't expire at an earlier pass; a request with no
/// operation never completes.
pub proof fn lemma_completes_once(r: WatchedRequestView, passes: Seq<(Set<OperationId>, u64)>, timeout_ms: u64, j: nat)
    requires
        r.completed == Set::<OperationId>::empty(),
        j < passes.len(),
    ensures
        completes_at(r, passes, timeout_ms, j) <==> {
            &&& r.operation_ids.len() > 0
            &&& r.operation_ids.to_set().subset_of(indexed_upto(passes, j + 1))
            &&& forall|i: int| 0 <= i < j ==> !r.operation_ids.to_set().subset_of(#[trigger] indexed_upto(passes, (i + 1) as nat))
            &&& forall|i: int| 0 <= i < j ==> !is_expired(r, #[trigger] passes[i].1, timeout_ms)
        },
        forall|k: nat| j < k < passes.len() && completes_at(r, passes, timeout_ms, j) ==> !completes_at(r, passes, timeout_ms, k),
{
    lemma_request_after(r, passes, timeout_ms, j);
    assert forall|i: int| 0 <= i <= j implies (#[trigger] is_complete(with_indexed(r, indexed_upto(passes, (i + 1) as nat)))
        <==> r.operation_ids.len() > 0 && r.operation_ids.to_set().subset_of(indexed_upto(passes, (i + 1) as nat))) by {
        lemma_complete_from_empty(r, indexed_upto(passes, (i + 1) as nat));
    }
    let upto = indexed_upto(passes, j);
    assert(indexed_upto(passes, j + 1) == upto.union(passes[j as int].0));
    if request_after(r, passes, timeout_ms, j) is Some {
        lemma_indexed_passes_accumulate(r, upto, passes[j as int].0);
        assert(with_indexed(request_after(r, passes, timeout_ms, j)->0, passes[j as int].0) == with_indexed(r, indexed_upto(passes, j + 1)));
    }
    let rhs = {
        &&& r.operation_ids.len() > 0
        &&& r.operation_ids.to_set().subset_of(indexed_upto(passes, j + 1))
        &&& forall|i: int| 0 <= i < j ==> !r.operation_ids.to_set().subset_of(#[trigger] indexed_upto(passes, (i + 1) as nat))
        &&& forall|i: int| 0 <= i < j ==> !is_expired(r, #[trigger] passes[i].1, timeout_ms)
    };
    if completes_at(r, passes, timeout_ms, j) {
        assert forall|i: int| 0 <= i < j implies !r.operation_ids.to_set().subset_of(#[trigger] indexed_upto(passes, (i + 1) as nat)) by {
            assert(survives_pass(r, passes, timeout_ms, i));
        }
        assert forall|i: int| 0 <= i < j implies !is_expired(r, #[trigger] passes[i].1, timeout_ms) by {
            assert(survives_pass(r, passes, timeout_ms, i));
        }
        assert(rhs);
    }
    if rhs {
        assert forall|i: int| 0 <= i < j implies #[trigger] survives_pass(r, passes, timeout_ms, i) by {
            assert(!r.operation_ids.to_set().subset_of(indexed_upto(passes, (i + 1) as nat)));
            assert(!is_expired(r, passes[i].1, timeout_ms));
        }
        assert(completes_at(r, passes, timeout_ms, j));
    }
    if completes_at(r, passes, timeout_ms, j) {
        assert forall|k: nat| j < k < passes.len() implies !completes_at(r, passes, timeout_ms, k) by {
            lemma_request_after(r, passes, timeout_ms, k);
            if request_after(r, passes, timeout_ms, k) is Some {
                assert(survives_pass(r, passes, timeout_ms, j as int));
            }
        }
    }
}

/// During an indexation pass (`handle_indexed_operations`), each watched
/// request, once the pass's operations are marked indexed, is among the
/// completed requests if it is complete, else among the expired ones if it
/// waited too long, else among the requests still watched: the pass takes it
/// one step further, as `request_after` does.
pub proof fn lemma_pass_of_request(rs: Seq<WatchedRequestView>, indexed: Set<OperationId>, now_ms: u64, timeout_ms: u64, k: int)
    requires
        0 <= k < rs.len(),
    ensures
        is_complete(with_indexed(rs[k], indexed)) ==> completed_requests(rs, indexed).contains(with_indexed(rs[k], indexed)),
        !is_complete(with_indexed(rs[k], indexed)) && is_expired(with_indexed(rs[k], indexed), now_ms, timeout_ms)
            ==> expired_requests(rs, indexed, now_ms, timeout_ms).contains(with_indexed(rs[k], indexed)),
        !is_complete(with_indexed(rs[k], indexed)) && !is_expired(with_indexed(rs[k], indexed), now_ms, timeout_ms)
            ==> remaining_requests(rs, indexed, now_ms, timeout_ms).contains(with_indexed(rs[k], indexed)),
{
    let all = indexed_all(rs, indexed);
    assert(all[k] == with_indexed(rs[k], indexed));
    let y = all[k];
    if is_complete(y) {
        all.lemma_filter_contains(|r: WatchedRequestView| is_complete(r), k);
    } else if is_expired(y, now_ms, timeout_ms) {
        all.lemma_filter_contains(|r: WatchedRequestView| !is_complete(r) && is_expired(r, now_ms, timeout_ms), k);
    } else {
        all.lemma_filter_contains(|r: WatchedRequestView| !is_complete(r) && !is_expired(r, now_ms, timeout_ms), k);
    }
}

/// A request with nothing completed yet is complete once the given
/// operations got indexed exactly when it has operations and all are among
/// them.
proof fn lemma_complete_from_empty(r: WatchedRequestView, indexed: Set<OperationId>)
    requires
        r.completed == Set::<OperationId>::empty(),
    ensures
        is_complete(with_indexed(r, indexed)) <==> r.operation_ids.len() > 0 && r.operation_ids.to_set().subset_of(indexed),
{
    let ops = r.operation_ids.to_set();
    let c = with_indexed(r, indexed).completed;
    assert(c =~= ops.intersect(indexed));
}

/// Ids and operations of completed requests.
pub open spec fn completed_view(cs: Seq<CompletedRequest>) -> Seq<(RequestId, Seq<OperationId>)> {
    cs.map_values(|c: CompletedRequest| (c.request_id, c.operation_ids@))
}

/// The operations in the order they were first given, each once.
pub open spec fn distinct_ops(s: Seq<OperationId>) -> Seq<OperationId>
    decreases s.len(),
{
    if s.len() == 0 {
        s
    } else {
        let d = distinct_ops(s.drop_last());
        if d.contains(s.last()) {
            d
        } else {
            d.push(s.last())
        }
    }
}

/// The given operations without duplicates, in the order they were first given.
fn distinct_operations(ops: &Vec<OperationId>) -> (res: Vec<OperationId>)
    ensures
        res@ == distinct_ops(ops@),
        res@.no_duplicates(),
{
    let mut res: Vec<OperationId> = Vec::new();
    let mut k: usize = 0;
    while k < ops.len()
        invariant
            k <= ops@.len(),
            res@ == distinct_ops(ops@.take(k as int)),
            res@.no_duplicates(),
        decreases ops@.len() - k,
    {
        let op = ops[k];
        proof {
            assert(ops@.take(k as int + 1).drop_last() =~= ops@.take(k as int));
            assert(ops@.take(k as int + 1).last() == op);
        }
        if !contains_op(&res, op) {
            let ghost before = res@;
            res.push(op);
            proof {
                assert forall|a: int, b: int| 0 <= a < res@.len() && 0 <= b < res@.len() && a != b
                    implies res@[a] != res@[b] by {
                    if a == before.len() {
                        assert(before[b] != op) by {
                            if before[b] == op {
                                assert(before.contains(op));
                            }
                        }
                    } else if b == before.len() {
                        assert(before[a] != op) by {
                            if before[a] == op {
                                assert(before.contains(op));
                            }
                        }
                    }
                }
            }
        }
        k = k + 1;
    }
    proof {
        assert(ops@.take(k as int) =~= ops@);
    }
    res
}

impl MutationTracker {
    /// Requests being watched, in the order they were received.
    pub closed spec fn watched(&self) -> Seq<WatchedRequestView> {
        self.requests@.map_values(|r: WatchedMutationRequest| r.view())
    }

    pub closed spec fn wf(&self) -> bool {
        forall|i: int| 0 <= i < self.requests@.len() ==> (#[trigger] self.requests@[i]).wf()
    }

    pub closed spec fn spec_timeout_ms(&self) -> u64 {
        self.timeout_ms
    }

    pub closed spec fn spec_next_request_id(&self) -> RequestId {
        self.next_request_id
    }

    /// A tracker that watches no request, and drops requests that wait longer
    /// than `timeout_ms`.
    pub fn new(timeout_ms: u64) -> (res: MutationTracker)
        ensures
            res.wf(),
            res.watched().len() == 0,
            res.spec_timeout_ms() == timeout_ms,
            res.spec_next_request_id() == 0,
    {
        let res = MutationTracker { timeout_ms, next_request_id: 0, requests: Vec::new() };
        proof {
            assert(res.watched() =~= Seq::<WatchedRequestView>::empty());
        }
        res
    }

    /// Starts watching the indexation of the given operations, received at
    /// `now_ms`, under a fresh request id that is returned.
    pub fn track_request(&mut self, operation_ids: &Vec<OperationId>, now_ms: u64) -> (id: RequestId)
        requires
            old(self).wf(),
            old(self).spec_next_request_id() < usize::MAX,
        ensures
            final(self).wf(),
            id == old(self).spec_next_request_id(),
            final(self).spec_next_request_id() == id + 1,
            final(self).spec_timeout_ms() == old(self).spec_timeout_ms(),
            final(self).watched() == old(self).watched().push(
                WatchedRequestView {
                    id,
                    received_time_ms: now_ms,
                    operation_ids: distinct_ops(operation_ids@),
                    completed: Set::empty(),
                },
            ),
    {
        let id = self.next_request_id;
        self.next_request_id = id + 1;
        let ops = distinct_operations(operation_ids);
        let request = WatchedMutationRequest {
            id,
            received_time_ms: now_ms,
            operation_ids: ops,
            completed_operation_ids: Vec::new(),
        };
        proof {
            assert(request.view().completed =~= Set::<OperationId>::empty());
        }
        let ghost before = self.requests@;
        self.requests.push(request);
        proof {
            assert(self.watched() =~= before.map_values(|r: WatchedMutationRequest| r.view()).push(request.view()));
        }
        id
    }
}

impl MutationTracker {
    /// Notes that the given operations got indexed at `now_ms`: requests whose
    /// operations all got indexed complete and are returned with their
    /// operations; then requests that waited longer than the timeout are
    /// dropped and returned.
    pub fn handle_indexed_operations(&mut self, operation_ids: &Vec<OperationId>, now_ms: u64) -> (res: IndexedOutcome)
        requires
            old(self).wf(),
        ensures
            final(self).wf(),
            final(self).spec_timeout_ms() == old(self).spec_timeout_ms(),
            final(self).spec_next_request_id() == old(self).spec_next_request_id(),
            final(self).watched() == remaining_requests(old(self).watched(), operation_ids@.to_set(), now_ms, old(self).spec_timeout_ms()),
            completed_view(res.completed@) == completed_requests(old(self).watched(), operation_ids@.to_set()).map_values(
                |r: WatchedRequestView| (r.id, r.operation_ids),
            ),
            res.expired@ == expired_requests(old(self).watched(), operation_ids@.to_set(), now_ms, old(self).spec_timeout_ms()).map_values(
                |r: WatchedRequestView| r.id,
            ),
    {
        let ghost indexed = operation_ids@.to_set();
        let ghost timeout = self.timeout_ms;
        let ghost all = indexed_all(old(self).watched(), indexed);
        let ghost pred_complete = |r: WatchedRequestView| is_complete(r);
        let ghost pred_remaining = |r: WatchedRequestView| !is_complete(r) && !is_expired(r, now_ms, timeout);
        let ghost pred_expired = |r: WatchedRequestView| !is_complete(r) && is_expired(r, now_ms, timeout);
        let mut pending: Vec<WatchedMutationRequest> = Vec::new();
        std::mem::swap(&mut pending, &mut self.requests);
        let ghost orig = pending@;
        let mut remaining: Vec<WatchedMutationRequest> = Vec::new();
        let mut completed: Vec<CompletedRequest> = Vec::new();
        let mut expired: Vec<RequestId> = Vec::new();
        let timeout_ms = self.timeout_ms;
        let count = pending.len();
        let mut idx: usize = 0;
        while idx < count
            invariant
                count == orig.len(),
                indexed == operation_ids@.to_set(),
                idx <= orig.len(),
                timeout_ms == timeout,
                orig == old(self).requests@,
                all == indexed_all(old(self).watched(), indexed),
                all.len() == orig.len(),
                forall|i: int| 0 <= i < orig.len() ==> (#[trigger] orig[i]).wf(),
                pending@ == orig.subrange(idx as int, orig.len() as int),
                forall|i: int| 0 <= i < remaining@.len() ==> (#[trigger] remaining@[i]).wf(),
                remaining@.map_values(|r: WatchedMutationRequest| r.view()) == all.take(idx as int).filter(pred_remaining),
                completed_view(completed@) == all.take(idx as int).filter(pred_complete).map_values(
                    |r: WatchedRequestView| (r.id, r.operation_ids),
                ),
                expired@ == all.take(idx as int).filter(pred_expired).map_values(|r: WatchedRequestView| r.id),
                pred_complete == (|r: WatchedRequestView| is_complete(r)),
                pred_remaining == (|r: WatchedRequestView| !is_complete(r) && !is_expired(r, now_ms, timeout)),
                pred_expired == (|r: WatchedRequestView| !is_complete(r) && is_expired(r, now_ms, timeout)),
            decreases orig.len() - idx,
        {
            let request = pending.remove(0);
            proof {
                assert(request == orig[idx as int]);
                assert(pending@ =~= orig.subrange(idx as int + 1, orig.len() as int));
                assert(all[idx as int] == with_indexed(orig[idx as int].view(), indexed));
                lemma_filter_take_step(all, idx as int, pred_remaining);
                lemma_filter_take_step(all, idx as int, pred_complete);
                lemma_filter_take_step(all, idx as int, pred_expired);
            }
            let ghost rem_before = remaining@;
            let ghost completed_before = completed@;
            let ghost expired_before = expired@;
            let request = index_request(request, operation_ids);
            if request_is_complete(&request) {
                completed.push(CompletedRequest { request_id: request.id, operation_ids: request.operation_ids });
                proof {
                    assert(completed_view(completed@) =~= completed_view(completed_before).push((all[idx as int].id, all[idx as int].operation_ids)));
                }
            } else if (now_ms as u128) > (request.received_time_ms as u128) + (timeout_ms as u128) {
                expired.push(request.id);
            } else {
                remaining.push(request);
                proof {
                    assert(request.view() == all[idx as int]);
                    assert(remaining@.map_values(|r: WatchedMutationRequest| r.view())
                        =~= rem_before.map_values(|r: WatchedMutationRequest| r.view()).push(all[idx as int]));
                }
            }
            idx = idx + 1;
        }
        proof {
            assert(all.take(orig.len() as int) =~= all);
        }
        self.requests = remaining;
        IndexedOutcome { completed, expired }
    }

    /// Number of requests being watched.
    pub fn watched_count(&self) -> (res: usize)
        ensures
            res == self.watched().len(),
    {
        self.requests.len()
    }
}

} // verus!

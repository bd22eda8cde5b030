//! Extraction of top results out of a descending sorted sequence of results
//! that get re-scored with a penalized score lower or equal to their original
//! score. Knowing that no later result can have a higher original score than
//! the current one allows stopping early.
use vstd::prelude::*;
use vstd::pervasive::VecAdditionalExecFns;

verus! {

/// `a` comes before `b` in the rescored order: higher penalized score first,
/// and among equal penalized scores, the earlier one in the input first.
pub open spec fn rescored_before(scores: Seq<(u64, u64)>, a: int, b: int) -> bool {
    ||| scores[a].1 > scores[b].1
    ||| (scores[a].1 == scores[b].1 && a < b)
}

/// The input is sorted in descending order of original score.
pub open spec fn sorted_by_score_desc(scores: Seq<(u64, u64)>) -> bool {
    forall|a: int, b: int| 0 <= a < b < scores.len() ==> #[trigger] scores[b].0 <= #[trigger] scores[a].0
}

/// No penalized score is higher than its original score.
pub open spec fn penalized_not_higher(scores: Seq<(u64, u64)>) -> bool {
    forall|a: int| 0 <= a < scores.len() ==> #[trigger] scores[a].1 <= scores[a].0
}

/// `order` selects distinct valid positions of a sequence of length `n`.
pub open spec fn is_selection(order: Seq<usize>, n: nat) -> bool {
    &&& order.no_duplicates()
    &&& forall|k: int| 0 <= k < order.len() ==> #[trigger] order[k] < n
}

/// `order` holds the first positions of the rescored order: it is sorted by
/// the rescored order, and every position it leaves out comes after all of
/// the positions it holds.
pub open spec fn is_rescored_top(scores: Seq<(u64, u64)>, order: Seq<usize>) -> bool {
    &&& forall|k: int, l: int|
        0 <= k < l < order.len() ==> rescored_before(scores, #[trigger] order[k] as int, #[trigger] order[l] as int)
    &&& forall|k: int, j: int|
        0 <= k < order.len() && 0 <= j < scores.len() && !order.contains(j as usize)
            ==> #[trigger] rescored_before(scores, order[k] as int, j)
}

pub open spec fn min_usize(a: usize, b: nat) -> nat {
    if a < b { a as nat } else { b }
}

/// Position in `reserve` of the entry that comes first in the rescored order.
fn reserve_peek(scores: &Vec<(u64, u64)>, reserve: &Vec<usize>) -> (pos: Option<usize>)
    requires
        is_selection(reserve@, scores@.len()),
    ensures
        match pos {
            None => reserve@.len() == 0,
            Some(p) => {
                &&& p < reserve@.len()
                &&& forall|k: int|
                    0 <= k < reserve@.len() && k != p ==> rescored_before(
                        scores@,
                        reserve@[p as int] as int,
                        #[trigger] reserve@[k] as int,
                    )
            },
        },
{
    if reserve.len() == 0 {
        return None;
    }
    let mut best: usize = 0;
    let mut k: usize = 1;
    while k < reserve.len()
        invariant
            is_selection(reserve@, scores@.len()),
            1 <= k <= reserve@.len(),
            best < k,
            forall|k2: int|
                0 <= k2 < k && k2 != best ==> rescored_before(
                    scores@,
                    reserve@[best as int] as int,
                    #[trigger] reserve@[k2] as int,
                ),
        decreases reserve@.len() - k,
    {
        let cand = reserve[k];
        let cur = reserve[best];
        if scores[cand].1 > scores[cur].1 || (scores[cand].1 == scores[cur].1 && cand < cur) {
            assert(reserve@[k as int] != reserve@[best as int]);
            best = k;
        } else {
            assert(reserve@[k as int] != reserve@[best as int]);
        }
        k = k + 1;
    }
    Some(best)
}

/// Checks if the first entry of the reserve in the rescored order has a
/// penalized score at least as high as `score`.
pub fn is_reserve_peek_higher(scores: &Vec<(u64, u64)>, reserve: &Vec<usize>, score: u64) -> (res: bool)
    requires
        is_selection(reserve@, scores@.len()),
    ensures
        res == exists|k: int| 0 <= k < reserve@.len() && #[trigger] scores@[reserve@[k] as int].1 >= score,
{
    match reserve_peek(scores, reserve) {
        None => false,
        Some(p) => {
            let res = scores[reserve[p]].1 >= score;
            if !res {
                assert forall|k: int| 0 <= k < reserve@.len() implies #[trigger] scores@[reserve@[k] as int].1 < score by {
                    if k != p {
                        assert(rescored_before(scores@, reserve@[p as int] as int, reserve@[k] as int));
                    }
                }
            }
            res
        },
    }
}

/// Moving the entry at `p` of the reserve to the end of the top keeps the
/// union of both, their bounds, their distinctness, and their disjointness.
proof fn lemma_move_to_top(top: Seq<usize>, reserve: Seq<usize>, p: int, bound: nat)
    requires
        0 <= p < reserve.len(),
        is_selection(top, bound),
        is_selection(reserve, bound),
        forall|a: int, b: int| 0 <= a < top.len() && 0 <= b < reserve.len() ==> #[trigger] top[a] != #[trigger] reserve[b],
    ensures
        is_selection(top.push(reserve[p]), bound),
        is_selection(reserve.remove(p), bound),
        forall|a: int, b: int|
            0 <= a < top.len() + 1 && 0 <= b < reserve.len() - 1
                ==> #[trigger] top.push(reserve[p])[a] != #[trigger] reserve.remove(p)[b],
        forall|j: usize|
            #[trigger] top.contains(j) || reserve.contains(j)
                <==> top.push(reserve[p]).contains(j) || reserve.remove(p).contains(j),
{
    let t = reserve[p];
    let nt = top.push(t);
    let nr = reserve.remove(p);
    assert forall|a: int, b: int| 0 <= a < nt.len() && 0 <= b < nr.len() implies #[trigger] nt[a] != #[trigger] nr[b] by {
        let ob = if b < p { b } else { b + 1 };
        assert(nr[b] == reserve[ob]);
        if a == top.len() {
            assert(ob != p);
        }
    }
    assert forall|a: int, b: int| 0 <= a < nt.len() && 0 <= b < nt.len() && a != b implies nt[a] != nt[b] by {
        if a < top.len() && b == top.len() {
            assert(top[a] != reserve[p]);
        } else if b < top.len() && a == top.len() {
            assert(top[b] != reserve[p]);
        }
    }
    assert forall|a: int, b: int| 0 <= a < nr.len() && 0 <= b < nr.len() && a != b implies nr[a] != nr[b] by {
        let oa = if a < p { a } else { a + 1 };
        let ob = if b < p { b } else { b + 1 };
        assert(nr[a] == reserve[oa]);
        assert(nr[b] == reserve[ob]);
    }
    assert forall|k: int| 0 <= k < nr.len() implies #[trigger] nr[k] < bound by {
        let ok = if k < p { k } else { k + 1 };
        assert(nr[k] == reserve[ok]);
    }
    assert forall|j: usize| #[trigger] top.contains(j) || reserve.contains(j) implies nt.contains(j) || nr.contains(j) by {
        if top.contains(j) {
            let k = choose|k: int| 0 <= k < top.len() && top[k] == j;
            assert(nt[k] == j);
        } else {
            let k = choose|k: int| 0 <= k < reserve.len() && reserve[k] == j;
            if k < p {
                assert(nr[k] == j);
            } else if k > p {
                assert(nr[k - 1] == j);
            } else {
                assert(nt[top.len() as int] == j);
            }
        }
    }
    assert forall|j: usize| nt.contains(j) || nr.contains(j) implies #[trigger] top.contains(j) || reserve.contains(j) by {
        if nt.contains(j) {
            let k = choose|k: int| 0 <= k < nt.len() && nt[k] == j;
            if k < top.len() {
                assert(top[k] == j);
            } else {
                assert(reserve[p] == j);
            }
        } else {
            let k = choose|k: int| 0 <= k < nr.len() && nr[k] == j;
            let ok = if k < p { k } else { k + 1 };
            assert(reserve[ok] == j);
        }
    }
}

/// State of the selection once the first `i` positions were processed: each
/// of them is in the top or in the reserve, and, when the scores are sorted,
/// the top is in rescored order and comes before every entry of the reserve.
pub open spec fn selection_state(
    scores: Seq<(u64, u64)>,
    top: Seq<usize>,
    reserve: Seq<usize>,
    i: int,
    count: nat,
) -> bool {
    &&& 0 <= i <= scores.len()
    &&& top.len() <= count
    &&& top.len() + reserve.len() == i
    &&& is_selection(top, scores.len())
    &&& is_selection(reserve, scores.len())
    &&& forall|a: int, b: int| 0 <= a < top.len() && 0 <= b < reserve.len() ==> #[trigger] top[a] != #[trigger] reserve[b]
    &&& forall|b: int| 0 <= b < reserve.len() ==> #[trigger] reserve[b] < i
    &&& forall|a: int| 0 <= a < top.len() ==> #[trigger] top[a] < i
    &&& forall|j: usize| j < i ==> #[trigger] top.contains(j) || reserve.contains(j)
    &&& sorted_by_score_desc(scores) ==> {
        &&& forall|a: int, b: int|
            0 <= a < b < top.len() ==> rescored_before(scores, #[trigger] top[a] as int, #[trigger] top[b] as int)
        &&& forall|a: int, b: int|
            0 <= a < top.len() && 0 <= b < reserve.len() ==> rescored_before(scores, #[trigger] top[a] as int, #[trigger] reserve[b] as int)
    }
}

/// When the scores are sorted, each position of the top has a penalized
/// score at least as high as the original score of position `t`, so that no
/// position from `t` on can come before it.
pub open spec fn top_above(scores: Seq<(u64, u64)>, top: Seq<usize>, t: int) -> bool {
    sorted_by_score_desc(scores) && 0 <= t < scores.len() ==> forall|a: int|
        0 <= a < top.len() ==> #[trigger] scores[top[a] as int].1 >= scores[t].0
}

/// Scoring one more position keeps what was established on the positions
/// scored before it.
proof fn lemma_state_push_score(
    scores: Seq<(u64, u64)>,
    top: Seq<usize>,
    reserve: Seq<usize>,
    i: int,
    count: nat,
    t: int,
    x: (u64, u64),
)
    requires
        selection_state(scores, top, reserve, i, count),
        top_above(scores, top, t),
    ensures
        selection_state(scores.push(x), top, reserve, i, count),
        t < scores.len() ==> top_above(scores.push(x), top, t),
{
    let s2 = scores.push(x);
    if sorted_by_score_desc(s2) {
        assert forall|a: int, b: int| 0 <= a < b < scores.len() implies #[trigger] scores[b].0 <= #[trigger] scores[a].0 by {
            assert(s2[a] == scores[a]);
            assert(s2[b] == scores[b]);
        }
        assert(sorted_by_score_desc(scores));
    }
    assert forall|a: int, b: int| 0 <= a < top.len() && 0 <= b < reserve.len() implies rescored_before(s2, #[trigger] top[a] as int, #[trigger] reserve[b] as int)
        == rescored_before(scores, top[a] as int, reserve[b] as int) by {
        assert(s2[top[a] as int] == scores[top[a] as int]);
        assert(s2[reserve[b] as int] == scores[reserve[b] as int]);
    }
    assert forall|a: int, b: int| 0 <= a < b < top.len() implies rescored_before(s2, #[trigger] top[a] as int, #[trigger] top[b] as int)
        == rescored_before(scores, top[a] as int, top[b] as int) by {
        assert(s2[top[a] as int] == scores[top[a] as int]);
        assert(s2[top[b] as int] == scores[top[b] as int]);
    }
    if t < scores.len() && sorted_by_score_desc(s2) && 0 <= t {
        assert forall|a: int| 0 <= a < top.len() implies #[trigger] s2[top[a] as int].1 >= s2[t].0 by {
            assert(s2[top[a] as int] == scores[top[a] as int]);
        }
    }
}

/// Moving the first entry of the reserve in the rescored order to the top
/// keeps the selection state, provided that its penalized score is at least
/// the original score of the position being processed.
proof fn lemma_pop_reserve(
    scores: Seq<(u64, u64)>,
    top: Seq<usize>,
    reserve: Seq<usize>,
    i: int,
    count: nat,
    p: int,
)
    requires
        selection_state(scores, top, reserve, i, count),
        top_above(scores, top, i),
        top.len() < count,
        0 <= p < reserve.len(),
        forall|k: int| 0 <= k < reserve.len() && k != p ==> rescored_before(scores, reserve[p] as int, #[trigger] reserve[k] as int),
        i < scores.len() ==> scores[reserve[p] as int].1 >= scores[i].0,
    ensures
        selection_state(scores, top.push(reserve[p]), reserve.remove(p), i, count),
        top_above(scores, top.push(reserve[p]), i),
{
    lemma_move_to_top(top, reserve, p, scores.len());
    let t = reserve[p];
    let nt = top.push(t);
    let nr = reserve.remove(p);
    assert forall|b: int| 0 <= b < nr.len() implies #[trigger] nr[b] < i by {
        let ob = if b < p { b } else { b + 1 };
        assert(nr[b] == reserve[ob]);
    }
    assert forall|j: usize| j < i implies #[trigger] nt.contains(j) || nr.contains(j) by {
        assert(top.contains(j) || reserve.contains(j));
    }
    assert forall|a: int| 0 <= a < nt.len() implies #[trigger] nt[a] < i by {
        if a == top.len() {
            assert(reserve[p] < i);
        }
    }
    if sorted_by_score_desc(scores) {
        assert forall|a: int, b: int| 0 <= a < b < nt.len() implies rescored_before(scores, #[trigger] nt[a] as int, #[trigger] nt[b] as int) by {
            if b == top.len() {
                assert(rescored_before(scores, top[a] as int, reserve[p] as int));
            } else {
                assert(rescored_before(scores, top[a] as int, top[b] as int));
            }
        }
        assert forall|a: int, b: int| 0 <= a < nt.len() && 0 <= b < nr.len() implies rescored_before(scores, #[trigger] nt[a] as int, #[trigger] nr[b] as int) by {
            let ob = if b < p { b } else { b + 1 };
            assert(nr[b] == reserve[ob]);
            if a == top.len() {
                assert(rescored_before(scores, reserve[p] as int, reserve[ob] as int));
            } else {
                assert(rescored_before(scores, top[a] as int, reserve[ob] as int));
            }
        }
        if 0 <= i < scores.len() {
            assert forall|a: int| 0 <= a < nt.len() implies #[trigger] scores[nt[a] as int].1 >= scores[i].0 by {
                if a < top.len() {
                    assert(nt[a] == top[a]);
                }
            }
        }
    }
}

/// Adding the position being processed to the reserve keeps the selection
/// state, given that every position of the top comes before it.
proof fn lemma_push_reserve(scores: Seq<(u64, u64)>, top: Seq<usize>, reserve: Seq<usize>, i: int, count: nat)
    requires
        selection_state(scores, top, reserve, i, count),
        top_above(scores, top, i),
        i < scores.len(),
        i <= usize::MAX,
        scores[i].1 <= scores[i].0,
    ensures
        selection_state(scores, top, reserve.push(i as usize), i + 1, count),
{
    let nr = reserve.push(i as usize);
    assert forall|a: int, b: int| 0 <= a < nr.len() && 0 <= b < nr.len() && a != b implies nr[a] != nr[b] by {
        if a == reserve.len() {
            assert(reserve[b] < i);
        } else if b == reserve.len() {
            assert(reserve[a] < i);
        }
    }
    assert forall|a: int, b: int| 0 <= a < top.len() && 0 <= b < nr.len() implies #[trigger] top[a] != #[trigger] nr[b] by {
        if b == reserve.len() {
            assert(top[a] < i);
        }
    }
    assert forall|j: usize| j < i + 1 implies #[trigger] top.contains(j) || nr.contains(j) by {
        if j == i {
            assert(nr[reserve.len() as int] == j);
        } else {
            assert(top.contains(j) || reserve.contains(j));
            if reserve.contains(j) {
                let b = choose|b: int| 0 <= b < reserve.len() && reserve[b] == j;
                assert(nr[b] == j);
            }
        }
    }
    if sorted_by_score_desc(scores) {
        assert forall|a: int, b: int| 0 <= a < top.len() && 0 <= b < nr.len() implies rescored_before(scores, #[trigger] top[a] as int, #[trigger] nr[b] as int) by {
            if b == reserve.len() {
                assert(scores[top[a] as int].1 >= scores[i].0);
                assert(top[a] < i);
            } else {
                assert(rescored_before(scores, top[a] as int, reserve[b] as int));
            }
        }
    }
}

/// Once the selection is done, either every position was processed or the
/// top is full and comes before every position left: the top is then the
/// start of the rescored order.
proof fn lemma_selection_done(scores: Seq<(u64, u64)>, top: Seq<usize>, reserve: Seq<usize>, i: int, count: nat)
    requires
        selection_state(scores, top, reserve, i, count),
        penalized_not_higher(scores),
        i < scores.len() ==> top_above(scores, top, i),
        scores.len() <= usize::MAX,
    ensures
        sorted_by_score_desc(scores) ==> is_rescored_top(scores, top),
{
    if sorted_by_score_desc(scores) {
        assert forall|k: int, j: int|
            0 <= k < top.len() && 0 <= j < scores.len() && !top.contains(j as usize)
                implies #[trigger] rescored_before(scores, top[k] as int, j) by {
            if j < i {
                assert(top.contains(j as usize) || reserve.contains(j as usize));
                let b = choose|b: int| 0 <= b < reserve.len() && reserve[b] == j as usize;
                assert(rescored_before(scores, top[k] as int, reserve[b] as int));
            } else {
                assert(scores[top[k] as int].1 >= scores[i].0);
                assert(scores[j].1 <= scores[j].0);
                if j > i {
                    assert(scores[j].0 <= scores[i].0);
                }
                assert(top[k] < i);
            }
        }
    }
}

/// Processes position `i`: entries of the reserve whose penalized score is
/// at least its original score go to the top, in rescored order, while the
/// top isn't full; then it goes to the reserve, unless the top is full, in
/// which case the selection stops there.
fn select_step(scores: &Vec<(u64, u64)>, i: usize, count: usize, top: &mut Vec<usize>, reserve: &mut Vec<usize>) -> (stopped: bool)
    requires
        i < scores@.len(),
        scores@[i as int].1 <= scores@[i as int].0,
        selection_state(scores@, old(top)@, old(reserve)@, i as int, count as nat),
        i > 0 ==> top_above(scores@, old(top)@, i - 1),
    ensures
        top_above(scores@, final(top)@, i as int),
        stopped ==> final(top)@.len() == count && selection_state(scores@, final(top)@, final(reserve)@, i as int, count as nat),
        !stopped ==> selection_state(scores@, final(top)@, final(reserve)@, i + 1, count as nat),
{
    let ghost s = scores@;
    let score = scores[i].0;
    proof {
        if i > 0 && sorted_by_score_desc(s) {
            assert forall|a: int| 0 <= a < top@.len() implies #[trigger] s[top@[a] as int].1 >= s[i as int].0 by {
                assert(s[i as int].0 <= s[i - 1].0);
            }
        }
    }
    while is_reserve_peek_higher(scores, &*reserve, score) && top.len() < count
        invariant
            s == scores@,
            i < s.len(),
            score == s[i as int].0,
            selection_state(s, top@, reserve@, i as int, count as nat),
            top_above(s, top@, i as int),
        decreases reserve@.len(),
    {
        let p = reserve_peek(scores, &*reserve).unwrap();
        proof {
            let t = reserve@[p as int];
            assert(s[t as int].1 >= score) by {
                let k = choose|k: int| 0 <= k < reserve@.len() && #[trigger] s[reserve@[k] as int].1 >= score;
                if k != p {
                    assert(rescored_before(s, t as int, reserve@[k] as int));
                }
            }
            lemma_pop_reserve(s, top@, reserve@, i as int, count as nat, p as int);
        }
        let t = reserve.remove(p);
        top.push(t);
    }
    if top.len() >= count {
        true
    } else {
        proof {
            lemma_push_reserve(s, top@, reserve@, i as int, count as nat);
        }
        reserve.push(i);
        false
    }
}

/// Moves entries of the reserve to the top, in rescored order, until the top
/// is full or the reserve is empty. Only done once every position was
/// processed, or with a full top.
fn select_drain(scores: &Vec<(u64, u64)>, i: usize, count: usize, top: &mut Vec<usize>, reserve: &mut Vec<usize>)
    requires
        selection_state(scores@, old(top)@, old(reserve)@, i as int, count as nat),
        i == scores@.len() || old(top)@.len() == count,
    ensures
        selection_state(scores@, final(top)@, final(reserve)@, i as int, count as nat),
        final(top)@.len() == min_usize(count, i as nat),
        old(top)@.len() == count ==> final(top)@ == old(top)@,
{
    let ghost s = scores@;
    let ghost top0 = top@;
    while top.len() < count && reserve.len() > 0
        invariant
            s == scores@,
            top0.len() == count ==> top@ == top0,
            selection_state(s, top@, reserve@, i as int, count as nat),
            i == s.len() || top@.len() == count,
        decreases reserve@.len(),
    {
        let p = reserve_peek(scores, &*reserve).unwrap();
        proof {
            lemma_pop_reserve(s, top@, reserve@, i as int, count as nat, p as int);
        }
        let t = reserve.remove(p);
        top.push(t);
    }
}

/// Computes the positions of the results to return, in the order in which they
/// are returned.
///
/// When the input is sorted by descending original score, these are the first
/// `count` positions of the rescored order (`is_rescored_top`).
pub fn rescored_top_positions(scores: &Vec<(u64, u64)>, count: usize) -> (order: Vec<usize>)
    requires
        penalized_not_higher(scores@),
    ensures
        order@.len() == min_usize(count, scores@.len()),
        is_selection(order@, scores@.len()),
        sorted_by_score_desc(scores@) ==> is_rescored_top(scores@, order@),
{
    let n = scores.len();
    let ghost s = scores@;
    let mut top: Vec<usize> = Vec::new();
    let mut reserve: Vec<usize> = Vec::new();
    let mut i: usize = 0;
    let mut stopped = false;
    while i < n && !stopped
        invariant
            n == s.len(),
            s == scores@,
            penalized_not_higher(s),
            selection_state(s, top@, reserve@, i as int, count as nat),
            !stopped && i > 0 ==> top_above(s, top@, i - 1),
            stopped ==> top@.len() == count && i < n && top_above(s, top@, i as int),
        decreases n - i, (if stopped { 0int } else { 1int }),
    {
        if select_step(scores, i, count, &mut top, &mut reserve) {
            stopped = true;
        } else {
            i = i + 1;
        }
    }
    select_drain(scores, i, count, &mut top, &mut reserve);
    proof {
        lemma_selection_done(s, top@, reserve@, i as int, count as nat);
    }
    top
}

/// Moves the items of `items` into slots, in the same order.
fn into_slots<E>(items: Vec<E>) -> (slots: Vec<Option<E>>)
    ensures
        slots@.len() == items@.len(),
        forall|k: int| 0 <= k < items@.len() ==> #[trigger] slots@[k] == Some(items@[k]),
{
    let mut items = items;
    let ghost orig = items@;
    let mut reversed: Vec<Option<E>> = Vec::new();
    while items.len() > 0
        invariant
            items@.len() + reversed@.len() == orig.len(),
            items@ == orig.subrange(0, items@.len() as int),
            forall|k: int| 0 <= k < reversed@.len() ==> #[trigger] reversed@[k] == Some(orig[orig.len() - 1 - k]),
        decreases items@.len(),
    {
        let e = items.pop().unwrap();
        reversed.push(Some(e));
    }
    let mut slots: Vec<Option<E>> = Vec::new();
    while reversed.len() > 0
        invariant
            slots@.len() + reversed@.len() == orig.len(),
            forall|k: int| 0 <= k < reversed@.len() ==> #[trigger] reversed@[k] == Some(orig[orig.len() - 1 - k]),
            forall|k: int| 0 <= k < slots@.len() ==> #[trigger] slots@[k] == Some(orig[k]),
        decreases reversed@.len(),
    {
        let e = reversed.pop().unwrap();
        slots.push(e);
    }
    slots
}

/// Moves the items at the given distinct positions out of `items`, in the order
/// of `positions`.
fn take_positions<E>(items: Vec<E>, positions: &Vec<usize>) -> (res: Vec<E>)
    requires
        is_selection(positions@, items@.len()),
    ensures
        res@.len() == positions@.len(),
        forall|k: int| 0 <= k < positions@.len() ==> #[trigger] res@[k] == items@[positions@[k] as int],
{
    let ghost orig = items@;
    let mut slots = into_slots(items);
    let mut res: Vec<E> = Vec::new();
    let mut idx: usize = 0;
    while idx < positions.len()
        invariant
            is_selection(positions@, orig.len()),
            slots@.len() == orig.len(),
            idx <= positions@.len(),
            res@.len() == idx,
            forall|k: int| 0 <= k < idx ==> #[trigger] res@[k] == orig[positions@[k] as int],
            forall|k: int| idx <= k < positions@.len() ==> #[trigger] slots@[positions@[k] as int] == Some(orig[positions@[k] as int]),
        decreases positions@.len() - idx,
    {
        let pos = positions[idx];
        let mut taken: Option<E> = None;
        slots.set_and_swap(pos, &mut taken);
        proof {
            assert(taken == Some(orig[pos as int]));
            assert forall|k: int| idx + 1 <= k < positions@.len() implies #[trigger] slots@[positions@[k] as int] == Some(orig[positions@[k] as int]) by {
                assert(positions@[k] != positions@[idx as int]);
            }
        }
        res.push(taken.unwrap());
        idx = idx + 1;
    }
    res
}

/// Iterator over the top results of a sequence of results sorted by descending
/// score, once re-scored with a penalized score that is never higher than the
/// original score.
pub struct RescoredTopResultsIterator<E> {
    count: usize,
    scores: Vec<(u64, u64)>,
    positions: Vec<usize>,
    top_results: Vec<E>,
}

impl<E> RescoredTopResultsIterator<E> {
    /// Maximum number of results to return.
    pub closed spec fn spec_count(&self) -> usize {
        self.count
    }

    /// Original and penalized scores of the items that got scored, which are
    /// the first ones of the input: the rest are left once the top is known.
    pub closed spec fn spec_scores(&self) -> Seq<(u64, u64)> {
        self.scores@
    }

    /// Input positions of the results, in the order they are returned.
    pub closed spec fn spec_positions(&self) -> Seq<usize> {
        self.positions@
    }

    /// Results that are still to be returned, in order.
    pub closed spec fn remaining(&self) -> Seq<E> {
        self.top_results@
    }

    /// Returns the next top result.
    pub fn next(&mut self) -> (res: Option<E>)
        ensures
            final(self).spec_count() == old(self).spec_count(),
            final(self).spec_scores() == old(self).spec_scores(),
            final(self).spec_positions() == old(self).spec_positions(),
            old(self).remaining().len() == 0 ==> res is None && final(self).remaining() == old(self).remaining(),
            old(self).remaining().len() > 0 ==> res == Some(old(self).remaining()[0])
                && final(self).remaining() == old(self).remaining().drop_first(),
    {
        if self.top_results.len() == 0 {
            None
        } else {
            Some(self.top_results.remove(0))
        }
    }
}

/// Extracts the top `count` results of `items`, which are sorted by descending
/// original score, using `rescorer` to get each item's original and penalized
/// scores. The penalized score is never higher than the original one, which
/// allows an early exit: items are scored one after the other, and once the
/// top is full no item left can come before any of it, so the items after
/// the last one scored are never scored.
pub trait RescoredTopResultsIterable<E>: Sized {
    /// The items, in order.
    spec fn items(&self) -> Seq<E>;

    /// The results come from distinct positions of the items (`min(count,
    /// |items|)` of them); when the scored items are sorted, they are the
    /// first ones of the rescored order among them, and no item left
    /// unscored, whose original score is at most the last scored one, has a
    /// higher penalized score than any of them.
    fn top_negatively_rescored_results<F: Fn(&E) -> (u64, u64)>(self, count: usize, rescorer: F) -> (res: RescoredTopResultsIterator<E>)
        requires
            forall|k: int| 0 <= k < self.items().len() ==> call_requires(rescorer, (&#[trigger] self.items()[k],)),
            forall|k: int, r: (u64, u64)|
                0 <= k < self.items().len() && #[trigger] call_ensures(rescorer, (&self.items()[k],), r) ==> r.1 <= r.0,
        ensures
            res.spec_count() == count,
            res.spec_scores().len() <= self.items().len(),
            forall|k: int| 0 <= k < res.spec_scores().len() ==> call_ensures(rescorer, (&#[trigger] self.items()[k],), res.spec_scores()[k]),
            res.spec_positions().len() == min_usize(count, self.items().len()),
            is_selection(res.spec_positions(), res.spec_scores().len()),
            sorted_by_score_desc(res.spec_scores()) ==> is_rescored_top(res.spec_scores(), res.spec_positions()),
            res.spec_scores().len() < self.items().len() ==> {
                &&& res.spec_scores().len() > 0
                &&& res.spec_positions().len() == count
                &&& sorted_by_score_desc(res.spec_scores()) ==> forall|k: int, j: int, r: (u64, u64)|
                    #![trigger res.spec_positions()[k], call_ensures(rescorer, (&self.items()[j],), r)]
                    0 <= k < res.spec_positions().len() && res.spec_scores().len() <= j < self.items().len()
                        && call_ensures(rescorer, (&self.items()[j],), r) && r.0 <= res.spec_scores().last().0
                        ==> res.spec_scores()[res.spec_positions()[k] as int].1 >= r.1
            },
            res.remaining().len() == res.spec_positions().len(),
            forall|k: int| 0 <= k < res.remaining().len() ==> #[trigger] res.remaining()[k] == self.items()[res.spec_positions()[k] as int],
    ;
}

impl<E> RescoredTopResultsIterable<E> for Vec<E> {
    open spec fn items(&self) -> Seq<E> {
        self@
    }

    fn top_negatively_rescored_results<F: Fn(&E) -> (u64, u64)>(self, count: usize, rescorer: F) -> (res: RescoredTopResultsIterator<E>) {
        let n = self.len();
        let mut scores: Vec<(u64, u64)> = Vec::new();
        let mut top: Vec<usize> = Vec::new();
        let mut reserve: Vec<usize> = Vec::new();
        let mut i: usize = 0;
        let mut stopped = false;
        while i < n && !stopped
            invariant
                n == self@.len(),
                i <= n,
                scores@.len() == if stopped { i + 1 } else { i as int },
                scores@.len() <= n,
                forall|k2: int| 0 <= k2 < self.items().len() ==> call_requires(rescorer, (&#[trigger] self.items()[k2],)),
                forall|k2: int, r: (u64, u64)|
                    0 <= k2 < self.items().len() && #[trigger] call_ensures(rescorer, (&self.items()[k2],), r) ==> r.1 <= r.0,
                forall|k2: int| 0 <= k2 < scores@.len() ==> call_ensures(rescorer, (&#[trigger] self.items()[k2],), scores@[k2]),
                penalized_not_higher(scores@),
                selection_state(scores@, top@, reserve@, i as int, count as nat),
                !stopped && i > 0 ==> top_above(scores@, top@, i - 1),
                stopped ==> top@.len() == count && i < n && top_above(scores@, top@, i as int),
            decreases n - i, (if stopped { 0int } else { 1int }),
        {
            let item = &self[i];
            proof {
                assert(self.items()[i as int] == *item);
            }
            let r = rescorer(item);
            proof {
                lemma_state_push_score(scores@, top@, reserve@, i as int, count as nat, i - 1, r);
            }
            scores.push(r);
            if select_step(&scores, i, count, &mut top, &mut reserve) {
                stopped = true;
            } else {
                i = i + 1;
            }
        }
        select_drain(&scores, i, count, &mut top, &mut reserve);
        proof {
            lemma_selection_done(scores@, top@, reserve@, i as int, count as nat);
            assert forall|k: int| 0 <= k < top@.len() implies #[trigger] top@[k] < n by {}
            if scores@.len() < n {
                let s = scores@;
                if sorted_by_score_desc(s) {
                    assert forall|k: int, j: int, r: (u64, u64)|
                        #![trigger top@[k], call_ensures(rescorer, (&self.items()[j],), r)]
                        0 <= k < top@.len() && s.len() <= j < n && call_ensures(rescorer, (&self.items()[j],), r)
                            && r.0 <= s.last().0 implies s[top@[k] as int].1 >= r.1 by {
                        assert(s[top@[k] as int].1 >= s[i as int].0);
                    }
                }
            }
        }
        let top_results = take_positions(self, &top);
        RescoredTopResultsIterator { count, scores, positions: top, top_results }
    }
}

} // verus!

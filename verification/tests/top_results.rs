use exocore::store::top_results::{
    is_reserve_peek_higher, rescored_top_positions, RescoredTopResultsIterable,
    RescoredTopResultsIterator,
};

fn collect(mut iter: RescoredTopResultsIterator<u64>) -> Vec<u64> {
    let mut out = Vec::new();
    while let Some(e) = iter.next() {
        out.push(e);
    }
    out
}

#[test]
fn test_rescored_top_results() {
    let data: Vec<u64> = vec![2, 1];
    let results = collect(data.top_negatively_rescored_results(4, |e: &u64| (*e, *e)));
    assert_eq!(results, vec![2, 1]);

    let data: Vec<u64> = vec![10, 8, 6, 5, 4, 2, 1];
    let results = collect(data.top_negatively_rescored_results(4, |e: &u64| (*e, *e)));
    assert_eq!(results, vec![10, 8, 6, 5]);

    let data: Vec<u64> = vec![20, 18, 15, 12, 10, 8, 5, 3, 2];
    let results = collect(data.top_negatively_rescored_results(7, |e: &u64| match *e {
        18 => (18, 11),
        12 => (12, 4),
        o => (o, o),
    }));

    // order followed remapped
    assert_eq!(results, vec![20, 15, 18 /* 11 */, 10, 8, 5, 12 /* 4 */]);
}

#[test]
fn rescored_top_results_empty_input_and_zero_count() {
    let data: Vec<u64> = vec![];
    assert!(collect(data.top_negatively_rescored_results(3, |e: &u64| (*e, *e))).is_empty());

    let data: Vec<u64> = vec![5, 4];
    assert!(collect(data.top_negatively_rescored_results(0, |e: &u64| (*e, *e))).is_empty());
}

#[test]
fn rescored_top_positions_keep_input_order_on_equal_penalized_scores() {
    // equal penalized scores are returned in input order
    let scores = vec![(9, 3), (8, 3), (7, 7), (3, 3)];
    assert_eq!(rescored_top_positions(&scores, 4), vec![2, 0, 1, 3]);
    assert_eq!(rescored_top_positions(&scores, 2), vec![2, 0]);
}

#[test]
fn rescored_top_results_whole_input_when_count_is_larger() {
    let data: Vec<u64> = vec![9, 7, 3];
    let results = collect(data.top_negatively_rescored_results(10, |e: &u64| {
        if *e == 9 {
            (9, 1)
        } else {
            (*e, *e)
        }
    }));
    assert_eq!(results, vec![7, 3, 9]);
}

#[test]
fn reserve_peek_higher_looks_at_best_penalized_score_of_reserve() {
    let scores: Vec<(u64, u64)> = vec![(9, 2), (8, 6), (7, 7), (3, 3)];
    // reserve holds positions 0 and 1: best penalized score is 6
    let reserve: Vec<usize> = vec![0, 1];
    assert!(is_reserve_peek_higher(&scores, &reserve, 6));
    assert!(is_reserve_peek_higher(&scores, &reserve, 5));
    assert!(!is_reserve_peek_higher(&scores, &reserve, 7));
    // an empty reserve never peeks higher
    let empty: Vec<usize> = vec![];
    assert!(!is_reserve_peek_higher(&scores, &empty, 0));
}

#[test]
fn rescored_top_results_stops_scoring_once_top_is_known() {
    let calls = std::cell::Cell::new(0usize);
    let data: Vec<u64> = vec![10, 8, 6, 5, 4, 2, 1];
    let results = collect(data.top_negatively_rescored_results(2, |e: &u64| {
        calls.set(calls.get() + 1);
        (*e, *e)
    }));
    assert_eq!(results, vec![10, 8]);
    // 10 and 8 are known to be the top once 6 is scored: 5, 4, 2, 1 are not
    assert_eq!(calls.get(), 3);
}

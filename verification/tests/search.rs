use file_picker::search::rank_matches;

#[test]
fn ranking_orders_by_score_then_index() {
    let scores = vec![Some(1), Some(5), None, Some(5), Some(-2), Some(9)];
    assert_eq!(rank_matches(&scores), vec![5, 1, 3, 0, 4]);
}

#[test]
fn ranking_of_no_match_is_empty() {
    assert!(rank_matches(&vec![None, None]).is_empty());
    assert!(rank_matches(&vec![]).is_empty());
}

#[test]
fn ranking_keeps_order_of_ties() {
    assert_eq!(rank_matches(&vec![Some(0), Some(0), Some(0)]), vec![0, 1, 2]);
}

use cortex::hits::match_hits;

fn strings(v: &[&str]) -> Vec<String> {
    v.iter().map(|s| s.to_string()).collect()
}

#[test]
fn hits_follow_result_order() {
    let ids = strings(&["c3", "c1"]);
    let keep = vec![true, true];
    let docs = vec![strings(&["c1", "c2"]), strings(&["c3"])];
    assert_eq!(match_hits(&ids, &keep, &docs), vec![(0, 1, 0), (1, 0, 0)]);
}

#[test]
fn dropped_results_and_missing_chunks_give_no_hits() {
    let ids = strings(&["c1", "c2", "zz"]);
    let keep = vec![false, true, true];
    let docs = vec![strings(&["c1", "c2"]), strings(&[])];
    assert_eq!(match_hits(&ids, &keep, &docs), vec![(1, 0, 1)]);
    assert!(match_hits(&vec![], &vec![], &docs).is_empty());
}

#[test]
fn every_matching_chunk_is_a_hit() {
    let ids = strings(&["x"]);
    let docs = vec![strings(&["x", "y", "x"]), strings(&["x"])];
    assert_eq!(match_hits(&ids, &vec![true], &docs), vec![(0, 0, 0), (0, 0, 2), (0, 1, 0)]);
}

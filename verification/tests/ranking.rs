use alias_launcher::ranking::{rank, rank_scores, score_candidates, MAX_RESULTS};

fn strings(items: &[&str]) -> Vec<String> {
    items.iter().map(|s| s.to_string()).collect()
}

fn score(bits: u64) -> f64 {
    f64::from_bits(bits)
}

#[test]
fn rank_scores_orders_by_falling_score() {
    assert_eq!(rank_scores(&vec![3, 1, 4, 2]), vec![2, 0, 3, 1]);
}

#[test]
fn rank_scores_keeps_candidate_order_among_equal_scores() {
    assert_eq!(rank_scores(&vec![7, 9, 7, 9, 7]), vec![1, 3, 0, 2, 4]);
}

#[test]
fn rank_scores_keeps_the_best_five() {
    let order = rank_scores(&vec![10, 60, 20, 50, 30, 40, 70, 5]);
    assert_eq!(order, vec![6, 1, 3, 5, 4]);
    assert_eq!(order.len(), MAX_RESULTS);
}

#[test]
fn rank_scores_of_equal_scores_is_the_first_five() {
    assert_eq!(rank_scores(&vec![0; 9]), vec![0, 1, 2, 3, 4]);
}

#[test]
fn rank_scores_of_nothing_is_empty() {
    assert_eq!(rank_scores(&Vec::new()), Vec::<usize>::new());
}

#[test]
fn rank_scores_of_one_is_that_one() {
    assert_eq!(rank_scores(&vec![42]), vec![0]);
}

#[test]
fn rank_scores_late_high_score_goes_first() {
    assert_eq!(rank_scores(&vec![1, 1, 1, 1, 1, 1, 2]), vec![6, 0, 1, 2, 3]);
}

#[test]
fn score_candidates_gives_the_similarity_of_each() {
    let candidates = strings(&["editor", "email", "edi", ""]);
    let scores = score_candidates("edi", &candidates);
    assert_eq!(scores.len(), 4);
    for (candidate, bits) in candidates.iter().zip(scores.iter()) {
        assert_eq!(*bits, strsim::jaro_winkler("edi", candidate).to_bits());
    }
    assert_eq!(score(scores[2]), 1.0);
    assert_eq!(score(scores[3]), 0.0);
}

#[test]
fn score_of_a_prefix_has_the_expected_value() {
    let scores = score_candidates("edi", &strings(&["editor"]));
    // Jaro: (3/3 + 3/6 + 3/3) / 3 = 5/6; three characters of common prefix.
    let jaro = 5.0 / 6.0;
    let expected = jaro + 0.1 * 3.0 * (1.0 - jaro);
    assert!((score(scores[0]) - expected).abs() < 1e-12);
}

#[test]
fn score_depends_on_both_strings() {
    let scores = score_candidates("abc", &strings(&["abc", "xyz"]));
    assert_eq!(score(scores[0]), 1.0);
    assert_eq!(score(scores[1]), 0.0);
}

#[test]
fn rank_has_at_most_five_entries() {
    let candidates = strings(&["a", "b", "c", "d", "e", "f", "g"]);
    assert_eq!(rank("a", &candidates).len(), 5);
    assert_eq!(rank("", &candidates).len(), 5);
}

#[test]
fn rank_has_no_more_entries_than_candidates() {
    assert_eq!(rank("x", &strings(&["one", "two"])).len(), 2);
    assert_eq!(rank("x", &Vec::new()).len(), 0);
}

#[test]
fn rank_twice_gives_the_same() {
    let candidates = strings(&["term", "terminal", "tmux", "top", "htop", "editor", "edit"]);
    for query in ["", "t", "te", "ed", "zzz", "top"] {
        assert_eq!(rank(query, &candidates), rank(query, &candidates));
    }
}

#[test]
fn rank_is_sorted_by_falling_score() {
    let candidates = strings(&["term", "terminal", "tmux", "top", "htop", "editor", "edit"]);
    for query in ["", "t", "te", "ed", "zzz", "top"] {
        let matches = rank(query, &candidates);
        for pair in matches.windows(2) {
            assert!(score(pair[0].1) >= score(pair[1].1));
            assert!(pair[0].1 >= pair[1].1);
        }
    }
}

#[test]
fn rank_scores_are_similarities_between_zero_and_one() {
    let candidates = strings(&["term", "terminal", "tmux", "top", "htop"]);
    for (alias, bits) in rank("ter", &candidates) {
        assert_eq!(bits, strsim::jaro_winkler("ter", &alias).to_bits());
        assert!(0.0 <= score(bits) && score(bits) <= 1.0);
    }
}

#[test]
fn rank_puts_the_prefix_match_first() {
    let matches = rank("edi", &strings(&["editor", "email"]));
    let aliases: Vec<&str> = matches.iter().map(|m| m.0.as_str()).collect();
    assert_eq!(aliases, vec!["editor", "email"]);
}

#[test]
fn rank_puts_the_exact_match_first() {
    let matches = rank("top", &strings(&["htop", "stop", "top", "topic"]));
    assert_eq!(matches[0].0, "top");
    assert_eq!(score(matches[0].1), 1.0);
}

#[test]
fn rank_of_the_empty_query_is_the_first_five_candidates() {
    let candidates = strings(&["zeta", "alpha", "mid", "beta", "omega", "last", "more"]);
    let matches = rank("", &candidates);
    let aliases: Vec<&str> = matches.iter().map(|m| m.0.as_str()).collect();
    assert_eq!(aliases, vec!["zeta", "alpha", "mid", "beta", "omega"]);
    for m in &matches {
        assert_eq!(score(m.1), 0.0);
    }
}

#[test]
fn rank_breaks_ties_by_candidate_order() {
    let matches = rank("q", &strings(&["bb", "aa", "cc"]));
    let aliases: Vec<&str> = matches.iter().map(|m| m.0.as_str()).collect();
    assert_eq!(aliases, vec!["bb", "aa", "cc"]);
}

#[test]
fn rank_repeats_no_candidate() {
    let candidates = strings(&["term", "terminal", "tmux", "top", "htop", "editor", "edit"]);
    let matches = rank("t", &candidates);
    for (i, a) in matches.iter().enumerate() {
        for b in &matches[i + 1..] {
            assert_ne!(a.0, b.0);
        }
    }
}

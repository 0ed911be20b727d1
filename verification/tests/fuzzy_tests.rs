use todo::fuzzy::{fuzzy_indices, fuzzy_match};

#[test]
fn subsequence_matches_score() {
    assert!(fuzzy_match("buy milk", "buy").is_some());
    assert!(fuzzy_match("buy milk", "bm").is_some());
    assert!(fuzzy_match("call mom", "buy").is_none());
    assert!(fuzzy_match("ab", "ba").is_none());
}

#[test]
fn empty_pattern_scores_zero() {
    assert_eq!(fuzzy_match("anything", ""), Some(0));
    let (score, idx) = fuzzy_indices("anything", "").unwrap();
    assert_eq!(score, 0);
    assert!(idx.is_empty());
}

#[test]
fn indices_agree_with_score_and_are_increasing() {
    let score = fuzzy_match("buy milk", "bm").unwrap();
    let (score2, idx) = fuzzy_indices("buy milk", "bm").unwrap();
    assert_eq!(score, score2);
    assert!(idx.windows(2).all(|w| w[0] < w[1]));
    assert!(idx.iter().all(|&i| i < "buy milk".chars().count()));
    assert_eq!(idx, vec![0, 4]);
}

#[test]
fn a_better_alignment_scores_higher() {
    // A word-start match beats a scattered one.
    let exact = fuzzy_match("buy milk", "buy").unwrap();
    let scattered = fuzzy_match("bauyx milk", "buy").unwrap();
    assert!(exact > scattered);
}

use gukab::fuzzy::{fuzzy_match, fuzzy_score};

/// Of several targets, the best-ranked one for `query`.
fn best<'a>(query: &str, targets: &[&'a str]) -> &'a str {
    targets
        .iter()
        .filter_map(|t| fuzzy_score(query, t).map(|s| (s, *t)))
        .max_by_key(|(s, _)| *s)
        .map(|(_, t)| t)
        .unwrap_or("")
}

#[test]
fn substring_matches() {
    assert!(fuzzy_match("merkez", "merkeza-2kat01"));
    assert!(fuzzy_match("erkez", "merkeza-2kat01"));
}

#[test]
fn transposition_matches() {
    assert!(fuzzy_match("merkze", "merkeza-2kat01"));
    assert!(fuzzy_match("mrekez", "merkeza-2kat01"));
}

#[test]
fn single_typo_matches() {
    assert!(fuzzy_match("merkex", "merkeza-2kat01"));
}

#[test]
fn unrelated_does_not_match() {
    assert!(!fuzzy_match("zzzzz", "merkeza-2kat01"));
    assert!(!fuzzy_match("ankara", "merkeza-2kat01"));
}

#[test]
fn short_queries_are_substring_only() {
    assert!(fuzzy_match("me", "merkeza-2kat01"));
    assert!(!fuzzy_match("xy", "merkeza-2kat01"));
}

#[test]
fn subsequence_matches() {
    assert!(fuzzy_match("mer2", "merkezd-2kat"));
    assert!(fuzzy_match("mer 2", "merkezd-2kat"));
    assert!(fuzzy_match("mrd", "merkezd"));
    assert!(fuzzy_match("2kat", "merkezd-2kat"));
    assert!(fuzzy_match("a1", "merkeza-1kat"));
}

#[test]
fn subsequence_no_match() {
    assert!(!fuzzy_match("xxxx", "merkeza-2kat"));
    assert!(!fuzzy_match("mzzz", "merkeza-2kat"));
}

#[test]
fn ranking_picks_closest() {
    let fen = ["feneryolu-1", "feneryolu-2", "feneryolu-3", "feneryolu-4"];
    assert_eq!(best("fen3", &fen), "feneryolu-3");
    assert_eq!(best("fen1", &fen), "feneryolu-1");
    assert_eq!(best("fen 4", &fen), "feneryolu-4");
    assert!(fuzzy_score("mer", "merkez").unwrap() > fuzzy_score("mer", "izmer").unwrap());
    assert!(fuzzy_score("fen3", "feneryolu-3").unwrap() > fuzzy_score("fen3", "feneryolu-1").unwrap());
}

#[test]
fn empty_query_scores_zero_everywhere() {
    assert_eq!(fuzzy_score("", "anything"), Some(0));
    assert_eq!(fuzzy_score("   ", ""), Some(0));
}

#[test]
fn substring_score_exact_values() {
    // At the start: 10000 + 100 - (6 - 3).
    assert_eq!(fuzzy_score("mer", "merkez"), Some(10097));
    // After a separator at position 4: 10000 - 8 + 50 - (8 - 3).
    assert_eq!(fuzzy_score("abc", "xyz-abcd"), Some(10037));
    // Mid-word at position 2: 10000 - 4 - (5 - 3).
    assert_eq!(fuzzy_score("mer", "izmer"), Some(9994));
}

#[test]
fn subsequence_score_exact_value() {
    // "mrd" in "merkezd": m@0 (+30 start, -0), r@2 (-1 gap), d@6 (-3 gap).
    assert_eq!(fuzzy_score("mrd", "merkezd"), Some(5000 + 30 - 1 - 3));
}

#[test]
fn typo_score_exact_value() {
    // One substitution: 1000 - 100.
    assert_eq!(fuzzy_score("merkex", "merkeza-2kat01"), Some(900));
}

#[test]
fn spaces_in_query_are_ignored() {
    assert_eq!(fuzzy_score("fen 3", "feneryolu-3"), fuzzy_score("fen3", "feneryolu-3"));
    assert_eq!(fuzzy_score("m e r", "izmer"), fuzzy_score("mer", "izmer"));
}

#[test]
fn substring_outranks_subsequence_and_typo() {
    let sub = fuzzy_score("kat", "merkeza-2kat").unwrap();
    let subseq = fuzzy_score("mkt", "merkeza-2kat").unwrap();
    let typo = fuzzy_score("merkex", "merkeza-2kat01").unwrap();
    assert!(sub > subseq);
    assert!(subseq > typo);
}

use teleproj::score::{calculate_match_score, score_lowered};

fn chars(s: &str) -> Vec<char> {
    s.chars().collect()
}

#[test]
fn exact_scores_a_thousand() {
    assert_eq!(calculate_match_score("frontend", "frontend"), 1000);
}

#[test]
fn case_is_ignored() {
    assert_eq!(calculate_match_score("FrontEnd", "frontEND"), 1000);
    assert_eq!(calculate_match_score("Apollo", "AP"), 520);
}

#[test]
fn prefix_score_grows_with_query_length() {
    assert_eq!(calculate_match_score("apollo", "a"), 510);
    assert_eq!(calculate_match_score("apollo", "apol"), 540);
}

#[test]
fn contained_score() {
    assert_eq!(calculate_match_score("myproject", "proj"), 120);
}

#[test]
fn scattered_keeps_order() {
    assert_eq!(calculate_match_score("xaxbx", "ab"), 2);
    assert_eq!(calculate_match_score("ba", "ab"), 0);
}

#[test]
fn scattered_needs_every_query_character() {
    assert_eq!(calculate_match_score("backend", "fe"), 0);
    assert_eq!(calculate_match_score("frontend", "fe"), 2);
    assert_eq!(calculate_match_score("abc", "abcd"), 0);
}

#[test]
fn length_counts_bytes_of_the_query() {
    // "é" is two bytes long.
    assert_eq!(calculate_match_score("école", "é"), 520);
    assert_eq!(calculate_match_score("café", "fé"), 100 + 5 * 3);
}

#[test]
fn tiers_rank_in_order() {
    let q = "ab";
    let exact = calculate_match_score("ab", q);
    let prefix = calculate_match_score("abc", q);
    let inner = calculate_match_score("cab", q);
    let scattered = calculate_match_score("axb", q);
    assert!(exact > prefix && prefix > inner && inner > scattered && scattered > 0);
}

#[test]
fn scoring_lowered_text() {
    assert_eq!(score_lowered(&chars("apex"), &chars("ap"), 2), 520);
    assert_eq!(score_lowered(&chars("apex"), &chars("AP"), 2), 0);
    assert_eq!(score_lowered(&chars("abc"), &chars(""), 0), 500);
}

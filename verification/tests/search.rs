use herdr_configurable_picker::search::lowered_query_matches;

/// Case-insensitive convenience for the tests below.
fn query_matches(text: &str, query: &str) -> bool {
    lowered_query_matches(&text.to_lowercase(), &query.to_lowercase())
}

#[test]
fn matches_case_insensitive_substrings() {
    assert!(query_matches("picker", "ick"));
    assert!(query_matches("Picker", "pick"));
    assert!(query_matches("picker", "ICK"));
    assert!(!query_matches("picker", "pique"));
}

#[test]
fn empty_query_matches_everything() {
    assert!(query_matches("anything", ""));
    assert!(query_matches("", ""));
    assert!(query_matches("x", "   "));
}

#[test]
fn multiple_words_all_must_match_in_any_order() {
    let text = "picker pilot · working";
    assert!(query_matches(text, "pick work"));
    assert!(query_matches(text, "working pilot"));
    assert!(!query_matches(text, "pick idle"));
}

#[test]
fn fuzzy_matches_subsequences_like_fzf() {
    assert!(query_matches("herdr configurable picker", "hcfg"));
    assert!(query_matches("cargo test -p picker", "ctpp"));
    assert!(query_matches("feature/search-idx", "fsidx"));
    assert!(!query_matches("picker pilot", "zxq"));
}

#[test]
fn short_queries_do_not_fuzzy_match_everything() {
    assert!(query_matches("/var/tmp/project", "tmp"));
    assert!(!query_matches("test manual pane", "tmp"));
    assert!(!query_matches("terminal multiplexer pane", "tmp"));
}

#[test]
fn fuzzy_still_requires_every_query_word() {
    let text = "feature/search-index cargo test -p picker";
    assert!(query_matches(text, "fsidx ctpp"));
    assert!(!query_matches(text, "fsidx zzq"));
}

#[test]
fn works_on_non_ascii_labels() {
    assert!(query_matches("日本語ラベル pilot", "ラベル pilot"));
    assert!(!query_matches("日本語ラベル", "英語"));
}

#[test]
fn joined_queries_need_both_parts_in_either_order() {
    let text = "herdr configurable picker";
    assert!(query_matches(text, "hcfg\tpick"));
    assert!(query_matches(text, "pick\u{3000}hcfg"));
    assert!(!query_matches(text, "hcfg nope"));
    assert!(!query_matches(text, "nope hcfg"));
}

#[test]
fn four_character_words_match_as_subsequences_three_do_not() {
    assert!(query_matches("a-b-c-d", "abcd"));
    assert!(!query_matches("a-b-c", "abc"));
    assert!(query_matches("abc", "abc"));
}

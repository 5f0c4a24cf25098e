use lait::palette::{fuzzy_score, tokenize};

#[test]
fn tokenize_quotes_escapes_and_spaces() {
    assert_eq!(
        tokenize(r#"new "fix login race" -p ENG -P high"#),
        vec!["new", "fix login race", "-p", "ENG", "-P", "high"]
    );
    assert_eq!(tokenize("comment 'it\\'s fine'".replace("\\'", "").as_str()).len(), 2);
    assert_eq!(tokenize(r"a\ b c"), vec!["a b", "c"]);
    assert_eq!(tokenize("   "), Vec::<String>::new());
    assert_eq!(tokenize("''"), vec![""]);
}

#[test]
fn fuzzy_prefers_prefix_and_boundaries() {
    let score = |n: &str, h: &str| fuzzy_score(n, h);
    assert!(score("sta", "start").unwrap() > score("sta", "instant").unwrap());
    assert!(score("ma", "members approve").unwrap() > score("ma", "man").is_some() as i32 - 1);
    assert!(score("xyz", "start").is_none());
    assert!(score("ll", "labels ls").is_some());
}

#[test]
fn tokenizer_edge_cases() {
    assert_eq!(tokenize(r"trailing\"), vec![r"trailing\"]);
    assert_eq!(tokenize(r#""open quote runs to the end"#), vec!["open quote runs to the end"]);
    assert_eq!(tokenize(r#"say "it's" 'a "b"'"#), vec!["say", "it's", r#"a "b""#]);
    assert_eq!(tokenize("a\tb\nc"), vec!["a", "b", "c"]);
    assert_eq!(tokenize(r#"x"y z"w"#), vec!["xy zw"]);
}

#[test]
fn fuzzy_scores_exactly() {
    // s at 0: 1 + 4; t adjacent: 1 + 2; a adjacent: 1 + 2; minus 5 / 8.
    assert_eq!(fuzzy_score("sta", "start"), Some(11));
    // "instant": s at 2 (1), t at 3 (1 + 2), a at 4 (1 + 2); minus 7 / 8.
    assert_eq!(fuzzy_score("sta", "instant"), Some(7));
    // Case-insensitive; boundary after '-'.
    assert_eq!(fuzzy_score("B", "a-b"), Some(4));
    assert_eq!(fuzzy_score("", "anything"), Some(0));
    assert_eq!(fuzzy_score("x", ""), None);
    // Long haystacks lose by an eighth of their length.
    assert_eq!(fuzzy_score("a", &"a".repeat(16)), Some(5 - 2));
}

#[test]
fn backslash_escapes_inside_double_quotes_only() {
    assert_eq!(tokenize("\"a\\\"b\""), vec!["a\"b"]);
    assert_eq!(tokenize("'a\\b'"), vec!["a\\b"]);
    assert_eq!(tokenize(r#""a\\b c""#), vec![r"a\b c"]);
    // A backslash at the very end of an open double-quoted run is literal.
    assert_eq!(tokenize("\"ab\\"), vec!["ab\\"]);
}

#[test]
fn plain_input_splits_on_whitespace() {
    let line = "  new  fix\tlogin\u{3000}race ";
    let split: Vec<String> = line.split_whitespace().map(String::from).collect();
    assert_eq!(tokenize(line), split);
}

#[test]
fn fuzzy_ignores_case_and_scores_every_haystack() {
    assert_eq!(fuzzy_score("STA", "INSTANT"), fuzzy_score("sta", "instant"));
    assert_eq!(fuzzy_score("sTa", "StArT"), Some(11));
    // A match far into a long haystack is still found.
    let mut long = "x".repeat(4000);
    long.push_str("needle");
    assert_eq!(fuzzy_score("needle", &long), Some(6 + 2 * 5 - (4006 / 8)));
    assert_eq!(fuzzy_score("needles", &long), None);
}

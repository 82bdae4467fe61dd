use giftwrap::glob::{glob_match_tokens, tokenize, Token};

fn matches(pattern: &str, text: &str) -> bool {
    glob_match_tokens(&tokenize(pattern), text)
}

#[test]
fn tokenize_compiles_wildcards() {
    assert_eq!(
        tokenize("a*b**c?***"),
        vec![
            Token::Char('a'),
            Token::Star,
            Token::Char('b'),
            Token::DoubleStar,
            Token::Char('c'),
            Token::Qm,
            Token::DoubleStar,
        ]
    );
    assert_eq!(tokenize(""), Vec::<Token>::new());
    assert_eq!(tokenize("*"), vec![Token::Star]);
    assert_eq!(tokenize("/é"), vec![Token::Char('/'), Token::Char('é')]);
}

#[test]
fn literal_patterns_match_themselves_only() {
    assert!(matches("config", "config"));
    assert!(!matches("config", "config2"));
    assert!(!matches("config", "confi"));
    assert!(!matches("config", "sub/config"));
    assert!(matches("", ""));
    assert!(!matches("", "a"));
}

#[test]
fn question_mark_takes_one_character_but_no_separator() {
    assert!(matches("a?c", "abc"));
    assert!(matches("a?c", "aéc"));
    assert!(!matches("a?c", "a/c"));
    assert!(!matches("a?c", "ac"));
    assert!(!matches("?", ""));
}

#[test]
fn star_stays_within_a_segment() {
    assert!(matches("*.log", "keep.log"));
    assert!(matches("*.log", ".log"));
    assert!(!matches("*.log", "dir/keep.log"));
    assert!(matches("a*", "a"));
    assert!(matches("*", ""));
    assert!(!matches("*", "a/b"));
    assert!(matches("*/*", "a/b"));
    assert!(matches("a*b*c", "aXbYbZc"));
    assert!(!matches("a*b*c", "aXbYbZ"));
}

#[test]
fn double_star_crosses_segments() {
    assert!(matches("a/**/b", "a/x/b"));
    assert!(matches("a/**/b", "a/x/y/b"));
    assert!(matches("a/**/b", "a//b"));
    assert!(!matches("a/**/b", "a/b"));
    assert!(!matches("a/**/b", "a/x/c"));
    assert!(matches("**", ""));
    assert!(matches("**", "any/thing/at/all"));
    assert!(matches("**/b", "/b"));
    assert!(matches("src/**", "src/a/b.rs"));
    assert!(!matches("src/**", "src"));
}

#[test]
fn long_inputs_are_matched_without_blowup() {
    let text = "a".repeat(300);
    let pattern = format!("{}b", "*a".repeat(30));
    assert!(!matches(&pattern, &text));
    assert!(matches(&"*a".repeat(30), &text));
}

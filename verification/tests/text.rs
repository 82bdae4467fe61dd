use giftwrap::order::{insert_sorted, less};
use giftwrap::params::EnvMap;
use giftwrap::text::{
    chars_of, decimal, join_strings, lines, parse_u32, signed_decimal, split_chars, str_eq,
    string_of, strip_prefix, trimmed,
};

fn chars(s: &str) -> Vec<char> {
    s.chars().collect()
}

fn text(v: &Vec<char>) -> String {
    v.iter().collect()
}

fn texts(v: &Vec<Vec<char>>) -> Vec<String> {
    v.iter().map(text).collect()
}

#[test]
fn strings_and_characters_convert_both_ways() {
    assert_eq!(chars_of("aé/"), vec!['a', 'é', '/']);
    assert_eq!(string_of(&vec!['a', 'é', '/']), "aé/");
    assert!(str_eq("same", "same"));
    assert!(!str_eq("same", "sam"));
    assert_eq!(strip_prefix("--gw-img=x", "--gw-img=").as_deref(), Some("x"));
    assert_eq!(strip_prefix("--gw", "--gw-img=").as_deref(), None);
    assert_eq!(strip_prefix("abc", "").as_deref(), Some("abc"));
}

#[test]
fn lines_follow_the_standard_rules() {
    for sample in ["", "\n", "a", "a\n", "a\nb", "a\r\nb\r", "\r\n\r\n", "a\n\nb\n", "\ra\n", "x\r\r\n"] {
        let expected: Vec<String> = sample.lines().map(|l| l.to_string()).collect();
        assert_eq!(texts(&lines(&chars(sample))), expected, "lines of {sample:?}");
    }
}

#[test]
fn trim_follows_the_standard_rules() {
    for sample in ["", " ", " a ", "\t\na b\r\n", "\u{a0}x\u{3000}", "\u{85}\u{1680}y\u{2028}\u{2029}", "\u{200b}z", "\u{feff}w", "\u{2000}\u{200a}\u{202f}\u{205f}v\u{b}\u{c}"] {
        assert_eq!(text(&trimmed(&chars(sample))), sample.trim(), "trim of {sample:?}");
    }
}

#[test]
fn split_gives_a_piece_between_each_pair_of_separators() {
    for sample in ["", ":", "a", "a:b", ":a:", "a::b", "a:b:c:d"] {
        let expected: Vec<String> = sample.split(':').map(|l| l.to_string()).collect();
        assert_eq!(texts(&split_chars(&chars(sample), ':')), expected, "split of {sample:?}");
    }
}

#[test]
fn join_puts_the_separator_between_pieces() {
    let words = |w: &[&str]| -> Vec<String> { w.iter().map(|s| s.to_string()).collect() };
    assert_eq!(join_strings(&words(&[]), ", "), "");
    assert_eq!(join_strings(&words(&["a"]), ", "), "a");
    assert_eq!(join_strings(&words(&["a", "", "b"]), ", "), "a, , b");
}

#[test]
fn numbers_are_written_and_read_in_decimal() {
    assert_eq!(decimal(0), "0");
    assert_eq!(decimal(9), "9");
    assert_eq!(decimal(10), "10");
    assert_eq!(decimal(1234567890), "1234567890");
    assert_eq!(decimal(u64::MAX), "18446744073709551615");
    assert_eq!(signed_decimal(-42), "-42");
    assert_eq!(signed_decimal(i32::MAX), "2147483647");
    for sample in ["", "+", "-", "0", "+0", "-0", "12", "+12", "012", " 12", "12 ", "1_2", "4294967295", "4294967296", "99999999999999999999999", "+4294967295", "١٢", "1+2"] {
        assert_eq!(parse_u32(&chars(sample)), sample.parse::<u32>().ok(), "parse of {sample:?}");
    }
}

#[test]
fn strings_are_ordered_as_the_standard_order() {
    let samples = ["", "a", "A", "a-b", "a/b", "ab", "b", "é", "z", "a\u{10000}", "a\u{ffff}"];
    for x in samples {
        for y in samples {
            assert_eq!(less(&chars(x), &chars(y)), x < y, "{x:?} < {y:?}");
        }
    }
}

#[test]
fn sorted_insert_keeps_order_and_drops_duplicates() {
    let mut list: Vec<Vec<char>> = Vec::new();
    for item in ["m", "a", "z", "m", "b", "a", ""] {
        insert_sorted(&mut list, chars(item));
    }
    assert_eq!(texts(&list), vec!["", "a", "b", "m", "z"]);
}

#[test]
fn environment_keeps_names_in_order() {
    let mut env = EnvMap::new();
    env.insert("B".to_string(), "2".to_string());
    env.insert("A".to_string(), "1".to_string());
    env.insert("C".to_string(), "3".to_string());
    env.insert("B".to_string(), "4".to_string());
    assert_eq!(env.len(), 3);
    assert_eq!(
        env.entries().clone(),
        vec![
            ("A".to_string(), "1".to_string()),
            ("B".to_string(), "4".to_string()),
            ("C".to_string(), "3".to_string())
        ]
    );
    assert_eq!(env.get("B").map(|v| v.as_str()), Some("4"));
    assert!(env.get("D").is_none());
    env.remove("A");
    env.remove("missing");
    assert_eq!(env.len(), 2);
    let mut other = EnvMap::new();
    other.insert("A".to_string(), "9".to_string());
    other.insert("C".to_string(), "8".to_string());
    env.extend(&other);
    assert_eq!(
        env.entries().clone(),
        vec![
            ("A".to_string(), "9".to_string()),
            ("B".to_string(), "4".to_string()),
            ("C".to_string(), "8".to_string())
        ]
    );
}

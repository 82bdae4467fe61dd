use giftwrap::context::{
    build_dockerignore_file_list, build_gwinclude_file_list, collect_files, detect_context_mode,
    load_from_config, parse_dockerignore, parse_gwinclude_files, ContextMode, PatternFile,
};
use giftwrap::fingerprint::{
    build_context_sha, compute_sha, is_list_current, is_sha_file_dirty, read_sha_file, to_hex,
    write_sha_file, Stamp,
};
use giftwrap::launch::select_image;
use giftwrap::params::Params;
use giftwrap::pattern::parse_gwinclude_line;
use giftwrap::select::{dockerignore_includes, gw_pattern_matches, gw_selects};
use sha1::{Digest, Sha1};

const LEGACY_ERROR: &str =
    "Error: docker ignore must start with '*', each following line must start with '!'";
const MODE_ERROR: &str =
    "Error: version_by_build_context requires a .gwinclude (or legacy .dockerignore) file";

fn strings(words: &[&str]) -> Vec<String> {
    words.iter().map(|w| w.to_string()).collect()
}

fn marker(path: &str, content: &str) -> PatternFile {
    PatternFile { path: path.to_string(), content: content.to_string() }
}

fn select(markers: &[(&str, &str)], files: &[&str]) -> Vec<String> {
    let markers: Vec<PatternFile> = markers.iter().map(|(p, c)| marker(p, c)).collect();
    build_gwinclude_file_list(&strings(files), &markers, false)
}

fn rule_matches(line: &str, path: &str) -> bool {
    let pattern = parse_gwinclude_line("", line).expect("a rule");
    gw_pattern_matches(&pattern, path)
}

const T0: Stamp = Stamp { secs: 100, nanos: 5 };

#[test]
fn last_matching_rule_wins() {
    let selected = select(&[(".gwinclude", "*.log\n!keep.log\n")], &[".gwinclude", "keep.log", "other.log"]);
    assert_eq!(selected, strings(&[".gwinclude", "other.log"]));
    let selected = select(&[(".gwinclude", "!*.log\nkeep.log\n")], &[".gwinclude", "keep.log", "other.log"]);
    assert_eq!(selected, strings(&[".gwinclude", "keep.log"]));
    let selected = select(
        &[(".gwinclude", "*\n!*.log\nkeep.log\n!keep.log\nkeep.log")],
        &[".gwinclude", "keep.log", "other.log", "a.txt"],
    );
    assert_eq!(selected, strings(&[".gwinclude", "a.txt", "keep.log"]));
}

#[test]
fn nested_marker_affects_only_its_subtree() {
    let files = [".gwinclude", "a.txt", "sub/.gwinclude", "sub/a.txt", "sub/deep/a.txt", "subx/a.txt"];
    let selected = select(&[("sub/.gwinclude", "!a.txt\n"), (".gwinclude", "a.txt\n")], &files);
    assert_eq!(selected, strings(&[".gwinclude", "a.txt", "sub/.gwinclude", "subx/a.txt"]));
    let selected = select(&[(".gwinclude", "!a.txt\n"), ("sub/.gwinclude", "a.txt\n")], &files);
    assert_eq!(selected, strings(&[".gwinclude", "sub/.gwinclude", "sub/a.txt", "sub/deep/a.txt"]));
}

#[test]
fn deeper_marker_can_bring_back_what_a_shallower_one_rejected() {
    let files = ["x/y/keep.bin", "x/other.bin", "top.bin"];
    let selected = select(
        &[("x/y/.gwinclude", "keep.bin"), (".gwinclude", "*.bin"), ("x/.gwinclude", "!*.bin")],
        &files,
    );
    assert_eq!(selected, strings(&[".gwinclude", "top.bin", "x/.gwinclude", "x/y/.gwinclude", "x/y/keep.bin"]));
}

#[test]
fn markers_are_read_shallow_first_then_by_path() {
    let markers = vec![
        marker("b/.gwinclude", "three"),
        marker("a/b/.gwinclude", "four"),
        marker(".gwinclude", "one"),
        marker("a/.gwinclude", "two"),
        marker("a-b/.gwinclude", "five"),
    ];
    let patterns = parse_gwinclude_files(&markers);
    let raws: Vec<String> = patterns.iter().map(|p| p.raw.clone()).collect();
    assert_eq!(raws, strings(&["one", "two", "five", "three", "four"]));
    let bases: Vec<String> = patterns.iter().map(|p| p.base_dir.clone()).collect();
    assert_eq!(bases, strings(&["", "a", "a-b", "b", "a/b"]));
}

#[test]
fn anchored_rule_matches_at_the_top_only() {
    assert!(rule_matches("/config", "config"));
    assert!(!rule_matches("/config", "sub/config"));
    assert!(rule_matches("config", "sub/config"));
    assert!(rule_matches("config", "config/x"));
    let selected = select(&[(".gwinclude", "/config\n")], &["config", "sub/config"]);
    assert_eq!(selected, strings(&[".gwinclude", "config"]));
}

#[test]
fn directory_rule_matches_ancestors_only() {
    assert!(rule_matches("build/", "build/out.o"));
    assert!(rule_matches("build/", "a/build/b/out.o"));
    assert!(!rule_matches("build/", "build"));
    assert!(!rule_matches("build/", "a/build"));
    assert!(rule_matches("/build/", "build/x"));
    assert!(!rule_matches("/build/", "a/build/x"));
    assert!(rule_matches("a/b/", "a/b/c"));
    assert!(!rule_matches("a/b/", "x/a/b/c"));
    assert!(rule_matches("build///", "build/x"));
}

#[test]
fn rule_with_separator_is_matched_from_the_start() {
    assert!(rule_matches("a/**/b", "a/x/b"));
    assert!(rule_matches("a/**/b", "a/x/y/b"));
    assert!(!rule_matches("a/**/b", "a/b"));
    assert!(!rule_matches("a/**/b", "z/a/x/b"));
    assert!(rule_matches("src/*.rs", "src/lib.rs"));
    assert!(!rule_matches("src/*.rs", "src/a/lib.rs"));
}

#[test]
fn marker_lines_are_read_with_their_marks() {
    assert!(parse_gwinclude_line("", "").is_none());
    assert!(parse_gwinclude_line("", "   ").is_none());
    assert!(parse_gwinclude_line("", "# note").is_none());
    assert!(parse_gwinclude_line("", "  #note").is_none());
    assert!(parse_gwinclude_line("", "!").is_none());
    assert!(parse_gwinclude_line("", "/").is_none());
    assert!(parse_gwinclude_line("", "!//").is_none());
    let p = parse_gwinclude_line("dir", "  !  /a/b//  ").expect("a rule");
    assert_eq!(p.base_dir, "dir");
    assert!(!p.selects);
    assert!(p.anchored);
    assert!(p.dir_only);
    assert!(p.has_slash);
    assert_eq!(p.raw, "a/b");
    let p = parse_gwinclude_line("", "*.rs").expect("a rule");
    assert!(p.selects && !p.anchored && !p.dir_only && !p.has_slash);
    assert_eq!(p.raw, "*.rs");
}

#[test]
fn marker_files_and_descriptor_are_always_selected() {
    let markers = vec![marker(".gwinclude", "# nothing\n"), marker("sub/.gwinclude", "!*\n")];
    let files = strings(&["sub/.gwinclude", ".gwinclude", "Dockerfile", "x"]);
    assert_eq!(
        build_gwinclude_file_list(&files, &markers, true),
        strings(&[".gwinclude", "Dockerfile", "sub/.gwinclude"])
    );
    assert_eq!(build_gwinclude_file_list(&files, &markers, false), strings(&[".gwinclude", "sub/.gwinclude"]));
    assert_eq!(build_gwinclude_file_list(&Vec::new(), &Vec::new(), false), Vec::<String>::new());
}

#[test]
fn selected_files_come_in_order_each_once() {
    let selected = select(&[(".gwinclude", "*\n")], &["b", "a/z", "a", "B", "a-b", "b", "é", "a/b"]);
    assert_eq!(selected, strings(&[".gwinclude", "B", "a", "a-b", "a/b", "a/z", "b", "é"]));
}

#[test]
fn selection_is_repeatable() {
    let files = ["src/a.rs", "src/b.rs", "target/x", ".gwinclude"];
    let markers = [(".gwinclude", "src/\n!b.rs\n")];
    let first = select(&markers, &files);
    let second = select(&markers, &files);
    assert_eq!(first, second);
    assert_eq!(first, strings(&[".gwinclude", "src/a.rs"]));
    let contents = vec![Some(b"marker".to_vec()), Some(b"a".to_vec())];
    assert_eq!(compute_sha(&contents), compute_sha(&contents));
}

#[test]
fn selection_ignores_the_order_of_the_walk() {
    let markers = [(".gwinclude", "*.rs\n!gen/\n"), ("gen/keep/.gwinclude", "*.rs\n")];
    let one = select(&markers, &["a.rs", "gen/b.rs", "gen/keep/c.rs", "z/y.rs", "n.txt"]);
    let other = select(&markers, &["z/y.rs", "n.txt", "gen/keep/c.rs", "a.rs", "gen/b.rs", "a.rs"]);
    assert_eq!(one, other);
    assert_eq!(one, strings(&[".gwinclude", "a.rs", "gen/keep/.gwinclude", "gen/keep/c.rs", "z/y.rs"]));
}

#[test]
fn gw_selects_applies_rules_in_order() {
    let patterns = parse_gwinclude_files(&vec![marker(".gwinclude", "*.log\n!keep.log\n")]);
    assert!(!gw_selects(&patterns, "keep.log"));
    assert!(gw_selects(&patterns, "other.log"));
    assert!(!gw_selects(&patterns, "readme"));
    assert!(!gw_selects(&Vec::new(), "readme"));
}

#[test]
fn walk_entries_are_split_into_candidates_and_markers() {
    let entries = strings(&["a", ".gwinclude", "sub/.gwinclude", "sub/x.gwinclude", ".gwinclude/x"]);
    let (files, markers) = collect_files(&entries);
    assert_eq!(files, entries);
    assert_eq!(markers, strings(&[".gwinclude", "sub/.gwinclude"]));
}

#[test]
fn legacy_file_must_start_with_a_star() {
    for content in ["", "\n", "\n\r\n", " *\n", "* \n", "**\n", "!a\n", "# c\n*\n", "*x\n", "\n \n*\n"] {
        let err = parse_dockerignore(content).err().expect("expected refusal");
        assert_eq!(err.to_string(), LEGACY_ERROR);
    }
    assert!(parse_dockerignore("*").unwrap().is_empty());
    assert!(parse_dockerignore("*\n").unwrap().is_empty());
    assert!(parse_dockerignore("*\r\n").unwrap().is_empty());
    assert!(parse_dockerignore("\n*\n").unwrap().is_empty());
    assert_eq!(parse_dockerignore("\r\n\n*\n!a").unwrap().len(), 1);
}

#[test]
fn legacy_lines_must_be_negations() {
    for content in ["*\nkeep.txt\n", "*\n\n", "*\n!a\n\n!b\n", "*\n!\n", "*\n!   \n", "*\n!/\n", "*\n !a\n", "*\n# c\n"] {
        let err = parse_dockerignore(content).err().expect("expected refusal");
        assert_eq!(err.to_string(), LEGACY_ERROR);
    }
    let patterns = parse_dockerignore("*\n!keep.txt\n! /src/ \n!a/**/b").unwrap();
    let raws: Vec<String> = patterns.iter().map(|p| p.raw.clone()).collect();
    assert_eq!(raws, strings(&["keep.txt", "src", "a/**/b"]));
    let dirs: Vec<bool> = patterns.iter().map(|p| p.dir_only).collect();
    assert_eq!(dirs, vec![false, true, false]);
}

#[test]
fn legacy_rules_match_leading_runs_of_components() {
    let patterns = parse_dockerignore("*\n!src\n!docs/\n!*.toml").unwrap();
    assert!(dockerignore_includes("src", &patterns));
    assert!(dockerignore_includes("src/a/b.rs", &patterns));
    assert!(!dockerignore_includes("x/src", &patterns));
    assert!(dockerignore_includes("docs/a.md", &patterns));
    assert!(!dockerignore_includes("docs", &patterns));
    assert!(dockerignore_includes("Cargo.toml", &patterns));
    assert!(!dockerignore_includes("sub/Cargo.toml", &patterns));
    assert!(!dockerignore_includes("src", &Vec::new()));
    assert!(!dockerignore_includes("", &patterns));
}

#[test]
fn legacy_file_list_holds_descriptor_and_ignore_file() {
    let files = strings(&["keep.txt", "skip.txt", ".dockerignore", "Dockerfile"]);
    assert_eq!(
        build_dockerignore_file_list(&files, "*\n!keep.txt\n", true, true).unwrap(),
        strings(&[".dockerignore", "Dockerfile", "keep.txt"])
    );
    assert_eq!(
        build_dockerignore_file_list(&files, "*\n!keep.txt\n", false, false).unwrap(),
        strings(&["keep.txt"])
    );
    assert_eq!(
        build_dockerignore_file_list(&files, "keep.txt\n", true, true).err().expect("refused").to_string(),
        LEGACY_ERROR
    );
}

#[test]
fn mode_follows_the_file_that_exists() {
    assert_eq!(detect_context_mode(true, true).unwrap(), ContextMode::GwInclude);
    assert_eq!(detect_context_mode(true, false).unwrap(), ContextMode::GwInclude);
    assert_eq!(detect_context_mode(false, true).unwrap(), ContextMode::DockerIgnore);
    assert_eq!(detect_context_mode(false, false).err().expect("refused").to_string(), MODE_ERROR);
}

#[test]
fn fingerprint_file_is_named_by_one_value() {
    let mut params = Params::new();
    assert_eq!(load_from_config("/root", &params).unwrap(), None);
    params.insert("version_by_build_context".to_string(), strings(&[".context.sha"]));
    assert_eq!(load_from_config("/root", &params).unwrap(), Some("/root/.context.sha".to_string()));
    params.insert("version_by_build_context".to_string(), strings(&["/abs/sha"]));
    assert_eq!(load_from_config("/root", &params).unwrap(), Some("/abs/sha".to_string()));
    params.insert("version_by_build_context".to_string(), Vec::new());
    assert_eq!(load_from_config("/root", &params).err().expect("refused").to_string(), MODE_ERROR);
    params.insert("version_by_build_context".to_string(), strings(&["a", "b"]));
    assert_eq!(load_from_config("/root", &params).err().expect("refused").to_string(), MODE_ERROR);
}

#[test]
fn digest_is_one_hash_over_all_regular_files() {
    let contents = vec![Some(b"hello ".to_vec()), None, Some(Vec::new()), Some(b"world".to_vec())];
    assert_eq!(compute_sha(&contents), "2aae6c35c94fcfb415dbe95f408b9ce91ee846ed");
    assert_eq!(compute_sha(&Vec::new()), "da39a3ee5e6b4b0d3255bfef95601890afd80709");
    assert_eq!(compute_sha(&vec![None]), "da39a3ee5e6b4b0d3255bfef95601890afd80709");
    assert_ne!(compute_sha(&vec![Some(b"a".to_vec())]), compute_sha(&vec![Some(b"b".to_vec())]));
}

#[test]
fn bytes_are_written_in_lower_case_hex() {
    assert_eq!(to_hex(&vec![0x00, 0x0f, 0xa0, 0xff, 0x7b]), "000fa0ff7b");
    assert_eq!(to_hex(&Vec::new()), "");
}

#[test]
fn fingerprint_file_text_round_trips() {
    let files = strings(&[".gwinclude", "src/a.rs"]);
    let text = write_sha_file("abc123", &files);
    assert_eq!(text, "abc123\n.gwinclude\nsrc/a.rs");
    assert_eq!(write_sha_file("abc123", &Vec::new()), "abc123\n");
    assert_eq!(read_sha_file("/r/.sha", &text).unwrap(), "abc123");
    assert_eq!(read_sha_file("/r/.sha", "  abc  \r\nx").unwrap(), "  abc  ");
    assert_eq!(read_sha_file("/r/.sha", "").err().expect("refused").to_string(), "Error: sha file /r/.sha is empty");
    assert!(!is_sha_file_dirty(&Some(text), &files, T0, &vec![Some(T0), Some(T0)]));
}

#[test]
fn cache_is_dirty_when_absent_or_list_differs() {
    let files = strings(&["a", "b"]);
    let stamps = vec![Some(T0), Some(T0)];
    assert!(is_sha_file_dirty(&None, &files, T0, &stamps));
    assert!(is_sha_file_dirty(&Some(String::new()), &files, T0, &stamps));
    assert!(is_sha_file_dirty(&Some("sha\na".to_string()), &files, T0, &stamps));
    assert!(is_sha_file_dirty(&Some("sha\nb\na".to_string()), &files, T0, &stamps));
    assert!(is_sha_file_dirty(&Some("sha\na\nb\nc".to_string()), &files, T0, &stamps));
    assert!(is_sha_file_dirty(&Some("sha\na\nB".to_string()), &files, T0, &stamps));
    assert!(!is_sha_file_dirty(&Some("sha\na\nb".to_string()), &files, T0, &stamps));
    assert!(is_sha_file_dirty(&Some("sha\n a \nb\n".to_string()), &files, T0, &stamps));
    assert!(is_sha_file_dirty(&Some("sha\n a\nb".to_string()), &files, T0, &stamps));
    assert!(!is_sha_file_dirty(&Some("sha\na\nb\n".to_string()), &files, T0, &stamps));
    assert!(!is_sha_file_dirty(&Some("sha\r\na\r\nb\r\n".to_string()), &files, T0, &stamps));
    assert!(!is_sha_file_dirty(&Some("sha\n".to_string()), &Vec::new(), T0, &Vec::new()));
    assert!(is_list_current(&Some("sha\na\nb".to_string()), &files));
    assert!(!is_list_current(&Some("sha\na".to_string()), &files));
    assert!(!is_list_current(&None, &files));
}

#[test]
fn cache_is_dirty_when_a_file_is_newer_or_cannot_be_examined() {
    let files = strings(&["a", "b"]);
    let stored = Some("sha\na\nb".to_string());
    let older = Stamp { secs: 99, nanos: 999_999_999 };
    let newer_nanos = Stamp { secs: 100, nanos: 6 };
    let newer_secs = Stamp { secs: 101, nanos: 0 };
    assert!(!is_sha_file_dirty(&stored, &files, T0, &vec![Some(older), Some(T0)]));
    assert!(is_sha_file_dirty(&stored, &files, T0, &vec![Some(older), Some(newer_nanos)]));
    assert!(is_sha_file_dirty(&stored, &files, T0, &vec![Some(newer_secs), Some(older)]));
    assert!(is_sha_file_dirty(&stored, &files, T0, &vec![Some(older), None]));
    assert!(is_sha_file_dirty(&stored, &files, T0, &vec![Some(older)]));
    assert!(!is_sha_file_dirty(&stored, &files, Stamp { secs: -5, nanos: 0 }, &vec![
        Some(Stamp { secs: -6, nanos: 7 }),
        Some(Stamp { secs: -5, nanos: 0 })
    ]));
}

#[test]
fn clean_cache_trusts_times_not_content() {
    let files = strings(&["a"]);
    let stored = Some("cafe\na".to_string());
    let stamps = vec![Some(T0)];
    let full = vec![Some(b"content".to_vec())];
    let truncated = vec![Some(Vec::new())];
    let first = build_context_sha("/r", ".sha", ContextMode::GwInclude, files.clone(), &stored, T0, &stamps, &full);
    let second =
        build_context_sha("/r", ".sha", ContextMode::GwInclude, files.clone(), &stored, T0, &stamps, &truncated);
    assert_eq!(first.sha, "cafe");
    assert_eq!(second.sha, "cafe");
    assert_eq!(first.files, files);
    assert_eq!(first.sha_file, "/r/.sha");
    assert_eq!(first.mode, ContextMode::GwInclude);
}

#[test]
fn names_with_white_space_at_their_ends_keep_a_clean_cache() {
    let files = strings(&[" a", "b "]);
    let stored = Some(write_sha_file("d", &files));
    assert_eq!(stored.as_deref(), Some("d\n a\nb "));
    let stamps = vec![Some(T0), Some(T0)];
    assert!(is_list_current(&stored, &files));
    assert!(!is_sha_file_dirty(&stored, &files, T0, &stamps));
    let present = vec![Some(b"now".to_vec()), Some(Vec::new())];
    let context =
        build_context_sha("/r", ".sha", ContextMode::GwInclude, files.clone(), &stored, T0, &stamps, &present);
    assert_eq!(context.sha, "d");
    assert_eq!(context.files, files);
}

#[test]
fn stored_line_that_differs_by_white_space_is_stale() {
    let files = strings(&["a"]);
    let stored = Some("d\n a".to_string());
    let stamps = vec![Some(T0)];
    assert!(is_sha_file_dirty(&stored, &files, T0, &stamps));
    let present = vec![Some(b"hello world".to_vec())];
    let context = build_context_sha("/r", ".sha", ContextMode::GwInclude, files, &stored, T0, &stamps, &present);
    assert_eq!(context.sha, "2aae6c35c94fcfb415dbe95f408b9ce91ee846ed");
}

#[test]
fn stored_digest_is_read_as_it_stands() {
    let files = strings(&["a"]);
    let stored = Some(" d \na".to_string());
    let context =
        build_context_sha("/r", ".sha", ContextMode::GwInclude, files, &stored, T0, &vec![Some(T0)], &Vec::new());
    assert_eq!(context.sha, " d ");
}

#[test]
fn dirty_cache_is_recomputed_from_content() {
    let files = strings(&["a"]);
    let full = vec![Some(b"hello world".to_vec())];
    let context =
        build_context_sha("/r", "/abs/.sha", ContextMode::DockerIgnore, files.clone(), &None, T0, &Vec::new(), &full);
    assert_eq!(context.sha, "2aae6c35c94fcfb415dbe95f408b9ce91ee846ed");
    assert_eq!(context.sha_file, "/abs/.sha");
    assert_eq!(context.mode, ContextMode::DockerIgnore);
    let stale = Some("cafe\na".to_string());
    let later = vec![Some(Stamp { secs: 200, nanos: 0 })];
    let context = build_context_sha("/r", ".sha", ContextMode::GwInclude, files, &stale, T0, &later, &full);
    assert_eq!(context.sha, "2aae6c35c94fcfb415dbe95f408b9ce91ee846ed");
}

#[test]
fn end_to_end_legacy_project() {
    let marker_bytes = b"*\n!keep.txt\n".to_vec();
    let keep_bytes = b"kept content\n".to_vec();
    let walked = strings(&["skip.txt", "keep.txt", ".dockerignore", ".giftwrap"]);

    let config = giftwrap::config::load_from("/p", "/p/.giftwrap", "gw_container app\n", &Vec::new()).unwrap();
    let mode = detect_context_mode(false, true).unwrap();
    assert_eq!(mode, ContextMode::DockerIgnore);
    let (files, _) = collect_files(&walked);
    let selected = build_dockerignore_file_list(&files, "*\n!keep.txt\n", false, true).unwrap();
    assert_eq!(selected, strings(&[".dockerignore", "keep.txt"]));

    let contents = vec![Some(marker_bytes.clone()), Some(keep_bytes.clone())];
    let context = build_context_sha("/p", ".sha", mode, selected, &None, T0, &Vec::new(), &contents);

    let mut hasher = Sha1::new();
    hasher.update(&marker_bytes);
    hasher.update(&keep_bytes);
    let expected = format!("{:x}", hasher.finalize());
    assert_eq!(context.sha, expected);

    let image = select_image(&config.params, Some(context.sha.as_str()), None).unwrap();
    assert_eq!(image, format!("app:{expected}"));
}

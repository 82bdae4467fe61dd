use std::path::{Component, Path, PathBuf};

use giftwrap::agent::home_base;
use giftwrap::context::{parse_gwinclude_files, PatternFile};
use giftwrap::paths::{abs_path, path_to_slash, relative_to, starts_with_path};

const SAMPLES: [&str; 28] = [
    "", "/", "a", "/a", "a/b", "/a/b", "a/", "/a/b/", "a//b", "/a/./b", "a/../b", "/a-b", "/a/b-c", "ab", "/ab/c",
    "a/b/c", ".", "./", "./a", "./a/b", "..", "../a", "a/.", "/.", "//a", ".a", "a/./", "./.",
];

#[test]
fn joining_agrees_with_the_standard_paths() {
    for root in SAMPLES {
        for path in SAMPLES {
            let expected = Path::new(root).join(path).to_string_lossy().into_owned();
            assert_eq!(abs_path(path, root), expected, "{path:?} seen from {root:?}");
        }
    }
}

#[test]
fn prefix_test_agrees_with_the_standard_paths() {
    for base in SAMPLES {
        for path in SAMPLES {
            let expected = Path::new(path).starts_with(base);
            assert_eq!(starts_with_path(path, base), expected, "{path:?} under {base:?}");
        }
    }
}

#[test]
fn slash_form_agrees_with_the_standard_components() {
    for path in SAMPLES {
        let mut parts: Vec<String> = Vec::new();
        for comp in Path::new(path).components() {
            if let Component::Normal(os) = comp {
                parts.push(os.to_string_lossy().into_owned());
            }
        }
        assert_eq!(path_to_slash(path), parts.join("/"), "slash form of {path:?}");
    }
}

#[test]
fn home_base_agrees_with_the_standard_parent() {
    let homes = [
        "/tmp/dr-tmp-home-u/u", "/u", "/", "u", "a/b", "/a/b/c", "", "//", "/home/u/", "/home//u//", "a/./b",
        "./u", ".", "..", "/..", "a/b/.", "a/b/./", "/.", "/./", "u/", "./", "a//b/c", "/a/./b/", "a/..", "/a/.b",
        "a/b./", "./.", "././u", "/tmp/dr-tmp-home-/",
    ];
    for home in homes {
        let expected = Path::new(home)
            .parent()
            .map(|p| p.to_string_lossy().into_owned())
            .unwrap_or_else(|| "/".to_string());
        assert_eq!(home_base(home), expected, "base of {home:?}");
    }
}

#[test]
fn reading_order_agrees_with_sorting_by_depth_then_path() {
    let dirs = ["", "a", "b", "a/b", "a-b", "a/b/c", "ab", "a b", "A", "z/y", "a/a", "é", "a/é", "b/a"];
    let mut paths: Vec<PathBuf> = dirs.iter().map(|d| Path::new(d).join(".gwinclude")).collect();
    paths.reverse();
    let markers: Vec<PatternFile> = paths
        .iter()
        .map(|p| {
            let path = p.to_string_lossy().into_owned();
            PatternFile { content: format!("{path}\n"), path }
        })
        .collect();
    let read: Vec<String> =
        parse_gwinclude_files(&markers).iter().map(|p| format!("{}/{}", p.base_dir, p.raw)).collect();

    let mut sorted = paths.clone();
    sorted.sort_by(|a, b| {
        let depth_a = a.parent().map(|p| p.components().count()).unwrap_or(0);
        let depth_b = b.parent().map(|p| p.components().count()).unwrap_or(0);
        depth_a.cmp(&depth_b).then_with(|| a.cmp(b))
    });
    let expected: Vec<String> = sorted
        .iter()
        .map(|p| {
            let path = p.to_string_lossy().into_owned();
            let base = p.parent().map(|d| d.to_string_lossy().into_owned()).unwrap_or_default();
            format!("{base}/{path}")
        })
        .collect();
    assert_eq!(read, expected);
}

#[test]
fn scoping_agrees_with_the_standard_paths_on_slash_paths() {
    let paths = ["", "a", "ab", "a/b", "a/b/c", "a-b/c", "b/a", "a/bc", ".gwinclude", "a/.gwinclude"];
    for base in paths {
        for path in paths {
            let expected = Path::new(path)
                .strip_prefix(base)
                .ok()
                .map(|rel| rel.to_string_lossy().into_owned());
            let path_chars: Vec<char> = path.chars().collect();
            let base_chars: Vec<char> = base.chars().collect();
            let got = relative_to(&path_chars, &base_chars).map(|rel| rel.iter().collect::<String>());
            assert_eq!(got, expected, "{path:?} under {base:?}");
        }
    }
}

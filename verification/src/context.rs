//! The build context: which files of a project tree make up its
//! fingerprint, under the rules of its marker files or of a legacy ignore
//! file.

pub use crate::fingerprint::{
    build_context_sha, compute_sha, is_list_current, is_sha_file_dirty, read_sha_file,
    write_sha_file,
};
use crate::order::{insert_sorted, set_insert};
use crate::params::Params;
use crate::paths::{
    abs_path, abs_path_of, depth_of, file_name, file_name_of, parent_dir, parent_of, path_before,
    path_depth, path_less,
};
use crate::pattern::{
    docker_rules, docker_rules_of_text, gw_rules, gw_rules_of_text, parse_dockerignore_text,
    parse_gwinclude_text, DockerPattern, DockerRule, GwPattern, GwRule,
};
use crate::select::{
    base_dirs, docker_selected, docker_selects_chars, gw_selected, gw_selects_chars, insert_all,
    insert_kept, insert_selected, strings_of,
};
use crate::text::{chars_of, same_chars, vec_views, views};
use vstd::prelude::*;

verus! {

/// The name of a marker file.
pub const MARKER_NAME: &'static str = ".gwinclude";

/// The name of the legacy ignore file.
pub const LEGACY_NAME: &'static str = ".dockerignore";

/// The name of the build descriptor that is selected whenever it is there.
pub const DESCRIPTOR_NAME: &'static str = "Dockerfile";

/// The parameter that names the fingerprint file.
pub const CONTEXT_KEY: &'static str = "version_by_build_context";

/// What is reported where the fingerprint is asked for and cannot be had.
pub const MODE_ERROR: &'static str =
    "Error: version_by_build_context requires a .gwinclude (or legacy .dockerignore) file";

/// What is reported where a legacy ignore file breaks its grammar.
pub const LEGACY_ERROR: &'static str =
    "Error: docker ignore must start with '*', each following line must start with '!'";

/// Which grammar selects the files.
#[derive(Debug, Clone, Copy, PartialEq, Eq)]
pub enum ContextMode {
    /// Marker files with rules that select and reject.
    GwInclude,
    /// One legacy ignore file with negation lines.
    DockerIgnore,
}

/// Why the build context could not be fingerprinted.
#[derive(Debug)]
pub struct ContextError {
    message: String,
}

impl View for ContextError {
    type V = Seq<char>;

    closed spec fn view(&self) -> Seq<char> {
        self.message@
    }
}

impl ContextError {
    /// An error with the given message.
    pub fn new(message: &str) -> (r: ContextError)
        ensures
            r@ == message@,
    {
        ContextError { message: message.to_owned() }
    }

    /// The message.
    pub fn to_string(&self) -> (r: String)
        ensures
            r@ == self@,
    {
        self.message.clone()
    }
}

/// The fingerprint of a build context.
#[derive(Debug, Clone)]
pub struct ContextSha {
    /// The digest, in hexadecimal.
    pub sha: String,
    /// The selected files, relative to the project root, in order.
    pub files: Vec<String>,
    /// The file that holds the fingerprint.
    pub sha_file: String,
    /// The grammar that selected the files.
    pub mode: ContextMode,
}

/// A marker file: where it lies, relative to the project root, and its text.
#[derive(Debug, Clone)]
pub struct PatternFile {
    pub path: String,
    pub content: String,
}

/// A marker file as a mathematical value.
pub struct MarkerText {
    pub path: Seq<char>,
    pub content: Seq<char>,
}

impl View for PatternFile {
    type V = MarkerText;

    open spec fn view(&self) -> MarkerText {
        MarkerText { path: self.path@, content: self.content@ }
    }
}

/// The marker files that a vector of them stands for.
pub open spec fn marker_texts(v: Seq<PatternFile>) -> Seq<MarkerText> {
    Seq::new(v.len(), |i: int| v[i]@)
}

/// The paths of marker files.
pub open spec fn marker_paths(ms: Seq<MarkerText>) -> Seq<Seq<char>> {
    Seq::new(ms.len(), |i: int| ms[i].path)
}

/// Whether the marker file at `a` is read before the one at `b`: the one in
/// the shallower directory first, and of two equally deep the one whose
/// path comes first.
pub open spec fn marker_before(a: Seq<char>, b: Seq<char>) -> bool {
    let da = depth_of(parent_of(a));
    let db = depth_of(parent_of(b));
    da < db || (da == db && path_less(a, b))
}

fn reads_before(a: &Vec<char>, b: &Vec<char>) -> (r: bool)
    ensures
        r == marker_before(a@, b@),
{
    let da = path_depth(&parent_dir(a));
    let db = path_depth(&parent_dir(b));
    if da != db {
        da < db
    } else {
        path_before(a, b)
    }
}

/// `s`, which is in reading order, with `m` put at its place: after every
/// marker file that is not to be read after it.
pub open spec fn marker_insert(s: Seq<MarkerText>, m: MarkerText) -> Seq<MarkerText>
    decreases s.len(),
{
    if s.len() > 0 && marker_before(m.path, s.last().path) {
        marker_insert(s.drop_last(), m).push(s.last())
    } else {
        s.push(m)
    }
}

/// The marker files in reading order.
pub open spec fn reading_order(ms: Seq<MarkerText>) -> Seq<MarkerText>
    decreases ms.len(),
{
    if ms.len() == 0 {
        seq![]
    } else {
        marker_insert(reading_order(ms.drop_last()), ms.last())
    }
}

/// The rules of marker files, taken in the order given.
pub open spec fn rules_in_order(ms: Seq<MarkerText>) -> Seq<GwRule>
    decreases ms.len(),
{
    if ms.len() == 0 {
        seq![]
    } else {
        rules_in_order(ms.drop_last()) + gw_rules_of_text(
            parent_of(ms.last().path),
            ms.last().content,
        )
    }
}

/// The rules of a project's marker files: those of shallower files first,
/// so that a rule from deeper down has the last word below its directory.
pub open spec fn gw_rules_of(ms: Seq<MarkerText>) -> Seq<GwRule> {
    rules_in_order(reading_order(ms))
}

/// The positions of `markers` in reading order.
fn sort_markers(markers: &Vec<PatternFile>) -> (order: Vec<usize>)
    ensures
        order.len() == markers.len(),
        forall|k: int| 0 <= k < order.len() ==> (#[trigger] order@[k]) < markers.len(),
        Seq::new(order.len() as nat, |k: int| markers@[order@[k] as int]@) == reading_order(
            marker_texts(markers@),
        ),
{
    let ghost ms = marker_texts(markers@);
    let mut order: Vec<usize> = Vec::new();
    let mut paths: Vec<Vec<char>> = Vec::new();
    let mut i: usize = 0;
    assert(Seq::new(order.len() as nat, |k: int| markers@[order@[k] as int]@) =~= reading_order(
        ms.take(0),
    ));
    while i < markers.len()
        invariant
            i <= markers.len(),
            ms == marker_texts(markers@),
            order.len() == i,
            paths.len() == i,
            forall|k: int| 0 <= k < order.len() ==> (#[trigger] order@[k]) < markers.len(),
            forall|k: int|
                0 <= k < order.len() ==> (#[trigger] paths@[k])@ == markers@[order@[k] as int].path@,
            Seq::new(order.len() as nat, |k: int| markers@[order@[k] as int]@) == reading_order(
                ms.take(i as int),
            ),
        decreases markers.len() - i,
    {
        let ghost sorted = Seq::new(order.len() as nat, |k: int| markers@[order@[k] as int]@);
        let ghost m = markers@[i as int]@;
        assert(ms.take(i + 1).drop_last() == ms.take(i as int));
        assert(ms.take(i + 1).last() == m);
        let path = chars_of(markers[i].path.as_str());
        let mut p: usize = order.len();
        assert(sorted.take(p as int) == sorted);
        assert(sorted.skip(p as int) == Seq::<MarkerText>::empty());
        assert(marker_insert(sorted, m) == marker_insert(sorted.take(p as int), m) + sorted.skip(
            p as int,
        ));
        while p > 0 && reads_before(&path, &paths[p - 1])
            invariant
                p <= order.len(),
                order.len() == paths.len(),
                path@ == m.path,
                sorted == Seq::new(order.len() as nat, |k: int| markers@[order@[k] as int]@),
                forall|k: int| 0 <= k < order.len() ==> (#[trigger] order@[k]) < markers.len(),
                forall|k: int|
                    0 <= k < order.len() ==> (#[trigger] paths@[k])@ == markers@[order@[k] as int].path@,
                marker_insert(sorted, m) == marker_insert(sorted.take(p as int), m) + sorted.skip(
                    p as int,
                ),
            decreases p,
        {
            let ghost head = sorted.take(p as int);
            assert(head.last() == sorted[p - 1]);
            assert(head.last().path == paths@[p - 1]@);
            assert(head.drop_last() == sorted.take(p - 1));
            assert(marker_insert(head, m) == marker_insert(sorted.take(p - 1), m).push(
                sorted[p - 1],
            ));
            assert(seq![sorted[p - 1]] + sorted.skip(p as int) == sorted.skip(p - 1));
            assert(marker_insert(sorted.take(p - 1), m).push(sorted[p - 1]) + sorted.skip(
                p as int,
            ) == marker_insert(sorted.take(p - 1), m) + sorted.skip(p - 1));
            p -= 1;
        }
        proof {
            let head = sorted.take(p as int);
            if p > 0 {
                assert(head.last() == sorted[p - 1]);
                assert(head.last().path == paths@[p - 1]@);
            }
            assert(marker_insert(head, m) == head.push(m));
        }
        order.insert(p, i);
        paths.insert(p, path);
        assert(Seq::new(order.len() as nat, |k: int| markers@[order@[k] as int]@) =~= sorted.take(
            p as int,
        ).push(m) + sorted.skip(p as int));
        i += 1;
    }
    assert(ms.take(markers.len() as int) == ms);
    order
}

/// The rules of the project's marker files, those of shallower files first.
pub fn parse_gwinclude_files(markers: &Vec<PatternFile>) -> (patterns: Vec<GwPattern>)
    ensures
        gw_rules(patterns@) == gw_rules_of(marker_texts(markers@)),
{
    let order = sort_markers(markers);
    let ghost sorted = reading_order(marker_texts(markers@));
    let mut patterns: Vec<GwPattern> = Vec::new();
    let mut k: usize = 0;
    assert(gw_rules(patterns@) =~= rules_in_order(sorted.take(0)));
    while k < order.len()
        invariant
            k <= order.len(),
            order.len() == markers.len(),
            forall|j: int| 0 <= j < order.len() ==> (#[trigger] order@[j]) < markers.len(),
            sorted == Seq::new(order.len() as nat, |j: int| markers@[order@[j] as int]@),
            gw_rules(patterns@) == rules_in_order(sorted.take(k as int)),
        decreases order.len() - k,
    {
        let marker = &markers[order[k]];
        assert(sorted.take(k + 1).drop_last() == sorted.take(k as int));
        assert(sorted.take(k + 1).last() == marker@);
        let path = chars_of(marker.path.as_str());
        let base = crate::text::string_of(&parent_dir(&path));
        parse_gwinclude_text(base.as_str(), marker.content.as_str(), &mut patterns);
        k += 1;
    }
    assert(sorted.take(order.len() as int) == sorted);
    patterns
}

/// The rules of a legacy ignore file, or the error where it breaks the
/// grammar.
pub fn parse_dockerignore(content: &str) -> (r: Result<Vec<DockerPattern>, ContextError>)
    ensures
        match r {
            Ok(v) => docker_rules_of_text(content@) == Some(docker_rules(v@)),
            Err(e) => docker_rules_of_text(content@) is None && e@ == LEGACY_ERROR@,
        },
{
    match parse_dockerignore_text(content) {
        Some(v) => Ok(v),
        None => Err(ContextError::new(LEGACY_ERROR)),
    }
}

/// Which grammar a project uses: marker files where the root has one, else
/// the legacy ignore file where the root has that.
pub fn detect_context_mode(has_gwinclude: bool, has_dockerignore: bool) -> (r: Result<
    ContextMode,
    ContextError,
>)
    ensures
        match r {
            Ok(mode) => (has_gwinclude && mode == ContextMode::GwInclude) || (!has_gwinclude
                && has_dockerignore && mode == ContextMode::DockerIgnore),
            Err(e) => !has_gwinclude && !has_dockerignore && e@ == MODE_ERROR@,
        },
{
    if has_gwinclude {
        Ok(ContextMode::GwInclude)
    } else if has_dockerignore {
        Ok(ContextMode::DockerIgnore)
    } else {
        Err(ContextError::new(MODE_ERROR))
    }
}

/// Whether the file at `path` is a marker file: its name is the marker name.
pub open spec fn is_marker(path: Seq<char>) -> bool {
    file_name_of(path) == MARKER_NAME@
}

/// The paths of `entries` that are marker files, in order.
pub open spec fn markers_among(entries: Seq<Seq<char>>) -> Seq<Seq<char>>
    decreases entries.len(),
{
    if entries.len() == 0 {
        seq![]
    } else if is_marker(entries.last()) {
        markers_among(entries.drop_last()).push(entries.last())
    } else {
        markers_among(entries.drop_last())
    }
}

/// Sorts what a walk of the project tree found, the regular files and
/// symbolic links by their paths relative to the root: all of them are
/// candidates, and those named as markers are also the pattern sources.
pub fn collect_files(entries: &Vec<String>) -> (r: (Vec<String>, Vec<String>))
    ensures
        views(r.0@) == views(entries@),
        views(r.1@) == markers_among(views(entries@)),
{
    let mut files: Vec<String> = Vec::new();
    let mut gwincludes: Vec<String> = Vec::new();
    let marker = chars_of(MARKER_NAME);
    let ghost all = views(entries@);
    let mut i: usize = 0;
    while i < entries.len()
        invariant
            i <= entries.len(),
            all == views(entries@),
            marker@ == MARKER_NAME@,
            views(files@) == all.take(i as int),
            views(gwincludes@) == markers_among(all.take(i as int)),
        decreases entries.len() - i,
    {
        let ghost f0 = views(files@);
        let ghost g0 = views(gwincludes@);
        assert(all.take(i + 1).drop_last() == all.take(i as int));
        assert(all.take(i + 1).last() == entries@[i as int]@);
        let chars = chars_of(entries[i].as_str());
        let name = file_name(&chars);
        if same_chars(&name, &marker) {
            gwincludes.push(entries[i].clone());
            assert(views(gwincludes@) == g0.push(entries@[i as int]@));
        }
        files.push(entries[i].clone());
        assert(views(files@) == f0.push(entries@[i as int]@));
        i += 1;
    }
    assert(all.take(entries.len() as int) == all);
    (files, gwincludes)
}

/// `acc` with the build descriptor put in, where the project has one.
pub open spec fn with_descriptor(acc: Seq<Seq<char>>, has_dockerfile: bool) -> Seq<Seq<char>> {
    if has_dockerfile {
        set_insert(acc, DESCRIPTOR_NAME@)
    } else {
        acc
    }
}

/// The files that marker files select: every candidate that the rules
/// select, the build descriptor where there is one, and every marker file;
/// in order, each once.
pub open spec fn gw_file_list(
    files: Seq<Seq<char>>,
    markers: Seq<MarkerText>,
    has_dockerfile: bool,
) -> Seq<Seq<char>> {
    insert_all(
        with_descriptor(insert_selected(seq![], gw_rules_of(markers), files), has_dockerfile),
        marker_paths(markers),
    )
}

/// The files that a legacy ignore file with the rules `rules` selects: every
/// candidate that a rule matches, the build descriptor where there is one,
/// and the ignore file itself where it is a regular file; in order, each
/// once.
pub open spec fn docker_file_list(
    files: Seq<Seq<char>>,
    rules: Seq<DockerRule>,
    has_dockerfile: bool,
    has_ignore_file: bool,
) -> Seq<Seq<char>> {
    let picked = with_descriptor(insert_kept(seq![], rules, files), has_dockerfile);
    if has_ignore_file {
        set_insert(picked, LEGACY_NAME@)
    } else {
        picked
    }
}

/// The selected files of a project that uses marker files. `files` are the
/// candidates, `markers` the marker files with their text, `has_dockerfile`
/// says whether the root holds a build descriptor that is a regular file.
pub fn build_gwinclude_file_list(
    files: &Vec<String>,
    markers: &Vec<PatternFile>,
    has_dockerfile: bool,
) -> (selected: Vec<String>)
    ensures
        views(selected@) == gw_file_list(views(files@), marker_texts(markers@), has_dockerfile),
{
    let patterns = parse_gwinclude_files(markers);
    let bases = base_dirs(&patterns);
    let ghost rules = gw_rules(patterns@);
    let ghost all = views(files@);
    let mut list: Vec<Vec<char>> = Vec::new();
    let mut i: usize = 0;
    assert(vec_views(list@) =~= insert_selected(seq![], rules, all.take(0)));
    while i < files.len()
        invariant
            i <= files.len(),
            all == views(files@),
            rules == gw_rules(patterns@),
            bases.len() == patterns.len(),
            forall|k: int|
                0 <= k < patterns.len() ==> (#[trigger] bases@[k])@ == patterns@[k].base_dir@,
            vec_views(list@) == insert_selected(seq![], rules, all.take(i as int)),
        decreases files.len() - i,
    {
        assert(all.take(i + 1).drop_last() == all.take(i as int));
        assert(all.take(i + 1).last() == files@[i as int]@);
        let path = chars_of(files[i].as_str());
        if gw_selects_chars(&patterns, &bases, &path) {
            insert_sorted(&mut list, path);
        }
        i += 1;
    }
    assert(all.take(files.len() as int) == all);
    if has_dockerfile {
        insert_sorted(&mut list, chars_of(DESCRIPTOR_NAME));
    }
    let ghost picked = vec_views(list@);
    let ghost mp = marker_paths(marker_texts(markers@));
    let mut k: usize = 0;
    assert(vec_views(list@) == insert_all(picked, mp.take(0)));
    while k < markers.len()
        invariant
            k <= markers.len(),
            mp == marker_paths(marker_texts(markers@)),
            vec_views(list@) == insert_all(picked, mp.take(k as int)),
        decreases markers.len() - k,
    {
        assert(mp.take(k + 1).drop_last() == mp.take(k as int));
        assert(mp.take(k + 1).last() == markers@[k as int].path@);
        insert_sorted(&mut list, chars_of(markers[k].path.as_str()));
        k += 1;
    }
    assert(mp.take(markers.len() as int) == mp);
    strings_of(&list)
}

/// The selected files of a project that uses a legacy ignore file with the
/// text `content`, or the error where the text breaks the grammar.
/// `has_ignore_file` says whether the ignore file is a regular file.
pub fn build_dockerignore_file_list(
    files: &Vec<String>,
    content: &str,
    has_dockerfile: bool,
    has_ignore_file: bool,
) -> (r: Result<Vec<String>, ContextError>)
    ensures
        match r {
            Ok(selected) => docker_rules_of_text(content@) matches Some(rules) && views(selected@)
                == docker_file_list(views(files@), rules, has_dockerfile, has_ignore_file),
            Err(e) => docker_rules_of_text(content@) is None && e@ == LEGACY_ERROR@,
        },
{
    let patterns = match parse_dockerignore(content) {
        Ok(v) => v,
        Err(e) => {
            return Err(e);
        },
    };
    let ghost rules = docker_rules(patterns@);
    let ghost all = views(files@);
    let mut list: Vec<Vec<char>> = Vec::new();
    let mut i: usize = 0;
    assert(vec_views(list@) =~= insert_kept(seq![], rules, all.take(0)));
    while i < files.len()
        invariant
            i <= files.len(),
            all == views(files@),
            rules == docker_rules(patterns@),
            vec_views(list@) == insert_kept(seq![], rules, all.take(i as int)),
        decreases files.len() - i,
    {
        assert(all.take(i + 1).drop_last() == all.take(i as int));
        assert(all.take(i + 1).last() == files@[i as int]@);
        let path = chars_of(files[i].as_str());
        if docker_selects_chars(&path, &patterns) {
            insert_sorted(&mut list, path);
        }
        i += 1;
    }
    assert(all.take(files.len() as int) == all);
    if has_dockerfile {
        insert_sorted(&mut list, chars_of(DESCRIPTOR_NAME));
    }
    if has_ignore_file {
        insert_sorted(&mut list, chars_of(LEGACY_NAME));
    }
    Ok(strings_of(&list))
}

/// Which fingerprint file the configuration asks for, seen from the project
/// root: none where the parameter is not set, an error where it does not
/// have exactly one value.
pub fn load_from_config(root_dir: &str, params: &Params) -> (r: Result<
    Option<String>,
    ContextError,
>)
    ensures
        match r {
            Ok(None) => !params@.contains_key(CONTEXT_KEY@),
            Ok(Some(path)) => params@.contains_key(CONTEXT_KEY@) && params@[CONTEXT_KEY@].len()
                == 1 && path@ == abs_path_of(params@[CONTEXT_KEY@][0], root_dir@),
            Err(e) => params@.contains_key(CONTEXT_KEY@) && params@[CONTEXT_KEY@].len() != 1
                && e@ == MODE_ERROR@,
        },
{
    match params.get(CONTEXT_KEY) {
        None => Ok(None),
        Some(ctx) => {
            assert(views(ctx@).len() == ctx.len());
            if ctx.len() != 1 {
                return Err(ContextError::new(MODE_ERROR));
            }
            assert(views(ctx@)[0] == ctx@[0]@);
            Ok(Some(abs_path(ctx[0].as_str(), root_dir)))
        },
    }
}

/// Putting paths in keeps a list in order and each path once; the list
/// then holds what it held and the paths put in.
pub proof fn lemma_insert_all(acc: Seq<Seq<char>>, items: Seq<Seq<char>>)
    requires
        crate::order::strictly_sorted(acc),
    ensures
        crate::order::strictly_sorted(insert_all(acc, items)),
        forall|y: Seq<char>|
            #[trigger] insert_all(acc, items).contains(y) <==> (acc.contains(y) || items.contains(
                y,
            )),
    decreases items.len(),
{
    if items.len() > 0 {
        let before = insert_all(acc, items.drop_last());
        lemma_insert_all(acc, items.drop_last());
        crate::order::lemma_set_insert(before, items.last());
        assert forall|y: Seq<char>| #[trigger]
            insert_all(acc, items).contains(y) <==> (acc.contains(y) || items.contains(y)) by {
            if items.contains(y) {
                let k = choose|k: int| 0 <= k < items.len() && items[k] == y;
                if k < items.len() - 1 {
                    assert(items.drop_last()[k] == y);
                }
            }
            if items.drop_last().contains(y) {
                let k = choose|k: int| 0 <= k < items.drop_last().len() && items.drop_last()[k] == y;
                assert(items[k] == y);
            }
            if y == items.last() {
                assert(items[items.len() - 1] == y);
            }
            assert(before.contains(y) ==> insert_all(acc, items).contains(y));
        }
    }
}

/// Putting the selected candidates in keeps a list in order and each path
/// once; the list then holds what it held and the candidates that the rules
/// select.
pub proof fn lemma_insert_selected(acc: Seq<Seq<char>>, rules: Seq<GwRule>, files: Seq<Seq<char>>)
    requires
        crate::order::strictly_sorted(acc),
    ensures
        crate::order::strictly_sorted(insert_selected(acc, rules, files)),
        forall|y: Seq<char>|
            #[trigger] insert_selected(acc, rules, files).contains(y) <==> (acc.contains(y) || (
            files.contains(y) && gw_selected(rules, y))),
    decreases files.len(),
{
    if files.len() > 0 {
        let before = insert_selected(acc, rules, files.drop_last());
        lemma_insert_selected(acc, rules, files.drop_last());
        crate::order::lemma_set_insert(before, files.last());
        assert forall|y: Seq<char>| #[trigger]
            insert_selected(acc, rules, files).contains(y) <==> (acc.contains(y) || (files.contains(
                y,
            ) && gw_selected(rules, y))) by {
            if files.contains(y) {
                let k = choose|k: int| 0 <= k < files.len() && files[k] == y;
                if k < files.len() - 1 {
                    assert(files.drop_last()[k] == y);
                }
            }
            if files.drop_last().contains(y) {
                let k = choose|k: int| 0 <= k < files.drop_last().len() && files.drop_last()[k] == y;
                assert(files[k] == y);
            }
            if y == files.last() {
                assert(files[files.len() - 1] == y);
            }
            assert(before.contains(y) ==> set_insert(before, files.last()).contains(y));
        }
    }
}

/// Putting the kept candidates in keeps a list in order and each path
/// once; the list then holds what it held and the candidates that some
/// legacy rule matches.
pub proof fn lemma_insert_kept(acc: Seq<Seq<char>>, rules: Seq<DockerRule>, files: Seq<Seq<char>>)
    requires
        crate::order::strictly_sorted(acc),
    ensures
        crate::order::strictly_sorted(insert_kept(acc, rules, files)),
        forall|y: Seq<char>|
            #[trigger] insert_kept(acc, rules, files).contains(y) <==> (acc.contains(y) || (
            files.contains(y) && docker_selected(rules, y))),
    decreases files.len(),
{
    if files.len() > 0 {
        let before = insert_kept(acc, rules, files.drop_last());
        lemma_insert_kept(acc, rules, files.drop_last());
        crate::order::lemma_set_insert(before, files.last());
        assert forall|y: Seq<char>| #[trigger]
            insert_kept(acc, rules, files).contains(y) <==> (acc.contains(y) || (files.contains(y)
                && docker_selected(rules, y))) by {
            if files.contains(y) {
                let k = choose|k: int| 0 <= k < files.len() && files[k] == y;
                if k < files.len() - 1 {
                    assert(files.drop_last()[k] == y);
                }
            }
            if files.drop_last().contains(y) {
                let k = choose|k: int| 0 <= k < files.drop_last().len() && files.drop_last()[k] == y;
                assert(files[k] == y);
            }
            if y == files.last() {
                assert(files[files.len() - 1] == y);
            }
            assert(before.contains(y) ==> set_insert(before, files.last()).contains(y));
        }
    }
}

/// The list of selected files under marker files is in order, holds no
/// path twice, and holds exactly: the candidates that the rules select, the
/// build descriptor where there is one, and the marker files.
pub proof fn lemma_gw_file_list(
    files: Seq<Seq<char>>,
    markers: Seq<MarkerText>,
    has_dockerfile: bool,
)
    ensures
        crate::order::strictly_sorted(gw_file_list(files, markers, has_dockerfile)),
        forall|y: Seq<char>|
            #[trigger] gw_file_list(files, markers, has_dockerfile).contains(y) <==> ((
            files.contains(y) && gw_selected(gw_rules_of(markers), y)) || (has_dockerfile && y
                == DESCRIPTOR_NAME@) || marker_paths(markers).contains(y)),
{
    let rules = gw_rules_of(markers);
    let none = Seq::<Seq<char>>::empty();
    let picked = insert_selected(none, rules, files);
    lemma_insert_selected(none, rules, files);
    let described = with_descriptor(picked, has_dockerfile);
    if has_dockerfile {
        crate::order::lemma_set_insert(picked, DESCRIPTOR_NAME@);
    }
    lemma_insert_all(described, marker_paths(markers));
    assert forall|y: Seq<char>| #[trigger]
        gw_file_list(files, markers, has_dockerfile).contains(y) <==> ((files.contains(y)
            && gw_selected(rules, y)) || (has_dockerfile && y == DESCRIPTOR_NAME@) || marker_paths(
            markers,
        ).contains(y)) by {
        assert(!none.contains(y));
        assert(picked.contains(y) <==> (files.contains(y) && gw_selected(rules, y)));
        assert(described.contains(y) <==> (picked.contains(y) || (has_dockerfile && y
            == DESCRIPTOR_NAME@)));
    }
}

/// The list of selected files under a legacy ignore file is in order, holds
/// no path twice, and holds exactly: the candidates that some rule matches,
/// the build descriptor where there is one, and the ignore file where it is
/// a regular file.
pub proof fn lemma_docker_file_list(
    files: Seq<Seq<char>>,
    rules: Seq<DockerRule>,
    has_dockerfile: bool,
    has_ignore_file: bool,
)
    ensures
        crate::order::strictly_sorted(
            docker_file_list(files, rules, has_dockerfile, has_ignore_file),
        ),
        forall|y: Seq<char>|
            #[trigger] docker_file_list(files, rules, has_dockerfile, has_ignore_file).contains(y)
                <==> ((files.contains(y) && docker_selected(rules, y)) || (has_dockerfile && y
                == DESCRIPTOR_NAME@) || (has_ignore_file && y == LEGACY_NAME@)),
{
    let none = Seq::<Seq<char>>::empty();
    let picked = insert_kept(none, rules, files);
    lemma_insert_kept(none, rules, files);
    let described = with_descriptor(picked, has_dockerfile);
    if has_dockerfile {
        crate::order::lemma_set_insert(picked, DESCRIPTOR_NAME@);
    }
    if has_ignore_file {
        crate::order::lemma_set_insert(described, LEGACY_NAME@);
    }
    assert forall|y: Seq<char>| #[trigger]
        docker_file_list(files, rules, has_dockerfile, has_ignore_file).contains(y) <==> ((
        files.contains(y) && docker_selected(rules, y)) || (has_dockerfile && y == DESCRIPTOR_NAME@)
            || (has_ignore_file && y == LEGACY_NAME@)) by {
        assert(!none.contains(y));
        assert(picked.contains(y) <==> (files.contains(y) && docker_selected(rules, y)));
        assert(described.contains(y) <==> (picked.contains(y) || (has_dockerfile && y
            == DESCRIPTOR_NAME@)));
    }
}

/// The list of selected files does not depend on the order in which the
/// walk of the tree found the candidates, nor on how often it found one.
pub proof fn lemma_file_list_ignores_walk_order(
    files: Seq<Seq<char>>,
    files_again: Seq<Seq<char>>,
    markers: Seq<MarkerText>,
    rules: Seq<DockerRule>,
    has_dockerfile: bool,
    has_ignore_file: bool,
)
    requires
        forall|y: Seq<char>| files.contains(y) <==> files_again.contains(y),
    ensures
        gw_file_list(files, markers, has_dockerfile) == gw_file_list(
            files_again,
            markers,
            has_dockerfile,
        ),
        docker_file_list(files, rules, has_dockerfile, has_ignore_file) == docker_file_list(
            files_again,
            rules,
            has_dockerfile,
            has_ignore_file,
        ),
{
    lemma_gw_file_list(files, markers, has_dockerfile);
    lemma_gw_file_list(files_again, markers, has_dockerfile);
    crate::order::lemma_sorted_unique(
        gw_file_list(files, markers, has_dockerfile),
        gw_file_list(files_again, markers, has_dockerfile),
    );
    lemma_docker_file_list(files, rules, has_dockerfile, has_ignore_file);
    lemma_docker_file_list(files_again, rules, has_dockerfile, has_ignore_file);
    crate::order::lemma_sorted_unique(
        docker_file_list(files, rules, has_dockerfile, has_ignore_file),
        docker_file_list(files_again, rules, has_dockerfile, has_ignore_file),
    );
}

/// Determinism: the same candidates and the same marker files give the same
/// list of selected files, and the same ignore file gives the same list
/// under the legacy grammar.
pub proof fn lemma_file_list_deterministic(
    files: Seq<Seq<char>>,
    markers: Seq<MarkerText>,
    legacy: Seq<char>,
    has_dockerfile: bool,
    has_ignore_file: bool,
    files_again: Seq<Seq<char>>,
    markers_again: Seq<MarkerText>,
    legacy_again: Seq<char>,
)
    requires
        files == files_again,
        markers == markers_again,
        legacy == legacy_again,
    ensures
        gw_file_list(files, markers, has_dockerfile) == gw_file_list(
            files_again,
            markers_again,
            has_dockerfile,
        ),
        docker_rules_of_text(legacy) == docker_rules_of_text(legacy_again),
        docker_rules_of_text(legacy) matches Some(rules) ==> docker_file_list(
            files,
            rules,
            has_dockerfile,
            has_ignore_file,
        ) == docker_file_list(files_again, rules, has_dockerfile, has_ignore_file),
{
}

} // verus!

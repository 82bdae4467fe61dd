//! Which files a set of rules selects: a rule matched against a path, the
//! last matching rule deciding, and the selected paths kept in order.

use crate::glob::{glob_match_chars, glob_matches, Token};
use crate::order::{set_insert};
use crate::paths::{components_of, is_under, relative_to, sep, split_components, strip_base};
use crate::pattern::{docker_rules, gw_rules, gw_rules_of_text, DockerPattern, DockerRule, GwPattern, GwRule};
use crate::text::{chars_of, extend, join, string_of, vec_views, views};
use vstd::prelude::*;

verus! {

/// Whether the pattern matches the path made of the first `n` components,
/// for some `n` from 1 to `upto`.
pub open spec fn some_prefix_matches(
    tokens: Seq<Token>,
    components: Seq<Seq<char>>,
    upto: int,
) -> bool {
    exists|n: int|
        1 <= n <= upto && #[trigger] glob_matches(tokens, join(components.take(n), sep()))
}

/// Whether the pattern matches one of the first `upto` components.
pub open spec fn some_component_matches(
    tokens: Seq<Token>,
    components: Seq<Seq<char>>,
    upto: int,
) -> bool {
    exists|i: int| 0 <= i < upto && #[trigger] glob_matches(tokens, components[i])
}

fn prefix_match(tokens: &Vec<Token>, components: &Vec<Vec<char>>, upto: usize) -> (r: bool)
    requires
        upto <= components.len(),
    ensures
        r == some_prefix_matches(tokens@, vec_views(components@), upto as int),
{
    let ghost cv = vec_views(components@);
    let mut prefix: Vec<char> = Vec::new();
    let mut n: usize = 0;
    while n < upto
        invariant
            n <= upto <= components.len(),
            cv == vec_views(components@),
            prefix@ == join(cv.take(n as int), sep()),
            forall|m: int| 1 <= m <= n ==> !#[trigger] glob_matches(tokens@, join(cv.take(m), sep())),
        decreases upto - n,
    {
        if n > 0 {
            prefix.push('/');
        }
        extend(&mut prefix, &components[n]);
        assert(cv.take(n + 1).drop_last() == cv.take(n as int));
        assert(cv.take(n + 1).last() == components@[n as int]@);
        n += 1;
        assert(prefix@ == join(cv.take(n as int), sep()));
        if glob_match_chars(tokens, &prefix) {
            return true;
        }
    }
    false
}

fn component_match(tokens: &Vec<Token>, components: &Vec<Vec<char>>, upto: usize) -> (r: bool)
    requires
        upto <= components.len(),
    ensures
        r == some_component_matches(tokens@, vec_views(components@), upto as int),
{
    let ghost cv = vec_views(components@);
    let mut i: usize = 0;
    while i < upto
        invariant
            i <= upto <= components.len(),
            cv == vec_views(components@),
            forall|k: int| 0 <= k < i ==> !#[trigger] glob_matches(tokens@, cv[k]),
        decreases upto - i,
    {
        assert(cv[i as int] == components@[i as int]@);
        if glob_match_chars(tokens, &components[i]) {
            return true;
        }
        i += 1;
    }
    false
}

/// Whether a rule of a marker file matches `path`, a path relative to the
/// rule's directory.
///
/// A rule for directories looks at the directories above the file only, so
/// never at a path of one component. A rule that is anchored or holds a
/// separator is matched against the path from its start: the whole path, or
/// for a directory rule each leading run of directories. Any other rule is
/// matched against single components.
pub open spec fn gw_matches(rule: GwRule, path: Seq<char>) -> bool {
    let components = components_of(path);
    let rooted = rule.anchored || rule.has_slash;
    if rule.dir_only {
        components.len() >= 2 && if rooted {
            some_prefix_matches(rule.tokens, components, components.len() - 1)
        } else {
            some_component_matches(rule.tokens, components, components.len() - 1)
        }
    } else if rooted {
        glob_matches(rule.tokens, path)
    } else {
        some_component_matches(rule.tokens, components, components.len() as int)
    }
}

/// Whether `pattern` matches `rel_path`, a path relative to the pattern's
/// directory.
pub fn gw_pattern_matches(pattern: &GwPattern, rel_path: &str) -> (r: bool)
    ensures
        r == gw_matches(pattern@, rel_path@),
{
    let rel = chars_of(rel_path);
    gw_matches_chars(pattern, &rel)
}

fn gw_matches_chars(pattern: &GwPattern, rel: &Vec<char>) -> (r: bool)
    ensures
        r == gw_matches(pattern@, rel@),
{
    let components = split_components(rel);
    assert(vec_views(components@).len() == components.len());
    let rooted = pattern.anchored || pattern.has_slash;
    if pattern.dir_only {
        if components.len() < 2 {
            return false;
        }
        if rooted {
            prefix_match(&pattern.tokens, &components, components.len() - 1)
        } else {
            component_match(&pattern.tokens, &components, components.len() - 1)
        }
    } else if rooted {
        glob_match_chars(&pattern.tokens, rel)
    } else {
        component_match(&pattern.tokens, &components, components.len())
    }
}

/// Whether a rule has a say on `path`, a path relative to the project root:
/// the path lies under the rule's directory and the rule matches it from
/// there.
pub open spec fn rule_applies(rule: GwRule, path: Seq<char>) -> bool {
    is_under(path, rule.base_dir) && gw_matches(rule, strip_base(path, rule.base_dir))
}

/// Whether the rules select `path`: the last rule that has a say decides,
/// and a path on which no rule has a say is not selected.
pub open spec fn gw_selected(rules: Seq<GwRule>, path: Seq<char>) -> bool
    decreases rules.len(),
{
    if rules.len() == 0 {
        false
    } else if rule_applies(rules.last(), path) {
        rules.last().selects
    } else {
        gw_selected(rules.drop_last(), path)
    }
}

/// Whether `patterns` select `path`, a path relative to the project root.
pub fn gw_selects(patterns: &Vec<GwPattern>, path: &str) -> (r: bool)
    ensures
        r == gw_selected(gw_rules(patterns@), path@),
{
    let chars = chars_of(path);
    let bases = base_dirs(patterns);
    gw_selects_chars(patterns, &bases, &chars)
}

pub(crate) fn base_dirs(patterns: &Vec<GwPattern>) -> (bases: Vec<Vec<char>>)
    ensures
        bases.len() == patterns.len(),
        forall|k: int| 0 <= k < patterns.len() ==> (#[trigger] bases@[k])@ == patterns@[k].base_dir@,
{
    let mut bases: Vec<Vec<char>> = Vec::new();
    let mut i: usize = 0;
    while i < patterns.len()
        invariant
            i <= patterns.len(),
            bases.len() == i,
            forall|k: int| 0 <= k < i ==> (#[trigger] bases@[k])@ == patterns@[k].base_dir@,
        decreases patterns.len() - i,
    {
        bases.push(chars_of(patterns[i].base_dir.as_str()));
        i += 1;
    }
    bases
}

pub(crate) fn gw_selects_chars(patterns: &Vec<GwPattern>, bases: &Vec<Vec<char>>, path: &Vec<char>) -> (r:
    bool)
    requires
        bases.len() == patterns.len(),
        forall|k: int| 0 <= k < patterns.len() ==> (#[trigger] bases@[k])@ == patterns@[k].base_dir@,
    ensures
        r == gw_selected(gw_rules(patterns@), path@),
{
    let ghost rules = gw_rules(patterns@);
    let mut selected = false;
    let mut i: usize = 0;
    while i < patterns.len()
        invariant
            i <= patterns.len(),
            bases.len() == patterns.len(),
            forall|k: int|
                0 <= k < patterns.len() ==> (#[trigger] bases@[k])@ == patterns@[k].base_dir@,
            rules == gw_rules(patterns@),
            selected == gw_selected(rules.take(i as int), path@),
        decreases patterns.len() - i,
    {
        assert(rules.take(i + 1).drop_last() == rules.take(i as int));
        assert(rules.take(i + 1).last() == patterns@[i as int]@);
        match relative_to(path, &bases[i]) {
            Some(rel) => {
                if gw_matches_chars(&patterns[i], &rel) {
                    selected = patterns[i].selects;
                }
            },
            None => {},
        }
        i += 1;
    }
    assert(rules.take(patterns.len() as int) == rules);
    selected
}

/// Whether a rule of a legacy ignore file matches `path`: the pattern
/// matches a leading run of the path's components, which for a directory
/// rule must stop short of the last one.
pub open spec fn docker_matches(rule: DockerRule, path: Seq<char>) -> bool {
    let components = components_of(path);
    some_prefix_matches(
        rule.tokens,
        components,
        if rule.dir_only {
            components.len() - 1
        } else {
            components.len() as int
        },
    )
}

/// Whether some rule of a legacy ignore file matches `path`.
pub open spec fn docker_selected(rules: Seq<DockerRule>, path: Seq<char>) -> bool {
    exists|i: int| 0 <= i < rules.len() && #[trigger] docker_matches(rules[i], path)
}

/// Whether some legacy rule matches `rel_path`, and so keeps the file.
pub fn dockerignore_includes(rel_path: &str, patterns: &Vec<DockerPattern>) -> (r: bool)
    ensures
        r == docker_selected(docker_rules(patterns@), rel_path@),
{
    let rel = chars_of(rel_path);
    docker_selects_chars(&rel, patterns)
}

pub(crate) fn docker_selects_chars(rel: &Vec<char>, patterns: &Vec<DockerPattern>) -> (r: bool)
    ensures
        r == docker_selected(docker_rules(patterns@), rel@),
{
    let ghost rules = docker_rules(patterns@);
    if patterns.len() == 0 {
        return false;
    }
    let components = split_components(rel);
    assert(vec_views(components@).len() == components.len());
    let mut i: usize = 0;
    while i < patterns.len()
        invariant
            i <= patterns.len(),
            rules == docker_rules(patterns@),
            vec_views(components@) == components_of(rel@),
            vec_views(components@).len() == components.len(),
            forall|k: int| 0 <= k < i ==> !#[trigger] docker_matches(rules[k], rel@),
        decreases patterns.len() - i,
    {
        assert(rules[i as int] == patterns@[i as int]@);
        let upto: usize = if patterns[i].dir_only {
            if components.len() > 0 {
                components.len() - 1
            } else {
                0
            }
        } else {
            components.len()
        };
        let hit = prefix_match(&patterns[i].tokens, &components, upto);
        assert(hit == docker_matches(rules[i as int], rel@));
        if hit {
            return true;
        }
        i += 1;
    }
    false
}

/// `acc` with the paths of `files` that the rules select put in.
pub open spec fn insert_selected(
    acc: Seq<Seq<char>>,
    rules: Seq<GwRule>,
    files: Seq<Seq<char>>,
) -> Seq<Seq<char>>
    decreases files.len(),
{
    if files.len() == 0 {
        acc
    } else {
        let before = insert_selected(acc, rules, files.drop_last());
        if gw_selected(rules, files.last()) {
            set_insert(before, files.last())
        } else {
            before
        }
    }
}

/// `acc` with the paths of `files` that some legacy rule matches put in.
pub open spec fn insert_kept(
    acc: Seq<Seq<char>>,
    rules: Seq<DockerRule>,
    files: Seq<Seq<char>>,
) -> Seq<Seq<char>>
    decreases files.len(),
{
    if files.len() == 0 {
        acc
    } else {
        let before = insert_kept(acc, rules, files.drop_last());
        if docker_selected(rules, files.last()) {
            set_insert(before, files.last())
        } else {
            before
        }
    }
}

/// `acc` with every path of `items` put in.
pub open spec fn insert_all(acc: Seq<Seq<char>>, items: Seq<Seq<char>>) -> Seq<Seq<char>>
    decreases items.len(),
{
    if items.len() == 0 {
        acc
    } else {
        set_insert(insert_all(acc, items.drop_last()), items.last())
    }
}

/// The strings that a list of character vectors stands for.
pub fn strings_of(list: &Vec<Vec<char>>) -> (out: Vec<String>)
    ensures
        views(out@) == vec_views(list@),
{
    let mut out: Vec<String> = Vec::new();
    let mut i: usize = 0;
    while i < list.len()
        invariant
            i <= list.len(),
            views(out@) == vec_views(list@).take(i as int),
        decreases list.len() - i,
    {
        let ghost before = views(out@);
        out.push(string_of(&list[i]));
        assert(views(out@) == before.push(list@[i as int]@));
        i += 1;
    }
    assert(vec_views(list@).take(list.len() as int) == vec_views(list@));
    out
}

/// Last match wins: where a rule has a say on a path and no later rule
/// has, that rule decides whether the path is selected.
pub proof fn lemma_last_match_wins(rules: Seq<GwRule>, path: Seq<char>, k: int)
    requires
        0 <= k < rules.len(),
        rule_applies(rules[k], path),
        forall|j: int| k < j < rules.len() ==> !rule_applies(#[trigger] rules[j], path),
    ensures
        gw_selected(rules, path) == rules[k].selects,
    decreases rules.len(),
{
    if k < rules.len() - 1 {
        let t = rules.drop_last();
        assert(!rule_applies(rules[rules.len() - 1], path));
        assert(t[k] == rules[k]);
        assert forall|j: int| k < j < t.len() implies !rule_applies(#[trigger] t[j], path) by {
            assert(t[j] == rules[j]);
        }
        lemma_last_match_wins(t, path, k);
    }
}

/// A path on which no rule has a say is not selected.
pub proof fn lemma_no_match_not_selected(rules: Seq<GwRule>, path: Seq<char>)
    requires
        forall|j: int| 0 <= j < rules.len() ==> !rule_applies(#[trigger] rules[j], path),
    ensures
        !gw_selected(rules, path),
    decreases rules.len(),
{
    if rules.len() > 0 {
        let t = rules.drop_last();
        assert(!rule_applies(rules[rules.len() - 1], path));
        assert forall|j: int| 0 <= j < t.len() implies !rule_applies(#[trigger] t[j], path) by {
            assert(t[j] == rules[j]);
        }
        lemma_no_match_not_selected(t, path);
    }
}

/// Rules that have no say on a path can be left out: with them between
/// other rules or without them, the path is selected or not alike.
pub proof fn lemma_silent_rules_change_nothing(
    before: Seq<GwRule>,
    silent: Seq<GwRule>,
    after: Seq<GwRule>,
    path: Seq<char>,
)
    requires
        forall|j: int| 0 <= j < silent.len() ==> !rule_applies(#[trigger] silent[j], path),
    ensures
        gw_selected(before + silent + after, path) == gw_selected(before + after, path),
    decreases after.len(), silent.len(),
{
    if after.len() > 0 {
        let a = after.drop_last();
        assert((before + silent + after).drop_last() == before + silent + a);
        assert((before + silent + after).last() == after.last());
        assert((before + after).drop_last() == before + a);
        assert((before + after).last() == after.last());
        lemma_silent_rules_change_nothing(before, silent, a, path);
    } else if silent.len() > 0 {
        let s = silent.drop_last();
        assert(before + silent + after == before + silent);
        assert(before + after == before);
        assert((before + silent).drop_last() == before + s);
        assert((before + silent).last() == silent[silent.len() - 1]);
        assert forall|j: int| 0 <= j < s.len() implies !rule_applies(#[trigger] s[j], path) by {
            assert(s[j] == silent[j]);
        }
        lemma_silent_rules_change_nothing(before, s, seq![], path);
        assert(before + s + Seq::<GwRule>::empty() == before + s);
        assert(before + Seq::<GwRule>::empty() == before);
    } else {
        assert(before + silent + after == before + after);
    }
}

/// Nested scoping: the rules of a marker file in the directory `dir` never
/// change whether a path outside `dir` is selected.
pub proof fn lemma_marker_has_no_say_outside(
    before: Seq<GwRule>,
    after: Seq<GwRule>,
    dir: Seq<char>,
    content: Seq<char>,
    path: Seq<char>,
)
    requires
        !is_under(path, dir),
    ensures
        gw_selected(before + gw_rules_of_text(dir, content) + after, path) == gw_selected(
            before + after,
            path,
        ),
{
    let own = gw_rules_of_text(dir, content);
    crate::pattern::lemma_rules_keep_their_directory(dir, crate::text::lines_of(content));
    assert forall|j: int| 0 <= j < own.len() implies !rule_applies(#[trigger] own[j], path) by {
        assert(own[j].base_dir == dir);
    }
    lemma_silent_rules_change_nothing(before, own, after, path);
}

/// Anchoring: an anchored rule without wildcards that is not for
/// directories matches, of the paths under its directory, the one spelled
/// like it and no other.
pub proof fn lemma_anchored_literal(rule: GwRule, path: Seq<char>)
    requires
        rule.anchored,
        !rule.dir_only,
        crate::glob::is_literal(rule.raw),
        rule.tokens == crate::glob::tokens_of(rule.raw),
    ensures
        gw_matches(rule, path) <==> path == rule.raw,
{
    crate::glob::lemma_literal_matches_itself_only(rule.raw, path);
}

/// Directory-only: a rule for directories without anchor, separator or
/// wildcard matches the paths that have a directory of its name above the
/// file, and so never a path of one component.
pub proof fn lemma_directory_literal(rule: GwRule, path: Seq<char>)
    requires
        rule.dir_only,
        !rule.anchored,
        !rule.has_slash,
        crate::glob::is_literal(rule.raw),
        rule.tokens == crate::glob::tokens_of(rule.raw),
    ensures
        gw_matches(rule, path) <==> exists|i: int|
            0 <= i < components_of(path).len() - 1 && #[trigger] components_of(path)[i] == rule.raw,
{
    let components = components_of(path);
    let upto = components.len() - 1;
    if gw_matches(rule, path) {
        let i = choose|i: int| 0 <= i < upto && #[trigger] glob_matches(rule.tokens, components[i]);
        crate::glob::lemma_literal_matches_itself_only(rule.raw, components[i]);
        assert(components_of(path)[i] == rule.raw);
    }
    if exists|i: int| 0 <= i < components_of(path).len() - 1 && #[trigger] components_of(path)[i] == rule.raw {
        let i = choose|i: int|
            0 <= i < components_of(path).len() - 1 && #[trigger] components_of(path)[i] == rule.raw;
        crate::glob::lemma_literal_matches_itself_only(rule.raw, components[i]);
        assert(glob_matches(rule.tokens, components[i]));
    }
}

} // verus!

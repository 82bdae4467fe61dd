//! The two pattern grammars: the rules of a marker file, scoped to its
//! directory, and the legacy ignore file with its negation lines.

use crate::glob::{tokenize_chars, tokens_of, Token};
use crate::text::{char_at, chars_of, find_from, has_char, lines, lines_of, slice_of, string_of, trim, trimmed, vec_views};
use vstd::prelude::*;

verus! {

/// One rule of a marker file.
#[derive(Clone, Debug)]
pub struct GwPattern {
    /// The directory of the marker file, relative to the project root.
    pub base_dir: String,
    /// Whether a match selects the file or rejects it.
    pub selects: bool,
    /// Whether the rule speaks of directories above the file only.
    pub dir_only: bool,
    /// Whether the rule is tied to the marker file's directory.
    pub anchored: bool,
    /// Whether the pattern holds a separator.
    pub has_slash: bool,
    /// The pattern's text, without the marks around it.
    pub raw: String,
    /// The compiled pattern.
    pub tokens: Vec<Token>,
}

/// One negation line of a legacy ignore file.
#[derive(Clone, Debug)]
pub struct DockerPattern {
    /// The pattern's text, without the marks around it.
    pub raw: String,
    /// The compiled pattern.
    pub tokens: Vec<Token>,
    /// Whether the rule speaks of directories above the file only.
    pub dir_only: bool,
}

/// A rule of a marker file as a mathematical value.
pub struct GwRule {
    pub base_dir: Seq<char>,
    pub selects: bool,
    pub dir_only: bool,
    pub anchored: bool,
    pub has_slash: bool,
    pub raw: Seq<char>,
    pub tokens: Seq<Token>,
}

/// A negation line of a legacy ignore file as a mathematical value.
pub struct DockerRule {
    pub raw: Seq<char>,
    pub tokens: Seq<Token>,
    pub dir_only: bool,
}

impl View for GwPattern {
    type V = GwRule;

    open spec fn view(&self) -> GwRule {
        GwRule {
            base_dir: self.base_dir@,
            selects: self.selects,
            dir_only: self.dir_only,
            anchored: self.anchored,
            has_slash: self.has_slash,
            raw: self.raw@,
            tokens: self.tokens@,
        }
    }
}

impl View for DockerPattern {
    type V = DockerRule;

    open spec fn view(&self) -> DockerRule {
        DockerRule { raw: self.raw@, tokens: self.tokens@, dir_only: self.dir_only }
    }
}

/// The rules that a vector of patterns stands for.
pub open spec fn gw_rules(v: Seq<GwPattern>) -> Seq<GwRule> {
    Seq::new(v.len(), |i: int| v[i]@)
}

/// The rules that a vector of legacy patterns stands for.
pub open spec fn docker_rules(v: Seq<DockerPattern>) -> Seq<DockerRule> {
    Seq::new(v.len(), |i: int| v[i]@)
}

/// `s` without the separators at its end.
pub open spec fn strip_trailing_seps(s: Seq<char>) -> Seq<char>
    decreases s.len(),
{
    if s.len() > 0 && s.last() == '/' {
        strip_trailing_seps(s.drop_last())
    } else {
        s
    }
}

/// The body of a pattern once the marks around it are read: one leading
/// separator anchors it, separators at the end restrict it to directories.
pub struct PatternBody {
    pub anchored: bool,
    pub dir_only: bool,
    pub raw: Seq<char>,
}

/// Reads the anchor and the directory mark off a pattern.
pub open spec fn body_of(pattern: Seq<char>) -> PatternBody {
    let anchored = pattern.len() > 0 && pattern[0] == '/';
    let rest = if anchored {
        pattern.drop_first()
    } else {
        pattern
    };
    PatternBody {
        anchored,
        dir_only: rest.len() > 0 && rest.last() == '/',
        raw: strip_trailing_seps(rest),
    }
}

/// Reads the anchor and the directory mark off a pattern; gives whether it
/// is anchored, whether it is for directories only, and the text left.
fn read_body(pattern: &Vec<char>) -> (r: (bool, bool, Vec<char>))
    ensures
        r.0 == body_of(pattern@).anchored,
        r.1 == body_of(pattern@).dir_only,
        r.2@ == body_of(pattern@).raw,
{
    let n = pattern.len();
    let anchored = n > 0 && char_at(pattern, 0) == '/';
    let from: usize = if anchored {
        1
    } else {
        0
    };
    let ghost rest = pattern@.skip(from as int);
    assert(anchored ==> pattern@.drop_first() == rest);
    assert(!anchored ==> pattern@ == rest);
    let dir_only = n > from && char_at(pattern, n - 1) == '/';
    let mut to: usize = n;
    assert(pattern@.subrange(from as int, to as int) == rest);
    while to > from && char_at(pattern, to - 1) == '/'
        invariant
            from <= to <= n,
            n == pattern.len(),
            strip_trailing_seps(rest) == strip_trailing_seps(
                pattern@.subrange(from as int, to as int),
            ),
        decreases to,
    {
        assert(pattern@.subrange(from as int, to as int).drop_last() == pattern@.subrange(
            from as int,
            to - 1,
        ));
        to -= 1;
    }
    (anchored, dir_only, slice_of(pattern, from, to))
}

/// What one line of a marker file in the directory `base_dir` says: nothing
/// for a blank line, a comment, or a pattern that is empty once its marks are
/// read; else a rule. A leading `!` makes the rule reject.
pub open spec fn gw_rule_of(base_dir: Seq<char>, raw_line: Seq<char>) -> Option<GwRule> {
    let line = trim(raw_line);
    if line.len() == 0 || line[0] == '#' {
        None
    } else {
        let selects = line[0] != '!';
        let pattern = if selects {
            line
        } else {
            trim(line.drop_first())
        };
        let body = body_of(pattern);
        if body.raw.len() == 0 {
            None
        } else {
            Some(
                GwRule {
                    base_dir,
                    selects,
                    dir_only: body.dir_only,
                    anchored: body.anchored,
                    has_slash: has_char(body.raw, '/'),
                    raw: body.raw,
                    tokens: tokens_of(body.raw),
                },
            )
        }
    }
}

/// Reads one line of a marker file that lies in the directory `base_dir`.
pub fn parse_gwinclude_line(base_dir: &str, raw_line: &str) -> (r: Option<GwPattern>)
    ensures
        match r {
            Some(p) => gw_rule_of(base_dir@, raw_line@) == Some(p@),
            None => gw_rule_of(base_dir@, raw_line@) is None,
        },
{
    let raw = chars_of(raw_line);
    parse_gw_line_chars(base_dir, &raw)
}

fn parse_gw_line_chars(base_dir: &str, raw_line: &Vec<char>) -> (r: Option<GwPattern>)
    ensures
        match r {
            Some(p) => gw_rule_of(base_dir@, raw_line@) == Some(p@),
            None => gw_rule_of(base_dir@, raw_line@) is None,
        },
{
    let line = trimmed(raw_line);
    if line.len() == 0 || char_at(&line, 0) == '#' {
        return None;
    }
    let selects = char_at(&line, 0) != '!';
    let pattern = if selects {
        line
    } else {
        let rest = slice_of(&line, 1, line.len());
        assert(rest@ == line@.drop_first());
        trimmed(&rest)
    };
    let (anchored, dir_only, raw) = read_body(&pattern);
    if raw.len() == 0 {
        return None;
    }
    let slash = find_from(&raw, 0, '/');
    assert(raw@.skip(0) == raw@);
    let tokens = tokenize_chars(&raw);
    Some(
        GwPattern {
            base_dir: base_dir.to_owned(),
            selects,
            dir_only,
            anchored,
            has_slash: slash < raw.len(),
            raw: string_of(&raw),
            tokens,
        },
    )
}

/// The rules of the lines `lines` of a marker file in `base_dir`, in order.
pub open spec fn gw_rules_of_lines(base_dir: Seq<char>, lines: Seq<Seq<char>>) -> Seq<GwRule>
    decreases lines.len(),
{
    if lines.len() == 0 {
        seq![]
    } else {
        let before = gw_rules_of_lines(base_dir, lines.drop_last());
        match gw_rule_of(base_dir, lines.last()) {
            Some(rule) => before.push(rule),
            None => before,
        }
    }
}

/// The rules of a marker file with the text `content` in `base_dir`.
pub open spec fn gw_rules_of_text(base_dir: Seq<char>, content: Seq<char>) -> Seq<GwRule> {
    gw_rules_of_lines(base_dir, lines_of(content))
}

/// Appends the rules of a marker file to `patterns`.
pub fn parse_gwinclude_text(base_dir: &str, content: &str, patterns: &mut Vec<GwPattern>)
    ensures
        gw_rules(final(patterns)@) == gw_rules(old(patterns)@) + gw_rules_of_text(
            base_dir@,
            content@,
        ),
{
    let chars = chars_of(content);
    let all = lines(&chars);
    let ghost texts = vec_views(all@);
    let ghost start = gw_rules(patterns@);
    let mut i: usize = 0;
    assert(gw_rules(patterns@) == start + gw_rules_of_lines(base_dir@, texts.take(0)));
    while i < all.len()
        invariant
            i <= all.len(),
            texts == vec_views(all@),
            gw_rules(patterns@) == start + gw_rules_of_lines(base_dir@, texts.take(i as int)),
        decreases all.len() - i,
    {
        let ghost before = gw_rules(patterns@);
        assert(texts.take(i + 1).drop_last() == texts.take(i as int));
        assert(texts.take(i + 1).last() == all@[i as int]@);
        match parse_gw_line_chars(base_dir, &all[i]) {
            Some(p) => {
                patterns.push(p);
                assert(gw_rules(patterns@) == before.push(p@));
            },
            None => {},
        }
        i += 1;
    }
    assert(texts.take(all.len() as int) == texts);
}

/// What one line after the header of a legacy ignore file says: a rule, or
/// nothing where the line breaks the grammar. The line must start with `!`
/// and hold a pattern that is not empty once its marks are read.
pub open spec fn docker_rule_of(raw_line: Seq<char>) -> Option<DockerRule> {
    if raw_line.len() == 0 || raw_line[0] != '!' {
        None
    } else {
        let pattern = trim(raw_line.drop_first());
        let body = body_of(pattern);
        if body.raw.len() == 0 {
            None
        } else {
            Some(DockerRule { raw: body.raw, tokens: tokens_of(body.raw), dir_only: body.dir_only })
        }
    }
}

/// The rules of the lines after the header, or nothing where one of them
/// breaks the grammar.
pub open spec fn docker_rules_of_lines(lines: Seq<Seq<char>>) -> Option<Seq<DockerRule>>
    decreases lines.len(),
{
    if lines.len() == 0 {
        Some(seq![])
    } else {
        match (docker_rules_of_lines(lines.drop_last()), docker_rule_of(lines.last())) {
            (Some(before), Some(rule)) => Some(before.push(rule)),
            _ => None,
        }
    }
}

/// The one-character header of a legacy ignore file.
pub open spec fn docker_header() -> Seq<char> {
    seq!['*']
}

/// The lines from the first one that is not empty on.
pub open spec fn from_first_line(all: Seq<Seq<char>>) -> Seq<Seq<char>>
    decreases all.len(),
{
    if all.len() > 0 && all[0].len() == 0 {
        from_first_line(all.drop_first())
    } else {
        all
    }
}

/// The rules of a legacy ignore file, or nothing where it breaks the
/// grammar: its first line that is not empty must be exactly `*`, and every
/// line after that one must be a negation line.
pub open spec fn docker_rules_of_text(content: Seq<char>) -> Option<Seq<DockerRule>> {
    let all = from_first_line(lines_of(content));
    if all.len() == 0 || all[0] != docker_header() {
        None
    } else {
        docker_rules_of_lines(all.skip(1))
    }
}

fn parse_docker_line(raw_line: &Vec<char>) -> (r: Option<DockerPattern>)
    ensures
        match r {
            Some(p) => docker_rule_of(raw_line@) == Some(p@),
            None => docker_rule_of(raw_line@) is None,
        },
{
    if raw_line.len() == 0 || char_at(raw_line, 0) != '!' {
        return None;
    }
    let rest = slice_of(raw_line, 1, raw_line.len());
    assert(rest@ == raw_line@.drop_first());
    let pattern = trimmed(&rest);
    let (_anchored, dir_only, raw) = read_body(&pattern);
    if raw.len() == 0 {
        return None;
    }
    let tokens = tokenize_chars(&raw);
    Some(DockerPattern { raw: string_of(&raw), tokens, dir_only })
}

/// The rules of a legacy ignore file with the text `content`, or nothing
/// where it breaks the grammar.
pub fn parse_dockerignore_text(content: &str) -> (r: Option<Vec<DockerPattern>>)
    ensures
        match r {
            Some(v) => docker_rules_of_text(content@) == Some(docker_rules(v@)),
            None => docker_rules_of_text(content@) is None,
        },
{
    let chars = chars_of(content);
    let all = lines(&chars);
    let ghost texts = vec_views(all@);
    let mut start: usize = 0;
    assert(texts.skip(0) == texts);
    assert(texts.len() == all.len());
    while start < all.len() && all[start].len() == 0
        invariant
            start <= all.len(),
            texts == vec_views(all@),
            from_first_line(texts) == from_first_line(texts.skip(start as int)),
        decreases all.len() - start,
    {
        assert(texts.skip(start as int)[0] == all@[start as int]@);
        assert(texts.skip(start as int).drop_first() == texts.skip(start + 1));
        start += 1;
    }
    let ghost rest = texts.skip(start as int);
    proof {
        if start < all.len() {
            assert(rest[0] == all@[start as int]@);
        }
        assert(from_first_line(texts) == rest);
    }
    if start == all.len() {
        return None;
    }
    let first = &all[start];
    if !(first.len() == 1 && char_at(first, 0) == '*') {
        assert(first@ != docker_header()) by {
            if first@ == docker_header() {
                assert(first@.len() == 1 && first@[0] == '*');
            }
        }
        return None;
    }
    assert(first@ =~= docker_header());
    let mut patterns: Vec<DockerPattern> = Vec::new();
    let mut i: usize = start + 1;
    let ghost tail = rest.skip(1);
    assert(docker_rules_of_lines(tail.take(0)) == Some(docker_rules(patterns@)));
    while i < all.len()
        invariant
            start < i <= all.len(),
            texts == vec_views(all@),
            texts == lines_of(content@),
            rest == texts.skip(start as int),
            rest == from_first_line(texts),
            rest[0] == docker_header(),
            tail == rest.skip(1),
            docker_rules_of_lines(tail.take(i - start - 1)) == Some(docker_rules(patterns@)),
        decreases all.len() - i,
    {
        let ghost before = docker_rules(patterns@);
        let ghost n = i - start;
        assert(tail.take(n).drop_last() == tail.take(n - 1));
        assert(tail.take(n).last() == all@[i as int]@);
        match parse_docker_line(&all[i]) {
            Some(p) => {
                patterns.push(p);
                assert(docker_rules(patterns@) == before.push(p@));
            },
            None => {
                proof {
                    assert(docker_rule_of(tail.take(n).last()) is None);
                    assert(docker_rules_of_lines(tail.take(n)) is None);
                    lemma_docker_lines_prefix(tail, n);
                }
                return None;
            },
        }
        i += 1;
    }
    assert(tail.take(all.len() - start - 1) == tail);
    Some(patterns)
}

/// Where the first `n` lines break the grammar, so do all of them.
pub proof fn lemma_docker_lines_prefix(lines: Seq<Seq<char>>, n: int)
    requires
        0 <= n <= lines.len(),
        docker_rules_of_lines(lines.take(n)) is None,
    ensures
        docker_rules_of_lines(lines) is None,
    decreases lines.len() - n,
{
    if n < lines.len() {
        assert(lines.take(n + 1).drop_last() == lines.take(n));
        lemma_docker_lines_prefix(lines, n + 1);
    } else {
        assert(lines.take(n) == lines);
    }
}

/// Every rule of a marker file is scoped to the directory of the file,
/// and is compiled from its own text.
pub proof fn lemma_rules_keep_their_directory(base_dir: Seq<char>, lines: Seq<Seq<char>>)
    ensures
        forall|j: int|
            0 <= j < gw_rules_of_lines(base_dir, lines).len() ==> (#[trigger] gw_rules_of_lines(
                base_dir,
                lines,
            )[j]).base_dir == base_dir && gw_rules_of_lines(base_dir, lines)[j].tokens
                == tokens_of(gw_rules_of_lines(base_dir, lines)[j].raw),
    decreases lines.len(),
{
    if lines.len() > 0 {
        let before = gw_rules_of_lines(base_dir, lines.drop_last());
        let all = gw_rules_of_lines(base_dir, lines);
        lemma_rules_keep_their_directory(base_dir, lines.drop_last());
        assert forall|j: int| 0 <= j < all.len() implies (#[trigger] all[j]).base_dir == base_dir
            && all[j].tokens == tokens_of(all[j].raw) by {
            if j < before.len() {
                assert(all[j] == before[j]);
            } else {
                assert(gw_rule_of(base_dir, lines.last()) == Some(all[j]));
            }
        }
    }
}

/// The legacy grammar refuses a file whose first line that is not empty is
/// not exactly `*`, and a file without such a line.
pub proof fn lemma_legacy_needs_header(content: Seq<char>)
    requires
        from_first_line(lines_of(content)).len() == 0 || from_first_line(lines_of(content))[0]
            != docker_header(),
    ensures
        docker_rules_of_text(content) is None,
{
}

/// The legacy grammar refuses a file in which a line after the header does
/// not start with `!`.
pub proof fn lemma_legacy_needs_negations(content: Seq<char>, i: int)
    requires
        1 <= i < from_first_line(lines_of(content)).len(),
        from_first_line(lines_of(content))[i].len() == 0 || from_first_line(lines_of(content))[i][0]
            != '!',
    ensures
        docker_rules_of_text(content) is None,
{
    let all = from_first_line(lines_of(content));
    let tail = all.skip(1);
    assert(tail.take(i).drop_last() == tail.take(i - 1));
    assert(tail.take(i).last() == all[i]);
    assert(docker_rule_of(all[i]) is None);
    assert(docker_rules_of_lines(tail.take(i)) is None);
    lemma_docker_lines_prefix(tail, i);
}

} // verus!

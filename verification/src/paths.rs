//! Paths as text. A relative path inside the project is a string of
//! components separated by `/`, without empty, `.` or `..` components.

use crate::text::{char_at, chars_of, extend, has_prefix, join, same_chars, slice_of, split_chars, split_on, starts_with, string_of, vec_views};
use crate::order::{less, lex_less};
use vstd::prelude::*;

verus! {

/// The separator as a one-character string.
pub open spec fn sep() -> Seq<char> {
    seq!['/']
}

/// The components of a path: none for the empty path, else the pieces
/// between separators.
pub open spec fn components_of(path: Seq<char>) -> Seq<Seq<char>> {
    if path.len() == 0 {
        seq![]
    } else {
        split_on(path, '/')
    }
}

/// The components of `path`.
pub fn split_components(path: &Vec<char>) -> (out: Vec<Vec<char>>)
    ensures
        vec_views(out@) == components_of(path@),
{
    if path.len() == 0 {
        Vec::new()
    } else {
        split_chars(path, '/')
    }
}

/// The components joined with `/` between them.
pub fn join_components(components: &Vec<Vec<char>>) -> (out: Vec<char>)
    ensures
        out@ == join(vec_views(components@), sep()),
{
    let mut out: Vec<char> = Vec::new();
    let mut i: usize = 0;
    while i < components.len()
        invariant
            i <= components.len(),
            out@ == join(vec_views(components@).take(i as int), sep()),
        decreases components.len() - i,
    {
        if i > 0 {
            out.push('/');
        }
        extend(&mut out, &components[i]);
        assert(vec_views(components@).take(i + 1).drop_last() == vec_views(components@).take(
            i as int,
        ));
        i += 1;
    }
    assert(vec_views(components@).take(components.len() as int) == vec_views(components@));
    out
}

/// The number of components of a path.
pub open spec fn depth_of(path: Seq<char>) -> nat {
    components_of(path).len()
}

/// The number of components of `path`.
pub fn path_depth(path: &Vec<char>) -> (n: usize)
    ensures
        n == depth_of(path@),
{
    let parts = split_components(path);
    assert(vec_views(parts@).len() == parts@.len());
    parts.len()
}

/// The position of the last `/` in `s`, or -1 if there is none.
pub open spec fn last_sep(s: Seq<char>) -> int
    decreases s.len(),
{
    if s.len() == 0 {
        -1
    } else if s.last() == '/' {
        s.len() - 1
    } else {
        last_sep(s.drop_last())
    }
}

/// `last_sep` holds a separator and nothing after it does.
pub proof fn lemma_last_sep(s: Seq<char>)
    ensures
        -1 <= last_sep(s) < s.len(),
        last_sep(s) >= 0 ==> s[last_sep(s)] == '/',
        forall|k: int| last_sep(s) < k < s.len() ==> s[k] != '/',
    decreases s.len(),
{
    if s.len() > 0 && s.last() != '/' {
        let t = s.drop_last();
        lemma_last_sep(t);
        assert forall|k: int| last_sep(s) < k < s.len() implies s[k] != '/' by {
            if k < t.len() {
                assert(s[k] == t[k]);
            }
        }
        if last_sep(s) >= 0 {
            assert(s[last_sep(s)] == t[last_sep(t)]);
        }
    }
}

/// The position of the last `/` in `v`, if there is one.
pub fn find_last_sep(v: &Vec<char>) -> (r: Option<usize>)
    ensures
        match r {
            Some(i) => i == last_sep(v@),
            None => last_sep(v@) == -1,
        },
{
    let mut n: usize = v.len();
    assert(v@.take(n as int) == v@);
    while n > 0
        invariant
            n <= v.len(),
            last_sep(v@) == last_sep(v@.take(n as int)),
        decreases n,
    {
        if char_at(v, n - 1) == '/' {
            return Some(n - 1);
        }
        assert(v@.take(n as int).drop_last() == v@.take(n - 1));
        n -= 1;
    }
    None
}

/// The directory part of a path: what stands before the last separator, or
/// nothing.
pub open spec fn parent_of(path: Seq<char>) -> Seq<char> {
    if last_sep(path) >= 0 {
        path.take(last_sep(path))
    } else {
        seq![]
    }
}

/// The last component of a path: what stands after the last separator.
pub open spec fn file_name_of(path: Seq<char>) -> Seq<char> {
    path.skip(last_sep(path) + 1)
}

/// The directory part of `path`.
pub fn parent_dir(path: &Vec<char>) -> (out: Vec<char>)
    ensures
        out@ == parent_of(path@),
{
    proof {
        lemma_last_sep(path@);
    }
    match find_last_sep(path) {
        Some(i) => slice_of(path, 0, i),
        None => Vec::new(),
    }
}

/// The last component of `path`.
pub fn file_name(path: &Vec<char>) -> (out: Vec<char>)
    ensures
        out@ == file_name_of(path@),
{
    proof {
        lemma_last_sep(path@);
    }
    let n = path.len();
    match find_last_sep(path) {
        Some(i) => slice_of(path, i + 1, n),
        None => slice_of(path, 0, n),
    }
}

/// Whether `path` lies in the directory `base` or below it, component by
/// component; every path lies under the empty base.
pub open spec fn is_under(path: Seq<char>, base: Seq<char>) -> bool {
    base.len() == 0 || path == base || starts_with(path, base + sep())
}

/// `path` relative to `base`, for a path that lies under it.
pub open spec fn strip_base(path: Seq<char>, base: Seq<char>) -> Seq<char> {
    if base.len() == 0 {
        path
    } else if path == base {
        seq![]
    } else {
        path.skip(base.len() as int + 1)
    }
}

/// `path` relative to `base`, if it lies under it.
pub fn relative_to(path: &Vec<char>, base: &Vec<char>) -> (r: Option<Vec<char>>)
    ensures
        match r {
            Some(rel) => is_under(path@, base@) && rel@ == strip_base(path@, base@),
            None => !is_under(path@, base@),
        },
{
    if base.len() == 0 {
        return Some(slice_of(path, 0, path.len()));
    }
    if same_chars(path, base) {
        return Some(Vec::new());
    }
    if has_prefix(path, base) && path.len() > base.len() && char_at(path, base.len()) == '/' {
        assert(path@.take(base.len() + 1) == base@ + sep()) by {
            assert(path@.take(base.len() + 1) =~= path@.take(base.len() as int).push('/'));
        }
        Some(slice_of(path, base.len() + 1, path.len()))
    } else {
        proof {
            if starts_with(path@, base@ + sep()) {
                let p = base@ + sep();
                assert(path@.take(p.len() as int) == p);
                assert(path@.take(base.len() as int) =~= p.take(base.len() as int));
                assert(p.take(base.len() as int) =~= base@);
                assert(path@[base.len() as int] == p[base.len() as int]);
            }
        }
        None
    }
}

/// Whether the components `a` come before the components `b`: at the first
/// place where they differ `a` has the smaller component, or `a` is a proper
/// prefix of `b`. This is how paths are ordered.
pub open spec fn components_less(a: Seq<Seq<char>>, b: Seq<Seq<char>>) -> bool
    decreases a.len(),
{
    if b.len() == 0 {
        false
    } else if a.len() == 0 {
        true
    } else if a[0] == b[0] {
        components_less(a.drop_first(), b.drop_first())
    } else {
        lex_less(a[0], b[0])
    }
}

/// Whether the path `a` comes before the path `b`, component by component.
pub open spec fn path_less(a: Seq<char>, b: Seq<char>) -> bool {
    components_less(components_of(a), components_of(b))
}

/// Whether the path `a` comes before the path `b`.
pub fn path_before(a: &Vec<char>, b: &Vec<char>) -> (r: bool)
    ensures
        r == path_less(a@, b@),
{
    let ca = split_components(a);
    let cb = split_components(b);
    let ghost sa = vec_views(ca@);
    let ghost sb = vec_views(cb@);
    let mut i: usize = 0;
    assert(sa.skip(0) == sa);
    assert(sb.skip(0) == sb);
    while i < ca.len() && i < cb.len()
        invariant
            i <= ca.len(),
            i <= cb.len(),
            sa == vec_views(ca@),
            sb == vec_views(cb@),
            sa == components_of(a@),
            sb == components_of(b@),
            components_less(sa, sb) == components_less(sa.skip(i as int), sb.skip(i as int)),
        decreases ca.len() - i,
    {
        assert(sa.skip(i as int)[0] == ca@[i as int]@);
        assert(sb.skip(i as int)[0] == cb@[i as int]@);
        if !same_chars(&ca[i], &cb[i]) {
            assert(sa.skip(i as int).len() > 0 && sb.skip(i as int).len() > 0);
            assert(sa.skip(i as int)[0] != sb.skip(i as int)[0]);
            return less(&ca[i], &cb[i]);
        }
        assert(sa.skip(i as int).drop_first() == sa.skip(i + 1));
        assert(sb.skip(i as int).drop_first() == sb.skip(i + 1));
        i += 1;
    }
    assert(sa.skip(i as int).len() == ca.len() - i);
    assert(sb.skip(i as int).len() == cb.len() - i);
    i < cb.len()
}

/// Whether a path starts at the root.
pub open spec fn is_absolute(path: Seq<char>) -> bool {
    path.len() > 0 && path[0] == '/'
}

/// `path` seen from the directory `root`: an absolute path stays, a relative
/// one is appended to `root` with one separator between them.
pub open spec fn abs_path_of(path: Seq<char>, root: Seq<char>) -> Seq<char> {
    if is_absolute(path) {
        path
    } else if root.len() == 0 || root.last() == '/' {
        root + path
    } else {
        root + sep() + path
    }
}

/// `path` seen from the directory `root_dir`.
pub fn abs_path(path: &str, root_dir: &str) -> (out: String)
    ensures
        out@ == abs_path_of(path@, root_dir@),
{
    let p = chars_of(path);
    if p.len() > 0 && char_at(&p, 0) == '/' {
        return string_of(&p);
    }
    let mut out = chars_of(root_dir);
    if out.len() > 0 && char_at(&out, out.len() - 1) != '/' {
        out.push('/');
    }
    extend(&mut out, &p);
    string_of(&out)
}

/// `path` seen from the directory `root_dir`.
pub fn resolve_path(path: &str, root_dir: &str) -> (out: String)
    ensures
        out@ == abs_path_of(path@, root_dir@),
{
    abs_path(path, root_dir)
}

/// Whether a component counts when paths are compared: an empty one and
/// `.` do not.
pub open spec fn is_lexical(component: Seq<char>) -> bool {
    component.len() > 0 && component != seq!['.']
}

/// The components of `parts` that count when paths are compared.
pub open spec fn lexical_parts(parts: Seq<Seq<char>>) -> Seq<Seq<char>>
    decreases parts.len(),
{
    if parts.len() == 0 {
        seq![]
    } else if is_lexical(parts.last()) {
        lexical_parts(parts.drop_last()).push(parts.last())
    } else {
        lexical_parts(parts.drop_last())
    }
}

/// The one-character name of the directory that one is in.
pub open spec fn here() -> Seq<char> {
    seq!['.']
}

/// Whether a path starts with the name of the directory that one is in,
/// which counts as a component only there.
pub open spec fn starts_here(path: Seq<char>) -> bool {
    split_on(path, '/')[0] == here()
}

/// The components of a path as they are compared: the root, where the path
/// starts there; the directory that one is in, where the path starts with
/// its name; and then the named components and the steps up.
pub open spec fn lexical_of(path: Seq<char>) -> Seq<Seq<char>> {
    (if is_absolute(path) {
        seq![sep()]
    } else {
        seq![]
    }) + (if starts_here(path) {
        seq![here()]
    } else {
        seq![]
    }) + lexical_parts(split_on(path, '/'))
}

/// Whether `path` starts with `base`, component by component, as written:
/// the components of `base`, the root among them, are the first components
/// of `path`.
pub open spec fn lexically_under(path: Seq<char>, base: Seq<char>) -> bool {
    let p = lexical_of(path);
    let b = lexical_of(base);
    b.len() <= p.len() && p.take(b.len() as int) == b
}

fn lexical_components(path: &Vec<char>) -> (out: Vec<Vec<char>>)
    ensures
        vec_views(out@) == lexical_of(path@),
{
    let parts = split_chars(path, '/');
    let ghost all = vec_views(parts@);
    proof {
        crate::text::lemma_join_split(path@, '/');
    }
    assert(all.len() == parts.len());
    assert(all[0] == parts@[0]@);
    let mut kept: Vec<Vec<char>> = Vec::new();
    if path.len() > 0 && char_at(path, 0) == '/' {
        let mut root: Vec<char> = Vec::new();
        root.push('/');
        kept.push(root);
    }
    let ghost rooted = vec_views(kept@);
    assert(rooted =~= if is_absolute(path@) {
        seq![sep()]
    } else {
        seq![]
    });
    let first = &parts[0];
    let leading = first.len() == 1 && char_at(first, 0) == '.';
    proof {
        if leading {
            assert(first@ =~= here());
        }
    }
    if leading {
        let mut dot: Vec<char> = Vec::new();
        dot.push('.');
        kept.push(dot);
    }
    let ghost start = vec_views(kept@);
    assert(start =~= rooted + if starts_here(path@) {
        seq![here()]
    } else {
        seq![]
    });
    let mut i: usize = 0;
    assert(vec_views(kept@) =~= start + lexical_parts(all.take(0)));
    while i < parts.len()
        invariant
            i <= parts.len(),
            all == vec_views(parts@),
            vec_views(kept@) == start + lexical_parts(all.take(i as int)),
        decreases parts.len() - i,
    {
        let part = &parts[i];
        let ghost before = vec_views(kept@);
        assert(all.take(i + 1).drop_last() == all.take(i as int));
        assert(all.take(i + 1).last() == part@);
        let dot = part.len() == 1 && char_at(part, 0) == '.';
        proof {
            if dot {
                assert(part@ =~= seq!['.']);
            }
        }
        if part.len() > 0 && !dot {
            kept.push(slice_of(part, 0, part.len()));
            assert(part@.subrange(0, part.len() as int) == part@);
            assert(vec_views(kept@) == before.push(part@));
            assert(before.push(part@) =~= start + lexical_parts(all.take(i as int)).push(part@));
        }
        i += 1;
    }
    assert(all.take(parts.len() as int) == all);
    kept
}

/// Whether `path` starts with `base`, component by component.
pub fn starts_with_path(path: &str, base: &str) -> (r: bool)
    ensures
        r == lexically_under(path@, base@),
{
    let pc = chars_of(path);
    let bc = chars_of(base);
    let p = lexical_components(&pc);
    let b = lexical_components(&bc);
    let ghost ps = vec_views(p@);
    let ghost bs = vec_views(b@);
    assert(ps.len() == p.len() && bs.len() == b.len());
    if b.len() > p.len() {
        return false;
    }
    let mut i: usize = 0;
    while i < b.len()
        invariant
            i <= b.len() <= p.len(),
            ps == vec_views(p@),
            bs == vec_views(b@),
            ps == lexical_of(path@),
            bs == lexical_of(base@),
            forall|k: int| 0 <= k < i ==> ps[k] == bs[k],
        decreases b.len() - i,
    {
        assert(ps[i as int] == p@[i as int]@);
        assert(bs[i as int] == b@[i as int]@);
        if !same_chars(&p[i], &b[i]) {
            assert(ps.take(bs.len() as int)[i as int] != bs[i as int]);
            return false;
        }
        i += 1;
    }
    assert(ps.take(bs.len() as int) =~= bs);
    true
}

/// `s` without what follows its last component: separators at its end, and
/// `.` after a separator, which is no component. The first `floor`
/// characters, the root of a path that starts there, always stay.
pub open spec fn tail_trimmed(s: Seq<char>, floor: int) -> Seq<char>
    decreases s.len(),
{
    if (s.len() > floor && s.len() > 0 && s.last() == '/') || (s.len() >= 2 && s.last() == '.'
        && s[s.len() - 2] == '/') {
        tail_trimmed(s.drop_last(), floor)
    } else {
        s
    }
}

/// How many characters the root takes at the start of a path.
pub open spec fn root_len(path: Seq<char>) -> int {
    if is_absolute(path) {
        1
    } else {
        0
    }
}

/// The path without its last component, as `Path::parent` gives it: the
/// text up to the end of the component before the last one; nothing for a
/// path without a component after the root, and so for the empty path.
pub open spec fn parent_path_of(path: Seq<char>) -> Option<Seq<char>> {
    let floor = root_len(path);
    let whole = tail_trimmed(path, floor);
    if whole.len() <= floor {
        None
    } else {
        Some(tail_trimmed(whole.take(last_sep(whole) + 1), floor))
    }
}

/// The length of `v[..n]` without what follows its last component.
fn trim_tail(v: &Vec<char>, n: usize, floor: usize) -> (m: usize)
    requires
        n <= v.len(),
    ensures
        m <= n,
        v@.take(m as int) == tail_trimmed(v@.take(n as int), floor as int),
{
    let mut m: usize = n;
    while (m > floor && m > 0 && char_at(v, m - 1) == '/') || (m >= 2 && char_at(v, m - 1) == '.'
        && char_at(v, m - 2) == '/')
        invariant
            m <= n <= v.len(),
            tail_trimmed(v@.take(n as int), floor as int) == tail_trimmed(
                v@.take(m as int),
                floor as int,
            ),
        decreases m,
    {
        assert(v@.take(m as int).drop_last() == v@.take(m - 1));
        m -= 1;
    }
    m
}

/// The path without its last component, as `Path::parent` gives it.
pub fn path_parent(path: &Vec<char>) -> (r: Option<Vec<char>>)
    ensures
        match r {
            Some(parent) => parent_path_of(path@) == Some(parent@),
            None => parent_path_of(path@) is None,
        },
{
    let floor: usize = if path.len() > 0 && char_at(path, 0) == '/' {
        1
    } else {
        0
    };
    assert(path@.take(path.len() as int) == path@);
    let end = trim_tail(path, path.len(), floor);
    if end <= floor {
        return None;
    }
    let whole = slice_of(path, 0, end);
    assert(whole@ == path@.take(end as int));
    proof {
        lemma_last_sep(whole@);
    }
    let cut: usize = match find_last_sep(&whole) {
        Some(i) => i + 1,
        None => 0,
    };
    assert(whole@.take(cut as int) == path@.take(cut as int));
    let keep = trim_tail(path, cut, floor);
    Some(slice_of(path, 0, keep))
}

/// Whether a component counts in a normalized path.
pub open spec fn is_normal(component: Seq<char>) -> bool {
    component.len() > 0 && component != seq!['.'] && component != seq!['.', '.']
}

/// The components of `parts` that count, in order.
pub open spec fn normal_parts(parts: Seq<Seq<char>>) -> Seq<Seq<char>>
    decreases parts.len(),
{
    if parts.len() == 0 {
        seq![]
    } else if is_normal(parts.last()) {
        normal_parts(parts.drop_last()).push(parts.last())
    } else {
        normal_parts(parts.drop_last())
    }
}

/// A path reduced to its named components, joined by `/`: separators at the
/// ends or doubled, `.` and `..` leave no trace.
pub open spec fn slash_path_of(path: Seq<char>) -> Seq<char> {
    join(normal_parts(split_on(path, '/')), sep())
}

/// `path` reduced to its named components, joined by `/`.
pub fn path_to_slash(path: &str) -> (out: String)
    ensures
        out@ == slash_path_of(path@),
{
    let chars = chars_of(path);
    let parts = split_chars(&chars, '/');
    let mut kept: Vec<Vec<char>> = Vec::new();
    let mut i: usize = 0;
    let ghost all = vec_views(parts@);
    while i < parts.len()
        invariant
            i <= parts.len(),
            all == vec_views(parts@),
            vec_views(kept@) == normal_parts(all.take(i as int)),
        decreases parts.len() - i,
    {
        let part = &parts[i];
        let ghost before = vec_views(kept@);
        assert(all.take(i + 1).drop_last() == all.take(i as int));
        assert(all.take(i + 1).last() == part@);
        let dot = part.len() == 1 && char_at(part, 0) == '.';
        let dots = part.len() == 2 && char_at(part, 0) == '.' && char_at(part, 1) == '.';
        proof {
            if part@ == seq!['.'] {
                assert(dot);
            }
            if part@ == seq!['.', '.'] {
                assert(dots);
            }
            if dot {
                assert(part@ =~= seq!['.']);
            }
            if dots {
                assert(part@ =~= seq!['.', '.']);
            }
        }
        if part.len() > 0 && !dot && !dots {
            kept.push(slice_of(part, 0, part.len()));
            assert(part@.subrange(0, part.len() as int) == part@);
            assert(vec_views(kept@) == before.push(part@));
        }
        i += 1;
    }
    assert(all.take(parts.len() as int) == all);
    let joined = join_components(&kept);
    string_of(&joined)
}

} // verus!

//! The reading order of marker files is a strict total order on their
//! paths, so the order in which a walk finds the marker files does not
//! matter.

use crate::context::{
    gw_file_list, gw_rules_of, lemma_gw_file_list, marker_before, marker_insert, marker_paths,
    reading_order, MarkerText,
};
use crate::order::{lemma_lex_less_total, lemma_lex_less_transitive, lemma_sorted_unique};
use crate::paths::{components_less, components_of, path_less};
use crate::text::{lemma_join_split};
use vstd::prelude::*;

verus! {

/// Of two different lists of components one comes before the other, and
/// never both.
pub proof fn lemma_components_less_total(a: Seq<Seq<char>>, b: Seq<Seq<char>>)
    ensures
        a == b || components_less(a, b) || components_less(b, a),
        !(components_less(a, b) && components_less(b, a)),
        !components_less(a, a),
    decreases a.len(),
{
    if a.len() > 0 {
        lemma_components_less_total(a.drop_first(), a.drop_first());
    }
    if a.len() > 0 && b.len() > 0 {
        if a[0] == b[0] {
            lemma_components_less_total(a.drop_first(), b.drop_first());
            if a.drop_first() == b.drop_first() {
                assert(a =~= seq![a[0]] + a.drop_first());
                assert(b =~= seq![b[0]] + b.drop_first());
            }
        } else {
            lemma_lex_less_total(a[0], b[0]);
        }
    } else if a.len() == 0 && b.len() == 0 {
        assert(a =~= b);
    }
}

/// The order of lists of components is transitive.
pub proof fn lemma_components_less_transitive(
    a: Seq<Seq<char>>,
    b: Seq<Seq<char>>,
    c: Seq<Seq<char>>,
)
    requires
        components_less(a, b),
        components_less(b, c),
    ensures
        components_less(a, c),
    decreases a.len(),
{
    if a.len() > 0 {
        if a[0] == b[0] && b[0] == c[0] {
            lemma_components_less_transitive(a.drop_first(), b.drop_first(), c.drop_first());
        } else if a[0] != b[0] && b[0] != c[0] {
            lemma_lex_less_transitive(a[0], b[0], c[0]);
            lemma_lex_less_total(a[0], c[0]);
        }
    }
}

/// Different paths have different components.
pub proof fn lemma_components_tell_paths_apart(a: Seq<char>, b: Seq<char>)
    requires
        components_of(a) == components_of(b),
    ensures
        a == b,
{
    lemma_join_split(a, '/');
    lemma_join_split(b, '/');
    if a.len() == 0 && b.len() == 0 {
        assert(a =~= b);
    }
}

/// Of two different marker files one is read before the other, and never
/// both; none is read before itself.
pub proof fn lemma_marker_before_total(a: Seq<char>, b: Seq<char>)
    ensures
        a == b || marker_before(a, b) || marker_before(b, a),
        !(marker_before(a, b) && marker_before(b, a)),
        !marker_before(a, a),
{
    lemma_components_less_total(components_of(a), components_of(b));
    lemma_components_less_total(components_of(a), components_of(a));
    if components_of(a) == components_of(b) {
        lemma_components_tell_paths_apart(a, b);
    }
}

/// Reading order is transitive.
pub proof fn lemma_marker_before_transitive(a: Seq<char>, b: Seq<char>, c: Seq<char>)
    requires
        marker_before(a, b),
        marker_before(b, c),
    ensures
        marker_before(a, c),
{
    if path_less(a, b) && path_less(b, c) {
        lemma_components_less_transitive(components_of(a), components_of(b), components_of(c));
    }
}

/// Each marker file is read before the ones after it.
pub open spec fn in_reading_order(r: Seq<MarkerText>) -> bool {
    forall|i: int, j: int|
        0 <= i < j < r.len() ==> marker_before((#[trigger] r[i]).path, (#[trigger] r[j]).path)
}

/// No two marker files have one path.
pub open spec fn paths_distinct(ms: Seq<MarkerText>) -> bool {
    forall|i: int, j: int| 0 <= i < j < ms.len() ==> (#[trigger] ms[i]).path != (#[trigger] ms[j]).path
}

/// Putting a marker file with a new path at its place keeps the reading
/// order, and the list then holds what it held and the new file.
pub proof fn lemma_marker_insert(s: Seq<MarkerText>, m: MarkerText)
    requires
        in_reading_order(s),
        forall|k: int| 0 <= k < s.len() ==> (#[trigger] s[k]).path != m.path,
    ensures
        in_reading_order(marker_insert(s, m)),
        forall|y: MarkerText| #[trigger] marker_insert(s, m).contains(y) <==> (y == m || s.contains(y)),
    decreases s.len(),
{
    let r = marker_insert(s, m);
    if s.len() > 0 && marker_before(m.path, s.last().path) {
        let t = s.drop_last();
        let u = marker_insert(t, m);
        assert forall|i: int, j: int| 0 <= i < j < t.len() implies marker_before(
            (#[trigger] t[i]).path,
            (#[trigger] t[j]).path,
        ) by {
            assert(marker_before(s[i].path, s[j].path));
        }
        assert forall|k: int| 0 <= k < t.len() implies (#[trigger] t[k]).path != m.path by {
            assert(t[k] == s[k]);
        }
        lemma_marker_insert(t, m);
        assert(r == u.push(s.last()));
        assert forall|i: int, j: int| 0 <= i < j < r.len() implies marker_before(
            (#[trigger] r[i]).path,
            (#[trigger] r[j]).path,
        ) by {
            if j < u.len() {
                assert(r[i] == u[i] && r[j] == u[j]);
            } else {
                assert(r[j] == s.last());
                assert(r[i] == u[i]);
                assert(u.contains(u[i]));
                if u[i] != m {
                    let k = choose|k: int| 0 <= k < t.len() && t[k] == u[i];
                    assert(s[k] == u[i]);
                    assert(marker_before(s[k].path, s[s.len() - 1].path));
                }
            }
        }
        assert forall|y: MarkerText| #[trigger] r.contains(y) <==> (y == m || s.contains(y)) by {
            if r.contains(y) {
                let k = choose|k: int| 0 <= k < r.len() && r[k] == y;
                if k < u.len() {
                    assert(u[k] == y);
                    assert(u.contains(y));
                    if y != m {
                        let q = choose|q: int| 0 <= q < t.len() && t[q] == y;
                        assert(s[q] == y);
                    }
                } else {
                    assert(s[s.len() - 1] == y);
                }
            }
            if y == m {
                assert(u.contains(m));
                let k = choose|k: int| 0 <= k < u.len() && u[k] == m;
                assert(r[k] == m);
            }
            if s.contains(y) {
                let k = choose|k: int| 0 <= k < s.len() && s[k] == y;
                if k < t.len() {
                    assert(t[k] == y);
                    assert(t.contains(y));
                    assert(u.contains(y));
                    let q = choose|q: int| 0 <= q < u.len() && u[q] == y;
                    assert(r[q] == y);
                } else {
                    assert(r[r.len() - 1] == y);
                }
            }
        }
    } else {
        assert(r == s.push(m));
        assert forall|i: int, j: int| 0 <= i < j < r.len() implies marker_before(
            (#[trigger] r[i]).path,
            (#[trigger] r[j]).path,
        ) by {
            if j < s.len() {
                assert(r[i] == s[i] && r[j] == s[j]);
            } else {
                assert(r[j] == m);
                assert(r[i] == s[i]);
                let last = s[s.len() - 1];
                lemma_marker_before_total(last.path, m.path);
                assert(marker_before(last.path, m.path));
                if i < s.len() - 1 {
                    assert(marker_before(s[i].path, last.path));
                    lemma_marker_before_transitive(s[i].path, last.path, m.path);
                }
            }
        }
        assert forall|y: MarkerText| #[trigger] r.contains(y) <==> (y == m || s.contains(y)) by {
            if r.contains(y) {
                let k = choose|k: int| 0 <= k < r.len() && r[k] == y;
                if k < s.len() {
                    assert(s[k] == y);
                }
            }
            if y == m {
                assert(r[r.len() - 1] == m);
            }
            if s.contains(y) {
                let k = choose|k: int| 0 <= k < s.len() && s[k] == y;
                assert(r[k] == y);
            }
        }
    }
}

/// Marker files with different paths come out in reading order, all of
/// them and no other.
pub proof fn lemma_reading_order(ms: Seq<MarkerText>)
    requires
        paths_distinct(ms),
    ensures
        in_reading_order(reading_order(ms)),
        forall|y: MarkerText| #[trigger] reading_order(ms).contains(y) <==> ms.contains(y),
    decreases ms.len(),
{
    if ms.len() > 0 {
        let t = ms.drop_last();
        let m = ms.last();
        assert forall|i: int, j: int| 0 <= i < j < t.len() implies (#[trigger] t[i]).path != (
        #[trigger] t[j]).path by {
            assert(ms[i].path != ms[j].path);
        }
        lemma_reading_order(t);
        let s = reading_order(t);
        assert forall|k: int| 0 <= k < s.len() implies (#[trigger] s[k]).path != m.path by {
            assert(s.contains(s[k]));
            assert(t.contains(s[k]));
            let q = choose|q: int| 0 <= q < t.len() && t[q] == s[k];
            assert(ms[q].path != ms[ms.len() - 1].path);
        }
        lemma_marker_insert(s, m);
        assert forall|y: MarkerText| #[trigger] reading_order(ms).contains(y) <==> ms.contains(
            y,
        ) by {
            if ms.contains(y) {
                let k = choose|k: int| 0 <= k < ms.len() && ms[k] == y;
                if k < t.len() {
                    assert(t[k] == y);
                    assert(t.contains(y));
                }
            }
            if t.contains(y) {
                let k = choose|k: int| 0 <= k < t.len() && t[k] == y;
                assert(ms[k] == y);
            }
            if y == m {
                assert(ms[ms.len() - 1] == y);
            }
        }
    } else {
        assert forall|y: MarkerText| #[trigger] reading_order(ms).contains(y) <==> ms.contains(
            y,
        ) by {}
    }
}

/// Two lists in reading order that hold the same marker files are the same
/// list.
pub proof fn lemma_reading_order_unique(a: Seq<MarkerText>, b: Seq<MarkerText>)
    requires
        in_reading_order(a),
        in_reading_order(b),
        forall|y: MarkerText| a.contains(y) <==> b.contains(y),
    ensures
        a == b,
    decreases a.len(),
{
    if a.len() == 0 {
        if b.len() > 0 {
            assert(b.contains(b[0]));
            assert(a.contains(b[0]));
        }
        assert(a =~= b);
    } else {
        assert(a.contains(a[0]));
        assert(b.contains(a[0]));
        assert(b.contains(b[0]));
        assert(a.contains(b[0]));
        let k = choose|k: int| 0 <= k < a.len() && a[k] == b[0];
        let m = choose|m: int| 0 <= m < b.len() && b[m] == a[0];
        if a[0] != b[0] {
            assert(marker_before(a[0].path, a[k].path));
            assert(marker_before(b[0].path, b[m].path));
            lemma_marker_before_total(a[0].path, b[0].path);
        }
        let ta = a.drop_first();
        let tb = b.drop_first();
        assert forall|i: int, j: int| 0 <= i < j < ta.len() implies marker_before(
            (#[trigger] ta[i]).path,
            (#[trigger] ta[j]).path,
        ) by {
            assert(marker_before(a[i + 1].path, a[j + 1].path));
        }
        assert forall|i: int, j: int| 0 <= i < j < tb.len() implies marker_before(
            (#[trigger] tb[i]).path,
            (#[trigger] tb[j]).path,
        ) by {
            assert(marker_before(b[i + 1].path, b[j + 1].path));
        }
        assert forall|y: MarkerText| ta.contains(y) <==> tb.contains(y) by {
            if ta.contains(y) {
                let i = choose|i: int| 0 <= i < ta.len() && ta[i] == y;
                assert(a[i + 1] == y);
                assert(marker_before(a[0].path, a[i + 1].path));
                lemma_marker_before_total(a[0].path, y.path);
                assert(a.contains(y));
                let j = choose|j: int| 0 <= j < b.len() && b[j] == y;
                assert(j > 0);
                assert(tb[j - 1] == y);
            }
            if tb.contains(y) {
                let i = choose|i: int| 0 <= i < tb.len() && tb[i] == y;
                assert(b[i + 1] == y);
                assert(marker_before(b[0].path, b[i + 1].path));
                lemma_marker_before_total(b[0].path, y.path);
                assert(b.contains(y));
                let j = choose|j: int| 0 <= j < a.len() && a[j] == y;
                assert(j > 0);
                assert(ta[j - 1] == y);
            }
        }
        lemma_reading_order_unique(ta, tb);
        assert(a =~= seq![a[0]] + ta);
        assert(b =~= seq![b[0]] + tb);
    }
}

/// The rules of a project, and with them the list of its selected files,
/// do not depend on the order in which the walk of the tree found the
/// candidates and the marker files.
pub proof fn lemma_selection_ignores_walk_order(
    files: Seq<Seq<char>>,
    markers: Seq<MarkerText>,
    files_again: Seq<Seq<char>>,
    markers_again: Seq<MarkerText>,
    has_dockerfile: bool,
)
    requires
        paths_distinct(markers),
        paths_distinct(markers_again),
        forall|y: Seq<char>| files.contains(y) <==> files_again.contains(y),
        forall|m: MarkerText| markers.contains(m) <==> markers_again.contains(m),
    ensures
        gw_rules_of(markers) == gw_rules_of(markers_again),
        gw_file_list(files, markers, has_dockerfile) == gw_file_list(
            files_again,
            markers_again,
            has_dockerfile,
        ),
{
    lemma_reading_order(markers);
    lemma_reading_order(markers_again);
    lemma_reading_order_unique(reading_order(markers), reading_order(markers_again));
    lemma_gw_file_list(files, markers, has_dockerfile);
    lemma_gw_file_list(files_again, markers_again, has_dockerfile);
    let one = gw_file_list(files, markers, has_dockerfile);
    let other = gw_file_list(files_again, markers_again, has_dockerfile);
    assert forall|y: Seq<char>| marker_paths(markers).contains(y) <==> marker_paths(
        markers_again,
    ).contains(y) by {
        if marker_paths(markers).contains(y) {
            let k = choose|k: int| 0 <= k < marker_paths(markers).len() && marker_paths(markers)[k] == y;
            assert(markers.contains(markers[k]));
            let q = choose|q: int| 0 <= q < markers_again.len() && markers_again[q] == markers[k];
            assert(marker_paths(markers_again)[q] == y);
        }
        if marker_paths(markers_again).contains(y) {
            let k = choose|k: int|
                0 <= k < marker_paths(markers_again).len() && marker_paths(markers_again)[k] == y;
            assert(markers_again.contains(markers_again[k]));
            let q = choose|q: int| 0 <= q < markers.len() && markers[q] == markers_again[k];
            assert(marker_paths(markers)[q] == y);
        }
    }
    assert forall|y: Seq<char>| one.contains(y) <==> other.contains(y) by {}
    lemma_sorted_unique(one, other);
}

} // verus!

//! The two maps that the launcher works with: configuration parameters,
//! each a key with a list of values, and an environment, kept in the order
//! of its keys.

use crate::order::{lemma_lex_less_total, lemma_lex_less_transitive, less, lex_less};
use crate::text::{chars_of, str_eq, views};
use vstd::prelude::*;

verus! {

/// The map that a list of entries stands for; of two entries with one key
/// the later one counts.
pub open spec fn entries_map(s: Seq<(String, Vec<String>)>) -> Map<Seq<char>, Seq<Seq<char>>>
    decreases s.len(),
{
    if s.len() == 0 {
        Map::empty()
    } else {
        entries_map(s.drop_last()).insert(s.last().0@, views(s.last().1@))
    }
}

/// A key is in the map exactly if some entry has it.
pub proof fn lemma_entries_map_dom(s: Seq<(String, Vec<String>)>, k: Seq<char>)
    ensures
        entries_map(s).contains_key(k) <==> exists|i: int| 0 <= i < s.len() && (#[trigger] s[i]).0@ == k,
    decreases s.len(),
{
    if s.len() > 0 {
        let t = s.drop_last();
        lemma_entries_map_dom(t, k);
        if entries_map(s).contains_key(k) {
            if s.last().0@ == k {
                assert(s[s.len() - 1].0@ == k);
            } else {
                let i = choose|i: int| 0 <= i < t.len() && (#[trigger] t[i]).0@ == k;
                assert(s[i].0@ == k);
            }
        }
        if exists|i: int| 0 <= i < s.len() && (#[trigger] s[i]).0@ == k {
            let i = choose|i: int| 0 <= i < s.len() && (#[trigger] s[i]).0@ == k;
            if i < t.len() {
                assert(t[i].0@ == k);
            }
        }
    }
}

/// Taking out an entry with the key `k` changes nothing but what the map
/// holds at `k`.
pub proof fn lemma_entries_map_remove(s: Seq<(String, Vec<String>)>, i: int, k: Seq<char>)
    requires
        0 <= i < s.len(),
        s[i].0@ == k,
    ensures
        entries_map(s.remove(i)).remove(k) == entries_map(s).remove(k),
    decreases s.len(),
{
    let t = s.drop_last();
    if i == s.len() - 1 {
        assert(s.remove(i) == t);
        assert(entries_map(t).insert(k, views(s.last().1@)).remove(k) == entries_map(t).remove(k));
    } else {
        lemma_entries_map_remove(t, i, k);
        let r = s.remove(i);
        assert(r.drop_last() == t.remove(i));
        assert(r.last() == s.last());
        let lk = s.last().0@;
        let lv = views(s.last().1@);
        assert(entries_map(r) == entries_map(t.remove(i)).insert(lk, lv));
        assert(entries_map(t.remove(i)).insert(lk, lv).remove(k) == entries_map(t).insert(
            lk,
            lv,
        ).remove(k)) by {
            if lk == k {
                assert(entries_map(t.remove(i)).insert(lk, lv).remove(k) == entries_map(
                    t.remove(i),
                ).remove(k));
                assert(entries_map(t).insert(lk, lv).remove(k) == entries_map(t).remove(k));
            } else {
                assert(entries_map(t.remove(i)).insert(lk, lv).remove(k) == entries_map(
                    t.remove(i),
                ).remove(k).insert(lk, lv));
                assert(entries_map(t).insert(lk, lv).remove(k) == entries_map(t).remove(k).insert(
                    lk,
                    lv,
                ));
            }
        }
    }
}

/// Configuration parameters: each key has a list of values.
#[derive(Debug)]
pub struct Params {
    entries: Vec<(String, Vec<String>)>,
}

impl View for Params {
    type V = Map<Seq<char>, Seq<Seq<char>>>;

    closed spec fn view(&self) -> Map<Seq<char>, Seq<Seq<char>>> {
        entries_map(self.entries@)
    }
}

impl Params {
    /// No parameters.
    pub fn new() -> (r: Params)
        ensures
            r@ == Map::<Seq<char>, Seq<Seq<char>>>::empty(),
    {
        Params { entries: Vec::new() }
    }

    /// The position of the entry that counts for `key`.
    fn position(&self, key: &str) -> (r: Option<usize>)
        ensures
            match r {
                Some(i) => i < self.entries.len() && self.entries@[i as int].0@ == key@
                    && self@.contains_key(key@) && self@[key@] == views(
                    self.entries@[i as int].1@,
                ),
                None => !self@.contains_key(key@),
            },
    {
        let mut n: usize = self.entries.len();
        let ghost s = self.entries@;
        assert(s.take(n as int) == s);
        while n > 0
            invariant
                n <= self.entries.len(),
                s == self.entries@,
                entries_map(s).contains_key(key@) == entries_map(s.take(n as int)).contains_key(
                    key@,
                ),
                entries_map(s).contains_key(key@) ==> entries_map(s)[key@] == entries_map(
                    s.take(n as int),
                )[key@],
            decreases n,
        {
            assert(s.take(n as int).drop_last() == s.take(n - 1));
            assert(s.take(n as int).last() == s[n - 1]);
            if str_eq(self.entries[n - 1].0.as_str(), key) {
                return Some(n - 1);
            }
            n -= 1;
        }
        None
    }

    /// The values of `key`, if it is set.
    pub fn get(&self, key: &str) -> (r: Option<&Vec<String>>)
        ensures
            match r {
                Some(v) => self@.contains_key(key@) && views(v@) == self@[key@],
                None => !self@.contains_key(key@),
            },
    {
        match self.position(key) {
            Some(i) => Some(&self.entries[i].1),
            None => None,
        }
    }

    /// The first value of `key`, if it is set and has one.
    pub fn first(&self, key: &str) -> (r: Option<&String>)
        ensures
            match r {
                Some(v) => self@.contains_key(key@) && self@[key@].len() > 0 && v@ == self@[key@][0],
                None => !self@.contains_key(key@) || self@[key@].len() == 0,
            },
    {
        match self.get(key) {
            Some(v) => {
                if v.len() > 0 {
                    assert(views(v@)[0] == v@[0]@);
                    Some(&v[0])
                } else {
                    assert(views(v@).len() == 0);
                    None
                }
            },
            None => None,
        }
    }

    /// Whether `key` is set.
    pub fn contains_key(&self, key: &str) -> (r: bool)
        ensures
            r == self@.contains_key(key@),
    {
        self.position(key).is_some()
    }

    /// Takes `key` out.
    pub fn remove(&mut self, key: &str)
        ensures
            final(self)@ == old(self)@.remove(key@),
    {
        let mut i: usize = 0;
        while i < self.entries.len()
            invariant
                i <= self.entries.len(),
                entries_map(self.entries@).remove(key@) == old(self)@.remove(key@),
                forall|j: int| 0 <= j < i ==> (#[trigger] self.entries@[j]).0@ != key@,
            decreases self.entries.len() - i,
        {
            if str_eq(self.entries[i].0.as_str(), key) {
                proof {
                    lemma_entries_map_remove(self.entries@, i as int, key@);
                }
                let _ = self.entries.remove(i);
            } else {
                i += 1;
            }
        }
        proof {
            lemma_entries_map_dom(self.entries@, key@);
            assert(entries_map(self.entries@).remove(key@) =~= entries_map(self.entries@));
        }
    }

    /// Sets `key` to `values`, in place of what it had.
    pub fn insert(&mut self, key: String, values: Vec<String>)
        ensures
            final(self)@ == old(self)@.insert(key@, views(values@)),
    {
        self.remove(key.as_str());
        let ghost before = self.entries@;
        let ghost k = key@;
        let ghost v = views(values@);
        self.entries.push((key, values));
        assert(self.entries@.drop_last() == before);
        assert(old(self)@.remove(k).insert(k, v) =~= old(self)@.insert(k, v));
    }

    /// Appends `values` to what `key` has; an unset key has nothing.
    pub fn extend(&mut self, key: String, values: Vec<String>)
        ensures
            final(self)@ == old(self)@.insert(
                key@,
                if old(self)@.contains_key(key@) {
                    old(self)@[key@] + views(values@)
                } else {
                    views(values@)
                },
            ),
    {
        let mut all: Vec<String> = Vec::new();
        match self.position(key.as_str()) {
            Some(i) => {
                proof {
                    lemma_entries_map_remove(self.entries@, i as int, key@);
                }
                let entry = self.entries.remove(i);
                all = entry.1;
                assert(views(all@) == old(self)@[key@]);
            },
            None => {
                assert(views(all@) =~= Seq::<Seq<char>>::empty());
            },
        }
        let ghost had = views(all@);
        let ghost added = values@;
        let mut more = values;
        all.append(&mut more);
        assert(views(all@) =~= had + views(added));
        self.insert(key, all);
        assert(old(self)@.remove(key@).insert(key@, had + views(added)) =~= old(self)@.insert(
            key@,
            had + views(added),
        ));
    }

    /// The entries; of two with one key the later one counts.
    pub fn entries(&self) -> (r: &Vec<(String, Vec<String>)>)
        ensures
            entries_map(r@) == self@,
    {
        &self.entries
    }
}

/// An environment as a mathematical value: names with their values.
pub type Bindings = Seq<(Seq<char>, Seq<char>)>;

/// The names come in strictly increasing order, so none occurs twice.
pub open spec fn bindings_sorted(s: Bindings) -> bool {
    forall|i: int, j: int| 0 <= i < j < s.len() ==> lex_less(#[trigger] s[i].0, #[trigger] s[j].0)
}

/// `s` with `name` bound to `value`: at its place in the order of names, or
/// in place of the binding that `name` had.
pub open spec fn bind(s: Bindings, name: Seq<char>, value: Seq<char>) -> Bindings
    decreases s.len(),
{
    if s.len() == 0 {
        seq![(name, value)]
    } else if s[0].0 == name {
        seq![(name, value)] + s.drop_first()
    } else if lex_less(name, s[0].0) {
        seq![(name, value)] + s
    } else {
        seq![s[0]] + bind(s.drop_first(), name, value)
    }
}

/// `s` without the bindings of `name`.
pub open spec fn unbind(s: Bindings, name: Seq<char>) -> Bindings
    decreases s.len(),
{
    if s.len() == 0 {
        seq![]
    } else if s.last().0 == name {
        unbind(s.drop_last(), name)
    } else {
        unbind(s.drop_last(), name).push(s.last())
    }
}

/// The value that `name` has in `s`, if it has one.
pub open spec fn lookup(s: Bindings, name: Seq<char>) -> Option<Seq<char>>
    decreases s.len(),
{
    if s.len() == 0 {
        None
    } else if s.last().0 == name {
        Some(s.last().1)
    } else {
        lookup(s.drop_last(), name)
    }
}

/// `s` with every binding of `other` made in turn.
pub open spec fn bind_all(s: Bindings, other: Bindings) -> Bindings
    decreases other.len(),
{
    if other.len() == 0 {
        s
    } else {
        bind(bind_all(s, other.drop_last()), other.last().0, other.last().1)
    }
}

/// Every name of `bind(s, name, value)` is `name` or a name of `s`.
pub proof fn lemma_bind_names(s: Bindings, name: Seq<char>, value: Seq<char>, k: int)
    requires
        0 <= k < bind(s, name, value).len(),
    ensures
        bind(s, name, value)[k].0 == name || exists|m: int|
            0 <= m < s.len() && (#[trigger] s[m]).0 == bind(s, name, value)[k].0,
    decreases s.len(),
{
    let r = bind(s, name, value);
    if s.len() == 0 {
    } else if s[0].0 == name {
        if k > 0 {
            assert(r[k] == s[k]);
        }
    } else if lex_less(name, s[0].0) {
        if k > 0 {
            assert(r[k] == s[k - 1]);
        }
    } else {
        if k == 0 {
            assert(r[0] == s[0]);
        } else {
            let t = s.drop_first();
            lemma_bind_names(t, name, value, k - 1);
            let u = bind(t, name, value);
            assert(r[k] == u[k - 1]);
            if u[k - 1].0 != name {
                let m = choose|m: int| 0 <= m < t.len() && (#[trigger] t[m]).0 == u[k - 1].0;
                assert(s[m + 1].0 == r[k].0);
            }
        }
    }
}

/// Binding a name keeps the names in strictly increasing order.
pub proof fn lemma_bind_sorted(s: Bindings, name: Seq<char>, value: Seq<char>)
    requires
        bindings_sorted(s),
    ensures
        bindings_sorted(bind(s, name, value)),
    decreases s.len(),
{
    let r = bind(s, name, value);
    if s.len() == 0 {
    } else if s[0].0 == name {
        assert forall|i: int, j: int| 0 <= i < j < r.len() implies lex_less(
            #[trigger] r[i].0,
            #[trigger] r[j].0,
        ) by {
            assert(r[j] == s[j]);
            if i > 0 {
                assert(r[i] == s[i]);
            }
            assert(lex_less(s[i].0, s[j].0));
        }
    } else if lex_less(name, s[0].0) {
        assert forall|i: int, j: int| 0 <= i < j < r.len() implies lex_less(
            #[trigger] r[i].0,
            #[trigger] r[j].0,
        ) by {
            assert(r[j] == s[j - 1]);
            if i == 0 {
                if j > 1 {
                    assert(lex_less(s[0].0, s[j - 1].0));
                    lemma_lex_less_transitive(name, s[0].0, s[j - 1].0);
                }
            } else {
                assert(r[i] == s[i - 1]);
                assert(lex_less(s[i - 1].0, s[j - 1].0));
            }
        }
    } else {
        let t = s.drop_first();
        let u = bind(t, name, value);
        assert forall|i: int, j: int| 0 <= i < j < t.len() implies lex_less(
            #[trigger] t[i].0,
            #[trigger] t[j].0,
        ) by {
            assert(lex_less(s[i + 1].0, s[j + 1].0));
        }
        lemma_bind_sorted(t, name, value);
        lemma_lex_less_total(name, s[0].0);
        assert forall|i: int, j: int| 0 <= i < j < r.len() implies lex_less(
            #[trigger] r[i].0,
            #[trigger] r[j].0,
        ) by {
            assert(r[j] == u[j - 1]);
            if i == 0 {
                lemma_bind_names(t, name, value, j - 1);
                if u[j - 1].0 != name {
                    let m = choose|m: int| 0 <= m < t.len() && (#[trigger] t[m]).0 == u[j - 1].0;
                    assert(lex_less(s[0].0, s[m + 1].0));
                }
            } else {
                assert(r[i] == u[i - 1]);
                assert(lex_less(u[i - 1].0, u[j - 1].0));
            }
        }
    }
}

/// Taking a binding out keeps the names in strictly increasing order.
pub proof fn lemma_remove_sorted(s: Bindings, i: int)
    requires
        bindings_sorted(s),
        0 <= i < s.len(),
    ensures
        bindings_sorted(s.remove(i)),
{
    let r = s.remove(i);
    assert forall|a: int, b: int| 0 <= a < b < r.len() implies lex_less(
        #[trigger] r[a].0,
        #[trigger] r[b].0,
    ) by {
        let a0 = if a < i {
            a
        } else {
            a + 1
        };
        let b0 = if b < i {
            b
        } else {
            b + 1
        };
        assert(r[a] == s[a0]);
        assert(r[b] == s[b0]);
        assert(lex_less(s[a0].0, s[b0].0));
    }
}

/// An environment: names bound to values, kept in the order of the names,
/// each name once.
#[derive(Debug, PartialEq, Eq)]
pub struct EnvMap {
    entries: Vec<(String, String)>,
}

/// The bindings that a list of entries stands for.
pub open spec fn bindings_of(s: Seq<(String, String)>) -> Bindings {
    Seq::new(s.len(), |i: int| (s[i].0@, s[i].1@))
}

impl View for EnvMap {
    type V = Bindings;

    closed spec fn view(&self) -> Bindings {
        bindings_of(self.entries@)
    }
}

impl Clone for EnvMap {
    fn clone(&self) -> (r: EnvMap)
        ensures
            r@ == self@,
    {
        proof {
            use_type_invariant(self);
        }
        let mut entries: Vec<(String, String)> = Vec::new();
        let mut i: usize = 0;
        while i < self.entries.len()
            invariant
                i <= self.entries.len(),
                bindings_of(entries@) == bindings_of(self.entries@).take(i as int),
            decreases self.entries.len() - i,
        {
            let ghost before = bindings_of(entries@);
            let name = self.entries[i].0.clone();
            let value = self.entries[i].1.clone();
            entries.push((name, value));
            assert(bindings_of(entries@) =~= before.push(
                (self.entries@[i as int].0@, self.entries@[i as int].1@),
            ));
            assert(bindings_of(entries@) =~= bindings_of(self.entries@).take(i + 1));
            i += 1;
        }
        assert(bindings_of(self.entries@).take(self.entries.len() as int) == bindings_of(
            self.entries@,
        ));
        EnvMap { entries }
    }
}

impl EnvMap {
    #[verifier::type_invariant]
    spec fn in_order(self) -> bool {
        bindings_sorted(bindings_of(self.entries@))
    }

    /// The empty environment.
    pub fn new() -> (r: EnvMap)
        ensures
            r@ == Seq::<(Seq<char>, Seq<char>)>::empty(),
    {
        let r = EnvMap { entries: Vec::new() };
        assert(r@ =~= Seq::<(Seq<char>, Seq<char>)>::empty());
        r
    }

    /// The environment that binds the names of `pairs` in turn, a later
    /// binding of a name in place of an earlier one.
    pub fn from_pairs(pairs: &Vec<(String, String)>) -> (r: EnvMap)
        ensures
            r@ == bind_all(seq![], bindings_of(pairs@)),
    {
        let mut r = EnvMap::new();
        let ghost all = bindings_of(pairs@);
        let mut i: usize = 0;
        while i < pairs.len()
            invariant
                i <= pairs.len(),
                all == bindings_of(pairs@),
                r@ == bind_all(seq![], all.take(i as int)),
            decreases pairs.len() - i,
        {
            assert(all.take(i + 1).drop_last() == all.take(i as int));
            assert(all.take(i + 1).last() == all[i as int]);
            r.insert(pairs[i].0.clone(), pairs[i].1.clone());
            i += 1;
        }
        assert(all.take(pairs.len() as int) == all);
        r
    }

    /// Binds `name` to `value`, in place of what it was bound to.
    pub fn insert(&mut self, name: String, value: String)
        ensures
            final(self)@ == bind(old(self)@, name@, value@),
    {
        proof {
            use_type_invariant(&*self);
        }
        let ghost s = self@;
        let mut entries: Vec<(String, String)> = Vec::new();
        std::mem::swap(&mut self.entries, &mut entries);
        let key = chars_of(name.as_str());
        let mut p: usize = 0;
        let mut present = false;
        assert(s.skip(0) == s);
        assert(s.take(0) + bind(s, name@, value@) == bind(s, name@, value@));
        while p < entries.len()
            invariant_except_break
                p <= entries.len(),
                !present,
                bind(s, name@, value@) == s.take(p as int) + bind(s.skip(p as int), name@, value@),
            invariant
                s == bindings_of(entries@),
                key@ == name@,
            ensures
                p <= entries.len(),
                present ==> p < entries.len() && bind(s, name@, value@) == s.take(p as int)
                    + seq![(name@, value@)] + s.skip(p + 1),
                !present ==> bind(s, name@, value@) == s.take(p as int) + seq![(name@, value@)]
                    + s.skip(p as int),
            decreases entries.len() - p,
        {
            let ghost rest = s.skip(p as int);
            assert(rest[0] == s[p as int]);
            assert(rest.drop_first() == s.skip(p + 1));
            let here = chars_of(entries[p].0.as_str());
            if crate::text::same_chars(&here, &key) {
                present = true;
                assert(s.take(p as int) + (seq![(name@, value@)] + rest.drop_first()) == s.take(
                    p as int,
                ) + seq![(name@, value@)] + s.skip(p + 1));
                break;
            }
            if less(&key, &here) {
                assert(s.take(p as int) + (seq![(name@, value@)] + rest) == s.take(p as int)
                    + seq![(name@, value@)] + rest);
                break;
            }
            assert(s.take(p as int) + (seq![rest[0]] + bind(rest.drop_first(), name@, value@))
                == s.take(p + 1) + bind(s.skip(p + 1), name@, value@));
            p += 1;
        }
        let ghost k = name@;
        let ghost v = value@;
        if present {
            entries.set(p, (name, value));
            assert(bindings_of(entries@) =~= s.take(p as int) + seq![(k, v)] + s.skip(p + 1));
        } else {
            if p == entries.len() {
                assert(s.skip(p as int) == Seq::<(Seq<char>, Seq<char>)>::empty());
            }
            entries.insert(p, (name, value));
            assert(bindings_of(entries@) =~= s.take(p as int) + seq![(k, v)] + s.skip(p as int));
        }
        proof {
            lemma_bind_sorted(s, k, v);
        }
        self.entries = entries;
    }

    /// Takes the binding of `name` out.
    pub fn remove(&mut self, name: &str)
        ensures
            final(self)@ == unbind(old(self)@, name@),
    {
        proof {
            use_type_invariant(&*self);
        }
        let ghost s = self@;
        let mut entries: Vec<(String, String)> = Vec::new();
        std::mem::swap(&mut self.entries, &mut entries);
        let mut n: usize = entries.len();
        assert(s.take(n as int) == s);
        assert(s.skip(n as int) == Seq::<(Seq<char>, Seq<char>)>::empty());
        while n > 0
            invariant
                n <= entries.len() <= s.len(),
                bindings_sorted(bindings_of(entries@)),
                bindings_of(entries@).take(n as int) == s.take(n as int),
                unbind(s, name@) == unbind(s.take(n as int), name@) + bindings_of(entries@).skip(
                    n as int,
                ),
            decreases n,
        {
            let ghost cur = bindings_of(entries@);
            assert(s.take(n as int).drop_last() == s.take(n - 1));
            assert(s.take(n as int).last() == cur[n - 1]) by {
                assert(cur.take(n as int)[n - 1] == s.take(n as int)[n - 1]);
            }
            assert(cur.take(n - 1) == s.take(n - 1)) by {
                assert(cur.take(n as int).take(n - 1) == cur.take(n - 1));
                assert(s.take(n as int).take(n - 1) == s.take(n - 1));
            }
            if str_eq(entries[n - 1].0.as_str(), name) {
                proof {
                    lemma_remove_sorted(cur, n - 1);
                }
                let _ = entries.remove(n - 1);
                assert(bindings_of(entries@) =~= cur.remove(n - 1));
                assert(bindings_of(entries@).skip(n - 1) == cur.skip(n as int));
                assert(bindings_of(entries@).take(n - 1) == cur.take(n - 1));
            } else {
                assert(cur.skip(n - 1) == seq![cur[n - 1]] + cur.skip(n as int));
                assert(unbind(s.take(n as int), name@) + cur.skip(n as int) == unbind(
                    s.take(n - 1),
                    name@,
                ) + cur.skip(n - 1));
            }
            n -= 1;
        }
        assert(s.take(0) == Seq::<(Seq<char>, Seq<char>)>::empty());
        assert(bindings_of(entries@).skip(0) == bindings_of(entries@));
        self.entries = entries;
    }

    /// The value that `name` is bound to.
    pub fn get(&self, name: &str) -> (r: Option<&String>)
        ensures
            match r {
                Some(v) => lookup(self@, name@) == Some(v@),
                None => lookup(self@, name@) is None,
            },
    {
        let ghost s = self@;
        let mut n: usize = self.entries.len();
        assert(s.take(n as int) == s);
        while n > 0
            invariant
                n <= self.entries.len(),
                s == self@,
                lookup(s, name@) == lookup(s.take(n as int), name@),
            decreases n,
        {
            assert(s.take(n as int).drop_last() == s.take(n - 1));
            assert(s.take(n as int).last() == s[n - 1]);
            if str_eq(self.entries[n - 1].0.as_str(), name) {
                return Some(&self.entries[n - 1].1);
            }
            n -= 1;
        }
        None
    }

    /// Makes every binding of `other`, in turn.
    pub fn extend(&mut self, other: &EnvMap)
        ensures
            final(self)@ == bind_all(old(self)@, other@),
    {
        let mut i: usize = 0;
        let ghost o = other@;
        while i < other.entries.len()
            invariant
                i <= other.entries.len(),
                o == other@,
                self@ == bind_all(old(self)@, o.take(i as int)),
            decreases other.entries.len() - i,
        {
            assert(o.take(i + 1).drop_last() == o.take(i as int));
            assert(o.take(i + 1).last() == o[i as int]);
            let name = other.entries[i].0.clone();
            let value = other.entries[i].1.clone();
            self.insert(name, value);
            i += 1;
        }
        assert(o.take(other.entries.len() as int) == o);
    }

    /// The bindings, which come in the order of their names, each name once.
    pub fn entries(&self) -> (r: &Vec<(String, String)>)
        ensures
            bindings_of(r@) == self@,
            bindings_sorted(self@),
    {
        proof {
            use_type_invariant(self);
        }
        &self.entries
    }

    /// The number of bindings.
    pub fn len(&self) -> (n: usize)
        ensures
            n == self@.len(),
    {
        self.entries.len()
    }
}

} // verus!

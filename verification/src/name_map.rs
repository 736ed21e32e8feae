//! A map from names to values that keeps its entries sorted by name.
//!
//! Names are ordered character by character, by code point, a shorter name
//! before any longer one it begins; this is the order of their UTF-8 bytes.
use vstd::prelude::*;

use crate::text::{chars_of, str_eq};

verus! {

/// Whether name `a` sorts strictly before name `b`.
pub open spec fn key_before(a: Seq<char>, b: Seq<char>) -> bool
    decreases a.len(),
{
    if b.len() == 0 {
        false
    } else if a.len() == 0 {
        true
    } else if a[0] != b[0] {
        a[0] < b[0]
    } else {
        key_before(a.drop_first(), b.drop_first())
    }
}

/// No name sorts before itself, and of two different names one sorts first.
pub proof fn lemma_key_before_total(a: Seq<char>, b: Seq<char>)
    ensures
        !key_before(a, a),
        key_before(a, b) ==> !key_before(b, a) && a != b,
        a != b ==> key_before(a, b) || key_before(b, a),
    decreases a.len(),
{
    if a.len() > 0 && b.len() > 0 {
        lemma_key_before_total(a.drop_first(), b.drop_first());
        lemma_key_before_total(a.drop_first(), a.drop_first());
        if a != b && a[0] == b[0] {
            assert(a.drop_first() != b.drop_first()) by {
                if a.drop_first() == b.drop_first() {
                    assert(a =~= seq![a[0]] + a.drop_first());
                    assert(b =~= seq![b[0]] + b.drop_first());
                }
            }
        }
    } else if a.len() > 0 {
        lemma_key_before_total(a.drop_first(), a.drop_first());
    } else if b.len() == 0 {
        assert(a =~= b);
    }
}

/// The order is transitive.
pub proof fn lemma_key_before_transitive(a: Seq<char>, b: Seq<char>, c: Seq<char>)
    requires
        key_before(a, b),
        key_before(b, c),
    ensures
        key_before(a, c),
    decreases a.len(),
{
    if a.len() > 0 && a[0] == b[0] && b[0] == c[0] {
        lemma_key_before_transitive(a.drop_first(), b.drop_first(), c.drop_first());
    }
}

/// Entries whose names strictly increase.
pub open spec fn sorted_keys<V>(es: Seq<(String, V)>) -> bool {
    forall|i: int, j: int| 0 <= i < j < es.len() ==> key_before(#[trigger] es[i].0@, #[trigger] es[j].0@)
}

/// Values keyed by name, sorted by name, each name once.
#[derive(Debug, Clone)]
pub struct NameMap<V> {
    pub entries: Vec<(String, V)>,
}

/// Index of the entry named `k`, or -1.
pub open spec fn key_index<V>(es: Seq<(String, V)>, k: Seq<char>) -> int
    decreases es.len(),
{
    if es.len() == 0 {
        -1
    } else {
        let i = key_index(es.drop_last(), k);
        if i >= 0 {
            i
        } else if es.last().0@ == k {
            es.len() - 1
        } else {
            -1
        }
    }
}

/// How many entries have names before `k`.
pub open spec fn count_before<V>(es: Seq<(String, V)>, k: Seq<char>) -> int
    decreases es.len(),
{
    if es.len() == 0 {
        0
    } else {
        count_before(es.drop_last(), k) + if key_before(es.last().0@, k) {
            1int
        } else {
            0int
        }
    }
}

/// The entries after setting name `key` to `v`: replaced in place, or added
/// where its name sorts.
pub open spec fn insert_entry<V>(es: Seq<(String, V)>, key: String, v: V) -> Seq<(String, V)> {
    let i = key_index(es, key@);
    if i >= 0 {
        es.update(i, (es[i].0, v))
    } else {
        es.insert(count_before(es, key@), (key, v))
    }
}

pub proof fn lemma_key_index<V>(es: Seq<(String, V)>, k: Seq<char>)
    ensures
        -1 <= key_index(es, k) < es.len(),
        key_index(es, k) >= 0 ==> es[key_index(es, k)].0@ == k,
        key_index(es, k) >= 0 ==> forall|j: int| 0 <= j < key_index(es, k) ==> (#[trigger] es[j]).0@ != k,
        key_index(es, k) < 0 ==> forall|j: int| 0 <= j < es.len() ==> (#[trigger] es[j]).0@ != k,
    decreases es.len(),
{
    if es.len() > 0 {
        let d = es.drop_last();
        lemma_key_index(d, k);
        assert(forall|j: int| 0 <= j < d.len() ==> d[j] == es[j]);
    }
}

pub proof fn lemma_count_before_bounds<V>(es: Seq<(String, V)>, k: Seq<char>)
    ensures
        0 <= count_before(es, k) <= es.len(),
    decreases es.len(),
{
    if es.len() > 0 {
        lemma_count_before_bounds(es.drop_last(), k);
    }
}

/// In sorted entries, the entries with names before `k` are exactly the first ones.
pub proof fn lemma_count_before<V>(es: Seq<(String, V)>, k: Seq<char>)
    requires
        sorted_keys(es),
    ensures
        0 <= count_before(es, k) <= es.len(),
        forall|j: int| 0 <= j < count_before(es, k) ==> key_before(#[trigger] es[j].0@, k),
        forall|j: int| count_before(es, k) <= j < es.len() ==> !key_before(#[trigger] es[j].0@, k),
    decreases es.len(),
{
    if es.len() > 0 {
        let d = es.drop_last();
        assert(sorted_keys(d)) by {
            assert forall|i: int, j: int| 0 <= i < j < d.len() implies key_before(#[trigger] d[i].0@, #[trigger] d[j].0@) by {
                assert(d[i] == es[i] && d[j] == es[j]);
            }
        }
        lemma_count_before(d, k);
        let n = es.len() - 1;
        assert forall|j: int| 0 <= j < n implies (#[trigger] d[j]) == es[j] by {}
        if key_before(es.last().0@, k) {
            assert forall|j: int| 0 <= j < n implies key_before(#[trigger] es[j].0@, k) by {
                assert(d[j] == es[j]);
                assert(key_before(es[j].0@, es[n].0@));
                lemma_key_before_transitive(es[j].0@, es[n].0@, k);
            }
            assert(count_before(d, k) == n) by {
                if count_before(d, k) < n {
                    let j = count_before(d, k);
                    assert(d[j] == es[j]);
                    assert(key_before(es[j].0@, k));
                    assert(!key_before(d[j].0@, k));
                }
            }
        } else {
            assert forall|j: int| 0 <= j < count_before(es, k) implies key_before(#[trigger] es[j].0@, k) by {
                assert(d[j] == es[j]);
            }
        }
        assert forall|j: int| count_before(es, k) <= j < es.len() implies !key_before(#[trigger] es[j].0@, k) by {
            if j < n {
                assert(d[j] == es[j]);
            }
        }
    }
}

/// Setting a name keeps the entries sorted.
pub proof fn lemma_insert_sorted<V>(es: Seq<(String, V)>, key: String, v: V)
    requires
        sorted_keys(es),
    ensures
        sorted_keys(insert_entry(es, key, v)),
{
    lemma_key_index(es, key@);
    lemma_count_before(es, key@);
    let r = insert_entry(es, key, v);
    if key_index(es, key@) < 0 {
        let p = count_before(es, key@);
        assert forall|i: int, j: int| 0 <= i < j < r.len() implies key_before(#[trigger] r[i].0@, #[trigger] r[j].0@) by {
            if j < p {
                assert(r[i] == es[i] && r[j] == es[j]);
            } else if j == p {
                assert(r[i] == es[i]);
            } else if i == p {
                assert(r[j] == es[j - 1]);
                lemma_key_before_total(es[j - 1].0@, key@);
            } else if i < p {
                assert(r[i] == es[i] && r[j] == es[j - 1]);
            } else {
                assert(r[i] == es[i - 1] && r[j] == es[j - 1]);
            }
        }
    }
}

/// Whether the name `a` sorts before the name `b`.
pub fn str_before(a: &str, b: &str) -> (r: bool)
    ensures
        r == key_before(a@, b@),
{
    let ca = chars_of(a);
    let cb = chars_of(b);
    let mut i: usize = 0;
    assert(a@.skip(0) =~= a@);
    assert(b@.skip(0) =~= b@);
    while i < ca.len() && i < cb.len() && ca[i] == cb[i]
        invariant
            ca@ == a@,
            cb@ == b@,
            i <= ca@.len(),
            i <= cb@.len(),
            key_before(a@, b@) == key_before(a@.skip(i as int), b@.skip(i as int)),
        decreases ca@.len() - i,
    {
        assert(a@.skip(i + 1) =~= a@.skip(i as int).drop_first());
        assert(b@.skip(i + 1) =~= b@.skip(i as int).drop_first());
        i = i + 1;
    }
    if i == cb.len() {
        false
    } else if i == ca.len() {
        true
    } else {
        ca[i] < cb[i]
    }
}

impl<V> NameMap<V> {
    /// The entries are sorted by name.
    pub open spec fn wf(&self) -> bool {
        sorted_keys(self.entries@)
    }

    pub fn new() -> (m: Self)
        ensures
            m.entries@ == Seq::<(String, V)>::empty(),
            m.wf(),
    {
        NameMap { entries: Vec::new() }
    }

    fn find(&self, key: &str) -> (r: Option<usize>)
        ensures
            r matches Some(i) ==> key_index(self.entries@, key@) == i,
            r is None ==> key_index(self.entries@, key@) == -1,
    {
        proof {
            lemma_key_index(self.entries@, key@);
        }
        let mut i: usize = 0;
        while i < self.entries.len()
            invariant
                i <= self.entries@.len(),
                forall|j: int| 0 <= j < i ==> (#[trigger] self.entries@[j]).0@ != key@,
            decreases self.entries@.len() - i,
        {
            if str_eq(self.entries[i].0.as_str(), key) {
                proof {
                    lemma_key_index(self.entries@, key@);
                }
                return Some(i);
            }
            i = i + 1;
        }
        None
    }

    /// Where an absent name `key` goes: after every name before it.
    fn position(&self, key: &str) -> (r: usize)
        ensures
            r == count_before(self.entries@, key@),
    {
        let mut i: usize = 0;
        let mut n: usize = 0;
        while i < self.entries.len()
            invariant
                i <= self.entries@.len(),
                n <= i,
                n == count_before(self.entries@.take(i as int), key@),
            decreases self.entries@.len() - i,
        {
            assert(self.entries@.take(i + 1).drop_last() =~= self.entries@.take(i as int));
            if str_before(self.entries[i].0.as_str(), key) {
                n = n + 1;
            }
            i = i + 1;
        }
        assert(self.entries@.take(i as int) =~= self.entries@);
        n
    }

    /// Set the value of `key`.
    pub fn insert(&mut self, key: String, value: V)
        requires
            old(self).wf(),
        ensures
            final(self).entries@ == insert_entry(old(self).entries@, key, value),
            final(self).wf(),
    {
        proof {
            lemma_key_index(self.entries@, key@);
            lemma_insert_sorted(self.entries@, key, value);
        }
        match self.find(key.as_str()) {
            Some(i) => {
                let old_entry = self.entries.remove(i);
                self.entries.insert(i, (old_entry.0, value));
                assert(self.entries@ =~= old(self).entries@.update(
                    i as int,
                    (old(self).entries@[i as int].0, value),
                ));
            },
            None => {
                let p = self.position(key.as_str());
                proof {
                    lemma_count_before(self.entries@, key@);
                }
                self.entries.insert(p, (key, value));
            },
        }
    }

    /// The value named `key`, if any.
    pub fn get(&self, key: &str) -> (r: Option<&V>)
        ensures
            key_index(self.entries@, key@) >= 0 ==> r == Some(&self.entries@[key_index(self.entries@, key@)].1),
            key_index(self.entries@, key@) < 0 ==> r is None,
    {
        proof {
            lemma_key_index(self.entries@, key@);
        }
        match self.find(key) {
            Some(i) => Some(&self.entries[i].1),
            None => None,
        }
    }

    /// Whether some value is named `key`.
    pub fn contains_key(&self, key: &str) -> (r: bool)
        ensures
            r == (key_index(self.entries@, key@) >= 0),
    {
        self.find(key).is_some()
    }

    pub fn len(&self) -> (r: usize)
        ensures
            r == self.entries@.len(),
    {
        self.entries.len()
    }

    pub fn is_empty(&self) -> (r: bool)
        ensures
            r == (self.entries@.len() == 0),
    {
        self.entries.len() == 0
    }
}

/// Entries with names as characters and values seen through `f`.
pub open spec fn entries_view<V, W>(es: Seq<(String, V)>, f: spec_fn(V) -> W) -> Seq<(Seq<char>, W)> {
    es.map_values(|e: (String, V)| (e.0@, f(e.1)))
}

/// Index of the entry named `k` in viewed entries, or -1.
pub open spec fn view_key_index<W>(es: Seq<(Seq<char>, W)>, k: Seq<char>) -> int
    decreases es.len(),
{
    if es.len() == 0 {
        -1
    } else {
        let i = view_key_index(es.drop_last(), k);
        if i >= 0 {
            i
        } else if es.last().0 == k {
            es.len() - 1
        } else {
            -1
        }
    }
}

/// How many viewed entries have names before `k`.
pub open spec fn view_count_before<W>(es: Seq<(Seq<char>, W)>, k: Seq<char>) -> int
    decreases es.len(),
{
    if es.len() == 0 {
        0
    } else {
        view_count_before(es.drop_last(), k) + if key_before(es.last().0, k) {
            1int
        } else {
            0int
        }
    }
}

/// Viewed entries after setting name `k` to `w`.
pub open spec fn insert_view<W>(es: Seq<(Seq<char>, W)>, k: Seq<char>, w: W) -> Seq<(Seq<char>, W)> {
    let i = view_key_index(es, k);
    if i >= 0 {
        es.update(i, (es[i].0, w))
    } else {
        es.insert(view_count_before(es, k), (k, w))
    }
}

pub proof fn lemma_view_key_index<V, W>(es: Seq<(String, V)>, k: Seq<char>, f: spec_fn(V) -> W)
    ensures
        view_key_index(entries_view(es, f), k) == key_index(es, k),
        view_count_before(entries_view(es, f), k) == count_before(es, k),
    decreases es.len(),
{
    if es.len() > 0 {
        lemma_view_key_index(es.drop_last(), k, f);
        assert(entries_view(es, f).drop_last() =~= entries_view(es.drop_last(), f));
    }
}

/// Inserting and then viewing is viewing and then inserting.
pub proof fn lemma_insert_view<V, W>(es: Seq<(String, V)>, key: String, v: V, f: spec_fn(V) -> W)
    ensures
        entries_view(insert_entry(es, key, v), f) == insert_view(entries_view(es, f), key@, f(v)),
{
    lemma_view_key_index(es, key@, f);
    lemma_key_index(es, key@);
    let i = key_index(es, key@);
    if i >= 0 {
        assert(entries_view(es.update(i, (es[i].0, v)), f) =~= entries_view(es, f).update(
            i,
            (entries_view(es, f)[i].0, f(v)),
        ));
    } else {
        let p = count_before(es, key@);
        assert(0 <= p <= es.len()) by {
            lemma_count_before_bounds(es, key@);
        }
        assert(entries_view(es.insert(p, (key, v)), f) =~= entries_view(es, f).insert(p, (key@, f(v))));
    }
}


/// Every value after an insertion is the new one or one that was there.
pub proof fn lemma_insert_entry_values<V>(es: Seq<(String, V)>, key: String, v: V, p: spec_fn(V) -> bool)
    requires
        forall|i: int| 0 <= i < es.len() ==> p(#[trigger] es[i].1),
        p(v),
    ensures
        forall|i: int| 0 <= i < insert_entry(es, key, v).len() ==> p(#[trigger] insert_entry(es, key, v)[i].1),
{
    lemma_key_index(es, key@);
    lemma_count_before_bounds(es, key@);
    let r = insert_entry(es, key, v);
    assert forall|i: int| 0 <= i < r.len() implies p(#[trigger] r[i].1) by {
        let k = key_index(es, key@);
        if k < 0 {
            let c = count_before(es, key@);
            if i > c {
                assert(r[i] == es[i - 1]);
            } else if i < c {
                assert(r[i] == es[i]);
            }
        } else if i != k {
            assert(r[i] == es[i]);
        }
    }
}


/// A property of each name with its value holds after an insertion when
/// it holds of every entry and of the new name with its value.
pub proof fn lemma_insert_entry_pairs<V>(es: Seq<(String, V)>, key: String, v: V, p: spec_fn(Seq<char>, V) -> bool)
    requires
        forall|i: int| 0 <= i < es.len() ==> p(#[trigger] es[i].0@, es[i].1),
        p(key@, v),
    ensures
        forall|i: int| 0 <= i < insert_entry(es, key, v).len()
            ==> p(#[trigger] insert_entry(es, key, v)[i].0@, insert_entry(es, key, v)[i].1),
{
    lemma_key_index(es, key@);
    lemma_count_before_bounds(es, key@);
    let r = insert_entry(es, key, v);
    assert forall|i: int| 0 <= i < r.len() implies p(#[trigger] r[i].0@, r[i].1) by {
        let k = key_index(es, key@);
        if k < 0 {
            let c = count_before(es, key@);
            if i > c {
                assert(r[i] == es[i - 1]);
            } else if i < c {
                assert(r[i] == es[i]);
            }
        } else if i != k {
            assert(r[i] == es[i]);
        } else {
            assert(r[i].0@ == key@);
        }
    }
}

/// The value named `k`, if any.
pub open spec fn lookup<V>(es: Seq<(String, V)>, k: Seq<char>) -> Option<V> {
    let i = key_index(es, k);
    if i >= 0 {
        Some(es[i].1)
    } else {
        None
    }
}

/// The first entry named `k` is the one `key_index` finds.
proof fn lemma_key_index_first<V>(es: Seq<(String, V)>, k: Seq<char>, i: int)
    requires
        0 <= i < es.len(),
        es[i].0@ == k,
        forall|j: int| 0 <= j < i ==> (#[trigger] es[j]).0@ != k,
    ensures
        key_index(es, k) == i,
{
    lemma_key_index(es, k);
    let f = key_index(es, k);
    if f < 0 {
        assert(es[i].0@ != k);
    } else if f < i {
        assert(es[f].0@ != k);
    } else if f > i {
        assert(es[i].0@ != k);
    }
}

/// Reading a name after setting it gives the value set; every other name
/// reads as it did before.
pub proof fn lemma_insert_lookup<V>(es: Seq<(String, V)>, key: String, v: V, k: Seq<char>)
    ensures
        lookup(insert_entry(es, key, v), key@) == Some(v),
        k != key@ ==> lookup(insert_entry(es, key, v), k) == lookup(es, k),
{
    lemma_key_index(es, key@);
    lemma_key_index(es, k);
    lemma_count_before_bounds(es, key@);
    let r = insert_entry(es, key, v);
    let i = key_index(es, key@);
    if i >= 0 {
        assert(r[i].0@ == key@);
        assert forall|j: int| 0 <= j < i implies (#[trigger] r[j]).0@ != key@ by {
            assert(r[j] == es[j]);
        }
        lemma_key_index_first(r, key@, i);
        if k != key@ {
            let ik = key_index(es, k);
            if ik >= 0 {
                assert(r[ik] == es[ik]);
                assert forall|j: int| 0 <= j < ik implies (#[trigger] r[j]).0@ != k by {
                    if j != i {
                        assert(r[j] == es[j]);
                    }
                }
                lemma_key_index_first(r, k, ik);
            } else {
                lemma_key_index(r, k);
                if key_index(r, k) >= 0 {
                    let f = key_index(r, k);
                    if f != i {
                        assert(r[f] == es[f]);
                    }
                }
            }
        }
    } else {
        let p = count_before(es, key@);
        assert(r[p].0@ == key@);
        assert forall|j: int| 0 <= j < p implies (#[trigger] r[j]).0@ != key@ by {
            assert(r[j] == es[j]);
        }
        lemma_key_index_first(r, key@, p);
        if k != key@ {
            let ik = key_index(es, k);
            if ik >= 0 {
                let nk = if ik < p { ik } else { ik + 1 };
                assert(r[nk] == es[ik]);
                assert forall|j: int| 0 <= j < nk implies (#[trigger] r[j]).0@ != k by {
                    if j < p {
                        assert(r[j] == es[j]);
                    } else if j > p {
                        assert(r[j] == es[j - 1]);
                    }
                }
                lemma_key_index_first(r, k, nk);
            } else {
                lemma_key_index(r, k);
                if key_index(r, k) >= 0 {
                    let f = key_index(r, k);
                    if f < p {
                        assert(r[f] == es[f]);
                    } else if f > p {
                        assert(r[f] == es[f - 1]);
                    }
                }
            }
        }
    }
}

} // verus!

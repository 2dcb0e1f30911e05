//! A small association table from names to values, the registry shape
//! rooms and houses are built from: unique keys, lookup, replacement
//! on re-insertion, and removal.

use vstd::prelude::*;

verus! {

/// Index of the first entry keyed `key`, if any.
pub open spec fn assoc_index<V>(s: Seq<(String, V)>, key: Seq<char>) -> Option<int>
    decreases s.len(),
{
    if s.len() == 0 {
        None
    } else if s[0].0@ == key {
        Some(0)
    } else {
        match assoc_index(s.skip(1), key) {
            Some(i) => Some(i + 1),
            None => None,
        }
    }
}

/// `assoc_index` reports exactly the first entry under the key.
pub proof fn lemma_assoc_index_at<V>(s: Seq<(String, V)>, key: Seq<char>, i: int)
    requires
        0 <= i < s.len(),
        s[i].0@ == key,
        forall|j: int| 0 <= j < i ==> s[j].0@ != key,
    ensures
        assoc_index(s, key) == Some(i),
    decreases s.len(),
{
    if i > 0 {
        lemma_assoc_index_at(s.skip(1), key, i - 1);
    }
}

/// With no entry under the key, `assoc_index` reports none.
pub proof fn lemma_assoc_index_none<V>(s: Seq<(String, V)>, key: Seq<char>)
    requires
        forall|j: int| 0 <= j < s.len() ==> s[j].0@ != key,
    ensures
        assoc_index(s, key) is None,
    decreases s.len(),
{
    if s.len() > 0 {
        lemma_assoc_index_none(s.skip(1), key);
    }
}

/// What `assoc_index` means, position by position.
pub proof fn lemma_assoc_index_found<V>(s: Seq<(String, V)>, key: Seq<char>)
    ensures
        match assoc_index(s, key) {
            Some(i) => 0 <= i < s.len() && s[i].0@ == key && forall|j: int|
                0 <= j < i ==> s[j].0@ != key,
            None => forall|j: int| 0 <= j < s.len() ==> s[j].0@ != key,
        },
    decreases s.len(),
{
    if s.len() > 0 && s[0].0@ != key {
        lemma_assoc_index_found(s.skip(1), key);
        let t = s.skip(1);
        assert(forall|j: int| 0 <= j < t.len() ==> t[j] == s[j + 1]);
        match assoc_index(t, key) {
            Some(i) => {
                assert forall|j: int| 0 <= j < i + 1 implies s[j].0@ != key by {
                    if j > 0 {
                        assert(t[j - 1].0@ != key);
                    }
                }
            },
            None => {
                assert forall|j: int| 0 <= j < s.len() implies s[j].0@ != key by {
                    if j > 0 {
                        assert(t[j - 1].0@ != key);
                    }
                }
            },
        }
    }
}

/// The table: entries under unique names, in insertion order.
pub struct StrMap<V> {
    entries: Vec<(String, V)>,
}

impl<V> StrMap<V> {
    pub closed spec fn spec_entries(&self) -> Seq<(String, V)> {
        self.entries@
    }

    /// No two entries share a name.
    pub open spec fn wf(&self) -> bool {
        forall|i: int, j: int|
            0 <= i < j < self.spec_entries().len() ==> #[trigger] self.spec_entries()[i].0@
                != #[trigger] self.spec_entries()[j].0@
    }

    pub open spec fn spec_index_of(&self, key: Seq<char>) -> Option<int> {
        assoc_index(self.spec_entries(), key)
    }

    pub open spec fn spec_contains(&self, key: Seq<char>) -> bool {
        self.spec_index_of(key) is Some
    }

    /// The value under `key`, if any.
    pub open spec fn spec_get(&self, key: Seq<char>) -> Option<V> {
        match self.spec_index_of(key) {
            Some(i) => Some(self.spec_entries()[i].1),
            None => None,
        }
    }

    pub fn new() -> (r: StrMap<V>)
        ensures
            r.spec_entries().len() == 0,
            r.wf(),
    {
        StrMap { entries: Vec::new() }
    }

    pub fn len(&self) -> (r: usize)
        ensures
            r == self.spec_entries().len(),
    {
        self.entries.len()
    }

    /// Index of the entry under `key`, by scanning.
    fn find_index(&self, key: &str) -> (r: Option<usize>)
        ensures
            match r {
                Some(i) => self.spec_index_of(key@) == Some(i as int),
                None => self.spec_index_of(key@) is None,
            },
    {
        let k: String = key.to_owned();
        let n = self.entries.len();
        let mut i: usize = 0;
        while i < n
            invariant
                k@ == key@,
                n == self.entries@.len(),
                0 <= i <= n,
                forall|j: int| 0 <= j < i ==> #[trigger] self.entries@[j].0@ != key@,
            decreases n - i,
        {
            if self.entries[i].0 == k {
                proof {
                    lemma_assoc_index_at(self.spec_entries(), key@, i as int);
                }
                return Some(i);
            }
            i += 1;
        }
        proof {
            lemma_assoc_index_none(self.spec_entries(), key@);
        }
        None
    }

    /// The value under `key`, if any.
    pub fn get<'a>(&'a self, key: &str) -> (r: Option<&'a V>)
        ensures
            match r {
                Some(v) => self.spec_get(key@) == Some(*v),
                None => self.spec_get(key@) is None,
            },
    {
        match self.find_index(key) {
            Some(i) => {
                proof {
                    lemma_assoc_index_found(self.spec_entries(), key@);
                }
                Some(&self.entries[i].1)
            },
            None => None,
        }
    }

    /// Mutable access to the value under `key`, if any.
    pub fn get_mut<'a>(&'a mut self, key: &str) -> (r: Option<&'a mut V>)
        requires
            old(self).wf(),
        ensures
            final(self).wf(),
            r is None ==> old(self).spec_get(key@) is None && final(self).spec_entries() == old(self).spec_entries(),
            r is Some ==> match old(self).spec_index_of(key@) {
                Some(i) => *r.unwrap() == old(self).spec_entries()[i].1 && final(self).spec_entries() == old(self).spec_entries().update(
                    i,
                    (old(self).spec_entries()[i].0, *final(r.unwrap())),
                ),
                None => false,
            },
    {
        let idx = self.find_index(key);
        match idx {
            Some(i) => {
                proof {
                    lemma_assoc_index_found(self.spec_entries(), key@);
                    let es = self.spec_entries();
                    let up = es.update(i as int, (es[i as int].0, es[i as int].1));
                    assert forall|a: int, b: int|
                        0 <= a < b < up.len() implies #[trigger] up[a].0@ != #[trigger] up[b].0@ by {
                        assert(es[a].0@ != es[b].0@);
                    }
                }
                Some(&mut self.entries[i].1)
            },
            None => None,
        }
    }

    /// Puts `value` under `key`: a fresh name is appended, a known one
    /// has its value replaced, as a map insertion does.
    pub fn insert(&mut self, key: &str, value: V)
        requires
            old(self).wf(),
        ensures
            final(self).wf(),
            final(self).spec_contains(key@),
            final(self).spec_get(key@) == Some(value),
            match old(self).spec_index_of(key@) {
                Some(i) => final(self).spec_entries().len() == old(self).spec_entries().len() && (
                forall|j: int|
                    0 <= j < old(self).spec_entries().len() && j != i ==> final(self).spec_entries()[j] == old(self).spec_entries()[j]) && final(self).spec_entries()[i].0@ == key@ && final(self).spec_entries()[i].1 == value,
                None => final(self).spec_entries().len() == old(self).spec_entries().len() + 1 && (
                forall|j: int|
                    0 <= j < old(self).spec_entries().len() ==> final(self).spec_entries()[j]
                        == old(self).spec_entries()[j]) && final(self).spec_entries().last().0@ == key@ && final(self).spec_entries().last().1 == value,
            },
            forall|k: Seq<char>|
                k != key@ ==> #[trigger] final(self).spec_contains(k) == old(self).spec_contains(
                    k,
                ),
    {
        let idx = self.find_index(key);
        proof {
            lemma_assoc_index_found(self.spec_entries(), key@);
        }
        let named: String = key.to_owned();
        match idx {
            Some(i) => {
                let ghost pre = self.spec_entries();
                self.entries.set(i, (named, value));
                proof {
                    let es = self.spec_entries();
                    assert(es == pre.update(i as int, (named, value)));
                    assert forall|j: int|
                        0 <= j < pre.len() && j != i implies es[j] == pre[j] by {
                        assert(pre.update(i as int, (named, value))[j] == pre[j]);
                    }
                    assert(es[i as int] == (named, value));
                    assert forall|a: int, b: int|
                        0 <= a < b < es.len() implies #[trigger] es[a].0@ != #[trigger] es[b].0@ by {
                        assert(pre[a].0@ != pre[b].0@);
                    }
                    assert forall|j: int| 0 <= j < i implies es[j].0@ != key@ by {
                        assert(pre[j].0@ != key@);
                    }
                    lemma_assoc_index_at(es, key@, i as int);
                    assert forall|k: Seq<char>| k != key@ implies #[trigger] assoc_index(es, k)
                        is Some <==> assoc_index(pre, k) is Some by {
                        lemma_assoc_index_found(es, k);
                        lemma_assoc_index_found(pre, k);
                        match assoc_index(pre, k) {
                            Some(w) => {
                                assert(w != i);
                                assert(es[w] == pre[w]);
                                if assoc_index(es, k) is None {
                                    assert(es[w].0@ != k);
                                }
                            },
                            None => {
                                match assoc_index(es, k) {
                                    Some(w) => {
                                        assert(es[w].0@ == k);
                                        assert(w != i);
                                        assert(pre[w].0@ != k);
                                    },
                                    None => {},
                                }
                            },
                        }
                    }
                }
            },
            None => {
                let ghost pre = self.spec_entries();
                let ghost pushed = (named, value);
                self.entries.push((named, value));
                proof {
                    let es = self.spec_entries();
                    assert(es == pre.push(pushed));
                    assert forall|j: int| 0 <= j < pre.len() implies es[j] == pre[j] by {
                        assert(pre.push(pushed)[j] == pre[j]);
                    }
                    assert(pre.push(pushed)[pre.len() as int] == pushed);
                    assert(es.last() == pushed);
                    assert(es[pre.len() as int].0@ == key@);
                    assert forall|a: int, b: int|
                        0 <= a < b < es.len() implies #[trigger] es[a].0@ != #[trigger] es[b].0@ by {
                        if b == pre.len() {
                            assert(pre[a].0@ != key@);
                        } else {
                            assert(pre[a].0@ != pre[b].0@);
                        }
                    }
                    assert forall|j: int| 0 <= j < pre.len() implies es[j].0@ != key@ by {
                        assert(pre[j].0@ != key@);
                    }
                    lemma_assoc_index_at(es, key@, pre.len() as int);
                    assert forall|k: Seq<char>| k != key@ implies #[trigger] assoc_index(es, k)
                        is Some <==> assoc_index(pre, k) is Some by {
                        lemma_assoc_index_found(es, k);
                        lemma_assoc_index_found(pre, k);
                        match assoc_index(pre, k) {
                            Some(w) => {
                                if assoc_index(es, k) is None {
                                    assert(es[w].0@ != k);
                                }
                            },
                            None => {
                                match assoc_index(es, k) {
                                    Some(w) => {
                                        assert(es[w].0@ == k);
                                        if w < pre.len() {
                                            assert(pre[w].0@ != k);
                                        }
                                    },
                                    None => {},
                                }
                            },
                        }
                    }
                }
            },
        }
    }

    /// Takes the value under `key` out, if any; the other entries keep
    /// their places.
    pub fn remove(&mut self, key: &str) -> (r: Option<V>)
        requires
            old(self).wf(),
        ensures
            final(self).wf(),
            !final(self).spec_contains(key@),
            match old(self).spec_index_of(key@) {
                Some(i) => r == Some(old(self).spec_entries()[i].1) && final(self).spec_entries()
                    == old(self).spec_entries().remove(i),
                None => r is None && final(self).spec_entries() == old(self).spec_entries(),
            },
            forall|k: Seq<char>|
                k != key@ ==> #[trigger] final(self).spec_contains(k) == old(self).spec_contains(
                    k,
                ),
    {
        let idx = self.find_index(key);
        proof {
            lemma_assoc_index_found(self.spec_entries(), key@);
        }
        match idx {
            Some(i) => {
                let entry = self.entries.remove(i);
                proof {
                    let pre = old(self).spec_entries();
                    let es = self.spec_entries();
                    assert(es == pre.remove(i as int));
                    assert forall|a: int, b: int|
                        0 <= a < b < es.len() implies #[trigger] es[a].0@ != #[trigger] es[b].0@ by {
                        let a0: int = if a < i {
                            a
                        } else {
                            a + 1
                        };
                        let b0: int = if b < i {
                            b
                        } else {
                            b + 1
                        };
                        assert(es[a] == pre[a0] && es[b] == pre[b0]);
                        assert(pre[a0].0@ != pre[b0].0@);
                    }
                    assert forall|j: int| 0 <= j < es.len() implies es[j].0@ != key@ by {
                        let j0: int = if j < i {
                            j
                        } else {
                            j + 1
                        };
                        assert(es[j] == pre[j0]);
                        if j0 != i {
                            assert(pre[j0].0@ != pre[i as int].0@);
                        }
                    }
                    lemma_assoc_index_none(es, key@);
                    assert forall|k: Seq<char>|
                        k != key@ implies #[trigger] assoc_index(es, k) is Some <==> assoc_index(
                        pre,
                        k,
                    ) is Some by {
                        lemma_assoc_index_found(es, k);
                        lemma_assoc_index_found(pre, k);
                        match assoc_index(pre, k) {
                            Some(w) => {
                                if w < i {
                                    assert(es[w] == pre[w]);
                                    lemma_assoc_index_found(es, k);
                                    if assoc_index(es, k) is None {
                                        assert(es[w].0@ != k);
                                    }
                                } else {
                                    assert(w != i);
                                    assert(es[w - 1] == pre[w]);
                                    if assoc_index(es, k) is None {
                                        assert(es[w - 1].0@ != k);
                                    }
                                }
                            },
                            None => {
                                match assoc_index(es, k) {
                                    Some(w) => {
                                        let w0: int = if w < i {
                                            w
                                        } else {
                                            w + 1
                                        };
                                        assert(es[w] == pre[w0]);
                                        assert(pre[w0].0@ != k);
                                    },
                                    None => {},
                                }
                            },
                        }
                    }
                }
                Some(entry.1)
            },
            None => None,
        }
    }

    /// The names in the table, in place order.
    pub fn keys(&self) -> (r: Vec<String>)
        ensures
            r@.len() == self.spec_entries().len(),
            forall|i: int|
                0 <= i < r@.len() ==> #[trigger] r@[i]@ == self.spec_entries()[i].0@,
    {
        let mut out: Vec<String> = Vec::new();
        let n = self.entries.len();
        let mut i: usize = 0;
        while i < n
            invariant
                n == self.entries@.len(),
                0 <= i <= n,
                out@.len() == i,
                forall|j: int| 0 <= j < i ==> #[trigger] out@[j]@ == self.entries@[j].0@,
            decreases n - i,
        {
            out.push(self.entries[i].0.clone());
            i += 1;
        }
        out
    }

    /// The entry in place `i`.
    pub fn entry_at(&self, i: usize) -> (r: (&String, &V))
        requires
            i < self.spec_entries().len(),
        ensures
            *r.0 == self.spec_entries()[i as int].0,
            *r.1 == self.spec_entries()[i as int].1,
    {
        (&self.entries[i].0, &self.entries[i].1)
    }
}

} // verus!

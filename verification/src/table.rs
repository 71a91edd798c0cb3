//! A keyed table of ledger entries: the model of one family of persistent
//! storage entries (all keys of one shape, each mapped to one value).

use vstd::prelude::*;
use crate::common::{Bytes32, same_bytes32};

verus! {

/// Keys of a [`Table`]: equality is decided on the key's view.
pub trait TableKey: View + Sized {
    fn same_key(&self, other: &Self) -> (r: bool)
        ensures
            r == (self@ == other@),
    ;

    fn copy_key(&self) -> (r: Self)
        ensures
            r@ == self@,
    ;
}

/// Values of a [`Table`]: a read hands out a copy with the same view.
pub trait TableValue: View + Sized {
    fn copy_value(&self) -> (r: Self)
        ensures
            r@ == self@,
    ;
}

impl TableKey for u64 {
    fn same_key(&self, other: &u64) -> (r: bool) {
        *self == *other
    }

    fn copy_key(&self) -> (r: u64) {
        *self
    }
}

impl TableValue for u32 {
    fn copy_value(&self) -> (r: u32) {
        *self
    }
}

impl TableKey for Bytes32 {
    fn same_key(&self, other: &Bytes32) -> (r: bool) {
        same_bytes32(self, other)
    }

    fn copy_key(&self) -> (r: Bytes32) {
        *self
    }
}

/// The keys of `es` are pairwise distinct.
pub open spec fn keys_distinct<K: TableKey, T: TableValue>(es: Seq<(K, T)>) -> bool {
    forall|i: int, j: int| 0 <= i < j < es.len() ==> (#[trigger] es[i]).0@ != (#[trigger] es[j]).0@
}

/// The contents a table holds after storing each of `es` in order.
pub open spec fn entries_map<K: TableKey, T: TableValue>(es: Seq<(K, T)>) -> Map<K::V, T::V>
    decreases es.len(),
{
    if es.len() == 0 {
        Map::empty()
    } else {
        entries_map(es.drop_last()).insert(es.last().0@, es.last().1@)
    }
}

/// With distinct keys, the entries' contents hold exactly their keys, each
/// with its own value.
pub proof fn lemma_entries_map<K: TableKey, T: TableValue>(es: Seq<(K, T)>)
    requires
        keys_distinct(es),
    ensures
        forall|k: K::V| #[trigger]
            entries_map(es).contains_key(k) <==> exists|i: int| 0 <= i < es.len() && (#[trigger] es[i]).0@ == k,
        forall|i: int|
            0 <= i < es.len() ==> entries_map(es)[(#[trigger] es[i]).0@] == es[i].1@,
    decreases es.len(),
{
    if es.len() > 0 {
        let prev = es.drop_last();
        assert forall|i: int, j: int| 0 <= i < j < prev.len() implies (#[trigger] prev[i]).0@
            != (#[trigger] prev[j]).0@ by {
            assert(prev[i] == es[i] && prev[j] == es[j]);
        }
        lemma_entries_map(prev);
        let m = entries_map(es);
        assert forall|k: K::V| #[trigger] m.contains_key(k) <==> exists|i: int|
            0 <= i < es.len() && (#[trigger] es[i]).0@ == k by {
            if m.contains_key(k) {
                if k == es.last().0@ {
                    assert(es[es.len() - 1].0@ == k);
                } else {
                    assert(entries_map(prev).contains_key(k));
                    let i = choose|i: int| 0 <= i < prev.len() && (#[trigger] prev[i]).0@ == k;
                    assert(es[i] == prev[i]);
                }
            }
            if exists|i: int| 0 <= i < es.len() && (#[trigger] es[i]).0@ == k {
                let i = choose|i: int| 0 <= i < es.len() && (#[trigger] es[i]).0@ == k;
                if i < es.len() - 1 {
                    assert(prev[i] == es[i]);
                    assert(entries_map(prev).contains_key(k));
                }
            }
        }
        assert forall|i: int| 0 <= i < es.len() implies m[(#[trigger] es[i]).0@] == es[i].1@ by {
            if i < es.len() - 1 {
                assert(prev[i] == es[i]);
                assert(es[i].0@ != es[es.len() - 1].0@);
            }
        }
    }
}

/// Entries keyed by `K`, each holding one `T`; at most one entry per key.
pub struct Table<K: TableKey, T: TableValue> {
    entries: Vec<(K, T)>,
    contents: Ghost<Map<K::V, T::V>>,
}

impl<K: TableKey, T: TableValue> View for Table<K, T> {
    type V = Map<K::V, T::V>;

    closed spec fn view(&self) -> Map<K::V, T::V> {
        self.contents@
    }
}

impl<K: TableKey, T: TableValue> Table<K, T> {
    /// The entries agree with the abstract contents: keys are distinct, each
    /// entry is in the contents, and each key of the contents has an entry.
    pub closed spec fn wf(&self) -> bool {
        &&& forall|i: int, j: int|
            0 <= i < j < self.entries@.len() ==> (#[trigger] self.entries@[i]).0@
                != (#[trigger] self.entries@[j]).0@
        &&& forall|i: int|
            0 <= i < self.entries@.len() ==> {
                &&& self.contents@.contains_key((#[trigger] self.entries@[i]).0@)
                &&& self.contents@[self.entries@[i].0@] == self.entries@[i].1@
            }
        &&& forall|k: K::V|
            #[trigger] self.contents@.contains_key(k) ==> exists|i: int|
                0 <= i < self.entries@.len() && (#[trigger] self.entries@[i]).0@ == k
    }

    /// An empty table.
    pub fn new() -> (t: Self)
        ensures
            t.wf(),
            t@ == Map::<K::V, T::V>::empty(),
    {
        Table { entries: Vec::new(), contents: Ghost(Map::empty()) }
    }

    /// The position of the entry for `k`, if there is one.
    fn position(&self, k: &K) -> (r: Option<usize>)
        requires
            self.wf(),
        ensures
            match r {
                Some(i) => i < self.entries@.len() && self.entries@[i as int].0@ == k@,
                None => !self@.contains_key(k@),
            },
    {
        let mut i: usize = 0;
        while i < self.entries.len()
            invariant
                self.wf(),
                i <= self.entries@.len(),
                forall|j: int| 0 <= j < i ==> (#[trigger] self.entries@[j]).0@ != k@,
            decreases self.entries@.len() - i,
        {
            if self.entries[i].0.same_key(k) {
                return Some(i);
            }
            i = i + 1;
        }
        None
    }

    /// Whether the table holds an entry for `k`.
    pub fn contains(&self, k: &K) -> (b: bool)
        requires
            self.wf(),
        ensures
            b == self@.contains_key(k@),
    {
        self.position(k).is_some()
    }

    /// The value stored under `k`, if any.
    pub fn get(&self, k: &K) -> (r: Option<&T>)
        requires
            self.wf(),
        ensures
            match r {
                Some(v) => self@.contains_key(k@) && v@ == self@[k@],
                None => !self@.contains_key(k@),
            },
    {
        match self.position(k) {
            Some(i) => Some(&self.entries[i].1),
            None => None,
        }
    }

    /// A copy of the value stored under `k`, if any.
    pub fn get_copy(&self, k: &K) -> (r: Option<T>)
        requires
            self.wf(),
        ensures
            match r {
                Some(v) => self@.contains_key(k@) && v@ == self@[k@],
                None => !self@.contains_key(k@),
            },
    {
        match self.get(k) {
            Some(v) => Some(v.copy_value()),
            None => None,
        }
    }

    /// Stores `v` under `k`, replacing any previous value.
    pub fn insert(&mut self, k: K, v: T)
        requires
            old(self).wf(),
        ensures
            final(self).wf(),
            final(self)@ == old(self)@.insert(k@, v@),
    {
        let ghost kv = k@;
        let ghost vv = v@;
        let pos = self.position(&k);
        match pos {
            Some(i) => {
                self.entries.set(i, (k, v));
            },
            None => {
                self.entries.push((k, v));
            },
        }
        self.contents = Ghost(self.contents@.insert(kv, vv));
        proof {
            let n = self.entries@.len();
            assert forall|k2: K::V| #[trigger] self.contents@.contains_key(k2) implies exists|
                j: int,
            | 0 <= j < n && (#[trigger] self.entries@[j]).0@ == k2 by {
                if k2 == kv {
                    match pos {
                        Some(i) => {
                            assert(self.entries@[i as int].0@ == k2);
                        },
                        None => {
                            assert(self.entries@[n - 1].0@ == k2);
                        },
                    }
                } else {
                    assert(old(self).contents@.contains_key(k2));
                    let j = choose|j: int|
                        0 <= j < old(self).entries@.len() && (#[trigger] old(
                            self,
                        ).entries@[j]).0@ == k2;
                    assert(self.entries@[j].0@ == k2);
                }
            }
        }
    }

    /// Deletes the entry for `k`, if there is one.
    pub fn remove(&mut self, k: &K)
        requires
            old(self).wf(),
        ensures
            final(self).wf(),
            final(self)@ == old(self)@.remove(k@),
    {
        match self.position(k) {
            Some(i) => {
                let ghost old_entries = self.entries@;
                let _ = self.entries.remove(i);
                self.contents = Ghost(self.contents@.remove(k@));
                proof {
                    let n = self.entries@.len();
                    assert forall|j: int| 0 <= j < n implies (#[trigger] self.entries@[j])
                        == if j < i {
                        old_entries[j]
                    } else {
                        old_entries[j + 1]
                    } by {}
                    assert forall|a: int, b: int|
                        0 <= a < b < n implies (#[trigger] self.entries@[a]).0@
                        != (#[trigger] self.entries@[b]).0@ by {
                        let a0 = if a < i { a } else { a + 1 };
                        let b0 = if b < i { b } else { b + 1 };
                        assert(old_entries[a0].0@ != old_entries[b0].0@);
                    }
                    assert forall|j: int| 0 <= j < n implies {
                        &&& self.contents@.contains_key((#[trigger] self.entries@[j]).0@)
                        &&& self.contents@[self.entries@[j].0@] == self.entries@[j].1@
                    } by {
                        let j0 = if j < i { j } else { j + 1 };
                        assert(old_entries[j0].0@ != old_entries[i as int].0@);
                    }
                    assert forall|k2: K::V| #[trigger] self.contents@.contains_key(k2) implies exists|
                        j: int,
                    | 0 <= j < n && (#[trigger] self.entries@[j]).0@ == k2 by {
                        let j0 = choose|j: int|
                            0 <= j < old_entries.len() && (#[trigger] old_entries[j]).0@ == k2;
                        if j0 < i {
                            assert(self.entries@[j0].0@ == k2);
                        } else {
                            assert(j0 != i);
                            assert(self.entries@[j0 - 1].0@ == k2);
                        }
                    }
                }
            },
            None => {
                assert(self.contents@.remove(k@) =~= self.contents@);
            },
        }
    }

    /// Copies of all entries, one per key.
    pub fn to_entries(&self) -> (r: Vec<(K, T)>)
        requires
            self.wf(),
        ensures
            keys_distinct(r@),
            entries_map(r@) == self@,
    {
        let mut out: Vec<(K, T)> = Vec::new();
        let mut i: usize = 0;
        while i < self.entries.len()
            invariant
                self.wf(),
                i <= self.entries@.len(),
                out@.len() == i,
                forall|j: int|
                    0 <= j < i ==> (#[trigger] out@[j]).0@ == self.entries@[j].0@ && out@[j].1@
                        == self.entries@[j].1@,
            decreases self.entries@.len() - i,
        {
            let k = self.entries[i].0.copy_key();
            let v = self.entries[i].1.copy_value();
            out.push((k, v));
            i = i + 1;
        }
        assert forall|a: int, b: int| 0 <= a < b < out@.len() implies (#[trigger] out@[a]).0@
            != (#[trigger] out@[b]).0@ by {
            assert(self.entries@[a].0@ != self.entries@[b].0@);
        }
        proof {
            lemma_entries_map(out@);
            let m = entries_map(out@);
            assert forall|k: K::V| #[trigger] m.contains_key(k) == self@.contains_key(k) by {
                if self@.contains_key(k) {
                    let j = choose|j: int|
                        0 <= j < self.entries@.len() && (#[trigger] self.entries@[j]).0@ == k;
                    assert(out@[j].0@ == k);
                }
                if m.contains_key(k) {
                    let j = choose|j: int| 0 <= j < out@.len() && (#[trigger] out@[j]).0@ == k;
                    assert(self.entries@[j].0@ == k);
                }
            }
            assert forall|k: K::V| #[trigger] m.contains_key(k) implies m[k] == self@[k] by {
                let j = choose|j: int| 0 <= j < out@.len() && (#[trigger] out@[j]).0@ == k;
                assert(self.entries@[j].0@ == k);
            }
            assert(m =~= self@);
        }
        out
    }

    /// A table holding `es`, provided no key occurs twice (`None` otherwise).
    pub fn from_entries(es: &Vec<(K, T)>) -> (r: Option<Self>)
        ensures
            r is Some <==> keys_distinct(es@),
            r matches Some(t) ==> t.wf() && t@ == entries_map(es@),
    {
        let mut i: usize = 0;
        while i < es.len()
            invariant
                i <= es@.len(),
                forall|a: int, b: int|
                    0 <= a < b < es@.len() && a < i ==> (#[trigger] es@[a]).0@ != (#[trigger] es@[b]).0@,
            decreases es@.len() - i,
        {
            let mut j: usize = i + 1;
            while j < es.len()
                invariant
                    i < es@.len(),
                    i < j <= es@.len(),
                    forall|a: int, b: int|
                        0 <= a < b < es@.len() && a < i ==> (#[trigger] es@[a]).0@ != (#[trigger] es@[b]).0@,
                    forall|b: int| i < b < j ==> es@[i as int].0@ != (#[trigger] es@[b]).0@,
                decreases es@.len() - j,
            {
                if es[i].0.same_key(&es[j].0) {
                    assert(!keys_distinct(es@)) by {
                        assert(es@[i as int].0@ == es@[j as int].0@);
                    }
                    return None;
                }
                j = j + 1;
            }
            i = i + 1;
        }
        let mut t = Self::new();
        let mut n: usize = 0;
        while n < es.len()
            invariant
                n <= es@.len(),
                t.wf(),
                t@ == entries_map(es@.take(n as int)),
            decreases es@.len() - n,
        {
            let k = es[n].0.copy_key();
            let v = es[n].1.copy_value();
            t.insert(k, v);
            assert(es@.take(n + 1).drop_last() =~= es@.take(n as int));
            n = n + 1;
        }
        assert(es@.take(es@.len() as int) =~= es@);
        Some(t)
    }
}

} // verus!

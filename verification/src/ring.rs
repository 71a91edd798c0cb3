//! Storage entries numbered by slot: the model of the event ring's
//! persistent entries, looked up directly by slot number.

use vstd::prelude::*;
use crate::table::{TableValue, entries_map, keys_distinct, lemma_entries_map};

verus! {

/// Slot numbers a [`Ring`] can hold: those of a ring of at most `u32::MAX`
/// slots.
pub const SLOT_LIMIT: u64 = 0xffff_ffff;

/// Values stored under slot numbers, each slot holding at most one.
pub struct Ring<T: TableValue> {
    cells: Vec<Option<T>>,
}

impl<T: TableValue> View for Ring<T> {
    type V = Map<u64, T::V>;

    closed spec fn view(&self) -> Map<u64, T::V> {
        Map::new(
            |k: u64| k < self.cells@.len() && self.cells@[k as int] is Some,
            |k: u64| self.cells@[k as int]->0@,
        )
    }
}

impl<T: TableValue> Ring<T> {
    /// A ring with no slot stored.
    pub fn new() -> (r: Self)
        ensures
            r@ == Map::<u64, T::V>::empty(),
    {
        let r = Ring { cells: Vec::new() };
        assert(r@ =~= Map::<u64, T::V>::empty());
        r
    }

    /// Whether slot `k` is stored.
    pub fn contains(&self, k: u64) -> (b: bool)
        ensures
            b == self@.contains_key(k),
    {
        k < self.cells.len() as u64 && self.cells[k as usize].is_some()
    }

    /// The value stored in slot `k`, if any.
    pub fn get(&self, k: u64) -> (r: Option<&T>)
        ensures
            match r {
                Some(v) => self@.contains_key(k) && v@ == self@[k],
                None => !self@.contains_key(k),
            },
    {
        if k < self.cells.len() as u64 {
            match &self.cells[k as usize] {
                Some(v) => Some(v),
                None => None,
            }
        } else {
            None
        }
    }

    /// A copy of the value stored in slot `k`, if any.
    pub fn get_copy(&self, k: u64) -> (r: Option<T>)
        ensures
            match r {
                Some(v) => self@.contains_key(k) && v@ == self@[k],
                None => !self@.contains_key(k),
            },
    {
        match self.get(k) {
            Some(v) => Some(v.copy_value()),
            None => None,
        }
    }

    /// Stores `v` in slot `k`, replacing any previous value.
    pub fn insert(&mut self, k: u64, v: T)
        requires
            k < SLOT_LIMIT,
        ensures
            final(self)@ == old(self)@.insert(k, v@),
    {
        let ghost before = self@;
        while (self.cells.len() as u64) <= k
            invariant
                k < SLOT_LIMIT,
                self@ == before,
            decreases k + 1 - self.cells@.len(),
        {
            let ghost prev = self.cells@;
            self.cells.push(None);
            assert(self@ =~= before) by {
                assert forall|j: u64| j < prev.len() implies self.cells@[j as int] == prev[j as int] by {}
            }
        }
        let ghost vv = v@;
        self.cells.set(k as usize, Some(v));
        assert(self@ =~= before.insert(k, vv));
    }

    /// Copies of all stored slots, one entry per slot, in slot order.
    pub fn to_entries(&self) -> (r: Vec<(u64, T)>)
        ensures
            keys_distinct(r@),
            entries_map(r@) == self@,
    {
        let mut out: Vec<(u64, T)> = Vec::new();
        let mut i: usize = 0;
        while i < self.cells.len()
            invariant
                i <= self.cells@.len(),
                forall|a: int, b: int| 0 <= a < b < out@.len() ==> (#[trigger] out@[a]).0 < (#[trigger] out@[b]).0,
                forall|j: int|
                    0 <= j < out@.len() ==> {
                        &&& (#[trigger] out@[j]).0 < i
                        &&& self@.contains_key(out@[j].0)
                        &&& out@[j].1@ == self@[out@[j].0]
                    },
                forall|k: u64| k < i && #[trigger] self@.contains_key(k) ==> exists|j: int|
                    0 <= j < out@.len() && (#[trigger] out@[j]).0 == k,
            decreases self.cells@.len() - i,
        {
            match &self.cells[i] {
                Some(v) => {
                    let ghost prev = out@;
                    out.push((i as u64, v.copy_value()));
                    assert forall|k: u64| k < i + 1 && #[trigger] self@.contains_key(k) implies exists|j: int|
                        0 <= j < out@.len() && (#[trigger] out@[j]).0 == k by {
                        if k == i {
                            assert(out@[prev.len() as int].0 == k);
                        } else {
                            let j = choose|j: int| 0 <= j < prev.len() && (#[trigger] prev[j]).0 == k;
                            assert(out@[j] == prev[j]);
                        }
                    }
                },
                None => {},
            }
            i = i + 1;
        }
        proof {
            assert forall|a: int, b: int| 0 <= a < b < out@.len() implies (#[trigger] out@[a]).0@
                != (#[trigger] out@[b]).0@ by {
                assert(out@[a].0 < out@[b].0);
            }
            lemma_entries_map(out@);
            let m = entries_map(out@);
            assert forall|k: u64| #[trigger] m.contains_key(k) == self@.contains_key(k) by {
                if self@.contains_key(k) {
                    let j = choose|j: int| 0 <= j < out@.len() && (#[trigger] out@[j]).0 == k;
                    assert(out@[j].0@ == k);
                }
                if m.contains_key(k) {
                    let j = choose|j: int| 0 <= j < out@.len() && (#[trigger] out@[j]).0@ == k;
                }
            }
            assert forall|k: u64| #[trigger] m.contains_key(k) implies m[k] == self@[k] by {
                let j = choose|j: int| 0 <= j < out@.len() && (#[trigger] out@[j]).0@ == k;
            }
            assert(m =~= self@);
        }
        out
    }

    /// A ring holding `es`, provided no slot occurs twice and every slot is
    /// below [`SLOT_LIMIT`] (`None` otherwise).
    pub fn from_entries(es: &Vec<(u64, T)>) -> (r: Option<Self>)
        ensures
            r is Some <==> keys_distinct(es@) && forall|i: int| 0 <= i < es@.len() ==> (
            #[trigger] es@[i]).0 < SLOT_LIMIT,
            r matches Some(t) ==> t@ == entries_map(es@),
    {
        let mut t = Self::new();
        let mut n: usize = 0;
        while n < es.len()
            invariant
                n <= es@.len(),
                keys_distinct(es@.take(n as int)),
                forall|i: int| 0 <= i < n ==> (#[trigger] es@[i]).0 < SLOT_LIMIT,
                t@ == entries_map(es@.take(n as int)),
            decreases es@.len() - n,
        {
            let ghost prefix = es@.take(n as int);
            proof {
                lemma_entries_map(prefix);
            }
            let k = es[n].0;
            if k >= SLOT_LIMIT {
                return None;
            }
            if t.contains(k) {
                proof {
                    let j = choose|j: int| 0 <= j < prefix.len() && (#[trigger] prefix[j]).0@ == k;
                    assert(es@[j].0@ == es@[n as int].0@);
                }
                return None;
            }
            let v = es[n].1.copy_value();
            t.insert(k, v);
            let ghost next = es@.take(n + 1);
            assert(next.drop_last() =~= prefix);
            assert forall|a: int, b: int| 0 <= a < b < next.len() implies (#[trigger] next[a]).0@
                != (#[trigger] next[b]).0@ by {
                if b == n {
                    assert(prefix[a] == next[a]);
                    assert(entries_map(prefix).contains_key(prefix[a].0@));
                } else {
                    assert(prefix[a] == next[a] && prefix[b] == next[b]);
                }
            }
            n = n + 1;
        }
        assert(es@.take(es@.len() as int) =~= es@);
        Some(t)
    }
}

} // verus!

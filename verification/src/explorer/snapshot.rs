//! The explorer's storage as plain values, for hosts that keep the ledger
//! state between calls.

use vstd::prelude::*;
use crate::common::{Address, Bytes32};
use crate::table::{Table, TableKey, TableValue, entries_map, keys_distinct, lemma_entries_map};
use crate::ring::Ring;
use super::types::{
    ContractMeta, ContractMetaView, DecodedEvent, DecodedEventView, VersionKey,
    REGISTRY_BUMP_AMOUNT, meta_is_valid,
};
use super::state::{ExplorerState, ring_lookup, ring_slot, slots_in_ring, window_held};

verus! {

/// Everything the explorer stores: the instance values, the registry, the
/// version history and the ring slots, each persistent entry with the last
/// ledger it lives until.  Published events are not stored.
#[derive(Clone, Debug)]
pub struct ExplorerSnapshot {
    pub ledger: u32,
    pub admin: Option<Address>,
    pub pending_admin: Option<Address>,
    pub event_seq: u64,
    pub retained_from: u64,
    pub max_events: u32,
    pub paused: bool,
    pub wasm: Option<Bytes32>,
    pub instance_live_until: u32,
    pub contracts: Vec<(Bytes32, ContractMeta)>,
    pub versions: Vec<(VersionKey, ContractMeta)>,
    pub slots: Vec<(u64, DecodedEvent)>,
    pub contract_lifetimes: Vec<(Bytes32, u32)>,
    pub version_lifetimes: Vec<(VersionKey, u32)>,
    pub slot_lifetimes: Vec<(u64, u32)>,
}

/// The events a set of ring slots vouches for: position `q` holds the event
/// some slot stores under sequence number `q` (any value where none does).
pub open spec fn vouched_history(slots: Map<u64, DecodedEventView>, n: u64) -> Seq<
    DecodedEventView,
> {
    Seq::new(
        n as nat,
        |q: int|
            if exists|k: u64| slots.contains_key(k) && slots[k].seq == q {
                slots[choose|k: u64| slots.contains_key(k) && slots[k].seq == q]
            } else {
                arbitrary()
            },
    )
}

impl ExplorerSnapshot {
    /// No key occurs twice in any of the entry lists.
    pub open spec fn distinct(self) -> bool {
        &&& keys_distinct(self.contracts@)
        &&& keys_distinct(self.versions@)
        &&& keys_distinct(self.slots@)
        &&& keys_distinct(self.contract_lifetimes@)
        &&& keys_distinct(self.version_lifetimes@)
        &&& keys_distinct(self.slot_lifetimes@)
    }

    /// The explorer state the snapshot describes, with nothing published.
    pub open spec fn state(self) -> ExplorerState {
        ExplorerState {
            ledger: self.ledger,
            admin: self.admin,
            pending_admin: self.pending_admin,
            event_seq: self.event_seq,
            retained_from: self.retained_from,
            max_events: self.max_events,
            paused: self.paused,
            wasm: self.wasm,
            contracts: entries_map(self.contracts@),
            versions: entries_map(self.versions@),
            slots: entries_map(self.slots@),
            instance_live_until: self.instance_live_until,
            contract_live_until: entries_map(self.contract_lifetimes@),
            version_live_until: entries_map(self.version_lifetimes@),
            slot_live_until: entries_map(self.slot_lifetimes@),
            published: Seq::empty(),
            submitted: vouched_history(entries_map(self.slots@), self.event_seq),
        }
    }
}

/// Every key of `es` is stored in `m`.
pub open spec fn covers<K: TableKey, T: TableValue, U>(es: Seq<(K, T)>, m: Map<K::V, U>) -> bool {
    forall|i: int| 0 <= i < es.len() ==> m.contains_key((#[trigger] es[i]).0@)
}

/// Every registry entry is valid and recorded in `versions` under its ABI version.
pub open spec fn registry_sound(
    es: Seq<(Bytes32, ContractMeta)>,
    versions: Map<(Seq<u8>, u32), ContractMetaView>,
) -> bool {
    forall|i: int|
        0 <= i < es.len() ==> {
            &&& meta_is_valid((#[trigger] es[i]).1@)
            &&& versions.contains_key((es[i].0@, es[i].1.abi_version))
            &&& versions[(es[i].0@, es[i].1.abi_version)] == es[i].1@
        }
}

/// Every history entry is valid.
pub open spec fn history_sound(es: Seq<(VersionKey, ContractMeta)>) -> bool {
    forall|i: int| 0 <= i < es.len() ==> meta_is_valid((#[trigger] es[i]).1@)
}

/// Every slot lies in a ring of `m` slots and holds an event numbered in
/// `[from, n)` whose sequence number maps to that slot.
pub open spec fn slots_sound(es: Seq<(u64, DecodedEvent)>, n: u64, from: u64, m: u32) -> bool {
    forall|i: int|
        0 <= i < es.len() ==> {
            &&& (#[trigger] es[i]).0 < m
            &&& ring_slot(es[i].1.seq as int, m) == es[i].0
            &&& from <= es[i].1.seq < n
        }
}

impl ExplorerSnapshot {
    /// The conditions `restore` checks, entry list by entry list.
    pub open spec fn sound(self) -> bool {
        &&& self.max_events > 0
        &&& self.ledger + REGISTRY_BUMP_AMOUNT <= u32::MAX
        &&& self.admin is None ==> {
            &&& !self.paused
            &&& self.pending_admin is None
            &&& self.event_seq == 0
            &&& self.contracts@.len() == 0
            &&& self.versions@.len() == 0
            &&& self.slots@.len() == 0
        }
        &&& covers(self.contracts@, entries_map(self.contract_lifetimes@))
        &&& covers(self.contract_lifetimes@, entries_map(self.contracts@))
        &&& covers(self.versions@, entries_map(self.version_lifetimes@))
        &&& covers(self.version_lifetimes@, entries_map(self.versions@))
        &&& covers(self.slots@, entries_map(self.slot_lifetimes@))
        &&& covers(self.slot_lifetimes@, entries_map(self.slots@))
        &&& registry_sound(self.contracts@, entries_map(self.versions@))
        &&& history_sound(self.versions@)
        &&& self.retained_from <= self.event_seq
        &&& self.event_seq - self.retained_from <= self.max_events
        &&& slots_sound(self.slots@, self.event_seq, self.retained_from, self.max_events)
        &&& window_held(
            entries_map(self.slots@),
            self.max_events,
            self.retained_from as int,
            self.event_seq as int,
        )
    }
}

/// Two tables built from distinct-key entry lists have the same keys
/// exactly when each list's keys are stored in the other's table.
proof fn lemma_same_keys<K: TableKey, T: TableValue, U: TableValue>(a: Seq<(K, T)>, b: Seq<(K, U)>)
    requires
        keys_distinct(a),
        keys_distinct(b),
    ensures
        (entries_map(a).dom() == entries_map(b).dom()) == (covers(a, entries_map(b)) && covers(
            b,
            entries_map(a),
        )),
{
    lemma_entries_map(a);
    lemma_entries_map(b);
    let ma = entries_map(a);
    let mb = entries_map(b);
    if covers(a, mb) && covers(b, ma) {
        assert forall|k: K::V| ma.dom().contains(k) <==> mb.dom().contains(k) by {
            if ma.contains_key(k) {
                let i = choose|i: int| 0 <= i < a.len() && (#[trigger] a[i]).0@ == k;
            }
            if mb.contains_key(k) {
                let i = choose|i: int| 0 <= i < b.len() && (#[trigger] b[i]).0@ == k;
            }
        }
        assert(ma.dom() =~= mb.dom());
    }
    if ma.dom() == mb.dom() {
        assert forall|i: int| 0 <= i < a.len() implies mb.contains_key((#[trigger] a[i]).0@) by {
            assert(ma.contains_key(a[i].0@));
        }
        assert forall|i: int| 0 <= i < b.len() implies ma.contains_key((#[trigger] b[i]).0@) by {
            assert(mb.contains_key(b[i].0@));
        }
    }
}

/// A snapshot without repeated keys describes a consistent explorer state
/// exactly when it passes the checks of [`ExplorerSnapshot::sound`].
pub proof fn lemma_sound_iff_consistent(snap: ExplorerSnapshot)
    requires
        snap.distinct(),
    ensures
        snap.state().consistent() == snap.sound(),
{
    let s = snap.state();
    lemma_entries_map(snap.contracts@);
    lemma_entries_map(snap.versions@);
    lemma_entries_map(snap.slots@);
    lemma_same_keys(snap.contracts@, snap.contract_lifetimes@);
    lemma_same_keys(snap.versions@, snap.version_lifetimes@);
    lemma_same_keys(snap.slots@, snap.slot_lifetimes@);
    let cs = snap.contracts@;
    let vs = snap.versions@;
    let ss = snap.slots@;
    // Empty entry lists are exactly the empty tables.
    if cs.len() > 0 {
        assert(s.contracts.contains_key(cs[0].0@));
    } else {
        assert(s.contracts =~= Map::<Seq<u8>, ContractMetaView>::empty());
    }
    if vs.len() > 0 {
        assert(s.versions.contains_key(vs[0].0@));
    } else {
        assert(s.versions =~= Map::<(Seq<u8>, u32), ContractMetaView>::empty());
    }
    if ss.len() > 0 {
        assert(s.slots.contains_key(ss[0].0@));
    } else {
        assert(s.slots =~= Map::<u64, DecodedEventView>::empty());
    }
    // Registry entries.
    let reg_map = forall|id: Seq<u8>| #[trigger]
        s.contracts.contains_key(id) ==> {
            &&& meta_is_valid(s.contracts[id])
            &&& s.versions.contains_key((id, s.contracts[id].abi_version))
            &&& s.versions[(id, s.contracts[id].abi_version)] == s.contracts[id]
        };
    if reg_map {
        assert forall|i: int| 0 <= i < cs.len() implies {
            &&& meta_is_valid((#[trigger] cs[i]).1@)
            &&& s.versions.contains_key((cs[i].0@, cs[i].1.abi_version))
            &&& s.versions[(cs[i].0@, cs[i].1.abi_version)] == cs[i].1@
        } by {
            assert(s.contracts.contains_key(cs[i].0@));
        }
    }
    if registry_sound(cs, s.versions) {
        assert forall|id: Seq<u8>| #[trigger] s.contracts.contains_key(id) implies {
            &&& meta_is_valid(s.contracts[id])
            &&& s.versions.contains_key((id, s.contracts[id].abi_version))
            &&& s.versions[(id, s.contracts[id].abi_version)] == s.contracts[id]
        } by {
            let i = choose|i: int| 0 <= i < cs.len() && (#[trigger] cs[i]).0@ == id;
        }
    }
    // History entries.
    let hist_map = forall|v: (Seq<u8>, u32)| #[trigger]
        s.versions.contains_key(v) ==> meta_is_valid(s.versions[v]);
    if hist_map {
        assert forall|i: int| 0 <= i < vs.len() implies meta_is_valid((#[trigger] vs[i]).1@) by {
            assert(s.versions.contains_key(vs[i].0@));
        }
    }
    if history_sound(vs) {
        assert forall|v: (Seq<u8>, u32)| #[trigger] s.versions.contains_key(v) implies meta_is_valid(
            s.versions[v],
        ) by {
            let i = choose|i: int| 0 <= i < vs.len() && (#[trigger] vs[i]).0@ == v;
        }
    }
    // Ring slots.
    let m = snap.max_events;
    let rf = snap.retained_from;
    let n = snap.event_seq;
    if slots_in_ring(s.slots, m, rf) && forall|k: u64| #[trigger]
        s.slots.contains_key(k) ==> s.genuine(s.slots[k]) {
        assert forall|i: int| 0 <= i < ss.len() implies {
            &&& (#[trigger] ss[i]).0 < m
            &&& ring_slot(ss[i].1.seq as int, m) == ss[i].0
            &&& rf <= ss[i].1.seq < n
        } by {
            assert(s.slots.contains_key(ss[i].0@));
            assert(s.genuine(s.slots[ss[i].0@]));
        }
    }
    if slots_sound(ss, n, rf, m) {
        assert forall|k: u64| #[trigger] s.slots.contains_key(k) implies {
            &&& k < m
            &&& ring_slot(s.slots[k].seq as int, m) == k
            &&& rf <= s.slots[k].seq
        } by {
            let i = choose|i: int| 0 <= i < ss.len() && (#[trigger] ss[i]).0@ == k;
        }
        assert forall|k: u64| #[trigger] s.slots.contains_key(k) implies s.genuine(s.slots[k]) by {
            let i = choose|i: int| 0 <= i < ss.len() && (#[trigger] ss[i]).0@ == k;
            let q = ss[i].1.seq as int;
            let k2 = choose|k2: u64| s.slots.contains_key(k2) && s.slots[k2].seq == q;
            let j = choose|j: int| 0 <= j < ss.len() && (#[trigger] ss[j]).0@ == k2;
            assert(ss[j].1.seq == ss[i].1.seq);
        }
    }
}

/// Whether every key of `es` is stored in `t`.
pub fn covers_exec<K: TableKey, T: TableValue, U: TableValue>(es: &Vec<(K, T)>, t: &Table<K, U>) -> (r: bool)
    requires
        t.wf(),
    ensures
        r == covers(es@, t@),
{
    let mut i: usize = 0;
    while i < es.len()
        invariant
            t.wf(),
            i <= es@.len(),
            forall|j: int| 0 <= j < i ==> t@.contains_key((#[trigger] es@[j]).0@),
        decreases es@.len() - i,
    {
        if !t.contains(&es[i].0) {
            return false;
        }
        i = i + 1;
    }
    true
}

/// Whether every slot of `es` is stored in `r`.
pub fn covers_ring_exec<T: TableValue, U: TableValue>(es: &Vec<(u64, T)>, r: &Ring<U>) -> (b: bool)
    ensures
        b == covers(es@, r@),
{
    let mut i: usize = 0;
    while i < es.len()
        invariant
            i <= es@.len(),
            forall|j: int| 0 <= j < i ==> r@.contains_key((#[trigger] es@[j]).0@),
        decreases es@.len() - i,
    {
        if !r.contains(es[i].0) {
            return false;
        }
        i = i + 1;
    }
    true
}

/// Whether every registry entry is valid and recorded in `versions` under its ABI version.
pub fn registry_sound_exec(
    es: &Vec<(Bytes32, ContractMeta)>,
    versions: &Table<VersionKey, ContractMeta>,
) -> (r: bool)
    requires
        versions.wf(),
    ensures
        r == registry_sound(es@, versions@),
{
    let mut i: usize = 0;
    while i < es.len()
        invariant
            versions.wf(),
            i <= es@.len(),
            forall|j: int|
                0 <= j < i ==> {
                    &&& meta_is_valid((#[trigger] es@[j]).1@)
                    &&& versions@.contains_key((es@[j].0@, es@[j].1.abi_version))
                    &&& versions@[(es@[j].0@, es@[j].1.abi_version)] == es@[j].1@
                },
        decreases es@.len() - i,
    {
        let meta = &es[i].1;
        if !meta.is_valid() {
            return false;
        }
        let key = VersionKey { contract_id: es[i].0, abi_version: meta.abi_version };
        match versions.get(&key) {
            Some(recorded) => {
                if !recorded.same_as(meta) {
                    return false;
                }
            },
            None => {
                return false;
            },
        }
        i = i + 1;
    }
    true
}

/// Whether every history entry is valid.
pub fn history_sound_exec(es: &Vec<(VersionKey, ContractMeta)>) -> (r: bool)
    ensures
        r == history_sound(es@),
{
    let mut i: usize = 0;
    while i < es.len()
        invariant
            i <= es@.len(),
            forall|j: int| 0 <= j < i ==> meta_is_valid((#[trigger] es@[j]).1@),
        decreases es@.len() - i,
    {
        if !es[i].1.is_valid() {
            return false;
        }
        i = i + 1;
    }
    true
}

/// Whether every slot lies in a ring of `m` slots and holds an event
/// numbered in `[from, n)` whose sequence number maps to that slot.
pub fn slots_sound_exec(es: &Vec<(u64, DecodedEvent)>, n: u64, from: u64, m: u32) -> (r: bool)
    requires
        m > 0,
    ensures
        r == slots_sound(es@, n, from, m),
{
    let mut i: usize = 0;
    while i < es.len()
        invariant
            m > 0,
            i <= es@.len(),
            forall|a: int|
                0 <= a < i ==> {
                    &&& (#[trigger] es@[a]).0 < m
                    &&& ring_slot(es@[a].1.seq as int, m) == es@[a].0
                    &&& from <= es@[a].1.seq < n
                },
        decreases es@.len() - i,
    {
        let (k, e) = (&es[i].0, &es[i].1);
        if *k >= m as u64 || e.seq % (m as u64) != *k || e.seq < from || e.seq >= n {
            return false;
        }
        i = i + 1;
    }
    true
}

/// Whether every sequence number in `[from, to)` can be read back from `slots`.
pub fn window_held_exec(slots: &Ring<DecodedEvent>, m: u32, from: u64, to: u64) -> (r: bool)
    requires
        m > 0,
    ensures
        r == window_held(slots@, m, from as int, to as int),
{
    let mut q = from;
    while q < to
        invariant
            m > 0,
            from <= q,
            forall|p: int| from <= p < q ==> #[trigger] ring_lookup(slots@, m, p) is Some,
        decreases to - q,
    {
        let held = match slots.get(q % (m as u64)) {
            Some(e) => e.seq == q,
            None => false,
        };
        if !held {
            assert(ring_lookup(slots@, m, q as int) is None);
            return false;
        }
        q = q + 1;
    }
    true
}

} // verus!

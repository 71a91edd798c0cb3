//! The abstract state of the explorer contract and the functions over it
//! that the entry points' contracts are written in.

use vstd::prelude::*;
use vstd::arithmetic::div_mod::{lemma_fundamental_div_mod, lemma_mod_add_multiples_vanish};
use crate::common::{Address, Bytes32};
use super::types::{
    ContractMeta, ContractMetaView, DataKey, DecodedEvent, DecodedEventView, Error, EventInput,
    EventInputView, ExplorerEvent, DEFAULT_MAX_EVENTS, EVENT_BUMP_AMOUNT, EVENT_LIFETIME_THRESHOLD,
    INSTANCE_BUMP_AMOUNT, INSTANCE_LIFETIME_THRESHOLD, MAX_PAGE_SIZE, MIN_MAX_EVENTS,
    REGISTRY_BUMP_AMOUNT, REGISTRY_LIFETIME_THRESHOLD, meta_is_valid,
};

verus! {

/// Everything the explorer keeps, seen as mathematical values.
///
/// `contracts`, `versions` and `slots` are the persistent entries
/// `Contract(id)`, `ContractVersion(id, abi_version)` and `EventLog(slot)`;
/// `retained_from` is the sequence number of the oldest event the ring still
/// retains (every event from it up to `event_seq` is retained).  The
/// `*_live_until` fields are the lifetimes the extension policy gives the
/// instance storage and each persistent entry: the last ledger at which it is
/// still live, so that its TTL is that ledger minus the current one.  They
/// are the library's account of the policy; a host that keeps the entries
/// applies them with its own `extend_ttl` calls.  `published` is the
/// contract's event stream, oldest first; `submitted` records every event
/// ever accepted by `submit_event`, indexed by its sequence number (it is not
/// stored, it is what stored events are checked against).
pub struct ExplorerState {
    pub ledger: u32,
    pub admin: Option<Address>,
    pub pending_admin: Option<Address>,
    pub event_seq: u64,
    pub retained_from: u64,
    pub max_events: u32,
    pub paused: bool,
    pub wasm: Option<Bytes32>,
    pub contracts: Map<Seq<u8>, ContractMetaView>,
    pub versions: Map<(Seq<u8>, u32), ContractMetaView>,
    pub slots: Map<u64, DecodedEventView>,
    pub instance_live_until: u32,
    pub contract_live_until: Map<Seq<u8>, u32>,
    pub version_live_until: Map<(Seq<u8>, u32), u32>,
    pub slot_live_until: Map<u64, u32>,
    pub published: Seq<ExplorerEvent>,
    pub submitted: Seq<DecodedEventView>,
}

// ── Entry lifetimes ────────────────────────────────────────────────────────

/// The last live ledger of a persistent entry after
/// `extend_ttl(threshold, extend_to)` at ledger `ledger`.  An entry whose TTL
/// is below `threshold` (or that was just created, and so has less than any
/// threshold used here) gets a TTL of exactly `extend_to`; one with enough
/// TTL keeps its lifetime.  An entry whose lifetime has already lapsed is
/// archived: the host refuses to extend it until it has been restored, so
/// its lifetime is left as it is.
pub open spec fn extended(current: Option<u32>, ledger: u32, threshold: u32, extend_to: u32) -> u32 {
    match current {
        Some(live_until) => if live_until < ledger || live_until - ledger >= threshold {
            live_until
        } else {
            (ledger + extend_to) as u32
        },
        None => (ledger + extend_to) as u32,
    }
}

/// The last live ledger of the instance storage after
/// `extend_ttl(threshold, extend_to)` at ledger `ledger`.  The instance
/// storage is live whenever an entry point runs (the host restores it before
/// the call if it had lapsed), so a lapsed lifetime counts as no TTL left.
pub open spec fn instance_extended(live_until: u32, ledger: u32, threshold: u32, extend_to: u32) -> u32 {
    if live_until >= ledger && live_until - ledger >= threshold {
        live_until
    } else {
        (ledger + extend_to) as u32
    }
}

/// The persistent entry `k` of a store whose lifetimes are `lifetimes` can
/// be accessed at `ledger`: it is absent, or still live.  The host refuses
/// every read, write, extension or removal of an archived persistent entry
/// (one whose lifetime has lapsed) until it has been restored.
pub open spec fn accessible<K>(lifetimes: Map<K, u32>, k: K, ledger: u32) -> bool {
    lifetimes.contains_key(k) ==> lifetimes[k] >= ledger
}

/// The lifetime recorded for `k`, if `k` is stored.
pub open spec fn lifetime_of<K>(m: Map<K, u32>, k: K) -> Option<u32> {
    if m.contains_key(k) {
        Some(m[k])
    } else {
        None
    }
}

/// The lifetimes after extending the entry `k`.
pub open spec fn bump<K>(m: Map<K, u32>, k: K, ledger: u32, threshold: u32, extend_to: u32) -> Map<
    K,
    u32,
> {
    m.insert(k, extended(lifetime_of(m, k), ledger, threshold, extend_to))
}

/// The slot lifetimes after extending, in order, the slot each of `evs` is
/// written to in a ring of `m` slots.
pub open spec fn rebumped(
    lifetimes: Map<u64, u32>,
    evs: Seq<DecodedEventView>,
    m: u32,
    ledger: u32,
) -> Map<u64, u32>
    decreases evs.len(),
{
    if evs.len() == 0 {
        lifetimes
    } else {
        bump(
            rebumped(lifetimes, evs.drop_last(), m, ledger),
            ring_slot(evs.last().seq as int, m),
            ledger,
            EVENT_LIFETIME_THRESHOLD,
            EVENT_BUMP_AMOUNT,
        )
    }
}

/// TTL of an entry that lives until `live_until`, seen at `ledger`.
pub open spec fn remaining(live_until: u32, ledger: u32) -> u32 {
    if live_until >= ledger {
        (live_until - ledger) as u32
    } else {
        0
    }
}

/// The abstract values of a sequence of decoded events.
pub open spec fn events_view(evs: Seq<DecodedEvent>) -> Seq<DecodedEventView> {
    evs.map_values(|e: DecodedEvent| e@)
}

/// `slots` after writing each of `evs`, in order, into the slot that a
/// ring of `m` slots assigns to its sequence number.
pub open spec fn relaid(
    slots: Map<u64, DecodedEventView>,
    evs: Seq<DecodedEventView>,
    m: u32,
) -> Map<u64, DecodedEventView>
    decreases evs.len(),
{
    if evs.len() == 0 {
        slots
    } else {
        relaid(slots, evs.drop_last(), m).insert(ring_slot(evs.last().seq as int, m), evs.last())
    }
}

/// The ring slot that sequence number `q` maps to in a ring of `m` slots.
pub open spec fn ring_slot(q: int, m: u32) -> u64 {
    (q % (m as int)) as u64
}

/// The event with sequence number `q`, if the slot a ring of `m` slots
/// assigns to `q` holds it.
pub open spec fn ring_lookup(slots: Map<u64, DecodedEventView>, m: u32, q: int) -> Option<
    DecodedEventView,
> {
    let k = ring_slot(q, m);
    if 0 <= q && slots.contains_key(k) && slots[k].seq == q {
        Some(slots[k])
    } else {
        None
    }
}

/// Every sequence number in `[from, to)` can be read back from `slots`.
pub open spec fn window_held(slots: Map<u64, DecodedEventView>, m: u32, from: int, to: int) -> bool {
    forall|q: int| from <= q < to ==> #[trigger] ring_lookup(slots, m, q) is Some
}

/// Every slot of `slots` lies in a ring of `m` slots, holds an event whose
/// sequence number maps to it, and numbered no earlier than `from`.
pub open spec fn slots_in_ring(slots: Map<u64, DecodedEventView>, m: u32, from: u64) -> bool {
    forall|k: u64| #[trigger]
        slots.contains_key(k) ==> {
            &&& k < m
            &&& ring_slot(slots[k].seq as int, m) == k
            &&& from <= slots[k].seq
        }
}

impl ExplorerState {
    /// `init` has been called.
    pub open spec fn initialized(self) -> bool {
        self.admin is Some
    }

    /// `who` is the active admin.
    pub open spec fn is_admin(self, who: Seq<char>) -> bool {
        self.admin matches Some(a) && a@ == who
    }

    /// `who` may change the registry entry of `id`: the admin or the
    /// address recorded as its registrant.
    pub open spec fn may_edit(self, who: Seq<char>, id: Seq<u8>) -> bool {
        self.is_admin(who) || self.contracts[id].registered_by == who
    }

    /// The ring slot that sequence number `q` maps to.
    pub open spec fn slot_of(self, q: int) -> u64 {
        ring_slot(q, self.max_events)
    }

    /// The event with sequence number `q`, if the ring still holds it.
    pub open spec fn live(self, q: int) -> Option<DecodedEventView> {
        ring_lookup(self.slots, self.max_events, q)
    }

    /// Number of events the ring retains: those numbered from
    /// `retained_from` up to `event_seq`.
    pub open spec fn event_count(self) -> u64 {
        (self.event_seq - self.retained_from) as u64
    }

    /// The ring holds as many events as it has slots: the next submission
    /// evicts the oldest retained one.
    pub open spec fn ring_full(self) -> bool {
        self.event_seq - self.retained_from >= self.max_events
    }

    /// Sequence number of the oldest event a full ring can still hold.
    pub open spec fn oldest(self) -> u64 {
        if self.event_seq >= self.max_events as u64 {
            (self.event_seq - self.max_events as u64) as u64
        } else {
            0
        }
    }

    /// The registry entry `Contract(id)` can be accessed.
    pub open spec fn contract_accessible(self, id: Seq<u8>) -> bool {
        accessible(self.contract_live_until, id, self.ledger)
    }

    /// The history entry `ContractVersion(v)` can be accessed.
    pub open spec fn version_accessible(self, v: (Seq<u8>, u32)) -> bool {
        accessible(self.version_live_until, v, self.ledger)
    }

    /// The ring slot `EventLog(k)` can be accessed.
    pub open spec fn slot_accessible(self, k: u64) -> bool {
        accessible(self.slot_live_until, k, self.ledger)
    }

    /// Every stored ring slot can be accessed.
    pub open spec fn ring_accessible(self) -> bool {
        forall|k: u64| #[trigger] self.slots.contains_key(k) ==> self.slot_accessible(k)
    }

    /// The entry stored under `key` can be accessed (the instance storage
    /// always can while an entry point runs).
    pub open spec fn key_accessible(self, key: DataKey) -> bool {
        match key {
            DataKey::Contract(id) => self.contract_accessible(id@),
            DataKey::ContractVersion(v) => self.version_accessible(v@),
            DataKey::EventLog(k) => self.slot_accessible(k),
            _ => true,
        }
    }

    /// Every persistent entry `register_contract` accesses is live: the
    /// registry entry it looks up once the pause and admin checks pass, and
    /// the history entry it writes when the registration goes through.
    pub open spec fn register_accessible(self, caller: Seq<char>, id: Seq<u8>, meta: ContractMetaView) -> bool {
        &&& !self.paused && self.is_admin(caller) ==> self.contract_accessible(id)
        &&& self.register_check(caller, id, meta) is None ==> self.version_accessible((id, 0))
    }

    /// Every persistent entry `update_contract` accesses is live: the
    /// registry entry it reads unless paused, and the history entry it
    /// writes when the update goes through.
    pub open spec fn update_accessible(self, caller: Seq<char>, id: Seq<u8>, meta: ContractMetaView) -> bool {
        &&& !self.paused ==> self.contract_accessible(id)
        &&& self.update_check(caller, id, meta) is None ==> self.version_accessible(
            (id, meta.abi_version),
        )
    }

    /// The registry entry `deregister_contract` reads unless paused is live.
    pub open spec fn deregister_accessible(self, id: Seq<u8>) -> bool {
        !self.paused ==> self.contract_accessible(id)
    }

    /// The slot a successful `submit_event` overwrites is live.
    pub open spec fn submit_accessible(self, caller: Seq<char>, input: EventInputView) -> bool {
        self.submit_check(caller, input) is None ==> self.slot_accessible(
            self.slot_of(self.event_seq as int),
        )
    }

    /// A successful `set_max_events` rebuilds the whole ring: every stored
    /// slot is live.
    pub open spec fn resize_accessible(self, caller: Seq<char>, new_max: u32) -> bool {
        self.resize_check(caller, new_max) is None ==> self.ring_accessible()
    }

    /// First sequence number `get_events(cursor, _)` looks at.
    pub open spec fn page_start(self, cursor: u64) -> int {
        if cursor >= self.oldest() {
            cursor as int
        } else {
            self.oldest() as int
        }
    }

    /// The number of events a page of `limit` may hold.
    pub open spec fn page_size(limit: u32) -> nat {
        if limit <= MAX_PAGE_SIZE {
            limit as nat
        } else {
            MAX_PAGE_SIZE as nat
        }
    }

    /// Every slot `get_events(cursor, limit)` reads can be accessed: it
    /// walks the sequence numbers from its start until the page is full or
    /// the numbers run out, reading the slot of each.
    pub open spec fn page_accessible(self, cursor: u64, limit: u32) -> bool {
        let start = self.page_start(cursor);
        let first = if start >= self.retained_from {
            start
        } else {
            self.retained_from as int
        };
        limit > 0 ==> forall|q: int|
            start <= q < self.event_seq && q < first + Self::page_size(limit) ==> #[trigger] self.slot_accessible(
                self.slot_of(q),
            )
    }

    /// The retained events with sequence numbers from `q` on, in order, at
    /// most `n` of them.
    pub open spec fn page(self, q: int, n: nat) -> Seq<DecodedEventView>
        decreases self.event_seq - q,
    {
        if n == 0 || q >= self.event_seq {
            Seq::empty()
        } else {
            match self.live(q) {
                Some(e) => seq![e] + self.page(q + 1, (n - 1) as nat),
                None => self.page(q + 1, n),
            }
        }
    }

    /// The retained events with sequence numbers in `[a, b)`, in order.
    pub open spec fn live_between(self, a: int, b: int) -> Seq<DecodedEventView>
        decreases b - a,
    {
        if b <= a {
            Seq::empty()
        } else {
            let before = self.live_between(a, b - 1);
            match self.live(b - 1) {
                Some(e) => before.push(e),
                None => before,
            }
        }
    }

    /// First sequence number a resize to `new_max` carries over: the ring
    /// keeps the retained events, at most the `new_max` most recent of them.
    pub open spec fn resize_start(self, new_max: u32) -> u64 {
        if self.event_seq >= new_max as u64 && self.event_seq - new_max as u64 > self.retained_from {
            (self.event_seq - new_max as u64) as u64
        } else {
            self.retained_from
        }
    }

    /// A stored event is genuine: it is the event submitted under its
    /// sequence number.
    pub open spec fn genuine(self, e: DecodedEventView) -> bool {
        e.seq < self.event_seq && self.submitted[e.seq as int] == e
    }

    /// The invariant the explorer maintains.
    pub open spec fn consistent(self) -> bool {
        &&& self.max_events > 0
        &&& self.ledger + REGISTRY_BUMP_AMOUNT <= u32::MAX
        &&& self.contract_live_until.dom() == self.contracts.dom()
        &&& self.version_live_until.dom() == self.versions.dom()
        &&& self.slot_live_until.dom() == self.slots.dom()
        &&& self.submitted.len() == self.event_seq
        &&& self.retained_from <= self.event_seq
        &&& self.event_seq - self.retained_from <= self.max_events
        &&& slots_in_ring(self.slots, self.max_events, self.retained_from)
        &&& window_held(self.slots, self.max_events, self.retained_from as int, self.event_seq as int)
        &&& !self.initialized() ==> {
            &&& !self.paused
            &&& self.pending_admin is None
            &&& self.event_seq == 0
            &&& self.contracts == Map::<Seq<u8>, ContractMetaView>::empty()
            &&& self.versions == Map::<(Seq<u8>, u32), ContractMetaView>::empty()
            &&& self.slots == Map::<u64, DecodedEventView>::empty()
        }
        &&& forall|k: u64| #[trigger]
            self.slots.contains_key(k) ==> self.genuine(self.slots[k])
        &&& forall|id: Seq<u8>| #[trigger]
            self.contracts.contains_key(id) ==> {
                &&& meta_is_valid(self.contracts[id])
                &&& self.versions.contains_key((id, self.contracts[id].abi_version))
                &&& self.versions[(id, self.contracts[id].abi_version)] == self.contracts[id]
            }
        &&& forall|v: (Seq<u8>, u32)| #[trigger]
            self.versions.contains_key(v) ==> meta_is_valid(self.versions[v])
    }

    /// The instance storage after `extend_ttl` with the instance horizon.
    pub open spec fn bump_instance(self) -> ExplorerState {
        ExplorerState {
            instance_live_until: instance_extended(
                self.instance_live_until,
                self.ledger,
                INSTANCE_LIFETIME_THRESHOLD,
                INSTANCE_BUMP_AMOUNT,
            ),
            ..self
        }
    }

    /// The registry entry `Contract(id)` after `extend_ttl` with the registry horizon.
    pub open spec fn bump_contract(self, id: Seq<u8>) -> ExplorerState {
        ExplorerState {
            contract_live_until: bump(
                self.contract_live_until,
                id,
                self.ledger,
                REGISTRY_LIFETIME_THRESHOLD,
                REGISTRY_BUMP_AMOUNT,
            ),
            ..self
        }
    }

    /// The history entry `ContractVersion(v)` after `extend_ttl` with the registry horizon.
    pub open spec fn bump_version(self, v: (Seq<u8>, u32)) -> ExplorerState {
        ExplorerState {
            version_live_until: bump(
                self.version_live_until,
                v,
                self.ledger,
                REGISTRY_LIFETIME_THRESHOLD,
                REGISTRY_BUMP_AMOUNT,
            ),
            ..self
        }
    }

    /// The ring slot `EventLog(k)` after `extend_ttl` with the event horizon.
    pub open spec fn bump_slot(self, k: u64) -> ExplorerState {
        ExplorerState {
            slot_live_until: bump(
                self.slot_live_until,
                k,
                self.ledger,
                EVENT_LIFETIME_THRESHOLD,
                EVENT_BUMP_AMOUNT,
            ),
            ..self
        }
    }

    /// The TTL of the entry stored under `key`: the instance storage's for
    /// instance keys, the entry's own for persistent keys (`None` when no
    /// such persistent entry is stored).
    pub open spec fn ttl_of(self, key: DataKey) -> Option<u32> {
        match key {
            DataKey::Contract(id) => match lifetime_of(self.contract_live_until, id@) {
                Some(lu) => Some(remaining(lu, self.ledger)),
                None => None,
            },
            DataKey::ContractVersion(v) => match lifetime_of(self.version_live_until, v@) {
                Some(lu) => Some(remaining(lu, self.ledger)),
                None => None,
            },
            DataKey::EventLog(k) => match lifetime_of(self.slot_live_until, k) {
                Some(lu) => Some(remaining(lu, self.ledger)),
                None => None,
            },
            _ => Some(remaining(self.instance_live_until, self.ledger)),
        }
    }

    // ── Decisions and effects of the entry points ───────────────────────
    //
    // For each entry point, `*_check` is the error it is refused with (in the
    // order the checks are made), or `None` when it goes through, and
    // `after_*` is the state it then leaves.

    /// `init` is refused once the contract has an admin.
    pub open spec fn init_check(self) -> Option<Error> {
        if self.initialized() {
            Some(Error::AlreadyExists)
        } else {
            None
        }
    }

    /// The ring capacity `init` configures for a requested `max_events`.
    pub open spec fn init_capacity(max_events: u32) -> u32 {
        if max_events == 0 {
            DEFAULT_MAX_EVENTS
        } else {
            max_events
        }
    }

    pub open spec fn after_init(self, admin: Address, max_events: u32) -> ExplorerState {
        (ExplorerState {
            admin: Some(admin),
            event_seq: 0,
            retained_from: 0,
            max_events: Self::init_capacity(max_events),
            ..self
        }).bump_instance()
    }

    /// Admin-only operations refuse every other caller.
    pub open spec fn admin_check(self, caller: Seq<char>) -> Option<Error> {
        if self.is_admin(caller) {
            None
        } else {
            Some(Error::Unauthorized)
        }
    }

    pub open spec fn after_transfer_admin(self, caller: Address, new_admin: Address) -> ExplorerState {
        (ExplorerState {
            pending_admin: Some(new_admin),
            published: self.published.push(ExplorerEvent::AdminNominated { caller, new_admin }),
            ..self
        }).bump_instance()
    }

    /// Only the nominee can accept, and only while nominated.
    pub open spec fn accept_check(self, caller: Seq<char>) -> Option<Error> {
        match self.pending_admin {
            None => Some(Error::NotFound),
            Some(p) => if p@ == caller {
                None
            } else {
                Some(Error::Unauthorized)
            },
        }
    }

    pub open spec fn after_accept_admin(self, caller: Address) -> ExplorerState {
        (ExplorerState {
            admin: Some(caller),
            pending_admin: None,
            published: self.published.push(ExplorerEvent::AdminAccepted { caller }),
            ..self
        }).bump_instance()
    }

    /// Only the admin can cancel, and only while someone is nominated.
    pub open spec fn cancel_check(self, caller: Seq<char>) -> Option<Error> {
        if !self.is_admin(caller) {
            Some(Error::Unauthorized)
        } else if self.pending_admin is None {
            Some(Error::NotFound)
        } else {
            None
        }
    }

    pub open spec fn after_cancel_admin_transfer(self, caller: Address) -> ExplorerState {
        (ExplorerState {
            pending_admin: None,
            published: self.published.push(ExplorerEvent::AdminTransferCancelled { caller }),
            ..self
        }).bump_instance()
    }

    /// Only the admin can resize, and never below [`MIN_MAX_EVENTS`].
    pub open spec fn resize_check(self, caller: Seq<char>, new_max: u32) -> Option<Error> {
        if !self.is_admin(caller) {
            Some(Error::Unauthorized)
        } else if new_max < MIN_MAX_EVENTS {
            Some(Error::BelowFloor)
        } else {
            None
        }
    }

    pub open spec fn after_set_max_events(self, new_max: u32) -> ExplorerState {
        let kept = self.live_between(self.resize_start(new_max) as int, self.event_seq as int);
        (ExplorerState {
            max_events: new_max,
            retained_from: self.resize_start(new_max),
            slots: relaid(Map::empty(), kept, new_max),
            slot_live_until: rebumped(Map::empty(), kept, new_max, self.ledger),
            published: self.published.push(
                ExplorerEvent::Resized { old_max: self.max_events, new_max },
            ),
            ..self
        }).bump_instance()
    }

    pub open spec fn after_pause(self) -> ExplorerState {
        (ExplorerState { paused: true, published: self.published.push(ExplorerEvent::Paused), ..self }).bump_instance()
    }

    pub open spec fn after_unpause(self) -> ExplorerState {
        (ExplorerState {
            paused: false,
            published: self.published.push(ExplorerEvent::Unpaused),
            ..self
        }).bump_instance()
    }

    /// Upgrades are refused while paused, then to anyone but the admin.
    pub open spec fn upgrade_check(self, caller: Seq<char>) -> Option<Error> {
        if self.paused {
            Some(Error::ContractPaused)
        } else {
            self.admin_check(caller)
        }
    }

    pub open spec fn after_upgrade(self, new_wasm_hash: Bytes32) -> ExplorerState {
        (ExplorerState {
            wasm: Some(new_wasm_hash),
            published: self.published.push(ExplorerEvent::Upgraded { new_wasm_hash }),
            ..self
        }).bump_instance()
    }

    /// Registration: not while paused, admin only, new ids only, valid metadata only.
    pub open spec fn register_check(self, caller: Seq<char>, id: Seq<u8>, meta: ContractMetaView) -> Option<Error> {
        if self.paused {
            Some(Error::ContractPaused)
        } else if !self.is_admin(caller) {
            Some(Error::Unauthorized)
        } else if self.contracts.contains_key(id) {
            Some(Error::AlreadyExists)
        } else if !meta_is_valid(meta) {
            Some(Error::InvalidInput)
        } else {
            None
        }
    }

    pub open spec fn after_register(self, contract_id: Bytes32, meta: ContractMeta) -> ExplorerState {
        let stored = Self::registered_form(meta@, self.ledger);
        (ExplorerState {
            contracts: self.contracts.insert(contract_id@, stored),
            versions: self.versions.insert((contract_id@, 0), stored),
            published: self.published.push(
                ExplorerEvent::ContractRegistered {
                    contract_id,
                    registered_by: meta.registered_by,
                    contract_version: meta.version,
                    ledger: self.ledger,
                    name: meta.name,
                },
            ),
            ..self
        }).bump_contract(contract_id@).bump_version((contract_id@, 0)).bump_instance()
    }

    /// Updates: not while paused, registered ids only, admin or registrant
    /// only, exactly the next ABI version only, valid metadata only.
    pub open spec fn update_check(self, caller: Seq<char>, id: Seq<u8>, meta: ContractMetaView) -> Option<Error> {
        if self.paused {
            Some(Error::ContractPaused)
        } else if !self.contracts.contains_key(id) {
            Some(Error::NotFound)
        } else if !self.may_edit(caller, id) {
            Some(Error::Unauthorized)
        } else if meta.abi_version != self.contracts[id].abi_version + 1 {
            Some(Error::Unauthorized)
        } else if !meta_is_valid(meta) {
            Some(Error::InvalidInput)
        } else {
            None
        }
    }

    pub open spec fn after_update(self, caller: Address, contract_id: Bytes32, meta: ContractMetaView) -> ExplorerState {
        let existing = self.contracts[contract_id@];
        let stored = Self::updated_form(meta, self.ledger);
        (ExplorerState {
            contracts: self.contracts.insert(contract_id@, stored),
            versions: self.versions.insert((contract_id@, meta.abi_version), stored),
            published: self.published.push(
                ExplorerEvent::AbiUpdated {
                    contract_id,
                    old_abi_version: existing.abi_version,
                    new_abi_version: meta.abi_version,
                    ledger: self.ledger,
                },
            ).push(
                ExplorerEvent::ContractUpdated {
                    contract_id,
                    caller,
                    old_contract_version: existing.version,
                    new_contract_version: meta.version,
                    ledger: self.ledger,
                },
            ),
            ..self
        }).bump_contract(contract_id@).bump_version((contract_id@, meta.abi_version)).bump_instance()
    }

    /// Deregistration: not while paused, registered ids only, admin or registrant only.
    pub open spec fn deregister_check(self, caller: Seq<char>, id: Seq<u8>) -> Option<Error> {
        if self.paused {
            Some(Error::ContractPaused)
        } else if !self.contracts.contains_key(id) {
            Some(Error::NotFound)
        } else if !self.may_edit(caller, id) {
            Some(Error::Unauthorized)
        } else {
            None
        }
    }

    pub open spec fn after_deregister(self, caller: Address, contract_id: Bytes32) -> ExplorerState {
        (ExplorerState {
            contracts: self.contracts.remove(contract_id@),
            contract_live_until: self.contract_live_until.remove(contract_id@),
            published: self.published.push(
                ExplorerEvent::ContractDeregistered { contract_id, caller, ledger: self.ledger },
            ),
            ..self
        }).bump_instance()
    }

    /// Submission: a function name is required, then not while paused, admin only.
    pub open spec fn submit_check(self, caller: Seq<char>, input: EventInputView) -> Option<Error> {
        if input.function.len() == 0 {
            Some(Error::InvalidInput)
        } else if self.paused {
            Some(Error::ContractPaused)
        } else {
            self.admin_check(caller)
        }
    }

    pub open spec fn after_submit(self, input: EventInput) -> ExplorerState {
        let stored = input@.stored_as(self.event_seq);
        let evicted = if self.ring_full() {
            Some(self.retained_from)
        } else {
            None
        };
        (ExplorerState {
            event_seq: (self.event_seq + 1) as u64,
            retained_from: if self.ring_full() {
                (self.retained_from + 1) as u64
            } else {
                self.retained_from
            },
            slots: self.slots.insert(self.slot_of(self.event_seq as int), stored),
            submitted: self.submitted.push(stored),
            published: self.published + submission_notices(input, self.event_seq, evicted),
            ..self
        }).bump_slot(self.slot_of(self.event_seq as int)).bump_instance()
    }

    /// The page `get_events(cursor, limit)` returns for `limit > 0`.
    pub open spec fn events_page(self, cursor: u64, limit: u32) -> Seq<DecodedEventView> {
        self.page(self.page_start(cursor), Self::page_size(limit))
    }

    /// `meta` as `register_contract` stores it at ledger `ledger`.
    pub open spec fn registered_form(meta: ContractMetaView, ledger: u32) -> ContractMetaView {
        ContractMetaView { abi_version: 0, min_ledger: ledger, ..meta }
    }

    /// `meta` as `update_contract` stores it at ledger `ledger`.
    pub open spec fn updated_form(meta: ContractMetaView, ledger: u32) -> ContractMetaView {
        ContractMetaView { min_ledger: ledger, ..meta }
    }

    /// An `update_contract` call that passes every check up to the ABI
    /// version comparison, on an entry whose ABI version is already the
    /// largest one: computing the expected next version overflows.
    pub open spec fn update_overflows(self, caller: Seq<char>, id: Seq<u8>) -> bool {
        &&& !self.paused
        &&& self.contracts.contains_key(id)
        &&& self.may_edit(caller, id)
        &&& self.contracts[id].abi_version == u32::MAX
    }

    /// A `submit_event` call that passes every check while the sequence
    /// counter is already at its largest value.
    pub open spec fn submit_overflows(self, caller: Seq<char>, input: EventInputView) -> bool {
        &&& input.function.len() > 0
        &&& !self.paused
        &&& self.is_admin(caller)
        &&& self.event_seq == u64::MAX
    }
}

/// What `submit_event` publishes when it stores `input` under `seq`,
/// evicting the event numbered `evicted` if the ring is full: `ev_sub`, then
/// `cap_hit` if an event is evicted, then `decoded`.
pub open spec fn submission_notices(input: EventInput, seq: u64, evicted: Option<u64>) -> Seq<
    ExplorerEvent,
> {
    let submitted = seq![
        ExplorerEvent::EventSubmitted {
            contract_id: input.contract_id,
            function: input.function,
            seq,
            ledger: input.ledger,
        },
    ];
    let eviction = match evicted {
        Some(evicted_seq) => seq![ExplorerEvent::CapacityHit { evicted_seq, seq }],
        None => Seq::empty(),
    };
    submitted + eviction + seq![
        ExplorerEvent::Decoded {
            contract_id: input.contract_id,
            function: input.function,
            description: input.description,
        },
    ]
}

/// Every event the ring retains is genuine.
pub proof fn lemma_live_between_genuine(s: ExplorerState, a: int, b: int)
    requires
        s.consistent(),
    ensures
        forall|j: int|
            0 <= j < s.live_between(a, b).len() ==> s.genuine(#[trigger] s.live_between(a, b)[j]),
    decreases b - a,
{
    if b > a {
        lemma_live_between_genuine(s, a, b - 1);
        let prev = s.live_between(a, b - 1);
        let all = s.live_between(a, b);
        assert forall|j: int| 0 <= j < all.len() implies s.genuine(#[trigger] all[j]) by {
            if j < prev.len() {
                assert(all[j] == prev[j]);
            } else {
                let k = s.slot_of(b - 1);
                assert(s.slots.contains_key(k));
                assert(all[j] == s.slots[k]);
            }
        }
    }
}

/// Re-laid slots and their re-extended lifetimes cover the same slots.
pub proof fn lemma_rebumped_dom(
    slots: Map<u64, DecodedEventView>,
    lifetimes: Map<u64, u32>,
    evs: Seq<DecodedEventView>,
    m: u32,
    ledger: u32,
)
    requires
        lifetimes.dom() == slots.dom(),
    ensures
        rebumped(lifetimes, evs, m, ledger).dom() == relaid(slots, evs, m).dom(),
    decreases evs.len(),
{
    if evs.len() > 0 {
        lemma_rebumped_dom(slots, lifetimes, evs.drop_last(), m, ledger);
        assert(rebumped(lifetimes, evs, m, ledger).dom() =~= relaid(slots, evs, m).dom());
    }
}

// ── Lemmas on the event ring ─────────────────────────────────────────────

/// Two sequence numbers that share a ring slot are at least a ring apart.
pub proof fn lemma_shared_slot_apart(a: int, b: int, m: int)
    requires
        0 <= a < b,
        0 < m,
        a % m == b % m,
    ensures
        b - a >= m,
{
    lemma_fundamental_div_mod(a, m);
    lemma_fundamental_div_mod(b, m);
    let qa = a / m;
    let qb = b / m;
    assert(b - a == m * (qb - qa)) by (nonlinear_arith)
        requires
            a == m * qa + a % m,
            b == m * qb + b % m,
            a % m == b % m,
    ;
    assert(m * (qb - qa) >= m) by (nonlinear_arith)
        requires
            m * (qb - qa) > 0,
            m > 0,
    ;
}

/// Shape of the retained events between two sequence numbers: in range,
/// readable, strictly increasing, and complete.
pub proof fn lemma_live_between_props(s: ExplorerState, a: int, b: int)
    requires
        0 <= a,
    ensures
        forall|j: int|
            0 <= j < s.live_between(a, b).len() ==> a <= (#[trigger] s.live_between(a, b)[j]).seq
                < b && s.live(s.live_between(a, b)[j].seq as int) == Some(s.live_between(a, b)[j]),
        forall|i: int, j: int|
            0 <= i < j < s.live_between(a, b).len() ==> (#[trigger] s.live_between(a, b)[i]).seq
                < (#[trigger] s.live_between(a, b)[j]).seq,
        forall|q: int|
            a <= q < b && #[trigger] s.live(q) is Some ==> exists|j: int|
                0 <= j < s.live_between(a, b).len() && #[trigger] s.live_between(a, b)[j]
                    == s.live(q)->0,
        s.live_between(a, b).len() <= if b > a {
            b - a
        } else {
            0
        },
    decreases b - a,
{
    if b > a {
        lemma_live_between_props(s, a, b - 1);
        let prev = s.live_between(a, b - 1);
        let all = s.live_between(a, b);
        assert forall|q: int| a <= q < b && #[trigger] s.live(q) is Some implies exists|j: int|
            0 <= j < all.len() && #[trigger] all[j] == s.live(q)->0 by {
            if q < b - 1 {
                let j = choose|j: int| 0 <= j < prev.len() && #[trigger] prev[j] == s.live(q)->0;
                assert(all[j] == prev[j]);
            } else {
                assert(all[prev.len() as int] == s.live(q)->0);
            }
        }
        assert forall|j: int| 0 <= j < all.len() implies a <= (#[trigger] all[j]).seq < b
            && s.live(all[j].seq as int) == Some(all[j]) by {
            if j < prev.len() {
                assert(all[j] == prev[j]);
            }
        }
        assert forall|i: int, j: int| 0 <= i < j < all.len() implies (#[trigger] all[i]).seq
            < (#[trigger] all[j]).seq by {
            assert(all[i] == prev[i]);
            if j < prev.len() {
                assert(all[j] == prev[j]);
            }
        }
    }
}

/// The last write to a slot is what the slot ends up holding.
pub proof fn lemma_relaid_last_write(
    slots: Map<u64, DecodedEventView>,
    evs: Seq<DecodedEventView>,
    m: u32,
    j: int,
)
    requires
        0 <= j < evs.len(),
        forall|i: int|
            j < i < evs.len() ==> ring_slot((#[trigger] evs[i]).seq as int, m) != ring_slot(
                evs[j].seq as int,
                m,
            ),
    ensures
        relaid(slots, evs, m).contains_key(ring_slot(evs[j].seq as int, m)),
        relaid(slots, evs, m)[ring_slot(evs[j].seq as int, m)] == evs[j],
    decreases evs.len(),
{
    if j < evs.len() - 1 {
        let prev = evs.drop_last();
        assert forall|i: int| j < i < prev.len() implies ring_slot(
            (#[trigger] prev[i]).seq as int,
            m,
        ) != ring_slot(prev[j].seq as int, m) by {
            assert(prev[i] == evs[i]);
        }
        lemma_relaid_last_write(slots, prev, m, j);
    }
}


/// Every slot of a ring rebuilt from nothing holds one of the events written
/// into it, in the slot its sequence number maps to.
pub proof fn lemma_relaid_origin(evs: Seq<DecodedEventView>, m: u32)
    ensures
        forall|k: u64| #[trigger]
            relaid(Map::empty(), evs, m).contains_key(k) ==> exists|j: int|
                0 <= j < evs.len() && relaid(Map::empty(), evs, m)[k] == #[trigger] evs[j]
                    && k == ring_slot(evs[j].seq as int, m),
    decreases evs.len(),
{
    if evs.len() > 0 {
        let prev = evs.drop_last();
        lemma_relaid_origin(prev, m);
        let all = relaid(Map::empty(), evs, m);
        assert forall|k: u64| #[trigger] all.contains_key(k) implies exists|j: int|
            0 <= j < evs.len() && all[k] == #[trigger] evs[j] && k == ring_slot(evs[j].seq as int, m) by {
            if k == ring_slot(evs.last().seq as int, m) {
                assert(all[k] == evs[evs.len() - 1]);
            } else {
                let j = choose|j: int|
                    0 <= j < prev.len() && relaid(Map::empty(), prev, m)[k] == #[trigger] prev[j]
                        && k == ring_slot(prev[j].seq as int, m);
                assert(evs[j] == prev[j]);
            }
        }
    }
}

/// In a consistent state the ring retains exactly the events numbered from
/// `retained_from` up to `event_seq`.
pub proof fn lemma_retained_window(s: ExplorerState, q: int)
    requires
        s.consistent(),
    ensures
        (s.live(q) is Some) == (s.retained_from <= q < s.event_seq),
{
    if s.live(q) is Some {
        let k = s.slot_of(q);
        assert(s.slots.contains_key(k));
        assert(s.genuine(s.slots[k]));
    }
    if s.retained_from <= q < s.event_seq {
        assert(ring_lookup(s.slots, s.max_events, q) is Some);
    }
}

/// Submitting keeps the explorer consistent.
pub proof fn lemma_submit_consistent(s: ExplorerState, input: EventInput)
    requires
        s.consistent(),
        s.initialized(),
        s.event_seq < u64::MAX,
    ensures
        s.after_submit(input).consistent(),
{
    let t = s.after_submit(input);
    let m = s.max_events as int;
    let seq = s.event_seq as int;
    let k0 = s.slot_of(seq);
    assert forall|k: u64| #[trigger] t.slots.contains_key(k) implies {
        &&& k < t.max_events
        &&& ring_slot(t.slots[k].seq as int, t.max_events) == k
        &&& t.retained_from <= t.slots[k].seq
    } by {
        if k != k0 {
            assert(s.slots.contains_key(k));
            let q = s.slots[k].seq as int;
            if s.ring_full() && q == s.retained_from {
                lemma_mod_add_multiples_vanish(q, m);
                assert(seq == m + q);
            }
        }
    }
    assert forall|k: u64| #[trigger] t.slots.contains_key(k) implies t.genuine(t.slots[k]) by {
        if k != k0 {
            assert(s.genuine(s.slots[k]));
        }
    }
    assert forall|q: int| t.retained_from <= q < t.event_seq implies #[trigger] ring_lookup(
        t.slots,
        t.max_events,
        q,
    ) is Some by {
        if q < seq {
            assert(ring_lookup(s.slots, s.max_events, q) is Some);
            if ring_slot(q, s.max_events) == k0 {
                lemma_shared_slot_apart(q, seq, m);
            }
        }
    }
}

/// Resizing keeps the explorer consistent; afterwards the ring retains
/// exactly the events it retained from `resize_start(new_max)` on, each
/// under its sequence number.
pub proof fn lemma_resize_consistent(s: ExplorerState, new_max: u32)
    requires
        s.consistent(),
        s.initialized(),
        new_max > 0,
    ensures
        s.after_set_max_events(new_max).consistent(),
        forall|q: int|
            #[trigger] s.after_set_max_events(new_max).live(q) == if s.resize_start(new_max) <= q {
                s.live(q)
            } else {
                None
            },
{
    let t = s.after_set_max_events(new_max);
    let start = s.resize_start(new_max) as int;
    let total = s.event_seq as int;
    let evs = s.live_between(start, total);
    lemma_live_between_props(s, start, total);
    lemma_live_between_genuine(s, start, total);
    lemma_relaid_origin(evs, new_max);
    lemma_rebumped_dom(Map::empty(), Map::empty(), evs, new_max, s.ledger);
    assert forall|k: u64| #[trigger] t.slots.contains_key(k) implies {
        &&& k < t.max_events
        &&& ring_slot(t.slots[k].seq as int, t.max_events) == k
        &&& t.retained_from <= t.slots[k].seq
        &&& t.genuine(t.slots[k])
    } by {
        let j = choose|j: int|
            0 <= j < evs.len() && t.slots[k] == #[trigger] evs[j] && k == ring_slot(evs[j].seq as int, new_max);
        assert(s.genuine(evs[j]));
    }
    // Each retained event from `start` on is the last write to its slot.
    assert forall|q: int| start <= q < total implies #[trigger] t.live(q) == s.live(q) by {
        lemma_retained_window(s, q);
        let e = s.live(q)->0;
        let j = choose|j: int| 0 <= j < evs.len() && #[trigger] evs[j] == e;
        assert(evs[j].seq == q);
        assert forall|i: int| j < i < evs.len() implies ring_slot(
            (#[trigger] evs[i]).seq as int,
            new_max,
        ) != ring_slot(evs[j].seq as int, new_max) by {
            let a = evs[j].seq as int;
            let b = evs[i].seq as int;
            if ring_slot(b, new_max) == ring_slot(a, new_max) {
                lemma_shared_slot_apart(a, b, new_max as int);
            }
        }
        lemma_relaid_last_write(Map::empty(), evs, new_max, j);
    }
    assert forall|q: int| t.retained_from <= q < t.event_seq implies #[trigger] ring_lookup(
        t.slots,
        t.max_events,
        q,
    ) is Some by {
        assert(t.live(q) == s.live(q));
        lemma_retained_window(s, q);
    }
    assert forall|q: int| #[trigger] t.live(q) == if start <= q {
        s.live(q)
    } else {
        None
    } by {
        if t.live(q) is Some {
            let k = t.slot_of(q);
            assert(t.slots.contains_key(k));
        }
        if start <= q && s.live(q) is Some {
            lemma_retained_window(s, q);
        }
        if start <= q && q >= total {
            lemma_retained_window(s, q);
        }
    }
}

} // verus!

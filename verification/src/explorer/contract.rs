//! The explorer contract's entry points.

use vstd::prelude::*;
use crate::common::{Address, Bytes32};
use crate::ring::{Ring, SLOT_LIMIT};
use crate::table::{Table, TableKey, entries_map, keys_distinct, lemma_entries_map};
use super::types::{
    ContractMeta, DataKey, DecodedEvent, DecodedEventView, Error, EventInput, ExplorerEvent,
    VersionKey, DEFAULT_MAX_EVENTS, EVENT_BUMP_AMOUNT, EVENT_LIFETIME_THRESHOLD,
    INSTANCE_BUMP_AMOUNT, INSTANCE_LIFETIME_THRESHOLD, MAX_PAGE_SIZE, MIN_MAX_EVENTS,
    REGISTRY_BUMP_AMOUNT, REGISTRY_LIFETIME_THRESHOLD, meta_is_valid,
};
use super::snapshot::{
    ExplorerSnapshot, covers_exec, history_sound_exec, lemma_sound_iff_consistent,
    registry_sound_exec, slots_sound_exec, vouched_history, window_held_exec, covers_ring_exec,
};
use super::state::{
    ExplorerState, bump, events_view, extended, instance_extended, lemma_resize_consistent,
    lemma_submit_consistent, rebumped, relaid, submission_notices,
};

verus! {

/// The explorer contract together with the ledger state it owns.
///
/// A freshly deployed contract ([`ExplorerContract::new`]) is uninitialised;
/// `init` makes it usable.  The `caller` of an entry point is the address
/// that authorised the call.
pub struct ExplorerContract {
    ledger: u32,
    admin: Option<Address>,
    pending_admin: Option<Address>,
    event_seq: u64,
    retained_from: u64,
    max_events: u32,
    paused: bool,
    wasm: Option<Bytes32>,
    contracts: Table<Bytes32, ContractMeta>,
    versions: Table<VersionKey, ContractMeta>,
    slots: Ring<DecodedEvent>,
    instance_live_until: u32,
    contract_ttls: Table<Bytes32, u32>,
    version_ttls: Table<VersionKey, u32>,
    slot_ttls: Ring<u32>,
    published: Vec<ExplorerEvent>,
    submitted: Ghost<Seq<DecodedEventView>>,
}

impl View for ExplorerContract {
    type V = ExplorerState;

    closed spec fn view(&self) -> ExplorerState {
        ExplorerState {
            ledger: self.ledger,
            admin: self.admin,
            pending_admin: self.pending_admin,
            event_seq: self.event_seq,
            retained_from: self.retained_from,
            max_events: self.max_events,
            paused: self.paused,
            wasm: self.wasm,
            contracts: self.contracts@,
            versions: self.versions@,
            slots: self.slots@,
            instance_live_until: self.instance_live_until,
            contract_live_until: self.contract_ttls@,
            version_live_until: self.version_ttls@,
            slot_live_until: self.slot_ttls@,
            published: self.published@,
            submitted: self.submitted@,
        }
    }
}

impl ExplorerContract {
    /// The contract's storage tables are well formed and its state is consistent.
    pub closed spec fn wf(&self) -> bool {
        &&& self.contracts.wf()
        &&& self.versions.wf()
        &&& self.contract_ttls.wf()
        &&& self.version_ttls.wf()
        &&& self@.consistent()
    }

    /// A well-formed contract is in a consistent state, so every law stated
    /// over [`ExplorerState::consistent`] applies to it.
    pub proof fn lemma_wf_consistent(&self)
        requires
            self.wf(),
        ensures
            self@.consistent(),
    {
    }

    /// A freshly deployed, uninitialised explorer at ledger 0.
    pub fn new() -> (c: ExplorerContract)
        ensures
            c.wf(),
            c@ == (ExplorerState {
                ledger: 0,
                admin: None,
                pending_admin: None,
                event_seq: 0,
                retained_from: 0,
                max_events: DEFAULT_MAX_EVENTS,
                paused: false,
                wasm: None,
                contracts: Map::empty(),
                versions: Map::empty(),
                slots: Map::empty(),
                instance_live_until: 0,
                contract_live_until: Map::empty(),
                version_live_until: Map::empty(),
                slot_live_until: Map::empty(),
                published: Seq::empty(),
                submitted: Seq::empty(),
            }),
    {
        ExplorerContract {
            ledger: 0,
            admin: None,
            pending_admin: None,
            event_seq: 0,
            retained_from: 0,
            max_events: DEFAULT_MAX_EVENTS,
            paused: false,
            wasm: None,
            contracts: Table::new(),
            versions: Table::new(),
            slots: Ring::new(),
            instance_live_until: 0,
            contract_ttls: Table::new(),
            version_ttls: Table::new(),
            slot_ttls: Ring::new(),
            published: Vec::new(),
            submitted: Ghost(Seq::empty()),
        }
    }

    /// Moves the ledger clock to `sequence` (the ledger the next calls run
    /// in).  Lifetimes are ledger numbers, so `sequence` must leave room for
    /// the longest extension.
    pub fn set_ledger(&mut self, sequence: u32)
        requires
            old(self).wf(),
            sequence + REGISTRY_BUMP_AMOUNT <= u32::MAX,
        ensures
            final(self).wf(),
            final(self)@ == (ExplorerState { ledger: sequence, ..old(self)@ }),
    {
        self.ledger = sequence;
    }

    /// The events published so far, oldest first.
    pub fn published_events(&self) -> (evs: &Vec<ExplorerEvent>)
        ensures
            evs@ == self@.published,
    {
        &self.published
    }

    /// Whether `init` has been called.
    pub fn initialized(&self) -> (b: bool)
        ensures
            b == self@.initialized(),
    {
        self.admin.is_some()
    }

    /// Whether `update_contract(caller, contract_id, ..)` would have to
    /// compute an ABI version beyond `u32::MAX` (see
    /// [`ExplorerState::update_overflows`]).
    pub fn update_would_overflow(&self, caller: &Address, contract_id: Bytes32) -> (b: bool)
        requires
            self.wf(),
        ensures
            b == self@.update_overflows(caller@, contract_id@),
    {
        if self.paused {
            return false;
        }
        match self.contracts.get(&contract_id) {
            None => false,
            Some(existing) => (existing.registered_by.same_as(caller) || self.check_admin(caller))
                && existing.abi_version == u32::MAX,
        }
    }

    /// Whether `submit_event(caller, input)` would have to number an event
    /// beyond `u64::MAX` (see [`ExplorerState::submit_overflows`]).
    pub fn submit_would_overflow(&self, caller: &Address, input: &EventInput) -> (b: bool)
        ensures
            b == self@.submit_overflows(caller@, input@),
    {
        !input.function.as_str().is_empty() && !self.paused && self.check_admin(caller)
            && self.event_seq == u64::MAX
    }

    /// Whether `who` is the active admin.
    fn check_admin(&self, who: &Address) -> (b: bool)
        ensures
            b == self@.is_admin(who@),
    {
        match &self.admin {
            Some(a) => a.same_as(who),
            None => false,
        }
    }

    /// Whether the entry stored under `key` can be accessed (see
    /// [`ExplorerState::key_accessible`]).
    pub fn entry_accessible(&self, key: &DataKey) -> (b: bool)
        requires
            self.wf(),
        ensures
            b == self@.key_accessible(*key),
    {
        let live_until = match key {
            DataKey::Contract(id) => self.contract_ttls.get_copy(id),
            DataKey::ContractVersion(v) => self.version_ttls.get_copy(v),
            DataKey::EventLog(k) => self.slot_ttls.get_copy(*k),
            _ => None,
        };
        match live_until {
            Some(lu) => lu >= self.ledger,
            None => true,
        }
    }

    /// Whether every stored ring slot can be accessed.
    pub fn ring_accessible(&self) -> (b: bool)
        requires
            self.wf(),
        ensures
            b == self@.ring_accessible(),
    {
        let es = self.slot_ttls.to_entries();
        proof {
            lemma_entries_map(es@);
        }
        let mut i: usize = 0;
        while i < es.len()
            invariant
                self.wf(),
                keys_distinct(es@),
                entries_map(es@) == self@.slot_live_until,
                i <= es@.len(),
                forall|j: int| 0 <= j < i ==> (#[trigger] es@[j]).1 >= self.ledger,
            decreases es@.len() - i,
        {
            if es[i].1 < self.ledger {
                proof {
                    lemma_entries_map(es@);
                    assert(self@.slots.contains_key(es@[i as int].0));
                }
                return false;
            }
            i = i + 1;
        }
        proof {
            lemma_entries_map(es@);
            assert forall|k: u64| #[trigger] self@.slots.contains_key(k) implies self@.slot_accessible(k) by {
                assert(self@.slot_live_until.contains_key(k));
                let j = choose|j: int| 0 <= j < es@.len() && (#[trigger] es@[j]).0@ == k;
            }
        }
        true
    }

    /// Whether every persistent entry `register_contract(caller,
    /// contract_id, meta)` would access is live.
    pub fn register_accessible(&self, caller: &Address, contract_id: Bytes32, meta: &ContractMeta) -> (b: bool)
        requires
            self.wf(),
        ensures
            b == self@.register_accessible(caller@, contract_id@, meta@),
    {
        if self.paused || !self.check_admin(caller) {
            return true;
        }
        if !self.entry_accessible(&DataKey::Contract(contract_id)) {
            return false;
        }
        if self.contracts.contains(&contract_id) || !meta.is_valid() {
            return true;
        }
        self.entry_accessible(&DataKey::ContractVersion(VersionKey { contract_id, abi_version: 0 }))
    }

    /// Whether every persistent entry `update_contract(caller, contract_id,
    /// meta)` would access is live.
    pub fn update_accessible(&self, caller: &Address, contract_id: Bytes32, meta: &ContractMeta) -> (b: bool)
        requires
            self.wf(),
        ensures
            b == self@.update_accessible(caller@, contract_id@, meta@),
    {
        if self.paused {
            return true;
        }
        if !self.entry_accessible(&DataKey::Contract(contract_id)) {
            return false;
        }
        let next_matches = match self.contracts.get(&contract_id) {
            None => {
                return true;
            },
            Some(existing) => {
                if !existing.registered_by.same_as(caller) && !self.check_admin(caller) {
                    return true;
                }
                meta.abi_version as u64 == existing.abi_version as u64 + 1
            },
        };
        if !next_matches || !meta.is_valid() {
            return true;
        }
        self.entry_accessible(
            &DataKey::ContractVersion(VersionKey { contract_id, abi_version: meta.abi_version }),
        )
    }

    /// Whether the registry entry `deregister_contract(_, contract_id)`
    /// would read is live.
    pub fn deregister_accessible(&self, contract_id: Bytes32) -> (b: bool)
        requires
            self.wf(),
        ensures
            b == self@.deregister_accessible(contract_id@),
    {
        self.paused || self.entry_accessible(&DataKey::Contract(contract_id))
    }

    /// Whether the slot `submit_event(caller, input)` would overwrite is live.
    pub fn submit_accessible(&self, caller: &Address, input: &EventInput) -> (b: bool)
        requires
            self.wf(),
        ensures
            b == self@.submit_accessible(caller@, input@),
    {
        if input.function.as_str().is_empty() || self.paused || !self.check_admin(caller) {
            return true;
        }
        let slot = self.event_seq % (self.max_events as u64);
        assert(self@.slot_of(self.event_seq as int) == slot);
        self.entry_accessible(&DataKey::EventLog(slot))
    }

    /// Whether `set_max_events(caller, new_max)` would only touch live slots.
    pub fn resize_accessible(&self, caller: &Address, new_max: u32) -> (b: bool)
        requires
            self.wf(),
        ensures
            b == self@.resize_accessible(caller@, new_max),
    {
        if !self.check_admin(caller) || new_max < MIN_MAX_EVENTS {
            return true;
        }
        self.ring_accessible()
    }

    /// Whether the slot `get_event(seq)` reads is live.
    pub fn event_accessible(&self, seq: u64) -> (b: bool)
        requires
            self.wf(),
        ensures
            b == self@.slot_accessible(self@.slot_of(seq as int)),
    {
        let slot = seq % (self.max_events as u64);
        assert(self@.slot_of(seq as int) == slot);
        self.entry_accessible(&DataKey::EventLog(slot))
    }

    /// Whether every slot `get_events(cursor, limit)` reads can be accessed
    /// (see [`ExplorerState::page_accessible`]).
    pub fn page_accessible(&self, cursor: u64, limit: u32) -> (b: bool)
        requires
            self.wf(),
        ensures
            b == self@.page_accessible(cursor, limit),
    {
        if limit == 0 {
            return true;
        }
        let clamped: u64 = if limit <= MAX_PAGE_SIZE {
            limit as u64
        } else {
            MAX_PAGE_SIZE as u64
        };
        let total = self.event_seq;
        let max = self.max_events as u64;
        let oldest: u64 = if total >= max {
            total - max
        } else {
            0
        };
        let start: u64 = if cursor >= oldest {
            cursor
        } else {
            oldest
        };
        let first: u64 = if start >= self.retained_from {
            start
        } else {
            self.retained_from
        };
        let end: u64 = if first < total && total - first > clamped {
            first + clamped
        } else {
            total
        };
        let mut q = start;
        while q < end
            invariant
                self.wf(),
                max == self.max_events,
                start <= q,
                start as int == self@.page_start(cursor),
                clamped == ExplorerState::page_size(limit),
                limit > 0,
                total == self@.event_seq,
                first == if start >= self.retained_from {
                    start
                } else {
                    self.retained_from
                },
                (end == total && total <= first + clamped) || (end == first + clamped && first
                    + clamped <= total),
                forall|p: int| start <= p < q ==> #[trigger] self@.slot_accessible(self@.slot_of(p)),
            decreases end - q,
        {
            let k = DataKey::EventLog(q % max);
            assert(self@.slot_of(q as int) == q % max);
            if !self.entry_accessible(&k) {
                assert(start <= q < self@.event_seq && q < first + clamped);
                return false;
            }
            q = q + 1;
        }
        assert(start as int == self@.page_start(cursor));
        assert(clamped == ExplorerState::page_size(limit));
        assert forall|p: int| start <= p < self@.event_seq && p < first + clamped implies #[trigger] self@.slot_accessible(
            self@.slot_of(p),
        ) by {
            assert(p < end);
        }
        true
    }

    // ── Admin ─────────────────────────────────────────────────────────────

    /// Initialises the explorer and configures the event ring buffer.
    /// Refused with `AlreadyExists` if called more than once.  Passing
    /// `max_events = 0` selects [`DEFAULT_MAX_EVENTS`].
    pub fn init(&mut self, admin: Address, max_events: u32) -> (r: Result<(), Error>)
        requires
            old(self).wf(),
        ensures
            final(self).wf(),
            match old(self)@.init_check() {
                Some(e) => r == Err::<(), Error>(e) && final(self)@ == old(self)@,
                None => r == Ok::<(), Error>(()) && final(self)@ == old(self)@.after_init(admin, max_events),
            },
    {
        if self.admin.is_some() {
            return Err(Error::AlreadyExists);
        }
        let cap = if max_events == 0 {
            DEFAULT_MAX_EVENTS
        } else {
            max_events
        };
        self.admin = Some(admin);
        self.event_seq = 0;
        self.retained_from = 0;
        self.max_events = cap;
        bump_instance(&mut self.instance_live_until, self.ledger);
        Ok(())
    }

    /// Nominates `new_admin` (current admin only).  The active admin does not
    /// change until the nominee calls `accept_admin`.
    pub fn transfer_admin(&mut self, caller: Address, new_admin: Address) -> (r: Result<(), Error>)
        requires
            old(self).wf(),
            old(self)@.initialized(),
        ensures
            final(self).wf(),
            match old(self)@.admin_check(caller@) {
                Some(e) => r == Err::<(), Error>(e) && final(self)@ == old(self)@,
                None => r == Ok::<(), Error>(()) && final(self)@ == old(self)@.after_transfer_admin(caller, new_admin),
            },
    {
        if !self.check_admin(&caller) {
            return Err(Error::Unauthorized);
        }
        self.pending_admin = Some(new_admin.duplicate());
        self.published.push(ExplorerEvent::AdminNominated { caller, new_admin });
        bump_instance(&mut self.instance_live_until, self.ledger);
        Ok(())
    }

    /// Accepts a pending nomination (nominee only): `caller` becomes the
    /// active admin and the nomination is cleared.  Refused with `NotFound`
    /// when nobody is nominated, `Unauthorized` when `caller` is not the nominee.
    pub fn accept_admin(&mut self, caller: Address) -> (r: Result<(), Error>)
        requires
            old(self).wf(),
        ensures
            final(self).wf(),
            match old(self)@.accept_check(caller@) {
                Some(e) => r == Err::<(), Error>(e) && final(self)@ == old(self)@,
                None => r == Ok::<(), Error>(()) && final(self)@ == old(self)@.after_accept_admin(caller),
            },
    {
        let nominee_matches = match &self.pending_admin {
            None => {
                return Err(Error::NotFound);
            },
            Some(p) => p.same_as(&caller),
        };
        if !nominee_matches {
            return Err(Error::Unauthorized);
        }
        self.admin = Some(caller.duplicate());
        self.pending_admin = None;
        self.published.push(ExplorerEvent::AdminAccepted { caller });
        bump_instance(&mut self.instance_live_until, self.ledger);
        Ok(())
    }

    /// Withdraws the pending nomination (current admin only).  Refused with
    /// `NotFound` when nobody is nominated.
    pub fn cancel_admin_transfer(&mut self, caller: Address) -> (r: Result<(), Error>)
        requires
            old(self).wf(),
            old(self)@.initialized(),
        ensures
            final(self).wf(),
            match old(self)@.cancel_check(caller@) {
                Some(e) => r == Err::<(), Error>(e) && final(self)@ == old(self)@,
                None => r == Ok::<(), Error>(()) && final(self)@ == old(self)@.after_cancel_admin_transfer(caller),
            },
    {
        if !self.check_admin(&caller) {
            return Err(Error::Unauthorized);
        }
        if self.pending_admin.is_none() {
            return Err(Error::NotFound);
        }
        self.pending_admin = None;
        self.published.push(ExplorerEvent::AdminTransferCancelled { caller });
        bump_instance(&mut self.instance_live_until, self.ledger);
        Ok(())
    }

    /// Returns `(current_event_count, max_events)`.
    pub fn storage_utilisation(&self) -> (r: (u64, u32))
        requires
            self.wf(),
        ensures
            r == (self@.event_count(), self@.max_events),
    {
        (self.event_count(), self.max_events)
    }

    /// Freezes the state-changing registry and event operations (admin only).
    pub fn pause(&mut self, caller: Address) -> (r: Result<(), Error>)
        requires
            old(self).wf(),
            old(self)@.initialized(),
        ensures
            final(self).wf(),
            match old(self)@.admin_check(caller@) {
                Some(e) => r == Err::<(), Error>(e) && final(self)@ == old(self)@,
                None => r == Ok::<(), Error>(()) && final(self)@ == old(self)@.after_pause(),
            },
    {
        if !self.check_admin(&caller) {
            return Err(Error::Unauthorized);
        }
        self.paused = true;
        self.published.push(ExplorerEvent::Paused);
        bump_instance(&mut self.instance_live_until, self.ledger);
        Ok(())
    }

    /// Unfreezes the contract (admin only).
    pub fn unpause(&mut self, caller: Address) -> (r: Result<(), Error>)
        requires
            old(self).wf(),
            old(self)@.initialized(),
        ensures
            final(self).wf(),
            match old(self)@.admin_check(caller@) {
                Some(e) => r == Err::<(), Error>(e) && final(self)@ == old(self)@,
                None => r == Ok::<(), Error>(()) && final(self)@ == old(self)@.after_unpause(),
            },
    {
        if !self.check_admin(&caller) {
            return Err(Error::Unauthorized);
        }
        self.paused = false;
        self.published.push(ExplorerEvent::Unpaused);
        bump_instance(&mut self.instance_live_until, self.ledger);
        Ok(())
    }

    /// Replaces the contract code by `new_wasm_hash` (admin only, not while paused).
    pub fn upgrade(&mut self, caller: Address, new_wasm_hash: Bytes32) -> (r: Result<(), Error>)
        requires
            old(self).wf(),
            old(self)@.initialized(),
        ensures
            final(self).wf(),
            match old(self)@.upgrade_check(caller@) {
                Some(e) => r == Err::<(), Error>(e) && final(self)@ == old(self)@,
                None => r == Ok::<(), Error>(()) && final(self)@ == old(self)@.after_upgrade(new_wasm_hash),
            },
    {
        if self.paused {
            return Err(Error::ContractPaused);
        }
        if !self.check_admin(&caller) {
            return Err(Error::Unauthorized);
        }
        self.wasm = Some(new_wasm_hash);
        self.published.push(ExplorerEvent::Upgraded { new_wasm_hash });
        bump_instance(&mut self.instance_live_until, self.ledger);
        Ok(())
    }

    /// Whether the contract is currently paused.
    pub fn is_paused(&self) -> (b: bool)
        ensures
            b == self@.paused,
    {
        self.paused
    }

    /// Number of events currently retained (at most `max_events`).
    pub fn event_count(&self) -> (n: u64)
        requires
            self.wf(),
        ensures
            n == self@.event_count(),
    {
        self.event_seq - self.retained_from
    }

    // ── Contract registry ─────────────────────────────────────────────────

    /// Registers metadata for `contract_id` (admin only, not while paused).
    /// The stored metadata gets `abi_version = 0` and `min_ledger` = the
    /// current ledger; it is also recorded as version 0 of the entry's
    /// history.  Refused with `AlreadyExists` when the id is registered and
    /// with `InvalidInput` when `meta` breaks the field constraints.
    pub fn register_contract(
        &mut self,
        caller: Address,
        contract_id: Bytes32,
        meta: ContractMeta,
    ) -> (r: Result<(), Error>)
        requires
            old(self).wf(),
            old(self)@.initialized(),
            old(self)@.register_accessible(caller@, contract_id@, meta@),
        ensures
            final(self).wf(),
            match old(self)@.register_check(caller@, contract_id@, meta@) {
                Some(e) => r == Err::<(), Error>(e) && final(self)@ == old(self)@,
                None => r == Ok::<(), Error>(()) && final(self)@ == old(self)@.after_register(contract_id, meta),
            },
    {
        if self.paused {
            return Err(Error::ContractPaused);
        }
        if !self.check_admin(&caller) {
            return Err(Error::Unauthorized);
        }
        if self.contracts.contains(&contract_id) {
            return Err(Error::AlreadyExists);
        }
        if !meta.is_valid() {
            return Err(Error::InvalidInput);
        }
        let ledger = self.ledger;
        let mut stored = meta;
        stored.abi_version = 0;
        stored.min_ledger = ledger;
        let event = ExplorerEvent::ContractRegistered {
            contract_id,
            registered_by: stored.registered_by.duplicate(),
            contract_version: stored.version,
            ledger,
            name: stored.name.clone(),
        };
        let ghost before = self@;
        self.versions.insert(VersionKey { contract_id, abi_version: 0 }, stored.duplicate());
        self.contracts.insert(contract_id, stored);
        self.published.push(event);
        bump_entry(
            &mut self.contract_ttls,
            contract_id,
            ledger,
            REGISTRY_LIFETIME_THRESHOLD,
            REGISTRY_BUMP_AMOUNT,
        );
        bump_entry(
            &mut self.version_ttls,
            VersionKey { contract_id, abi_version: 0 },
            ledger,
            REGISTRY_LIFETIME_THRESHOLD,
            REGISTRY_BUMP_AMOUNT,
        );
        bump_instance(&mut self.instance_live_until, self.ledger);
        proof {
            let after = self@;
            assert forall|id: Seq<u8>| #[trigger] after.contracts.contains_key(id) implies {
                &&& meta_is_valid(after.contracts[id])
                &&& after.versions.contains_key((id, after.contracts[id].abi_version))
                &&& after.versions[(id, after.contracts[id].abi_version)] == after.contracts[id]
            } by {
                if id != contract_id@ {
                    assert(before.contracts.contains_key(id));
                }
            }
        }
        Ok(())
    }

    /// Publishes a new ABI version of a registered contract (admin or
    /// registrant, not while paused).  `meta.abi_version` must be exactly
    /// one more than the stored one (optimistic concurrency guard), else the
    /// call is refused with `Unauthorized`.  The stored metadata gets
    /// `min_ledger` = the current ledger and is also recorded in the history.
    pub fn update_contract(
        &mut self,
        caller: Address,
        contract_id: Bytes32,
        meta: ContractMeta,
    ) -> (r: Result<(), Error>)
        requires
            old(self).wf(),
            !old(self)@.update_overflows(caller@, contract_id@),
            old(self)@.update_accessible(caller@, contract_id@, meta@),
        ensures
            final(self).wf(),
            match old(self)@.update_check(caller@, contract_id@, meta@) {
                Some(e) => r == Err::<(), Error>(e) && final(self)@ == old(self)@,
                None => r == Ok::<(), Error>(()) && final(self)@ == old(self)@.after_update(caller, contract_id, meta@),
            },
    {
        if self.paused {
            return Err(Error::ContractPaused);
        }
        let (old_abi_version, old_version, registrant_matches) = match self.contracts.get(
            &contract_id,
        ) {
            None => {
                return Err(Error::NotFound);
            },
            Some(existing) => (
                existing.abi_version,
                existing.version,
                existing.registered_by.same_as(&caller),
            ),
        };
        if !registrant_matches && !self.check_admin(&caller) {
            return Err(Error::Unauthorized);
        }
        let expected = old_abi_version + 1;
        if meta.abi_version != expected {
            return Err(Error::Unauthorized);
        }
        if !meta.is_valid() {
            return Err(Error::InvalidInput);
        }
        let ledger = self.ledger;
        let new_abi_version = meta.abi_version;
        let new_version = meta.version;
        let mut updated = meta;
        updated.min_ledger = ledger;
        let ghost before = self@;
        self.versions.insert(
            VersionKey { contract_id, abi_version: new_abi_version },
            updated.duplicate(),
        );
        self.contracts.insert(contract_id, updated);
        self.published.push(
            ExplorerEvent::AbiUpdated {
                contract_id,
                old_abi_version,
                new_abi_version,
                ledger,
            },
        );
        self.published.push(
            ExplorerEvent::ContractUpdated {
                contract_id,
                caller,
                old_contract_version: old_version,
                new_contract_version: new_version,
                ledger,
            },
        );
        bump_entry(
            &mut self.contract_ttls,
            contract_id,
            ledger,
            REGISTRY_LIFETIME_THRESHOLD,
            REGISTRY_BUMP_AMOUNT,
        );
        bump_entry(
            &mut self.version_ttls,
            VersionKey { contract_id, abi_version: new_abi_version },
            ledger,
            REGISTRY_LIFETIME_THRESHOLD,
            REGISTRY_BUMP_AMOUNT,
        );
        bump_instance(&mut self.instance_live_until, self.ledger);
        proof {
            let after = self@;
            assert forall|id: Seq<u8>| #[trigger] after.contracts.contains_key(id) implies {
                &&& meta_is_valid(after.contracts[id])
                &&& after.versions.contains_key((id, after.contracts[id].abi_version))
                &&& after.versions[(id, after.contracts[id].abi_version)] == after.contracts[id]
            } by {
                if id != contract_id@ {
                    assert(before.contracts.contains_key(id));
                }
            }
        }
        Ok(())
    }

    /// The current metadata of `contract_id`; `NotFound` when unregistered.
    /// A successful read extends the entry's lifetime to the registry horizon
    /// (an archived entry is left as it is).
    pub fn get_contract(&mut self, contract_id: Bytes32) -> (r: Result<ContractMeta, Error>)
        requires
            old(self).wf(),
            old(self)@.contract_accessible(contract_id@),
        ensures
            final(self).wf(),
            old(self)@.contracts.contains_key(contract_id@) ==> (r matches Ok(m) && m@
                == old(self)@.contracts[contract_id@]) && final(self)@ == old(self)@.bump_contract(
                contract_id@,
            ),
            !old(self)@.contracts.contains_key(contract_id@) ==> r == Err::<ContractMeta, Error>(
                Error::NotFound,
            ) && final(self)@ == old(self)@,
    {
        match self.get_latest_contract(contract_id) {
            Some(m) => Ok(m),
            None => Err(Error::NotFound),
        }
    }

    /// The metadata recorded for ABI version `abi_version` of `contract_id`,
    /// if any.  A successful read extends the entry's lifetime to the
    /// registry horizon (an archived entry is left as it is).
    pub fn get_contract_version(&mut self, contract_id: Bytes32, abi_version: u32) -> (r: Option<
        ContractMeta,
    >)
        requires
            old(self).wf(),
            old(self)@.version_accessible((contract_id@, abi_version)),
        ensures
            final(self).wf(),
            old(self)@.versions.contains_key((contract_id@, abi_version)) ==> (r matches Some(m)
                && m@ == old(self)@.versions[(contract_id@, abi_version)]) && final(self)@ == old(self)@.bump_version((contract_id@, abi_version)),
            !old(self)@.versions.contains_key((contract_id@, abi_version)) ==> r is None && final(self)@ == old(self)@,
    {
        let key = VersionKey { contract_id, abi_version };
        let found = self.versions.get_copy(&key);
        if found.is_some() {
            bump_entry(
                &mut self.version_ttls,
                key,
                self.ledger,
                REGISTRY_LIFETIME_THRESHOLD,
                REGISTRY_BUMP_AMOUNT,
            );
            assert(self@.version_live_until.dom() =~= self@.versions.dom());
        }
        found
    }

    /// The current metadata of `contract_id`, if registered.  A successful
    /// read extends the entry's lifetime to the registry horizon (an
    /// archived entry is left as it is).
    pub fn get_latest_contract(&mut self, contract_id: Bytes32) -> (r: Option<ContractMeta>)
        requires
            old(self).wf(),
            old(self)@.contract_accessible(contract_id@),
        ensures
            final(self).wf(),
            old(self)@.contracts.contains_key(contract_id@) ==> (r matches Some(m) && m@
                == old(self)@.contracts[contract_id@]) && final(self)@ == old(self)@.bump_contract(
                contract_id@,
            ),
            !old(self)@.contracts.contains_key(contract_id@) ==> r is None && final(self)@ == old(self)@,
    {
        let found = self.contracts.get_copy(&contract_id);
        if found.is_some() {
            bump_entry(
                &mut self.contract_ttls,
                contract_id,
                self.ledger,
                REGISTRY_LIFETIME_THRESHOLD,
                REGISTRY_BUMP_AMOUNT,
            );
            assert(self@.contract_live_until.dom() =~= self@.contracts.dom());
        }
        found
    }

    /// Removes `contract_id` from the registry (admin or registrant, not
    /// while paused).  Its version history stays.
    pub fn deregister_contract(&mut self, caller: Address, contract_id: Bytes32) -> (r: Result<
        (),
        Error,
    >)
        requires
            old(self).wf(),
            old(self)@.deregister_accessible(contract_id@),
        ensures
            final(self).wf(),
            match old(self)@.deregister_check(caller@, contract_id@) {
                Some(e) => r == Err::<(), Error>(e) && final(self)@ == old(self)@,
                None => r == Ok::<(), Error>(()) && final(self)@ == old(self)@.after_deregister(caller, contract_id),
            },
    {
        if self.paused {
            return Err(Error::ContractPaused);
        }
        let registrant_matches = match self.contracts.get(&contract_id) {
            None => {
                return Err(Error::NotFound);
            },
            Some(existing) => existing.registered_by.same_as(&caller),
        };
        if !registrant_matches && !self.check_admin(&caller) {
            return Err(Error::Unauthorized);
        }
        let ledger = self.ledger;
        let ghost before = self@;
        self.contracts.remove(&contract_id);
        self.contract_ttls.remove(&contract_id);
        self.published.push(ExplorerEvent::ContractDeregistered { contract_id, caller, ledger });
        bump_instance(&mut self.instance_live_until, self.ledger);
        proof {
            let after = self@;
            assert forall|id: Seq<u8>| #[trigger] after.contracts.contains_key(id) implies {
                &&& meta_is_valid(after.contracts[id])
                &&& after.versions.contains_key((id, after.contracts[id].abi_version))
                &&& after.versions[(id, after.contracts[id].abi_version)] == after.contracts[id]
            } by {
                assert(before.contracts.contains_key(id));
            }
        }
        Ok(())
    }

    // ── Event ring buffer ─────────────────────────────────────────────────

    /// The event with sequence number `q`, if the ring still holds it.
    fn live_event(&self, q: u64) -> (r: Option<&DecodedEvent>)
        requires
            self.wf(),
        ensures
            match r {
                Some(e) => self@.live(q as int) == Some(e@),
                None => self@.live(q as int) is None,
            },
    {
        let slot = q % (self.max_events as u64);
        match self.slots.get(slot) {
            Some(e) => {
                if e.seq == q {
                    Some(e)
                } else {
                    None
                }
            },
            None => None,
        }
    }

    /// Resizes the ring buffer to `new_max` slots (admin only).  Refused
    /// with `BelowFloor` when `new_max < MIN_MAX_EVENTS`.  The retained
    /// events, at most the `new_max` most recent of them, are read back in
    /// sequence order and written into a ring rebuilt in the new layout, so
    /// they stay readable under their sequence numbers; the slots of the old
    /// layout are dropped and each rewritten slot gets the event horizon.
    pub fn set_max_events(&mut self, caller: Address, new_max: u32) -> (r: Result<(), Error>)
        requires
            old(self).wf(),
            old(self)@.initialized(),
            old(self)@.resize_accessible(caller@, new_max),
        ensures
            final(self).wf(),
            match old(self)@.resize_check(caller@, new_max) {
                Some(e) => r == Err::<(), Error>(e) && final(self)@ == old(self)@,
                None => r == Ok::<(), Error>(()) && final(self)@ == old(self)@.after_set_max_events(new_max),
            },
    {
        if !self.check_admin(&caller) {
            return Err(Error::Unauthorized);
        }
        if new_max < MIN_MAX_EVENTS {
            return Err(Error::BelowFloor);
        }
        let old_max = self.max_events;
        let total = self.event_seq;
        let retained_from = self.retained_from;
        let start: u64 = if total >= new_max as u64 && total - new_max as u64 > retained_from {
            total - new_max as u64
        } else {
            retained_from
        };
        let mut kept: Vec<DecodedEvent> = Vec::new();
        let mut q = start;
        while q < total
            invariant
                self.wf(),
                total == self@.event_seq,
                start <= q <= total,
                events_view(kept@) == self@.live_between(start as int, q as int),
            decreases total - q,
        {
            let ghost before = kept@;
            match self.live_event(q) {
                Some(e) => {
                    kept.push(e.duplicate());
                    assert(events_view(kept@) =~= events_view(before).push(e@));
                },
                None => {},
            }
            q = q + 1;
        }
        proof {
            lemma_resize_consistent(self@, new_max);
        }
        let mut slots: Ring<DecodedEvent> = Ring::new();
        let mut slot_ttls: Ring<u32> = Ring::new();
        relay(&mut slots, &mut slot_ttls, &kept, new_max, self.ledger);
        self.slots = slots;
        self.slot_ttls = slot_ttls;
        self.max_events = new_max;
        self.retained_from = start;
        self.published.push(ExplorerEvent::Resized { old_max, new_max });
        bump_instance(&mut self.instance_live_until, self.ledger);
        Ok(())
    }

    /// Appends a decoded event to the ring buffer (admin only, not while
    /// paused).  It gets the next sequence number and overwrites the slot
    /// that number maps to.  Refused with `InvalidInput` when the function
    /// name is empty.
    pub fn submit_event(&mut self, caller: Address, input: EventInput) -> (r: Result<(), Error>)
        requires
            old(self).wf(),
            input@.function.len() > 0 ==> old(self)@.initialized(),
            !old(self)@.submit_overflows(caller@, input@),
            old(self)@.submit_accessible(caller@, input@),
        ensures
            final(self).wf(),
            match old(self)@.submit_check(caller@, input@) {
                Some(e) => r == Err::<(), Error>(e) && final(self)@ == old(self)@,
                None => r == Ok::<(), Error>(()) && final(self)@ == old(self)@.after_submit(input),
            },
    {
        if input.function.as_str().is_empty() {
            return Err(Error::InvalidInput);
        }
        if self.paused {
            return Err(Error::ContractPaused);
        }
        if !self.check_admin(&caller) {
            return Err(Error::Unauthorized);
        }
        let ghost before = self@;
        let ghost input_view = input@;
        let ghost input_exact = input;
        let seq = self.event_seq;
        let max = self.max_events as u64;
        let slot = seq % max;
        let retained_from = self.retained_from;
        let evicting = seq - retained_from >= max;
        let contract_id = input.contract_id;
        let ledger = input.ledger;
        let function = input.function.clone();
        let function_again = input.function.clone();
        let description = input.description.clone();
        let event = DecodedEvent {
            seq,
            contract_id,
            function: input.function,
            ledger,
            description: input.description,
            raw_topics: input.raw_topics,
            raw_data: input.raw_data,
        };
        let ghost stored = event@;
        assert(stored == input_view.stored_as(seq));
        self.slots.insert(slot, event);
        self.event_seq = seq + 1;
        self.submitted = Ghost(self.submitted@.push(stored));
        self.published.push(ExplorerEvent::EventSubmitted { contract_id, function, seq, ledger });
        if evicting {
            self.published.push(ExplorerEvent::CapacityHit { evicted_seq: retained_from, seq });
            self.retained_from = retained_from + 1;
        }
        self.published.push(
            ExplorerEvent::Decoded { contract_id, function: function_again, description },
        );
        bump_slot_lifetime(&mut self.slot_ttls, slot, self.ledger);
        bump_instance(&mut self.instance_live_until, self.ledger);
        proof {
            let after = self@;
            assert(after.published =~= before.published + submission_notices(
                input_exact,
                seq,
                if evicting {
                    Some(retained_from)
                } else {
                    None
                },
            ));
            lemma_submit_consistent(before, input_exact);
        }
        Ok(())
    }

    /// The event with sequence number `seq`; `NotFound` when the ring no
    /// longer (or never) holds it.  A successful read extends the slot's
    /// lifetime to the event horizon (an archived slot is left as it is).
    pub fn get_event(&mut self, seq: u64) -> (r: Result<DecodedEvent, Error>)
        requires
            old(self).wf(),
            old(self)@.slot_accessible(old(self)@.slot_of(seq as int)),
        ensures
            final(self).wf(),
            match old(self)@.live(seq as int) {
                Some(e) => (r matches Ok(v) && v@ == e) && final(self)@ == old(self)@.bump_slot(
                    old(self)@.slot_of(seq as int),
                ),
                None => r == Err::<DecodedEvent, Error>(Error::NotFound) && final(self)@ == old(self)@,
            },
    {
        let found = match self.live_event(seq) {
            Some(e) => Some(e.duplicate()),
            None => None,
        };
        match found {
            Some(e) => {
                let slot = seq % (self.max_events as u64);
                bump_slot_lifetime(&mut self.slot_ttls, slot, self.ledger);
                assert(self@.slot_live_until.dom() =~= self@.slots.dom());
                Ok(e)
            },
            None => Err(Error::NotFound),
        }
    }

    /// The TTL of the entry stored under `key` (see [`ExplorerState::ttl_of`]).
    pub fn get_ttl(&self, key: &DataKey) -> (r: Option<u32>)
        requires
            self.wf(),
        ensures
            r == self@.ttl_of(*key),
    {
        let live_until = match key {
            DataKey::Contract(id) => self.contract_ttls.get_copy(id),
            DataKey::ContractVersion(v) => self.version_ttls.get_copy(v),
            DataKey::EventLog(k) => self.slot_ttls.get_copy(*k),
            _ => Some(self.instance_live_until),
        };
        match live_until {
            Some(lu) => {
                if lu >= self.ledger {
                    Some(lu - self.ledger)
                } else {
                    Some(0)
                }
            },
            None => None,
        }
    }

    /// A page of retained events in sequence order, starting at sequence
    /// number `cursor` (or at the oldest one the ring can hold, if later) and
    /// holding at most `min(limit, MAX_PAGE_SIZE)` events.  Evicted events
    /// are skipped.  Refused with `InvalidInput` when `limit == 0`.
    pub fn get_events(&self, cursor: u64, limit: u32) -> (r: Result<Vec<DecodedEvent>, Error>)
        requires
            self.wf(),
            self@.page_accessible(cursor, limit),
        ensures
            limit == 0 ==> r == Err::<Vec<DecodedEvent>, Error>(Error::InvalidInput),
            limit > 0 ==> (r matches Ok(v) && events_view(v@) == self@.events_page(cursor, limit)),
    {
        if limit == 0 {
            return Err(Error::InvalidInput);
        }
        let clamped: usize = if limit <= MAX_PAGE_SIZE {
            limit as usize
        } else {
            MAX_PAGE_SIZE as usize
        };
        let total = self.event_seq;
        let max = self.max_events as u64;
        let oldest: u64 = if total >= max {
            total - max
        } else {
            0
        };
        let start: u64 = if cursor >= oldest {
            cursor
        } else {
            oldest
        };
        let mut out: Vec<DecodedEvent> = Vec::new();
        let mut seq = start;
        while out.len() < clamped && seq < total
            invariant
                self.wf(),
                total == self@.event_seq,
                start <= seq,
                out@.len() <= clamped,
                events_view(out@) + self@.page(seq as int, (clamped - out@.len()) as nat)
                    == self@.page(start as int, clamped as nat),
            decreases total - seq,
        {
            let ghost before = out@;
            match self.live_event(seq) {
                Some(e) => {
                    out.push(e.duplicate());
                    assert(events_view(out@) =~= events_view(before).push(e@));
                    assert(events_view(out@) + self@.page(
                        seq + 1,
                        (clamped - out@.len()) as nat,
                    ) =~= events_view(before) + self@.page(
                        seq as int,
                        (clamped - before.len()) as nat,
                    ));
                },
                None => {},
            }
            seq = seq + 1;
        }
        assert(self@.page(seq as int, (clamped - out@.len()) as nat) =~= Seq::empty());
        assert(events_view(out@) =~= events_view(out@) + Seq::<DecodedEventView>::empty());
        Ok(out)
    }

    // ── Persistence ───────────────────────────────────────────────────────

    /// The stored state as plain values (published events are not stored).
    pub fn snapshot(&self) -> (s: ExplorerSnapshot)
        requires
            self.wf(),
        ensures
            s.distinct(),
            s.sound(),
            s.state() == (ExplorerState {
                published: Seq::empty(),
                submitted: s.state().submitted,
                ..self@
            }),
    {
        let admin = match &self.admin {
            Some(a) => Some(a.duplicate()),
            None => None,
        };
        let pending_admin = match &self.pending_admin {
            Some(a) => Some(a.duplicate()),
            None => None,
        };
        let s = ExplorerSnapshot {
            ledger: self.ledger,
            admin,
            pending_admin,
            event_seq: self.event_seq,
            retained_from: self.retained_from,
            max_events: self.max_events,
            paused: self.paused,
            wasm: self.wasm,
            instance_live_until: self.instance_live_until,
            contracts: self.contracts.to_entries(),
            versions: self.versions.to_entries(),
            slots: self.slots.to_entries(),
            contract_lifetimes: self.contract_ttls.to_entries(),
            version_lifetimes: self.version_ttls.to_entries(),
            slot_lifetimes: self.slot_ttls.to_entries(),
        };
        proof {
            let t = s.state();
            let me = self@;
            assert forall|k: u64| #[trigger] t.slots.contains_key(k) implies t.genuine(t.slots[k]) by {
                let q = t.slots[k].seq as int;
                assert(me.slots.contains_key(k));
                assert(me.genuine(me.slots[k]));
                let k2 = choose|k2: u64| t.slots.contains_key(k2) && t.slots[k2].seq == q;
                assert(me.slots.contains_key(k2));
                assert(me.genuine(me.slots[k2]));
            }
            assert(t.consistent());
            lemma_sound_iff_consistent(s);
        }
        s
    }

    /// The explorer a snapshot describes, provided it has no repeated keys
    /// and passes the checks of [`ExplorerSnapshot::sound`] (which hold
    /// exactly when it describes a consistent explorer); `None` otherwise.
    pub fn restore(snap: ExplorerSnapshot) -> (r: Option<ExplorerContract>)
        ensures
            (r is Some) == (snap.distinct() && snap.sound()),
            r matches Some(c) ==> c.wf() && c@ == snap.state(),
    {
        let contracts = match Table::from_entries(&snap.contracts) {
            Some(t) => t,
            None => {
                return None;
            },
        };
        let versions = match Table::from_entries(&snap.versions) {
            Some(t) => t,
            None => {
                return None;
            },
        };
        let slots = match Ring::from_entries(&snap.slots) {
            Some(t) => t,
            None => {
                proof {
                    if keys_distinct(snap.slots@) && snap.sound() {
                        let i = choose|i: int|
                            0 <= i < snap.slots@.len() && (#[trigger] snap.slots@[i]).0 >= SLOT_LIMIT;
                    }
                }
                return None;
            },
        };
        let contract_ttls = match Table::from_entries(&snap.contract_lifetimes) {
            Some(t) => t,
            None => {
                return None;
            },
        };
        let version_ttls = match Table::from_entries(&snap.version_lifetimes) {
            Some(t) => t,
            None => {
                return None;
            },
        };
        let slot_ttls = match Ring::from_entries(&snap.slot_lifetimes) {
            Some(t) => t,
            None => {
                proof {
                    if keys_distinct(snap.slot_lifetimes@) && snap.sound() {
                        lemma_entries_map(snap.slots@);
                        let i = choose|i: int|
                            0 <= i < snap.slot_lifetimes@.len() && (#[trigger] snap.slot_lifetimes@[i]).0
                                >= SLOT_LIMIT;
                        let k = snap.slot_lifetimes@[i].0;
                        assert(entries_map(snap.slots@).contains_key(k));
                        let j = choose|j: int| 0 <= j < snap.slots@.len() && (#[trigger] snap.slots@[j]).0@ == k;
                    }
                }
                return None;
            },
        };
        let uninitialised_is_pristine = snap.admin.is_some() || (!snap.paused
            && snap.pending_admin.is_none() && snap.event_seq == 0 && snap.contracts.len() == 0
            && snap.versions.len() == 0 && snap.slots.len() == 0);
        let sound = snap.max_events > 0 && snap.ledger <= u32::MAX - REGISTRY_BUMP_AMOUNT
            && uninitialised_is_pristine && covers_exec(&snap.contracts, &contract_ttls)
            && covers_exec(&snap.contract_lifetimes, &contracts) && covers_exec(
            &snap.versions,
            &version_ttls,
        ) && covers_exec(&snap.version_lifetimes, &versions) && covers_ring_exec(
            &snap.slots,
            &slot_ttls,
        ) && covers_ring_exec(&snap.slot_lifetimes, &slots) && registry_sound_exec(
            &snap.contracts,
            &versions,
        ) && history_sound_exec(&snap.versions) && snap.retained_from <= snap.event_seq
            && snap.event_seq - snap.retained_from <= snap.max_events as u64 && slots_sound_exec(
            &snap.slots,
            snap.event_seq,
            snap.retained_from,
            snap.max_events,
        ) && window_held_exec(&slots, snap.max_events, snap.retained_from, snap.event_seq);
        if !sound {
            return None;
        }
        proof {
            lemma_sound_iff_consistent(snap);
        }
        let ghost history = vouched_history(slots@, snap.event_seq);
        Some(
            ExplorerContract {
                ledger: snap.ledger,
                admin: snap.admin,
                pending_admin: snap.pending_admin,
                event_seq: snap.event_seq,
                retained_from: snap.retained_from,
                max_events: snap.max_events,
                paused: snap.paused,
                wasm: snap.wasm,
                contracts,
                versions,
                slots,
                instance_live_until: snap.instance_live_until,
                contract_ttls,
                version_ttls,
                slot_ttls,
                published: Vec::new(),
                submitted: Ghost(history),
            },
        )
    }
}

/// Writes each of `kept`, in order, into the slot that a ring of `m`
/// slots assigns to its sequence number.
fn relay(
    slots: &mut Ring<DecodedEvent>,
    lifetimes: &mut Ring<u32>,
    kept: &Vec<DecodedEvent>,
    m: u32,
    ledger: u32,
)
    requires
        m > 0,
        ledger + EVENT_BUMP_AMOUNT <= u32::MAX,
    ensures
        final(slots)@ == relaid(old(slots)@, events_view(kept@), m),
        final(lifetimes)@ == rebumped(old(lifetimes)@, events_view(kept@), m, ledger),
{
    let ghost evs = events_view(kept@);
    let mut i: usize = 0;
    while i < kept.len()
        invariant
            m > 0,
            ledger + EVENT_BUMP_AMOUNT <= u32::MAX,
            i <= kept@.len(),
            evs == events_view(kept@),
            slots@ == relaid(old(slots)@, evs.take(i as int), m),
            lifetimes@ == rebumped(old(lifetimes)@, evs.take(i as int), m, ledger),
        decreases kept@.len() - i,
    {
        let e = kept[i].duplicate();
        let slot = e.seq % (m as u64);
        slots.insert(slot, e);
        bump_slot_lifetime(lifetimes, slot, ledger);
        assert(evs.take(i + 1).drop_last() =~= evs.take(i as int));
        i = i + 1;
    }
    assert(evs.take(kept@.len() as int) =~= evs);
}

/// The last live ledger of a persistent entry after `extend_ttl(threshold, extend_to)`.
fn extended_live_until(current: Option<u32>, ledger: u32, threshold: u32, extend_to: u32) -> (r: u32)
    requires
        ledger + extend_to <= u32::MAX,
    ensures
        r == extended(current, ledger, threshold, extend_to),
{
    match current {
        Some(live_until) => {
            if live_until < ledger || live_until - ledger >= threshold {
                live_until
            } else {
                ledger + extend_to
            }
        },
        None => ledger + extend_to,
    }
}

/// Extends the lifetime of the entry `key` (`extend_ttl(threshold, extend_to)`).
fn bump_entry<K: TableKey>(
    lifetimes: &mut Table<K, u32>,
    key: K,
    ledger: u32,
    threshold: u32,
    extend_to: u32,
)
    requires
        old(lifetimes).wf(),
        ledger + extend_to <= u32::MAX,
    ensures
        final(lifetimes).wf(),
        final(lifetimes)@ == bump(old(lifetimes)@, key@, ledger, threshold, extend_to),
{
    let current = match lifetimes.get(&key) {
        Some(live_until) => Some(*live_until),
        None => None,
    };
    let live_until = extended_live_until(current, ledger, threshold, extend_to);
    lifetimes.insert(key, live_until);
}

/// Extends the lifetime of the ring slot `key` to the event horizon.
fn bump_slot_lifetime(lifetimes: &mut Ring<u32>, key: u64, ledger: u32)
    requires
        key < SLOT_LIMIT,
        ledger + EVENT_BUMP_AMOUNT <= u32::MAX,
    ensures
        final(lifetimes)@ == bump(
            old(lifetimes)@,
            key,
            ledger,
            EVENT_LIFETIME_THRESHOLD,
            EVENT_BUMP_AMOUNT,
        ),
{
    let current = lifetimes.get_copy(key);
    let live_until = extended_live_until(current, ledger, EVENT_LIFETIME_THRESHOLD, EVENT_BUMP_AMOUNT);
    lifetimes.insert(key, live_until);
}

/// Extends the lifetime of the instance storage.
fn bump_instance(live_until: &mut u32, ledger: u32)
    requires
        ledger + INSTANCE_BUMP_AMOUNT <= u32::MAX,
    ensures
        *final(live_until) == instance_extended(
            *old(live_until),
            ledger,
            INSTANCE_LIFETIME_THRESHOLD,
            INSTANCE_BUMP_AMOUNT,
        ),
{
    if !(*live_until >= ledger && *live_until - ledger >= INSTANCE_LIFETIME_THRESHOLD) {
        *live_until = ledger + INSTANCE_BUMP_AMOUNT;
    }
}

} // verus!

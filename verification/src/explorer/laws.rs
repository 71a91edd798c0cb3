//! Properties of the explorer that span its entry points.

use vstd::prelude::*;
use crate::common::{Address, Bytes32};
use super::types::{
    ContractMeta, ContractMetaView, DataKey, DecodedEventView, Error, EventInput, EventInputView,
    VersionKey,
    EVENT_BUMP_AMOUNT, EVENT_LIFETIME_THRESHOLD, INSTANCE_BUMP_AMOUNT,
    INSTANCE_LIFETIME_THRESHOLD, MAX_PAGE_SIZE, REGISTRY_BUMP_AMOUNT, REGISTRY_LIFETIME_THRESHOLD,
    meta_is_valid, function_is_valid, utf8_len, FunctionAbiView, MAX_DESCRIPTION_LEN, MAX_FUNCTIONS,
    MAX_NAME_LEN, MAX_PARAMS, MIN_MAX_EVENTS,
};
use super::state::{
    ExplorerState, extended, lemma_live_between_props, lemma_resize_consistent,
    lemma_retained_window, lemma_submit_consistent, lifetime_of, rebumped, remaining, ring_slot,
};

verus! {

/// Registering a contract and reading it back gives the submitted metadata
/// with ABI version 0 and the registration ledger, both as the current entry
/// and as version 0 of its history.  Other ids are untouched.
pub proof fn law_register_then_read(
    s: ExplorerState,
    caller: Seq<char>,
    contract_id: Bytes32,
    meta: ContractMeta,
    other: Seq<u8>,
)
    requires
        s.consistent(),
        s.register_check(caller, contract_id@, meta@) is None,
    ensures
        ({
            let t = s.after_register(contract_id, meta);
            &&& t.contracts.contains_key(contract_id@)
            &&& t.contracts[contract_id@] == ExplorerState::registered_form(meta@, s.ledger)
            &&& t.contracts[contract_id@].abi_version == 0
            &&& t.contracts[contract_id@].min_ledger == s.ledger
            &&& t.versions.contains_key((contract_id@, 0))
            &&& t.versions[(contract_id@, 0)] == t.contracts[contract_id@]
            &&& other != contract_id@ ==> t.contracts.contains_key(other)
                == s.contracts.contains_key(other) && t.contracts[other] == s.contracts[other]
        }),
{
}

/// A successful update bumps the ABI version by exactly one, stores the
/// submitted metadata stamped with the current ledger both as the current
/// entry and in the history, and keeps every other recorded version.
pub proof fn law_update_then_read(
    s: ExplorerState,
    caller: Address,
    contract_id: Bytes32,
    meta: ContractMetaView,
    v: u32,
)
    requires
        s.consistent(),
        s.update_check(caller@, contract_id@, meta) is None,
    ensures
        ({
            let t = s.after_update(caller, contract_id, meta);
            &&& t.contracts[contract_id@].abi_version == s.contracts[contract_id@].abi_version + 1
            &&& t.contracts[contract_id@] == ExplorerState::updated_form(meta, s.ledger)
            &&& t.versions[(contract_id@, meta.abi_version)] == t.contracts[contract_id@]
            &&& v != meta.abi_version ==> t.versions.contains_key((contract_id@, v))
                == s.versions.contains_key((contract_id@, v)) && t.versions[(contract_id@, v)]
                == s.versions[(contract_id@, v)]
        }),
{
}

/// An update that does not name exactly the next ABI version (a stale or
/// skipping write) is refused and changes nothing.
pub proof fn law_stale_update_refused(
    s: ExplorerState,
    caller: Seq<char>,
    contract_id: Seq<u8>,
    meta: ContractMetaView,
)
    requires
        s.consistent(),
        !s.paused,
        s.contracts.contains_key(contract_id),
        s.may_edit(caller, contract_id),
        meta.abi_version != s.contracts[contract_id].abi_version + 1,
    ensures
        s.update_check(caller, contract_id, meta) == Some(Error::Unauthorized),
{
}

/// After deregistration the id is no longer registered, while its version
/// history is kept.
pub proof fn law_deregister_then_read(s: ExplorerState, caller: Address, contract_id: Bytes32)
    requires
        s.consistent(),
        s.deregister_check(caller@, contract_id@) is None,
    ensures
        ({
            let t = s.after_deregister(caller, contract_id);
            &&& !t.contracts.contains_key(contract_id@)
            &&& t.versions == s.versions
        }),
{
}

/// A deregistered id is free again: the admin may register it anew.
pub proof fn law_deregister_frees_id(
    s: ExplorerState,
    caller: Address,
    admin: Seq<char>,
    contract_id: Bytes32,
    meta: ContractMetaView,
)
    requires
        s.consistent(),
        s.deregister_check(caller@, contract_id@) is None,
        s.is_admin(admin),
        meta_is_valid(meta),
    ensures
        s.after_deregister(caller, contract_id).register_check(admin, contract_id@, meta) is None,
{
}

/// Every registered entry meets the metadata field constraints and is also
/// recorded in its history under its current ABI version.
pub proof fn law_current_in_history(s: ExplorerState, id: Seq<u8>)
    requires
        s.consistent(),
        s.contracts.contains_key(id),
    ensures
        meta_is_valid(s.contracts[id]),
        s.versions.contains_key((id, s.contracts[id].abi_version)),
        s.versions[(id, s.contracts[id].abi_version)] == s.contracts[id],
{
}

/// Nominating a new admin does not change who is in control.
pub proof fn law_nomination_keeps_admin(
    s: ExplorerState,
    caller: Address,
    nominee: Address,
    who: Seq<char>,
)
    requires
        s.admin_check(caller@) is None,
    ensures
        s.after_transfer_admin(caller, nominee).admin == s.admin,
        s.after_transfer_admin(caller, nominee).is_admin(who) == s.is_admin(who),
{
}

/// A nominee other than the admin gets no admin rights from the
/// nomination: until it accepts, every admin-only operation refuses it.
pub proof fn law_nominee_waits(s: ExplorerState, caller: Address, nominee: Address, new_max: u32)
    requires
        s.admin_check(caller@) is None,
        nominee@ != caller@,
    ensures
        ({
            let t = s.after_transfer_admin(caller, nominee);
            &&& t.admin_check(nominee@) == Some(Error::Unauthorized)
            &&& t.cancel_check(nominee@) == Some(Error::Unauthorized)
            &&& t.resize_check(nominee@, new_max) == Some(Error::Unauthorized)
        }),
{
}

/// Two-step handover: once the admin nominates `nominee`, the nominee can
/// accept, after which the nominee is the admin, nobody is pending, and the
/// former admin (if another address) has lost control.
pub proof fn law_handover(s: ExplorerState, admin: Address, nominee: Address)
    requires
        s.admin_check(admin@) is None,
    ensures
        ({
            let nominated = s.after_transfer_admin(admin, nominee);
            let accepted = nominated.after_accept_admin(nominee);
            &&& nominated.accept_check(nominee@) is None
            &&& accepted.is_admin(nominee@)
            &&& accepted.pending_admin is None
            &&& admin@ != nominee@ ==> !accepted.is_admin(admin@)
        }),
{
}

/// Only the nominee can accept a nomination.
pub proof fn law_only_nominee_accepts(s: ExplorerState, admin: Address, nominee: Address, other: Seq<char>)
    requires
        s.admin_check(admin@) is None,
        other != nominee@,
    ensures
        s.after_transfer_admin(admin, nominee).accept_check(other) == Some(Error::Unauthorized),
{
}

/// A cancelled nomination can no longer be accepted, and the admin stays.
pub proof fn law_cancel_blocks_accept(s: ExplorerState, admin: Address, nominee: Address)
    requires
        s.admin_check(admin@) is None,
    ensures
        ({
            let nominated = s.after_transfer_admin(admin, nominee);
            let cancelled = nominated.after_cancel_admin_transfer(admin);
            &&& nominated.cancel_check(admin@) is None
            &&& cancelled.accept_check(nominee@) == Some(Error::NotFound)
            &&& cancelled.admin == s.admin
        }),
{
}

/// While paused, every registry write, every event submission (with a
/// function name) and every upgrade is refused with `ContractPaused`.
pub proof fn law_pause_blocks_writes(
    s: ExplorerState,
    caller: Address,
    contract_id: Seq<u8>,
    meta: ContractMetaView,
    input: EventInputView,
)
    requires
        s.paused,
        input.function.len() > 0,
    ensures
        s.register_check(caller@, contract_id, meta) == Some(Error::ContractPaused),
        s.update_check(caller@, contract_id, meta) == Some(Error::ContractPaused),
        s.deregister_check(caller@, contract_id) == Some(Error::ContractPaused),
        s.submit_check(caller@, input) == Some(Error::ContractPaused),
        s.upgrade_check(caller@) == Some(Error::ContractPaused),
{
}

/// Pausing then unpausing restores the pause flag and publishes `paused`
/// then `unpaused`; nothing else changes.
pub proof fn law_pause_unpause(s: ExplorerState)
    ensures
        s.after_pause().paused,
        !s.after_pause().after_unpause().paused,
        s.after_pause().after_unpause().contracts == s.contracts,
        s.after_pause().after_unpause().slots == s.slots,
        s.after_pause().after_unpause().admin == s.admin,
{
}

/// A caller other than the admin cannot perform any admin-only operation
/// (the pause check, where there is one, comes first).
pub proof fn law_only_admin(
    s: ExplorerState,
    caller: Seq<char>,
    contract_id: Seq<u8>,
    meta: ContractMetaView,
    input: EventInputView,
    new_max: u32,
)
    requires
        !s.is_admin(caller),
        !s.paused,
        input.function.len() > 0,
    ensures
        s.admin_check(caller) == Some(Error::Unauthorized),
        s.cancel_check(caller) == Some(Error::Unauthorized),
        s.resize_check(caller, new_max) == Some(Error::Unauthorized),
        s.upgrade_check(caller) == Some(Error::Unauthorized),
        s.register_check(caller, contract_id, meta) == Some(Error::Unauthorized),
        s.submit_check(caller, input) == Some(Error::Unauthorized),
{
}

// ── Event ring buffer ────────────────────────────────────────────────────

/// Submitting an event and reading back its sequence number gives the
/// submitted event.  Every other event keeps what it read before, except
/// the oldest retained one, which a full ring evicts; the count of retained
/// events grows by one unless the ring was full.
pub proof fn law_submit_then_read(s: ExplorerState, caller: Seq<char>, input: EventInput, q: int)
    requires
        s.consistent(),
        s.submit_check(caller, input@) is None,
        s.event_seq < u64::MAX,
    ensures
        s.after_submit(input).live(s.event_seq as int) == Some(input@.stored_as(s.event_seq)),
        q != s.event_seq ==> s.after_submit(input).live(q) == if s.ring_full() && q
            == s.retained_from {
            None
        } else {
            s.live(q)
        },
        s.after_submit(input).event_count() == if s.ring_full() {
            s.event_count()
        } else {
            (s.event_count() + 1) as u64
        },
{
    let t = s.after_submit(input);
    lemma_submit_consistent(s, input);
    lemma_retained_window(s, q);
    lemma_retained_window(t, q);
    if q != s.event_seq && t.live(q) is Some {
        let k = t.slot_of(q);
        assert(t.slots.contains_key(k));
        if k != s.slot_of(s.event_seq as int) {
            assert(s.slots.contains_key(k));
        }
    }
}

/// No silent corruption: whatever the ring hands out under a sequence
/// number is exactly the event that was submitted with that number.
pub proof fn law_no_silent_corruption(s: ExplorerState, q: int)
    requires
        s.consistent(),
    ensures
        s.live(q) matches Some(e) ==> e.seq == q && q < s.event_seq && e == s.submitted[q],
{
    if s.live(q) is Some {
        assert(s.slots.contains_key(s.slot_of(q)));
    }
}

/// The ring retains exactly the events numbered from `retained_from` up to
/// `event_seq`, never more than it has slots.
pub proof fn law_retained_window(s: ExplorerState, q: int)
    requires
        s.consistent(),
    ensures
        (s.live(q) is Some) == (s.retained_from <= q < s.event_seq),
        s.event_count() <= s.max_events,
{
    lemma_retained_window(s, q);
}

/// Bounded storage: every stored ring slot lies in `[0, max_events)`, and
/// only stored slots carry a lifetime.
pub proof fn law_storage_bounded(s: ExplorerState, k: u64)
    requires
        s.consistent(),
    ensures
        s.slots.contains_key(k) ==> k < s.max_events,
        s.slot_live_until.contains_key(k) == s.slots.contains_key(k),
{
}

/// The retained events between two sequence numbers when all of them are readable.
proof fn lemma_live_between_all(s: ExplorerState, a: int, b: int)
    requires
        0 <= a <= b,
        forall|q: int| a <= q < b ==> #[trigger] s.live(q) is Some,
    ensures
        s.live_between(a, b).len() == b - a,
    decreases b - a,
{
    if b > a {
        lemma_live_between_all(s, a, b - 1);
        assert(s.live(b - 1) is Some);
    }
}

/// No event between two sequence numbers is readable: nothing is retained there.
proof fn lemma_live_between_none(s: ExplorerState, a: int, b: int)
    requires
        forall|q: int| a <= q < b ==> #[trigger] s.live(q) is None,
    ensures
        s.live_between(a, b) == Seq::<DecodedEventView>::empty(),
    decreases b - a,
{
    if b > a {
        lemma_live_between_none(s, a, b - 1);
        assert(s.live(b - 1) is None);
    }
}

/// `event_count` is the number of events the ring can hand out.
pub proof fn law_event_count_is_retained(s: ExplorerState)
    requires
        s.consistent(),
    ensures
        s.live_between(0, s.event_seq as int).len() == s.event_count(),
{
    let rf = s.retained_from as int;
    let total = s.event_seq as int;
    assert forall|q: int| 0 <= q < rf implies #[trigger] s.live(q) is None by {
        lemma_retained_window(s, q);
    }
    assert forall|q: int| rf <= q < total implies #[trigger] s.live(q) is Some by {
        lemma_retained_window(s, q);
    }
    lemma_live_between_split(s, 0, rf, total);
    lemma_live_between_none(s, 0, rf);
    lemma_live_between_all(s, rf, total);
}

/// Resizing keeps exactly the retained events numbered from
/// `resize_start(new_max)` on, each readable under its sequence number as
/// before: the retained events, at most the `new_max` most recent of them.
/// Growing the ring keeps every retained event, the count, and every page
/// `get_events` returns.
pub proof fn law_resize_keeps_recent(s: ExplorerState, caller: Seq<char>, new_max: u32, q: int)
    requires
        s.consistent(),
        s.resize_check(caller, new_max) is None,
    ensures
        s.after_set_max_events(new_max).live(q) == if s.resize_start(new_max) <= q {
            s.live(q)
        } else {
            None
        },
        s.after_set_max_events(new_max).event_count() == if s.event_count() <= new_max {
            s.event_count()
        } else {
            new_max as u64
        },
        new_max >= s.max_events ==> s.after_set_max_events(new_max).live(q) == s.live(q),
        forall|cursor: u64, limit: u32|
            new_max >= s.max_events && limit > 0 ==> #[trigger] s.after_set_max_events(
                new_max,
            ).events_page(cursor, limit) == s.events_page(cursor, limit),
{
    let t = s.after_set_max_events(new_max);
    lemma_resize_consistent(s, new_max);
    assert(t.live(q) == if s.resize_start(new_max) <= q {
        s.live(q)
    } else {
        None
    });
    if new_max >= s.max_events {
        assert(s.resize_start(new_max) == s.retained_from);
        lemma_retained_window(s, q);
        assert forall|p: int| #[trigger] t.live(p) == s.live(p) by {
            assert(t.live(p) == if s.resize_start(new_max) <= p {
                s.live(p)
            } else {
                None
            });
            lemma_retained_window(s, p);
        }
        assert forall|cursor: u64, limit: u32| limit > 0 implies #[trigger] t.events_page(
            cursor,
            limit,
        ) == s.events_page(cursor, limit) by {
            let n = if limit <= MAX_PAGE_SIZE {
                limit as nat
            } else {
                MAX_PAGE_SIZE as nat
            };
            let a = if cursor >= t.oldest() {
                cursor as int
            } else {
                t.oldest() as int
            };
            let b = if cursor >= s.oldest() {
                cursor as int
            } else {
                s.oldest() as int
            };
            assert forall|p: int| a <= p < b implies #[trigger] s.live(p) is None by {
                lemma_retained_window(s, p);
            }
            lemma_page_skip(s, a, b, n);
            lemma_page_same(s, t, a, n);
        }
    }
}

/// A page starting before a run of unretained numbers equals the page
/// starting after it.
proof fn lemma_page_skip(s: ExplorerState, a: int, b: int, n: nat)
    requires
        a <= b,
        forall|p: int| a <= p < b ==> #[trigger] s.live(p) is None,
    ensures
        s.page(a, n) == s.page(b, n),
    decreases b - a,
{
    if a < b && n > 0 && a < s.event_seq {
        assert(s.live(a) is None);
        lemma_page_skip(s, a + 1, b, n);
    }
}

/// Two states that number the same events and retain the same events give
/// the same pages.
proof fn lemma_page_same(s: ExplorerState, t: ExplorerState, q: int, n: nat)
    requires
        t.event_seq == s.event_seq,
        forall|p: int| #[trigger] t.live(p) == s.live(p),
    ensures
        t.page(q, n) == s.page(q, n),
    decreases s.event_seq - q,
{
    if n > 0 && q < s.event_seq {
        assert(t.live(q) == s.live(q));
        match s.live(q) {
            Some(e) => lemma_page_same(s, t, q + 1, (n - 1) as nat),
            None => lemma_page_same(s, t, q + 1, n),
        }
    }
}

// ── Paging ───────────────────────────────────────────────────────────────

/// The retained event at `q` (if any) as a sequence of at most one element.
pub open spec fn retained_at(s: ExplorerState, q: int) -> Seq<DecodedEventView> {
    match s.live(q) {
        Some(e) => seq![e],
        None => Seq::empty(),
    }
}

/// The first `n` elements of `evs` (all of them when there are fewer).
pub open spec fn first_n(evs: Seq<DecodedEventView>, n: nat) -> Seq<DecodedEventView> {
    if n < evs.len() {
        evs.take(n as int)
    } else {
        evs
    }
}

/// The retained events of `[a, b)` are those at `a` followed by those of `[a + 1, b)`.
proof fn lemma_live_between_front(s: ExplorerState, a: int, b: int)
    requires
        a < b,
    ensures
        s.live_between(a, b) == retained_at(s, a) + s.live_between(a + 1, b),
    decreases b - a,
{
    if b == a + 1 {
        assert(s.live_between(a, a) =~= Seq::<DecodedEventView>::empty());
        assert(s.live_between(a + 1, b) =~= Seq::<DecodedEventView>::empty());
        assert(s.live_between(a, b) =~= retained_at(s, a) + s.live_between(a + 1, b));
    } else {
        lemma_live_between_front(s, a, b - 1);
        assert(s.live_between(a, b) =~= retained_at(s, a) + s.live_between(a + 1, b));
    }
}

/// The retained events of `[a, b)` split at any `c` in between.
proof fn lemma_live_between_split(s: ExplorerState, a: int, c: int, b: int)
    requires
        a <= c <= b,
    ensures
        s.live_between(a, b) == s.live_between(a, c) + s.live_between(c, b),
    decreases b - c,
{
    if b == c {
        assert(s.live_between(a, b) =~= s.live_between(a, c) + Seq::<DecodedEventView>::empty());
    } else {
        lemma_live_between_split(s, a, c, b - 1);
        assert(s.live_between(a, b) =~= s.live_between(a, c) + s.live_between(c, b));
    }
}

/// A page is the first `n` retained events from `q` on.
proof fn lemma_page_is_prefix(s: ExplorerState, q: int, n: nat)
    ensures
        s.page(q, n) == first_n(s.live_between(q, s.event_seq as int), n),
    decreases s.event_seq - q,
{
    let total = s.event_seq as int;
    if q >= total {
        assert(s.live_between(q, total) =~= Seq::<DecodedEventView>::empty());
    } else if n == 0 {
        assert(first_n(s.live_between(q, total), n) =~= Seq::<DecodedEventView>::empty());
    } else {
        lemma_live_between_front(s, q, total);
        let rest = s.live_between(q + 1, total);
        match s.live(q) {
            Some(e) => {
                lemma_page_is_prefix(s, q + 1, (n - 1) as nat);
                assert(first_n(seq![e] + rest, n) =~= seq![e] + first_n(rest, (n - 1) as nat));
            },
            None => {
                lemma_page_is_prefix(s, q + 1, n);
                assert(retained_at(s, q) + rest =~= rest);
            },
        }
    }
}

/// Paging: `page(q, n)` holds at most `n` retained events, each readable
/// under its sequence number, none before `q`, in strictly increasing
/// order.  A short page holds every retained event from `q` on; a full page
/// is followed, in the retained history, by exactly the retained events from
/// one past its last sequence number on.  So resuming at `last.seq + 1`
/// returns every retained event exactly once.
pub proof fn law_paging(s: ExplorerState, q: int, n: nat)
    requires
        0 <= q,
    ensures
        ({
            let p = s.page(q, n);
            let rest = s.live_between(q, s.event_seq as int);
            &&& p.len() <= n
            &&& forall|j: int|
                0 <= j < p.len() ==> q <= (#[trigger] p[j]).seq < s.event_seq && s.live(
                    p[j].seq as int,
                ) == Some(p[j])
            &&& forall|i: int, j: int|
                0 <= i < j < p.len() ==> (#[trigger] p[i]).seq < (#[trigger] p[j]).seq
            &&& p.len() < n ==> p == rest
            &&& p.len() == n && n > 0 ==> rest == p + s.live_between(
                p.last().seq + 1,
                s.event_seq as int,
            )
        }),
{
    let total = s.event_seq as int;
    let p = s.page(q, n);
    let rest = s.live_between(q, total);
    lemma_page_is_prefix(s, q, n);
    lemma_live_between_props(s, q, total);
    assert forall|j: int| 0 <= j < p.len() implies q <= (#[trigger] p[j]).seq < s.event_seq
        && s.live(p[j].seq as int) == Some(p[j]) by {
        assert(p[j] == rest[j]);
    }
    assert forall|i: int, j: int| 0 <= i < j < p.len() implies (#[trigger] p[i]).seq < (
    #[trigger] p[j]).seq by {
        assert(p[i] == rest[i]);
        assert(p[j] == rest[j]);
    }
    if p.len() == n && n > 0 {
        let c = p.last().seq + 1;
        assert(p.last() == rest[n - 1]);
        lemma_live_between_split(s, q, c, total);
        let a = s.live_between(q, c);
        let b = s.live_between(c, total);
        lemma_live_between_props(s, q, c);
        lemma_live_between_props(s, c, total);
        if a.len() < n {
            assert(rest[n - 1] == b[n - 1 - a.len()]);
        }
        if a.len() > n {
            assert(rest[n as int] == a[n as int]);
            assert(rest[n - 1].seq < rest[n as int].seq);
        }
        assert(a.len() == n);
        assert(a =~= p);
    }
}

// ── Entry lifetimes ──────────────────────────────────────────────────────

/// Extending a persistent entry: a new entry gets exactly `extend_to`
/// ledgers to live; a live one with less than `threshold` left is extended
/// back out to exactly `extend_to`; a live one with enough keeps its
/// lifetime; a lapsed (archived) one is not revived.
pub proof fn law_extension(current: Option<u32>, ledger: u32, threshold: u32, extend_to: u32)
    requires
        threshold <= extend_to,
        ledger + extend_to <= u32::MAX,
    ensures
        current is None ==> remaining(extended(current, ledger, threshold, extend_to), ledger)
            == extend_to,
        (current matches Some(lu) && lu >= ledger && lu - ledger < threshold) ==> remaining(
            extended(current, ledger, threshold, extend_to),
            ledger,
        ) == extend_to,
        (current matches Some(lu) && (lu < ledger || lu - ledger >= threshold)) ==> extended(
            current,
            ledger,
            threshold,
            extend_to,
        ) == current->0,
        !(current matches Some(lu) && lu < ledger) ==> remaining(
            extended(current, ledger, threshold, extend_to),
            ledger,
        ) >= threshold,
{
}

/// Every state-changing entry point leaves the instance storage (admin,
/// pause flag, capacity, sequence counter) with at least the instance
/// threshold to live.
pub proof fn law_writes_keep_instance_live(
    s: ExplorerState,
    caller: Address,
    other: Address,
    contract_id: Bytes32,
    meta: ContractMeta,
    input: EventInput,
    new_max: u32,
    max_events: u32,
    new_wasm_hash: Bytes32,
)
    requires
        s.consistent(),
    ensures
        s.after_init(other, max_events).ttl_of(DataKey::Admin)->0 >= INSTANCE_LIFETIME_THRESHOLD,
        s.after_transfer_admin(caller, other).ttl_of(DataKey::Admin)->0
            >= INSTANCE_LIFETIME_THRESHOLD,
        s.after_accept_admin(caller).ttl_of(DataKey::Admin)->0 >= INSTANCE_LIFETIME_THRESHOLD,
        s.after_cancel_admin_transfer(caller).ttl_of(DataKey::Admin)->0
            >= INSTANCE_LIFETIME_THRESHOLD,
        s.after_set_max_events(new_max).ttl_of(DataKey::MaxEvents)->0
            >= INSTANCE_LIFETIME_THRESHOLD,
        s.after_pause().ttl_of(DataKey::Paused)->0 >= INSTANCE_LIFETIME_THRESHOLD,
        s.after_unpause().ttl_of(DataKey::Paused)->0 >= INSTANCE_LIFETIME_THRESHOLD,
        s.after_upgrade(new_wasm_hash).ttl_of(DataKey::Admin)->0 >= INSTANCE_LIFETIME_THRESHOLD,
        s.after_register(contract_id, meta).ttl_of(DataKey::Admin)->0
            >= INSTANCE_LIFETIME_THRESHOLD,
        s.after_update(caller, contract_id, meta@).ttl_of(DataKey::Admin)->0
            >= INSTANCE_LIFETIME_THRESHOLD,
        s.after_deregister(caller, contract_id).ttl_of(DataKey::Admin)->0
            >= INSTANCE_LIFETIME_THRESHOLD,
        s.after_submit(input).ttl_of(DataKey::EventSeq)->0 >= INSTANCE_LIFETIME_THRESHOLD,
{
}

/// A registration gives the new entry exactly the registry horizon, and
/// leaves version 0 of its history, unless that entry was archived, with at
/// least the registry threshold to live.
pub proof fn law_register_extends_entry(
    s: ExplorerState,
    caller: Seq<char>,
    contract_id: Bytes32,
    meta: ContractMeta,
)
    requires
        s.consistent(),
        s.register_check(caller, contract_id@, meta@) is None,
    ensures
        s.after_register(contract_id, meta).ttl_of(DataKey::Contract(contract_id)) == Some(
            REGISTRY_BUMP_AMOUNT,
        ),
        !(lifetime_of(s.version_live_until, (contract_id@, 0u32)) matches Some(lu) && lu
            < s.ledger) ==> s.after_register(contract_id, meta).ttl_of(
            DataKey::ContractVersion(VersionKey { contract_id, abi_version: 0 }),
        )->0 >= REGISTRY_LIFETIME_THRESHOLD,
{
    law_extension(
        lifetime_of(s.version_live_until, (contract_id@, 0u32)),
        s.ledger,
        REGISTRY_LIFETIME_THRESHOLD,
        REGISTRY_BUMP_AMOUNT,
    );
}

/// Reading a live registry entry leaves it with at least the registry
/// threshold to live.
pub proof fn law_read_extends_entry(s: ExplorerState, contract_id: Bytes32)
    requires
        s.consistent(),
        s.contracts.contains_key(contract_id@),
        s.contract_live_until[contract_id@] >= s.ledger,
    ensures
        s.bump_contract(contract_id@).ttl_of(DataKey::Contract(contract_id))->0
            >= REGISTRY_LIFETIME_THRESHOLD,
{
    law_extension(
        Some(s.contract_live_until[contract_id@]),
        s.ledger,
        REGISTRY_LIFETIME_THRESHOLD,
        REGISTRY_BUMP_AMOUNT,
    );
}

/// Submitting an event leaves its slot, unless that slot was archived, with
/// at least the event threshold to live.
pub proof fn law_submit_extends_slot(s: ExplorerState, input: EventInput)
    requires
        s.consistent(),
        !(lifetime_of(s.slot_live_until, s.slot_of(s.event_seq as int)) matches Some(lu) && lu
            < s.ledger),
    ensures
        s.after_submit(input).ttl_of(DataKey::EventLog(s.slot_of(s.event_seq as int)))->0
            >= EVENT_LIFETIME_THRESHOLD,
{
    law_extension(
        lifetime_of(s.slot_live_until, s.slot_of(s.event_seq as int)),
        s.ledger,
        EVENT_LIFETIME_THRESHOLD,
        EVENT_BUMP_AMOUNT,
    );
}

/// Resizing rewrites every retained event into a fresh slot with exactly
/// the event horizon to live.
pub proof fn law_resize_refreshes_slots(s: ExplorerState, caller: Seq<char>, new_max: u32, k: u64)
    requires
        s.consistent(),
        s.resize_check(caller, new_max) is None,
        s.after_set_max_events(new_max).slots.contains_key(k),
    ensures
        s.after_set_max_events(new_max).ttl_of(DataKey::EventLog(k)) == Some(EVENT_BUMP_AMOUNT),
{
    lemma_resize_consistent(s, new_max);
    let kept = s.live_between(s.resize_start(new_max) as int, s.event_seq as int);
    lemma_rebumped_fresh(kept, new_max, s.ledger, k);
}

/// Re-extending fresh lifetimes for written slots gives each exactly the event horizon.
proof fn lemma_rebumped_fresh(evs: Seq<DecodedEventView>, m: u32, ledger: u32, k: u64)
    requires
        ledger + EVENT_BUMP_AMOUNT <= u32::MAX,
        rebumped(Map::empty(), evs, m, ledger).contains_key(k),
    ensures
        rebumped(Map::empty(), evs, m, ledger)[k] == ledger + EVENT_BUMP_AMOUNT,
    decreases evs.len(),
{
    if evs.len() > 0 {
        let prev = rebumped(Map::empty(), evs.drop_last(), m, ledger);
        if prev.contains_key(k) {
            lemma_rebumped_fresh(evs.drop_last(), m, ledger, k);
        }
        let k0 = ring_slot(evs.last().seq as int, m);
        if k0 != k {
            assert(prev.contains_key(k));
        } else if prev.contains_key(k0) {
            lemma_rebumped_fresh(evs.drop_last(), m, ledger, k0);
        }
    }
}

/// `get_events(cursor, limit)` returns at most `min(limit, MAX_PAGE_SIZE)`
/// retained events, none numbered before `cursor` or before the oldest
/// number a full ring can hold, in strictly increasing order.
pub proof fn law_events_page(s: ExplorerState, cursor: u64, limit: u32)
    requires
        limit > 0,
    ensures
        s.events_page(cursor, limit).len() <= limit,
        s.events_page(cursor, limit).len() <= MAX_PAGE_SIZE,
        forall|j: int|
            0 <= j < s.events_page(cursor, limit).len() ==> {
                &&& cursor <= (#[trigger] s.events_page(cursor, limit)[j]).seq
                &&& s.oldest() <= s.events_page(cursor, limit)[j].seq
                &&& s.live(s.events_page(cursor, limit)[j].seq as int) == Some(
                    s.events_page(cursor, limit)[j],
                )
            },
        forall|i: int, j: int|
            0 <= i < j < s.events_page(cursor, limit).len() ==> (#[trigger] s.events_page(
                cursor,
                limit,
            )[i]).seq < (#[trigger] s.events_page(cursor, limit)[j]).seq,
{
    let start = if cursor >= s.oldest() {
        cursor as int
    } else {
        s.oldest() as int
    };
    let n = if limit <= MAX_PAGE_SIZE {
        limit as nat
    } else {
        MAX_PAGE_SIZE as nat
    };
    law_paging(s, start, n);
}


// ── What is accepted ─────────────────────────────────────────────────────

/// The field constraints the interface documents for a function
/// description: a non-empty name, a description of at most 1024 UTF-8
/// bytes, and at most 32 parameters, each with a non-empty name and kind.
/// Nothing asks for a parameter: a function may take none.
pub open spec fn documented_function(f: FunctionAbiView) -> bool {
    &&& f.name.len() > 0
    &&& utf8_len(f.description) <= MAX_DESCRIPTION_LEN
    &&& f.params.len() <= MAX_PARAMS
    &&& forall|k: int|
        0 <= k < f.params.len() ==> (#[trigger] f.params[k]).name.len() > 0 && f.params[k].kind.len()
            > 0
}

/// The field constraints the interface documents for contract metadata: a
/// name of 1 to 64 UTF-8 bytes, a description of at most 1024 bytes, and at
/// most 64 functions, each meeting [`documented_function`].  Nothing asks
/// for a function.
pub open spec fn documented_meta(m: ContractMetaView) -> bool {
    &&& m.name.len() > 0
    &&& utf8_len(m.name) <= MAX_NAME_LEN
    &&& utf8_len(m.description) <= MAX_DESCRIPTION_LEN
    &&& m.functions.len() <= MAX_FUNCTIONS
    &&& forall|j: int| 0 <= j < m.functions.len() ==> documented_function(#[trigger] m.functions[j])
}

/// Every function description meeting the documented constraints is
/// valid, in particular one with no parameters.
pub proof fn law_documented_function_is_valid(f: FunctionAbiView)
    requires
        documented_function(f),
    ensures
        function_is_valid(f),
{
}

/// The admin's registration of a new id, while not paused, goes through
/// for every metadata meeting the documented constraints (whatever its
/// functions' parameter lists), and stores that metadata.
pub proof fn law_register_accepts_documented_meta(
    s: ExplorerState,
    caller: Seq<char>,
    contract_id: Bytes32,
    meta: ContractMeta,
)
    requires
        !s.paused,
        s.is_admin(caller),
        !s.contracts.contains_key(contract_id@),
        documented_meta(meta@),
    ensures
        s.register_check(caller, contract_id@, meta@) is None,
        s.after_register(contract_id, meta).contracts.contains_key(contract_id@),
        s.after_register(contract_id, meta).contracts[contract_id@].functions == meta@.functions,
        s.after_register(contract_id, meta).contracts[contract_id@].name == meta@.name,
        s.after_register(contract_id, meta).contracts[contract_id@].abi_version == 0,
{
    assert forall|j: int| 0 <= j < meta@.functions.len() implies function_is_valid(
        #[trigger] meta@.functions[j],
    ) by {
        law_documented_function_is_valid(meta@.functions[j]);
    }
}

/// An update naming the next ABI version, by the admin or the registrant
/// while not paused, goes through for every metadata meeting the documented
/// constraints.
pub proof fn law_update_accepts_documented_meta(
    s: ExplorerState,
    caller: Seq<char>,
    contract_id: Seq<u8>,
    meta: ContractMetaView,
)
    requires
        !s.paused,
        s.contracts.contains_key(contract_id),
        s.may_edit(caller, contract_id),
        meta.abi_version == s.contracts[contract_id].abi_version + 1,
        documented_meta(meta),
    ensures
        s.update_check(caller, contract_id, meta) is None,
{
    assert forall|j: int| 0 <= j < meta.functions.len() implies function_is_valid(
        #[trigger] meta.functions[j],
    ) by {
        law_documented_function_is_valid(meta.functions[j]);
    }
}

/// The admin's submission with a function name, while not paused, is
/// accepted whatever its description, raw topics and raw data, and is
/// stored under the next sequence number exactly as given.
pub proof fn law_submission_accepted(s: ExplorerState, caller: Seq<char>, input: EventInput)
    requires
        s.consistent(),
        input@.function.len() > 0,
        !s.paused,
        s.is_admin(caller),
        s.event_seq < u64::MAX,
    ensures
        s.submit_check(caller, input@) is None,
        s.after_submit(input).event_seq == s.event_seq + 1,
        s.after_submit(input).live(s.event_seq as int) matches Some(e) && e.seq == s.event_seq
            && e.contract_id == input@.contract_id && e.function == input@.function && e.ledger
            == input@.ledger && e.description == input@.description && e.raw_topics
            == input@.raw_topics && e.raw_data == input@.raw_data,
{
    law_submit_then_read(s, caller, input, s.event_seq as int);
}

/// The admin may resize the ring to any capacity from [`MIN_MAX_EVENTS`]
/// up, however large, and the ring then has exactly that capacity; below
/// the floor the admin is refused with `BelowFloor`.
pub proof fn law_resize_accepted(s: ExplorerState, caller: Seq<char>, new_max: u32)
    requires
        s.is_admin(caller),
    ensures
        new_max >= MIN_MAX_EVENTS ==> s.resize_check(caller, new_max) is None
            && s.after_set_max_events(new_max).max_events == new_max,
        new_max < MIN_MAX_EVENTS ==> s.resize_check(caller, new_max) == Some(Error::BelowFloor),
{
}

/// A page is exactly the first `min(limit, MAX_PAGE_SIZE)` retained events
/// numbered from `cursor` on: it is full whenever that many are retained,
/// and otherwise holds all of them.
pub proof fn law_page_is_first_retained(s: ExplorerState, cursor: u64, limit: u32)
    requires
        s.consistent(),
        limit > 0,
    ensures
        ({
            let n: nat = if MAX_PAGE_SIZE < limit {
                MAX_PAGE_SIZE as nat
            } else {
                limit as nat
            };
            let after = s.live_between(cursor as int, s.event_seq as int);
            &&& s.events_page(cursor, limit) == first_n(after, n)
            &&& s.events_page(cursor, limit).len() == if after.len() < n {
                after.len()
            } else {
                n
            }
        }),
{
    let n: nat = if MAX_PAGE_SIZE < limit {
        MAX_PAGE_SIZE as nat
    } else {
        limit as nat
    };
    let total = s.event_seq as int;
    let start = s.page_start(cursor);
    assert(ExplorerState::page_size(limit) == n);
    lemma_page_is_prefix(s, start, n);
    if (cursor as int) < start {
        assert forall|q: int| cursor <= q < start implies #[trigger] s.live(q) is None by {
            lemma_retained_window(s, q);
        }
        lemma_live_between_none(s, cursor as int, start);
        lemma_live_between_split(s, cursor as int, start, total);
        assert(s.live_between(cursor as int, total) =~= s.live_between(start, total));
    }
}


/// A first `init` makes `admin` the admin and configures a ring of exactly
/// `max_events` slots, or of 50 000 when `max_events` is 0, holding no event.
pub proof fn law_init_configures(s: ExplorerState, admin: Address, max_events: u32)
    requires
        s.consistent(),
        !s.initialized(),
    ensures
        s.init_check() is None,
        s.after_init(admin, max_events).is_admin(admin@),
        s.after_init(admin, max_events).max_events == if max_events == 0 {
            50_000u32
        } else {
            max_events
        },
        s.after_init(admin, max_events).event_count() == 0,
        s.after_init(admin, max_events).events_page(0, 1).len() == 0,
{
    let t = s.after_init(admin, max_events);
    assert(t.page(t.page_start(0), ExplorerState::page_size(1)) =~= Seq::<DecodedEventView>::empty());
}

} // verus!

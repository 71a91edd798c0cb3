# octraban

Verified models of the two Octraban Soroban contracts, written in Verus.

* `src/explorer/` — the explorer: an admin-governed registry of contract
  metadata with ABI version history, and a ring buffer of decoded events.
  `types.rs` holds the stored values and their field constraints,
  `state.rs` the abstract state and, for every entry point, the error it is
  refused with and the state it leaves, `contract.rs` the entry points,
  `snapshot.rs` the stored state as plain values, and `laws.rs` the
  properties that span entry points (read after write, two-step admin
  handover, pausing, ring-buffer retention and paging, entry lifetimes).
* `src/ticket/` — the ticketing contract: the abstract state and its
  transitions (`model.rs`), the entry points (`contract.rs`) and its laws
  (`laws.rs`).
* `src/table.rs` — a keyed table of ledger entries; `src/ring.rs` — ring
  slots looked up directly by slot number; `src/common.rs` —
  addresses and byte identifiers.
* `app/` — the Soroban bindings: authentication, ledger storage and event
  publication around the verified entry points.
* `tests/` — scenario tests of both contracts.

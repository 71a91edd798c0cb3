//! Verified models of the Octraban Soroban contracts.
//!
//! * [`explorer`] — the contract-metadata registry (with ABI version history)
//!   and the bounded ring buffer of decoded events.
//! * [`ticket`] — the event-ticketing contract (mint, resale-capped transfer,
//!   entry verification).
//!
//! Each contract is a state type whose methods are the contract's entry
//! points.  The state stands for what the contract keeps in ledger storage,
//! together with the events it has published; every method states exactly
//! how it changes that state and when it is rejected with which error.

pub mod common;
pub mod table;
pub mod ring;

pub mod explorer;
pub mod ticket;

//! The ticket contract: an organiser mints a bounded number of tickets for
//! one event; holders may resell a ticket once, at no more than its resale
//! ceiling; the organiser marks tickets as used at entry.

pub mod model;
pub mod contract;

pub mod laws;

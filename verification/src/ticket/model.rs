//! Values of the ticket contract and its abstract state.

use vstd::prelude::*;
use crate::common::{Address, Bytes32};

verus! {

/// Life cycle of a ticket: `Valid` when minted, `Transferred` after its one
/// resale, `Used` once verified at entry.
#[derive(Clone, Copy, Debug, PartialEq, Eq)]
pub enum TicketStatus {
    Valid,
    Used,
    Transferred,
}

/// One minted ticket.
#[derive(Clone, Debug, PartialEq, Eq)]
pub struct Ticket {
    pub id: u64,
    pub owner: Address,
    pub event_name: String,
    pub status: TicketStatus,
    pub original_price: i128,
    pub max_resale_price: i128,
}

impl Ticket {
    /// An identical copy.
    pub fn duplicate(&self) -> (t: Ticket)
        ensures
            t == *self,
    {
        Ticket {
            id: self.id,
            owner: self.owner.duplicate(),
            event_name: self.event_name.clone(),
            status: self.status,
            original_price: self.original_price,
            max_resale_price: self.max_resale_price,
        }
    }
}

/// Why a ticket entry point refused a call.
#[derive(Copy, Clone, Debug, PartialEq, Eq)]
pub enum Error {
    NotFound,
    NotInitialized,
    AlreadyInitialized,
    NegativePrice,
    PriceOverflow,
    PriceExceedsCeiling,
}

impl Error {
    /// The numeric code under which the error is reported to callers.
    pub open spec fn code_of(self) -> u32 {
        match self {
            Error::NotFound => 1,
            Error::NotInitialized => 2,
            Error::AlreadyInitialized => 3,
            Error::NegativePrice => 4,
            Error::PriceOverflow => 5,
            Error::PriceExceedsCeiling => 6,
        }
    }

    /// The numeric code under which the error is reported to callers.
    pub fn code(&self) -> (c: u32)
        ensures
            c == self.code_of(),
    {
        match self {
            Error::NotFound => 1,
            Error::NotInitialized => 2,
            Error::AlreadyInitialized => 3,
            Error::NegativePrice => 4,
            Error::PriceOverflow => 5,
            Error::PriceExceedsCeiling => 6,
        }
    }
}

/// What the ticket contract publishes to the ledger's event stream.
#[derive(Clone, Debug, PartialEq, Eq)]
pub enum TicketEvent {
    /// `MINTED (recipient) -> ticket_id`.
    Minted { recipient: Address, ticket_id: u64 },
    /// `TRANSFER (from, to) -> ticket_id`.
    Transferred { from: Address, to: Address, ticket_id: u64 },
    /// `VERIFIED () -> ticket_id`.
    Verified { ticket_id: u64 },
    /// `upgrade () -> new_wasm_hash`.
    Upgraded { new_wasm_hash: Bytes32 },
}

/// Everything the ticket contract keeps, seen as mathematical values.
/// Ticket `i` is stored under id `i`, so `tickets.len()` is the next id.
pub struct TicketState {
    pub admin: Option<Address>,
    pub event_name: String,
    pub max_tickets: u64,
    pub price: i128,
    pub max_resale_price: i128,
    pub tickets: Seq<Ticket>,
    pub published: Seq<TicketEvent>,
    pub wasm: Option<Bytes32>,
}

impl TicketState {
    /// `initialize` has been called.
    pub open spec fn initialized(self) -> bool {
        self.admin is Some
    }

    /// `who` is the organiser.
    pub open spec fn is_admin(self, who: Seq<char>) -> bool {
        self.admin matches Some(a) && a@ == who
    }

    /// A ticket with this id has been minted.
    pub open spec fn is_minted(self, ticket_id: u64) -> bool {
        ticket_id < self.tickets.len()
    }

    /// Number of tickets minted so far.
    pub open spec fn sold(self) -> u64 {
        self.tickets.len() as u64
    }

    /// The invariant the contract maintains: before `initialize` nothing is
    /// minted; afterwards at most `max_tickets` tickets exist, ticket `i`
    /// has id `i`, and every ticket carries the event's name and prices.
    pub open spec fn consistent(self) -> bool {
        &&& !self.initialized() ==> self.tickets.len() == 0
        &&& self.tickets.len() <= self.max_tickets
        &&& forall|i: int|
            0 <= i < self.tickets.len() ==> {
                &&& (#[trigger] self.tickets[i]).id == i
                &&& self.tickets[i].event_name@ == self.event_name@
                &&& self.tickets[i].original_price == self.price
                &&& self.tickets[i].max_resale_price == self.max_resale_price
            }
    }

    // ── Decisions and effects of the entry points ───────────────────────

    /// `initialize` runs once, with non-negative prices only.
    pub open spec fn initialize_check(self, price: i128, max_resale_price: i128) -> Option<Error> {
        if self.initialized() {
            Some(Error::AlreadyInitialized)
        } else if price < 0 || max_resale_price < 0 {
            Some(Error::NegativePrice)
        } else {
            None
        }
    }

    pub open spec fn after_initialize(
        self,
        admin: Address,
        event_name: String,
        max_tickets: u64,
        price: i128,
        max_resale_price: i128,
    ) -> TicketState {
        TicketState { admin: Some(admin), event_name, max_tickets, price, max_resale_price, ..self }
    }

    /// The ticket `mint_ticket` creates for `recipient`.
    pub open spec fn minted_ticket(self, recipient: Address) -> Ticket {
        Ticket {
            id: self.sold(),
            owner: recipient,
            event_name: self.event_name,
            status: TicketStatus::Valid,
            original_price: self.price,
            max_resale_price: self.max_resale_price,
        }
    }

    pub open spec fn after_mint(self, recipient: Address) -> TicketState {
        TicketState {
            tickets: self.tickets.push(self.minted_ticket(recipient)),
            published: self.published.push(
                TicketEvent::Minted { recipient, ticket_id: self.sold() },
            ),
            ..self
        }
    }

    /// A transfer needs a non-negative price, an existing ticket, and a
    /// price within the ticket's resale ceiling.
    pub open spec fn transfer_check(self, ticket_id: u64, sale_price: i128) -> Option<Error> {
        if sale_price < 0 {
            Some(Error::NegativePrice)
        } else if !self.is_minted(ticket_id) {
            Some(Error::NotFound)
        } else if sale_price > self.tickets[ticket_id as int].max_resale_price {
            Some(Error::PriceExceedsCeiling)
        } else {
            None
        }
    }

    /// The checks a transfer passes before the owner and status of the
    /// ticket are examined.
    pub open spec fn transfer_reaches_ticket(self, ticket_id: u64, sale_price: i128) -> bool {
        sale_price >= 0 && self.is_minted(ticket_id)
    }

    pub open spec fn after_transfer(self, from: Address, to: Address, ticket_id: u64) -> TicketState {
        let t = self.tickets[ticket_id as int];
        TicketState {
            tickets: self.tickets.update(
                ticket_id as int,
                Ticket { owner: to, status: TicketStatus::Transferred, ..t },
            ),
            published: self.published.push(TicketEvent::Transferred { from, to, ticket_id }),
            ..self
        }
    }

    /// A ticket that is `Valid` or `Transferred` can still be used at entry.
    pub open spec fn admissible(self, ticket_id: u64) -> bool {
        self.tickets[ticket_id as int].status != TicketStatus::Used
    }

    pub open spec fn after_verify(self, ticket_id: u64) -> TicketState {
        let t = self.tickets[ticket_id as int];
        TicketState {
            tickets: self.tickets.update(
                ticket_id as int,
                Ticket { status: TicketStatus::Used, ..t },
            ),
            published: self.published.push(TicketEvent::Verified { ticket_id }),
            ..self
        }
    }

    pub open spec fn after_upgrade(self, new_wasm_hash: Bytes32) -> TicketState {
        TicketState {
            wasm: Some(new_wasm_hash),
            published: self.published.push(TicketEvent::Upgraded { new_wasm_hash }),
            ..self
        }
    }
}

/// Everything the ticket contract stores, as plain values (published
/// events are not stored).
#[derive(Clone, Debug)]
pub struct TicketSnapshot {
    pub admin: Option<Address>,
    pub event_name: String,
    pub max_tickets: u64,
    pub price: i128,
    pub max_resale_price: i128,
    pub tickets: Vec<Ticket>,
    pub wasm: Option<Bytes32>,
}

impl TicketSnapshot {
    /// The ticket state the snapshot describes, with nothing published.
    pub open spec fn state(self) -> TicketState {
        TicketState {
            admin: self.admin,
            event_name: self.event_name,
            max_tickets: self.max_tickets,
            price: self.price,
            max_resale_price: self.max_resale_price,
            tickets: self.tickets@,
            published: Seq::empty(),
            wasm: self.wasm,
        }
    }
}

} // verus!

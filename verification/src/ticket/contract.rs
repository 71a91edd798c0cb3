//! The ticket contract's entry points.

use vstd::prelude::*;
use crate::common::{Address, Bytes32};
use super::model::{Error, Ticket, TicketEvent, TicketSnapshot, TicketState, TicketStatus};

verus! {

/// The ticket contract together with the ledger state it owns.
///
/// A freshly deployed contract ([`TicketContract::new`]) is uninitialised;
/// `initialize` configures the event.  The address passed as the acting
/// party of an entry point (`admin`, `organizer`, `from`, `verifier`,
/// `caller`) is the one that authorised the call.
pub struct TicketContract {
    admin: Option<Address>,
    event_name: String,
    max_tickets: u64,
    price: i128,
    max_resale_price: i128,
    tickets: Vec<Ticket>,
    published: Vec<TicketEvent>,
    wasm: Option<Bytes32>,
}

impl View for TicketContract {
    type V = TicketState;

    closed spec fn view(&self) -> TicketState {
        TicketState {
            admin: self.admin,
            event_name: self.event_name,
            max_tickets: self.max_tickets,
            price: self.price,
            max_resale_price: self.max_resale_price,
            tickets: self.tickets@,
            published: self.published@,
            wasm: self.wasm,
        }
    }
}

impl TicketContract {
    /// The contract's state is consistent.
    pub closed spec fn wf(&self) -> bool {
        self@.consistent()
    }

    /// A well-formed contract is in a consistent state, so every law stated
    /// over [`TicketState::consistent`] applies to it.
    pub proof fn lemma_wf_consistent(&self)
        requires
            self.wf(),
        ensures
            self@.consistent(),
    {
    }

    /// A freshly deployed, uninitialised ticket contract.
    pub fn new() -> (c: TicketContract)
        ensures
            c.wf(),
            !c@.initialized(),
            c@.tickets == Seq::<Ticket>::empty(),
            c@.published == Seq::<TicketEvent>::empty(),
            c@.wasm is None,
            c@.event_name@ == Seq::<char>::empty(),
            c@.max_tickets == 0,
            c@.price == 0,
            c@.max_resale_price == 0,
    {
        TicketContract {
            admin: None,
            event_name: String::new(),
            max_tickets: 0,
            price: 0,
            max_resale_price: 0,
            tickets: Vec::new(),
            published: Vec::new(),
            wasm: None,
        }
    }

    /// The events published so far, oldest first.
    pub fn published_events(&self) -> (evs: &Vec<TicketEvent>)
        ensures
            evs@ == self@.published,
    {
        &self.published
    }

    /// Initialises the event (once).  Refused with `AlreadyInitialized` on a
    /// second call and with `NegativePrice` when a price is negative.
    pub fn initialize(
        &mut self,
        admin: Address,
        event_name: String,
        max_tickets: u64,
        price: i128,
        max_resale_price: i128,
    ) -> (r: Result<(), Error>)
        requires
            old(self).wf(),
        ensures
            final(self).wf(),
            match old(self)@.initialize_check(price, max_resale_price) {
                Some(e) => r == Err::<(), Error>(e) && final(self)@ == old(self)@,
                None => r == Ok::<(), Error>(()) && final(self)@ == old(self)@.after_initialize(
                    admin,
                    event_name,
                    max_tickets,
                    price,
                    max_resale_price,
                ),
            },
    {
        if self.admin.is_some() {
            return Err(Error::AlreadyInitialized);
        }
        if price < 0 || max_resale_price < 0 {
            return Err(Error::NegativePrice);
        }
        self.admin = Some(admin);
        self.event_name = event_name;
        self.max_tickets = max_tickets;
        self.price = price;
        self.max_resale_price = max_resale_price;
        Ok(())
    }

    /// Whether `initialize` has been called.
    pub fn initialized(&self) -> (b: bool)
        ensures
            b == self@.initialized(),
    {
        self.admin.is_some()
    }

    /// Whether `who` is the organiser.
    pub fn is_organizer(&self, who: &Address) -> (b: bool)
        ensures
            b == self@.is_admin(who@),
    {
        self.check_admin(who)
    }

    /// The number of tickets the event offers.
    pub fn max_tickets(&self) -> (n: u64)
        ensures
            n == self@.max_tickets,
    {
        self.max_tickets
    }

    /// Whether `who` is the organiser.
    fn check_admin(&self, who: &Address) -> (b: bool)
        ensures
            b == self@.is_admin(who@),
    {
        match &self.admin {
            Some(a) => a.same_as(who),
            None => false,
        }
    }

    /// Mints the next ticket to `recipient` (organiser only) and returns its
    /// id.  Refused with `NotInitialized` before `initialize`.  Minting by
    /// anyone but the organiser, or beyond `max_tickets`, aborts the call.
    pub fn mint_ticket(&mut self, organizer: Address, recipient: Address) -> (r: Result<u64, Error>)
        requires
            old(self).wf(),
            old(self)@.initialized() ==> old(self)@.is_admin(organizer@),
            old(self)@.initialized() ==> old(self)@.sold() < old(self)@.max_tickets,
        ensures
            final(self).wf(),
            !old(self)@.initialized() ==> r == Err::<u64, Error>(Error::NotInitialized)
                && final(self)@ == old(self)@,
            old(self)@.initialized() ==> r == Ok::<u64, Error>(old(self)@.sold()) && final(self)@
                == old(self)@.after_mint(recipient),
    {
        if self.admin.is_none() {
            return Err(Error::NotInitialized);
        }
        let next_id = self.tickets.len() as u64;
        let ticket = Ticket {
            id: next_id,
            owner: recipient.duplicate(),
            event_name: self.event_name.clone(),
            status: TicketStatus::Valid,
            original_price: self.price,
            max_resale_price: self.max_resale_price,
        };
        self.tickets.push(ticket);
        self.published.push(TicketEvent::Minted { recipient, ticket_id: next_id });
        Ok(next_id)
    }

    /// Transfers ticket `ticket_id` from `from` to `to` for `sale_price`.
    /// Refused with `NegativePrice`, `NotFound`, or `PriceExceedsCeiling`
    /// when the price is above the ticket's resale ceiling.  A transfer by
    /// anyone but the owner, or of a ticket that is not `Valid` (already
    /// resold or used), aborts the call.
    pub fn transfer_ticket(
        &mut self,
        from: Address,
        to: Address,
        ticket_id: u64,
        sale_price: i128,
    ) -> (r: Result<(), Error>)
        requires
            old(self).wf(),
            old(self)@.transfer_reaches_ticket(ticket_id, sale_price) ==> old(
                self,
            )@.tickets[ticket_id as int].owner@ == from@,
            old(self)@.transfer_reaches_ticket(ticket_id, sale_price) ==> old(
                self,
            )@.tickets[ticket_id as int].status == TicketStatus::Valid,
        ensures
            final(self).wf(),
            match old(self)@.transfer_check(ticket_id, sale_price) {
                Some(e) => r == Err::<(), Error>(e) && final(self)@ == old(self)@,
                None => r == Ok::<(), Error>(()) && final(self)@ == old(self)@.after_transfer(
                    from,
                    to,
                    ticket_id,
                ),
            },
    {
        if sale_price < 0 {
            return Err(Error::NegativePrice);
        }
        if ticket_id >= self.tickets.len() as u64 {
            return Err(Error::NotFound);
        }
        let i = ticket_id as usize;
        if sale_price > self.tickets[i].max_resale_price {
            return Err(Error::PriceExceedsCeiling);
        }
        let old_ticket = self.tickets[i].duplicate();
        let moved = Ticket { owner: to.duplicate(), status: TicketStatus::Transferred, ..old_ticket };
        self.tickets.set(i, moved);
        self.published.push(TicketEvent::Transferred { from, to, ticket_id });
        Ok(())
    }

    /// Marks ticket `ticket_id` as used at entry (organiser only).  Returns
    /// `true` when the ticket was admissible and is now used, `false` when it
    /// had already been used (nothing changes then).  Refused with
    /// `NotInitialized` before `initialize`; verifying by anyone but the
    /// organiser, or an unknown ticket, aborts the call.
    pub fn verify_ticket(&mut self, verifier: Address, ticket_id: u64) -> (r: Result<bool, Error>)
        requires
            old(self).wf(),
            old(self)@.initialized() ==> old(self)@.is_admin(verifier@),
            old(self)@.initialized() ==> old(self)@.is_minted(ticket_id),
        ensures
            final(self).wf(),
            !old(self)@.initialized() ==> r == Err::<bool, Error>(Error::NotInitialized)
                && final(self)@ == old(self)@,
            old(self)@.initialized() && old(self)@.admissible(ticket_id) ==> r == Ok::<
                bool,
                Error,
            >(true) && final(self)@ == old(self)@.after_verify(ticket_id),
            old(self)@.initialized() && !old(self)@.admissible(ticket_id) ==> r == Ok::<
                bool,
                Error,
            >(false) && final(self)@ == old(self)@,
    {
        if self.admin.is_none() {
            return Err(Error::NotInitialized);
        }
        assert(ticket_id < self.tickets.len());
        let i = ticket_id as usize;
        let admissible = match self.tickets[i].status {
            TicketStatus::Used => false,
            TicketStatus::Valid | TicketStatus::Transferred => true,
        };
        if admissible {
            let old_ticket = self.tickets[i].duplicate();
            let used = Ticket { status: TicketStatus::Used, ..old_ticket };
            self.tickets.set(i, used);
            self.published.push(TicketEvent::Verified { ticket_id });
            Ok(true)
        } else {
            Ok(false)
        }
    }

    /// The ticket with id `ticket_id`; `NotFound` when none was minted.
    pub fn get_ticket(&self, ticket_id: u64) -> (r: Result<Ticket, Error>)
        requires
            self.wf(),
        ensures
            self@.is_minted(ticket_id) ==> r == Ok::<Ticket, Error>(self@.tickets[ticket_id as int]),
            !self@.is_minted(ticket_id) ==> r == Err::<Ticket, Error>(Error::NotFound),
    {
        if ticket_id >= self.tickets.len() as u64 {
            return Err(Error::NotFound);
        }
        Ok(self.tickets[ticket_id as usize].duplicate())
    }

    /// Number of tickets minted so far.
    pub fn tickets_sold(&self) -> (n: u64)
        requires
            self.wf(),
        ensures
            n == self@.sold(),
    {
        self.tickets.len() as u64
    }

    /// Replaces the contract code by `new_wasm_hash` (organiser only).
    /// Refused with `NotInitialized` before `initialize`; an upgrade by
    /// anyone but the organiser aborts the call.
    pub fn upgrade(&mut self, caller: Address, new_wasm_hash: Bytes32) -> (r: Result<(), Error>)
        requires
            old(self).wf(),
            old(self)@.initialized() ==> old(self)@.is_admin(caller@),
        ensures
            final(self).wf(),
            !old(self)@.initialized() ==> r == Err::<(), Error>(Error::NotInitialized)
                && final(self)@ == old(self)@,
            old(self)@.initialized() ==> r == Ok::<(), Error>(()) && final(self)@ == old(
                self,
            )@.after_upgrade(new_wasm_hash),
    {
        if self.admin.is_none() {
            return Err(Error::NotInitialized);
        }
        self.wasm = Some(new_wasm_hash);
        self.published.push(TicketEvent::Upgraded { new_wasm_hash });
        Ok(())
    }

    /// The stored state as plain values (published events are not stored).
    pub fn snapshot(&self) -> (s: TicketSnapshot)
        requires
            self.wf(),
        ensures
            s.state() == (TicketState { published: Seq::empty(), ..self@ }),
            s.state().consistent(),
    {
        let admin = match &self.admin {
            Some(a) => Some(a.duplicate()),
            None => None,
        };
        let mut tickets: Vec<Ticket> = Vec::new();
        let mut i: usize = 0;
        while i < self.tickets.len()
            invariant
                i <= self.tickets@.len(),
                tickets@ == self.tickets@.subrange(0, i as int),
            decreases self.tickets@.len() - i,
        {
            tickets.push(self.tickets[i].duplicate());
            i = i + 1;
            assert(tickets@ =~= self.tickets@.subrange(0, i as int));
        }
        assert(self.tickets@.subrange(0, self.tickets@.len() as int) =~= self.tickets@);
        TicketSnapshot {
            admin,
            event_name: self.event_name.clone(),
            max_tickets: self.max_tickets,
            price: self.price,
            max_resale_price: self.max_resale_price,
            tickets,
            wasm: self.wasm,
        }
    }

    /// The ticket contract a snapshot describes, provided the state is
    /// consistent; `None` otherwise.
    pub fn restore(snap: TicketSnapshot) -> (r: Option<TicketContract>)
        ensures
            (r is Some) == snap.state().consistent(),
            r matches Some(c) ==> c.wf() && c@ == snap.state(),
    {
        if snap.admin.is_none() && snap.tickets.len() != 0 {
            return None;
        }
        if snap.tickets.len() as u64 > snap.max_tickets {
            return None;
        }
        let mut i: usize = 0;
        while i < snap.tickets.len()
            invariant
                i <= snap.tickets@.len(),
                forall|j: int|
                    0 <= j < i ==> {
                        &&& (#[trigger] snap.tickets@[j]).id == j
                        &&& snap.tickets@[j].event_name@ == snap.event_name@
                        &&& snap.tickets@[j].original_price == snap.price
                        &&& snap.tickets@[j].max_resale_price == snap.max_resale_price
                    },
            decreases snap.tickets@.len() - i,
        {
            let t = &snap.tickets[i];
            if t.id != i as u64 || t.event_name != snap.event_name || t.original_price != snap.price
                || t.max_resale_price != snap.max_resale_price {
                return None;
            }
            i = i + 1;
        }
        Some(
            TicketContract {
                admin: snap.admin,
                event_name: snap.event_name,
                max_tickets: snap.max_tickets,
                price: snap.price,
                max_resale_price: snap.max_resale_price,
                tickets: snap.tickets,
                published: Vec::new(),
                wasm: snap.wasm,
            },
        )
    }
}

} // verus!

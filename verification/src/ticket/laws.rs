//! Properties of the ticket contract that span its entry points.

use vstd::prelude::*;
use crate::common::Address;
use super::model::{TicketState, TicketStatus};

verus! {

/// The contract never sells more than `max_tickets` tickets.
pub proof fn law_never_oversold(s: TicketState)
    requires
        s.consistent(),
    ensures
        s.sold() <= s.max_tickets,
{
}

/// Minting gives the recipient the next ticket id: reading that id back
/// yields a `Valid` ticket owned by the recipient at the event's prices; the
/// count of tickets sold grows by one and earlier tickets are untouched.
pub proof fn law_mint_then_get(s: TicketState, recipient: Address, earlier: int)
    requires
        s.consistent(),
        s.initialized(),
        s.sold() < s.max_tickets,
    ensures
        ({
            let t = s.after_mint(recipient);
            &&& t.is_minted(s.sold())
            &&& t.tickets[s.sold() as int] == s.minted_ticket(recipient)
            &&& t.tickets[s.sold() as int].owner == recipient
            &&& t.tickets[s.sold() as int].status == TicketStatus::Valid
            &&& t.sold() == s.sold() + 1
            &&& 0 <= earlier < s.sold() ==> t.tickets[earlier] == s.tickets[earlier]
        }),
{
}

/// A transfer only goes through at a price between zero and the ticket's
/// resale ceiling, which is the ceiling the event was initialised with.
pub proof fn law_resale_cap(s: TicketState, ticket_id: u64, sale_price: i128)
    requires
        s.consistent(),
        s.transfer_check(ticket_id, sale_price) is None,
    ensures
        0 <= sale_price <= s.tickets[ticket_id as int].max_resale_price,
        s.tickets[ticket_id as int].max_resale_price == s.max_resale_price,
{
}

/// A transfer hands the ticket to the buyer and marks it `Transferred`, so it
/// cannot be resold again; no other ticket changes.
pub proof fn law_transfer_moves_ticket(
    s: TicketState,
    from: Address,
    to: Address,
    ticket_id: u64,
    sale_price: i128,
    other: int,
)
    requires
        s.consistent(),
        s.transfer_check(ticket_id, sale_price) is None,
    ensures
        ({
            let t = s.after_transfer(from, to, ticket_id);
            &&& t.tickets[ticket_id as int].owner == to
            &&& t.tickets[ticket_id as int].status == TicketStatus::Transferred
            &&& t.tickets[ticket_id as int].status != TicketStatus::Valid
            &&& t.sold() == s.sold()
            &&& 0 <= other < s.sold() && other != ticket_id ==> t.tickets[other] == s.tickets[other]
        }),
{
}

/// A ticket is admitted at most once: verifying an admissible ticket marks it
/// used (keeping its owner), after which it is no longer admissible, so a
/// second scan reports `false` and changes nothing.
pub proof fn law_single_entry(s: TicketState, ticket_id: u64)
    requires
        s.consistent(),
        s.is_minted(ticket_id),
        s.admissible(ticket_id),
    ensures
        ({
            let t = s.after_verify(ticket_id);
            &&& !t.admissible(ticket_id)
            &&& t.tickets[ticket_id as int].status == TicketStatus::Used
            &&& t.tickets[ticket_id as int].owner == s.tickets[ticket_id as int].owner
            &&& t.sold() == s.sold()
        }),
{
}


/// The resale window: a transfer of a minted ticket passes the price and
/// existence checks exactly when its price lies between zero and the
/// ticket's resale ceiling; any such price is allowed, including prices
/// below the face price.
pub proof fn law_resale_window(s: TicketState, ticket_id: u64, sale_price: i128)
    ensures
        (s.transfer_check(ticket_id, sale_price) is None) == (0 <= sale_price && s.is_minted(
            ticket_id,
        ) && sale_price <= s.tickets[ticket_id as int].max_resale_price),
{
}


/// A first `initialize` with non-negative prices is accepted whatever the
/// capacity and however the resale ceiling compares with the face price,
/// and the tickets minted afterwards carry exactly those prices.
pub proof fn law_initialize_accepts(
    s: TicketState,
    admin: Address,
    event_name: String,
    max_tickets: u64,
    price: i128,
    max_resale_price: i128,
    recipient: Address,
)
    requires
        !s.initialized(),
        price >= 0,
        max_resale_price >= 0,
    ensures
        s.initialize_check(price, max_resale_price) is None,
        ({
            let t = s.after_initialize(admin, event_name, max_tickets, price, max_resale_price);
            &&& t.is_admin(admin@)
            &&& t.max_tickets == max_tickets
            &&& t.minted_ticket(recipient).original_price == price
            &&& t.minted_ticket(recipient).max_resale_price == max_resale_price
            &&& t.minted_ticket(recipient).owner == recipient
        }),
{
}

} // verus!

use octraban::common::Address;
use octraban::ticket::contract::TicketContract;
use octraban::ticket::model::{Error, Ticket, TicketEvent, TicketStatus};

fn address(tag: &str) -> Address {
    Address::from_strkey(format!("G{:0>55}", tag))
}

/// Shared setup: deploy + initialise the contract with default parameters.
fn setup() -> (TicketContract, Address, Address) {
    let mut client = TicketContract::new();
    let organizer = address("organizer");
    let buyer = address("buyer");
    client
        .initialize(
            organizer.clone(),
            String::from("Harvesta Live 2025"),
            100u64,
            50_000_000i128,
            75_000_000i128,
        )
        .unwrap();
    (client, organizer, buyer)
}

#[test]
fn test_mint_and_get() {
    let (mut client, organizer, buyer) = setup();
    let id = client.mint_ticket(organizer.clone(), buyer.clone()).unwrap();
    assert_eq!(id, 0);

    let ticket = client.get_ticket(0u64).unwrap();
    assert_eq!(ticket.owner, buyer);
    assert_eq!(ticket.status, TicketStatus::Valid);
}

#[test]
fn test_transfer() {
    let (mut client, organizer, buyer) = setup();
    client.mint_ticket(organizer.clone(), buyer.clone()).unwrap();

    let new_owner = address("new_owner");
    let result = client.transfer_ticket(buyer.clone(), new_owner.clone(), 0u64, 60_000_000i128);
    assert_eq!(result, Ok(()));

    let ticket = client.get_ticket(0u64).unwrap();
    assert_eq!(ticket.owner, new_owner);
    assert_eq!(ticket.status, TicketStatus::Transferred);
}

#[test]
fn test_resale_cap_enforced() {
    let (mut client, organizer, buyer) = setup();
    client.mint_ticket(organizer.clone(), buyer.clone()).unwrap();

    let new_owner = address("new_owner");
    let result = client.transfer_ticket(buyer.clone(), new_owner, 0u64, 100_000_000i128);
    assert_eq!(result, Err(Error::PriceExceedsCeiling));
}

#[test]
fn test_verify_ticket() {
    let (mut client, organizer, buyer) = setup();
    client.mint_ticket(organizer.clone(), buyer.clone()).unwrap();

    let valid = client.verify_ticket(organizer.clone(), 0u64).unwrap();
    assert!(valid);

    // Second scan must return false (already used).
    let double_scan = client.verify_ticket(organizer.clone(), 0u64).unwrap();
    assert!(!double_scan);
}

#[test]
fn test_mint_before_initialize_returns_not_initialized() {
    let mut client = TicketContract::new();
    let organizer = address("organizer");
    let buyer = address("buyer");
    assert_eq!(client.mint_ticket(organizer, buyer), Err(Error::NotInitialized));
}

#[test]
fn test_verify_before_initialize_returns_not_initialized() {
    let mut client = TicketContract::new();
    let organizer = address("organizer");
    assert_eq!(client.verify_ticket(organizer, 0u64), Err(Error::NotInitialized));
}

#[test]
fn test_upgrade_before_initialize_returns_not_initialized() {
    let mut client = TicketContract::new();
    let caller = address("caller");
    let hash = [0u8; 32];
    assert_eq!(client.upgrade(caller, hash), Err(Error::NotInitialized));
}

#[test]
fn test_double_initialize_returns_already_initialized() {
    let (mut client, organizer, _buyer) = setup();
    assert_eq!(
        client.initialize(
            organizer.clone(),
            String::from("Harvesta Live 2025"),
            100u64,
            50_000_000i128,
            75_000_000i128,
        ),
        Err(Error::AlreadyInitialized)
    );
}

#[test]
fn test_negative_sale_price_returns_typed_error() {
    let (mut client, organizer, buyer) = setup();
    client.mint_ticket(organizer.clone(), buyer.clone()).unwrap();

    let new_owner = address("new_owner");
    let result = client.transfer_ticket(buyer.clone(), new_owner, 0u64, -1i128);
    assert_eq!(result, Err(Error::NegativePrice));
}

#[test]
fn test_transfer_sale_price_above_max_resale_price_is_rejected() {
    let (mut client, organizer, buyer) = setup();
    client.mint_ticket(organizer.clone(), buyer.clone()).unwrap();

    let new_owner = address("new_owner");
    let result = client.transfer_ticket(buyer.clone(), new_owner, 0u64, 76_000_000i128);
    assert_eq!(result, Err(Error::PriceExceedsCeiling));
}

#[test]
fn test_extreme_i128_values_return_typed_error() {
    let (mut client, organizer, buyer) = setup();
    client.mint_ticket(organizer.clone(), buyer.clone()).unwrap();

    let new_owner = address("new_owner");

    let result = client.transfer_ticket(buyer.clone(), new_owner.clone(), 0u64, i128::MIN);
    assert_eq!(result, Err(Error::NegativePrice));

    let result = client.transfer_ticket(buyer.clone(), new_owner.clone(), 0u64, i128::MAX);
    assert_eq!(result, Err(Error::PriceExceedsCeiling));
}

// ── Further scenarios ─────────────────────────────────────────────────────

#[test]
fn negative_initial_prices_are_rejected() {
    let mut client = TicketContract::new();
    let organizer = address("organizer");
    assert_eq!(
        client.initialize(organizer.clone(), String::from("E"), 10, -1, 5),
        Err(Error::NegativePrice)
    );
    assert_eq!(
        client.initialize(organizer.clone(), String::from("E"), 10, 1, -5),
        Err(Error::NegativePrice)
    );
    // Nothing was configured, so a valid initialisation still goes through.
    client.initialize(organizer.clone(), String::from("E"), 10, 0, 0).unwrap();
    assert_eq!(client.tickets_sold(), 0);
}

#[test]
fn minted_tickets_carry_sequential_ids_and_event_terms() {
    let (mut client, organizer, buyer) = setup();
    let other = address("other");
    assert_eq!(client.mint_ticket(organizer.clone(), buyer.clone()), Ok(0));
    assert_eq!(client.mint_ticket(organizer.clone(), other.clone()), Ok(1));
    assert_eq!(client.tickets_sold(), 2);
    assert_eq!(
        client.get_ticket(1),
        Ok(Ticket {
            id: 1,
            owner: other.clone(),
            event_name: String::from("Harvesta Live 2025"),
            status: TicketStatus::Valid,
            original_price: 50_000_000,
            max_resale_price: 75_000_000,
        })
    );
    assert_eq!(client.get_ticket(2), Err(Error::NotFound));
    assert_eq!(
        client.published_events()[1],
        TicketEvent::Minted { recipient: other.clone(), ticket_id: 1 }
    );
}

#[test]
fn capacity_bounds_minting() {
    let mut client = TicketContract::new();
    let organizer = address("organizer");
    client.initialize(organizer.clone(), String::from("Small"), 2, 10, 20).unwrap();
    client.mint_ticket(organizer.clone(), address("a")).unwrap();
    client.mint_ticket(organizer.clone(), address("b")).unwrap();
    assert_eq!(client.tickets_sold(), 2);
}

#[test]
fn transfer_at_exact_ceiling_and_verification_after_resale() {
    let (mut client, organizer, buyer) = setup();
    client.mint_ticket(organizer.clone(), buyer.clone()).unwrap();
    let fan = address("fan");
    client.transfer_ticket(buyer.clone(), fan.clone(), 0, 75_000_000).unwrap();
    assert_eq!(
        client.published_events().last().unwrap(),
        &TicketEvent::Transferred { from: buyer.clone(), to: fan.clone(), ticket_id: 0 }
    );
    assert_eq!(client.transfer_ticket(fan.clone(), buyer.clone(), 7, 0), Err(Error::NotFound));
    // A resold ticket is still admitted once.
    assert_eq!(client.verify_ticket(organizer.clone(), 0), Ok(true));
    assert_eq!(client.published_events().last().unwrap(), &TicketEvent::Verified { ticket_id: 0 });
    let t = client.get_ticket(0).unwrap();
    assert_eq!(t.status, TicketStatus::Used);
    assert_eq!(t.owner, fan);
    assert_eq!(client.verify_ticket(organizer.clone(), 0), Ok(false));
}

#[test]
fn organiser_upgrade_is_recorded() {
    let (mut client, organizer, _buyer) = setup();
    client.upgrade(organizer.clone(), [4u8; 32]).unwrap();
    assert_eq!(
        client.published_events().last().unwrap(),
        &TicketEvent::Upgraded { new_wasm_hash: [4u8; 32] }
    );
}

#[test]
fn ticket_error_codes_match_the_interface() {
    assert_eq!(Error::NotFound.code(), 1);
    assert_eq!(Error::NotInitialized.code(), 2);
    assert_eq!(Error::AlreadyInitialized.code(), 3);
    assert_eq!(Error::NegativePrice.code(), 4);
    assert_eq!(Error::PriceOverflow.code(), 5);
    assert_eq!(Error::PriceExceedsCeiling.code(), 6);
}

#[test]
fn addresses_compare_by_strkey() {
    let a = address("same");
    let b = Address::from_strkey(a.strkey().clone());
    assert!(a.same_as(&b));
    assert!(!a.same_as(&address("other")));
}

#[test]
fn ticket_snapshot_round_trip() {
    let (mut client, organizer, buyer) = setup();
    client.mint_ticket(organizer.clone(), buyer.clone()).unwrap();
    client.mint_ticket(organizer.clone(), address("two")).unwrap();
    let snap = client.snapshot();
    let mut back = TicketContract::restore(snap.clone()).expect("consistent snapshot");
    assert_eq!(back.tickets_sold(), 2);
    assert_eq!(back.get_ticket(1), client.get_ticket(1));
    assert_eq!(back.mint_ticket(organizer.clone(), buyer.clone()), Ok(2));

    let mut renumbered = snap.clone();
    renumbered.tickets[1].id = 5;
    assert!(TicketContract::restore(renumbered).is_none());

    let mut over = snap.clone();
    over.max_tickets = 1;
    assert!(TicketContract::restore(over).is_none());

    let mut headless = snap;
    headless.admin = None;
    assert!(TicketContract::restore(headless).is_none());
}

use octraban::common::Address;
use octraban::explorer::contract::ExplorerContract;
use octraban::explorer::types::{
    ContractMeta, DataKey, Error, EventInput, ExplorerEvent, FunctionAbi, ParamDef, VersionKey,
    DEFAULT_MAX_EVENTS, EVENT_BUMP_AMOUNT, INSTANCE_BUMP_AMOUNT, MAX_PAGE_SIZE,
    REGISTRY_BUMP_AMOUNT,
};

fn address(tag: &str) -> Address {
    Address::from_strkey(format!("G{:0>55}", tag))
}

fn setup() -> ExplorerContract {
    ExplorerContract::new()
}

fn make_input(cid: &[u8; 32]) -> EventInput {
    EventInput {
        contract_id: *cid,
        function: String::from("swap"),
        ledger: 100u32,
        description: String::from("test"),
        raw_topics: Vec::new(),
        raw_data: Vec::new(),
    }
}

fn ping(cid: [u8; 32], description: &str) -> EventInput {
    EventInput {
        contract_id: cid,
        function: String::from("ping"),
        ledger: 1u32,
        description: String::from(description),
        raw_topics: Vec::new(),
        raw_data: Vec::new(),
    }
}

fn make_meta(name: &str, registrant: &Address) -> ContractMeta {
    ContractMeta {
        version: 1,
        abi_version: 0,
        min_ledger: 0,
        name: String::from(name),
        description: String::from("desc"),
        functions: Vec::new(),
        registered_by: registrant.clone(),
    }
}

fn last_event(c: &ExplorerContract) -> ExplorerEvent {
    c.published_events().last().expect("no event published by contract").clone()
}

// ── Basic init + register ─────────────────────────────────────────────────

#[test]
fn test_init_and_register() {
    let mut client = setup();
    let admin = address("admin");
    client.init(admin.clone(), 0u32).unwrap();

    let cid = [1u8; 32];
    client.register_contract(admin.clone(), cid, make_meta("StellarSwap", &admin)).unwrap();
    let fetched = client.get_contract(cid).unwrap();
    assert_eq!(fetched.name, String::from("StellarSwap"));
}

#[test]
fn test_register_unauthorized() {
    let mut client = setup();
    let admin = address("admin");
    let stranger = address("stranger");
    client.init(admin.clone(), 0u32).unwrap();

    let cid = [50u8; 32];
    let r = client.register_contract(stranger.clone(), cid, make_meta("UnauthorizedReg", &stranger));
    assert_eq!(r, Err(Error::Unauthorized));
    assert!(client.get_latest_contract(cid).is_none());
}

#[test]
fn test_submit_and_get_event() {
    let mut client = setup();
    let admin = address("admin");
    client.init(admin.clone(), 0u32).unwrap();

    let cid = [2u8; 32];
    let input = EventInput {
        contract_id: cid,
        function: String::from("swap"),
        ledger: 4521983u32,
        description: String::from("Address GABC... swapped 100 USDC"),
        raw_topics: Vec::new(),
        raw_data: Vec::new(),
    };
    client.submit_event(admin.clone(), input).unwrap();

    assert_eq!(client.event_count(), 1u64);
    let ev = client.get_event(0u64).unwrap();
    assert_eq!(ev.ledger, 4521983u32);
}

#[test]
fn test_cursor_pagination() {
    let mut client = setup();
    let admin = address("admin");
    client.init(admin.clone(), 0u32).unwrap();

    let cid = [3u8; 32];
    let base = make_input(&cid);

    for _ in 0..5 {
        client.submit_event(admin.clone(), base.clone()).unwrap();
    }
    assert_eq!(client.event_count(), 5u64);

    let page1 = client.get_events(0u64, 2u32).unwrap();
    assert_eq!(page1.len(), 2);
    assert_eq!(page1[0].seq, 0);
    assert_eq!(page1[1].seq, 1);

    let page2 = client.get_events(2u64, 2u32).unwrap();
    assert_eq!(page2.len(), 2);
    assert_eq!(page2[0].seq, 2);

    let page3 = client.get_events(4u64, 2u32).unwrap();
    assert_eq!(page3.len(), 1);
    assert_eq!(page3[0].seq, 4);

    let empty = client.get_events(10u64, 5u32).unwrap();
    assert_eq!(empty.len(), 0);
}

#[test]
fn test_double_init_panics() {
    let mut client = setup();
    let admin = address("admin");
    client.init(admin.clone(), 0u32).unwrap();
    assert_eq!(client.init(admin.clone(), 0u32), Err(Error::AlreadyExists));
}

// ── Ring buffer ───────────────────────────────────────────────────────────

#[test]
fn test_ring_buffer_wraps_correctly() {
    let mut client = setup();
    let admin = address("admin");
    client.init(admin.clone(), 5u32).unwrap();
    let cid = [10u8; 32];
    let base = make_input(&cid);

    for _ in 0..5 {
        client.submit_event(admin.clone(), base.clone()).unwrap();
    }
    assert_eq!(client.event_count(), 5u64);

    for _ in 0..10 {
        client.submit_event(admin.clone(), base.clone()).unwrap();
    }
    assert_eq!(client.event_count(), 5u64);

    let evs = client.get_events(0u64, 20u32).unwrap();
    assert_eq!(evs.len(), 5);
    assert_eq!(evs[0].seq, 10);
    assert_eq!(evs[4].seq, 14);
}

#[test]
fn test_storage_utilisation() {
    let mut client = setup();
    let admin = address("admin");
    client.init(admin.clone(), 1000u32).unwrap();
    let (cur, max) = client.storage_utilisation();
    assert_eq!(cur, 0u64);
    assert_eq!(max, 1000u32);
}

// ── set_max_events ────────────────────────────────────────────────────────

#[test]
fn test_set_max_events_below_floor_rejected() {
    let mut client = setup();
    let admin = address("admin");
    client.init(admin.clone(), 0u32).unwrap();
    assert_eq!(client.set_max_events(admin.clone(), 999u32), Err(Error::BelowFloor));
    assert_eq!(client.storage_utilisation().1, DEFAULT_MAX_EVENTS);
}

#[test]
fn test_set_max_events_accepted() {
    let mut client = setup();
    let admin = address("admin");
    client.init(admin.clone(), 0u32).unwrap();
    client.set_max_events(admin.clone(), 1000u32).unwrap();
    let (_, max) = client.storage_utilisation();
    assert_eq!(max, 1000u32);
}

// ── Diagnostic events ─────────────────────────────────────────────────────

#[test]
fn test_register_emits_c_reg_event() {
    let mut client = setup();
    let admin = address("admin");
    client.init(admin.clone(), 0u32).unwrap();

    let cid = [20u8; 32];
    let meta = make_meta("TestDex", &admin);
    client.register_contract(admin.clone(), cid, meta.clone()).unwrap();

    assert_eq!(
        last_event(&client),
        ExplorerEvent::ContractRegistered {
            contract_id: cid,
            registered_by: admin.clone(),
            contract_version: meta.version,
            ledger: 0,
            name: meta.name.clone(),
        }
    );
}

#[test]
fn test_update_emits_c_abiu_and_c_upd_events() {
    let mut client = setup();
    let admin = address("admin");
    client.init(admin.clone(), 0u32).unwrap();

    let cid = [21u8; 32];
    let meta_v0 = make_meta("Dex", &admin);
    client.register_contract(admin.clone(), cid, meta_v0.clone()).unwrap();

    let meta_v1 = ContractMeta { version: 2, abi_version: 1, ..meta_v0 };
    client.update_contract(admin.clone(), cid, meta_v1).unwrap();

    let events = client.published_events();
    assert_eq!(
        events[events.len() - 2],
        ExplorerEvent::AbiUpdated { contract_id: cid, old_abi_version: 0, new_abi_version: 1, ledger: 0 }
    );
    assert_eq!(
        events[events.len() - 1],
        ExplorerEvent::ContractUpdated {
            contract_id: cid,
            caller: admin.clone(),
            old_contract_version: 1,
            new_contract_version: 2,
            ledger: 0,
        }
    );
}

#[test]
fn test_update_contract_by_owner() {
    let mut client = setup();
    let admin = address("admin");
    client.init(admin.clone(), 0u32).unwrap();

    let owner = address("owner");
    let cid = [25u8; 32];
    let meta_v0 = make_meta("MyContract", &owner);
    // Only the admin may register; the owner is recorded as registrant.
    client.register_contract(admin.clone(), cid, meta_v0.clone()).unwrap();

    let meta_v1 = ContractMeta { version: 2, abi_version: 1, ..meta_v0 };
    client.update_contract(owner.clone(), cid, meta_v1).unwrap();

    let updated = client.get_contract(cid).unwrap();
    assert_eq!(updated.version, 2);
    assert_eq!(updated.abi_version, 1);
}

#[test]
fn test_submit_emits_ev_sub_and_decoded_events() {
    let mut client = setup();
    let admin = address("admin");
    client.init(admin.clone(), 0u32).unwrap();

    let cid = [22u8; 32];
    let input = make_input(&cid);
    client.submit_event(admin.clone(), input.clone()).unwrap();

    let events = client.published_events();
    assert_eq!(events.len(), 2);
    assert_eq!(
        events[0],
        ExplorerEvent::EventSubmitted {
            contract_id: cid,
            function: input.function.clone(),
            seq: 0,
            ledger: input.ledger,
        }
    );
    assert_eq!(
        events[1],
        ExplorerEvent::Decoded {
            contract_id: cid,
            function: input.function.clone(),
            description: input.description.clone(),
        }
    );
}

#[test]
fn test_cap_hit_event_emitted_on_eviction() {
    let mut client = setup();
    let admin = address("admin");
    client.init(admin.clone(), 5u32).unwrap();
    let cid = [23u8; 32];
    let base = make_input(&cid);

    for _ in 0..5 {
        client.submit_event(admin.clone(), base.clone()).unwrap();
    }
    client.submit_event(admin.clone(), base.clone()).unwrap();

    let events = client.published_events();
    assert_eq!(events[events.len() - 2], ExplorerEvent::CapacityHit { evicted_seq: 0, seq: 5 });
}

#[test]
fn test_submit_event_rejects_empty_function_name() {
    let mut client = setup();
    let admin = address("admin");
    client.init(admin.clone(), 0u32).unwrap();

    let cid = [24u8; 32];
    let mut input = make_input(&cid);
    input.function = String::new();
    assert_eq!(client.submit_event(admin.clone(), input), Err(Error::InvalidInput));
    assert_eq!(client.event_count(), 0);
}

// ── get_events pagination ─────────────────────────────────────────────────

#[test]
fn test_get_events_rejects_zero_limit() {
    let mut client = setup();
    let admin = address("admin");
    client.init(admin.clone(), 0u32).unwrap();
    let err = client.get_events(0u64, 0u32).unwrap_err();
    assert_eq!(err, Error::InvalidInput);
    assert_eq!(err.code(), 6);
}

#[test]
fn test_get_events_clamps_limit_to_max_page_size() {
    let mut client = setup();
    let admin = address("admin");
    client.init(admin.clone(), 5u32).unwrap();
    let cid = [25u8; 32];
    let base = make_input(&cid);
    for _ in 0..5 {
        client.submit_event(admin.clone(), base.clone()).unwrap();
    }
    let page = client.get_events(0u64, MAX_PAGE_SIZE + 1000).unwrap();
    assert_eq!(page.len(), 5);
}

#[test]
fn test_get_events_paging_returns_each_event_exactly_once() {
    let mut client = setup();
    let admin = address("admin");
    client.init(admin.clone(), 10u32).unwrap();
    let cid = [26u8; 32];
    let base = make_input(&cid);

    for _ in 0..10 {
        client.submit_event(admin.clone(), base.clone()).unwrap();
    }

    let mut cursor: u64 = 0;
    let mut all_seqs: Vec<u64> = Vec::new();
    loop {
        let page = client.get_events(cursor, 3u32).unwrap();
        if page.is_empty() {
            break;
        }
        for ev in page.iter() {
            all_seqs.push(ev.seq);
        }
        cursor = page[page.len() - 1].seq + 1;
    }

    assert_eq!(all_seqs.len(), 10);
    for expected in 0..10u64 {
        assert_eq!(all_seqs.iter().filter(|&&s| s == expected).count(), 1);
    }
}

// ── ABI versioning ────────────────────────────────────────────────────────

#[test]
fn test_register_sets_version_zero() {
    let mut client = setup();
    let admin = address("admin");
    client.init(admin.clone(), 0u32).unwrap();

    let cid = [30u8; 32];
    let meta = ContractMeta { abi_version: 99, ..make_meta("Test", &admin) };
    client.register_contract(admin.clone(), cid, meta).unwrap();

    let fetched = client.get_contract(cid).unwrap();
    assert_eq!(fetched.abi_version, 0);

    let v0 = client.get_contract_version(cid, 0u32).unwrap();
    assert_eq!(v0.abi_version, 0);
    assert_eq!(v0.name, String::from("Test"));
}

#[test]
fn test_sequential_updates_increment_abi_version() {
    let mut client = setup();
    let admin = address("admin");
    client.init(admin.clone(), 0u32).unwrap();

    let cid = [31u8; 32];
    let meta_v0 = make_meta("App", &admin);
    client.register_contract(admin.clone(), cid, meta_v0.clone()).unwrap();

    let meta_v1 = ContractMeta { abi_version: 1, ..meta_v0.clone() };
    client.update_contract(admin.clone(), cid, meta_v1).unwrap();
    assert_eq!(client.get_contract(cid).unwrap().abi_version, 1);

    let meta_v2 = ContractMeta { abi_version: 2, ..meta_v0 };
    client.update_contract(admin.clone(), cid, meta_v2).unwrap();
    assert_eq!(client.get_contract(cid).unwrap().abi_version, 2);

    assert!(client.get_contract_version(cid, 0u32).is_some());
    assert!(client.get_contract_version(cid, 1u32).is_some());
    assert!(client.get_contract_version(cid, 2u32).is_some());
    assert!(client.get_contract_version(cid, 3u32).is_none());
}

#[test]
fn test_stale_write_rejected() {
    let mut client = setup();
    let admin = address("admin");
    client.init(admin.clone(), 0u32).unwrap();

    let cid = [32u8; 32];
    let meta_v0 = make_meta("X", &admin);
    client.register_contract(admin.clone(), cid, meta_v0.clone()).unwrap();

    let meta_v1 = ContractMeta { abi_version: 1, ..meta_v0.clone() };
    client.update_contract(admin.clone(), cid, meta_v1).unwrap();

    let meta_stale = ContractMeta { abi_version: 1, ..meta_v0 };
    assert_eq!(client.update_contract(admin.clone(), cid, meta_stale), Err(Error::Unauthorized));
    assert_eq!(client.get_contract(cid).unwrap().abi_version, 1);
}

#[test]
fn test_get_contract_not_found() {
    let mut client = setup();
    let admin = address("admin");
    client.init(admin.clone(), 0u32).unwrap();

    let cid = [33u8; 32];
    assert_eq!(client.get_contract(cid), Err(Error::NotFound));
}

#[test]
fn test_get_latest_contract_returns_none_for_missing() {
    let mut client = setup();
    let admin = address("admin");
    client.init(admin.clone(), 0u32).unwrap();

    let cid = [33u8; 32];
    assert!(client.get_latest_contract(cid).is_none());
    assert!(client.get_contract_version(cid, 0u32).is_none());
}

// ── Deregistration ────────────────────────────────────────────────────────

#[test]
fn test_admin_deregisters_contract() {
    let mut client = setup();
    let admin = address("admin");
    client.init(admin.clone(), 0u32).unwrap();

    let cid = [40u8; 32];
    client.register_contract(admin.clone(), cid, make_meta("ToRemove", &admin)).unwrap();
    assert!(client.get_latest_contract(cid).is_some());

    client.deregister_contract(admin.clone(), cid).unwrap();
    assert!(client.get_latest_contract(cid).is_none());
}

#[test]
fn test_registrant_deregisters_contract() {
    let mut client = setup();
    let admin = address("admin");
    client.init(admin.clone(), 0u32).unwrap();

    let registrant = address("registrant");
    let cid = [41u8; 32];
    client.register_contract(admin.clone(), cid, make_meta("RegOwned", &registrant)).unwrap();
    client.deregister_contract(registrant.clone(), cid).unwrap();
    assert!(client.get_latest_contract(cid).is_none());
}

#[test]
fn test_stranger_cannot_deregister() {
    let mut client = setup();
    let admin = address("admin");
    client.init(admin.clone(), 0u32).unwrap();

    let registrant = address("registrant");
    let stranger = address("stranger");
    let cid = [42u8; 32];
    client.register_contract(admin.clone(), cid, make_meta("Secure", &registrant)).unwrap();
    assert_eq!(client.deregister_contract(stranger, cid), Err(Error::Unauthorized));
    assert!(client.get_latest_contract(cid).is_some());
}

#[test]
fn test_deregister_missing_id_panics() {
    let mut client = setup();
    let admin = address("admin");
    client.init(admin.clone(), 0u32).unwrap();

    let cid = [99u8; 32];
    assert_eq!(client.deregister_contract(admin.clone(), cid), Err(Error::NotFound));
}

#[test]
fn test_deregister_emits_c_dereg_event() {
    let mut client = setup();
    let admin = address("admin");
    client.init(admin.clone(), 0u32).unwrap();

    let cid = [43u8; 32];
    client.register_contract(admin.clone(), cid, make_meta("EventTest", &admin)).unwrap();
    client.deregister_contract(admin.clone(), cid).unwrap();

    assert_eq!(
        last_event(&client),
        ExplorerEvent::ContractDeregistered { contract_id: cid, caller: admin.clone(), ledger: 0 }
    );
}

// ── transfer_admin / accept_admin / cancel_admin_transfer ───────────────────

#[test]
fn test_transfer_admin_emits_adm_nom_event() {
    let mut client = setup();
    let admin = address("admin");
    let new_admin = address("new_admin");
    client.init(admin.clone(), 0u32).unwrap();
    client.transfer_admin(admin.clone(), new_admin.clone()).unwrap();

    assert_eq!(
        last_event(&client),
        ExplorerEvent::AdminNominated { caller: admin.clone(), new_admin: new_admin.clone() }
    );
}

#[test]
fn test_admin_retains_control_after_nomination() {
    let mut client = setup();
    let admin = address("admin");
    let new_admin = address("new_admin");
    client.init(admin.clone(), 0u32).unwrap();
    client.transfer_admin(admin.clone(), new_admin.clone()).unwrap();

    client.submit_event(admin.clone(), ping([9u8; 32], "old admin still in control")).unwrap();
    assert_eq!(client.event_count(), 1u64);
}

#[test]
fn test_nominee_cannot_act_before_accepting() {
    let mut client = setup();
    let admin = address("admin");
    let new_admin = address("new_admin");
    client.init(admin.clone(), 0u32).unwrap();
    client.transfer_admin(admin.clone(), new_admin.clone()).unwrap();

    let r = client.submit_event(new_admin.clone(), ping([10u8; 32], "nominee jumps the gun"));
    assert_eq!(r, Err(Error::Unauthorized));
}

#[test]
fn test_transfer_admin_unauthorized() {
    let mut client = setup();
    let admin = address("admin");
    let attacker = address("attacker");
    let new_admin = address("new_admin");
    client.init(admin.clone(), 0u32).unwrap();
    assert_eq!(client.transfer_admin(attacker, new_admin), Err(Error::Unauthorized));
}

#[test]
fn test_accept_admin_emits_adm_acc_event() {
    let mut client = setup();
    let admin = address("admin");
    let new_admin = address("new_admin");
    client.init(admin.clone(), 0u32).unwrap();
    client.transfer_admin(admin.clone(), new_admin.clone()).unwrap();
    client.accept_admin(new_admin.clone()).unwrap();

    assert_eq!(last_event(&client), ExplorerEvent::AdminAccepted { caller: new_admin.clone() });
}

#[test]
fn test_accept_admin_promotes_new_admin() {
    let mut client = setup();
    let admin = address("admin");
    let new_admin = address("new_admin");
    client.init(admin.clone(), 0u32).unwrap();
    client.transfer_admin(admin.clone(), new_admin.clone()).unwrap();
    client.accept_admin(new_admin.clone()).unwrap();

    client.submit_event(new_admin.clone(), ping([11u8; 32], "new admin test")).unwrap();
    assert_eq!(client.event_count(), 1u64);
}

#[test]
fn test_old_admin_loses_access_after_accept() {
    let mut client = setup();
    let admin = address("admin");
    let new_admin = address("new_admin");
    client.init(admin.clone(), 0u32).unwrap();
    client.transfer_admin(admin.clone(), new_admin.clone()).unwrap();
    client.accept_admin(new_admin.clone()).unwrap();

    let r = client.submit_event(admin.clone(), ping([12u8; 32], "stale admin attempt"));
    assert_eq!(r, Err(Error::Unauthorized));
}

#[test]
fn test_only_pending_admin_can_accept() {
    let mut client = setup();
    let admin = address("admin");
    let new_admin = address("new_admin");
    let attacker = address("attacker");
    client.init(admin.clone(), 0u32).unwrap();
    client.transfer_admin(admin.clone(), new_admin.clone()).unwrap();
    assert_eq!(client.accept_admin(attacker), Err(Error::Unauthorized));
}

#[test]
fn test_accept_admin_without_pending_panics() {
    let mut client = setup();
    let admin = address("admin");
    let stranger = address("stranger");
    client.init(admin.clone(), 0u32).unwrap();
    assert_eq!(client.accept_admin(stranger), Err(Error::NotFound));
}

#[test]
fn test_cancel_admin_transfer_emits_adm_cncl_event() {
    let mut client = setup();
    let admin = address("admin");
    let new_admin = address("new_admin");
    client.init(admin.clone(), 0u32).unwrap();
    client.transfer_admin(admin.clone(), new_admin.clone()).unwrap();
    client.cancel_admin_transfer(admin.clone()).unwrap();

    assert_eq!(last_event(&client), ExplorerEvent::AdminTransferCancelled { caller: admin.clone() });
}

#[test]
fn test_current_admin_can_cancel_pending_transfer() {
    let mut client = setup();
    let admin = address("admin");
    let new_admin = address("new_admin");
    client.init(admin.clone(), 0u32).unwrap();
    client.transfer_admin(admin.clone(), new_admin.clone()).unwrap();
    client.cancel_admin_transfer(admin.clone()).unwrap();

    client.submit_event(admin.clone(), ping([13u8; 32], "admin after cancel")).unwrap();
    assert_eq!(client.event_count(), 1u64);
}

#[test]
fn test_accept_admin_after_cancel_panics() {
    let mut client = setup();
    let admin = address("admin");
    let new_admin = address("new_admin");
    client.init(admin.clone(), 0u32).unwrap();
    client.transfer_admin(admin.clone(), new_admin.clone()).unwrap();
    client.cancel_admin_transfer(admin.clone()).unwrap();
    assert_eq!(client.accept_admin(new_admin), Err(Error::NotFound));
}

#[test]
fn test_cancel_admin_transfer_unauthorized() {
    let mut client = setup();
    let admin = address("admin");
    let new_admin = address("new_admin");
    let attacker = address("attacker");
    client.init(admin.clone(), 0u32).unwrap();
    client.transfer_admin(admin.clone(), new_admin.clone()).unwrap();
    assert_eq!(client.cancel_admin_transfer(attacker), Err(Error::Unauthorized));
}

#[test]
fn test_cancel_admin_transfer_without_pending_panics() {
    let mut client = setup();
    let admin = address("admin");
    client.init(admin.clone(), 0u32).unwrap();
    assert_eq!(client.cancel_admin_transfer(admin.clone()), Err(Error::NotFound));
}

#[test]
fn test_transfer_admin_to_self_then_accept_is_noop() {
    let mut client = setup();
    let admin = address("admin");
    client.init(admin.clone(), 0u32).unwrap();
    client.transfer_admin(admin.clone(), admin.clone()).unwrap();
    client.accept_admin(admin.clone()).unwrap();

    client.submit_event(admin.clone(), ping([14u8; 32], "self transfer test")).unwrap();
    assert_eq!(client.event_count(), 1u64);
}

#[test]
fn test_pause_and_unpause_emit_events() {
    let mut client = setup();
    let admin = address("admin");
    client.init(admin.clone(), 0u32).unwrap();

    client.pause(admin.clone()).unwrap();
    assert_eq!(last_event(&client), ExplorerEvent::Paused);

    client.unpause(admin.clone()).unwrap();
    assert_eq!(last_event(&client), ExplorerEvent::Unpaused);
}

// ── upgrade ───────────────────────────────────────────────────────────────

#[test]
fn test_admin_can_upgrade() {
    let mut client = setup();
    let admin = address("admin");
    client.init(admin.clone(), 0u32).unwrap();

    let hash = [7u8; 32];
    client.upgrade(admin.clone(), hash).unwrap();
}

#[test]
fn test_non_admin_cannot_upgrade() {
    let mut client = setup();
    let admin = address("admin");
    let stranger = address("stranger");
    client.init(admin.clone(), 0u32).unwrap();

    let hash = [7u8; 32];
    assert_eq!(client.upgrade(stranger, hash), Err(Error::Unauthorized));
}

#[test]
fn test_upgrade_emits_event() {
    let mut client = setup();
    let admin = address("admin");
    client.init(admin.clone(), 0u32).unwrap();

    let hash = [9u8; 32];
    let before = client.published_events().len();
    client.upgrade(admin.clone(), hash).unwrap();
    assert!(client.published_events().len() > before);
    assert_eq!(last_event(&client), ExplorerEvent::Upgraded { new_wasm_hash: hash });
}

#[test]
fn test_admin_can_upgrade_after_transfer() {
    let mut client = setup();
    let admin = address("admin");
    let new_admin = address("new_admin");
    client.init(admin.clone(), 0u32).unwrap();
    client.transfer_admin(admin.clone(), new_admin.clone()).unwrap();
    client.accept_admin(new_admin.clone()).unwrap();

    let hash = [11u8; 32];
    client.upgrade(new_admin.clone(), hash).unwrap();
}

#[test]
fn test_old_admin_cannot_upgrade_after_transfer() {
    let mut client = setup();
    let admin = address("admin");
    let new_admin = address("new_admin");
    client.init(admin.clone(), 0u32).unwrap();
    client.transfer_admin(admin.clone(), new_admin.clone()).unwrap();
    client.accept_admin(new_admin.clone()).unwrap();

    let hash = [12u8; 32];
    assert_eq!(client.upgrade(admin.clone(), hash), Err(Error::Unauthorized));
}

#[test]
fn test_upgrade_while_paused() {
    let mut client = setup();
    let admin = address("admin");
    client.init(admin.clone(), 0u32).unwrap();
    client.pause(admin.clone()).unwrap();

    let hash = [13u8; 32];
    assert_eq!(client.upgrade(admin.clone(), hash), Err(Error::ContractPaused));
}

// ── Storage TTL ───────────────────────────────────────────────────────────

#[test]
fn test_init_extends_instance_ttl_to_bump_amount() {
    let mut client = setup();
    let admin = address("admin");
    client.init(admin.clone(), 0u32).unwrap();

    assert_eq!(client.get_ttl(&DataKey::Admin), Some(INSTANCE_BUMP_AMOUNT));
}

#[test]
fn test_instance_data_survives_past_min_floor_after_state_changing_call() {
    let mut client = setup();
    let admin = address("admin");
    client.init(admin.clone(), 0u32).unwrap();

    client.set_ledger(20_000);

    client.pause(admin.clone()).unwrap();
    assert!(client.is_paused());

    assert_eq!(client.get_ttl(&DataKey::Paused), Some(INSTANCE_BUMP_AMOUNT));
}

#[test]
fn test_register_contract_extends_registry_entry_ttl() {
    let mut client = setup();
    let admin = address("admin");
    client.init(admin.clone(), 0u32).unwrap();

    let cid = [60u8; 32];
    client.register_contract(admin.clone(), cid, make_meta("TTLTest", &admin)).unwrap();

    assert_eq!(client.get_ttl(&DataKey::Contract(cid)), Some(REGISTRY_BUMP_AMOUNT));
}

#[test]
fn test_registry_entry_survives_past_min_floor_and_read_extends_it() {
    let mut client = setup();
    let admin = address("admin");
    client.init(admin.clone(), 0u32).unwrap();

    let cid = [61u8; 32];
    client.register_contract(admin.clone(), cid, make_meta("TTLTest2", &admin)).unwrap();

    client.set_ledger(20_000);
    assert_eq!(client.get_ttl(&DataKey::Contract(cid)), Some(REGISTRY_BUMP_AMOUNT - 20_000));

    let fetched = client.get_contract(cid).unwrap();
    assert_eq!(fetched.name, String::from("TTLTest2"));

    assert_eq!(client.get_ttl(&DataKey::Contract(cid)), Some(REGISTRY_BUMP_AMOUNT));
}

#[test]
fn test_submit_event_extends_event_slot_ttl() {
    let mut client = setup();
    let admin = address("admin");
    client.init(admin.clone(), 0u32).unwrap();

    let cid = [62u8; 32];
    client.submit_event(admin.clone(), make_input(&cid)).unwrap();

    assert_eq!(client.get_ttl(&DataKey::EventLog(0)), Some(EVENT_BUMP_AMOUNT));
}

#[test]
fn test_event_survives_past_min_floor_and_get_event_extends_it() {
    let mut client = setup();
    let admin = address("admin");
    client.init(admin.clone(), 0u32).unwrap();

    let cid = [63u8; 32];
    client.submit_event(admin.clone(), make_input(&cid)).unwrap();

    client.set_ledger(20_000);

    let ev = client.get_event(0u64).unwrap();
    assert_eq!(ev.contract_id, cid);

    assert_eq!(client.get_ttl(&DataKey::EventLog(0)), Some(EVENT_BUMP_AMOUNT));
}

// ── Cross-contract scenario and registration snapshot ─────────────────────

#[test]
fn test_cross_contract_event_registration() {
    let mut explorer = setup();
    let admin = address("admin");
    explorer.init(admin.clone(), 50000).unwrap();

    let contract_b_id = [1u8; 32];
    let input = EventInput {
        contract_id: contract_b_id,
        function: String::from("mint"),
        ledger: 1000,
        description: String::from("Minted from Contract A"),
        raw_topics: Vec::new(),
        raw_data: Vec::new(),
    };

    explorer.submit_event(admin.clone(), input).unwrap();

    assert_eq!(explorer.event_count(), 1);
    let stored_event = explorer.get_event(0).unwrap();
    assert_eq!(stored_event.contract_id, contract_b_id);
    assert_eq!(stored_event.ledger, 1000);
}

#[test]
fn test_contract_registration_snapshot() {
    let mut explorer = setup();
    let admin = address("admin");
    explorer.init(admin.clone(), 50000).unwrap();

    let contract_id = [2u8; 32];
    let meta = ContractMeta {
        version: 1,
        abi_version: 0,
        min_ledger: 0,
        name: String::from("SnapshotTestContract"),
        description: String::from("Testing snapshots"),
        functions: Vec::new(),
        registered_by: admin.clone(),
    };

    explorer.register_contract(admin.clone(), contract_id, meta).unwrap();

    let fetched = explorer.get_contract(contract_id).unwrap();
    assert_eq!(fetched.name, String::from("SnapshotTestContract"));
    assert_eq!(fetched.version, 1);
}

// ── Further scenarios ─────────────────────────────────────────────────────

#[test]
fn registry_read_after_write_returns_submitted_metadata() {
    let mut c = setup();
    let admin = address("admin");
    c.init(admin.clone(), 0).unwrap();
    c.set_ledger(77);
    let cid = [5u8; 32];
    let meta = ContractMeta {
        functions: vec![FunctionAbi {
            name: String::from("swap"),
            description: String::from("swaps tokens"),
            params: vec![ParamDef { name: String::from("amount"), kind: String::from("i128") }],
        }],
        ..make_meta("Dex", &address("owner"))
    };
    c.register_contract(admin.clone(), cid, meta.clone()).unwrap();
    let stored = c.get_contract(cid).unwrap();
    assert_eq!(stored, ContractMeta { abi_version: 0, min_ledger: 77, ..meta.clone() });
    assert_eq!(c.get_contract_version(cid, 0), Some(stored.clone()));
    assert_eq!(c.register_contract(admin.clone(), cid, meta), Err(Error::AlreadyExists));
}

#[test]
fn update_keeps_history_and_stamps_ledger() {
    let mut c = setup();
    let admin = address("admin");
    c.init(admin.clone(), 0).unwrap();
    let cid = [6u8; 32];
    c.register_contract(admin.clone(), cid, make_meta("App", &admin)).unwrap();
    c.set_ledger(500);
    let v1 = ContractMeta { version: 9, abi_version: 1, ..make_meta("App v1", &admin) };
    c.update_contract(admin.clone(), cid, v1.clone()).unwrap();
    assert_eq!(c.get_contract(cid).unwrap(), ContractMeta { min_ledger: 500, ..v1 });
    assert_eq!(c.get_contract_version(cid, 0).unwrap().name, String::from("App"));
    assert_eq!(c.get_contract_version(cid, 0).unwrap().min_ledger, 0);
    // Skipping a version is refused like a stale one.
    let v3 = ContractMeta { abi_version: 3, ..make_meta("App v3", &admin) };
    assert_eq!(c.update_contract(admin.clone(), cid, v3), Err(Error::Unauthorized));
}

#[test]
fn deregister_keeps_version_history_and_allows_reregistration() {
    let mut c = setup();
    let admin = address("admin");
    c.init(admin.clone(), 0).unwrap();
    let cid = [7u8; 32];
    c.register_contract(admin.clone(), cid, make_meta("Old", &admin)).unwrap();
    c.update_contract(admin.clone(), cid, ContractMeta { abi_version: 1, ..make_meta("Old", &admin) })
        .unwrap();
    c.deregister_contract(admin.clone(), cid).unwrap();
    assert!(c.get_contract_version(cid, 1).is_some());
    assert_eq!(c.update_contract(admin.clone(), cid, make_meta("x", &admin)), Err(Error::NotFound));
    c.register_contract(admin.clone(), cid, make_meta("New", &admin)).unwrap();
    assert_eq!(c.get_contract(cid).unwrap().name, String::from("New"));
    assert_eq!(c.get_contract_version(cid, 0).unwrap().name, String::from("New"));
}

#[test]
fn invalid_metadata_is_rejected() {
    let mut c = setup();
    let admin = address("admin");
    c.init(admin.clone(), 0).unwrap();
    let cid = [8u8; 32];
    // Empty name.
    assert_eq!(c.register_contract(admin.clone(), cid, make_meta("", &admin)), Err(Error::InvalidInput));
    // Name of 65 bytes.
    let long = "n".repeat(65);
    assert_eq!(c.register_contract(admin.clone(), cid, make_meta(&long, &admin)), Err(Error::InvalidInput));
    // Exactly 64 bytes is accepted; multi-byte characters count by bytes.
    let accented = "é".repeat(33);
    assert_eq!(accented.len(), 66);
    assert_eq!(c.register_contract(admin.clone(), cid, make_meta(&accented, &admin)), Err(Error::InvalidInput));
    // Description over the limit.
    let meta = ContractMeta { description: "d".repeat(1025), ..make_meta("ok", &admin) };
    assert_eq!(c.register_contract(admin.clone(), cid, meta), Err(Error::InvalidInput));
    // A parameter without a kind.
    let meta = ContractMeta {
        functions: vec![FunctionAbi {
            name: String::from("f"),
            description: String::new(),
            params: vec![ParamDef { name: String::from("a"), kind: String::new() }],
        }],
        ..make_meta("ok", &admin)
    };
    assert_eq!(c.register_contract(admin.clone(), cid, meta), Err(Error::InvalidInput));
    // Too many functions.
    let f = FunctionAbi { name: String::from("f"), description: String::new(), params: Vec::new() };
    let meta = ContractMeta { functions: vec![f; 65], ..make_meta("ok", &admin) };
    assert_eq!(c.register_contract(admin.clone(), cid, meta), Err(Error::InvalidInput));
    assert!(c.get_latest_contract(cid).is_none());
    c.register_contract(admin.clone(), cid, make_meta(&"n".repeat(64), &admin)).unwrap();
    // Updates are validated too.
    let bad = ContractMeta { abi_version: 1, ..make_meta("", &admin) };
    assert_eq!(c.update_contract(admin.clone(), cid, bad), Err(Error::InvalidInput));
}

#[test]
fn paused_contract_refuses_writes_but_allows_admin_handover() {
    let mut c = setup();
    let admin = address("admin");
    let owner = address("owner");
    c.init(admin.clone(), 0).unwrap();
    let cid = [9u8; 32];
    c.register_contract(admin.clone(), cid, make_meta("P", &owner)).unwrap();
    c.pause(admin.clone()).unwrap();
    assert_eq!(c.register_contract(admin.clone(), [10u8; 32], make_meta("Q", &admin)), Err(Error::ContractPaused));
    assert_eq!(
        c.update_contract(owner.clone(), cid, ContractMeta { abi_version: 1, ..make_meta("P", &owner) }),
        Err(Error::ContractPaused)
    );
    assert_eq!(c.deregister_contract(owner.clone(), cid), Err(Error::ContractPaused));
    assert_eq!(c.submit_event(admin.clone(), make_input(&cid)), Err(Error::ContractPaused));
    // An empty function name is reported before the pause.
    let mut input = make_input(&cid);
    input.function = String::new();
    assert_eq!(c.submit_event(admin.clone(), input), Err(Error::InvalidInput));
    c.transfer_admin(admin.clone(), owner.clone()).unwrap();
    c.accept_admin(owner.clone()).unwrap();
    c.unpause(owner.clone()).unwrap();
    assert!(!c.is_paused());
    c.submit_event(owner.clone(), make_input(&cid)).unwrap();
}

#[test]
fn growing_the_ring_keeps_every_retained_event() {
    let mut c = setup();
    let admin = address("admin");
    c.init(admin.clone(), 5).unwrap();
    for i in 0..8u32 {
        let mut input = make_input(&[1u8; 32]);
        input.ledger = i;
        c.submit_event(admin.clone(), input).unwrap();
    }
    // Retained: 3..8.
    assert_eq!(c.get_event(2), Err(Error::NotFound));
    c.set_max_events(admin.clone(), 1000).unwrap();
    assert_eq!(
        c.published_events().last().unwrap(),
        &ExplorerEvent::Resized { old_max: 5, new_max: 1000 }
    );
    for q in 3..8u64 {
        let e = c.get_event(q).unwrap();
        assert_eq!(e.seq, q);
        assert_eq!(e.ledger as u64, q);
    }
    assert_eq!(c.get_event(2), Err(Error::NotFound));
    let seqs: Vec<u64> = c.get_events(0, 100).unwrap().iter().map(|e| e.seq).collect();
    assert_eq!(seqs, vec![3, 4, 5, 6, 7]);
    assert_eq!(c.event_count(), 5);
    assert_eq!(c.storage_utilisation(), (5, 1000));
    // New events go on from sequence number 8.
    c.submit_event(admin.clone(), make_input(&[1u8; 32])).unwrap();
    assert_eq!(c.get_event(8).unwrap().seq, 8);
    assert_eq!(c.get_event(3).unwrap().seq, 3);
    assert_eq!(c.event_count(), 6);
}

#[test]
fn growing_after_wraparound_counts_only_retained_events() {
    let mut c = setup();
    let admin = address("admin");
    c.init(admin.clone(), 1000).unwrap();
    for _ in 0..1001u32 {
        c.submit_event(admin.clone(), make_input(&[4u8; 32])).unwrap();
    }
    assert_eq!(c.event_count(), 1000);
    c.set_ledger(50);
    c.set_max_events(admin.clone(), 2000).unwrap();
    assert_eq!(c.get_ttl(&DataKey::EventLog(1)), Some(EVENT_BUMP_AMOUNT));
    assert_eq!(c.get_ttl(&DataKey::EventLog(0)), None);
    assert_eq!(c.event_count(), 1000);
    assert_eq!(c.storage_utilisation(), (1000, 2000));
    assert_eq!(c.get_event(0), Err(Error::NotFound));
    assert_eq!(c.get_event(1).unwrap().seq, 1);
    assert_eq!(c.get_event(1000).unwrap().seq, 1000);
    let page = c.get_events(0, 500).unwrap();
    assert_eq!(page[0].seq, 1);
    assert_eq!(page[499].seq, 500);
    // The grown ring has room: the next event evicts nothing.
    c.submit_event(admin.clone(), make_input(&[4u8; 32])).unwrap();
    assert!(!c.published_events().iter().any(|e| matches!(
        e,
        ExplorerEvent::CapacityHit { seq: 1001, .. }
    )));
    assert_eq!(c.event_count(), 1001);
    assert_eq!(c.get_event(1).unwrap().seq, 1);
    assert_eq!(c.get_event(1001).unwrap().seq, 1001);
}

#[test]
fn a_full_grown_ring_evicts_its_oldest_retained_event() {
    let mut c = setup();
    let admin = address("admin");
    c.init(admin.clone(), 1000).unwrap();
    for _ in 0..1001u32 {
        c.submit_event(admin.clone(), make_input(&[5u8; 32])).unwrap();
    }
    c.set_max_events(admin.clone(), 1001).unwrap();
    // Retained: 1..1001, one slot free.
    c.submit_event(admin.clone(), make_input(&[5u8; 32])).unwrap();
    assert_eq!(c.event_count(), 1001);
    assert_eq!(c.get_event(1).unwrap().seq, 1);
    // Now full: the next submission evicts event 1.
    c.submit_event(admin.clone(), make_input(&[5u8; 32])).unwrap();
    let n = c.published_events().len();
    assert_eq!(
        c.published_events()[n - 2],
        ExplorerEvent::CapacityHit { evicted_seq: 1, seq: 1002 }
    );
    assert_eq!(c.event_count(), 1001);
    assert_eq!(c.get_event(1), Err(Error::NotFound));
    assert_eq!(c.get_event(2).unwrap().seq, 2);
    assert_eq!(c.get_event(1002).unwrap().seq, 1002);
}

#[test]
fn shrinking_the_ring_keeps_the_most_recent_events() {
    let mut c = setup();
    let admin = address("admin");
    c.init(admin.clone(), 2000).unwrap();
    for _ in 0..2600u32 {
        c.submit_event(admin.clone(), make_input(&[2u8; 32])).unwrap();
    }
    // Retained: 600..2600 in slots seq % 2000.
    c.set_max_events(admin.clone(), 1000).unwrap();
    assert_eq!(c.storage_utilisation(), (1000, 1000));
    for q in [1600u64, 1601, 2000, 2100, 2599] {
        assert_eq!(c.get_event(q).unwrap().seq, q);
    }
    assert_eq!(c.get_event(1599), Err(Error::NotFound));
    let page = c.get_events(0, 500).unwrap();
    assert_eq!(page.len(), 500);
    assert_eq!(page[0].seq, 1600);
    assert_eq!(page[499].seq, 2099);
    // The slots beyond the new capacity are gone.
    let snap = c.snapshot();
    assert_eq!(snap.slots.len(), 1000);
    assert!(snap.slots.iter().all(|(k, _)| *k < 1000));
    assert_eq!(snap.slot_lifetimes.len(), 1000);
    assert_eq!(c.get_ttl(&DataKey::EventLog(1500)), None);
}

#[test]
fn nominee_has_no_admin_rights_until_accepting() {
    let mut c = setup();
    let admin = address("admin");
    let nominee = address("nominee");
    c.init(admin.clone(), 0).unwrap();
    c.transfer_admin(admin.clone(), nominee.clone()).unwrap();
    assert_eq!(c.pause(nominee.clone()), Err(Error::Unauthorized));
    assert_eq!(c.set_max_events(nominee.clone(), 2000), Err(Error::Unauthorized));
    assert_eq!(c.cancel_admin_transfer(nominee.clone()), Err(Error::Unauthorized));
    assert_eq!(c.transfer_admin(nominee.clone(), nominee.clone()), Err(Error::Unauthorized));
    c.accept_admin(nominee.clone()).unwrap();
    c.pause(nominee.clone()).unwrap();
    assert_eq!(c.unpause(admin), Err(Error::Unauthorized));
}

#[test]
fn an_entry_is_accessible_through_its_last_live_ledger() {
    let mut c = setup();
    let admin = address("admin");
    c.init(admin.clone(), 0).unwrap();
    let cid = [64u8; 32];
    c.register_contract(admin.clone(), cid, make_meta("Lapsing", &admin)).unwrap();
    c.set_ledger(REGISTRY_BUMP_AMOUNT);
    assert_eq!(c.get_ttl(&DataKey::Contract(cid)), Some(0));
    assert!(c.entry_accessible(&DataKey::Contract(cid)));
    assert!(c.get_contract(cid).is_ok());
    assert_eq!(c.get_ttl(&DataKey::Contract(cid)), Some(REGISTRY_BUMP_AMOUNT));
}

#[test]
fn archived_entries_are_reported_inaccessible() {
    let mut c = setup();
    let admin = address("admin");
    let stranger = address("stranger");
    c.init(admin.clone(), 1000).unwrap();
    let cid = [65u8; 32];
    c.register_contract(admin.clone(), cid, make_meta("Archived", &admin)).unwrap();
    c.submit_event(admin.clone(), make_input(&cid)).unwrap();
    c.set_ledger(REGISTRY_BUMP_AMOUNT + 1);
    // Registry entry, its history and the ring slot have all lapsed.
    assert!(!c.entry_accessible(&DataKey::Contract(cid)));
    assert!(!c.entry_accessible(&DataKey::ContractVersion(VersionKey { contract_id: cid, abi_version: 0 })));
    assert!(!c.event_accessible(0));
    assert!(!c.page_accessible(0, 10));
    assert!(!c.register_accessible(&admin, cid, &make_meta("Archived", &admin)));
    assert!(!c.deregister_accessible(cid));
    assert!(!c.resize_accessible(&admin, 2000));
    // Calls refused before they reach an archived entry touch nothing.
    assert!(c.register_accessible(&stranger, cid, &make_meta("Archived", &admin)));
    assert!(c.resize_accessible(&stranger, 2000));
    assert!(c.resize_accessible(&admin, 10));
    assert!(c.page_accessible(0, 0));
    // Absent entries and the instance storage are always accessible.
    assert!(c.entry_accessible(&DataKey::Contract([66u8; 32])));
    assert!(c.entry_accessible(&DataKey::Admin));
    assert!(c.event_accessible(1));
    assert!(c.submit_accessible(&admin, &make_input(&cid)));
    c.pause(admin.clone()).unwrap();
    assert!(c.deregister_accessible(cid));
    assert!(c.update_accessible(&admin, cid, &make_meta("Archived", &admin)));
}

#[test]
fn cap_hit_is_not_emitted_before_the_ring_is_full() {
    let mut c = setup();
    let admin = address("admin");
    c.init(admin.clone(), 2).unwrap();
    c.submit_event(admin.clone(), make_input(&[3u8; 32])).unwrap();
    c.submit_event(admin.clone(), make_input(&[3u8; 32])).unwrap();
    assert!(!c.published_events().iter().any(|e| matches!(e, ExplorerEvent::CapacityHit { .. })));
    c.submit_event(admin.clone(), make_input(&[3u8; 32])).unwrap();
    let n = c.published_events().len();
    assert_eq!(c.published_events()[n - 2], ExplorerEvent::CapacityHit { evicted_seq: 0, seq: 2 });
    assert_eq!(c.get_event(0), Err(Error::NotFound));
    assert_eq!(c.get_event(2).unwrap().seq, 2);
}

#[test]
fn uninitialised_explorer_reads_defaults() {
    let mut c = setup();
    assert_eq!(c.storage_utilisation(), (0, DEFAULT_MAX_EVENTS));
    assert!(!c.is_paused());
    assert_eq!(c.event_count(), 0);
    assert_eq!(c.get_event(0), Err(Error::NotFound));
    assert_eq!(c.get_events(0, 10), Ok(Vec::new()));
    assert_eq!(c.accept_admin(address("x")), Err(Error::NotFound));
    assert_eq!(c.get_ttl(&DataKey::Contract([0u8; 32])), None);
    assert_eq!(
        c.get_ttl(&DataKey::ContractVersion(VersionKey { contract_id: [0u8; 32], abi_version: 0 })),
        None
    );
    // Init with 0 selects the default capacity.
    c.init(address("admin"), 0).unwrap();
    assert_eq!(c.storage_utilisation(), (0, DEFAULT_MAX_EVENTS));
}

#[test]
fn ttl_is_kept_while_above_threshold() {
    let mut c = setup();
    let admin = address("admin");
    c.init(admin.clone(), 0).unwrap();
    c.set_ledger(1000);
    c.pause(admin.clone()).unwrap();
    // Still more than the threshold left: no extension.
    assert_eq!(c.get_ttl(&DataKey::Admin), Some(INSTANCE_BUMP_AMOUNT - 1000));
}

#[test]
fn error_codes_match_the_interface() {
    assert_eq!(Error::NotFound.code(), 1);
    assert_eq!(Error::Unauthorized.code(), 2);
    assert_eq!(Error::AlreadyExists.code(), 3);
    assert_eq!(Error::BelowFloor.code(), 4);
    assert_eq!(Error::ContractPaused.code(), 5);
    assert_eq!(Error::InvalidInput.code(), 6);
    assert_eq!(Error::Unsupported.code(), 7);
}

// ── Persistence ───────────────────────────────────────────────────────────

#[test]
fn snapshot_round_trip_keeps_storage() {
    let mut c = setup();
    let admin = address("admin");
    c.init(admin.clone(), 5).unwrap();
    let cid = [4u8; 32];
    c.register_contract(admin.clone(), cid, make_meta("Kept", &admin)).unwrap();
    for _ in 0..7 {
        c.submit_event(admin.clone(), make_input(&cid)).unwrap();
    }
    c.transfer_admin(admin.clone(), address("next")).unwrap();
    let snap = c.snapshot();
    let mut back = ExplorerContract::restore(snap.clone()).expect("consistent snapshot");
    assert!(back.published_events().is_empty());
    assert_eq!(back.get_contract(cid), c.get_contract(cid));
    assert_eq!(back.storage_utilisation(), c.storage_utilisation());
    assert_eq!(back.get_events(0, 100), c.get_events(0, 100));
    assert_eq!(back.get_ttl(&DataKey::Admin), c.get_ttl(&DataKey::Admin));
    back.accept_admin(address("next")).unwrap();
    back.submit_event(address("next"), make_input(&cid)).unwrap();
    assert_eq!(back.get_event(7).unwrap().seq, 7);
}

#[test]
fn restore_rejects_inconsistent_snapshots() {
    let mut c = setup();
    let admin = address("admin");
    c.init(admin.clone(), 0).unwrap();
    let cid = [4u8; 32];
    c.register_contract(admin.clone(), cid, make_meta("Kept", &admin)).unwrap();
    c.submit_event(admin.clone(), make_input(&cid)).unwrap();
    let snap = c.snapshot();
    assert!(ExplorerContract::restore(snap.clone()).is_some());

    // A repeated key.
    let mut dup = snap.clone();
    let first = dup.contracts[0].clone();
    dup.contracts.push(first);
    assert!(ExplorerContract::restore(dup).is_none());

    // A registry entry that is not in its history.
    let mut orphan = snap.clone();
    orphan.versions.clear();
    orphan.version_lifetimes.clear();
    assert!(ExplorerContract::restore(orphan).is_none());

    // A lifetime without an entry.
    let mut stray = snap.clone();
    stray.slot_lifetimes.push((99, 1));
    assert!(ExplorerContract::restore(stray).is_none());

    // An event numbered beyond the counter.
    let mut future = snap.clone();
    future.event_seq = 0;
    assert!(ExplorerContract::restore(future).is_none());

    // A retained event missing from the ring.
    let mut gap = snap.clone();
    gap.slots.clear();
    gap.slot_lifetimes.clear();
    assert!(ExplorerContract::restore(gap.clone()).is_none());
    // ... which is consistent once the event is no longer counted as retained.
    gap.retained_from = 1;
    let emptied = ExplorerContract::restore(gap).expect("consistent snapshot");
    assert_eq!(emptied.event_count(), 0);

    // A slot that its event's sequence number does not map to.
    let mut moved = snap.clone();
    moved.slots[0].0 = 1;
    moved.slot_lifetimes[0].0 = 1;
    assert!(ExplorerContract::restore(moved).is_none());

    // A retained window that starts after the counter.
    let mut ahead = snap.clone();
    ahead.retained_from = 2;
    assert!(ExplorerContract::restore(ahead).is_none());

    // Invalid stored metadata.
    let mut invalid = snap.clone();
    invalid.contracts[0].1.name = String::new();
    assert!(ExplorerContract::restore(invalid).is_none());

    // A zero capacity.
    let mut zero = snap.clone();
    zero.max_events = 0;
    assert!(ExplorerContract::restore(zero).is_none());

    // Registry entries without an admin.
    let mut headless = snap;
    headless.admin = None;
    assert!(ExplorerContract::restore(headless).is_none());
}

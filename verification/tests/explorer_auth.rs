use octraban::common::Address;
use octraban::explorer::contract::ExplorerContract;
use octraban::explorer::types::{ContractMeta, Error, EventInput};

fn address(tag: &str) -> Address {
    Address::from_strkey(format!("G{:0>55}", tag))
}

fn setup_with_admin() -> (ExplorerContract, Address) {
    let mut client = ExplorerContract::new();
    let admin = address("admin");
    client.init(admin.clone(), 0u32).unwrap();
    (client, admin)
}

fn make_meta(registrant: &Address) -> ContractMeta {
    ContractMeta {
        version: 1,
        abi_version: 0,
        min_ledger: 0,
        name: String::from("Test"),
        description: String::from("desc"),
        functions: Vec::new(),
        registered_by: registrant.clone(),
    }
}

fn make_input() -> EventInput {
    EventInput {
        contract_id: [0u8; 32],
        function: String::from("fn1"),
        ledger: 1u32,
        description: String::from("d"),
        raw_topics: Vec::new(),
        raw_data: Vec::new(),
    }
}

// 1. register_contract on behalf of an address that is not the admin.
#[test]
fn test_register_wrong_auth() {
    let (mut client, _admin) = setup_with_admin();
    let a = address("a");
    let cid = [1u8; 32];
    let meta = make_meta(&a);
    assert_eq!(client.register_contract(a.clone(), cid, meta), Err(Error::Unauthorized));
}

// 2. update_contract by stranger → Unauthorized
#[test]
fn test_update_by_stranger() {
    let (mut client, admin) = setup_with_admin();
    let registrant = address("registrant");
    let stranger = address("stranger");
    let cid = [2u8; 32];
    let meta = make_meta(&registrant);
    client.register_contract(admin.clone(), cid, meta.clone()).unwrap();

    let meta2 = ContractMeta { version: 2, abi_version: 1, ..meta };
    assert_eq!(client.update_contract(stranger, cid, meta2), Err(Error::Unauthorized));
}

// 3. Admin can update any contract regardless of registrant
#[test]
fn test_admin_can_update_any() {
    let (mut client, admin) = setup_with_admin();
    let registrant = address("registrant");
    let cid = [3u8; 32];
    let meta = make_meta(&registrant);
    client.register_contract(admin.clone(), cid, meta.clone()).unwrap();

    let meta2 = ContractMeta { version: 2, abi_version: 1, ..meta };
    client.update_contract(admin.clone(), cid, meta2).unwrap();
    assert_eq!(client.get_contract(cid).unwrap().version, 2u32);
}

// 4. Registrant can update their own contract
#[test]
fn test_registrant_can_update_own() {
    let (mut client, admin) = setup_with_admin();
    let registrant = address("registrant");
    let cid = [4u8; 32];
    let meta = make_meta(&registrant);
    client.register_contract(admin.clone(), cid, meta.clone()).unwrap();

    let meta2 = ContractMeta { version: 2, abi_version: 1, ..meta };
    client.update_contract(registrant.clone(), cid, meta2).unwrap();
    assert_eq!(client.get_contract(cid).unwrap().version, 2u32);
}

// 5. submit_event called by non-admin → Unauthorized
#[test]
fn test_submit_event_non_admin() {
    let (mut client, _admin) = setup_with_admin();
    let stranger = address("stranger");
    assert_eq!(client.submit_event(stranger, make_input()), Err(Error::Unauthorized));
}

// 6. init called twice → AlreadyExists error
#[test]
fn test_double_init() {
    let mut client = ExplorerContract::new();
    let admin = address("admin");
    client.init(admin.clone(), 0u32).unwrap();
    assert_eq!(client.init(admin.clone(), 0u32), Err(Error::AlreadyExists));
}

// 7. set_max_events by non-admin → Unauthorized
#[test]
fn test_set_max_events_non_admin() {
    let (mut client, _admin) = setup_with_admin();
    let stranger = address("stranger");
    assert_eq!(client.set_max_events(stranger, 2000u32), Err(Error::Unauthorized));
}

// 8. deregister by registrant succeeds
#[test]
fn test_deregister_by_registrant() {
    let (mut client, admin) = setup_with_admin();
    let registrant = address("registrant");
    let cid = [10u8; 32];
    client.register_contract(admin.clone(), cid, make_meta(&registrant)).unwrap();
    client.deregister_contract(registrant.clone(), cid).unwrap();
}

// 9. deregister by admin succeeds
#[test]
fn test_deregister_by_admin() {
    let (mut client, admin) = setup_with_admin();
    let registrant = address("registrant");
    let cid = [11u8; 32];
    client.register_contract(admin.clone(), cid, make_meta(&registrant)).unwrap();
    client.deregister_contract(admin.clone(), cid).unwrap();
}

// 10. deregister by stranger → Unauthorized
#[test]
fn test_deregister_by_stranger() {
    let (mut client, admin) = setup_with_admin();
    let registrant = address("registrant");
    let stranger = address("stranger");
    let cid = [12u8; 32];
    client.register_contract(admin.clone(), cid, make_meta(&registrant)).unwrap();
    assert_eq!(client.deregister_contract(stranger, cid), Err(Error::Unauthorized));
}

// 11. init with custom cap is respected
#[test]
fn test_init_custom_cap() {
    let mut client = ExplorerContract::new();
    let admin = address("admin");
    client.init(admin.clone(), 1000u32).unwrap();
    let (_, max) = client.storage_utilisation();
    assert_eq!(max, 1000u32);
}

// 12. pause by non-admin → Unauthorized
#[test]
fn test_pause_non_admin() {
    let (mut client, _admin) = setup_with_admin();
    let stranger = address("stranger");
    assert_eq!(client.pause(stranger), Err(Error::Unauthorized));
}

// 13. unpause by non-admin → Unauthorized
#[test]
fn test_unpause_non_admin() {
    let (mut client, admin) = setup_with_admin();
    client.pause(admin.clone()).unwrap();
    let stranger = address("stranger");
    assert_eq!(client.unpause(stranger), Err(Error::Unauthorized));
    assert!(client.is_paused());
}

// 14. admin can pause and unpause
#[test]
fn test_admin_pause_unpause() {
    let (mut client, admin) = setup_with_admin();
    assert!(!client.is_paused());
    client.pause(admin.clone()).unwrap();
    assert!(client.is_paused());
    client.unpause(admin.clone()).unwrap();
    assert!(!client.is_paused());
}

// 15. register_contract while paused → ContractPaused
#[test]
fn test_register_while_paused() {
    let (mut client, admin) = setup_with_admin();
    client.pause(admin.clone()).unwrap();
    let cid = [20u8; 32];
    assert_eq!(
        client.register_contract(admin.clone(), cid, make_meta(&admin)),
        Err(Error::ContractPaused)
    );
}

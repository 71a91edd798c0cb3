use octraban::ring::{Ring, SLOT_LIMIT};

#[test]
fn ring_stores_and_reads_back_by_slot() {
    let mut r: Ring<u32> = Ring::new();
    assert_eq!(r.get_copy(3), None);
    r.insert(3, 30);
    r.insert(0, 7);
    r.insert(3, 31);
    assert!(r.contains(3));
    assert!(!r.contains(1));
    assert_eq!(r.get_copy(3), Some(31));
    assert_eq!(r.get_copy(0), Some(7));
    assert_eq!(r.get_copy(100), None);
    assert_eq!(r.to_entries(), vec![(0, 7), (3, 31)]);
}

#[test]
fn ring_rebuilds_from_its_entries() {
    let r = Ring::<u32>::from_entries(&vec![(5, 50), (2, 20)]).expect("distinct slots");
    assert_eq!(r.to_entries(), vec![(2, 20), (5, 50)]);
    assert!(Ring::<u32>::from_entries(&vec![(5, 50), (5, 51)]).is_none());
    assert!(Ring::<u32>::from_entries(&vec![(SLOT_LIMIT, 1)]).is_none());
    assert!(Ring::<u32>::from_entries(&Vec::new()).unwrap().to_entries().is_empty());
}

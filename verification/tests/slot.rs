use blobwar::movement::Movement;
use blobwar::shmem::{
    decode, encode, Published, SharedSlot, EMPTY_RECORD, MOVE_RECORD, NO_MOVE_RECORD,
};

#[test]
fn records_have_their_fixed_values() {
    assert_eq!(encode(Published::Nothing), 0);
    assert_eq!(encode(Published::NoMove), 65536);
    assert_eq!(encode(Published::Move(Movement::new(0, 0))), 131072);
    assert_eq!(encode(Published::Move(Movement::new(3, 7))), 131847);
    assert_eq!(encode(Published::Move(Movement::new(255, 255))), 196607);
    assert_eq!(EMPTY_RECORD, 0);
    assert_eq!(NO_MOVE_RECORD, 0x1_0000);
    assert_eq!(MOVE_RECORD, 0x2_0000);
}

#[test]
fn every_record_reads_back() {
    assert_eq!(decode(encode(Published::Nothing)), Some(Published::Nothing));
    assert_eq!(decode(encode(Published::NoMove)), Some(Published::NoMove));
    for origin in 0..=255u8 {
        for target in 0..=255u8 {
            let published = Published::Move(Movement::new(origin, target));
            assert_eq!(decode(encode(published)), Some(published));
        }
    }
}

#[test]
fn corrupt_records_are_refused() {
    assert_eq!(decode(1), None);
    assert_eq!(decode(65535), None);
    assert_eq!(decode(65537), None);
    assert_eq!(decode(131071), None);
    assert_eq!(decode(196608), None);
    assert_eq!(decode(u32::MAX), None);
    assert!(SharedSlot::from_record(7).is_none());
    assert!(SharedSlot::from_record(0x3_0000).is_none());
}

#[test]
fn a_read_record_is_the_only_one_of_its_value() {
    for record in [0u32, 65536, 131072, 131847, 150000, 196607] {
        let published = decode(record).unwrap();
        assert_eq!(encode(published), record);
    }
}

#[test]
fn a_new_slot_holds_nothing() {
    let slot = SharedSlot::new();
    assert_eq!(slot.published(), Published::Nothing);
    assert_eq!(slot.load(), None);
    assert_eq!(slot.record(), 0);
}

#[test]
fn load_returns_what_was_stored_last() {
    let mut slot = SharedSlot::new();
    let first = Movement::new(1, 2);
    slot.store(Some(first));
    assert_eq!(slot.load(), Some(first));
    assert_eq!(slot.published(), Published::Move(first));
    slot.store(None);
    assert_eq!(slot.load(), None);
    assert_eq!(slot.published(), Published::NoMove);
    assert_ne!(slot.published(), Published::Nothing);
    assert_eq!(slot.record(), 65536);
    let second = Movement::new(40, 41);
    slot.store(Some(second));
    assert_eq!(slot.load(), Some(second));
    assert_eq!(slot.record(), 131072 + 40 * 256 + 41);
}

#[test]
fn many_stores_never_show_anything_but_a_stored_value() {
    let mut slot = SharedSlot::new();
    for round in 0..10_000u32 {
        let stored = if round % 5 == 0 {
            None
        } else {
            Some(Movement::new((round % 251) as u8, (round % 241) as u8))
        };
        slot.store(stored);
        // The record is what a reader in another process gets, whole.
        let seen = SharedSlot::from_record(slot.record()).unwrap();
        assert_eq!(seen.load(), stored);
        assert_eq!(seen.published(), slot.published());
        assert_ne!(seen.published(), Published::Nothing);
    }
}

#[test]
fn a_slot_is_rebuilt_from_its_record() {
    let slot = SharedSlot::from_record(131847).unwrap();
    assert_eq!(slot.load(), Some(Movement::new(3, 7)));
    let none = SharedSlot::from_record(65536).unwrap();
    assert_eq!(none.published(), Published::NoMove);
    let empty = SharedSlot::from_record(0).unwrap();
    assert_eq!(empty.published(), Published::Nothing);
    assert_eq!(empty.load(), None);
}

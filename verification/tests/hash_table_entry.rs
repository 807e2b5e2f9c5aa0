use lib::hash_table::{HashTableEntry, BOUND_EXACT, BOUND_LOWER};
use lib::moves::MoveDigest;
use lib::stock::std_hash_table_entry::StdHashTableEntry;
use lib::value::VALUE_UNKNOWN;

#[test]
fn new_entry_has_no_move_and_unknown_eval() {
    let e = StdHashTableEntry::new(-150, BOUND_LOWER, 7);
    assert_eq!(e.value(), -150);
    assert_eq!(e.bound(), BOUND_LOWER);
    assert_eq!(e.depth(), 7);
    assert_eq!(e.move_digest(), MoveDigest::invalid());
    assert_eq!(e.static_eval(), VALUE_UNKNOWN);
}

#[test]
fn setters_change_one_field() {
    let e = StdHashTableEntry::new(42, BOUND_EXACT, -3);
    let e = e.set_move_digest(MoveDigest(0x1234));
    assert_eq!(e.move_digest(), MoveDigest(0x1234));
    assert_eq!(e.value(), 42);
    assert_eq!(e.bound(), BOUND_EXACT);
    assert_eq!(e.depth(), -3);
    assert_eq!(e.static_eval(), VALUE_UNKNOWN);
    let e = e.set_static_eval(-77);
    assert_eq!(e.static_eval(), -77);
    assert_eq!(e.move_digest(), MoveDigest(0x1234));
    assert_eq!(e.value(), 42);
    assert_eq!(e.bound(), BOUND_EXACT);
    assert_eq!(e.depth(), -3);
}

use shopbot::idset::IdSet;
use shopbot::session::{join_selected, parse_selected};
use shopbot::types::ItemId;

#[test]
fn parse_selected_empty() {
    let set = parse_selected("");
    assert!(set.is_empty());
}

#[test]
fn join_selected_sorts() {
    let mut set = IdSet::new();
    set.insert(ItemId(5));
    set.insert(ItemId(3));
    set.insert(ItemId(7));
    assert_eq!(join_selected(&set), "3,5,7");
}

#[test]
fn parse_join_roundtrip() {
    let mut original = IdSet::new();
    original.insert(ItemId(2));
    original.insert(ItemId(1));
    original.insert(ItemId(9));
    let joined = join_selected(&original);
    let parsed = parse_selected(&joined);
    assert_eq!(parsed.len(), 3);
    assert!(parsed.contains(ItemId(1)));
    assert!(parsed.contains(ItemId(2)));
    assert!(parsed.contains(ItemId(9)));
    assert_eq!(join_selected(&parsed), joined);
}

#[test]
fn parse_join_roundtrip_negative_and_empty() {
    let empty = IdSet::new();
    assert_eq!(join_selected(&empty), "");
    assert!(parse_selected(&join_selected(&empty)).is_empty());

    let mut set = IdSet::new();
    set.insert(ItemId(-4));
    set.insert(ItemId(0));
    set.insert(ItemId(123));
    let joined = join_selected(&set);
    assert_eq!(joined, "-4,0,123");
    let parsed = parse_selected(&joined);
    assert!(parsed.contains(ItemId(-4)));
    assert!(parsed.contains(ItemId(0)));
    assert!(parsed.contains(ItemId(123)));
    assert_eq!(parsed.len(), 3);
}

#[test]
fn parse_selected_skips_garbage() {
    let parsed = parse_selected("7,x,,12,9999999999999999999999");
    assert_eq!(parsed.len(), 2);
    assert!(parsed.contains(ItemId(7)));
    assert!(parsed.contains(ItemId(12)));
}

#[test]
fn toggle_even_times_restores_selection() {
    let mut set = IdSet::new();
    set.insert(ItemId(4));
    assert!(set.contains(ItemId(4)));
    // Two toggles of the same id land back on the original selection.
    set.toggle(ItemId(9));
    set.toggle(ItemId(9));
    assert!(set.contains(ItemId(4)));
    assert!(!set.contains(ItemId(9)));
    assert_eq!(set.len(), 1);
    // An odd number flips membership exactly once.
    set.toggle(ItemId(9));
    assert!(set.contains(ItemId(9)));
    set.toggle(ItemId(4));
    set.toggle(ItemId(4));
    set.toggle(ItemId(4));
    assert!(!set.contains(ItemId(4)));
    assert_eq!(set.len(), 1);
}

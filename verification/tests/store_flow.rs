use shopbot::items::ItemStore;
use shopbot::pointer::PointerStore;
use shopbot::types::{ChatKey, ItemId};

#[test]
fn basic_item_flow() {
    let mut store = ItemStore::new();
    let chat = ChatKey(1);

    let a = store.add_item(chat, "Milk");
    let b = store.add_item(chat, "Eggs");
    assert_ne!(a.id, b.id);

    let items = store.list_items(chat);
    assert_eq!(items.len(), 2);
    assert_eq!(items[0].text, "Milk");
    assert!(!items[0].done);
    assert_eq!(items[1].text, "Eggs");

    assert_eq!(store.toggle_item(chat, a.id), 1);
    let items = store.list_items(chat);
    assert!(items[0].done);
    assert!(!items[1].done);

    assert_eq!(store.delete_item(chat, a.id), 1);
    let items = store.list_items(chat);
    assert_eq!(items.len(), 1);
    assert_eq!(items[0].text, "Eggs");
}

#[test]
fn toggle_different_chat_has_no_effect() {
    let mut store = ItemStore::new();
    let chat_a = ChatKey(1);
    let chat_b = ChatKey(2);
    let item = store.add_item(chat_a, "Milk");

    assert_eq!(store.toggle_item(chat_b, item.id), 0);
    let items = store.list_items(chat_a);
    assert_eq!(items.len(), 1);
    assert!(!items[0].done);
}

#[test]
fn delete_different_chat_has_no_effect() {
    let mut store = ItemStore::new();
    let chat_a = ChatKey(1);
    let chat_b = ChatKey(2);
    let item = store.add_item(chat_a, "Milk");

    assert_eq!(store.delete_item(chat_b, item.id), 0);
    assert_eq!(store.list_items(chat_a).len(), 1);
}

#[test]
fn delete_multiple_different_chat_has_no_effect() {
    let mut store = ItemStore::new();
    let chat_a = ChatKey(1);
    let chat_b = ChatKey(2);
    let x = store.add_item(chat_a, "Milk");
    let y = store.add_item(chat_a, "Eggs");

    assert_eq!(store.delete_items(chat_b, &vec![x.id, y.id]), 0);
    assert_eq!(store.list_items(chat_a).len(), 2);
}

#[test]
fn delete_multiple_items() {
    let mut store = ItemStore::new();
    let chat = ChatKey(5);
    let a = store.add_item(chat, "One");
    let _b = store.add_item(chat, "Two");
    let c = store.add_item(chat, "Three");

    assert_eq!(store.delete_items(chat, &vec![a.id, c.id]), 2);
    let left = store.list_items(chat);
    assert_eq!(left.len(), 1);
    assert_eq!(left[0].text, "Two");

    // Empty input is a no-op returning 0, not an error.
    assert_eq!(store.delete_items(chat, &Vec::new()), 0);
    assert_eq!(store.list_items(chat).len(), 1);

    // Ids already gone are no-ops.
    assert_eq!(store.delete_items(chat, &vec![a.id]), 0);
}

#[test]
fn delete_all_clears_only_that_list() {
    let mut store = ItemStore::new();
    let chat_a = ChatKey(1);
    let chat_b = ChatKey(2);
    store.add_item(chat_a, "Milk");
    store.add_item(chat_a, "Eggs");
    store.add_item(chat_b, "Keep");

    assert_eq!(store.delete_all(chat_a), 2);
    assert!(store.list_items(chat_a).is_empty());
    assert_eq!(store.list_items(chat_b).len(), 1);
}

#[test]
fn ids_are_never_reused() {
    let mut store = ItemStore::new();
    let chat = ChatKey(1);
    let a = store.add_item(chat, "Milk");
    assert_eq!(store.delete_item(chat, a.id), 1);
    let b = store.add_item(chat, "Eggs");
    assert_ne!(a.id, b.id);
    assert!(b.id.0 > a.id.0);
}

#[test]
fn last_message_id_roundtrip() {
    let mut ptrs = PointerStore::new();
    let chat = ChatKey(1);
    assert_eq!(ptrs.get(chat), None);
    ptrs.set(chat, 99);
    assert_eq!(ptrs.get(chat), Some(99));
    ptrs.clear(chat);
    assert_eq!(ptrs.get(chat), None);
}

#[test]
fn pointer_replace_not_append() {
    let mut ptrs = PointerStore::new();
    let chat = ChatKey(3);
    let other = ChatKey(4);
    ptrs.set(other, 7);
    // N consecutive fresh-list sends: exactly one pointer remains, the
    // most recent send.
    for m in 10..20 {
        ptrs.set(chat, m);
    }
    assert_eq!(ptrs.get(chat), Some(19));
    assert_eq!(ptrs.get(other), Some(7));
}

#[test]
fn item_id_conversions() {
    let id: ItemId = ItemId::from(12i64);
    let raw: i64 = i64::from(id);
    assert_eq!(raw, 12);
    let chat: ChatKey = ChatKey::from(-3i64);
    assert_eq!(i64::from(chat), -3);
}

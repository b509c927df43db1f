use shopbot::idset::IdSet;
use shopbot::items::Item;
use shopbot::present::{format_delete_list, format_list, format_plain_list};
use shopbot::types::ItemId;

fn sample_items() -> Vec<Item> {
    vec![
        Item {
            id: ItemId(1),
            text: "Apples".to_string(),
            done: false,
        },
        Item {
            id: ItemId(2),
            text: "Milk".to_string(),
            done: true,
        },
    ]
}

fn all_done_items() -> Vec<Item> {
    vec![
        Item {
            id: ItemId(1),
            text: "Apples".to_string(),
            done: true,
        },
        Item {
            id: ItemId(2),
            text: "Milk".to_string(),
            done: true,
        },
    ]
}

#[test]
fn test_format_list() {
    let items = sample_items();
    let (text, keyboard) = format_list(&items);

    assert_eq!(text, "🛒 Apples\n✅ Milk\n");

    let labels: Vec<&str> = keyboard.iter().map(|c| c.label.as_str()).collect();
    assert_eq!(labels, vec!["Apples", "✅ Milk"]);

    let data: Vec<&str> = keyboard.iter().map(|c| c.data.as_str()).collect();
    assert_eq!(data, vec!["1", "2"]);
}

#[test]
fn test_format_delete_list() {
    let items = sample_items();
    let mut selected = IdSet::new();
    selected.insert(ItemId(1));
    let (text, keyboard) = format_delete_list(&items, &selected);

    assert_eq!(text, "Select items to delete, then tap 'Done Deleting'.");

    let labels: Vec<&str> = keyboard.iter().map(|c| c.label.as_str()).collect();
    assert_eq!(labels, vec!["☑️ Apples", "❌ Milk", "✅ Done Deleting"]);

    let data: Vec<&str> = keyboard.iter().map(|c| c.data.as_str()).collect();
    assert_eq!(data, vec!["delete_1", "delete_2", "delete_done"]);
}

#[test]
fn test_format_plain_list() {
    let items = sample_items();
    let text = format_plain_list(&items);
    assert_eq!(text, "• Apples\n• Milk\n");
}

#[test]
fn test_format_list_all_done() {
    let items = all_done_items();
    let (text, _keyboard) = format_list(&items);
    assert!(text.ends_with("✅ All items checked off.\n"));
}

#[test]
fn format_list_not_all_done_has_no_trailer() {
    let items = vec![
        Item {
            id: ItemId(1),
            text: "Tea".to_string(),
            done: true,
        },
        Item {
            id: ItemId(2),
            text: "Jam".to_string(),
            done: false,
        },
    ];
    let (text, _) = format_list(&items);
    assert_eq!(text, "✅ Tea\n🛒 Jam\n");
    assert!(!text.contains("All items checked off"));
}

#[test]
fn format_list_empty_is_empty() {
    let (text, keyboard) = format_list(&Vec::new());
    assert_eq!(text, "");
    assert!(keyboard.is_empty());
}

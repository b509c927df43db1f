use shopbot::config::prepare_sqlite_url;
use shopbot::items::ItemStore;
use shopbot::messages::{delete_dm_text, delete_user_selecting_text};
use shopbot::sysinfo::get_system_info;
use shopbot::types::ChatKey;
use shopbot::voice::{capitalize_all, delete_matching_items, voice_command_from_parts,
    VoiceCommand};

#[test]
fn prepare_sqlite_url_basic() {
    assert_eq!(
        prepare_sqlite_url("sqlite:items.db"),
        "sqlite:items.db?mode=rwc"
    );
}

#[test]
fn prepare_sqlite_url_with_query() {
    assert_eq!(
        prepare_sqlite_url("sqlite:items.db?cache=shared"),
        "sqlite:items.db?cache=shared&mode=rwc"
    );
}

#[test]
fn prepare_sqlite_url_existing_mode() {
    assert_eq!(
        prepare_sqlite_url("sqlite:items.db?mode=ro"),
        "sqlite:items.db?mode=ro"
    );
}

#[test]
fn prepare_sqlite_url_memory() {
    assert_eq!(prepare_sqlite_url("sqlite::memory:"), "sqlite::memory:");
}

#[test]
fn delete_matching_multiple() {
    let mut store = ItemStore::new();
    let chat = ChatKey(1);
    for _ in 0..3 {
        store.add_item(chat, "Item");
    }

    let mut current = store.list_items(chat);
    let wanted = vec!["Item".to_string(), "Item".to_string(), "Item".to_string()];
    let deleted = delete_matching_items(&mut store, chat, &mut current, &wanted);
    assert_eq!(deleted.len(), 3);
    assert!(current.is_empty());
    assert!(store.list_items(chat).is_empty());
}

#[test]
fn delete_matching_partial() {
    let mut store = ItemStore::new();
    let chat = ChatKey(1);
    store.add_item(chat, "Apple");
    store.add_item(chat, "Banana");
    store.add_item(chat, "Carrot");

    let mut current = store.list_items(chat);
    let wanted = vec!["Banana".to_string(), "Carrot".to_string()];
    let deleted = delete_matching_items(&mut store, chat, &mut current, &wanted);

    assert_eq!(deleted, vec!["Banana".to_string(), "Carrot".to_string()]);
    assert_eq!(current.len(), 1);
    assert_eq!(current[0].text, "Apple");

    let remaining = store.list_items(chat);
    assert_eq!(remaining.len(), 1);
    assert_eq!(remaining[0].text, "Apple");
}

#[test]
fn delete_matching_normalizes_quantities_and_case() {
    let mut store = ItemStore::new();
    let chat = ChatKey(1);
    store.add_item(chat, "2 Apples");

    let mut current = store.list_items(chat);
    let wanted = vec!["apples".to_string()];
    let deleted = delete_matching_items(&mut store, chat, &mut current, &wanted);
    assert_eq!(deleted, vec!["2 Apples".to_string()]);
    assert!(store.list_items(chat).is_empty());
}

#[test]
fn voice_command_prefers_delete() {
    let cmd = voice_command_from_parts(
        Some(vec!["tea".to_string()]),
        Some(vec!["✅ coffee".to_string(), "  ".to_string()]),
    );
    match cmd {
        VoiceCommand::Delete(items) => assert_eq!(items, vec!["coffee".to_string()]),
        _ => panic!("expected a delete command"),
    }

    let cmd = voice_command_from_parts(Some(vec!["tea".to_string()]), None);
    match cmd {
        VoiceCommand::Add(items) => assert_eq!(items, vec!["tea".to_string()]),
        _ => panic!("expected an add command"),
    }

    let cmd = voice_command_from_parts(None, None);
    match cmd {
        VoiceCommand::Add(items) => assert!(items.is_empty()),
        _ => panic!("expected an add command"),
    }
}

#[test]
fn capitalize_all_capitalizes_each() {
    let items = vec!["milk".to_string(), "".to_string(), "éclair".to_string()];
    assert_eq!(
        capitalize_all(&items),
        vec!["Milk".to_string(), "".to_string(), "Éclair".to_string()]
    );
}

#[test]
fn test_get_system_info() {
    let info = get_system_info("shopbot", "abc123def0", true, None, "", "");
    assert!(info.contains("abc123def0"));
    assert!(info.contains("Dev build") || info.contains("Release build"));
    assert!(info.contains("release") || info.contains("development"));
}

#[test]
fn test_system_info_contains_commit_and_profile() {
    let info = get_system_info("shopbot", "abc123def0", false, Some("1.4.0"), "", "");
    assert!(info.contains("abc123def0"));
    assert!(info.contains("Dev build") || info.contains("Release build"));
    assert!(info.contains("release") || info.contains("commits ahead of"));
    assert_eq!(info, "shopbot - release 1.4.0\nCommit: abc123def0\nRelease build");
}

#[test]
fn system_info_development_branch_lines() {
    let dev = get_system_info("shopbot", "c0ffee", true, None, "v1.2", "4");
    assert_eq!(
        dev,
        "shopbot - development branch 4 commits ahead of v1.2\nCommit: c0ffee\nDev build"
    );
    let ahead = get_system_info("shopbot", "c0ffee", true, None, "v1.2", "");
    assert_eq!(
        ahead,
        "shopbot - development branch ahead of v1.2\nCommit: c0ffee\nDev build"
    );
    let bare = get_system_info("shopbot", "c0ffee", true, None, "", "");
    assert_eq!(bare, "shopbot - development\nCommit: c0ffee\nDev build");
}

#[test]
fn message_templates_fill_in() {
    assert_eq!(
        delete_dm_text("Family", "pick items"),
        "Deleting items from Family.\n\npick items"
    );
    assert_eq!(
        delete_user_selecting_text("Ana"),
        "Ana is selecting items to delete..."
    );
}

use shopbot::items::ItemStore;
use shopbot::pointer::PointerStore;
use shopbot::session::SessionStore;
use shopbot::types::{ChatKey, ItemId};
use shopbot::workflow::{commit_delete_session, enter_delete_mode, parse_callback_action,
    record_panel_delivery, toggle_done, toggle_selection, CallbackAction, CommitOutcome,
    EnterOutcome, ToggleOutcome};

fn setup_list(texts: &[&str]) -> (ItemStore, PointerStore, ChatKey, Vec<ItemId>) {
    let mut items = ItemStore::new();
    let mut ptrs = PointerStore::new();
    let chat = ChatKey(10);
    let mut ids = Vec::new();
    for t in texts {
        ids.push(items.add_item(chat, t).id);
    }
    ptrs.set(chat, 100);
    (items, ptrs, chat, ids)
}

#[test]
fn enter_requires_active_list() {
    let items = ItemStore::new();
    let ptrs = PointerStore::new();
    let mut sessions = SessionStore::new();
    let r = enter_delete_mode(&items, &ptrs, &mut sessions, 1, ChatKey(10), "your list");
    assert!(matches!(r, EnterOutcome::NoActiveList));
}

#[test]
fn enter_with_empty_list_creates_no_session() {
    let items = ItemStore::new();
    let mut ptrs = PointerStore::new();
    let chat = ChatKey(10);
    ptrs.set(chat, 100);
    let mut sessions = SessionStore::new();
    let r = enter_delete_mode(&items, &ptrs, &mut sessions, 1, chat, "your list");
    assert!(matches!(r, EnterOutcome::EmptyList { .. }));
    assert!(sessions.get(1).is_none());
}

#[test]
fn enter_retires_prior_session() {
    let (items, ptrs, chat, _ids) = setup_list(&["Milk"]);
    let mut sessions = SessionStore::new();
    record_panel_delivery(&mut sessions, 1, chat, 200, Some((chat.0, 201)));
    let r = enter_delete_mode(&items, &ptrs, &mut sessions, 1, chat, "Family");
    match r {
        EnterOutcome::Panel { cleanup, text, controls } => {
            // The prior session's notice and panel are retired best-effort.
            assert_eq!(cleanup, vec![(chat.0, 201), (1, 200)]);
            assert_eq!(
                text,
                "Deleting items from Family.\n\nSelect items to delete, then tap 'Done Deleting'."
            );
            assert_eq!(controls.len(), 2);
            assert_eq!(controls[0].label, "❌ Milk");
            assert_eq!(controls[1].label, "✅ Done Deleting");
        }
        _ => panic!("expected a panel"),
    }
    // No session until the panel is delivered.
    assert!(sessions.get(1).is_none());
}

#[test]
fn toggle_selection_updates_session() {
    let (items, _ptrs, chat, ids) = setup_list(&["Milk"]);
    let mut sessions = SessionStore::new();
    record_panel_delivery(&mut sessions, 1, chat, 5, None);

    let r = toggle_selection(&mut sessions, &items, 1, 5, ids[0]);
    match r {
        ToggleOutcome::Updated { text, controls } => {
            assert_eq!(text, "Select items to delete, then tap 'Done Deleting'.");
            assert_eq!(controls[0].label, "☑️ Milk");
        }
        _ => panic!("expected an update"),
    }
    let sess = sessions.get(1).expect("session should exist");
    assert!(sess.selected.contains(ids[0]));
}

#[test]
fn staleness_rejects_actions_from_old_panel() {
    let (mut items, ptrs, chat, ids) = setup_list(&["Milk", "Eggs"]);
    let mut sessions = SessionStore::new();
    record_panel_delivery(&mut sessions, 1, chat, 5, None);

    // A toggle carrying a different message reference never mutates the
    // selection.
    let r = toggle_selection(&mut sessions, &items, 1, 6, ids[0]);
    assert!(matches!(r, ToggleOutcome::Stale));
    assert!(!sessions.get(1).unwrap().selected.contains(ids[0]));

    // A commit carrying a different message reference never mutates the
    // item store either.
    let r = commit_delete_session(&mut sessions, &mut items, &ptrs, 1, 6);
    assert!(matches!(r, CommitOutcome::Stale));
    assert_eq!(items.list_items(chat).len(), 2);
    assert!(sessions.get(1).is_some());

    // A user without a session is ignored too.
    let r = toggle_selection(&mut sessions, &items, 2, 5, ids[0]);
    assert!(matches!(r, ToggleOutcome::Stale));
    let r = commit_delete_session(&mut sessions, &mut items, &ptrs, 2, 5);
    assert!(matches!(r, CommitOutcome::NoSession));
    assert_eq!(items.list_items(chat).len(), 2);
}

#[test]
fn commit_deletes_selection_and_destroys_session() {
    // Items {1,2,3}; selected = {2,3}: commit deletes 2 and 3, leaves 1,
    // and destroys the session.
    let (mut items, ptrs, chat, ids) = setup_list(&["One", "Two", "Three"]);
    let mut sessions = SessionStore::new();
    record_panel_delivery(&mut sessions, 1, chat, 5, Some((chat.0, 77)));
    toggle_selection(&mut sessions, &items, 1, 5, ids[1]);
    toggle_selection(&mut sessions, &items, 1, 5, ids[2]);

    let r = commit_delete_session(&mut sessions, &mut items, &ptrs, 1, 5);
    match r {
        CommitOutcome::Committed { deleted, update, notice, panel } => {
            assert_eq!(deleted, 2);
            assert_eq!(notice, Some((chat.0, 77)));
            assert_eq!(panel, 5);
            let (msg, text, controls) = update.expect("list has a pointer");
            assert_eq!(msg, 100);
            assert_eq!(text, "🛒 One\n");
            assert_eq!(controls.len(), 1);
        }
        _ => panic!("expected a commit"),
    }
    let left = items.list_items(chat);
    assert_eq!(left.len(), 1);
    assert_eq!(left[0].text, "One");
    assert!(sessions.get(1).is_none());
}

#[test]
fn commit_empty_selection_just_clears_session() {
    let (mut items, ptrs, chat, _ids) = setup_list(&["One"]);
    let mut sessions = SessionStore::new();
    record_panel_delivery(&mut sessions, 1, chat, 5, None);
    let r = commit_delete_session(&mut sessions, &mut items, &ptrs, 1, 5);
    match r {
        CommitOutcome::Committed { deleted, .. } => assert_eq!(deleted, 0),
        _ => panic!("expected a commit"),
    }
    assert_eq!(items.list_items(chat).len(), 1);
    assert!(sessions.get(1).is_none());
}

#[test]
fn callback_actions_decode() {
    assert!(matches!(parse_callback_action("delete_done"), CallbackAction::DeleteDone));
    assert!(matches!(
        parse_callback_action("delete_17"),
        CallbackAction::DeleteToggle(ItemId(17))
    ));
    assert!(matches!(parse_callback_action("23"), CallbackAction::ToggleDone(ItemId(23))));
    assert!(matches!(parse_callback_action("delete_x"), CallbackAction::Ignore));
    assert!(matches!(parse_callback_action("nonsense"), CallbackAction::Ignore));
}

#[test]
fn end_to_end_scenario() {
    // List starts empty; add Milk and Eggs; list shows two unchecked
    // items with one render pointer; toggle Milk (edited in place, not
    // replaced); start a delete session; select Eggs; commit; only Milk
    // remains and the session is destroyed.
    let mut items = ItemStore::new();
    let mut ptrs = PointerStore::new();
    let mut sessions = SessionStore::new();
    let chat = ChatKey(42);
    let user = 7;

    assert!(items.list_items(chat).is_empty());

    let texts = vec!["Milk".to_string(), "Eggs".to_string()];
    let (added, fresh) = shopbot::service::insert_items(&mut items, &ptrs, chat, &texts);
    assert_eq!(added, 2);
    let fresh = fresh.expect("items were added");
    assert_eq!(fresh.retire, None);
    assert_eq!(fresh.text, "🛒 Milk\n🛒 Eggs\n");
    assert_eq!(fresh.controls.len(), 2);
    // The transport sends the message; its reference becomes the pointer.
    ptrs.set(chat, 500);
    assert_eq!(ptrs.get(chat), Some(500));

    let current = items.list_items(chat);
    let milk = current[0].id;
    let eggs = current[1].id;

    let (affected, (text, _controls)) = toggle_done(&mut items, chat, milk);
    assert_eq!(affected, 1);
    assert_eq!(text, "✅ Milk\n🛒 Eggs\n");
    // Update-in-place: still exactly one pointer, unchanged.
    assert_eq!(ptrs.get(chat), Some(500));

    let r = enter_delete_mode(&items, &ptrs, &mut sessions, user, chat, "Family");
    assert!(matches!(r, shopbot::workflow::EnterOutcome::Panel { .. }));
    record_panel_delivery(&mut sessions, user, chat, 600, Some((chat.0, 601)));

    let r = toggle_selection(&mut sessions, &items, user, 600, eggs);
    assert!(matches!(r, ToggleOutcome::Updated { .. }));

    let r = commit_delete_session(&mut sessions, &mut items, &ptrs, user, 600);
    match r {
        CommitOutcome::Committed { deleted, update, notice, panel } => {
            assert_eq!(deleted, 1);
            assert_eq!(notice, Some((chat.0, 601)));
            assert_eq!(panel, 600);
            let (msg, text, _) = update.expect("pointer exists");
            assert_eq!(msg, 500);
            assert_eq!(text, "✅ Milk\n✅ All items checked off.\n");
        }
        _ => panic!("expected a commit"),
    }

    let left = items.list_items(chat);
    assert_eq!(left.len(), 1);
    assert_eq!(left[0].text, "Milk");
    assert!(sessions.get(user).is_none());
    assert_eq!(ptrs.get(chat), Some(500));
}

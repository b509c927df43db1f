use shopbot::api::{api_add, api_archive, api_delete, api_done, api_nuke, api_toggle,
    authenticate, extract_bearer_token, MutationStatus};
use shopbot::items::ItemStore;
use shopbot::pointer::PointerStore;
use shopbot::ratelimit::RateLimiter;
use shopbot::service::{archive, archive_checked, fresh_list_view, share_list_text,
    update_message_view, ArchiveCheckedOutcome, ArchiveOutcome};
use shopbot::tokens::{format_token_list, generate_token, issuer_display_name,
    parse_token_name, token_preview, TokenDisplay, TokenStore};
use shopbot::types::ChatKey;

#[test]
fn fresh_list_view_empty_and_full() {
    let mut items = ItemStore::new();
    let ptrs = PointerStore::new();
    let chat = ChatKey(1);
    let view = fresh_list_view(&items, &ptrs, chat);
    assert_eq!(view.retire, None);
    assert_eq!(view.text, "Your list is empty! Send any message to add an item.");
    assert!(view.controls.is_empty());

    items.add_item(chat, "Tea");
    let view = fresh_list_view(&items, &ptrs, chat);
    assert_eq!(view.text, "🛒 Tea\n");
    assert_eq!(view.controls.len(), 1);
}

#[test]
fn update_view_empty_state() {
    let items = ItemStore::new();
    let (text, controls) = update_message_view(&items, ChatKey(1));
    assert_eq!(text, "List is now empty!");
    assert!(controls.is_empty());
}

#[test]
fn share_list_empty_and_full() {
    let mut items = ItemStore::new();
    let chat = ChatKey(1);
    assert_eq!(share_list_text(&items, chat), "Your list is empty!");
    items.add_item(chat, "Tea");
    items.add_item(chat, "Jam");
    assert_eq!(share_list_text(&items, chat), "• Tea\n• Jam\n");
}

#[test]
fn archive_clears_data() {
    let mut items = ItemStore::new();
    let mut ptrs = PointerStore::new();
    let chat = ChatKey(1);

    // Without an active rendered list nothing happens.
    assert!(matches!(archive(&mut items, &mut ptrs, chat), ArchiveOutcome::NoActiveList));

    items.add_item(chat, "Tea");
    ptrs.set(chat, 9);
    match archive(&mut items, &mut ptrs, chat) {
        ArchiveOutcome::Archived { retire, archived_text } => {
            assert_eq!(retire, 9);
            assert_eq!(archived_text, "--- Archived List ---\n🛒 Tea\n");
        }
        _ => panic!("expected an archive"),
    }
    assert!(items.list_items(chat).is_empty());
    assert_eq!(ptrs.get(chat), None);
}

#[test]
fn archive_checked_archives_only_done() {
    let mut items = ItemStore::new();
    let mut ptrs = PointerStore::new();
    let chat = ChatKey(1);
    let a = items.add_item(chat, "Tea");
    items.add_item(chat, "Sugar");
    items.toggle_item(chat, a.id);
    ptrs.set(chat, 9);

    match archive_checked(&mut items, &mut ptrs, chat) {
        ArchiveCheckedOutcome::Partial { retire, archived_text, remaining } => {
            assert_eq!(retire, 9);
            assert_eq!(archived_text, "--- Archived List ---\n✅ Tea\n✅ All items checked off.\n");
            assert_eq!(remaining.text, "🛒 Sugar\n");
        }
        _ => panic!("expected a partial archive"),
    }
    let left = items.list_items(chat);
    assert_eq!(left.len(), 1);
    assert_eq!(left[0].text, "Sugar");
}

#[test]
fn archive_checked_none_done() {
    let mut items = ItemStore::new();
    let mut ptrs = PointerStore::new();
    let chat = ChatKey(1);
    items.add_item(chat, "Tea");
    ptrs.set(chat, 9);
    assert!(matches!(
        archive_checked(&mut items, &mut ptrs, chat),
        ArchiveCheckedOutcome::NothingChecked
    ));
    assert_eq!(items.list_items(chat).len(), 1);
    assert_eq!(ptrs.get(chat), Some(9));
}

#[test]
fn archive_checked_all_done_archives_whole_list() {
    let mut items = ItemStore::new();
    let mut ptrs = PointerStore::new();
    let chat = ChatKey(1);
    let a = items.add_item(chat, "Tea");
    items.toggle_item(chat, a.id);
    ptrs.set(chat, 9);
    assert!(matches!(
        archive_checked(&mut items, &mut ptrs, chat),
        ArchiveCheckedOutcome::AllDone { .. }
    ));
    assert!(items.list_items(chat).is_empty());
    assert_eq!(ptrs.get(chat), None);
}

#[test]
fn nuke_clears_data() {
    let mut items = ItemStore::new();
    let mut ptrs = PointerStore::new();
    let chat = ChatKey(1);
    items.add_item(chat, "Tea");
    ptrs.set(chat, 9);
    let r = shopbot::service::nuke(&mut items, &mut ptrs, chat);
    assert_eq!(r.retire, Some(9));
    assert!(items.list_items(chat).is_empty());
    assert_eq!(ptrs.get(chat), None);
}

#[test]
fn api_add_toggle_delete_flow() {
    let mut items = ItemStore::new();
    let chat = ChatKey(11);

    assert!(matches!(api_add(&mut items, chat, "Oats"), MutationStatus::Created { affected: 1 }));
    let listed = items.list_items(chat);
    assert_eq!(listed.len(), 1);
    assert!(!listed[0].done);

    assert!(matches!(
        api_toggle(&mut items, chat, listed[0].id.0),
        MutationStatus::Applied { affected: 1 }
    ));
    let listed = items.list_items(chat);
    assert!(listed[0].done);

    assert!(matches!(
        api_delete(&mut items, chat, listed[0].id.0),
        MutationStatus::Applied { affected: 1 }
    ));
    assert!(items.list_items(chat).is_empty());
}

#[test]
fn api_add_rejects_blank_text() {
    let mut items = ItemStore::new();
    assert!(matches!(api_add(&mut items, ChatKey(1), "   "), MutationStatus::BadRequest));
    assert!(items.list_items(ChatKey(1)).is_empty());
}

#[test]
fn api_add_trims_text() {
    let mut items = ItemStore::new();
    let chat = ChatKey(1);
    assert!(matches!(api_add(&mut items, chat, "  Milk "), MutationStatus::Created { .. }));
    assert_eq!(items.list_items(chat)[0].text, "Milk");
}

#[test]
fn api_missing_ids_are_not_found() {
    let mut items = ItemStore::new();
    let chat = ChatKey(1);
    assert!(matches!(api_toggle(&mut items, chat, 99), MutationStatus::NotFound));
    assert!(matches!(api_delete(&mut items, chat, 99), MutationStatus::NotFound));
}

#[test]
fn done_archives_checked_items() {
    let mut items = ItemStore::new();
    let chat = ChatKey(12);
    let tea = items.add_item(chat, "Tea");
    items.add_item(chat, "Sugar");
    items.toggle_item(chat, tea.id);

    assert!(matches!(api_done(&mut items, chat), MutationStatus::Applied { affected: 1 }));
    let left = items.list_items(chat);
    assert_eq!(left.len(), 1);
    assert!(!left[0].done);
    assert_eq!(left[0].text, "Sugar");
}

#[test]
fn archive_and_nuke_clear_items() {
    let mut items = ItemStore::new();
    let chat = ChatKey(13);
    items.add_item(chat, "Bread");
    assert!(matches!(api_archive(&mut items, chat), MutationStatus::Applied { affected: 1 }));
    assert!(items.list_items(chat).is_empty());

    items.add_item(chat, "Butter");
    assert!(matches!(api_nuke(&mut items, chat), MutationStatus::Applied { affected: 1 }));
    assert!(items.list_items(chat).is_empty());
}

#[test]
fn list_requires_auth() {
    let mut tokens = TokenStore::new();
    assert_eq!(authenticate(&mut tokens, None, 0), None);
}

#[test]
fn mutations_require_auth() {
    let mut tokens = TokenStore::new();
    tokens.create_token(ChatKey(7), "token-abc", 100);
    assert_eq!(authenticate(&mut tokens, Some("Basic dXNlcg=="), 0), None);
    assert_eq!(authenticate(&mut tokens, Some("Bearer "), 0), None);
}

#[test]
fn list_rejects_invalid_token() {
    let mut tokens = TokenStore::new();
    let chat = ChatKey(7);
    tokens.create_token(chat, "token-abc", 100);
    assert_eq!(authenticate(&mut tokens, Some("Bearer wrong-token"), 5), None);
    let listed = tokens.list_tokens(chat);
    assert_eq!(listed[0].last_used_at, None);
}

#[test]
fn auth_accepts_valid_token_and_stamps_use() {
    let mut tokens = TokenStore::new();
    let chat = ChatKey(10);
    tokens.create_token(chat, "token-123", 100);
    assert_eq!(authenticate(&mut tokens, Some("Bearer token-123"), 555), Some(chat));
    let listed = tokens.list_tokens(chat);
    assert_eq!(listed[0].last_used_at, Some(555));
    // Lower-case scheme is accepted too.
    assert_eq!(authenticate(&mut tokens, Some("bearer token-123"), 556), Some(chat));
}

#[test]
fn bearer_token_parses_from_header() {
    assert_eq!(extract_bearer_token("Bearer abc-123"), Some("abc-123".to_string()));
    assert_eq!(extract_bearer_token("bearer abc"), Some("abc".to_string()));
    assert_eq!(extract_bearer_token("Bearer   abc  "), Some("abc".to_string()));
    assert_eq!(extract_bearer_token("Token abc"), None);
    assert_eq!(extract_bearer_token(""), None);
}

#[test]
fn api_rate_limit_rejects_second_request() {
    let mut limiter = RateLimiter::new(1, 1);
    assert!(limiter.allow(10));
    assert!(!limiter.allow(10));
    // A new window admits again.
    assert!(limiter.allow(11));
    assert!(!limiter.allow(11));
}

#[test]
fn rate_limit_window_slides() {
    let mut limiter = RateLimiter::new(2, 5);
    assert!(limiter.allow(0));
    assert!(limiter.allow(1));
    assert!(!limiter.allow(2));
    // At 6 the first stamp (0) has left the 5-second window.
    assert!(limiter.allow(6));
}

#[test]
fn token_create_and_list() {
    let mut tokens = TokenStore::new();
    let chat = ChatKey(42);
    tokens.create_token(chat, "token-a", 100);
    tokens.create_token(chat, "token-b", 200);

    let listed = tokens.list_tokens(chat);
    assert_eq!(listed.len(), 2);
    assert_eq!(listed[0].token, "token-b");
    assert_eq!(listed[1].token, "token-a");
}

#[test]
fn token_revoke() {
    let mut tokens = TokenStore::new();
    let chat = ChatKey(7);
    tokens.create_token(chat, "token-x", 123);

    assert!(tokens.revoke_token(chat, "token-x", 456));
    let listed = tokens.list_tokens(chat);
    assert_eq!(listed[0].revoked_at, Some(456));

    // A revoked token no longer authenticates, and revoking again reports
    // nothing revoked.
    assert_eq!(tokens.use_token("token-x", 500), None);
    assert!(!tokens.revoke_token(chat, "token-x", 789));
}

#[test]
fn token_use_updates_last_used() {
    let mut tokens = TokenStore::new();
    let chat = ChatKey(9);
    tokens.create_token(chat, "token-use", 123);

    assert_eq!(tokens.use_token("token-use", 555), Some(chat));
    let listed = tokens.list_tokens(chat);
    assert_eq!(listed[0].last_used_at, Some(555));
}

#[test]
fn generated_tokens_look_random() {
    let a = generate_token().expect("the OS generator is available here");
    let b = generate_token().expect("the OS generator is available here");
    assert_eq!(a.chars().count(), 43);
    assert_eq!(b.chars().count(), 43);
    assert_ne!(a, b);
    assert!(a.chars().all(|c| c.is_ascii_alphanumeric() || c == '-' || c == '_'));
    assert_eq!(token_preview(&a).chars().count(), 6);
    assert_eq!(token_preview("ab"), "ab");
}

#[test]
fn token_name_is_trimmed_or_absent() {
    assert_eq!(parse_token_name("  laptop  "), Some("laptop".to_string()));
    assert_eq!(parse_token_name("   "), None);
    assert_eq!(parse_token_name(""), None);
}

#[test]
fn issuer_display_name_prefers_username() {
    assert_eq!(issuer_display_name("Ana", Some("Lopez"), Some("ana_l")), "@ana_l");
    assert_eq!(issuer_display_name("Ana", Some("Lopez"), None), "Ana Lopez");
    assert_eq!(issuer_display_name("Ana", None, None), "Ana");
}

#[test]
fn format_token_list_renders_blocks() {
    let entries = vec![
        TokenDisplay {
            token: "tok-a".to_string(),
            name: Some("a<b>&c".to_string()),
            issuer_name: Some("Ana".to_string()),
            issuer_user_id: Some(7),
            issued: "100".to_string(),
            last_used: Some("200".to_string()),
            revoked: None,
        },
        TokenDisplay {
            token: "tok-b".to_string(),
            name: None,
            issuer_name: None,
            issuer_user_id: None,
            issued: "300".to_string(),
            last_used: None,
            revoked: Some("400".to_string()),
        },
    ];
    let text = format_token_list(&entries);
    assert_eq!(
        text,
        "<b>Tokens</b>\n\n\
         <code>tok-a</code>\nname: a&lt;b&gt;&amp;c\nissued by: Ana (7)\n\
         issued: 100\nlast used: 200\nrevoked: not revoked\n\n\
         <code>tok-b</code>\nissued: 300\nlast used: never\nrevoked: 400"
    );
}

//! The HTTP list API's decisions: bearer authentication, and the mutation
//! semantics behind each endpoint.  The HTTP framing itself stays outside;
//! every endpoint calls the same item store and so honors the same
//! cross-list isolation.

use vstd::prelude::*;

use crate::items::{count_matches, delete_all_model, delete_many_model, delete_model, Item,
    ItemStore, ItemView, items_of, toggle_model};
use crate::service::done_ids_spec;
use crate::strutil::{starts_with, starts_with_spec, trim_spec, trim_ws};
use crate::tokens::{find_live, token_live, TokenStore, use_token_model};
use crate::types::ChatKey;

verus! {

/// API configuration: an optional fixed-window request limit per second.
#[derive(Clone, Debug)]
pub struct ApiConfig {
    pub rate_limit_per_second: Option<u64>,
}

/// The bearer token of an Authorization header value: the word `Bearer`
/// (either case), a space, then a non-empty token, surrounding whitespace
/// trimmed.
pub open spec fn bearer_token_spec(h: Seq<char>) -> Option<Seq<char>> {
    if starts_with_spec(h, "Bearer "@) || starts_with_spec(h, "bearer "@) {
        let tok = trim_spec(h.skip("Bearer "@.len() as int));
        if tok.len() == 0 {
            None
        } else {
            Some(tok)
        }
    } else {
        None
    }
}

/// Extract the bearer token from an Authorization header value.
pub fn extract_bearer_token(header: &str) -> (r: Option<String>)
    ensures
        match r {
            Some(t) => bearer_token_spec(header@) == Some(t@),
            None => bearer_token_spec(header@) is None,
        },
{
    proof {
        reveal_strlit("Bearer ");
        reveal_strlit("bearer ");
    }
    if starts_with(header, "Bearer ") || starts_with(header, "bearer ") {
        let n = header.unicode_len();
        let rest = header.substring_char(7, n);
        proof {
            assert(rest@ =~= header@.skip(7));
        }
        let tok = trim_ws(rest);
        if tok.unicode_len() == 0 {
            None
        } else {
            Some(tok.to_owned())
        }
    } else {
        None
    }
}

/// Authenticate a request: read the bearer token and spend it.  Success
/// unlocks the token's chat and stamps the token used; a missing header,
/// an unparsable one, or an unknown or revoked token is rejected and
/// leaves the store unchanged.
pub fn authenticate(tokens: &mut TokenStore, header: Option<&str>, now: i64) -> (r: Option<
    ChatKey,
>)
    requires
        old(tokens).wf(),
    ensures
        final(tokens).wf(),
        match r {
            Some(chat) => {
                &&& header is Some
                &&& bearer_token_spec(header.unwrap()@) is Some
                &&& {
                    let tok = bearer_token_spec(header.unwrap()@).unwrap();
                    let f = find_live(old(tokens)@, tok);
                    &&& f < old(tokens)@.len()
                    &&& chat.0 as int == old(tokens)@[f].chat_id
                    &&& final(tokens)@ == use_token_model(old(tokens)@, tok, now as int)
                }
            },
            None => {
                &&& final(tokens)@ == old(tokens)@
                &&& (match header {
                    Some(h) => bearer_token_spec(h@) is Some ==> forall|j: int|
                        0 <= j < old(tokens)@.len() ==> !token_live(
                            #[trigger] old(tokens)@[j],
                            bearer_token_spec(h@).unwrap(),
                        ),
                    None => true,
                })
            },
        },
{
    let h = match header {
        Some(h) => h,
        None => {
            return None;
        },
    };
    let tok = match extract_bearer_token(h) {
        Some(t) => t,
        None => {
            return None;
        },
    };
    tokens.use_token(tok.as_str(), now)
}

/// What a mutation endpoint answers.
pub enum MutationStatus {
    /// The entity was created.
    Created { affected: u64 },
    /// The mutation ran; `affected` rows were touched.
    Applied { affected: u64 },
    /// The target id is not owned by the authenticated list.
    NotFound,
    /// The request payload is unusable (an empty item text).
    BadRequest,
}

/// Add one item with a trimmed text; an empty text is a bad request and
/// stores nothing.
pub fn api_add(items: &mut ItemStore, chat: ChatKey, text: &str) -> (r: MutationStatus)
    requires
        old(items).wf(),
        old(items).next_id_spec() < i64::MAX as int,
    ensures
        final(items).wf(),
        match r {
            MutationStatus::BadRequest => {
                &&& trim_spec(text@).len() == 0
                &&& final(items)@ == old(items)@
            },
            MutationStatus::Created { affected } => {
                &&& trim_spec(text@).len() > 0
                &&& affected == 1
                &&& final(items)@ == old(items)@.push(
                    crate::items::RowModel {
                        chat: chat.0 as int,
                        id: old(items).next_id_spec(),
                        text: trim_spec(text@),
                        done: false,
                    },
                )
            },
            _ => false,
        },
{
    let trimmed = trim_ws(text);
    if trimmed.unicode_len() == 0 {
        return MutationStatus::BadRequest;
    }
    let _ = items.add_item(chat, trimmed);
    MutationStatus::Created { affected: 1 }
}

/// Toggle an item's done mark, scoped to the authenticated list; an id
/// the list does not own touches nothing and is not found.
pub fn api_toggle(items: &mut ItemStore, chat: ChatKey, id: i64) -> (r: MutationStatus)
    requires
        old(items).wf(),
    ensures
        final(items).wf(),
        final(items)@ == toggle_model(old(items)@, chat.0 as int, id as int),
        match r {
            MutationStatus::Applied { affected } => affected == count_matches(
                old(items)@,
                chat.0 as int,
                id as int,
            ) && affected > 0,
            MutationStatus::NotFound => count_matches(old(items)@, chat.0 as int, id as int)
                == 0,
            _ => false,
        },
{
    let affected = items.toggle_item(chat, crate::types::ItemId(id));
    if affected == 0 {
        MutationStatus::NotFound
    } else {
        MutationStatus::Applied { affected }
    }
}

/// Delete an item, scoped to the authenticated list; an id the list does
/// not own touches nothing and is not found.
pub fn api_delete(items: &mut ItemStore, chat: ChatKey, id: i64) -> (r: MutationStatus)
    requires
        old(items).wf(),
    ensures
        final(items).wf(),
        final(items)@ == delete_model(old(items)@, chat.0 as int, id as int),
        match r {
            MutationStatus::Applied { affected } => affected == count_matches(
                old(items)@,
                chat.0 as int,
                id as int,
            ) && affected > 0,
            MutationStatus::NotFound => count_matches(old(items)@, chat.0 as int, id as int)
                == 0,
            _ => false,
        },
{
    let affected = items.delete_item(chat, crate::types::ItemId(id));
    if affected == 0 {
        MutationStatus::NotFound
    } else {
        MutationStatus::Applied { affected }
    }
}

/// Archive (clear) the authenticated list.
pub fn api_archive(items: &mut ItemStore, chat: ChatKey) -> (r: MutationStatus)
    requires
        old(items).wf(),
    ensures
        final(items).wf(),
        final(items)@ == delete_all_model(old(items)@, chat.0 as int),
        r matches MutationStatus::Applied { affected } && affected == old(items)@.len() - final(items)@.len(),
{
    let affected = items.delete_all(chat);
    MutationStatus::Applied { affected }
}

/// Nuke the authenticated list: same store effect as archiving.
pub fn api_nuke(items: &mut ItemStore, chat: ChatKey) -> (r: MutationStatus)
    requires
        old(items).wf(),
    ensures
        final(items).wf(),
        final(items)@ == delete_all_model(old(items)@, chat.0 as int),
        r matches MutationStatus::Applied { affected } && affected == old(items)@.len() - final(items)@.len(),
{
    let affected = items.delete_all(chat);
    MutationStatus::Applied { affected }
}

/// Archive the checked items of the authenticated list: exactly the done
/// entries leave the store.
pub fn api_done(items: &mut ItemStore, chat: ChatKey) -> (r: MutationStatus)
    requires
        old(items).wf(),
    ensures
        final(items).wf(),
        final(items)@ == delete_many_model(
            old(items)@,
            chat.0 as int,
            done_ids_spec(items_of(old(items)@, chat.0 as int)),
        ),
        r matches MutationStatus::Applied { affected } && affected == old(items)@.len() - final(items)@.len(),
{
    let current = items.list_items(chat);
    proof {
        assert(current.deep_view() =~= current@.map_values(|it: Item| it@));
    }
    let done_ids = crate::service::done_item_ids(&current);
    let affected = items.delete_items(chat, &done_ids);
    MutationStatus::Applied { affected }
}

} // verus!

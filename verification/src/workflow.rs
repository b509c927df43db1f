//! The delete workflow controller: a per-user state machine over the
//! session store, guarded against stale panel actions.
//!
//! An action carries the message it came from; only an action from the
//! session's current panel is live.  Anything else is ignored without
//! touching any store.

use vstd::prelude::*;

use crate::idset::{toggle_sel, IdSet};
use crate::items::{delete_many_model, ItemStore, items_of};
use crate::messages;
use crate::numtext::{parse_i64, parse_int_spec};
use crate::pointer::PointerStore;
use crate::present::{format_delete_list, select_label, Control, toggle_label, list_text};
use crate::service::update_message_view;
use crate::session::{DeleteSession, SessionStore};
use crate::strutil::{starts_with, starts_with_spec, str_eq};
use crate::types::{ChatKey, ItemId};

verus! {

/// What a callback payload asks for.
pub enum CallbackAction {
    /// The confirm control of a delete panel.
    DeleteDone,
    /// A per-item control of a delete panel.
    DeleteToggle(ItemId),
    /// A per-item control of the shared list: flip its done mark.
    ToggleDone(ItemId),
    /// Anything unrecognized.
    Ignore,
}

/// How a callback payload is read: `delete_done` confirms, `delete_` plus
/// an id toggles a selection, a bare id toggles done, anything else is
/// ignored.
pub open spec fn callback_action_spec(d: Seq<char>) -> CallbackAction {
    if starts_with_spec(d, "delete_"@) {
        let rest = d.skip("delete_"@.len() as int);
        if rest == "done"@ {
            CallbackAction::DeleteDone
        } else {
            match parse_int_spec(rest) {
                Some(v) => CallbackAction::DeleteToggle(ItemId(v)),
                None => CallbackAction::Ignore,
            }
        }
    } else {
        match parse_int_spec(d) {
            Some(v) => CallbackAction::ToggleDone(ItemId(v)),
            None => CallbackAction::Ignore,
        }
    }
}

/// Decode a callback payload.
pub fn parse_callback_action(data: &str) -> (r: CallbackAction)
    ensures
        r == callback_action_spec(data@),
{
    proof {
        reveal_strlit("delete_");
    }
    if starts_with(data, "delete_") {
        let n = data.unicode_len();
        let rest = data.substring_char(7, n);
        proof {
            assert(rest@ =~= data@.skip(7));
        }
        if str_eq(rest, "done") {
            CallbackAction::DeleteDone
        } else {
            match parse_i64(rest) {
                Some(v) => CallbackAction::DeleteToggle(ItemId(v)),
                None => CallbackAction::Ignore,
            }
        }
    } else {
        match parse_i64(data) {
            Some(v) => CallbackAction::ToggleDone(ItemId(v)),
            None => CallbackAction::Ignore,
        }
    }
}

/// The messages a retired session leaves behind, to delete best-effort:
/// its group notice, then its private panel.
pub open spec fn cleanup_refs(sess: DeleteSession, user: i64) -> Seq<(i64, i32)> {
    (match sess.notice {
        Some(n) => seq![n],
        None => Seq::<(i64, i32)>::empty(),
    }) + (match sess.dm_message_id {
        Some(m) => seq![(user, m)],
        None => Seq::<(i64, i32)>::empty(),
    })
}

/// What entering the delete workflow decides.
pub enum EnterOutcome {
    /// The list has no rendered message: reply transiently and stop; no
    /// session is created or removed.
    NoActiveList,
    /// The list is empty: the prior session (if any) was retired, but
    /// there is nothing to select and no new session.
    EmptyList { cleanup: Vec<(i64, i32)> },
    /// A panel to deliver to the user's private channel.  Only after a
    /// successful delivery does [`record_panel_delivery`] create the
    /// session.
    Panel { cleanup: Vec<(i64, i32)>, text: String, controls: Vec<Control> },
}

/// Enter the delete workflow: check the rendered list, retire any prior
/// session of this user, and prepare the selection panel.  No session
/// record is created until the panel is actually delivered.
pub fn enter_delete_mode(
    items: &ItemStore,
    ptrs: &PointerStore,
    sessions: &mut SessionStore,
    user: i64,
    chat: ChatKey,
    chat_name: &str,
) -> (r: EnterOutcome)
    requires
        old(sessions).wf(),
        ptrs.wf(),
    ensures
        final(sessions).wf(),
        match r {
            EnterOutcome::NoActiveList => {
                &&& !ptrs@.contains_key(chat.0 as int)
                &&& final(sessions)@ == old(sessions)@
            },
            EnterOutcome::EmptyList { cleanup } => {
                &&& ptrs@.contains_key(chat.0 as int)
                &&& items_of(items@, chat.0 as int).len() == 0
                &&& final(sessions)@ == old(sessions)@.remove(user as int)
                &&& cleanup@ == (if old(sessions)@.contains_key(user as int) {
                    cleanup_refs(old(sessions)@[user as int], user)
                } else {
                    Seq::<(i64, i32)>::empty()
                })
            },
            EnterOutcome::Panel { cleanup, text, controls } => {
                &&& ptrs@.contains_key(chat.0 as int)
                &&& items_of(items@, chat.0 as int).len() > 0
                &&& final(sessions)@ == old(sessions)@.remove(user as int)
                &&& cleanup@ == (if old(sessions)@.contains_key(user as int) {
                    cleanup_refs(old(sessions)@[user as int], user)
                } else {
                    Seq::<(i64, i32)>::empty()
                })
                &&& text@ == "Deleting items from "@ + chat_name@ + ".\n\n"@
                    + messages::DELETE_SELECT_PROMPT@
                &&& controls@.len() == items_of(items@, chat.0 as int).len() + 1
                &&& forall|i: int| 0 <= i < items_of(items@, chat.0 as int).len() ==> (
                #[trigger] controls@[i])@.label == select_label(
                    items_of(items@, chat.0 as int)[i],
                    Set::empty(),
                )
                &&& forall|i: int| 0 <= i < items_of(items@, chat.0 as int).len() ==> (
                #[trigger] controls@[i])@.data == "delete_"@ + crate::numtext::dec_int(
                    items_of(items@, chat.0 as int)[i].id,
                )
                &&& controls@[items_of(items@, chat.0 as int).len() as int]@.label
                    == messages::DELETE_DONE_LABEL@
                &&& controls@[items_of(items@, chat.0 as int).len() as int]@.data
                    == "delete_done"@
            },
        },
{
    if ptrs.get(chat).is_none() {
        return EnterOutcome::NoActiveList;
    }
    // Retire the prior session of this user, whichever list it edited.
    let mut cleanup: Vec<(i64, i32)> = Vec::new();
    match sessions.take(user) {
        Some(prior) => {
            match prior.notice {
                Some(n) => {
                    cleanup.push(n);
                },
                None => {},
            }
            match prior.dm_message_id {
                Some(m) => {
                    cleanup.push((user, m));
                },
                None => {},
            }
            proof {
                assert(cleanup@ =~= cleanup_refs(old(sessions)@[user as int], user));
            }
        },
        None => {
            proof {
                assert(cleanup@ =~= Seq::<(i64, i32)>::empty());
            }
        },
    }
    let current = items.list_items(chat);
    if current.len() == 0 {
        return EnterOutcome::EmptyList { cleanup };
    }
    let empty_sel = IdSet::new();
    let (base_text, controls) = format_delete_list(&current, &empty_sel);
    let text = messages::delete_dm_text(chat_name, base_text.as_str());
    proof {
        assert(current.deep_view() =~= current@.map_values(
            |it: crate::items::Item| it@,
        ));
    }
    EnterOutcome::Panel { cleanup, text, controls }
}

/// Record a successfully delivered panel: the session becomes live, with
/// an empty selection, bound to the delivered panel message and to the
/// group notice when one was posted.
pub fn record_panel_delivery(
    sessions: &mut SessionStore,
    user: i64,
    chat: ChatKey,
    panel_msg: i32,
    notice: Option<(i64, i32)>,
) -> (r: ())
    requires
        old(sessions).wf(),
    ensures
        final(sessions).wf(),
        final(sessions)@.contains_key(user as int),
        final(sessions)@[user as int].chat_id == chat,
        final(sessions)@[user as int].selected@ == Set::<int>::empty(),
        final(sessions)@[user as int].notice == notice,
        final(sessions)@[user as int].dm_message_id == Some(panel_msg),
        forall|k: int| k != user as int ==> final(sessions)@.contains_key(k) == old(sessions)@.contains_key(k),
        forall|k: int| k != user as int && old(sessions)@.contains_key(k) ==> final(sessions)@[k] == old(sessions)@[k],
{
    let session = DeleteSession {
        chat_id: chat,
        selected: IdSet::new(),
        notice,
        dm_message_id: Some(panel_msg),
    };
    sessions.put(user, session);
}

/// What a selection toggle decides.
pub enum ToggleOutcome {
    /// No session, or the action came from a superseded panel: ignored,
    /// nothing read or written.
    Stale,
    /// The selection flipped; the panel is re-rendered in place.
    Updated { text: String, controls: Vec<Control> },
}

/// Toggle one item in the user's selection, if the action is current.
/// An action whose message is not the session's stored panel never
/// changes any store.
pub fn toggle_selection(
    sessions: &mut SessionStore,
    items: &ItemStore,
    user: i64,
    panel_msg: i32,
    id: ItemId,
) -> (r: ToggleOutcome)
    requires
        old(sessions).wf(),
    ensures
        final(sessions).wf(),
        match r {
            ToggleOutcome::Stale => {
                &&& final(sessions)@ == old(sessions)@
                &&& (!old(sessions)@.contains_key(user as int) || old(sessions)@[
                    user as int
                ].dm_message_id != Some(panel_msg))
            },
            ToggleOutcome::Updated { text, controls } => {
                &&& old(sessions)@.contains_key(user as int)
                &&& old(sessions)@[user as int].dm_message_id == Some(panel_msg)
                &&& final(sessions)@.contains_key(user as int)
                &&& final(sessions)@[user as int].chat_id == old(sessions)@[
                    user as int
                ].chat_id
                &&& final(sessions)@[user as int].notice == old(sessions)@[user as int].notice
                &&& final(sessions)@[user as int].dm_message_id == old(sessions)@[
                    user as int
                ].dm_message_id
                &&& final(sessions)@[user as int].selected@ == toggle_sel(
                    old(sessions)@[user as int].selected@,
                    id.0 as int,
                )
                &&& forall|k: int| k != user as int ==> final(sessions)@.contains_key(k) == old(sessions)@.contains_key(k)
                &&& forall|k: int| k != user as int && old(sessions)@.contains_key(k) ==> final(sessions)@[k] == old(sessions)@[k]
                &&& text@ == messages::DELETE_SELECT_PROMPT@
                &&& controls@.len() == items_of(
                    items@,
                    old(sessions)@[user as int].chat_id.0 as int,
                ).len() + 1
                &&& forall|i: int|
                    0 <= i < controls@.len() - 1 ==> (#[trigger] controls@[i])@.label
                        == select_label(
                        items_of(items@, old(sessions)@[user as int].chat_id.0 as int)[i],
                        toggle_sel(old(sessions)@[user as int].selected@, id.0 as int),
                    )
            },
        },
{
    match sessions.take(user) {
        None => ToggleOutcome::Stale,
        Some(sess) => {
            let live = match sess.dm_message_id {
                Some(m) => m == panel_msg,
                None => false,
            };
            if !live {
                sessions.put(user, sess);
                proof {
                    assert(final(sessions)@ =~= old(sessions)@);
                }
                ToggleOutcome::Stale
            } else {
                let DeleteSession { chat_id, mut selected, notice, dm_message_id } = sess;
                selected.toggle(id);
                let current = items.list_items(chat_id);
                let (text, controls) = format_delete_list(&current, &selected);
                proof {
                    assert(current.deep_view() =~= current@.map_values(
                        |it: crate::items::Item| it@,
                    ));
                }
                sessions.put(
                    user,
                    DeleteSession { chat_id, selected, notice, dm_message_id },
                );
                ToggleOutcome::Updated { text, controls }
            }
        },
    }
}

/// What confirming a deletion decides.
pub enum CommitOutcome {
    /// No session for this user: nothing to commit; the pressed panel
    /// message may still be deleted best-effort.
    NoSession,
    /// The action came from a superseded panel: ignored silently.
    Stale,
    /// The selection was deleted and the session destroyed.
    Committed {
        /// Rows actually removed from the item store.
        deleted: u64,
        /// The shared list message to edit in place, with its new view,
        /// when the list has a render pointer.
        update: Option<(i32, String, Vec<Control>)>,
        /// The group notice to delete best-effort, if one was posted.
        notice: Option<(i64, i32)>,
        /// The panel message itself, to delete best-effort.
        panel: i32,
    },
}

/// Commit the user's selection: bulk-delete the selected ids from the
/// session's list, refresh the shared list message in place, and destroy
/// the session.  Ids already gone are no-ops; an empty selection just
/// clears the session.  A stale action never mutates the selection or the
/// item store.
pub fn commit_delete_session(
    sessions: &mut SessionStore,
    items: &mut ItemStore,
    ptrs: &PointerStore,
    user: i64,
    panel_msg: i32,
) -> (r: CommitOutcome)
    requires
        old(sessions).wf(),
        old(items).wf(),
        ptrs.wf(),
    ensures
        final(sessions).wf(),
        final(items).wf(),
        match r {
            CommitOutcome::NoSession => {
                &&& !old(sessions)@.contains_key(user as int)
                &&& final(sessions)@ == old(sessions)@
                &&& final(items)@ == old(items)@
            },
            CommitOutcome::Stale => {
                &&& old(sessions)@.contains_key(user as int)
                &&& old(sessions)@[user as int].dm_message_id != Some(panel_msg)
                &&& final(sessions)@ == old(sessions)@
                &&& final(items)@ == old(items)@
            },
            CommitOutcome::Committed { deleted, update, notice, panel } => {
                &&& old(sessions)@.contains_key(user as int)
                &&& old(sessions)@[user as int].dm_message_id == Some(panel_msg)
                &&& final(sessions)@ == old(sessions)@.remove(user as int)
                &&& final(items)@ == delete_many_model(
                    old(items)@,
                    old(sessions)@[user as int].chat_id.0 as int,
                    old(sessions)@[user as int].selected.ids(),
                )
                &&& deleted == old(items)@.len() - final(items)@.len()
                &&& notice == old(sessions)@[user as int].notice
                &&& panel == panel_msg
                &&& match update {
                    Some(u) => {
                        let chat = old(sessions)@[user as int].chat_id.0 as int;
                        &&& ptrs@.contains_key(chat)
                        &&& u.0 == ptrs@[chat]
                        &&& (items_of(final(items)@, chat).len() == 0 ==> u.1@
                            == messages::LIST_NOW_EMPTY@ && u.2@.len() == 0)
                        &&& (items_of(final(items)@, chat).len() > 0 ==> u.1@ == list_text(
                            items_of(final(items)@, chat),
                        ) && u.2@.len() == items_of(final(items)@, chat).len())
                        &&& forall|i: int|
                            0 <= i < u.2@.len() ==> (#[trigger] u.2@[i])@.label == toggle_label(
                                items_of(final(items)@, chat)[i],
                            ) && u.2@[i]@.data == crate::numtext::dec_int(
                                items_of(final(items)@, chat)[i].id,
                            )
                    },
                    None => !ptrs@.contains_key(old(sessions)@[user as int].chat_id.0 as int),
                }
            },
        },
{
    match sessions.take(user) {
        None => CommitOutcome::NoSession,
        Some(sess) => {
            let live = match sess.dm_message_id {
                Some(m) => m == panel_msg,
                None => false,
            };
            if !live {
                sessions.put(user, sess);
                proof {
                    assert(final(sessions)@ =~= old(sessions)@);
                }
                return CommitOutcome::Stale;
            }
            let ids = sess.selected.to_ids();
            let deleted = items.delete_items(sess.chat_id, &ids);
            let update = match ptrs.get(sess.chat_id) {
                Some(list_msg) => {
                    let (text, controls) = update_message_view(items, sess.chat_id);
                    Some((list_msg, text, controls))
                },
                None => None,
            };
            CommitOutcome::Committed { deleted, update, notice: sess.notice, panel: panel_msg }
        },
    }
}

/// The simple non-session path: a tap on the shared list flips one item's
/// done mark, scoped to the list the message belongs to, and the message
/// is edited in place.
pub fn toggle_done(items: &mut ItemStore, chat: ChatKey, id: ItemId) -> (r: (
    u64,
    (String, Vec<Control>),
))
    requires
        old(items).wf(),
    ensures
        final(items).wf(),
        final(items)@ == crate::items::toggle_model(old(items)@, chat.0 as int, id.0 as int),
        r.0 == crate::items::count_matches(old(items)@, chat.0 as int, id.0 as int),
        items_of(final(items)@, chat.0 as int).len() == 0 ==> r.1.0@
            == messages::LIST_NOW_EMPTY@ && r.1.1@.len() == 0,
        items_of(final(items)@, chat.0 as int).len() > 0 ==> r.1.0@ == list_text(
            items_of(final(items)@, chat.0 as int),
        ),
{
    let affected = items.toggle_item(chat, id);
    let view = update_message_view(items, chat);
    (affected, view)
}

} // verus!

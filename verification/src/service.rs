//! The list service: what each list-level operation reads, changes and
//! displays.  The chat transport performs the message operations these
//! functions describe; the store changes themselves happen here.

use vstd::prelude::*;

use crate::items::{delete_all_model, delete_many_model, Item, ItemStore, ItemView, added_rows,
    items_of};
use crate::messages;
use crate::pointer::PointerStore;
use crate::present::{format_list, format_plain_list, list_text, Control, toggle_label};
use crate::types::{ChatKey, ItemId};

verus! {

broadcast use vstd::seq_lib::group_seq_lib_default;

/// A fresh-list display: which old message to retire, and what to send.
pub struct FreshList {
    /// The previously displayed message, to delete best-effort.
    pub retire: Option<i32>,
    /// The new message's text.
    pub text: String,
    /// The new message's controls; empty for the empty-list notice.
    pub controls: Vec<Control>,
}

/// What the fresh-list text must be for a given list state.
pub open spec fn fresh_text_spec(rows: Seq<ItemView>) -> Seq<char> {
    if rows.len() == 0 {
        messages::LIST_EMPTY_ADD_ITEM@
    } else {
        list_text(rows)
    }
}

/// Well-formedness of a rendered fresh list against a list state.
pub open spec fn fresh_list_matches(r: FreshList, rows: Seq<ItemView>, retire: Option<i32>) -> bool {
    &&& r.retire == retire
    &&& r.text@ == fresh_text_spec(rows)
    &&& r.controls@.len() == (if rows.len() == 0 {
        0int
    } else {
        rows.len() as int
    })
    &&& forall|i: int| 0 <= i < r.controls@.len() ==> (#[trigger] r.controls@[i])@.label
        == toggle_label(rows[i])
    &&& forall|i: int| 0 <= i < r.controls@.len() ==> (#[trigger] r.controls@[i])@.data
        == crate::numtext::dec_int(rows[i].id)
}

/// The "show fresh list" protocol, up to the send: the old pointer's
/// message is handed back for best-effort deletion, and the rendered view
/// of the current items is produced.  After sending, the caller records
/// the new message with [`PointerStore::set`], which replaces the pointer.
pub fn fresh_list_view(items: &ItemStore, ptrs: &PointerStore, chat: ChatKey) -> (r: FreshList)
    requires
        ptrs.wf(),
    ensures
        fresh_list_matches(
            r,
            items_of(items@, chat.0 as int),
            if ptrs@.contains_key(chat.0 as int) {
                Some(ptrs@[chat.0 as int])
            } else {
                None
            },
        ),
{
    let retire = ptrs.get(chat);
    let current = items.list_items(chat);
    if current.len() == 0 {
        let text = messages::LIST_EMPTY_ADD_ITEM.to_owned();
        FreshList { retire, text, controls: Vec::new() }
    } else {
        let (text, controls) = format_list(&current);
        proof {
            assert(current.deep_view() =~= current@.map_values(|it: Item| it@));
        }
        FreshList { retire, text, controls }
    }
}

/// The update-in-place view of a list: the empty-state text with no
/// controls when nothing is left, the rendered list otherwise.  The render
/// pointer is not changed by an in-place edit.
pub fn update_message_view(items: &ItemStore, chat: ChatKey) -> (r: (String, Vec<Control>))
    ensures
        items_of(items@, chat.0 as int).len() == 0 ==> r.0@ == messages::LIST_NOW_EMPTY@
            && r.1@.len() == 0,
        items_of(items@, chat.0 as int).len() > 0 ==> r.0@ == list_text(
            items_of(items@, chat.0 as int),
        ) && r.1@.len() == items_of(items@, chat.0 as int).len(),
        forall|i: int| 0 <= i < r.1@.len() ==> (#[trigger] r.1@[i])@.label == toggle_label(
            items_of(items@, chat.0 as int)[i],
        ),
        forall|i: int| 0 <= i < r.1@.len() ==> (#[trigger] r.1@[i])@.data
            == crate::numtext::dec_int(items_of(items@, chat.0 as int)[i].id),
{
    let current = items.list_items(chat);
    if current.len() == 0 {
        (messages::LIST_NOW_EMPTY.to_owned(), Vec::new())
    } else {
        proof {
            assert(current.deep_view() =~= current@.map_values(|it: Item| it@));
        }
        format_list(&current)
    }
}

/// The share view: the fixed empty notice, or the plain bulleted text.
pub fn share_list_text(items: &ItemStore, chat: ChatKey) -> (r: String)
    ensures
        items_of(items@, chat.0 as int).len() == 0 ==> r@ == messages::LIST_EMPTY@,
        items_of(items@, chat.0 as int).len() > 0 ==> r@ == crate::present::plain_text(
            items_of(items@, chat.0 as int),
        ),
{
    let current = items.list_items(chat);
    if current.len() == 0 {
        messages::LIST_EMPTY.to_owned()
    } else {
        proof {
            assert(current.deep_view() =~= current@.map_values(|it: Item| it@));
        }
        format_plain_list(&current)
    }
}

/// Add the given texts as new items; the caller shows a fresh list when
/// anything was added.  An empty input adds nothing and returns 0.
pub fn insert_items(
    items: &mut ItemStore,
    ptrs: &PointerStore,
    chat: ChatKey,
    texts: &Vec<String>,
) -> (r: (usize, Option<FreshList>))
    requires
        old(items).wf(),
        ptrs.wf(),
        old(items).next_id_spec() + texts@.len() <= i64::MAX as int,
    ensures
        final(items).wf(),
        final(items)@ == old(items)@ + added_rows(
            chat.0 as int,
            texts.deep_view(),
            old(items).next_id_spec(),
        ),
        r.0 == texts@.len(),
        texts@.len() == 0 ==> r.1 is None && final(items)@ == old(items)@,
        texts@.len() > 0 ==> match r.1 {
            Some(f) => fresh_list_matches(
                f,
                items_of(final(items)@, chat.0 as int),
                if ptrs@.contains_key(chat.0 as int) {
                    Some(ptrs@[chat.0 as int])
                } else {
                    None
                },
            ),
            None => false,
        },
{
    let added = items.add_many(chat, texts);
    if added > 0 {
        let view = fresh_list_view(items, ptrs, chat);
        (added, Some(view))
    } else {
        proof {
            assert(added_rows(chat.0 as int, texts.deep_view(), old(items).next_id_spec())
                =~= Seq::<crate::items::RowModel>::empty());
            assert(final(items)@ =~= old(items)@);
        }
        (added, None)
    }
}

/// The outcome of archiving a list.
pub enum ArchiveOutcome {
    /// No render pointer or no items: nothing to archive, stores unchanged.
    NoActiveList,
    /// The list was archived: the old list message to retire, and the
    /// static archived text to post.
    Archived { retire: i32, archived_text: String },
}

/// Archive the whole list: freeze its rendered text under the archive
/// header, clear the items and drop the render pointer.  Without an active
/// rendered list, or with an empty one, nothing changes.
pub fn archive(items: &mut ItemStore, ptrs: &mut PointerStore, chat: ChatKey) -> (r:
    ArchiveOutcome)
    requires
        old(items).wf(),
        old(ptrs).wf(),
    ensures
        final(items).wf(),
        final(ptrs).wf(),
        match r {
            ArchiveOutcome::NoActiveList => {
                &&& (!old(ptrs)@.contains_key(chat.0 as int) || items_of(
                    old(items)@,
                    chat.0 as int,
                ).len() == 0)
                &&& final(items)@ == old(items)@
                &&& final(ptrs)@ == old(ptrs)@
            },
            ArchiveOutcome::Archived { retire, archived_text } => {
                &&& old(ptrs)@.contains_key(chat.0 as int)
                &&& items_of(old(items)@, chat.0 as int).len() > 0
                &&& retire == old(ptrs)@[chat.0 as int]
                &&& archived_text@ == messages::ARCHIVED_LIST_HEADER@ + "\n"@ + list_text(
                    items_of(old(items)@, chat.0 as int),
                )
                &&& final(items)@ == delete_all_model(old(items)@, chat.0 as int)
                &&& final(ptrs)@ == old(ptrs)@.remove(chat.0 as int)
            },
        },
{
    let retire = match ptrs.get(chat) {
        Some(m) => m,
        None => {
            return ArchiveOutcome::NoActiveList;
        },
    };
    let current = items.list_items(chat);
    if current.len() == 0 {
        return ArchiveOutcome::NoActiveList;
    }
    let (final_text, _) = format_list(&current);
    proof {
        assert(current.deep_view() =~= current@.map_values(|it: Item| it@));
    }
    let mut archived_text = String::new();
    archived_text.append(messages::ARCHIVED_LIST_HEADER);
    archived_text.append("\n");
    archived_text.append(final_text.as_str());
    let _ = items.delete_all(chat);
    ptrs.clear(chat);
    ArchiveOutcome::Archived { retire, archived_text }
}

/// The outcome of archiving only the checked items.
pub enum ArchiveCheckedOutcome {
    /// No render pointer or no items: nothing changes.
    NoActiveList,
    /// Items exist but none is checked: nothing changes.
    NothingChecked,
    /// Every item was checked: the whole list is archived, as
    /// [`archive`] would.
    AllDone { retire: i32, archived_text: String },
    /// Some items were checked: those are archived and removed, the rest
    /// remain; the caller posts the archived text, then sends the
    /// remaining list and records the new message as the pointer.
    Partial { retire: i32, archived_text: String, remaining: FreshList },
}

/// The checked entries' ids, in order.
pub open spec fn done_ids_spec(rows: Seq<ItemView>) -> Seq<int> {
    rows.filter(|it: ItemView| it.done).map_values(|it: ItemView| it.id)
}

/// Ids of the checked items of a rendered list.
pub fn done_item_ids(current: &Vec<Item>) -> (r: Vec<ItemId>)
    ensures
        r@.map_values(|v: ItemId| v.0 as int) == done_ids_spec(
            current@.map_values(|it: Item| it@),
        ),
        r@.len() <= current@.len(),
{
    let ghost views = current@.map_values(|it: Item| it@);
    let ghost done = |it: ItemView| it.done;
    let mut out: Vec<ItemId> = Vec::new();
    let mut i: usize = 0;
    proof {
        views.take(0).lemma_filter_len(done);
        assert(out@.map_values(|v: ItemId| v.0 as int) =~= views.take(0).filter(done).map_values(
            |it: ItemView| it.id,
        ));
    }
    while i < current.len()
        invariant
            0 <= i <= current@.len(),
            views == current@.map_values(|it: Item| it@),
            done == (|it: ItemView| it.done),
            out@.len() <= i,
            out@.map_values(|v: ItemId| v.0 as int) == views.take(i as int).filter(
                done,
            ).map_values(|it: ItemView| it.id),
        decreases current@.len() - i,
    {
        let ghost prev = out@;
        if current[i].done {
            out.push(current[i].id);
            proof {
                assert(out@ =~= prev.push(current@[i as int].id));
                assert(views[i as int] == current@[i as int]@);
                assert(out@.map_values(|v: ItemId| v.0 as int) =~= prev.map_values(
                    |v: ItemId| v.0 as int,
                ).push(views[i as int].id));
            }
        }
        proof {
            assert(views.take(i + 1) =~= views.take(i as int).push(views[i as int]));
            views.take(i as int).lemma_filter_push(views[i as int], done);
            assert(views[i as int] == current@[i as int]@);
            assert(out@.map_values(|v: ItemId| v.0 as int) =~= views.take(i + 1).filter(
                done,
            ).map_values(|it: ItemView| it.id));
        }
        i = i + 1;
    }
    proof {
        assert(views.take(views.len() as int) =~= views);
    }
    out
}

/// Archive the checked items only: they are frozen under the archive
/// header and removed; unchecked items stay and are re-sent as a fresh
/// list.  A fully checked list is archived whole; a list with nothing
/// checked, or no active list, is left unchanged.
pub fn archive_checked(items: &mut ItemStore, ptrs: &mut PointerStore, chat: ChatKey) -> (r:
    ArchiveCheckedOutcome)
    requires
        old(items).wf(),
        old(ptrs).wf(),
    ensures
        final(items).wf(),
        final(ptrs).wf(),
        match r {
            ArchiveCheckedOutcome::NoActiveList => {
                &&& (!old(ptrs)@.contains_key(chat.0 as int) || items_of(
                    old(items)@,
                    chat.0 as int,
                ).len() == 0)
                &&& final(items)@ == old(items)@
                &&& final(ptrs)@ == old(ptrs)@
            },
            ArchiveCheckedOutcome::NothingChecked => {
                &&& items_of(old(items)@, chat.0 as int).len() > 0
                &&& done_ids_spec(items_of(old(items)@, chat.0 as int)).len() == 0
                &&& final(items)@ == old(items)@
                &&& final(ptrs)@ == old(ptrs)@
            },
            ArchiveCheckedOutcome::AllDone { retire, archived_text } => {
                &&& old(ptrs)@.contains_key(chat.0 as int)
                &&& items_of(old(items)@, chat.0 as int).len() > 0
                &&& crate::present::all_done(items_of(old(items)@, chat.0 as int))
                &&& retire == old(ptrs)@[chat.0 as int]
                &&& archived_text@ == messages::ARCHIVED_LIST_HEADER@ + "\n"@ + list_text(
                    items_of(old(items)@, chat.0 as int),
                )
                &&& final(items)@ == delete_all_model(old(items)@, chat.0 as int)
                &&& final(ptrs)@ == old(ptrs)@.remove(chat.0 as int)
            },
            ArchiveCheckedOutcome::Partial { retire, archived_text, remaining } => {
                &&& old(ptrs)@.contains_key(chat.0 as int)
                &&& retire == old(ptrs)@[chat.0 as int]
                &&& 0 < done_ids_spec(items_of(old(items)@, chat.0 as int)).len() < items_of(
                    old(items)@,
                    chat.0 as int,
                ).len()
                &&& archived_text@ == messages::ARCHIVED_LIST_HEADER@ + "\n"@ + list_text(
                    items_of(old(items)@, chat.0 as int).filter(|it: ItemView| it.done),
                )
                &&& final(items)@ == delete_many_model(
                    old(items)@,
                    chat.0 as int,
                    done_ids_spec(items_of(old(items)@, chat.0 as int)),
                )
                &&& final(ptrs)@ == old(ptrs)@.remove(chat.0 as int)
                &&& fresh_list_matches(remaining, items_of(final(items)@, chat.0 as int), None)
            },
        },
{
    let retire = match ptrs.get(chat) {
        Some(m) => m,
        None => {
            return ArchiveCheckedOutcome::NoActiveList;
        },
    };
    let current = items.list_items(chat);
    if current.len() == 0 {
        return ArchiveCheckedOutcome::NoActiveList;
    }
    proof {
        assert(current.deep_view() =~= current@.map_values(|it: Item| it@));
    }
    let done_ids = done_item_ids(&current);
    if done_ids.len() == 0 {
        return ArchiveCheckedOutcome::NothingChecked;
    }
    if done_ids.len() == current.len() {
        // Everything is checked: archive the whole list.
        proof {
            let rows = items_of(old(items)@, chat.0 as int);
            let done = |it: ItemView| it.done;
            assert(rows == current@.map_values(|it: Item| it@));
            assert(done_ids_spec(rows).len() == rows.filter(done).len());
            assert(rows.filter(done).len() == rows.len());
            assert forall|i: int| 0 <= i < rows.len() implies (#[trigger] rows[i]).done by {
                if !rows[i].done {
                    lemma_filter_skips_undone(rows, i);
                }
            }
        }
        let (final_text, _) = format_list(&current);
        let mut archived_text = String::new();
        archived_text.append(messages::ARCHIVED_LIST_HEADER);
        archived_text.append("\n");
        archived_text.append(final_text.as_str());
        let _ = items.delete_all(chat);
        ptrs.clear(chat);
        return ArchiveCheckedOutcome::AllDone { retire, archived_text };
    }
    // Some, but not all, items are checked.
    let done_items = keep_done(&current);
    let (done_text, _) = format_list(&done_items);
    proof {
        assert(done_items.deep_view() =~= done_items@.map_values(|it: Item| it@));
    }
    let mut archived_text = String::new();
    archived_text.append(messages::ARCHIVED_LIST_HEADER);
    archived_text.append("\n");
    archived_text.append(done_text.as_str());
    let _ = items.delete_items(chat, &done_ids);
    ptrs.clear(chat);
    let remaining = fresh_list_view(items, ptrs, chat);
    proof {
        assert(!final(ptrs)@.contains_key(chat.0 as int));
    }
    ArchiveCheckedOutcome::Partial { retire, archived_text, remaining }
}

/// A list with fewer checked entries than entries has an unchecked one;
/// conversely a skipped entry shrinks the filter.
proof fn lemma_filter_skips_undone(rows: Seq<ItemView>, i: int)
    requires
        0 <= i < rows.len(),
        !rows[i].done,
    ensures
        rows.filter(|it: ItemView| it.done).len() < rows.len(),
    decreases rows.len(),
{
    let done = |it: ItemView| it.done;
    let t = rows.drop_last();
    t.lemma_filter_len(done);
    assert(rows =~= t.push(rows.last()));
    t.lemma_filter_push(rows.last(), done);
    if i == rows.len() - 1 {
    } else {
        lemma_filter_skips_undone(t, i);
    }
}

/// The checked entries of a rendered list, in order.
fn keep_done(current: &Vec<Item>) -> (r: Vec<Item>)
    ensures
        r.deep_view() == current@.map_values(|it: Item| it@).filter(|it: ItemView| it.done),
{
    let ghost views = current@.map_values(|it: Item| it@);
    let ghost done = |it: ItemView| it.done;
    let mut out: Vec<Item> = Vec::new();
    let mut i: usize = 0;
    proof {
        assert(out.deep_view() =~= views.take(0).filter(done));
    }
    while i < current.len()
        invariant
            0 <= i <= current@.len(),
            views == current@.map_values(|it: Item| it@),
            done == (|it: ItemView| it.done),
            out.deep_view() == views.take(i as int).filter(done),
        decreases current@.len() - i,
    {
        let ghost prev = out.deep_view();
        if current[i].done {
            let it = &current[i];
            out.push(Item { id: it.id, text: it.text.clone(), done: it.done });
            proof {
                assert(out.deep_view() =~= prev.push(views[i as int]));
            }
        }
        proof {
            assert(views.take(i + 1) =~= views.take(i as int).push(views[i as int]));
            views.take(i as int).lemma_filter_push(views[i as int], done);
            assert(views[i as int] == current@[i as int]@);
            assert(out.deep_view() =~= views.take(i + 1).filter(done));
        }
        i = i + 1;
    }
    proof {
        assert(views.take(views.len() as int) =~= views);
    }
    out
}

/// What nuking a list hands back: the messages to delete best-effort.
pub struct NukeOutcome {
    /// The displayed list message, if one was recorded.
    pub retire: Option<i32>,
}

/// Completely delete the list: clear its items, drop the render pointer,
/// and hand back the displayed message for best-effort deletion.  The
/// caller posts the confirmation and lets it expire.
pub fn nuke(items: &mut ItemStore, ptrs: &mut PointerStore, chat: ChatKey) -> (r: NukeOutcome)
    requires
        old(items).wf(),
        old(ptrs).wf(),
    ensures
        final(items).wf(),
        final(ptrs).wf(),
        final(items)@ == delete_all_model(old(items)@, chat.0 as int),
        final(ptrs)@ == old(ptrs)@.remove(chat.0 as int),
        r.retire == (if old(ptrs)@.contains_key(chat.0 as int) {
            Some(old(ptrs)@[chat.0 as int])
        } else {
            None
        }),
{
    let retire = ptrs.get(chat);
    let _ = items.delete_all(chat);
    ptrs.clear(chat);
    NukeOutcome { retire }
}

} // verus!

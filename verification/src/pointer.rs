//! The list render pointer: for each chat, the message that currently
//! displays its list.
//!
//! A list has zero or one pointer at all times; showing a fresh list
//! replaces the pointer rather than adding another.

use vstd::prelude::*;

use crate::assoc::{assoc_map, keys_unique, lemma_assoc_get, lemma_assoc_no_key_no_binding,
    lemma_assoc_push, lemma_assoc_remove};
use crate::types::ChatKey;

verus! {

/// At most one record per chat: which message currently shows its list.
pub struct PointerStore {
    entries: Vec<(i64, i32)>,
}

impl View for PointerStore {
    type V = Map<int, i32>;

    closed spec fn view(&self) -> Map<int, i32> {
        assoc_map(self.entries@)
    }
}

impl PointerStore {
    /// Well-formed: one record per chat.
    pub closed spec fn wf(&self) -> bool {
        keys_unique(self.entries@)
    }

    pub fn new() -> (r: PointerStore)
        ensures
            r.wf(),
            r@ == Map::<int, i32>::empty(),
    {
        PointerStore { entries: Vec::new() }
    }

    /// The index of the chat's record, if it has one.
    fn find_index(&self, chat: ChatKey) -> (r: Option<usize>)
        ensures
            match r {
                Some(i) => i < self.entries@.len() && self.entries@[i as int].0 == chat.0,
                None => forall|j: int|
                    0 <= j < self.entries@.len() ==> self.entries@[j].0 != chat.0,
            },
    {
        let mut i: usize = 0;
        while i < self.entries.len()
            invariant
                0 <= i <= self.entries@.len(),
                forall|j: int| 0 <= j < i ==> self.entries@[j].0 != chat.0,
            decreases self.entries@.len() - i,
        {
            if self.entries[i].0 == chat.0 {
                return Some(i);
            }
            i = i + 1;
        }
        None
    }

    /// The message currently displaying the chat's list, if any.
    pub fn get(&self, chat: ChatKey) -> (r: Option<i32>)
        requires
            self.wf(),
        ensures
            r == (if self@.contains_key(chat.0 as int) {
                Some(self@[chat.0 as int])
            } else {
                None
            }),
    {
        match self.find_index(chat) {
            Some(i) => {
                let v = self.entries[i].1;
                proof {
                    lemma_assoc_get(self.entries@, i as int);
                }
                Some(v)
            },
            None => {
                proof {
                    lemma_assoc_no_key_no_binding(self.entries@, chat.0 as int);
                }
                None
            },
        }
    }

    /// Record `msg` as the chat's displayed list message, replacing any
    /// previous record: never a second pointer for the same list.
    pub fn set(&mut self, chat: ChatKey, msg: i32)
        requires
            old(self).wf(),
        ensures
            final(self).wf(),
            final(self)@ == old(self)@.insert(chat.0 as int, msg),
    {
        let ghost before = self.entries@;
        match self.find_index(chat) {
            Some(i) => {
                self.entries.remove(i);
                proof {
                    lemma_assoc_remove(before, i as int);
                    assert(keys_unique(self.entries@)) by {
                        assert(forall|j: int|
                            0 <= j < self.entries@.len() ==> #[trigger] self.entries@[j] == (
                            if j < i as int {
                                before[j]
                            } else {
                                before[j + 1]
                            }));
                    }
                    assert(forall|j: int|
                        0 <= j < self.entries@.len() ==> #[trigger] self.entries@[j].0
                            != chat.0);
                }
            },
            None => {},
        }
        let ghost mid = self.entries@;
        self.entries.push((chat.0, msg));
        proof {
            lemma_assoc_push(mid, chat.0, msg);
            assert(final(self)@ =~= old(self)@.insert(chat.0 as int, msg));
            assert(keys_unique(self.entries@)) by {
                assert(forall|j: int|
                    0 <= j < mid.len() ==> #[trigger] mid[j].0 != chat.0);
            }
        }
    }

    /// Forget the chat's displayed message, if any was recorded.
    pub fn clear(&mut self, chat: ChatKey)
        requires
            old(self).wf(),
        ensures
            final(self).wf(),
            final(self)@ == old(self)@.remove(chat.0 as int),
    {
        let ghost before = self.entries@;
        match self.find_index(chat) {
            Some(i) => {
                self.entries.remove(i);
                proof {
                    lemma_assoc_remove(before, i as int);
                    assert(keys_unique(self.entries@)) by {
                        assert(forall|j: int|
                            0 <= j < self.entries@.len() ==> #[trigger] self.entries@[j] == (
                            if j < i as int {
                                before[j]
                            } else {
                                before[j + 1]
                            }));
                    }
                }
            },
            None => {
                proof {
                    lemma_assoc_no_key_no_binding(before, chat.0 as int);
                    assert(old(self)@ =~= old(self)@.remove(chat.0 as int));
                }
            },
        }
    }
}

/// The pointer map after a run of "show fresh list" sends for one chat,
/// each recording its new message over the previous one.
pub open spec fn after_sends(m: Map<int, i32>, chat: int, refs: Seq<i32>) -> Map<int, i32>
    decreases refs.len(),
{
    if refs.len() == 0 {
        m
    } else {
        after_sends(m, chat, refs.drop_last()).insert(chat, refs.last())
    }
}

/// Replace, not append: however many consecutive fresh-list sends a chat
/// saw, exactly the last one is recorded, and every other chat's pointer
/// is untouched.
pub proof fn lemma_pointer_replace_not_append(m: Map<int, i32>, chat: int, refs: Seq<i32>)
    requires
        refs.len() > 0,
    ensures
        after_sends(m, chat, refs) == m.insert(chat, refs.last()),
        after_sends(m, chat, refs)[chat] == refs.last(),
        forall|other: int| other != chat ==> after_sends(m, chat, refs).contains_key(other)
            == m.contains_key(other),
        forall|other: int| other != chat && m.contains_key(other) ==> after_sends(
            m,
            chat,
            refs,
        )[other] == m[other],
    decreases refs.len(),
{
    if refs.len() > 1 {
        lemma_pointer_replace_not_append(m, chat, refs.drop_last());
    } else {
        assert(refs.drop_last().len() == 0);
        assert(after_sends(m, chat, refs.drop_last()) == m);
    }
    assert(after_sends(m, chat, refs) =~= m.insert(chat, refs.last()));
}

} // verus!

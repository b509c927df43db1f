//! The item store: every entry of every list, in creation order, with
//! globally unique, monotonically assigned ids.
//!
//! Every mutation is scoped by the owning list as well as the item id, so an
//! id belonging to another list never changes the wrong list; a mutation
//! that matches nothing affects zero rows and is not an error.

use vstd::prelude::*;

use crate::types::{ChatKey, ItemId};

verus! {

broadcast use vstd::seq_lib::group_seq_lib_default, vstd::seq_lib::group_filter_ensures, Seq::lemma_filter_push;

/// One list entry as callers see it.
#[derive(Debug, Clone, PartialEq)]
pub struct Item {
    pub id: ItemId,
    pub text: String,
    pub done: bool,
}

/// Mathematical image of an [`Item`].
pub ghost struct ItemView {
    pub id: int,
    pub text: Seq<char>,
    pub done: bool,
}

impl View for Item {
    type V = ItemView;

    open spec fn view(&self) -> ItemView {
        ItemView { id: self.id.0 as int, text: self.text@, done: self.done }
    }
}

impl DeepView for Item {
    type V = ItemView;

    open spec fn deep_view(&self) -> ItemView {
        self.view()
    }
}

/// Mathematical image of one stored row: the entry plus the list it
/// belongs to.
pub ghost struct RowModel {
    pub chat: int,
    pub id: int,
    pub text: Seq<char>,
    pub done: bool,
}

struct Entry {
    chat: ChatKey,
    item: Item,
}

impl View for Entry {
    type V = RowModel;

    closed spec fn view(&self) -> RowModel {
        RowModel {
            chat: self.chat.0 as int,
            id: self.item.id.0 as int,
            text: self.item.text@,
            done: self.item.done,
        }
    }
}

/// Ids strictly increase along the store, which makes them globally unique.
pub open spec fn ids_increasing(s: Seq<RowModel>) -> bool {
    forall|i: int, j: int| 0 <= i < j < s.len() ==> s[i].id < s[j].id
}

/// Whether a row belongs to the given list under the given id.
pub open spec fn row_matches(m: RowModel, chat: int, id: int) -> bool {
    m.chat == chat && m.id == id
}

/// How many rows a mutation scoped by `chat` and `id` touches.
pub open spec fn count_matches(s: Seq<RowModel>, chat: int, id: int) -> int {
    s.filter(|m: RowModel| row_matches(m, chat, id)).len() as int
}

/// The store after toggling `id` within `chat`: the matching row's `done`
/// flips, everything else stays.
pub open spec fn toggle_model(s: Seq<RowModel>, chat: int, id: int) -> Seq<RowModel> {
    s.map_values(
        |m: RowModel| if row_matches(m, chat, id) {
            RowModel { done: !m.done, ..m }
        } else {
            m
        },
    )
}

/// The store after deleting `id` within `chat`.
pub open spec fn delete_model(s: Seq<RowModel>, chat: int, id: int) -> Seq<RowModel> {
    s.filter(|m: RowModel| !row_matches(m, chat, id))
}

/// The store after bulk-deleting `ids` within `chat`.
pub open spec fn delete_many_model(s: Seq<RowModel>, chat: int, ids: Seq<int>) -> Seq<RowModel> {
    s.filter(|m: RowModel| !(m.chat == chat && ids.contains(m.id)))
}

/// The store after clearing the whole list `chat`.
pub open spec fn delete_all_model(s: Seq<RowModel>, chat: int) -> Seq<RowModel> {
    s.filter(|m: RowModel| m.chat != chat)
}

/// The entries of one list, in creation order, without the list key.
pub open spec fn items_of(s: Seq<RowModel>, chat: int) -> Seq<ItemView> {
    s.filter(|m: RowModel| m.chat == chat).map_values(
        |m: RowModel| ItemView { id: m.id, text: m.text, done: m.done },
    )
}

/// The rows appended by adding `texts` to `chat` starting at id `start`.
pub open spec fn added_rows(chat: int, texts: Seq<Seq<char>>, start: int) -> Seq<RowModel> {
    Seq::new(texts.len(), |i: int| RowModel { chat: chat, id: start + i, text: texts[i], done: false })
}

/// Filtering keeps ids strictly increasing.
proof fn lemma_filter_increasing(s: Seq<RowModel>, p: spec_fn(RowModel) -> bool)
    requires
        ids_increasing(s),
    ensures
        ids_increasing(s.filter(p)),
    decreases s.len(),
{
    if s.len() > 0 {
        let t = s.drop_last();
        assert(ids_increasing(t));
        lemma_filter_increasing(t, p);
        let ft = t.filter(p);
        assert forall|i: int| 0 <= i < ft.len() implies ft[i].id < s.last().id by {
            assert(ft.contains(ft[i]));
            t.lemma_filter_contains_rev(p, ft[i]);
            let k = choose|k: int| 0 <= k < t.len() && t[k] == ft[i];
            assert(t[k].id < s.last().id);
        }
        assert(s =~= t.push(s.last()));
        t.lemma_filter_push(s.last(), p);
        if p(s.last()) {
            assert(s.filter(p) == ft.push(s.last()));
        } else {
            assert(s.filter(p) == ft);
        }
    }
}

/// A filtered sequence never gets longer.
proof fn lemma_filter_shorter(s: Seq<RowModel>, p: spec_fn(RowModel) -> bool)
    ensures
        s.filter(p).len() <= s.len(),
{
    s.lemma_filter_len(p);
}

/// The rows kept and the rows dropped by a predicate add up to the whole.
proof fn lemma_filter_complement(s: Seq<RowModel>, p: spec_fn(RowModel) -> bool)
    ensures
        s.filter(p).len() + s.filter(|m: RowModel| !p(m)).len() == s.len(),
    decreases s.len(),
{
    let q = |m: RowModel| !p(m);
    if s.len() > 0 {
        let t = s.drop_last();
        lemma_filter_complement(t, p);
        assert(s =~= t.push(s.last()));
        t.lemma_filter_push(s.last(), p);
        t.lemma_filter_push(s.last(), q);
    }
}

/// The durable store of all list entries.
pub struct ItemStore {
    entries: Vec<Entry>,
    next_id: i64,
}

impl View for ItemStore {
    type V = Seq<RowModel>;

    closed spec fn view(&self) -> Seq<RowModel> {
        self.entries@.map_values(|e: Entry| e@)
    }
}

impl ItemStore {
    /// Well-formed: ids strictly increase, all below the next id to assign.
    pub closed spec fn wf(&self) -> bool {
        &&& ids_increasing(self@)
        &&& forall|i: int| 0 <= i < self@.len() ==> self@[i].id < self.next_id as int
        &&& 1 <= self.next_id
    }

    /// The id the next added item will get.
    pub closed spec fn next_id_spec(&self) -> int {
        self.next_id as int
    }

    pub fn new() -> (r: ItemStore)
        ensures
            r.wf(),
            r@ == Seq::<RowModel>::empty(),
            r.next_id_spec() == 1,
    {
        let r = ItemStore { entries: Vec::new(), next_id: 1 };
        proof {
            assert(r@ =~= Seq::<RowModel>::empty());
        }
        r
    }

    /// Whether `n` more items can still be given fresh ids.
    pub fn can_add(&self, n: usize) -> (r: bool)
        requires
            self.wf(),
        ensures
            r == (self.next_id_spec() + n <= i64::MAX as int),
    {
        let headroom = i64::MAX - self.next_id;
        (n as u64) <= (headroom as u64)
    }

    /// Append a new, unchecked entry to `chat` and return it.
    pub fn add_item(&mut self, chat: ChatKey, text: &str) -> (r: Item)
        requires
            old(self).wf(),
            old(self).next_id_spec() < i64::MAX as int,
        ensures
            final(self).wf(),
            final(self)@ == old(self)@.push(
                RowModel {
                    chat: chat.0 as int,
                    id: old(self).next_id_spec(),
                    text: text@,
                    done: false,
                },
            ),
            final(self).next_id_spec() == old(self).next_id_spec() + 1,
            r@ == (ItemView { id: old(self).next_id_spec(), text: text@, done: false }),
    {
        let id = self.next_id;
        self.next_id = self.next_id + 1;
        let item = Item { id: ItemId(id), text: text.to_owned(), done: false };
        let ret = Item { id: ItemId(id), text: text.to_owned(), done: false };
        self.entries.push(Entry { chat, item });
        proof {
            assert(self@ =~= old(self)@.push(
                RowModel { chat: chat.0 as int, id: id as int, text: text@, done: false },
            ));
        }
        ret
    }

    /// Append one entry per text, in order; an empty input adds nothing and
    /// returns 0.
    pub fn add_many(&mut self, chat: ChatKey, texts: &Vec<String>) -> (r: usize)
        requires
            old(self).wf(),
            old(self).next_id_spec() + texts@.len() <= i64::MAX as int,
        ensures
            final(self).wf(),
            final(self)@ == old(self)@ + added_rows(chat.0 as int, texts.deep_view(), old(self).next_id_spec()),
            final(self).next_id_spec() == old(self).next_id_spec() + texts@.len(),
            r == texts@.len(),
    {
        let ghost start = self.next_id_spec();
        let ghost base = self@;
        let mut i: usize = 0;
        proof {
            assert(self@ =~= base + added_rows(chat.0 as int, texts.deep_view().take(0), start));
        }
        while i < texts.len()
            invariant
                0 <= i <= texts@.len(),
                self.wf(),
                self.next_id_spec() == start + i,
                start + texts@.len() <= i64::MAX as int,
                self@ == base + added_rows(chat.0 as int, texts.deep_view().take(i as int), start),
            decreases texts@.len() - i,
        {
            let _ = self.add_item(chat, texts[i].as_str());
            proof {
                assert(self@ =~= base + added_rows(
                    chat.0 as int,
                    texts.deep_view().take(i + 1),
                    start,
                ));
            }
            i = i + 1;
        }
        proof {
            assert(texts.deep_view().take(texts@.len() as int) =~= texts.deep_view());
        }
        i
    }

    /// The entries of `chat`, in creation order.
    pub fn list_items(&self, chat: ChatKey) -> (r: Vec<Item>)
        ensures
            r@.map_values(|it: Item| it@) == items_of(self@, chat.0 as int),
    {
        let ghost keep = |m: RowModel| m.chat == chat.0 as int;
        let mut out: Vec<Item> = Vec::new();
        let mut i: usize = 0;
        proof {
            assert(self@.take(0).filter(keep) =~= Seq::<RowModel>::empty());
            assert(out@.map_values(|it: Item| it@) =~= Seq::<RowModel>::empty().map_values(
                |m: RowModel| ItemView { id: m.id, text: m.text, done: m.done },
            ));
        }
        while i < self.entries.len()
            invariant
                0 <= i <= self.entries.len(),
                keep == (|m: RowModel| m.chat == chat.0 as int),
                out@.map_values(|it: Item| it@) == self@.take(i as int).filter(keep).map_values(
                    |m: RowModel| ItemView { id: m.id, text: m.text, done: m.done },
                ),
            decreases self.entries.len() - i,
        {
            let e = &self.entries[i];
            let ghost prev = out@;
            let ghost m = self@[i as int];
            if e.chat == chat {
                let copy = Item { id: e.item.id, text: e.item.text.clone(), done: e.item.done };
                proof {
                    assert(m == self.entries@[i as int]@);
                    assert(copy@ == (ItemView { id: m.id, text: m.text, done: m.done }));
                }
                out.push(copy);
                proof {
                    assert(out@.map_values(|it: Item| it@) =~= prev.map_values(
                        |it: Item| it@,
                    ).push(ItemView { id: m.id, text: m.text, done: m.done }));
                }
            }
            proof {
                assert(m == self.entries@[i as int]@);
                assert(keep(m) == (e.chat == chat));
                assert(self@.take(i + 1) =~= self@.take(i as int).push(m));
                self@.take(i as int).lemma_filter_push(m, keep);
                assert(out@.map_values(|it: Item| it@) =~= self@.take(i + 1).filter(
                    keep,
                ).map_values(|m: RowModel| ItemView { id: m.id, text: m.text, done: m.done }));
            }
            i = i + 1;
        }
        proof {
            assert(self@.take(self@.len() as int) =~= self@);
        }
        out
    }

    /// Flip the `done` mark of `id` if `chat` owns it; the count of touched
    /// rows is 0 or 1, and rows of other lists never change.
    pub fn toggle_item(&mut self, chat: ChatKey, id: ItemId) -> (r: u64)
        requires
            old(self).wf(),
        ensures
            final(self).wf(),
            final(self)@ == toggle_model(old(self)@, chat.0 as int, id.0 as int),
            r == count_matches(old(self)@, chat.0 as int, id.0 as int),
            final(self).next_id_spec() == old(self).next_id_spec(),
    {
        let ghost c = chat.0 as int;
        let ghost tid = id.0 as int;
        let ghost f = |m: RowModel| if row_matches(m, c, tid) {
            RowModel { done: !m.done, ..m }
        } else {
            m
        };
        let ghost hit = |m: RowModel| row_matches(m, c, tid);
        let mut out: Vec<Entry> = Vec::new();
        let mut n: u64 = 0;
        let mut i: usize = 0;
        proof {
            assert(out@.map_values(|e: Entry| e@) =~= old(self)@.take(0).map_values(f));
            assert(old(self)@.take(0).filter(hit) =~= Seq::<RowModel>::empty());
        }
        while i < self.entries.len()
            invariant
                0 <= i <= self.entries.len(),
                self == old(self),
                c == chat.0 as int,
                tid == id.0 as int,
                f == (|m: RowModel| if row_matches(m, c, tid) {
                    RowModel { done: !m.done, ..m }
                } else {
                    m
                }),
                hit == (|m: RowModel| row_matches(m, c, tid)),
                out@.map_values(|e: Entry| e@) == old(self)@.take(i as int).map_values(f),
                n == old(self)@.take(i as int).filter(hit).len(),
                n <= i,
            decreases self.entries.len() - i,
        {
            let e = &self.entries[i];
            let flip = e.chat == chat && e.item.id == id;
            let done = if flip {
                !e.item.done
            } else {
                e.item.done
            };
            out.push(
                Entry {
                    chat: e.chat,
                    item: Item { id: e.item.id, text: e.item.text.clone(), done },
                },
            );
            if flip {
                n = n + 1;
            }
            proof {
                assert(old(self)@.take(i + 1) =~= old(self)@.take(i as int).push(
                    old(self)@[i as int],
                ));
                old(self)@.take(i as int).lemma_filter_push(old(self)@[i as int], hit);
                assert(old(self)@.take(i + 1).map_values(f) =~= old(self)@.take(
                    i as int,
                ).map_values(f).push(f(old(self)@[i as int])));
                assert(out@.map_values(|e: Entry| e@) =~= old(self)@.take(i + 1).map_values(f));
            }
            i = i + 1;
        }
        self.entries = out;
        proof {
            assert(old(self)@.take(old(self)@.len() as int) =~= old(self)@);
            assert(self@ =~= toggle_model(old(self)@, c, tid));
            assert(ids_increasing(self@)) by {
                assert(forall|k: int|
                    0 <= k < self@.len() ==> self@[k].id == old(self)@[k].id);
            }
        }
        n
    }

    /// Remove `id` from `chat` if present; rows of other lists never change.
    pub fn delete_item(&mut self, chat: ChatKey, id: ItemId) -> (r: u64)
        requires
            old(self).wf(),
        ensures
            final(self).wf(),
            final(self)@ == delete_model(old(self)@, chat.0 as int, id.0 as int),
            r == count_matches(old(self)@, chat.0 as int, id.0 as int),
            final(self).next_id_spec() == old(self).next_id_spec(),
    {
        let ghost c = chat.0 as int;
        let ghost tid = id.0 as int;
        let ghost keep = |m: RowModel| !row_matches(m, c, tid);
        let kept = self.retain_rows_one(chat, id);
        proof {
            lemma_filter_increasing(old(self)@, keep);
            lemma_filter_complement(old(self)@, keep);
            assert forall|k: int| 0 <= k < self@.len() implies self@[k].id
                < self.next_id as int by {
                assert(self@.contains(self@[k]));
                old(self)@.lemma_filter_contains_rev(keep, self@[k]);
                let j = choose|j: int|
                    0 <= j < old(self)@.len() && old(self)@[j] == self@[k];
                assert(old(self)@[j].id < old(self).next_id as int);
            }
        }
        kept
    }

    /// The rebuild behind [`Self::delete_item`]: keep what the predicate
    /// spares, count what it drops.
    fn retain_rows_one(&mut self, chat: ChatKey, id: ItemId) -> (r: u64)
        requires
            old(self).wf(),
        ensures
            final(self)@ == old(self)@.filter(
                |m: RowModel| !row_matches(m, chat.0 as int, id.0 as int),
            ),
            r == count_matches(old(self)@, chat.0 as int, id.0 as int),
            final(self).next_id == old(self).next_id,
    {
        let ghost c = chat.0 as int;
        let ghost tid = id.0 as int;
        let ghost keep = |m: RowModel| !row_matches(m, c, tid);
        let ghost hit = |m: RowModel| row_matches(m, c, tid);
        let mut out: Vec<Entry> = Vec::new();
        let mut n: u64 = 0;
        let mut i: usize = 0;
        proof {
            assert(out@.map_values(|e: Entry| e@) =~= old(self)@.take(0).filter(keep));
            assert(old(self)@.take(0).filter(hit) =~= Seq::<RowModel>::empty());
        }
        while i < self.entries.len()
            invariant
                0 <= i <= self.entries.len(),
                self == old(self),
                c == chat.0 as int,
                tid == id.0 as int,
                keep == (|m: RowModel| !row_matches(m, c, tid)),
                hit == (|m: RowModel| row_matches(m, c, tid)),
                out@.map_values(|e: Entry| e@) == old(self)@.take(i as int).filter(keep),
                n == old(self)@.take(i as int).filter(hit).len(),
                n <= i,
            decreases self.entries.len() - i,
        {
            let e = &self.entries[i];
            let matches = e.chat == chat && e.item.id == id;
            if matches {
                n = n + 1;
            } else {
                out.push(
                    Entry {
                        chat: e.chat,
                        item: Item {
                            id: e.item.id,
                            text: e.item.text.clone(),
                            done: e.item.done,
                        },
                    },
                );
            }
            proof {
                assert(old(self)@.take(i + 1) =~= old(self)@.take(i as int).push(
                    old(self)@[i as int],
                ));
                old(self)@.take(i as int).lemma_filter_push(old(self)@[i as int], keep);
                old(self)@.take(i as int).lemma_filter_push(old(self)@[i as int], hit);
                assert(out@.map_values(|e: Entry| e@) =~= old(self)@.take(i + 1).filter(keep));
            }
            i = i + 1;
        }
        self.entries = out;
        proof {
            assert(old(self)@.take(old(self)@.len() as int) =~= old(self)@);
        }
        n
    }

    /// Remove every id of `ids` from `chat`; ids already gone, or owned by
    /// another list, are no-ops.  An empty input removes nothing.
    pub fn delete_items(&mut self, chat: ChatKey, ids: &Vec<ItemId>) -> (r: u64)
        requires
            old(self).wf(),
        ensures
            final(self).wf(),
            final(self)@ == delete_many_model(
                old(self)@,
                chat.0 as int,
                ids@.map_values(|x: ItemId| x.0 as int),
            ),
            r == old(self)@.len() - final(self)@.len(),
            final(self).next_id_spec() == old(self).next_id_spec(),
    {
        let ghost c = chat.0 as int;
        let ghost idset = ids@.map_values(|x: ItemId| x.0 as int);
        let ghost keep = |m: RowModel| !(m.chat == c && idset.contains(m.id));
        let mut out: Vec<Entry> = Vec::new();
        let mut i: usize = 0;
        proof {
            assert(out@.map_values(|e: Entry| e@) =~= old(self)@.take(0).filter(keep));
        }
        while i < self.entries.len()
            invariant
                0 <= i <= self.entries.len(),
                self == old(self),
                c == chat.0 as int,
                idset == ids@.map_values(|x: ItemId| x.0 as int),
                keep == (|m: RowModel| !(m.chat == c && idset.contains(m.id))),
                out@.map_values(|e: Entry| e@) == old(self)@.take(i as int).filter(keep),
            decreases self.entries.len() - i,
        {
            let e = &self.entries[i];
            let matches = e.chat == chat && contains_id(ids, e.item.id);
            if !matches {
                out.push(
                    Entry {
                        chat: e.chat,
                        item: Item {
                            id: e.item.id,
                            text: e.item.text.clone(),
                            done: e.item.done,
                        },
                    },
                );
            }
            proof {
                assert(old(self)@.take(i + 1) =~= old(self)@.take(i as int).push(
                    old(self)@[i as int],
                ));
                old(self)@.take(i as int).lemma_filter_push(old(self)@[i as int], keep);
                assert(out@.map_values(|e: Entry| e@) =~= old(self)@.take(i + 1).filter(keep));
            }
            i = i + 1;
        }
        let before = self.entries.len();
        let after = out.len();
        self.entries = out;
        proof {
            assert(old(self)@.take(old(self)@.len() as int) =~= old(self)@);
            lemma_filter_increasing(old(self)@, keep);
            lemma_filter_shorter(old(self)@, keep);
            assert forall|k: int| 0 <= k < self@.len() implies self@[k].id
                < self.next_id as int by {
                assert(self@.contains(self@[k]));
                old(self)@.lemma_filter_contains_rev(keep, self@[k]);
                let j = choose|j: int|
                    0 <= j < old(self)@.len() && old(self)@[j] == self@[k];
                assert(old(self)@[j].id < old(self).next_id as int);
            }
        }
        (before - after) as u64
    }

    /// Clear the whole list `chat`; other lists never change.
    pub fn delete_all(&mut self, chat: ChatKey) -> (r: u64)
        requires
            old(self).wf(),
        ensures
            final(self).wf(),
            final(self)@ == delete_all_model(old(self)@, chat.0 as int),
            r == old(self)@.len() - final(self)@.len(),
            final(self).next_id_spec() == old(self).next_id_spec(),
    {
        let ghost c = chat.0 as int;
        let ghost keep = |m: RowModel| m.chat != c;
        let mut out: Vec<Entry> = Vec::new();
        let mut i: usize = 0;
        proof {
            assert(out@.map_values(|e: Entry| e@) =~= old(self)@.take(0).filter(keep));
        }
        while i < self.entries.len()
            invariant
                0 <= i <= self.entries.len(),
                self == old(self),
                c == chat.0 as int,
                keep == (|m: RowModel| m.chat != c),
                out@.map_values(|e: Entry| e@) == old(self)@.take(i as int).filter(keep),
            decreases self.entries.len() - i,
        {
            let e = &self.entries[i];
            if !(e.chat == chat) {
                out.push(
                    Entry {
                        chat: e.chat,
                        item: Item {
                            id: e.item.id,
                            text: e.item.text.clone(),
                            done: e.item.done,
                        },
                    },
                );
            }
            proof {
                assert(old(self)@.take(i + 1) =~= old(self)@.take(i as int).push(
                    old(self)@[i as int],
                ));
                old(self)@.take(i as int).lemma_filter_push(old(self)@[i as int], keep);
                assert(out@.map_values(|e: Entry| e@) =~= old(self)@.take(i + 1).filter(keep));
            }
            i = i + 1;
        }
        let before = self.entries.len();
        let after = out.len();
        self.entries = out;
        proof {
            assert(old(self)@.take(old(self)@.len() as int) =~= old(self)@);
            lemma_filter_increasing(old(self)@, keep);
            lemma_filter_shorter(old(self)@, keep);
            assert forall|k: int| 0 <= k < self@.len() implies self@[k].id
                < self.next_id as int by {
                assert(self@.contains(self@[k]));
                old(self)@.lemma_filter_contains_rev(keep, self@[k]);
                let j = choose|j: int|
                    0 <= j < old(self)@.len() && old(self)@[j] == self@[k];
                assert(old(self)@[j].id < old(self).next_id as int);
            }
        }
        (before - after) as u64
    }
}

/// Whether `ids` holds `id`.
fn contains_id(ids: &Vec<ItemId>, id: ItemId) -> (r: bool)
    ensures
        r == ids@.map_values(|x: ItemId| x.0 as int).contains(id.0 as int),
{
    let ghost mapped = ids@.map_values(|x: ItemId| x.0 as int);
    let mut i: usize = 0;
    while i < ids.len()
        invariant
            0 <= i <= ids@.len(),
            mapped == ids@.map_values(|x: ItemId| x.0 as int),
            forall|j: int| 0 <= j < i ==> mapped[j] != id.0 as int,
        decreases ids@.len() - i,
    {
        if ids[i] == id {
            proof {
                assert(mapped[i as int] == id.0 as int);
            }
            return true;
        }
        i = i + 1;
    }
    proof {
        assert(forall|j: int| 0 <= j < mapped.len() ==> mapped[j] != id.0 as int);
    }
    false
}

/// Cross-list isolation: an id owned by one list is untouched by any
/// mutation scoped to a different list, and that mutation affects zero
/// rows.
pub proof fn lemma_cross_list_isolation(
    s: Seq<RowModel>,
    chat_a: int,
    chat_b: int,
    id: int,
    k: int,
)
    requires
        ids_increasing(s),
        0 <= k < s.len(),
        s[k].id == id,
        s[k].chat == chat_a,
        chat_a != chat_b,
    ensures
        toggle_model(s, chat_b, id) == s,
        delete_model(s, chat_b, id) == s,
        count_matches(s, chat_b, id) == 0,
{
    assert forall|j: int| 0 <= j < s.len() implies !row_matches(s[j], chat_b, id) by {
        if s[j].id == id {
            if j < k {
                assert(s[j].id < s[k].id);
            } else if j > k {
                assert(s[k].id < s[j].id);
            }
            assert(j == k);
        }
    }
    assert(toggle_model(s, chat_b, id) =~= s);
    lemma_filter_all_kept(s, |m: RowModel| !row_matches(m, chat_b, id));
    assert(delete_model(s, chat_b, id) =~= s);
    lemma_filter_none_kept(s, |m: RowModel| row_matches(m, chat_b, id));
}

/// A filter whose predicate holds everywhere keeps the sequence intact.
proof fn lemma_filter_all_kept(s: Seq<RowModel>, p: spec_fn(RowModel) -> bool)
    requires
        forall|j: int| 0 <= j < s.len() ==> p(s[j]),
    ensures
        s.filter(p) == s,
    decreases s.len(),
{
    if s.len() > 0 {
        let t = s.drop_last();
        lemma_filter_all_kept(t, p);
        assert(s =~= t.push(s.last()));
        t.lemma_filter_push(s.last(), p);
        assert(s.filter(p) =~= s);
    } else {
        assert(s.filter(p) =~= s);
    }
}

/// A filter whose predicate holds nowhere keeps nothing.
proof fn lemma_filter_none_kept(s: Seq<RowModel>, p: spec_fn(RowModel) -> bool)
    requires
        forall|j: int| 0 <= j < s.len() ==> !p(s[j]),
    ensures
        s.filter(p).len() == 0,
    decreases s.len(),
{
    if s.len() > 0 {
        let t = s.drop_last();
        lemma_filter_none_kept(t, p);
        assert(s =~= t.push(s.last()));
        t.lemma_filter_push(s.last(), p);
    }
}

} // verus!

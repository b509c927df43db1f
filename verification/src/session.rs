//! Delete sessions: one per user, binding them to the list they are
//! editing, the ids they have selected, and the messages the workflow uses.
//!
//! The selection is persisted as a sorted, comma-delimited string;
//! serializing and parsing are verified inverse to each other.

use vstd::prelude::*;

use crate::assoc::{assoc_map, keys_unique, lemma_assoc_get, lemma_assoc_no_key_no_binding,
    lemma_assoc_push, lemma_assoc_remove};
use crate::idset::IdSet;
use crate::numtext::{dec_int, fmt_i64, lemma_dec_int_no_comma, lemma_parse_dec_int, parse_i64,
    parse_int_spec};
use crate::strutil::{find_by, lemma_find_by_at, split_by, split_commas};
use crate::types::{ChatKey, ItemId};

verus! {

broadcast use vstd::set::group_set_axioms, vstd::seq_lib::group_seq_lib_default;

/// A user's delete workflow record.
pub struct DeleteSession {
    /// The list this session is editing.
    pub chat_id: ChatKey,
    /// Item ids currently marked for deletion.
    pub selected: IdSet,
    /// The group-visible notice message, as chat and message id, when the
    /// workflow started from a non-private context.
    pub notice: Option<(i64, i32)>,
    /// The private panel message hosting the selection controls; the sole
    /// authority on whether an incoming action is current.
    pub dm_message_id: Option<i32>,
}

/// The per-user session store: at most one session per user, globally.
pub struct SessionStore {
    entries: Vec<(i64, DeleteSession)>,
}

impl View for SessionStore {
    type V = Map<int, DeleteSession>;

    closed spec fn view(&self) -> Map<int, DeleteSession> {
        assoc_map(self.entries@)
    }
}

impl SessionStore {
    /// Well-formed: one record per user, each with a well-formed selection.
    pub closed spec fn wf(&self) -> bool {
        &&& keys_unique(self.entries@)
        &&& forall|i: int|
            0 <= i < self.entries@.len() ==> (#[trigger] self.entries@[i].1).selected.wf()
    }

    pub fn new() -> (r: SessionStore)
        ensures
            r.wf(),
            r@ == Map::<int, DeleteSession>::empty(),
    {
        SessionStore { entries: Vec::new() }
    }

    fn find_index(&self, user: i64) -> (r: Option<usize>)
        ensures
            match r {
                Some(i) => i < self.entries@.len() && self.entries@[i as int].0 == user,
                None => forall|j: int|
                    0 <= j < self.entries@.len() ==> self.entries@[j].0 != user,
            },
    {
        let mut i: usize = 0;
        while i < self.entries.len()
            invariant
                0 <= i <= self.entries@.len(),
                forall|j: int| 0 <= j < i ==> self.entries@[j].0 != user,
            decreases self.entries@.len() - i,
        {
            if self.entries[i].0 == user {
                return Some(i);
            }
            i = i + 1;
        }
        None
    }

    /// Borrow the user's session, if one exists.
    pub fn get(&self, user: i64) -> (r: Option<&DeleteSession>)
        requires
            self.wf(),
        ensures
            match r {
                Some(s) => self@.contains_key(user as int) && *s == self@[user as int],
                None => !self@.contains_key(user as int),
            },
    {
        match self.find_index(user) {
            Some(i) => {
                proof {
                    lemma_assoc_get(self.entries@, i as int);
                }
                Some(&self.entries[i].1)
            },
            None => {
                proof {
                    lemma_assoc_no_key_no_binding(self.entries@, user as int);
                }
                None
            },
        }
    }

    /// Remove and return the user's session, if one exists.
    pub fn take(&mut self, user: i64) -> (r: Option<DeleteSession>)
        requires
            old(self).wf(),
        ensures
            final(self).wf(),
            final(self)@ == old(self)@.remove(user as int),
            match r {
                Some(s) => old(self)@.contains_key(user as int) && s == old(self)@[user as int]
                    && s.selected.wf(),
                None => !old(self)@.contains_key(user as int),
            },
    {
        let ghost before = self.entries@;
        match self.find_index(user) {
            Some(i) => {
                proof {
                    lemma_assoc_get(before, i as int);
                    lemma_assoc_remove(before, i as int);
                }
                let pair = self.entries.remove(i);
                proof {
                    assert(keys_unique(self.entries@)) by {
                        assert(forall|j: int|
                            0 <= j < self.entries@.len() ==> #[trigger] self.entries@[j] == (
                            if j < i as int {
                                before[j]
                            } else {
                                before[j + 1]
                            }));
                    }
                    assert(forall|j: int|
                        0 <= j < self.entries@.len() ==> #[trigger] self.entries@[j] == (
                        if j < i as int {
                            before[j]
                        } else {
                            before[j + 1]
                        }));
                }
                Some(pair.1)
            },
            None => {
                proof {
                    lemma_assoc_no_key_no_binding(before, user as int);
                    assert(old(self)@ =~= old(self)@.remove(user as int));
                }
                None
            },
        }
    }

    /// Store the user's session, replacing any existing one.
    pub fn put(&mut self, user: i64, session: DeleteSession)
        requires
            old(self).wf(),
            session.selected.wf(),
        ensures
            final(self).wf(),
            final(self)@ == old(self)@.insert(user as int, session),
    {
        let ghost before = self.entries@;
        match self.find_index(user) {
            Some(i) => {
                proof {
                    lemma_assoc_remove(before, i as int);
                }
                self.entries.remove(i);
                proof {
                    assert(forall|j: int|
                        0 <= j < self.entries@.len() ==> #[trigger] self.entries@[j] == (
                        if j < i as int {
                            before[j]
                        } else {
                            before[j + 1]
                        }));
                    assert(keys_unique(self.entries@));
                    assert(forall|j: int|
                        0 <= j < self.entries@.len() ==> #[trigger] self.entries@[j].0 != user);
                }
            },
            None => {},
        }
        let ghost mid = self.entries@;
        self.entries.push((user, session));
        proof {
            lemma_assoc_push(mid, user, session);
            assert(final(self)@ =~= old(self)@.insert(user as int, session));
            assert(keys_unique(self.entries@)) by {
                assert(forall|j: int| 0 <= j < mid.len() ==> #[trigger] mid[j].0 != user);
            }
            assert(forall|i: int|
                0 <= i < mid.len() ==> (#[trigger] mid[i].1).selected.wf());
        }
    }
}

/// The serialized selection: ids in ascending order, comma-delimited,
/// nothing for the empty selection.
pub open spec fn join_ids(ids: Seq<int>) -> Seq<char>
    decreases ids.len(),
{
    if ids.len() == 0 {
        Seq::empty()
    } else if ids.len() == 1 {
        dec_int(ids[0])
    } else {
        dec_int(ids[0]) + seq![','] + join_ids(ids.skip(1))
    }
}

/// The ids recovered from a serialized selection: split at commas, keep
/// the pieces that parse as integers.
pub open spec fn parsed_ids(s: Seq<char>) -> Seq<i64> {
    split_by(s, |c: char| c == ',').filter_map(|p: Seq<char>| parse_int_spec(p))
}

/// The selection a serialized string denotes.
pub open spec fn selection_of(s: Seq<char>) -> Set<int> {
    parsed_ids(s).map_values(|v: i64| v as int).to_set()
}

/// Appending an id extends the serialization with a comma and its digits.
proof fn lemma_join_push(ids: Seq<int>, v: int)
    ensures
        join_ids(ids.push(v)) == if ids.len() == 0 {
            dec_int(v)
        } else {
            join_ids(ids) + seq![','] + dec_int(v)
        },
    decreases ids.len(),
{
    let w = ids.push(v);
    if ids.len() == 0 {
        assert(w.len() == 1);
        assert(w[0] == v);
    } else {
        assert(w.skip(1) =~= ids.skip(1).push(v));
        lemma_join_push(ids.skip(1), v);
        if ids.len() == 1 {
            assert(ids.skip(1).len() == 0);
            assert(join_ids(w) == dec_int(w[0]) + seq![','] + join_ids(w.skip(1)));
            assert(join_ids(w.skip(1)) == dec_int(v));
            assert(join_ids(ids) == dec_int(ids[0]));
        } else {
            assert(join_ids(w) == dec_int(w[0]) + seq![','] + join_ids(w.skip(1)));
            assert(join_ids(ids) + seq![','] + dec_int(v) =~= dec_int(ids[0]) + seq![','] + (
            join_ids(ids.skip(1)) + seq![','] + dec_int(v)));
        }
    }
}

/// Splitting the serialization recovers each id's digit string.
proof fn lemma_split_join(ids: Seq<int>)
    ensures
        split_by(join_ids(ids), |c: char| c == ',') == if ids.len() == 0 {
            seq![Seq::<char>::empty()]
        } else {
            ids.map_values(|v: int| dec_int(v))
        },
    decreases ids.len(),
{
    let p = |c: char| c == ',';
    let s = join_ids(ids);
    if ids.len() == 0 {
        assert(s.len() == 0);
        lemma_find_by_at(s, p, 0);
        assert(split_by(s, p) =~= seq![s]);
        assert(s =~= Seq::<char>::empty());
    } else {
        let d = dec_int(ids[0]);
        lemma_dec_int_no_comma(ids[0]);
        if ids.len() == 1 {
            assert(s == d);
            assert(forall|j: int| 0 <= j < s.len() ==> s[j] != ',');
            lemma_find_by_at(s, p, s.len() as int);
            assert(split_by(s, p) == seq![s]);
            assert(ids.map_values(|v: int| dec_int(v)) =~= seq![d]);
        } else {
            assert(s == d + seq![','] + join_ids(ids.skip(1)));
            assert(forall|j: int| 0 <= j < d.len() ==> s[j] == d[j]);
            assert(s[d.len() as int] == ',');
            lemma_find_by_at(s, p, d.len() as int);
            assert(find_by(s, p) == d.len() as int);
            assert(split_by(s, p) == seq![s.take(d.len() as int)] + split_by(
                s.skip(d.len() as int + 1),
                p,
            ));
            assert(s.take(d.len() as int) =~= d);
            assert(s.skip(d.len() as int + 1) =~= join_ids(ids.skip(1)));
            lemma_split_join(ids.skip(1));
            assert(split_by(s, p) =~= ids.map_values(|v: int| dec_int(v))) by {
                assert(ids.skip(1).map_values(|v: int| dec_int(v)) =~= ids.map_values(
                    |v: int| dec_int(v),
                ).skip(1));
            }
        }
    }
}

/// When every piece parses, filtering out failures is just mapping.
proof fn lemma_filter_map_all_parse(pieces: Seq<Seq<char>>, vals: Seq<i64>)
    requires
        pieces.len() == vals.len(),
        forall|i: int| 0 <= i < pieces.len() ==> parse_int_spec(pieces[i]) == Some(vals[i]),
    ensures
        pieces.filter_map(|p: Seq<char>| parse_int_spec(p)) == vals,
    decreases pieces.len(),
{
    let f = |p: Seq<char>| parse_int_spec(p);
    if pieces.len() == 0 {
        assert(pieces.filter_map(f) =~= vals);
    } else {
        lemma_filter_map_all_parse(pieces.drop_last(), vals.drop_last());
        assert(f(pieces.last()) == Some(vals.last()));
        assert(pieces.filter_map(f) == pieces.drop_last().filter_map(f) + seq![vals.last()]);
        assert(pieces.filter_map(f) =~= vals);
    }
}

/// Round trip: serializing any in-range selection and parsing it back
/// yields the same set of ids, the empty selection included.
pub proof fn lemma_selection_round_trip(ids: Seq<int>)
    requires
        forall|i: int| 0 <= i < ids.len() ==> i64::MIN <= #[trigger] ids[i] <= i64::MAX,
    ensures
        selection_of(join_ids(ids)) == ids.to_set(),
{
    let p = |c: char| c == ',';
    let f = |q: Seq<char>| parse_int_spec(q);
    lemma_split_join(ids);
    if ids.len() == 0 {
        let pieces = seq![Seq::<char>::empty()];
        assert(parse_int_spec(Seq::<char>::empty()) is None);
        assert(pieces.filter_map(f) =~= Seq::<i64>::empty()) by {
            assert(pieces.drop_last() =~= Seq::<Seq<char>>::empty());
            assert(pieces.drop_last().filter_map(f) =~= Seq::<i64>::empty());
        }
        assert(parsed_ids(join_ids(ids)) =~= Seq::<i64>::empty());
        assert(selection_of(join_ids(ids)) =~= ids.to_set());
    } else {
        let pieces = ids.map_values(|v: int| dec_int(v));
        let vals = ids.map_values(|v: int| v as i64);
        assert forall|i: int| 0 <= i < pieces.len() implies parse_int_spec(pieces[i]) == Some(
            vals[i],
        ) by {
            lemma_parse_dec_int(ids[i] as i64);
            assert(dec_int((ids[i] as i64) as int) == dec_int(ids[i]));
        }
        lemma_filter_map_all_parse(pieces, vals);
        assert(parsed_ids(join_ids(ids)) == vals);
        assert(vals.map_values(|v: i64| v as int) =~= ids);
        assert(selection_of(join_ids(ids)) == ids.to_set());
    }
}

/// Parse a stored selection string: comma-separated ids, anything
/// unparsable skipped, the empty string giving the empty selection.
pub fn parse_selected(s: &str) -> (r: IdSet)
    ensures
        r.wf(),
        r@ == selection_of(s@),
{
    let pieces = split_commas(s);
    let ghost pseq = split_by(s@, |c: char| c == ',');
    let ghost f = |q: Seq<char>| parse_int_spec(q);
    let mut out = IdSet::new();
    let mut i: usize = 0;
    proof {
        assert(pseq.take(0).filter_map(f) =~= Seq::<i64>::empty());
        assert(out@ =~= pseq.take(0).filter_map(f).map_values(|v: i64| v as int).to_set());
    }
    while i < pieces.len()
        invariant
            0 <= i <= pieces.len(),
            pieces.deep_view() == pseq,
            f == (|q: Seq<char>| parse_int_spec(q)),
            out.wf(),
            out@ == pseq.take(i as int).filter_map(f).map_values(|v: i64| v as int).to_set(),
        decreases pieces.len() - i,
    {
        let ghost prev = out@;
        match parse_i64(pieces[i].as_str()) {
            Some(v) => {
                out.insert(ItemId(v));
                proof {
                    assert(out@ == prev.insert(v as int));
                }
            },
            None => {},
        }
        proof {
            pseq.lemma_filter_map_take_succ(f, i as int);
            assert(pieces@[i as int]@ == pseq[i as int]);
            let taken = pseq.take(i as int).filter_map(f);
            let next = pseq.take(i + 1).filter_map(f);
            match f(pseq[i as int]) {
                Some(v) => {
                    assert(next =~= taken.push(v));
                    assert(next.map_values(|v: i64| v as int) =~= taken.map_values(
                        |v: i64| v as int,
                    ).push(v as int));
                    taken.map_values(|v: i64| v as int).lemma_push_to_set_commute(v as int);
                    assert(out@ =~= next.map_values(|v: i64| v as int).to_set());
                },
                None => {
                    assert(next =~= taken);
                },
            }
        }
        i = i + 1;
    }
    proof {
        assert(pseq.take(pseq.len() as int) =~= pseq);
    }
    out
}

/// Serialize a selection: its ids ascending, joined with commas.
pub fn join_selected(set: &IdSet) -> (r: String)
    ensures
        r@ == join_ids(set.ids()),
{
    let ids = set.to_ids();
    let mut out = String::new();
    let mut i: usize = 0;
    proof {
        assert(set.ids().take(0) =~= Seq::<int>::empty());
        assert(out@ =~= join_ids(set.ids().take(0)));
    }
    while i < ids.len()
        invariant
            0 <= i <= ids@.len(),
            ids@.map_values(|v: ItemId| v.0 as int) == set.ids(),
            out@ == join_ids(set.ids().take(i as int)),
        decreases ids@.len() - i,
    {
        if i > 0 {
            out.append(",");
            proof {
                reveal_strlit(",");
            }
        }
        let piece = fmt_i64(ids[i].0);
        out.append(piece.as_str());
        proof {
            reveal_strlit(",");
            assert(set.ids().take(i + 1) =~= set.ids().take(i as int).push(set.ids()[i as int]));
            lemma_join_push(set.ids().take(i as int), set.ids()[i as int]);
            assert(set.ids()[i as int] == ids@[i as int].0 as int);
            assert(out@ =~= join_ids(set.ids().take(i + 1)));
        }
        i = i + 1;
    }
    proof {
        assert(set.ids().take(set.ids().len() as int) =~= set.ids());
    }
    out
}

} // verus!

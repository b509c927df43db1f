//! The selection of a delete session: a set of item ids, kept as a
//! strictly sorted vector so that serialization is canonical.

use vstd::prelude::*;

use crate::types::ItemId;

verus! {

broadcast use vstd::set::group_set_axioms;

/// Membership of `x` flipped: selection toggling is pure set XOR.
pub open spec fn toggle_sel(s: Set<int>, x: int) -> Set<int> {
    if s.contains(x) {
        s.remove(x)
    } else {
        s.insert(x)
    }
}

/// The selection after toggling the same id `n` times.
pub open spec fn toggle_n(s: Set<int>, x: int, n: nat) -> Set<int>
    decreases n,
{
    if n == 0 {
        s
    } else {
        toggle_sel(toggle_n(s, x, (n - 1) as nat), x)
    }
}

/// Toggling flips membership of the toggled id and nothing else.
pub proof fn lemma_toggle_flips(s: Set<int>, x: int)
    ensures
        toggle_sel(s, x).contains(x) == !s.contains(x),
        forall|y: int| y != x ==> toggle_sel(s, x).contains(y) == s.contains(y),
{
}

/// Toggling twice restores the selection.
pub proof fn lemma_toggle_twice(s: Set<int>, x: int)
    ensures
        toggle_sel(toggle_sel(s, x), x) == s,
{
    assert(toggle_sel(toggle_sel(s, x), x) =~= s);
}

/// Selection XOR idempotence: an even number of toggles of one id leaves
/// the selection as it was; an odd number flips that id's membership
/// exactly once.
pub proof fn lemma_toggle_parity(s: Set<int>, x: int, n: nat)
    ensures
        n % 2 == 0 ==> toggle_n(s, x, n) == s,
        n % 2 == 1 ==> toggle_n(s, x, n) == toggle_sel(s, x),
    decreases n,
{
    if n == 0 {
    } else if n == 1 {
        assert(toggle_n(s, x, 0) == s);
        assert(toggle_n(s, x, 1) == toggle_sel(s, x));
    } else {
        assert((n - 2) % 2 == n % 2);
        lemma_toggle_parity(s, x, (n - 2) as nat);
        assert(toggle_n(s, x, n) == toggle_sel(toggle_n(s, x, (n - 1) as nat), x));
        assert(toggle_n(s, x, (n - 1) as nat) == toggle_sel(toggle_n(s, x, (n - 2) as nat), x));
        lemma_toggle_twice(toggle_n(s, x, (n - 2) as nat), x);
        assert(toggle_n(s, x, n) == toggle_n(s, x, (n - 2) as nat));
    }
}

/// A set of item ids, stored in strictly increasing order.
pub struct IdSet {
    elems: Vec<ItemId>,
}

impl View for IdSet {
    type V = Set<int>;

    open spec fn view(&self) -> Set<int> {
        self.ids().to_set()
    }
}

impl IdSet {
    /// The ids in their stored (ascending) order.
    pub closed spec fn ids(&self) -> Seq<int> {
        self.elems@.map_values(|x: ItemId| x.0 as int)
    }

    /// Well-formed: strictly ascending, hence duplicate-free.
    pub open spec fn wf(&self) -> bool {
        forall|i: int, j: int| 0 <= i < j < self.ids().len() ==> self.ids()[i] < self.ids()[j]
    }

    pub fn new() -> (r: IdSet)
        ensures
            r.wf(),
            r@ == Set::<int>::empty(),
            r.ids() == Seq::<int>::empty(),
    {
        let r = IdSet { elems: Vec::new() };
        proof {
            assert(r.ids() =~= Seq::<int>::empty());
            assert(r@ =~= Set::<int>::empty());
        }
        r
    }

    /// How many ids are selected.
    pub fn len(&self) -> (r: usize)
        ensures
            r == self.ids().len(),
    {
        self.elems.len()
    }

    pub fn is_empty(&self) -> (r: bool)
        ensures
            r == (self.ids().len() == 0),
    {
        self.elems.len() == 0
    }

    /// Whether `id` is selected.
    pub fn contains(&self, id: ItemId) -> (r: bool)
        ensures
            r == self@.contains(id.0 as int),
    {
        let ghost x = id.0 as int;
        let mut i: usize = 0;
        while i < self.elems.len()
            invariant
                0 <= i <= self.elems@.len(),
                forall|j: int| 0 <= j < i ==> self.ids()[j] != id.0 as int,
            decreases self.elems@.len() - i,
        {
            if self.elems[i] == id {
                proof {
                    assert(self.ids()[i as int] == id.0 as int);
                    assert(self.ids().contains(id.0 as int));
                }
                return true;
            }
            i = i + 1;
        }
        proof {
            assert(forall|j: int| 0 <= j < self.ids().len() ==> self.ids()[j] != id.0 as int);
            assert(!self.ids().contains(id.0 as int));
        }
        false
    }

    /// Flip membership of `id`: pure set XOR on the selection.
    pub fn toggle(&mut self, id: ItemId)
        requires
            old(self).wf(),
        ensures
            final(self).wf(),
            final(self)@ == toggle_sel(old(self)@, id.0 as int),
    {
        let ghost x = id.0 as int;
        let ghost before = self.ids();
        let mut pos: usize = 0;
        while pos < self.elems.len() && self.elems[pos].0 < id.0
            invariant
                0 <= pos <= self.elems@.len(),
                self == old(self),
                forall|j: int| 0 <= j < pos ==> self.ids()[j] < id.0 as int,
            decreases self.elems@.len() - pos,
        {
            pos = pos + 1;
        }
        if pos < self.elems.len() && self.elems[pos] == id {
            // Present: remove it.
            proof {
                assert(before[pos as int] == x);
                assert(before.contains(x));
                assert(old(self)@.contains(x));
            }
            self.elems.remove(pos);
            proof {
                assert(self.ids() =~= before.remove(pos as int));
                let now = self.ids();
                assert(forall|i: int, j: int|
                    0 <= i < j < now.len() ==> now[i] < now[j]) by {
                    assert(forall|i: int|
                        0 <= i < now.len() ==> #[trigger] now[i] == (if i < pos as int {
                            before[i]
                        } else {
                            before[i + 1]
                        }));
                }
                assert(forall|i: int|
                    0 <= i < now.len() ==> #[trigger] now[i] == (if i < pos as int {
                        before[i]
                    } else {
                        before[i + 1]
                    }));
                assert forall|y: int| now.contains(y) implies before.contains(y) && y != x by {
                    let i = choose|i: int| 0 <= i < now.len() && now[i] == y;
                    if i < pos as int {
                        assert(before[i] == y);
                        assert(before[i] < x);
                    } else {
                        assert(before[i + 1] == y);
                        assert(before[pos as int] < before[i + 1]);
                    }
                }
                assert forall|y: int| before.contains(y) && y != x implies now.contains(y) by {
                    let i = choose|i: int| 0 <= i < before.len() && before[i] == y;
                    if i < pos as int {
                        assert(now[i] == y);
                        assert(now.contains(y));
                    } else {
                        assert(i != pos as int);
                        assert(now[i - 1] == y);
                        assert(now.contains(y));
                    }
                }
                assert(self@ =~= old(self)@.remove(x));
            }
        } else {
            // Absent: insert it, keeping the order.
            proof {
                assert forall|j: int| 0 <= j < before.len() implies before[j] != x by {
                    if j < pos as int {
                        assert(before[j] < x);
                    } else {
                        assert(pos < self.elems.len());
                        assert(before[pos as int] > x);
                        if j > pos as int {
                            assert(before[pos as int] < before[j]);
                        }
                    }
                }
                assert(!before.contains(x));
                assert(!old(self)@.contains(x));
            }
            self.elems.insert(pos, id);
            proof {
                assert(self.ids() =~= before.insert(pos as int, x));
                let now = self.ids();
                assert(forall|i: int|
                    0 <= i < now.len() ==> #[trigger] now[i] == (if i < pos as int {
                        before[i]
                    } else if i == pos as int {
                        x
                    } else {
                        before[i - 1]
                    }));
                assert(forall|i: int, j: int|
                    0 <= i < j < now.len() ==> now[i] < now[j]) by {
                    if pos < self.elems.len() - 1 {
                        assert(before[pos as int] > x);
                    }
                }
                assert forall|y: int| now.contains(y) implies before.contains(y) || y == x by {
                    let i = choose|i: int| 0 <= i < now.len() && now[i] == y;
                    if i < pos as int {
                        assert(before[i] == y);
                    } else if i > pos as int {
                        assert(before[i - 1] == y);
                    }
                }
                assert forall|y: int| before.contains(y) || y == x implies now.contains(y) by {
                    if y == x {
                        assert(now[pos as int] == y);
                    } else {
                        let i = choose|i: int| 0 <= i < before.len() && before[i] == y;
                        if i < pos as int {
                            assert(now[i] == y);
                        } else {
                            assert(now[i + 1] == y);
                        }
                    }
                }
                assert(self@ =~= old(self)@.insert(x));
            }
        }
    }


    /// Add `id` to the selection; a no-op when already selected.
    pub fn insert(&mut self, id: ItemId)
        requires
            old(self).wf(),
        ensures
            final(self).wf(),
            final(self)@ == old(self)@.insert(id.0 as int),
    {
        let ghost x = id.0 as int;
        let contained = self.contains(id);
        self.toggle(id);
        if contained {
            self.toggle(id);
            proof {
                lemma_toggle_twice(old(self)@, x);
                assert(old(self)@ =~= old(self)@.insert(x));
            }
        } else {
            proof {
                assert(toggle_sel(old(self)@, x) == old(self)@.insert(x));
            }
        }
    }

    /// The selected ids, ascending, for a bulk delete.
    pub fn to_ids(&self) -> (r: Vec<ItemId>)
        ensures
            r@.map_values(|v: ItemId| v.0 as int) == self.ids(),
    {
        let mut out: Vec<ItemId> = Vec::new();
        let mut i: usize = 0;
        proof {
            assert(out@.map_values(|v: ItemId| v.0 as int) =~= self.ids().take(0));
        }
        while i < self.elems.len()
            invariant
                0 <= i <= self.elems@.len(),
                out@.map_values(|v: ItemId| v.0 as int) == self.ids().take(i as int),
            decreases self.elems@.len() - i,
        {
            let ghost prev = out@;
            out.push(self.elems[i]);
            proof {
                assert(out@ =~= prev.push(self.elems@[i as int]));
                assert(out@.map_values(|v: ItemId| v.0 as int) =~= prev.map_values(
                    |v: ItemId| v.0 as int,
                ).push(self.elems@[i as int].0 as int));
                assert(self.ids().take(i + 1) =~= self.ids().take(i as int).push(
                    self.ids()[i as int],
                ));
                assert(self.ids()[i as int] == self.elems@[i as int].0 as int);
                assert(out@.map_values(|v: ItemId| v.0 as int) =~= self.ids().take(i + 1));
            }
            i = i + 1;
        }
        proof {
            assert(self.ids().take(self.ids().len() as int) =~= self.ids());
        }
        out
    }
}

} // verus!

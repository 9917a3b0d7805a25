use vstd::prelude::*;
use vstd::set_lib::{lemma_int_range, lemma_map_size, set_int_range};

verus! {

/// The value an identifier maps to once it has been removed; no slot can hold it.
pub const TOMBSTONE: usize = usize::MAX;

/// The identifier/slot tables behind a [`crate::Colony`].
///
/// `id_to_index[id]` is the slot of a live identifier (or `TOMBSTONE`),
/// `index_to_id[slot]` the identifier stored in an occupied slot, and `freed`
/// a stack of removed identifiers waiting to be handed out again.
#[derive(Debug, Clone)]
pub struct ColonyIndex {
    id_to_index: Vec<usize>,
    index_to_id: Vec<usize>,
    freed: Vec<usize>,
}

impl ColonyIndex {
    /// The identifier-to-slot table.
    pub closed spec fn id_slots(&self) -> Seq<usize> {
        self.id_to_index@
    }

    /// The slot-to-identifier table.
    pub closed spec fn slot_ids(&self) -> Seq<usize> {
        self.index_to_id@
    }

    /// The stack of identifiers available for reuse, top last.
    pub closed spec fn free_ids(&self) -> Seq<usize> {
        self.freed@
    }

    /// How many identifiers have ever been issued since the table was created.
    pub open spec fn issued(&self) -> nat {
        self.id_slots().len()
    }

    /// The number of occupied slots, which is also the number of live identifiers.
    pub open spec fn len(&self) -> int {
        self.id_slots().len() - self.free_ids().len()
    }

    /// The slot `id` resolves to, if it is live.
    pub open spec fn slot_of(&self, id: int) -> Option<usize> {
        if 0 <= id < self.id_slots().len() && self.id_slots()[id] != TOMBSTONE {
            Some(self.id_slots()[id])
        } else {
            None
        }
    }

    pub open spec fn is_live(&self, id: int) -> bool {
        self.slot_of(id) is Some
    }

    /// The identifiers that currently resolve to a slot.
    pub open spec fn live_ids(&self) -> Set<usize> {
        Set::new(|id: usize| self.is_live(id as int))
    }

    /// The two tables are inverse to each other on the occupied slots `0..len`,
    /// and the free stack holds distinct, tombstoned identifiers.
    pub open spec fn wf(&self) -> bool {
        let n = self.id_slots().len();
        let k = self.len();
        &&& self.slot_ids().len() == n
        &&& self.free_ids().len() <= n
        &&& k <= TOMBSTONE
        &&& forall|s: int|
            0 <= s < k ==> {
                &&& #[trigger] self.slot_ids()[s] < n
                &&& self.id_slots()[self.slot_ids()[s] as int] == s
            }
        &&& forall|i: int|
            0 <= i < n && #[trigger] self.id_slots()[i] != TOMBSTONE ==> {
                &&& self.id_slots()[i] < k
                &&& self.slot_ids()[self.id_slots()[i] as int] == i
            }
        &&& forall|j: int|
            0 <= j < self.free_ids().len() ==> {
                &&& #[trigger] self.free_ids()[j] < n
                &&& self.id_slots()[self.free_ids()[j] as int] == TOMBSTONE
            }
        &&& self.free_ids().no_duplicates()
    }

    /// An empty table whose two tables are pre-sized for `capacity` identifiers.
    pub fn with_capacity(capacity: usize) -> (r: Self)
        ensures
            r.wf(),
            r.issued() == 0,
            r.len() == 0,
            r.free_ids().len() == 0,
    {
        ColonyIndex {
            id_to_index: Vec::with_capacity(capacity),
            index_to_id: Vec::with_capacity(capacity),
            freed: Vec::new(),
        }
    }

    /// Issues an identifier for the element about to occupy slot `index`,
    /// which must be the current number of occupied slots. The most recently
    /// freed identifier is reused first; otherwise a fresh one is allocated.
    pub fn insert(&mut self, index: usize) -> (id: usize)
        requires
            old(self).wf(),
            index == old(self).len(),
            old(self).len() < usize::MAX,
        ensures
            final(self).wf(),
            final(self).len() == old(self).len() + 1,
            !old(self).is_live(id as int),
            forall|j: int| #[trigger] old(self).is_live(j) ==> old(self).slot_of(j) != Some(index),
            final(self).slot_of(id as int) == Some(index),
            forall|i: int| i != id ==> #[trigger] final(self).slot_of(i) == old(self).slot_of(i),
            old(self).free_ids().len() > 0 ==> {
                &&& id == old(self).free_ids().last()
                &&& final(self).free_ids() == old(self).free_ids().drop_last()
                &&& final(self).issued() == old(self).issued()
            },
            old(self).free_ids().len() == 0 ==> {
                &&& id == old(self).issued()
                &&& final(self).free_ids().len() == 0
                &&& final(self).issued() == old(self).issued() + 1
            },
    {
        let ghost pre = *self;
        if let Some(id) = self.freed.pop() {
            proof {
                assert(pre.free_ids()[pre.free_ids().len() - 1] == id);
            }
            self.id_to_index.set(id, index);
            self.index_to_id.set(index, id);
            proof {
                let k = pre.len();
                assert forall|s: int| 0 <= s < k + 1 implies {
                    &&& #[trigger] self.slot_ids()[s] < self.issued()
                    &&& self.id_slots()[self.slot_ids()[s] as int] == s
                } by {
                    if s < k {
                        assert(pre.slot_ids()[s] != id) by {
                            assert(pre.id_slots()[pre.slot_ids()[s] as int] == s);
                        }
                    }
                }
                assert forall|j: int| 0 <= j < self.free_ids().len() implies {
                    &&& #[trigger] self.free_ids()[j] < self.issued()
                    &&& self.id_slots()[self.free_ids()[j] as int] == TOMBSTONE
                } by {
                    assert(pre.free_ids()[j] == self.free_ids()[j]);
                    assert(self.free_ids()[j] != id);
                }
            }
            return id;
        }
        let id = self.id_to_index.len();
        self.id_to_index.push(index);
        self.index_to_id.push(id);
        proof {
            assert forall|s: int| 0 <= s < self.len() implies {
                &&& #[trigger] self.slot_ids()[s] < self.issued()
                &&& self.id_slots()[self.slot_ids()[s] as int] == s
            } by {
                if s < pre.len() {
                    assert(pre.slot_ids()[s] == self.slot_ids()[s]);
                }
            }
        }
        id
    }

    /// The slot of `id`, which the caller knows to be live.
    pub fn to_index_unchecked(&self, id: usize) -> (slot: usize)
        requires
            self.is_live(id as int),
        ensures
            self.slot_of(id as int) == Some(slot),
    {
        self.id_to_index[id]
    }

    /// The slot of `id`, or `None` when `id` was never issued or has been removed.
    pub fn to_index(&self, id: usize) -> (slot: Option<usize>)
        ensures
            slot == self.slot_of(id as int),
    {
        if id >= self.id_to_index.len() {
            return None;
        }
        let index = self.id_to_index[id];
        if index == TOMBSTONE {
            return None;
        }
        Some(index)
    }

    /// Retires `target_id`, whose element is to be swap-removed from the buffer:
    /// the identifier in the last occupied slot `last_index` takes over the
    /// vacated slot, and `target_id` goes on the free stack. Returns the vacated
    /// slot, or `None` (changing nothing) when `target_id` is not live.
    pub fn remove(&mut self, target_id: usize, last_index: usize) -> (r: Option<usize>)
        requires
            old(self).wf(),
            old(self).is_live(target_id as int) ==> last_index as int == old(self).len() - 1,
        ensures
            final(self).wf(),
            r == old(self).slot_of(target_id as int),
            r is None ==> *final(self) == *old(self),
            r is Some ==> {
                &&& final(self).len() == old(self).len() - 1
                &&& final(self).issued() == old(self).issued()
                &&& final(self).free_ids() == old(self).free_ids().push(target_id)
                &&& !final(self).is_live(target_id as int)
                &&& forall|i: int|
                    i != target_id ==> #[trigger] final(self).slot_of(i) == if old(self).slot_of(i)
                        == Some(last_index) {
                        r
                    } else {
                        old(self).slot_of(i)
                    }
            },
    {
        if target_id >= self.id_to_index.len() {
            return None;
        }
        let target_index = self.id_to_index[target_id];
        if target_index == TOMBSTONE {
            return None;
        }
        let ghost pre = *self;
        let last_id = self.index_to_id[last_index];
        proof {
            assert(pre.id_slots()[last_id as int] == last_index);
            assert(pre.slot_ids()[target_index as int] == target_id);
            assert(!pre.free_ids().contains(target_id));
            assert forall|j: int| 0 <= j < pre.free_ids().len() implies #[trigger] pre.free_ids()[j]
                != last_id by {}
        }
        // Re-point the last identifier before tombstoning the target, so that
        // removing the element in the last slot still leaves a tombstone.
        self.id_to_index.set(last_id, target_index);
        self.index_to_id.set(target_index, last_id);
        self.id_to_index.set(target_id, TOMBSTONE);
        self.freed.push(target_id);
        proof {
            let k = pre.len();
            assert forall|s: int| 0 <= s < k - 1 implies {
                &&& #[trigger] self.slot_ids()[s] < self.issued()
                &&& self.id_slots()[self.slot_ids()[s] as int] == s
            } by {
                if s != target_index {
                    let x = pre.slot_ids()[s];
                    assert(pre.id_slots()[x as int] == s);
                }
            }
            assert forall|i: int|
                0 <= i < self.issued() && #[trigger] self.id_slots()[i] != TOMBSTONE implies {
                &&& self.id_slots()[i] < k - 1
                &&& self.slot_ids()[self.id_slots()[i] as int] == i
            } by {
                if i != last_id {
                    assert(pre.id_slots()[i] != TOMBSTONE);
                    assert(pre.slot_ids()[pre.id_slots()[i] as int] == i);
                }
            }
            assert forall|j: int| 0 <= j < self.free_ids().len() implies {
                &&& #[trigger] self.free_ids()[j] < self.issued()
                &&& self.id_slots()[self.free_ids()[j] as int] == TOMBSTONE
            } by {
                if j < pre.free_ids().len() {
                    assert(pre.free_ids()[j] == self.free_ids()[j]);
                }
            }
            assert forall|i: int| i != target_id implies #[trigger] self.slot_of(i) == if pre.slot_of(
                i,
            ) == Some(last_index) {
                Some(target_index)
            } else {
                pre.slot_of(i)
            } by {
                if 0 <= i < self.issued() && pre.id_slots()[i] == last_index {
                    assert(pre.slot_ids()[last_index as int] == i);
                }
            }
        }
        Some(target_index)
    }
}

/// No two distinct live identifiers resolve to the same slot.
pub proof fn lemma_slots_distinct(t: ColonyIndex, i: int, j: int)
    requires
        t.wf(),
        t.is_live(i),
        t.is_live(j),
        i != j,
    ensures
        t.slot_of(i) != t.slot_of(j),
{
    assert(t.slot_ids()[t.id_slots()[i] as int] == i);
    assert(t.slot_ids()[t.id_slots()[j] as int] == j);
}

/// The live identifiers are exactly as many as the occupied slots, and each
/// resolves to one of the slots `0..len`.
pub proof fn lemma_live_count(t: ColonyIndex)
    requires
        t.wf(),
    ensures
        t.live_ids().finite(),
        t.live_ids().len() == t.len(),
        forall|id: usize| #[trigger] t.live_ids().contains(id) ==> t.slot_of(id as int).unwrap() < t.len(),
{
    let slots = set_int_range(0, t.len());
    let f = |s: int| t.slot_ids()[s];
    lemma_int_range(0, t.len());
    assert forall|a: int, b: int| slots.contains(a) && slots.contains(b) && #[trigger] f(a) == #[trigger] f(b) implies a == b by {
        assert(t.id_slots()[t.slot_ids()[a] as int] == a);
        assert(t.id_slots()[t.slot_ids()[b] as int] == b);
    }
    assert forall|id: usize| #[trigger] t.live_ids().contains(id) <==> slots.map(f).contains(id) by {
        if t.live_ids().contains(id) {
            let s = t.id_slots()[id as int] as int;
            assert(slots.contains(s) && f(s) == id);
        }
        if slots.map(f).contains(id) {
            let s = choose|s: int| slots.contains(s) && f(s) == id;
            assert(t.id_slots()[t.slot_ids()[s] as int] == s);
        }
    }
    assert(slots.map(f) =~= t.live_ids());
    lemma_map_size(slots, t.live_ids(), f);
}

impl Default for ColonyIndex {
    /// An empty table: no identifier issued, none free.
    fn default() -> (r: Self)
        ensures
            r.wf(),
            r.issued() == 0,
            r.len() == 0,
            r.free_ids().len() == 0,
    {
        ColonyIndex { id_to_index: Vec::new(), index_to_id: Vec::new(), freed: Vec::new() }
    }
}

} // verus!

use vstd::prelude::*;

use crate::index::{lemma_live_count, lemma_slots_distinct, ColonyIndex};

verus! {

/// A cache-friendly packed associative container.
///
/// Elements sit densely in one buffer, in no particular order; each is reached
/// through the identifier that `insert` returned. Removal swaps the last
/// element into the vacated slot, so lookup, insertion and removal take
/// constant time. Identifiers of removed elements are handed out again.
#[derive(Debug, Clone)]
pub struct Colony<T> {
    index: ColonyIndex,
    elements: Vec<T>,
}

impl<T> Colony<T> {
    /// The identifier/slot tables.
    pub closed spec fn table(&self) -> ColonyIndex {
        self.index
    }

    /// The packed element buffer.
    pub closed spec fn elems(&self) -> Seq<T> {
        self.elements@
    }

    /// The tables are well formed and the buffer holds one element per live identifier.
    pub open spec fn wf(&self) -> bool {
        &&& self.table().wf()
        &&& self.elems().len() == self.table().len()
    }

    /// The value that identifier `id` resolves to, if any.
    pub open spec fn spec_get(&self, id: usize) -> Option<T> {
        match self.table().slot_of(id as int) {
            Some(s) => Some(self.elems()[s as int]),
            None => None,
        }
    }
}

impl<T> View for Colony<T> {
    type V = Map<usize, T>;

    /// Each live identifier with the value stored in its slot.
    open spec fn view(&self) -> Map<usize, T> {
        Map::new(|id: usize| self.spec_get(id) is Some, |id: usize| self.spec_get(id).unwrap())
    }
}

impl<T> Colony<T> {
    /// An empty colony.
    pub fn new() -> (r: Self)
        ensures
            r.wf(),
            r@ == Map::<usize, T>::empty(),
            r.elems().len() == 0,
            r.table().issued() == 0,
            r.table().free_ids().len() == 0,
    {
        Colony::default()
    }

    /// An empty colony whose buffer and tables are pre-sized for `capacity`
    /// elements; this affects allocation only.
    pub fn with_capacity(capacity: usize) -> (r: Self)
        ensures
            r.wf(),
            r@ == Map::<usize, T>::empty(),
            r.elems().len() == 0,
            r.table().issued() == 0,
            r.table().free_ids().len() == 0,
    {
        let r = Colony {
            index: ColonyIndex::with_capacity(capacity),
            elements: Vec::with_capacity(capacity),
        };
        assert(r@ =~= Map::<usize, T>::empty());
        r
    }

    /// Stores `entity` at the end of the buffer and returns its new identifier,
    /// which was not live before.
    pub fn insert(&mut self, entity: T) -> (id: usize)
        requires
            old(self).wf(),
            old(self).elems().len() < usize::MAX,
        ensures
            final(self).wf(),
            !old(self)@.contains_key(id),
            final(self)@ == old(self)@.insert(id, entity),
            final(self).elems() == old(self).elems().push(entity),
            final(self).table().slot_of(id as int) == Some(old(self).elems().len() as usize),
            forall|i: int|
                i != id ==> #[trigger] final(self).table().slot_of(i) == old(self).table().slot_of(i),
            old(self).table().free_ids().len() > 0 ==> {
                &&& id == old(self).table().free_ids().last()
                &&& final(self).table().free_ids() == old(self).table().free_ids().drop_last()
                &&& final(self).table().issued() == old(self).table().issued()
            },
            old(self).table().free_ids().len() == 0 ==> {
                &&& id == old(self).table().issued()
                &&& final(self).table().free_ids().len() == 0
                &&& final(self).table().issued() == old(self).table().issued() + 1
            },
    {
        let id = self.index.insert(self.elements.len());
        self.elements.push(entity);
        assert(self@ =~= old(self)@.insert(id, entity));
        id
    }

    /// The value of `id`, or `None` when `id` is not live.
    pub fn get(&self, id: usize) -> (r: Option<&T>)
        requires
            self.wf(),
        ensures
            r is Some == self@.contains_key(id),
            r is Some ==> *r.unwrap() == self@[id],
    {
        match self.index.to_index(id) {
            Some(index) => Some(&self.elements[index]),
            None => None,
        }
    }

    /// Mutable access to the value of `id`, or `None` when `id` is not live.
    /// Writing through the reference changes that value and nothing else.
    pub fn get_mut(&mut self, id: usize) -> (r: Option<&mut T>)
        requires
            old(self).wf(),
        ensures
            r is Some == old(self)@.contains_key(id),
            r is None ==> *final(self) == *old(self),
            r is Some ==> {
                &&& *r.unwrap() == old(self)@[id]
                &&& final(self).wf()
                &&& final(self)@ == old(self)@.insert(id, *final(r.unwrap()))
                &&& final(self).table() == old(self).table()
                &&& final(self).elems() == old(self).elems().update(
                    old(self).table().slot_of(id as int).unwrap() as int,
                    *final(r.unwrap()),
                )
            },
    {
        match self.index.to_index(id) {
            Some(index) => Some(&mut self.elements[index]),
            None => None,
        }
    }

    /// Removes `id` and its value; the last element of the buffer moves into
    /// the vacated slot. Does nothing when `id` is not live.
    pub fn remove(&mut self, id: usize)
        requires
            old(self).wf(),
        ensures
            final(self).wf(),
            final(self)@ == old(self)@.remove(id),
            !old(self)@.contains_key(id) ==> *final(self) == *old(self),
            old(self)@.contains_key(id) ==> {
                &&& final(self).elems().len() == old(self).elems().len() - 1
                &&& final(self).table().free_ids() == old(self).table().free_ids().push(id)
                &&& final(self).table().issued() == old(self).table().issued()
                &&& final(self).elems() == old(self).elems().update(
                    old(self).table().slot_of(id as int).unwrap() as int,
                    old(self).elems().last(),
                ).drop_last()
                &&& forall|i: int|
                    i != id ==> #[trigger] final(self).table().slot_of(i) == if old(
                        self,
                    ).table().slot_of(i) == Some((old(self).elems().len() - 1) as usize) {
                        old(self).table().slot_of(id as int)
                    } else {
                        old(self).table().slot_of(i)
                    }
            },
    {
        let len = self.elements.len();
        if len == 0 {
            assert(old(self)@ =~= old(self)@.remove(id));
            return;
        }
        if let Some(index) = self.index.remove(id, len - 1) {
            self.elements.swap_remove(index);
            assert(self@ =~= old(self)@.remove(id));
        } else {
            assert(old(self)@ =~= old(self)@.remove(id));
        }
    }

    /// Removes every element; all identifiers issued so far stop resolving and
    /// the identifier space starts again from zero.
    pub fn clear(&mut self)
        ensures
            final(self).wf(),
            final(self)@ == Map::<usize, T>::empty(),
            final(self).elems().len() == 0,
            final(self).table().issued() == 0,
            final(self).table().free_ids().len() == 0,
    {
        self.index = ColonyIndex::default();
        self.elements.clear();
        assert(self@ =~= Map::<usize, T>::empty());
    }

    /// The number of elements, which is the number of live identifiers.
    pub fn len(&self) -> (r: usize)
        requires
            self.wf(),
        ensures
            r == self.elems().len(),
            r == self@.len(),
    {
        proof {
            lemma_live_count(self.table());
            assert(self@.dom() =~= self.table().live_ids());
        }
        self.elements.len()
    }

    /// The packed buffer, in slot order.
    pub fn as_slice(&self) -> (r: &[T])
        ensures
            r@ == self.elems(),
    {
        self.elements.as_slice()
    }

    /// The packed buffer, for changing element values in place.
    pub fn as_mut_slice(&mut self) -> (r: &mut [T])
        ensures
            r@ == old(self).elems(),
            final(self).elems() == final(r)@,
            final(self).table() == old(self).table(),
    {
        self.elements.as_mut_slice()
    }
}

/// A value just inserted is what its identifier resolves to, and it stays so
/// while other identifiers are inserted or removed.
pub proof fn lemma_round_trip<T>(c0: Colony<T>, c1: Colony<T>, id: usize, v: T, other: usize, w: T)
    requires
        c1@ == c0@.insert(id, v),
    ensures
        c1@.contains_key(id) && c1@[id] == v,
        other != id ==> c1@.insert(other, w)[id] == v,
        other != id ==> c1@.remove(other).contains_key(id) && c1@.remove(other)[id] == v,
{
}

/// Removing an identifier a second time changes nothing: the state after two
/// removals of `id` is the state after one.
pub proof fn lemma_remove_idempotent<T>(c0: Colony<T>, c1: Colony<T>, c2: Colony<T>, id: usize)
    requires
        c0.wf(),
        c1@ == c0@.remove(id),
        !c1@.contains_key(id) ==> c2 == c1,
    ensures
        c2 == c1,
        c2@ == c0@.remove(id),
{
}

/// The buffer holds exactly one element per live identifier, and every live
/// identifier resolves to a slot inside the buffer.
pub proof fn lemma_density<T>(c: Colony<T>)
    requires
        c.wf(),
    ensures
        c@.dom().finite(),
        c@.len() == c.elems().len(),
        forall|id: usize| #[trigger]
            c@.contains_key(id) ==> c.table().slot_of(id as int).unwrap() < c.elems().len(),
{
    lemma_live_count(c.table());
    assert(c@.dom() =~= c.table().live_ids());
}

/// Two distinct live identifiers resolve to different slots.
pub proof fn lemma_no_aliasing<T>(c: Colony<T>, i: usize, j: usize)
    requires
        c.wf(),
        c@.contains_key(i),
        c@.contains_key(j),
        i != j,
    ensures
        c.table().slot_of(i as int) != c.table().slot_of(j as int),
{
    lemma_slots_distinct(c.table(), i as int, j as int);
}

/// Removing `x` leaves every other live identifier live and with its value,
/// although that value may have moved to another slot.
pub proof fn lemma_remove_keeps_others<T>(c0: Colony<T>, c1: Colony<T>, x: usize, y: usize)
    requires
        c1@ == c0@.remove(x),
        c0@.contains_key(y),
        y != x,
    ensures
        c1@.contains_key(y),
        c1@[y] == c0@[y],
{
}

/// `colony[id]` reads the value of `id`, which must be live: unlike `get`,
/// this form has no way to report an absent identifier.
impl<T> core::ops::Index<usize> for Colony<T> {
    type Output = T;

    fn index(&self, id: usize) -> (r: &T)
        ensures
            *r == self@[id],
    {
        &self.elements[self.index.to_index_unchecked(id)]
    }
}

impl<T> vstd::std_specs::core::IndexSpecImpl<usize> for Colony<T> {
    open spec fn index_req(&self, id: &usize) -> bool {
        self.wf() && self@.contains_key(*id)
    }
}

/// The packed buffer as a read-only slice, in slot order.
impl<T> core::ops::Deref for Colony<T> {
    type Target = [T];

    fn deref(&self) -> (r: &[T])
        ensures
            r@ == self.elems(),
    {
        self.elements.as_slice()
    }
}

/// The packed buffer as a slice whose values may change; its length cannot.
impl<T> core::ops::DerefMut for Colony<T> {
    fn deref_mut(&mut self) -> (r: &mut [T])
        ensures
            r@ == old(self).elems(),
            final(self).elems() == final(r)@,
            final(self).table() == old(self).table(),
    {
        self.elements.as_mut_slice()
    }
}

/// Consumes the colony, yielding its values in slot order.
impl<T> IntoIterator for Colony<T> {
    type Item = T;
    type IntoIter = std::vec::IntoIter<T>;

    fn into_iter(self) -> (r: std::vec::IntoIter<T>)
        ensures
            vstd::std_specs::iter::IteratorSpec::remaining(&r) == self.elems(),
    {
        self.elements.into_iter()
    }
}

impl<T> Default for Colony<T> {
    /// An empty colony.
    fn default() -> (r: Self)
        ensures
            r.wf(),
            r@ == Map::<usize, T>::empty(),
            r.elems().len() == 0,
            r.table().issued() == 0,
            r.table().free_ids().len() == 0,
    {
        let r = Colony { index: ColonyIndex::default(), elements: Vec::new() };
        assert(r@ =~= Map::<usize, T>::empty());
        r
    }
}

} // verus!

use vstd::prelude::*;
use crate::kvmap::KeyMap;
use crate::util::now_millis;

verus! {

/// An item in the trash, together with the time it was put there.
pub struct Trashed<T> {
    pub item: T,
    pub put_time: u64,
}

impl<T> Trashed<T> {
    fn new(item: T) -> (r: Self)
        ensures
            r.item == item,
    {
        Trashed { item, put_time: now_millis() }
    }
}

/// A bin of trashed items keyed by id.  Putting an item records the time;
/// removing it hands the item back.
pub struct TrashBin<T> {
    inner: KeyMap<Trashed<T>>,
}

impl<T> View for TrashBin<T> {
    type V = Map<u64, Trashed<T>>;

    closed spec fn view(&self) -> Map<u64, Trashed<T>> {
        self.inner@
    }
}

impl<T> TrashBin<T> {
    pub closed spec fn wf(&self) -> bool {
        self.inner.wf()
    }

    /// The ids, in insertion order.
    pub closed spec fn id_order(&self) -> Seq<u64> {
        self.inner.key_seq()
    }
}

impl<T> Default for TrashBin<T> {
    fn default() -> (r: Self)
        ensures
            r.wf(),
            r@ == Map::<u64, Trashed<T>>::empty(),
    {
        TrashBin { inner: KeyMap::new() }
    }
}

impl<T> TrashBin<T> {
    pub fn put(&mut self, id: u64, item: T)
        requires
            old(self).wf(),
        ensures
            final(self).wf(),
            final(self)@.contains_key(id),
            final(self)@[id].item == item,
            final(self)@ == old(self)@.insert(id, final(self)@[id]),
    {
        self.inner.insert(id, Trashed::new(item));
    }

    pub fn remove(&mut self, id: u64) -> (r: Option<T>)
        requires
            old(self).wf(),
        ensures
            final(self).wf(),
            final(self)@ == old(self)@.remove(id),
            match r {
                Some(item) => old(self)@.contains_key(id) && item == old(self)@[id].item,
                None => !old(self)@.contains_key(id),
            },
    {
        match self.inner.remove(id) {
            Some(trashed) => Some(trashed.item),
            None => None,
        }
    }

    pub fn get(&self, id: u64) -> (r: Option<&Trashed<T>>)
        requires
            self.wf(),
        ensures
            match r {
                Some(t) => self@.contains_key(id) && *t == self@[id],
                None => !self@.contains_key(id),
            },
    {
        self.inner.get(id)
    }

    /// References to the trashed items, in insertion order.
    pub fn values(&self) -> (r: Vec<&Trashed<T>>)
        requires
            self.wf(),
        ensures
            r@.len() == self.id_order().len(),
            forall|i: int|
                0 <= i < r@.len() ==> *(#[trigger] r@[i]) == self@[self.id_order()[i]]
                    && self@.contains_key(self.id_order()[i]),
    {
        let n = self.inner.len();
        let mut r: Vec<&Trashed<T>> = Vec::new();
        let mut i: usize = 0;
        while i < n
            invariant
                self.wf(),
                n == self.id_order().len(),
                0 <= i <= n,
                r@.len() == i,
                forall|j: int|
                    0 <= j < i ==> *(#[trigger] r@[j]) == self@[self.id_order()[j]]
                        && self@.contains_key(self.id_order()[j]),
            decreases n - i,
        {
            r.push(self.inner.value_at(i));
            i += 1;
        }
        r
    }
}

} // verus!

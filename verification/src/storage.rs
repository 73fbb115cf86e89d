//! Generic per-component storage: a list of slots indexed by entity id,
//! where `Some` means the entity has the component and `None` means it does
//! not.
use vstd::prelude::*;

verus! {

/// The component value held for `id`; ids out of range hold nothing.
pub open spec fn slot_at<T>(slots: Seq<Option<T>>, id: int) -> Option<T> {
    if 0 <= id < slots.len() {
        slots[id]
    } else {
        None
    }
}

/// The slots after giving entity `id` the component `value`: the list grows
/// with empty slots until it reaches `id`.
pub open spec fn with_inserted<T>(slots: Seq<Option<T>>, id: int, value: T) -> Seq<Option<T>> {
    Seq::new(
        if id < slots.len() {
            slots.len()
        } else {
            (id + 1) as nat
        },
        |i: int|
            if i == id {
                Some(value)
            } else if i < slots.len() {
                slots[i]
            } else {
                None
            },
    )
}

/// The slots after removing entity `id`'s component; out-of-range ids change nothing.
pub open spec fn with_removed<T>(slots: Seq<Option<T>>, id: int) -> Seq<Option<T>> {
    if 0 <= id < slots.len() {
        slots.update(id, None)
    } else {
        slots
    }
}

/// Whether `f` is the first empty slot of `slots`, or `slots.len()` when every slot is taken.
pub open spec fn is_first_free<T>(slots: Seq<Option<T>>, f: int) -> bool {
    &&& 0 <= f <= slots.len()
    &&& f < slots.len() ==> slots[f] is None
    &&& forall|i: int| 0 <= i < f ==> #[trigger] slots[i] is Some
}

/// Storage for one kind of component, indexed by entity id.
#[derive(Clone)]
pub struct ComponentStorage<T> {
    items: Vec<Option<T>>,
}

impl<T> View for ComponentStorage<T> {
    type V = Seq<Option<T>>;

    closed spec fn view(&self) -> Seq<Option<T>> {
        self.items@
    }
}

impl<T> ComponentStorage<T> {
    /// The component value stored for `id`, if any (out of range reads as absent).
    pub open spec fn slot(self, id: int) -> Option<T> {
        slot_at(self@, id)
    }

    /// A new, empty storage.
    pub fn new() -> (s: Self)
        ensures
            s@ == Seq::<Option<T>>::empty(),
    {
        ComponentStorage { items: Vec::new() }
    }

    /// Number of slots (live or empty), one past the highest id ever given a slot.
    pub fn len(&self) -> (n: usize)
        ensures
            n == self@.len(),
    {
        self.items.len()
    }

    /// Give entity `id` this component, growing the list with empty slots as needed.
    pub fn insert(&mut self, id: usize, value: T)
        requires
            id < usize::MAX,
        ensures
            final(self)@ == with_inserted(old(self)@, id as int, value),
    {
        while self.items.len() <= id
            invariant
                id < usize::MAX,
                old(self)@.len() <= self.items@.len() <= if id < old(self)@.len() {
                    old(self)@.len() as int
                } else {
                    id + 1
                },
                forall|i: int|
                    0 <= i < self.items@.len() ==> #[trigger] self.items@[i] == if i
                        < old(self)@.len() {
                        old(self)@[i]
                    } else {
                        None::<T>
                    },
            decreases id + 1 - self.items@.len(),
        {
            self.items.push(None);
        }
        self.items.set(id, Some(value));
        assert(self@ =~= with_inserted(old(self)@, id as int, value));
    }

    /// Remove entity `id`'s component: its slot becomes empty. Out-of-range ids are ignored.
    pub fn remove(&mut self, id: usize)
        ensures
            final(self)@ == with_removed(old(self)@, id as int),
    {
        if id < self.items.len() {
            self.items.set(id, None);
        }
    }

    /// Borrow entity `id`'s component, if it has one.
    pub fn get(&self, id: usize) -> (r: Option<&T>)
        ensures
            r == match self.slot(id as int) {
                Some(v) => Some(&v),
                None => None::<&T>,
            },
    {
        if id < self.items.len() {
            match &self.items[id] {
                Some(v) => Some(v),
                None => None,
            }
        } else {
            None
        }
    }

    /// Borrow entity `id`'s component for writing, if it has one. Whatever is
    /// written through the returned reference lands in that slot and nowhere else.
    pub fn get_mut(&mut self, id: usize) -> (r: Option<&mut T>)
        ensures
            r is Some <==> old(self).slot(id as int) is Some,
            r is Some ==> *r->0 == old(self).slot(id as int)->0 && final(self)@ == old(
                self,
            )@.update(id as int, Some(*final(r->0))),
            r is None ==> final(self)@ == old(self)@,
    {
        if id < self.items.len() {
            match &mut self.items[id] {
                Some(v) => Some(v),
                None => None,
            }
        } else {
            None
        }
    }

    /// The first empty slot, or `len()` when every slot is taken: the id a
    /// new entity gets, so freed slots are reused before the list grows.
    pub fn first_free(&self) -> (id: usize)
        ensures
            is_first_free(self@, id as int),
    {
        let mut i: usize = 0;
        while i < self.items.len()
            invariant
                0 <= i <= self.items@.len(),
                forall|k: int| 0 <= k < i ==> #[trigger] self.items@[k] is Some,
            decreases self.items@.len() - i,
        {
            if self.items[i].is_none() {
                return i;
            }
            i = i + 1;
        }
        i
    }

    /// The ids that have this component, in increasing order.
    pub fn ids(&self) -> (ids: Vec<usize>)
        ensures
            forall|k: int|
                0 <= k < ids@.len() ==> (#[trigger] ids@[k]) < self@.len() && self@[ids@[k] as int] is Some,
            forall|k: int, l: int| 0 <= k < l < ids@.len() ==> ids@[k] < ids@[l],
            forall|i: int|
                0 <= i < self@.len() && #[trigger] self@[i] is Some ==> ids@.contains(i as usize),
    {
        let mut ids: Vec<usize> = Vec::new();
        let mut i: usize = 0;
        while i < self.items.len()
            invariant
                0 <= i <= self.items@.len(),
                forall|k: int|
                    0 <= k < ids@.len() ==> (#[trigger] ids@[k]) < i && self.items@[ids@[k] as int] is Some,
                forall|k: int, l: int| 0 <= k < l < ids@.len() ==> ids@[k] < ids@[l],
                forall|j: int|
                    0 <= j < i && #[trigger] self.items@[j] is Some ==> ids@.contains(j as usize),
            decreases self.items@.len() - i,
        {
            let ghost before = ids@;
            if self.items[i].is_some() {
                ids.push(i);
                assert(ids@[ids@.len() - 1] == i);
            }
            assert forall|j: int|
                0 <= j < i + 1 && #[trigger] self.items@[j] is Some implies ids@.contains(
                j as usize,
            ) by {
                if j < i {
                    let k = choose|k: int| 0 <= k < before.len() && before[k] == j as usize;
                    assert(ids@[k] == j as usize);
                } else {
                    assert(ids@[ids@.len() - 1] == j as usize);
                }
            }
            i = i + 1;
        }
        ids
    }

    /// Every slot in id order, empty ones included, open for writing: walk
    /// them with `.iter_mut()`. What is written lands in the storage, which
    /// keeps its length.
    pub fn iter_mut(&mut self) -> (slots: &mut [Option<T>])
        ensures
            slots@ == old(self)@,
            final(self)@ == final(slots)@,
    {
        self.items.as_mut_slice()
    }

    /// Iterate over every slot in id order, empty ones included.
    pub fn iter(&self) -> (it: std::slice::Iter<'_, Option<T>>)
        ensures
            vstd::std_specs::iter::IteratorSpec::remaining(&it).unref() == self@,
    {
        self.items.as_slice().iter()
    }
}

impl<T> Default for ComponentStorage<T> {
    fn default() -> (s: Self)
        ensures
            s@ == Seq::<Option<T>>::empty(),
    {
        ComponentStorage::new()
    }
}


/// Reading a slot right after writing it gives back the value written, and
/// every other slot reads as before.
pub proof fn law_read_after_insert<T>(slots: Seq<Option<T>>, id: int, value: T, other: int)
    requires
        0 <= id,
        other != id,
    ensures
        slot_at(with_inserted(slots, id, value), id) == Some(value),
        slot_at(with_inserted(slots, id, value), other) == slot_at(slots, other),
{
}

/// A removed component reads as absent, and every other slot reads as before.
pub proof fn law_read_after_remove<T>(slots: Seq<Option<T>>, id: int, other: int)
    requires
        other != id,
    ensures
        slot_at(with_removed(slots, id), id) is None,
        slot_at(with_removed(slots, id), other) == slot_at(slots, other),
        with_removed(slots, id).len() == slots.len(),
{
}

/// Spawning reuses freed slots: once the slot of an id in range is freed,
/// the first free slot is at or before it, so the list does not grow.
pub proof fn law_freed_slot_is_reused<T>(slots: Seq<Option<T>>, id: int, f: int)
    requires
        0 <= id < slots.len(),
        is_first_free(with_removed(slots, id), f),
    ensures
        f <= id,
{
    if f > id {
        assert(with_removed(slots, id)[id] is Some);
    }
}

} // verus!

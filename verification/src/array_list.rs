//! A growable list that keeps its elements in a fixed-capacity buffer and
//! replaces the buffer when it has to grow, shrink or shift elements.

use crate::array::{Array, ZeroInit};
use crate::matching::{is_first_match, no_match};
use vstd::prelude::*;
use vstd::std_specs::cmp::PartialEqSpec;

verus! {

/// The capacity of an empty list, and the least capacity a list ever has.
pub const MIN_CAPACITY: usize = 4;

/// The capacities a list can have: the minimum, doubled any number of times.
pub open spec fn is_capacity(c: nat) -> bool
    decreases c,
{
    c == 4 || (c > 4 && c % 2 == 0 && is_capacity(c / 2))
}

/// Every capacity is at least the minimum.
pub proof fn lemma_capacity_at_least_min(c: nat)
    requires
        is_capacity(c),
    ensures
        c >= 4,
    decreases c,
{
    if c != 4 {
        lemma_capacity_at_least_min(c / 2);
    }
}

/// A list of elements in a buffer that doubles when full and halves when
/// three quarters empty. Its view is the sequence of its elements.
pub struct ArrayList<T> {
    size: usize,
    array: Array<T>,
}

/// A double-ended cursor over the elements a list held when the cursor was
/// made. Its view is the run of elements not handed out yet.
pub struct ArrayListIterator<T> {
    start: usize,
    end: usize,
    array: Array<T>,
}

impl<T> View for ArrayList<T> {
    type V = Seq<T>;

    closed spec fn view(&self) -> Seq<T> {
        self.array@.subrange(0, self.size as int)
    }
}

impl<T> View for ArrayListIterator<T> {
    type V = Seq<T>;

    closed spec fn view(&self) -> Seq<T> {
        self.array@.subrange(self.start as int, self.end as int)
    }
}

impl<T: ZeroInit> ArrayListIterator<T> {
    /// The cursor's two ends lie inside the snapshot and have not crossed.
    pub closed spec fn wf(&self) -> bool {
        self.start <= self.end <= self.array@.len()
    }

    /// Hands out the first remaining element, if any.
    pub fn next(&mut self) -> (r: Option<T>)
        requires
            old(self).wf(),
        ensures
            final(self).wf(),
            old(self)@.len() == 0 ==> r.is_none(),
            old(self)@.len() == 0 ==> final(self)@ == old(self)@,
            old(self)@.len() > 0 ==> r == Some(old(self)@.first()),
            old(self)@.len() > 0 ==> final(self)@ == old(self)@.drop_first(),
    {
        if self.start == self.end {
            None
        } else {
            let result = self.array.get(self.start);
            self.start = self.start + 1;
            assert(self@ =~= old(self)@.drop_first());
            result
        }
    }

    /// Hands out the last remaining element, if any.
    pub fn next_back(&mut self) -> (r: Option<T>)
        requires
            old(self).wf(),
        ensures
            final(self).wf(),
            old(self)@.len() == 0 ==> r.is_none(),
            old(self)@.len() == 0 ==> final(self)@ == old(self)@,
            old(self)@.len() > 0 ==> r == Some(old(self)@.last()),
            old(self)@.len() > 0 ==> final(self)@ == old(self)@.drop_last(),
    {
        if self.start == self.end {
            None
        } else {
            self.end = self.end - 1;
            assert(self@ =~= old(self)@.drop_last());
            self.array.get(self.end)
        }
    }
}

impl<T: ZeroInit> ArrayList<T> {
    /// The number of slots of the buffer.
    pub closed spec fn cap(&self) -> nat {
        self.array@.len()
    }

    /// The elements fit in the buffer, whose size is a legal capacity.
    pub closed spec fn wf(&self) -> bool {
        &&& self.size <= self.array@.len()
        &&& is_capacity(self.array@.len())
    }

    /// One more element can be taken in: either a slot is vacant, or the
    /// doubled capacity is still a `usize`.
    pub open spec fn has_room(&self) -> bool {
        self@.len() < self.cap() || 2 * self.cap() <= usize::MAX
    }

    /// The capacity the list has after taking in one more element.
    pub open spec fn cap_after_add(&self) -> nat {
        if self@.len() == self.cap() {
            2 * self.cap()
        } else {
            self.cap()
        }
    }

    /// The capacity the list has after giving up one element.
    pub open spec fn cap_after_remove(&self) -> nat {
        if self@.len() - 1 == self.cap() / 4 && self.cap() > 4 {
            self.cap() / 2
        } else {
            self.cap()
        }
    }

    /// A list never holds more elements than it has slots, and never has
    /// fewer slots than the minimum.
    pub proof fn lemma_size_within_capacity(&self)
        requires
            self.wf(),
        ensures
            self@.len() <= self.cap(),
            self.cap() >= 4,
            is_capacity(self.cap()),
    {
        lemma_capacity_at_least_min(self.array@.len());
    }

    /// The buffer changes size only at two boundaries: a full list doubles
    /// it to take in one more element, and a list whose remaining elements
    /// fill exactly a quarter of a buffer above the minimum halves it.
    /// Either step leaves a legal capacity that holds the elements.
    pub proof fn lemma_capacity_steps(&self)
        requires
            self.wf(),
        ensures
            self@.len() == self.cap() ==> self.cap_after_add() == 2 * self.cap(),
            self@.len() < self.cap() ==> self.cap_after_add() == self.cap(),
            self@.len() == 4 && self.cap() == 4 ==> self.cap_after_add() == 8,
            self@.len() - 1 == self.cap() / 4 && self.cap() > 4 ==> self.cap_after_remove()
                == self.cap() / 2,
            !(self@.len() - 1 == self.cap() / 4 && self.cap() > 4) ==> self.cap_after_remove()
                == self.cap(),
            is_capacity(self.cap_after_add()),
            self@.len() + 1 <= self.cap_after_add(),
            self@.len() > 0 ==> is_capacity(self.cap_after_remove()) && self@.len() - 1
                <= self.cap_after_remove(),
    {
        lemma_capacity_at_least_min(self.array@.len());
    }

    /// An empty list of minimum capacity.
    pub fn new() -> (r: ArrayList<T>)
        ensures
            r.wf(),
            r@ == Seq::<T>::empty(),
            r.cap() == 4,
    {
        let r = ArrayList { size: 0, array: Array::new(MIN_CAPACITY) };
        assert(r@ =~= Seq::<T>::empty());
        r
    }

    /// The number of elements.
    pub fn size(&self) -> (r: usize)
        requires
            self.wf(),
        ensures
            r == self@.len(),
    {
        self.size
    }

    /// The number of slots of the buffer.
    pub fn capacity(&self) -> (r: usize)
        ensures
            r == self.cap(),
    {
        self.array.size()
    }

    /// The element at `index`, or `None` when the list has no such position.
    pub fn get(&self, index: usize) -> (r: Option<T>)
        requires
            self.wf(),
        ensures
            r == (if index < self@.len() {
                Some(self@[index as int])
            } else {
                None
            }),
    {
        if index < self.size {
            self.array.get(index)
        } else {
            None
        }
    }

    /// Doubles the buffer, keeping the elements.
    fn expand(&mut self)
        requires
            old(self).wf(),
            2 * old(self).cap() <= usize::MAX,
        ensures
            final(self).wf(),
            final(self)@ == old(self)@,
            final(self).cap() == 2 * old(self).cap(),
            final(self).size == old(self).size,
    {
        proof {
            lemma_capacity_at_least_min(self.array@.len());
        }
        let new_array = self.array.copy_expanded(self.array.size() * 2);
        self.array = new_array;
        assert(self@ =~= old(self)@);
    }

    /// Halves the buffer, keeping its first half.
    fn shrink(&mut self)
        requires
            is_capacity(old(self).array@.len()),
            old(self).array@.len() > 4,
        ensures
            final(self).size == old(self).size,
            is_capacity(final(self).array@.len()),
            final(self).array@ == old(self).array@.subrange(0, (old(self).array@.len() / 2) as int),
    {
        let new_array = self.array.copy(0, self.array.size() / 2);
        self.array = new_array;
    }

    /// Appends `item`, doubling the buffer first when it is full.
    pub fn add(&mut self, item: T)
        requires
            old(self).wf(),
            old(self).has_room(),
        ensures
            final(self).wf(),
            final(self)@ == old(self)@.push(item),
            final(self).cap() == old(self).cap_after_add(),
    {
        if self.array.size() == self.size {
            self.expand();
        }
        self.array.set(self.size, item);
        self.size = self.size + 1;
        assert(self@ =~= old(self)@.push(item));
    }

    /// Overwrites the element at `index`; does nothing when the list has no
    /// such position.
    pub fn set(&mut self, index: usize, item: T)
        requires
            old(self).wf(),
        ensures
            final(self).wf(),
            final(self).cap() == old(self).cap(),
            final(self)@ == (if index < old(self)@.len() {
                old(self)@.update(index as int, item)
            } else {
                old(self)@
            }),
    {
        if index < self.size {
            self.array.set(index, item);
            assert(self@ =~= old(self)@.update(index as int, item));
        }
    }

    /// Exchanges the elements at `i` and `j`; does nothing unless both are
    /// positions of the list.
    pub fn swap(&mut self, i: usize, j: usize)
        requires
            old(self).wf(),
        ensures
            final(self).wf(),
            final(self).cap() == old(self).cap(),
            final(self)@ == (if i < old(self)@.len() && j < old(self)@.len() {
                old(self)@.update(i as int, old(self)@[j as int]).update(
                    j as int,
                    old(self)@[i as int],
                )
            } else {
                old(self)@
            }),
    {
        if i < self.size && j < self.size {
            let a = self.array.get(i);
            let b = self.array.get(j);
            match (a, b) {
                (Some(x), Some(y)) => {
                    self.array.set(i, y);
                    self.array.set(j, x);
                },
                _ => {},
            }
            assert(self@ =~= old(self)@.update(i as int, old(self)@[j as int]).update(
                j as int,
                old(self)@[i as int],
            ));
        }
    }

    /// Puts `item` before the element at `index`, shifting that element and
    /// all later ones by one; does nothing when the list has no such
    /// position. The buffer is doubled first when it is full.
    pub fn insert(&mut self, index: usize, item: T)
        requires
            old(self).wf(),
            old(self).has_room(),
        ensures
            final(self).wf(),
            index < old(self)@.len() ==> final(self)@ == old(self)@.insert(index as int, item),
            index < old(self)@.len() ==> final(self).cap() == old(self).cap_after_add(),
            index >= old(self)@.len() ==> final(self)@ == old(self)@,
            index >= old(self)@.len() ==> final(self).cap() == old(self).cap(),
    {
        if index >= self.size {
            return ;
        }
        if self.array.size() == self.size {
            self.expand();
        }
        let left: Array<T>;
        if index != 0 {
            let head = self.array.copy(0, index);
            let mut help_array: Array<T> = Array::new(1);
            help_array.set(0, item);
            left = head.merge(&help_array, head.size() + 1);
        } else {
            let mut single: Array<T> = Array::new(1);
            single.set(0, item);
            left = single;
        }
        let right = self.array.copy(index, self.size);
        let new_array = left.merge(&right, self.array.size());
        self.array = new_array;
        self.size = self.size + 1;
        assert(self@ =~= old(self)@.insert(index as int, item));
    }

    /// Takes out the element at `index` and returns it, closing the gap;
    /// returns `None` and changes nothing when the list has no such position.
    /// The buffer is halved when the remaining elements fill a quarter of it.
    pub fn remove(&mut self, index: usize) -> (r: Option<T>)
        requires
            old(self).wf(),
        ensures
            final(self).wf(),
            index < old(self)@.len() ==> r == Some(old(self)@[index as int]),
            index < old(self)@.len() ==> final(self)@ == old(self)@.remove(index as int),
            index < old(self)@.len() ==> final(self).cap() == old(self).cap_after_remove(),
            index >= old(self)@.len() ==> r.is_none(),
            index >= old(self)@.len() ==> final(self)@ == old(self)@,
            index >= old(self)@.len() ==> final(self).cap() == old(self).cap(),
    {
        if index >= self.size {
            None
        } else {
            proof {
                lemma_capacity_at_least_min(self.array@.len());
            }
            let item = self.array.get(index);
            self.size = self.size - 1;
            if self.size == self.array.size() / 4 && self.array.size() > MIN_CAPACITY {
                self.shrink();
            }
            proof {
                lemma_capacity_at_least_min(self.array@.len());
            }
            if index == self.size {
                assert(self@ =~= old(self)@.remove(index as int));
                item
            } else {
                let new_array: Array<T>;
                if index == 0 {
                    let tail = self.array.copy(1, self.array.size());
                    new_array = tail.copy_expanded(self.array.size());
                } else {
                    let left = self.array.copy(0, index);
                    let right = self.array.copy(index + 1, self.array.size());
                    new_array = left.merge(&right, self.array.size());
                }
                self.array = new_array;
                assert(self@ =~= old(self)@.remove(index as int));
                item
            }
        }
    }

    /// Empties the list and returns the buffer to minimum capacity.
    pub fn clear(&mut self)
        requires
            old(self).wf(),
        ensures
            final(self).wf(),
            final(self)@ == Seq::<T>::empty(),
            final(self).cap() == 4,
    {
        proof {
            lemma_capacity_at_least_min(self.array@.len());
        }
        self.size = 0;
        if self.array.size() > MIN_CAPACITY {
            self.array = Array::new(MIN_CAPACITY);
        }
        assert(self@ =~= Seq::<T>::empty());
    }

    /// A cursor over a snapshot of the elements; later changes to the list
    /// do not reach it.
    pub fn into_iter(&self) -> (r: ArrayListIterator<T>)
        requires
            self.wf(),
        ensures
            r.wf(),
            r@ == self@,
            r@.len() == self@.len(),
    {
        let array = self.array.copy(0, self.size);
        let r = ArrayListIterator { start: 0, end: self.size, array };
        assert(r@ =~= self@);
        r
    }
}

impl<T: ZeroInit + PartialEq> ArrayList<T> {
    /// The first position whose element equals `item`, or `usize::MAX` when
    /// there is none.
    pub fn index_of(&self, item: T) -> (r: usize)
        requires
            self.wf(),
            T::obeys_eq_spec(),
        ensures
            r == usize::MAX ==> no_match(self@, item),
            r != usize::MAX ==> is_first_match(self@, item, r as int),
    {
        let mut i: usize = 0;
        while i < self.size
            invariant
                self.wf(),
                T::obeys_eq_spec(),
                i <= self.size,
                forall|j: int| 0 <= j < i ==> !(#[trigger] self@[j]).eq_spec(&item),
            decreases self.size - i,
        {
            let found = match self.array.get(i) {
                Some(x) => x == item,
                None => false,
            };
            if found {
                return i;
            }
            i = i + 1;
        }
        usize::MAX
    }

    /// Takes out the first element equal to `item` and returns it; returns
    /// `None` and changes nothing when no element equals `item`.
    pub fn remove_item(&mut self, item: T) -> (r: Option<T>)
        requires
            old(self).wf(),
            T::obeys_eq_spec(),
        ensures
            final(self).wf(),
            no_match(old(self)@, item) ==> r.is_none(),
            no_match(old(self)@, item) ==> final(self)@ == old(self)@,
            no_match(old(self)@, item) ==> final(self).cap() == old(self).cap(),
            forall|i: int|
                #[trigger] is_first_match(old(self)@, item, i) ==> {
                    &&& r == Some(old(self)@[i])
                    &&& final(self)@ == old(self)@.remove(i)
                    &&& final(self).cap() == old(self).cap_after_remove()
                },
    {
        let index_to_remove = self.index_of(item);
        if index_to_remove == usize::MAX {
            None
        } else {
            self.remove(index_to_remove)
        }
    }
}

} // verus!

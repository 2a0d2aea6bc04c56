//! A binary min-heap kept in a growable list: the item with the numerically
//! smallest priority is always at the root.

use crate::array::ZeroInit;
use crate::array_list::ArrayList;
use vstd::prelude::*;
use vstd::seq_lib::{to_multiset_build, to_multiset_contains, to_multiset_update};

verus! {

/// A payload with the priority it was pushed with.
pub struct HeapItem<T> {
    pub priority: i64,
    pub data: T,
}

impl<T: Copy> Clone for HeapItem<T> {
    fn clone(&self) -> (r: Self)
        ensures
            r == *self,
    {
        *self
    }
}

impl<T: Copy> Copy for HeapItem<T> {

}

impl<T: ZeroInit> ZeroInit for HeapItem<T> {
    open spec fn zero() -> Self {
        HeapItem { priority: 0, data: T::zero() }
    }

    fn zeroed() -> (r: Self) {
        HeapItem { priority: 0, data: T::zeroed() }
    }
}

/// A priority queue. Its view is the sequence of its items in tree order:
/// the item at position `i` has its parent at `(i - 1) / 2` and its children
/// at `2 * i + 1` and `2 * i + 2`.
pub struct Heap<T> {
    list: ArrayList<HeapItem<T>>,
}

/// The position of the parent of position `i`; the root is its own parent.
pub open spec fn parent_of(i: int) -> int {
    if i <= 1 {
        0
    } else {
        (i - 1) / 2
    }
}

/// No item has a smaller priority than its parent.
pub open spec fn heap_ordered<T>(s: Seq<HeapItem<T>>) -> bool {
    forall|i: int| 0 < i < s.len() ==> s[parent_of(i)].priority <= (#[trigger] s[i]).priority
}

/// The heap order holds everywhere but between position `hole` and its
/// parent, and the children of `hole` are in order with its parent.
spec fn ordered_above<T>(s: Seq<HeapItem<T>>, hole: int) -> bool {
    &&& forall|i: int|
        0 < i < s.len() && i != hole ==> s[parent_of(i)].priority <= (#[trigger] s[i]).priority
    &&& forall|i: int|
        0 < i < s.len() && parent_of(i) == hole && hole > 0 ==> s[parent_of(hole)].priority <= (
        #[trigger] s[i]).priority
}

/// The heap order holds everywhere but between position `hole` and its
/// children, and the children of `hole` are in order with its parent.
spec fn ordered_below<T>(s: Seq<HeapItem<T>>, hole: int) -> bool {
    &&& forall|i: int|
        0 < i < s.len() && parent_of(i) != hole ==> s[parent_of(i)].priority <= (
        #[trigger] s[i]).priority
    &&& forall|i: int|
        0 < i < s.len() && parent_of(i) == hole && hole > 0 ==> s[parent_of(hole)].priority <= (
        #[trigger] s[i]).priority
}

/// The child of `index` that a sinking item is compared with: the left
/// child when fewer than two children exist, else the child with the smaller
/// priority, the left one on a tie.
pub open spec fn sift_target<T>(s: Seq<HeapItem<T>>, index: int) -> int {
    let left = 2 * index + 1;
    let right = 2 * index + 2;
    if left >= s.len() || right >= s.len() {
        left
    } else if s[left].priority <= s[right].priority {
        left
    } else {
        right
    }
}

/// `s` with the items at `i` and `j` exchanged.
pub open spec fn swapped<T>(s: Seq<HeapItem<T>>, i: int, j: int) -> Seq<HeapItem<T>> {
    s.update(i, s[j]).update(j, s[i])
}

/// `s` after the item at `i` has risen: while its priority is smaller than
/// its parent's, the two change places.
pub open spec fn sifted_up<T>(s: Seq<HeapItem<T>>, i: int) -> Seq<HeapItem<T>>
    decreases i,
{
    if 0 < i < s.len() && s[i].priority < s[parent_of(i)].priority {
        sifted_up(swapped(s, i, parent_of(i)), parent_of(i))
    } else {
        s
    }
}

/// `s` after the item at `i` has sunk: while its priority is greater than
/// that of the child it is compared with, the two change places.
pub open spec fn sifted_down<T>(s: Seq<HeapItem<T>>, i: int) -> Seq<HeapItem<T>>
    decreases s.len() - i,
{
    let t = sift_target(s, i);
    if 0 <= i && t < s.len() && s[i].priority > s[t].priority {
        sifted_down(swapped(s, i, t), t)
    } else {
        s
    }
}

/// Exchanging two elements of a sequence keeps its elements.
pub proof fn lemma_swap_keeps_elements<A>(s: Seq<A>, i: int, j: int)
    requires
        0 <= i < s.len(),
        0 <= j < s.len(),
    ensures
        s.update(i, s[j]).update(j, s[i]).to_multiset() == s.to_multiset(),
{
    broadcast use vstd::multiset::group_multiset_axioms;
    broadcast use vstd::seq_lib::group_to_multiset_ensures;

    let t = s.update(i, s[j]);
    to_multiset_update(s, i, s[j]);
    to_multiset_update(t, j, s[i]);
    assert(s.contains(s[i]));
    assert(s.contains(s[j]));
    assert(t.update(j, s[i]).to_multiset() =~= s.to_multiset());
}

/// In a heap-ordered sequence no item has a smaller priority than the root.
pub proof fn lemma_root_is_least<T>(s: Seq<HeapItem<T>>, i: int)
    requires
        heap_ordered(s),
        0 <= i < s.len(),
    ensures
        s[0].priority <= s[i].priority,
    decreases i,
{
    if i > 0 {
        lemma_root_is_least(s, parent_of(i));
    }
}

/// Dropping the last item and, where any item is left, putting it in the
/// root's place loses the root and nothing else, and leaves the heap order
/// intact everywhere but below the root.
proof fn lemma_root_replaced<T>(s: Seq<HeapItem<T>>)
    requires
        heap_ordered(s),
        s.len() > 0,
    ensures
        s.len() == 1 ==> s.drop_last().to_multiset() == s.to_multiset().remove(s[0]),
        s.len() > 1 ==> s.drop_last().update(0, s.last()).to_multiset() == s.to_multiset().remove(
            s[0],
        ),
        s.len() > 1 ==> ordered_below(s.drop_last().update(0, s.last()), 0),
{
    broadcast use vstd::multiset::group_multiset_axioms;

    let rest = s.drop_last();
    assert(s =~= rest.push(s.last()));
    to_multiset_build(rest, s.last());
    if s.len() == 1 {
        assert(rest.to_multiset() =~= s.to_multiset().remove(s[0]));
    } else {
        let t = rest.update(0, s.last());
        to_multiset_update(rest, 0, s.last());
        assert(rest[0] == s[0]);
        assert(t.to_multiset() =~= s.to_multiset().remove(s[0]));
        assert forall|i: int| 0 < i < t.len() && parent_of(i) != 0 implies t[parent_of(i)].priority
            <= (#[trigger] t[i]).priority by {
            assert(t[i] == s[i]);
            assert(t[parent_of(i)] == s[parent_of(i)]);
        }
    }
}

/// Once the root of a heap-ordered sequence is taken out, whatever the
/// arrangement of the rest, no item of it has a smaller priority than that
/// root: successive roots never descend.
pub proof fn lemma_root_bounds_rest<T>(before: Seq<HeapItem<T>>, after: Seq<HeapItem<T>>)
    requires
        heap_ordered(before),
        before.len() > 0,
        after.to_multiset() == before.to_multiset().remove(before[0]),
    ensures
        forall|i: int|
            0 <= i < after.len() ==> before[0].priority <= (#[trigger] after[i]).priority,
{
    broadcast use vstd::multiset::group_multiset_axioms;

    assert forall|i: int| 0 <= i < after.len() implies before[0].priority <= (
    #[trigger] after[i]).priority by {
        to_multiset_contains(after, after[i]);
        assert(after.contains(after[i]));
        assert(before.to_multiset().count(after[i]) > 0);
        to_multiset_contains(before, after[i]);
        let k = choose|k: int| 0 <= k < before.len() && before[k] == after[i];
        lemma_root_is_least(before, k);
    }
}

impl<T> View for Heap<T> {
    type V = Seq<HeapItem<T>>;

    closed spec fn view(&self) -> Seq<HeapItem<T>> {
        self.list@
    }
}

impl<T: ZeroInit> Heap<T> {
    /// The items are heap-ordered, and few enough for child positions to be
    /// computed.
    pub closed spec fn wf(&self) -> bool {
        &&& self.list.wf()
        &&& heap_ordered(self.list@)
        &&& self.list@.len() <= usize::MAX / 2
    }

    /// A well-formed heap is heap-ordered, so its root has the least
    /// priority of all its items.
    pub proof fn lemma_root_has_least_priority(&self)
        requires
            self.wf(),
        ensures
            heap_ordered(self@),
            forall|i: int|
                0 <= i < self@.len() ==> self@[0].priority <= (#[trigger] self@[i]).priority,
    {
        assert forall|i: int| 0 <= i < self@.len() implies self@[0].priority <= (
        #[trigger] self@[i]).priority by {
            lemma_root_is_least(self@, i);
        }
    }

    /// An empty heap.
    pub fn new() -> (r: Heap<T>)
        ensures
            r.wf(),
            r@ == Seq::<HeapItem<T>>::empty(),
    {
        Heap { list: ArrayList::new() }
    }

    /// The number of items.
    pub fn size(&self) -> (r: usize)
        requires
            self.wf(),
        ensures
            r == self@.len(),
    {
        self.list.size()
    }

    /// The position of the parent of `index`.
    fn parent_index(index: usize) -> (r: usize)
        ensures
            r == parent_of(index as int),
    {
        if index <= 1 {
            0
        } else {
            (index - 1) / 2
        }
    }

    /// The position that an item sinking from `index` is compared with.
    fn greater_son_index(&self, index: usize) -> (r: usize)
        requires
            self.list.wf(),
            self.list@.len() <= usize::MAX / 2,
            index < self.list@.len(),
        ensures
            r == sift_target(self.list@, index as int),
    {
        let right_son: usize = (2 * index) + 2;
        let left_son: usize = (2 * index) + 1;
        if left_son >= self.list.size() || right_son >= self.list.size() {
            left_son
        } else {
            let left = self.list.get(left_son).unwrap();
            let right = self.list.get(right_son).unwrap();
            if left.priority <= right.priority {
                left_son
            } else {
                right_son
            }
        }
    }

    /// Adds an item and lets it rise to its place.
    pub fn push(&mut self, priority: i64, data: T)
        requires
            old(self).wf(),
            old(self)@.len() < usize::MAX / 2,
        ensures
            final(self).wf(),
            final(self)@ == sifted_up(
                old(self)@.push((HeapItem { priority, data })),
                old(self)@.len() as int,
            ),
            final(self)@.len() == old(self)@.len() + 1,
            final(self)@.to_multiset() == old(self)@.to_multiset().insert(
                (HeapItem { priority, data }),
            ),
    {
        let item = HeapItem { priority, data };
        proof {
            self.list.lemma_size_within_capacity();
            to_multiset_build(self.list@, item);
        }
        self.list.add(item);
        let ghost grown = self.list@;
        let mut current_index: usize = self.list.size() - 1;
        let mut parent_index: usize = Self::parent_index(current_index);
        loop
            invariant
                self.list.wf(),
                self.list@.len() == grown.len(),
                self.list@.to_multiset() == grown.to_multiset(),
                current_index < self.list@.len(),
                parent_index == parent_of(current_index as int),
                ordered_above(self.list@, current_index as int),
                sifted_up(self.list@, current_index as int) == sifted_up(grown, grown.len() - 1),
            ensures
                self.list.wf(),
                self.list@.len() == grown.len(),
                self.list@.to_multiset() == grown.to_multiset(),
                heap_ordered(self.list@),
                self.list@ == sifted_up(grown, grown.len() - 1),
            decreases current_index,
        {
            let current_item = self.list.get(current_index).unwrap();
            let parent = self.list.get(parent_index).unwrap();
            if current_item.priority >= parent.priority {
                break ;
            }
            proof {
                lemma_swap_keeps_elements(self.list@, current_index as int, parent_index as int);
            }
            self.list.swap(current_index, parent_index);
            current_index = parent_index;
            parent_index = Self::parent_index(current_index);
        }
    }

    /// Lets the item at the root sink to its place.
    fn sift_down(&mut self)
        requires
            old(self).list.wf(),
            old(self).list@.len() <= usize::MAX / 2,
            old(self).list@.len() > 0,
            ordered_below(old(self).list@, 0),
        ensures
            final(self).wf(),
            final(self)@ == sifted_down(old(self)@, 0),
            final(self)@.len() == old(self)@.len(),
            final(self)@.to_multiset() == old(self)@.to_multiset(),
    {
        let mut current_index: usize = 0;
        let mut son_index: usize = self.greater_son_index(current_index);
        loop
            invariant
                self.list.wf(),
                self.list@.len() == old(self).list@.len(),
                self.list@.len() <= usize::MAX / 2,
                self.list@.to_multiset() == old(self).list@.to_multiset(),
                current_index < self.list@.len(),
                son_index == sift_target(self.list@, current_index as int),
                ordered_below(self.list@, current_index as int),
                sifted_down(self.list@, current_index as int) == sifted_down(old(self).list@, 0),
            ensures
                self.list.wf(),
                self.list@.len() == old(self).list@.len(),
                self.list@.to_multiset() == old(self).list@.to_multiset(),
                heap_ordered(self.list@),
                self.list@ == sifted_down(old(self).list@, 0),
            decreases self.list@.len() - current_index,
        {
            if son_index >= self.list.size() {
                break ;
            }
            let current_item = self.list.get(current_index).unwrap();
            let son = self.list.get(son_index).unwrap();
            if current_item.priority <= son.priority {
                break ;
            }
            proof {
                lemma_swap_keeps_elements(self.list@, current_index as int, son_index as int);
            }
            self.list.swap(current_index, son_index);
            current_index = son_index;
            son_index = self.greater_son_index(current_index);
        }
    }

    /// Takes out the root and returns its payload; returns `None` and
    /// changes nothing when the heap is empty. The item taken out has the
    /// least priority of all, so none that stays has a smaller one.
    pub fn pop(&mut self) -> (r: Option<T>)
        requires
            old(self).wf(),
        ensures
            final(self).wf(),
            old(self)@.len() == 0 ==> r.is_none(),
            old(self)@.len() == 0 ==> final(self)@ == old(self)@,
            old(self)@.len() == 1 ==> final(self)@ == Seq::<HeapItem<T>>::empty(),
            old(self)@.len() > 1 ==> final(self)@ == sifted_down(
                old(self)@.drop_last().update(0, old(self)@.last()),
                0,
            ),
            old(self)@.len() > 0 ==> r == Some(old(self)@[0].data),
            old(self)@.len() > 0 ==> final(self)@.len() == old(self)@.len() - 1,
            old(self)@.len() > 0 ==> final(self)@.to_multiset() == old(self)@.to_multiset().remove(
                old(self)@[0],
            ),
            forall|i: int|
                0 <= i < final(self)@.len() ==> old(self)@[0].priority <= (
                #[trigger] final(self)@[i]).priority,
    {
        if self.list.size() == 0 {
            None
        } else {
            let out = self.list.get(0).unwrap();
            let last = self.list.remove(self.list.size() - 1).unwrap();
            proof {
                lemma_root_replaced(old(self).list@);
                assert(self.list@ =~= old(self).list@.drop_last());
            }
            if self.list.size() > 0 {
                self.list.set(0, last);
                self.sift_down();
            }
            proof {
                lemma_root_bounds_rest(old(self).list@, self.list@);
            }
            Some(out.data)
        }
    }

    /// The payload at the root, or `None` when the heap is empty.
    pub fn peek(&self) -> (r: Option<T>)
        requires
            self.wf(),
        ensures
            r == (if self@.len() == 0 {
                None
            } else {
                Some(self@[0].data)
            }),
    {
        if self.list.size() == 0 {
            None
        } else {
            Some(self.list.get(0).unwrap().data)
        }
    }

    /// Removes every item.
    pub fn clear(&mut self)
        requires
            old(self).wf(),
        ensures
            final(self).wf(),
            final(self)@ == Seq::<HeapItem<T>>::empty(),
    {
        self.list.clear();
    }

    /// The priority at the root, which no item of the heap undercuts, or 0
    /// when the heap is empty.
    pub fn peek_priority(&self) -> (r: i64)
        requires
            self.wf(),
        ensures
            r == (if self@.len() == 0 {
                0
            } else {
                self@[0].priority
            }),
            forall|i: int| 0 <= i < self@.len() ==> r <= (#[trigger] self@[i]).priority,
    {
        proof {
            self.lemma_root_has_least_priority();
        }
        if self.list.size() == 0 {
            0
        } else {
            self.list.get(0).unwrap().priority
        }
    }
}

} // verus!

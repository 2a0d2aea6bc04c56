//! A doubly linked list whose nodes live in the slots of an arena and refer
//! to each other by slot number.

use crate::matching::{is_first_match, no_match};
use vstd::prelude::*;
use vstd::std_specs::cmp::PartialEqSpec;

verus! {

/// The link that refers to no node.
pub const NIL: usize = usize::MAX;

/// A node: an element and the slots of its two neighbours.
pub struct LinkedListItem<T> {
    data: T,
    next: usize,
    previous: usize,
}

impl<T: Copy> Clone for LinkedListItem<T> {
    fn clone(&self) -> (r: Self)
        ensures
            r == *self,
    {
        *self
    }
}

impl<T: Copy> Copy for LinkedListItem<T> {

}

/// A doubly linked list. Its view is the sequence of its elements from the
/// first node to the last.
pub struct LinkedList<T> {
    size: usize,
    begin: usize,
    end: usize,
    nodes: Vec<LinkedListItem<T>>,
    free: Vec<usize>,
    order: Ghost<Seq<usize>>,
}

/// A double-ended cursor over the elements a list held when the cursor was
/// made. Its view is the run of elements not handed out yet.
pub struct LinkedListIterator<T> {
    start: usize,
    end: usize,
    items: Vec<T>,
}

/// The nodes in the slots `order` form one chain: each slot exists and
/// occurs once, and the forward and backward links of neighbours agree.
spec fn chained<T>(nodes: Seq<LinkedListItem<T>>, order: Seq<usize>) -> bool {
    &&& forall|i: int| 0 <= i < order.len() ==> (#[trigger] order[i]) < nodes.len()
    &&& forall|i: int, j: int|
        #![trigger order[i], order[j]]
        0 <= i < j < order.len() ==> order[i] != order[j]
    &&& forall|i: int, j: int|
        #![trigger order[i], order[j]]
        0 <= i && j == i + 1 && j < order.len() ==> nodes[order[i] as int].next == order[j]
            && nodes[order[j] as int].previous == order[i]
    &&& order.len() > 0 ==> nodes[order[0] as int].previous == NIL && nodes[order[order.len()
        - 1] as int].next == NIL
}

/// The slots `free` exist, occur once each, and hold no node of `order`.
spec fn vacant(len: nat, order: Seq<usize>, free: Seq<usize>) -> bool {
    &&& forall|i: int| 0 <= i < free.len() ==> (#[trigger] free[i]) < len
    &&& forall|i: int, j: int|
        #![trigger free[i], free[j]]
        0 <= i < j < free.len() ==> free[i] != free[j]
    &&& forall|i: int, j: int|
        #![trigger order[i], free[j]]
        0 <= i < order.len() && 0 <= j < free.len() ==> order[i] != free[j]
}

/// The elements of the chain, first to last.
spec fn chain_data<T>(nodes: Seq<LinkedListItem<T>>, order: Seq<usize>) -> Seq<T> {
    Seq::new(order.len(), |i: int| nodes[order[i] as int].data)
}

/// Splicing slot `h` into the chain before position `idx` keeps it a chain
/// and inserts the new element at `idx`.
proof fn lemma_splice_in<T>(
    nodes: Seq<LinkedListItem<T>>,
    order: Seq<usize>,
    idx: int,
    h: usize,
    nodes2: Seq<LinkedListItem<T>>,
)
    requires
        chained(nodes, order),
        0 <= idx < order.len(),
        nodes.len() <= nodes2.len(),
        h < nodes2.len(),
        forall|i: int| 0 <= i < order.len() ==> (#[trigger] order[i]) != h,
        forall|i: int|
            0 <= i < order.len() && i != idx && i != idx - 1 ==> nodes2[(
            #[trigger] order[i]) as int] == nodes[order[i] as int],
        nodes2[h as int].next == order[idx],
        nodes2[h as int].previous == (if idx > 0 {
            order[idx - 1]
        } else {
            NIL
        }),
        nodes2[order[idx] as int].data == nodes[order[idx] as int].data,
        nodes2[order[idx] as int].next == nodes[order[idx] as int].next,
        nodes2[order[idx] as int].previous == h,
        idx > 0 ==> nodes2[order[idx - 1] as int].data == nodes[order[idx - 1] as int].data,
        idx > 0 ==> nodes2[order[idx - 1] as int].previous == nodes[order[idx - 1] as int].previous,
        idx > 0 ==> nodes2[order[idx - 1] as int].next == h,
    ensures
        chained(nodes2, order.insert(idx, h)),
        chain_data(nodes2, order.insert(idx, h)) == chain_data(nodes, order).insert(
            idx,
            nodes2[h as int].data,
        ),
{
    let order2 = order.insert(idx, h);
    assert forall|i: int| 0 <= i < order2.len() implies (#[trigger] order2[i]) < nodes2.len() by {
        if i < idx {
            assert(order2[i] == order[i]);
        } else if i > idx {
            assert(order2[i] == order[i - 1]);
        }
    }
    assert forall|i: int, j: int| 0 <= i < j < order2.len() implies order2[i] != order2[j] by {
        let a = if i < idx {
            i
        } else {
            i - 1
        };
        let b = if j < idx {
            j
        } else {
            j - 1
        };
        if i != idx && j != idx {
            assert(order2[i] == order[a]);
            assert(order2[j] == order[b]);
        } else if i == idx {
            assert(order2[j] == order[b]);
        } else {
            assert(order2[i] == order[a]);
        }
    }
    assert forall|i: int, j: int|
        0 <= i && j == i + 1 && j < order2.len() implies nodes2[order2[i] as int].next == order2[j]
        && nodes2[order2[j] as int].previous == order2[i] by {
        if j < idx {
            assert(order2[i] == order[i]);
            assert(order2[j] == order[j]);
        } else if j == idx {
            assert(order2[i] == order[idx - 1]);
        } else if i == idx {
            assert(order2[j] == order[idx]);
        } else {
            assert(order2[i] == order[i - 1]);
            assert(order2[j] == order[i]);
        }
    }
    if idx > 0 {
        assert(order2[0] == order[0]);
    }
    assert(order2[order2.len() - 1] == order[order.len() - 1]);
    let d2 = chain_data(nodes2, order2);
    let d1 = chain_data(nodes, order).insert(idx, nodes2[h as int].data);
    assert(d2.len() == d1.len());
    assert forall|i: int| 0 <= i < d2.len() implies d2[i] == d1[i] by {
        if i < idx {
            assert(order2[i] == order[i]);
        } else if i > idx {
            assert(order2[i] == order[i - 1]);
        }
    }
    assert(d2 =~= d1);
}

/// Unlinking the node at position `i` keeps the rest a chain and removes
/// the element at `i`.
proof fn lemma_splice_out<T>(
    nodes: Seq<LinkedListItem<T>>,
    order: Seq<usize>,
    i: int,
    nodes2: Seq<LinkedListItem<T>>,
)
    requires
        chained(nodes, order),
        0 <= i < order.len(),
        nodes.len() == nodes2.len(),
        forall|k: int|
            0 <= k < order.len() && k != i + 1 && k != i - 1 ==> nodes2[(
            #[trigger] order[k]) as int] == nodes[order[k] as int],
        i > 0 ==> nodes2[order[i - 1] as int].data == nodes[order[i - 1] as int].data,
        i > 0 ==> nodes2[order[i - 1] as int].previous == nodes[order[i - 1] as int].previous,
        i > 0 ==> nodes2[order[i - 1] as int].next == nodes[order[i] as int].next,
        i + 1 < order.len() ==> nodes2[order[i + 1] as int].data == nodes[order[i + 1] as int].data,
        i + 1 < order.len() ==> nodes2[order[i + 1] as int].next == nodes[order[i + 1] as int].next,
        i + 1 < order.len() ==> nodes2[order[i + 1] as int].previous
            == nodes[order[i] as int].previous,
    ensures
        chained(nodes2, order.remove(i)),
        chain_data(nodes2, order.remove(i)) == chain_data(nodes, order).remove(i),
{
    let order2 = order.remove(i);
    assert forall|k: int| 0 <= k < order2.len() implies (#[trigger] order2[k]) < nodes2.len() by {
        if k < i {
            assert(order2[k] == order[k]);
        } else {
            assert(order2[k] == order[k + 1]);
        }
    }
    assert forall|a: int, b: int| 0 <= a < b < order2.len() implies order2[a] != order2[b] by {
        let a1 = if a < i {
            a
        } else {
            a + 1
        };
        let b1 = if b < i {
            b
        } else {
            b + 1
        };
        assert(order2[a] == order[a1]);
        assert(order2[b] == order[b1]);
    }
    assert forall|k: int, j: int|
        0 <= k && j == k + 1 && j < order2.len() implies nodes2[order2[k] as int].next == order2[j]
        && nodes2[order2[j] as int].previous == order2[k] by {
        if j < i {
            assert(order2[k] == order[k]);
            assert(order2[j] == order[j]);
        } else if j == i {
            assert(order2[k] == order[i - 1]);
            assert(order2[j] == order[i + 1]);
            assert(nodes[order[i - 1] as int].next == order[i]);
            assert(nodes[order[i] as int].next == order[i + 1]);
        } else {
            assert(order2[k] == order[k + 1]);
            assert(order2[j] == order[j + 1]);
        }
    }
    if order2.len() > 0 {
        if i == 0 {
            assert(order2[0] == order[1]);
            assert(nodes[order[0] as int].next == order[1]);
        } else {
            assert(order2[0] == order[0]);
        }
        if i == order.len() - 1 {
            assert(order2[order2.len() - 1] == order[i - 1]);
            assert(nodes[order[i - 1] as int].next == order[i]);
        } else {
            assert(order2[order2.len() - 1] == order[order.len() - 1]);
        }
    }
    let d2 = chain_data(nodes2, order2);
    let d1 = chain_data(nodes, order).remove(i);
    assert(d2.len() == d1.len());
    assert forall|k: int| 0 <= k < d2.len() implies d2[k] == d1[k] by {
        if k < i {
            assert(order2[k] == order[k]);
        } else {
            assert(order2[k] == order[k + 1]);
        }
    }
    assert(d2 =~= d1);
}

/// A slot that is neither in the chain nor vacant can join the chain.
proof fn lemma_vacant_after_insert(
    len: nat,
    order: Seq<usize>,
    free: Seq<usize>,
    idx: int,
    h: usize,
)
    requires
        vacant(len, order, free),
        0 <= idx <= order.len(),
        forall|j: int| 0 <= j < free.len() ==> (#[trigger] free[j]) != h,
    ensures
        vacant(len, order.insert(idx, h), free),
{
    let order2 = order.insert(idx, h);
    assert forall|i: int, j: int| 0 <= i < order2.len() && 0 <= j < free.len() implies order2[i]
        != free[j] by {
        if i < idx {
            assert(order2[i] == order[i]);
        } else if i > idx {
            assert(order2[i] == order[i - 1]);
        }
    }
}

/// When the whole chain is unlinked, all its slots become vacant.
proof fn lemma_vacant_after_release(len: nat, order: Seq<usize>, free: Seq<usize>)
    requires
        vacant(len, order, free),
        forall|i: int| 0 <= i < order.len() ==> (#[trigger] order[i]) < len,
        forall|a: int, b: int|
            #![trigger order[a], order[b]]
            0 <= a < b < order.len() ==> order[a] != order[b],
    ensures
        vacant(len, Seq::<usize>::empty(), free + order),
{
    let free2 = free + order;
    assert forall|j: int| 0 <= j < free2.len() implies (#[trigger] free2[j]) < len by {
        if j < free.len() {
            assert(free2[j] == free[j]);
        } else {
            assert(free2[j] == order[j - free.len()]);
        }
    }
    assert forall|a: int, b: int| 0 <= a < b < free2.len() implies free2[a] != free2[b] by {
        if b < free.len() {
            assert(free2[a] == free[a]);
            assert(free2[b] == free[b]);
        } else if a < free.len() {
            assert(free2[a] == free[a]);
            assert(free2[b] == order[b - free.len()]);
        } else {
            assert(free2[a] == order[a - free.len()]);
            assert(free2[b] == order[b - free.len()]);
        }
    }
}

/// The slot of an unlinked node becomes vacant.
proof fn lemma_vacant_after_remove(len: nat, order: Seq<usize>, free: Seq<usize>, i: int)
    requires
        vacant(len, order, free),
        0 <= i < order.len(),
        order[i] < len,
        forall|a: int, b: int|
            #![trigger order[a], order[b]]
            0 <= a < b < order.len() ==> order[a] != order[b],
    ensures
        vacant(len, order.remove(i), free.push(order[i])),
{
    let order2 = order.remove(i);
    let free2 = free.push(order[i]);
    assert forall|j: int| 0 <= j < free2.len() implies (#[trigger] free2[j]) < len by {
        if j < free.len() {
            assert(free2[j] == free[j]);
        }
    }
    assert forall|a: int, b: int| 0 <= a < b < free2.len() implies free2[a] != free2[b] by {
        assert(free2[a] == free[a]);
        if b < free.len() {
            assert(free2[b] == free[b]);
        }
    }
    assert forall|a: int, j: int| 0 <= a < order2.len() && 0 <= j < free2.len() implies order2[a]
        != free2[j] by {
        let a1 = if a < i {
            a
        } else {
            a + 1
        };
        assert(order2[a] == order[a1]);
        if j < free.len() {
            assert(free2[j] == free[j]);
        }
    }
}


impl<T> View for LinkedList<T> {
    type V = Seq<T>;

    closed spec fn view(&self) -> Seq<T> {
        chain_data(self.nodes@, self.order@)
    }
}

impl<T> View for LinkedListIterator<T> {
    type V = Seq<T>;

    closed spec fn view(&self) -> Seq<T> {
        self.items@.subrange(self.start as int, self.end as int)
    }
}

impl<T: Copy> LinkedListIterator<T> {
    /// The cursor's two ends lie inside the snapshot and have not crossed.
    pub closed spec fn wf(&self) -> bool {
        self.start <= self.end <= self.items@.len()
    }

    /// Hands out the first remaining element, if any.
    pub fn next(&mut self) -> (r: Option<T>)
        requires
            old(self).wf(),
        ensures
            final(self).wf(),
            old(self)@.len() == 0 ==> r.is_none(),
            old(self)@.len() == 0 ==> final(self)@ == old(self)@,
            old(self)@.len() > 0 ==> r == Some(old(self)@.first()),
            old(self)@.len() > 0 ==> final(self)@ == old(self)@.drop_first(),
    {
        if self.start == self.end {
            None
        } else {
            let result = self.items[self.start];
            self.start = self.start + 1;
            assert(self@ =~= old(self)@.drop_first());
            Some(result)
        }
    }

    /// Hands out the last remaining element, if any.
    pub fn next_back(&mut self) -> (r: Option<T>)
        requires
            old(self).wf(),
        ensures
            final(self).wf(),
            old(self)@.len() == 0 ==> r.is_none(),
            old(self)@.len() == 0 ==> final(self)@ == old(self)@,
            old(self)@.len() > 0 ==> r == Some(old(self)@.last()),
            old(self)@.len() > 0 ==> final(self)@ == old(self)@.drop_last(),
    {
        if self.start == self.end {
            None
        } else {
            self.end = self.end - 1;
            assert(self@ =~= old(self)@.drop_last());
            Some(self.items[self.end])
        }
    }
}

impl<T: Copy> LinkedList<T> {
    /// The chain from `begin` forwards is the chain from `end` backwards,
    /// `size` counts its nodes, and every slot of the arena either holds a
    /// node of the chain or is kept for reuse.
    pub closed spec fn wf(&self) -> bool {
        &&& self.order@.len() == self.size
        &&& self.nodes@.len() == self.size + self.free@.len()
        &&& self.nodes@.len() < usize::MAX
        &&& self.begin == (if self.size == 0 {
            NIL
        } else {
            self.order@[0]
        })
        &&& self.end == (if self.size == 0 {
            NIL
        } else {
            self.order@[self.size - 1]
        })
        &&& chained(self.nodes@, self.order@)
        &&& vacant(self.nodes@.len(), self.order@, self.free@)
    }

    /// An empty list.
    pub fn new() -> (r: LinkedList<T>)
        ensures
            r.wf(),
            r@ == Seq::<T>::empty(),
    {
        let r = LinkedList {
            size: 0,
            begin: NIL,
            end: NIL,
            nodes: Vec::new(),
            free: Vec::new(),
            order: Ghost(Seq::empty()),
        };
        assert(r@ =~= Seq::<T>::empty());
        r
    }

    /// The number of elements.
    pub fn size(&self) -> (r: usize)
        requires
            self.wf(),
        ensures
            r == self@.len(),
    {
        self.size
    }

    /// The slot of the node at `index`, reached from the nearer end.
    fn get_node(&self, index: usize) -> (r: usize)
        requires
            self.wf(),
            index < self.size,
        ensures
            r == self.order@[index as int],
            r < self.nodes@.len(),
    {
        let from_begin = index <= self.size / 2;
        let mut item: usize = if from_begin {
            self.begin
        } else {
            self.end
        };
        let mut current_index: usize = if from_begin {
            0
        } else {
            self.size - 1
        };
        while current_index != index
            invariant
                self.wf(),
                index < self.size,
                current_index < self.size,
                item == self.order@[current_index as int],
                from_begin ==> current_index <= index,
                !from_begin ==> current_index >= index,
            decreases
                    (if from_begin {
                        index - current_index
                    } else {
                        current_index - index
                    }),
        {
            if from_begin {
                item = self.nodes[item].next;
                current_index = current_index + 1;
            } else {
                item = self.nodes[item].previous;
                current_index = current_index - 1;
            }
        }
        item
    }

    /// The element at `index`, or `None` when the list has no such position.
    pub fn get(&self, index: usize) -> (r: Option<T>)
        requires
            self.wf(),
        ensures
            r == (if index < self@.len() {
                Some(self@[index as int])
            } else {
                None
            }),
    {
        if index >= self.size {
            None
        } else {
            let node = self.get_node(index);
            Some(self.nodes[node].data)
        }
    }

    /// Stores `node` in a slot that holds no node of the chain, reusing a
    /// vacated slot when there is one, and returns the slot.
    fn take_slot(&mut self, node: LinkedListItem<T>) -> (h: usize)
        requires
            old(self).wf(),
            old(self).size < usize::MAX - 1,
        ensures
            final(self).size == old(self).size,
            final(self).begin == old(self).begin,
            final(self).end == old(self).end,
            final(self).order == old(self).order,
            h < final(self).nodes@.len(),
            final(self).nodes@[h as int] == node,
            final(self).nodes@.len() < usize::MAX,
            final(self).nodes@.len() == final(self).size + final(self).free@.len() + 1,
            final(self).nodes@.len() >= old(self).nodes@.len(),
            forall|k: int|
                0 <= k < old(self).nodes@.len() && k != h ==> final(self).nodes@[k] == old(
                    self
                ).nodes@[k],
            forall|i: int|
                0 <= i < old(self).order@.len() ==> (#[trigger] old(self).order@[i]) != h,
            forall|j: int|
                0 <= j < final(self).free@.len() ==> (#[trigger] final(self).free@[j]) != h,
            vacant(final(self).nodes@.len(), final(self).order@, final(self).free@),
    {
        if self.free.len() > 0 {
            let h = self.free[self.free.len() - 1];
            self.free.pop();
            self.nodes.set(h, node);
            h
        } else {
            let h = self.nodes.len();
            self.nodes.push(node);
            h
        }
    }

    /// Appends `item` after the last node.
    pub fn add(&mut self, item: T)
        requires
            old(self).wf(),
            old(self)@.len() < usize::MAX - 1,
        ensures
            final(self).wf(),
            final(self)@ == old(self)@.push(item),
    {
        let tail = self.end;
        let h = self.take_slot(LinkedListItem { data: item, next: NIL, previous: tail });
        if self.size == 0 {
            self.begin = h;
            self.end = h;
        } else {
            let mut last = self.nodes[tail];
            last.next = h;
            self.nodes.set(tail, last);
            self.end = h;
        }
        self.size = self.size + 1;
        self.order = Ghost(self.order@.push(h));
        assert(self@ =~= old(self)@.push(item));
    }

    /// Overwrites the element at `index`; does nothing when the list has no
    /// such position.
    pub fn set(&mut self, index: usize, item: T)
        requires
            old(self).wf(),
        ensures
            final(self).wf(),
            final(self)@ == (if index < old(self)@.len() {
                old(self)@.update(index as int, item)
            } else {
                old(self)@
            }),
    {
        if index < self.size {
            let node = self.get_node(index);
            let mut copy = self.nodes[node];
            copy.data = item;
            self.nodes.set(node, copy);
            assert(self@ =~= old(self)@.update(index as int, item));
        }
    }

    /// Puts a new node holding `item` before the node at `index`; does
    /// nothing when the list has no such position.
    pub fn insert(&mut self, index: usize, item: T)
        requires
            old(self).wf(),
            old(self)@.len() < usize::MAX - 1,
        ensures
            final(self).wf(),
            final(self)@ == (if index < old(self)@.len() {
                old(self)@.insert(index as int, item)
            } else {
                old(self)@
            }),
    {
        if index >= self.size {
            return ;
        }
        let node = self.get_node(index);
        let before = self.nodes[node].previous;
        proof {
            if index > 0 {
                assert(self.order@[index - 1] < self.nodes@.len());
                assert(before == self.order@[index - 1]);
                assert(self.order@[index - 1] != self.order@[index as int]);
            }
        }
        let h = self.take_slot(LinkedListItem { data: item, next: node, previous: before });
        if index == 0 {
            self.begin = h;
        } else {
            let mut left = self.nodes[before];
            left.next = h;
            self.nodes.set(before, left);
        }
        let mut right = self.nodes[node];
        right.previous = h;
        self.nodes.set(node, right);
        self.size = self.size + 1;
        self.order = Ghost(self.order@.insert(index as int, h));
        proof {
            lemma_splice_in(old(self).nodes@, old(self).order@, index as int, h, self.nodes@);
            lemma_vacant_after_insert(
                self.nodes@.len(),
                old(self).order@,
                self.free@,
                index as int,
                h,
            );
        }
    }

    /// Unlinks the node in slot `node`, which is the node at position `i`,
    /// gives its slot up for reuse and returns its element.
    fn remove_node(&mut self, node: usize, Ghost(i): Ghost<int>) -> (r: Option<T>)
        requires
            old(self).wf(),
            0 <= i < old(self).size,
            old(self).order@[i] == node,
        ensures
            final(self).wf(),
            r == Some(old(self)@[i]),
            final(self)@ == old(self)@.remove(i),
    {
        let removed = self.nodes[node];
        proof {
            if i > 0 {
                assert(self.order@[i - 1] < self.nodes@.len());
                assert(removed.previous == self.order@[i - 1]);
                assert(self.order@[0] != self.order@[i]);
                assert(self.order@[i - 1] != self.order@[i]);
            }
            if i + 1 < self.size {
                assert(self.order@[i + 1] < self.nodes@.len());
                assert(removed.next == self.order@[i + 1]);
                assert(self.order@[i] != self.order@[self.size - 1]);
                assert(self.order@[i] != self.order@[i + 1]);
            }
            if i > 0 && i + 1 < self.size {
                assert(self.order@[i - 1] != self.order@[i + 1]);
            }
        }
        if self.size == 1 {
            self.begin = NIL;
            self.end = NIL;
        } else if node == self.begin {
            let after = removed.next;
            let mut right = self.nodes[after];
            right.previous = NIL;
            self.nodes.set(after, right);
            self.begin = after;
        } else if node == self.end {
            let before = removed.previous;
            let mut left = self.nodes[before];
            left.next = NIL;
            self.nodes.set(before, left);
            self.end = before;
        } else {
            let after = removed.next;
            let before = removed.previous;
            let mut left = self.nodes[before];
            left.next = after;
            self.nodes.set(before, left);
            let mut right = self.nodes[after];
            right.previous = before;
            self.nodes.set(after, right);
        }
        self.free.push(node);
        self.size = self.size - 1;
        self.order = Ghost(self.order@.remove(i));
        proof {
            lemma_splice_out(old(self).nodes@, old(self).order@, i, self.nodes@);
            lemma_vacant_after_remove(self.nodes@.len(), old(self).order@, old(self).free@, i);
        }
        Some(removed.data)
    }

    /// Takes out the node at `index` and returns its element; returns `None`
    /// and changes nothing when the list has no such position.
    pub fn remove(&mut self, index: usize) -> (r: Option<T>)
        requires
            old(self).wf(),
        ensures
            final(self).wf(),
            index < old(self)@.len() ==> r == Some(old(self)@[index as int]),
            index < old(self)@.len() ==> final(self)@ == old(self)@.remove(index as int),
            index >= old(self)@.len() ==> r.is_none(),
            index >= old(self)@.len() ==> final(self)@ == old(self)@,
    {
        if index >= self.size {
            None
        } else {
            let node = self.get_node(index);
            self.remove_node(node, Ghost(index as int))
        }
    }

    /// Walks the chain from the first node, giving up every node's slot for
    /// reuse, and leaves the list empty.
    pub fn clear(&mut self)
        requires
            old(self).wf(),
        ensures
            final(self).wf(),
            final(self)@ == Seq::<T>::empty(),
    {
        let ghost chain = self.order@;
        let mut current: usize = self.begin;
        let mut released: usize = 0;
        while current != NIL
            invariant
                released <= chain.len(),
                chain.len() == old(self).size,
                chain == old(self).order@,
                self.nodes@ == old(self).nodes@,
                self.nodes@.len() < usize::MAX,
                chained(self.nodes@, chain),
                current == (if released < chain.len() {
                    chain[released as int]
                } else {
                    NIL
                }),
                self.free@ == old(self).free@ + chain.subrange(0, released as int),
            decreases chain.len() - released,
        {
            let next = self.nodes[current].next;
            self.free.push(current);
            current = next;
            released = released + 1;
            assert(self.free@ =~= old(self).free@ + chain.subrange(0, released as int));
        }
        self.size = 0;
        self.begin = NIL;
        self.end = NIL;
        self.order = Ghost(Seq::empty());
        proof {
            assert(chain.subrange(0, released as int) =~= chain);
            lemma_vacant_after_release(self.nodes@.len(), chain, old(self).free@);
        }
        assert(self@ =~= Seq::<T>::empty());
    }

    /// A cursor over a snapshot of the elements; later changes to the list
    /// do not reach it.
    pub fn into_iter(&self) -> (r: LinkedListIterator<T>)
        requires
            self.wf(),
        ensures
            r.wf(),
            r@ == self@,
            r@.len() == self@.len(),
    {
        let mut items: Vec<T> = Vec::new();
        let mut current: usize = self.begin;
        let mut count: usize = 0;
        while count < self.size
            invariant
                self.wf(),
                count <= self.size,
                current == (if count < self.size {
                    self.order@[count as int]
                } else {
                    NIL
                }),
                items@ == self@.subrange(0, count as int),
            decreases self.size - count,
        {
            items.push(self.nodes[current].data);
            current = self.nodes[current].next;
            count = count + 1;
            assert(items@ =~= self@.subrange(0, count as int));
        }
        let r = LinkedListIterator { start: 0, end: self.size, items };
        assert(r@ =~= self@);
        r
    }
}

impl<T: Copy + PartialEq> LinkedList<T> {
    /// Takes out the first node whose element equals `item` and returns that
    /// element; returns `None` and changes nothing when there is none.
    pub fn remove_item(&mut self, item: T) -> (r: Option<T>)
        requires
            old(self).wf(),
            T::obeys_eq_spec(),
        ensures
            final(self).wf(),
            no_match(old(self)@, item) ==> r.is_none(),
            no_match(old(self)@, item) ==> final(self)@ == old(self)@,
            forall|i: int|
                #[trigger] is_first_match(old(self)@, item, i) ==> {
                    &&& r == Some(old(self)@[i])
                    &&& final(self)@ == old(self)@.remove(i)
                },
    {
        let mut current_node: usize = self.begin;
        let mut current_index: usize = 0;
        while current_index < self.size
            invariant
                self.wf(),
                *self == *old(self),
                T::obeys_eq_spec(),
                current_index <= self.size,
                current_node == (if current_index < self.size {
                    self.order@[current_index as int]
                } else {
                    NIL
                }),
                forall|j: int| 0 <= j < current_index ==> !(#[trigger] self@[j]).eq_spec(&item),
            decreases self.size - current_index,
        {
            let here = self.nodes[current_node].data;
            assert(here == self@[current_index as int]);
            if here == item {
                assert(is_first_match(self@, item, current_index as int));
                return self.remove_node(current_node, Ghost(current_index as int));
            }
            current_node = self.nodes[current_node].next;
            current_index = current_index + 1;
        }
        None
    }
}

} // verus!

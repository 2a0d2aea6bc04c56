//! Fixed-capacity contiguous storage.

use vstd::prelude::*;

verus! {

/// Element types that have a distinguished zero value. Fresh storage is filled
/// with it, so every slot of a buffer always holds a well-defined element.
pub trait ZeroInit: Copy {
    /// The zero value of the type.
    spec fn zero() -> Self;

    /// Produces the zero value.
    fn zeroed() -> (r: Self)
        ensures
            r == Self::zero(),
    ;
}

impl ZeroInit for bool {
    open spec fn zero() -> Self {
        false
    }

    fn zeroed() -> (r: Self) {
        false
    }
}

impl ZeroInit for u8 {
    open spec fn zero() -> Self {
        0u8
    }

    fn zeroed() -> (r: Self) {
        0u8
    }
}

impl ZeroInit for u16 {
    open spec fn zero() -> Self {
        0u16
    }

    fn zeroed() -> (r: Self) {
        0u16
    }
}

impl ZeroInit for u32 {
    open spec fn zero() -> Self {
        0u32
    }

    fn zeroed() -> (r: Self) {
        0u32
    }
}

impl ZeroInit for u64 {
    open spec fn zero() -> Self {
        0u64
    }

    fn zeroed() -> (r: Self) {
        0u64
    }
}

impl ZeroInit for usize {
    open spec fn zero() -> Self {
        0usize
    }

    fn zeroed() -> (r: Self) {
        0usize
    }
}

impl ZeroInit for i8 {
    open spec fn zero() -> Self {
        0i8
    }

    fn zeroed() -> (r: Self) {
        0i8
    }
}

impl ZeroInit for i16 {
    open spec fn zero() -> Self {
        0i16
    }

    fn zeroed() -> (r: Self) {
        0i16
    }
}

impl ZeroInit for i32 {
    open spec fn zero() -> Self {
        0i32
    }

    fn zeroed() -> (r: Self) {
        0i32
    }
}

impl ZeroInit for i64 {
    open spec fn zero() -> Self {
        0i64
    }

    fn zeroed() -> (r: Self) {
        0i64
    }
}

impl ZeroInit for isize {
    open spec fn zero() -> Self {
        0isize
    }

    fn zeroed() -> (r: Self) {
        0isize
    }
}

/// A run of `n` zero elements.
pub open spec fn zeros<T: ZeroInit>(n: nat) -> Seq<T> {
    Seq::new(n, |i: int| T::zero())
}

/// A buffer of fixed capacity. Its view is the sequence of its slots.
pub struct Array<T> {
    data: Vec<T>,
}

/// A double-ended cursor over the slots that a buffer held when it was
/// consumed. Its view is the run of elements not handed out yet.
pub struct ArrayIterator<T> {
    start: usize,
    end: usize,
    data: Vec<T>,
}

impl<T> View for Array<T> {
    type V = Seq<T>;

    closed spec fn view(&self) -> Seq<T> {
        self.data@
    }
}

impl<T> View for ArrayIterator<T> {
    type V = Seq<T>;

    closed spec fn view(&self) -> Seq<T> {
        self.data@.subrange(self.start as int, self.end as int)
    }
}

impl<T: Copy> ArrayIterator<T> {
    /// The cursor's two ends lie inside the snapshot and have not crossed.
    pub closed spec fn wf(&self) -> bool {
        self.start <= self.end <= self.data@.len()
    }

    /// Hands out the first remaining element, if any.
    pub fn next(&mut self) -> (r: Option<T>)
        requires
            old(self).wf(),
        ensures
            final(self).wf(),
            old(self)@.len() == 0 ==> r.is_none(),
            old(self)@.len() == 0 ==> final(self)@ == old(self)@,
            old(self)@.len() > 0 ==> r == Some(old(self)@.first()),
            old(self)@.len() > 0 ==> final(self)@ == old(self)@.drop_first(),
    {
        if self.start == self.end {
            None
        } else {
            let result = self.data[self.start];
            self.start = self.start + 1;
            assert(self@ =~= old(self)@.drop_first());
            Some(result)
        }
    }

    /// Hands out the last remaining element, if any.
    pub fn next_back(&mut self) -> (r: Option<T>)
        requires
            old(self).wf(),
        ensures
            final(self).wf(),
            old(self)@.len() == 0 ==> r.is_none(),
            old(self)@.len() == 0 ==> final(self)@ == old(self)@,
            old(self)@.len() > 0 ==> r == Some(old(self)@.last()),
            old(self)@.len() > 0 ==> final(self)@ == old(self)@.drop_last(),
    {
        if self.start == self.end {
            None
        } else {
            self.end = self.end - 1;
            assert(self@ =~= old(self)@.drop_last());
            Some(self.data[self.end])
        }
    }
}

impl<T: ZeroInit> Array<T> {
    /// Allocates `length` slots, each holding zero.
    pub fn new(length: usize) -> (r: Self)
        ensures
            r@ == zeros::<T>(length as nat),
    {
        let mut data: Vec<T> = Vec::new();
        let mut i: usize = 0;
        while i < length
            invariant
                i <= length,
                data@ == zeros::<T>(i as nat),
            decreases length - i,
        {
            data.push(T::zeroed());
            i = i + 1;
            assert(data@ =~= zeros::<T>(i as nat));
        }
        Array { data }
    }

    /// A fresh buffer of `length` slots whose prefix is this buffer's
    /// contents; the slots after it hold zero.
    pub fn copy_expanded(&self, length: usize) -> (r: Array<T>)
        requires
            length >= self@.len(),
        ensures
            r@ == self@ + zeros::<T>((length - self@.len()) as nat),
    {
        let mut data: Vec<T> = Vec::new();
        let mut i: usize = 0;
        while i < length
            invariant
                i <= length,
                length >= self.data@.len(),
                data@.len() == i,
                forall|k: int|
                    0 <= k < i ==> data@[k] == (if k < self.data@.len() {
                        self.data@[k]
                    } else {
                        T::zero()
                    }),
            decreases length - i,
        {
            if i < self.data.len() {
                data.push(self.data[i]);
            } else {
                data.push(T::zeroed());
            }
            i = i + 1;
        }
        assert(data@ =~= self@ + zeros::<T>((length - self@.len()) as nat));
        Array { data }
    }

    /// A fresh buffer holding the slots `from..to` of this one.
    pub fn copy(&self, from: usize, to: usize) -> (r: Array<T>)
        requires
            from <= to <= self@.len(),
        ensures
            r@ == self@.subrange(from as int, to as int),
    {
        let mut data: Vec<T> = Vec::new();
        let mut i: usize = from;
        while i < to
            invariant
                from <= i <= to <= self.data@.len(),
                data@ == self.data@.subrange(from as int, i as int),
            decreases to - i,
        {
            data.push(self.data[i]);
            i = i + 1;
            assert(data@ =~= self.data@.subrange(from as int, i as int));
        }
        Array { data }
    }

    /// A fresh buffer of `size` slots: this buffer's contents, then
    /// `other`'s, then zeros up to `size`.
    pub fn merge(&self, other: &Array<T>, size: usize) -> (r: Array<T>)
        requires
            size >= self@.len() + other@.len(),
        ensures
            r@ == self@ + other@ + zeros::<T>((size - self@.len() - other@.len()) as nat),
    {
        let mut data: Vec<T> = Vec::new();
        let mut i: usize = 0;
        let own: usize = self.data.len();
        let both: usize = own + other.data.len();
        while i < size
            invariant
                i <= size,
                own == self.data@.len(),
                both == own + other.data@.len(),
                both <= size,
                data@.len() == i,
                forall|k: int|
                    0 <= k < i ==> data@[k] == (if k < own {
                        self.data@[k]
                    } else if k < both {
                        other.data@[k - own]
                    } else {
                        T::zero()
                    }),
            decreases size - i,
        {
            if i < own {
                data.push(self.data[i]);
            } else if i < both {
                data.push(other.data[i - own]);
            } else {
                data.push(T::zeroed());
            }
            i = i + 1;
        }
        assert(data@ =~= self@ + other@ + zeros::<T>(
            (size - self@.len() - other@.len()) as nat,
        ));
        Array { data }
    }

    /// The number of slots.
    pub fn size(&self) -> (r: usize)
        ensures
            r == self@.len(),
    {
        self.data.len()
    }

    /// The element in slot `index`, or `None` when there is no such slot.
    pub fn get(&self, index: usize) -> (r: Option<T>)
        ensures
            r == (if index < self@.len() {
                Some(self@[index as int])
            } else {
                None
            }),
    {
        if index < self.data.len() {
            Some(self.data[index])
        } else {
            None
        }
    }

    /// Overwrites slot `index`; does nothing when there is no such slot.
    pub fn set(&mut self, index: usize, item: T)
        ensures
            final(self)@ == (if index < old(self)@.len() {
                old(self)@.update(index as int, item)
            } else {
                old(self)@
            }),
    {
        if index < self.data.len() {
            self.data.set(index, item);
        }
    }

    /// Turns the buffer into a cursor over all of its slots.
    pub fn into_iter(self) -> (r: ArrayIterator<T>)
        ensures
            r.wf(),
            r@ == self@,
    {
        let end: usize = self.data.len();
        let r = ArrayIterator { start: 0, end, data: self.data };
        assert(r@ =~= self@);
        r
    }
}

} // verus!

//! Vectors: owned, of runtime or compile-time size, and views into slices.
use vstd::prelude::*;

verus! {

/// An immutable view window that acts like a vector
#[derive(Debug, Clone, Copy)]
pub struct VectorView<'a, T> {
    data: &'a [T],
}

/// A mutable view window that acts like a vector
#[derive(Debug)]
pub struct VectorViewMut<'a, T> {
    data: &'a mut [T],
}

/// a vector with owned data, of runtime size
#[derive(Debug, Clone)]
pub struct DynamicVector<T> {
    data: Vec<T>,
}

/// a vector with owned data, of compile-time size
#[derive(Debug, Clone, Copy)]
pub struct StaticVector<T, const N: usize> {
    data: [T; N],
}

/// Common vector methods: a vector is a sequence of entries.
pub trait Vector<T> {
    /// The entries of the vector.
    spec fn elems(&self) -> Seq<T>;

    fn len(&self) -> (n: usize)
        ensures
            n == self.elems().len(),
    ;

    fn data(&self) -> (d: &[T])
        ensures
            d@ == self.elems(),
    ;

    fn view<'a>(&'a self) -> (v: VectorView<'a, T>)
        ensures
            v.entries() == self.elems(),
    {
        VectorView { data: self.data() }
    }
}

/// Common mutable vector methods.
pub trait VectorMut<T>: Vector<T> {
    /// The entries, to be written in place.
    fn data_mut(&mut self) -> (d: &mut [T])
        ensures
            d@ == old(self).elems(),
            final(self).elems() == final(d)@,
    ;
}

impl<'a, T> VectorView<'a, T> {
    /// The entries seen through the view.
    pub closed spec fn entries(&self) -> Seq<T> {
        self.data@
    }
}

impl<'a, T> Vector<T> for VectorView<'a, T> {
    open spec fn elems(&self) -> Seq<T> {
        self.entries()
    }

    fn len(&self) -> (n: usize) {
        self.data.len()
    }

    fn data(&self) -> (d: &[T]) {
        self.data
    }
}

impl<T> Vector<T> for DynamicVector<T> {
    closed spec fn elems(&self) -> Seq<T> {
        self.data@
    }

    fn len(&self) -> (n: usize) {
        self.data.len()
    }

    fn data(&self) -> (d: &[T]) {
        self.data.as_slice()
    }
}

impl<T> VectorMut<T> for DynamicVector<T> {
    fn data_mut(&mut self) -> (d: &mut [T]) {
        self.data.as_mut_slice()
    }
}

impl<T> DynamicVector<T> {
    /// A vector of `size` entries, each `value`.
    pub fn new(value: T, size: usize) -> (v: Self) where T: Copy
        ensures
            v.elems() == Seq::new(size as nat, |i: int| value),
    {
        let mut data = Vec::new();
        let mut i: usize = 0;
        while i < size
            invariant
                i <= size,
                data@ == Seq::new(i as nat, |k: int| value),
            decreases size - i,
        {
            data.push(value);
            i = i + 1;
            proof {
                assert(data@ =~= Seq::new(i as nat, |k: int| value));
            }
        }
        DynamicVector { data }
    }
}

impl<'a, T> VectorViewMut<'a, T> {
    /// The entries seen through the view.
    pub closed spec fn entries(&self) -> Seq<T> {
        self.data@
    }
}

impl<'a, T> Vector<T> for VectorViewMut<'a, T> {
    open spec fn elems(&self) -> Seq<T> {
        self.entries()
    }

    fn len(&self) -> (n: usize) {
        self.data.len()
    }

    fn data(&self) -> (d: &[T]) {
        &*self.data
    }
}

impl<'a, T> VectorMut<T> for VectorViewMut<'a, T> {
    fn data_mut(&mut self) -> (d: &mut [T]) {
        &mut *self.data
    }
}

impl<T, const N: usize> Vector<T> for StaticVector<T, N> {
    closed spec fn elems(&self) -> Seq<T> {
        self.data@
    }

    fn len(&self) -> (n: usize) {
        N
    }

    fn data(&self) -> (d: &[T]) {
        self.data.as_slice()
    }
}

impl<T, const N: usize> VectorMut<T> for StaticVector<T, N> {
    fn data_mut(&mut self) -> (d: &mut [T]) {
        let d: &mut [T] = &mut self.data;
        d
    }
}

impl<T, const N: usize> StaticVector<T, N> {
    /// The vector holding the entries of `data`.
    pub fn from_array(data: [T; N]) -> (v: Self)
        ensures
            v.elems() == data@,
    {
        StaticVector { data }
    }
}

impl<'a, T> From<&'a [T]> for VectorView<'a, T> {
    fn from(value: &'a [T]) -> (v: Self)
        ensures
            v.entries() == value@,
    {
        Self { data: value }
    }
}

impl<'a, T> vstd::std_specs::convert::FromSpecImpl<&'a [T]> for VectorView<'a, T> {
    open spec fn obeys_from_spec() -> bool {
        true
    }

    closed spec fn from_spec(v: &'a [T]) -> Self {
        VectorView { data: v }
    }
}

/// The view wraps the very reference it is given, which no spec value can be
/// equated with before its borrow ends; `from` states the entries instead.
impl<'a, T> vstd::std_specs::convert::FromSpecImpl<&'a mut [T]> for VectorViewMut<'a, T> {
    open spec fn obeys_from_spec() -> bool {
        false
    }

    closed spec fn from_spec(v: &'a mut [T]) -> Self {
        vstd::pervasive::arbitrary()
    }
}

impl<'a, T> From<&'a mut [T]> for VectorViewMut<'a, T> {
    fn from(value: &'a mut [T]) -> (v: Self)
        ensures
            v.entries() == old(value)@,
    {
        Self { data: value }
    }
}

impl<T> DynamicVector<T> {
    /// The vector holding the entries of `data`.
    pub fn from_vec(data: Vec<T>) -> (v: Self)
        ensures
            v.elems() == data@,
    {
        DynamicVector { data }
    }
}

impl<T> core::ops::Index<usize> for DynamicVector<T> {
    type Output = T;

    fn index(&self, index: usize) -> (r: &T)
        ensures
            *r == self.elems()[index as int],
    {
        &self.data[index]
    }
}

impl<T> vstd::std_specs::core::IndexSpecImpl<usize> for DynamicVector<T> {
    open spec fn index_req(&self, index: &usize) -> bool {
        *index < self.elems().len()
    }
}

impl<'a, T> core::ops::Index<usize> for VectorView<'a, T> {
    type Output = T;

    fn index(&self, index: usize) -> (r: &T)
        ensures
            *r == self.entries()[index as int],
    {
        &self.data[index]
    }
}

impl<'a, T> vstd::std_specs::core::IndexSpecImpl<usize> for VectorView<'a, T> {
    open spec fn index_req(&self, index: &usize) -> bool {
        *index < self.entries().len()
    }
}

impl<'a, T> core::ops::Index<usize> for VectorViewMut<'a, T> {
    type Output = T;

    fn index(&self, index: usize) -> (r: &T)
        ensures
            *r == self.entries()[index as int],
    {
        &self.data[index]
    }
}

impl<'a, T> vstd::std_specs::core::IndexSpecImpl<usize> for VectorViewMut<'a, T> {
    open spec fn index_req(&self, index: &usize) -> bool {
        *index < self.entries().len()
    }
}

/// Scratch storage for `n` entries: on the stack for up to 256 entries, so that
/// the provided difference quotients allocate nothing for such sizes, and in a
/// heap vector beyond.
pub(crate) struct ScratchVector<T> {
    stack: [T; 256],
    heap: Vec<T>,
    len: usize,
}

/// `a[..n]` of std, written through: the first `n` entries of the array as a
/// mutable slice. What std documents of the range index is claimed: the slice
/// holds those entries, keeps its length, and what is written through it is what
/// the array holds afterwards, the other entries unchanged.
#[verifier::external_body]
fn array_prefix_mut<T, const N: usize>(a: &mut [T; N], n: usize) -> (r: &mut [T])
    requires
        n <= N,
    ensures
        r@ == old(a)@.take(n as int),
        final(r)@.len() == n,
        final(a)@ == final(r)@ + old(a)@.skip(n as int),
        final(a)@.take(n as int) == final(r)@,
{
    &mut a[..n]
}

impl<T> Vector<T> for ScratchVector<T> {
    closed spec fn elems(&self) -> Seq<T> {
        if self.len <= 256 {
            self.stack@.take(self.len as int)
        } else {
            self.heap@
        }
    }

    fn len(&self) -> (n: usize) {
        if self.len <= 256 {
            self.len
        } else {
            self.heap.len()
        }
    }

    fn data(&self) -> (d: &[T]) {
        if self.len <= 256 {
            let d = vstd::slice::slice_subrange(self.stack.as_slice(), 0, self.len);
            assert(d@ =~= self.stack@.take(self.len as int));
            d
        } else {
            self.heap.as_slice()
        }
    }
}

impl<T> VectorMut<T> for ScratchVector<T> {
    fn data_mut(&mut self) -> (d: &mut [T]) {
        if self.len <= 256 {
            array_prefix_mut(&mut self.stack, self.len)
        } else {
            self.heap.as_mut_slice()
        }
    }
}

impl<T> ScratchVector<T> {
    /// Storage for `size` entries, each `value`.
    pub(crate) fn new(value: T, size: usize) -> (v: Self) where T: Copy
        ensures
            v.elems() == Seq::new(size as nat, |i: int| value),
    {
        let stack = [value; 256];
        let mut heap = Vec::new();
        if size > 256 {
            let mut i: usize = 0;
            while i < size
                invariant
                    i <= size,
                    heap@ == Seq::new(i as nat, |k: int| value),
                decreases size - i,
            {
                heap.push(value);
                i = i + 1;
                proof {
                    assert(heap@ =~= Seq::new(i as nat, |k: int| value));
                }
            }
        }
        let v = Self { stack, heap, len: size };
        proof {
            if size <= 256 {
                assert(v.elems() =~= Seq::new(size as nat, |i: int| value));
            }
        }
        v
    }
}

} // verus!

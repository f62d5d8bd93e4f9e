//! The inline strategy: values of different plain-data types packed one
//! after the other into a single buffer of fixed capacity.
use vstd::prelude::*;

use crate::element::Element;
use crate::shape::{lemma_sum_prefix, lemma_sum_split, sum_sizes, Shape};

verus! {

/// Number of bytes that `value` takes in an [`Array`].
pub fn size_of_val<V: Element>(value: &V) -> (r: usize)
    ensures
        r as nat == V::width(),
{
    V::size()
}

/// A push that did not fit: the element needed `size` bytes and only `free`
/// bytes were left.
#[derive(Debug, PartialEq, Eq, Structural)]
pub struct CapacityError {
    pub size: usize,
    pub free: usize,
}

/// A buffer of fixed capacity holding a packed sequence of values.
///
/// Element `k` occupies the bytes `[offset, offset + size)`, where `size` is
/// its width and `offset` is the sum of the widths before it. The bytes past
/// the packed elements are zero.
pub struct Array {
    data: Vec<u8>,
    shape: Shape,
}

impl Array {
    /// The layout is well formed and the packed elements fit in the buffer.
    pub closed spec fn wf(&self) -> bool {
        &&& self.shape.wf()
        &&& sum_sizes(self.shape@) <= self.data@.len()
    }

    /// The whole buffer: the packed elements, then the bytes still free.
    pub closed spec fn bytes(&self) -> Seq<u8> {
        self.data@
    }

    /// The width of each element, in order.
    pub closed spec fn layout(&self) -> Seq<usize> {
        self.shape@
    }

    /// Number of bytes taken by the packed elements.
    pub open spec fn used(&self) -> nat {
        sum_sizes(self.layout())
    }

    /// Where element `k` starts.
    pub open spec fn offset_of(&self, k: int) -> nat {
        sum_sizes(self.layout().take(k))
    }

    /// The bytes of element `k`.
    pub open spec fn slot(&self, k: int) -> Seq<u8> {
        self.bytes().subrange(self.offset_of(k) as int, self.offset_of(k) + self.layout()[k])
    }

    /// The bytes of every element, in order.
    pub open spec fn slots(&self) -> Seq<Seq<u8>> {
        Seq::new(self.layout().len(), |k: int| self.slot(k))
    }

    /// Position at which a backward walk starts: the last element, or `0`
    /// when there is none.
    pub open spec fn last_position(&self) -> nat {
        if self.layout().len() == 0 {
            0
        } else {
            (self.layout().len() - 1) as nat
        }
    }

    /// An empty array whose buffer holds `capacity` zero bytes.
    pub fn new(capacity: usize) -> (r: Array)
        ensures
            r.wf(),
            r.layout() == Seq::<usize>::empty(),
            r.bytes() == Seq::new(capacity as nat, |i: int| 0u8),
    {
        let mut data: Vec<u8> = Vec::new();
        while data.len() < capacity
            invariant
                data@.len() <= capacity,
                data@ == Seq::new(data@.len(), |i: int| 0u8),
            decreases capacity - data@.len(),
        {
            data.push(0u8);
            assert(data@ =~= Seq::new(data@.len(), |i: int| 0u8));
        }
        Array { data, shape: Shape::new() }
    }

    /// Packs `value` behind the elements already there.
    ///
    /// Fails, consuming the array, when the value's bytes exceed the bytes
    /// still free.
    pub fn push<V: Element>(self, value: V) -> (r: Result<Array, CapacityError>)
        requires
            self.wf(),
        ensures
            r is Ok <==> self.used() + V::width() <= self.bytes().len(),
            r is Ok ==> {
                let a = r->Ok_0;
                &&& a.wf()
                &&& a.layout() == self.layout().push(V::width() as usize)
                &&& a.bytes() == self.bytes().subrange(0, self.used() as int) + V::bytes_of(value)
                    + self.bytes().subrange((self.used() + V::width()) as int, self.bytes().len() as int)
                &&& a.slots() == self.slots().push(V::bytes_of(value))
            },
            r is Err ==> r->Err_0 == (CapacityError {
                size: V::width() as usize,
                free: (self.bytes().len() - self.used()) as usize,
            }),
    {
        let size = V::size();
        let used = self.shape.memory_size();
        let free = self.data.len() - used;
        if size > free {
            return Err(CapacityError { size, free });
        }
        let bytes = value.encode();
        proof {
            V::lemma_round_trip(value);
        }
        let ghost before = self;
        let Array { mut data, mut shape } = self;
        let ghost old_data = data@;
        let cap: usize = data.len();
        let mut i: usize = 0;
        while i < size
            invariant
                i <= size,
                bytes@.len() == size,
                used + size <= old_data.len() == cap,
                data@.len() == old_data.len(),
                forall|j: int|
                    0 <= j < old_data.len() ==> #[trigger] data@[j] == if used <= j < used + i {
                        bytes@[j - used]
                    } else {
                        old_data[j]
                    },
            decreases size - i,
        {
            data[used + i] = bytes[i];
            i = i + 1;
        }
        shape.push(size);
        let a = Array { data, shape };
        proof {
            let n = before.layout().len() as int;
            assert(a.bytes() =~= old_data.subrange(0, used as int) + bytes@ + old_data.subrange(
                used + size,
                old_data.len() as int,
            ));
            assert(a.layout().take(n) =~= before.layout());
            assert forall|k: int| 0 <= k < n implies #[trigger] a.slot(k) == before.slot(k) by {
                assert(a.layout().take(k) =~= before.layout().take(k));
                lemma_sum_split(before.layout(), k);
                lemma_sum_prefix(before.layout(), k + 1);
                assert(a.slot(k) =~= before.slot(k));
            }
            assert(a.slot(n) =~= bytes@);
            assert(a.slots() =~= before.slots().push(V::bytes_of(value)));
        }
        Ok(a)
    }

    /// Number of elements.
    pub fn len(&self) -> (r: usize)
        requires
            self.wf(),
        ensures
            r == self.layout().len(),
    {
        self.shape.len()
    }

    /// Whether no element has been pushed.
    pub fn is_empty(&self) -> (r: bool)
        requires
            self.wf(),
        ensures
            r == (self.layout().len() == 0),
    {
        self.shape.is_empty()
    }

    /// Number of bytes the buffer holds.
    pub fn capacity(&self) -> (r: usize)
        ensures
            r == self.bytes().len(),
    {
        self.data.len()
    }

    /// Number of bytes taken by the packed elements.
    pub fn memory_size(&self) -> (r: usize)
        requires
            self.wf(),
        ensures
            r == self.used(),
    {
        self.shape.memory_size()
    }

    /// The layout of the packed elements.
    pub fn shape(&self) -> (r: &Shape)
        requires
            self.wf(),
        ensures
            r.wf(),
            r@ == self.layout(),
    {
        &self.shape
    }

    /// A cursor on the first element.
    pub fn forward(&self) -> (r: RefIterator<'_>)
        requires
            self.wf(),
        ensures
            r.wf(),
            r.array() == *self,
            r.position() == 0,
    {
        RefIterator { array: self, pos: 0 }
    }

    /// A cursor on the last element.
    pub fn backward(&self) -> (r: RefIterator<'_>)
        requires
            self.wf(),
        ensures
            r.wf(),
            r.array() == *self,
            r.position() == self.last_position(),
    {
        let n = self.shape.len();
        let pos = if n == 0 {
            0
        } else {
            n - 1
        };
        RefIterator { array: self, pos }
    }
}

/// Reading back the slot that a push filled gives the pushed value, and the
/// slots filled before keep their bytes.
pub proof fn lemma_push_read_back<V: Element>(before: Array, after: Array, value: V)
    requires
        after.slots() == before.slots().push(V::bytes_of(value)),
    ensures
        V::from_bytes(after.slot(before.layout().len() as int)) == value,
        forall|k: int|
            0 <= k < before.layout().len() ==> #[trigger] after.slot(k) == before.slot(k),
{
    V::lemma_round_trip(value);
    let n = before.layout().len() as int;
    assert(before.slots().len() == n);
    assert(after.slots().len() == after.layout().len());
    assert(after.slots()[n] == after.slot(n));
    assert forall|k: int| 0 <= k < n implies #[trigger] after.slot(k) == before.slot(k) by {
        assert(after.slots()[k] == after.slot(k));
        assert(before.slots()[k] == before.slot(k));
    }
}

/// A position in an [`Array`], from which the walk goes on in either
/// direction.
#[derive(Clone, Copy)]
pub struct RefIterator<'a> {
    array: &'a Array,
    pos: usize,
}

impl<'a> RefIterator<'a> {
    /// The array walked over.
    pub closed spec fn array(&self) -> Array {
        *self.array
    }

    /// The element the cursor is on; the length of the array when it is past
    /// the last one.
    pub closed spec fn position(&self) -> nat {
        self.pos as nat
    }

    /// The array is well formed and the position lies within it or just past it.
    pub open spec fn wf(&self) -> bool {
        &&& self.array().wf()
        &&& self.position() <= self.array().layout().len()
    }

    /// Byte offset of the current element from the start of the buffer.
    pub fn index(&self) -> (r: usize)
        requires
            self.wf(),
        ensures
            r == self.array().offset_of(self.position() as int),
    {
        self.array.shape.offset(self.pos)
    }

    /// The current element, read as a `V`, whose width must be the element's.
    pub fn value<V: Element>(&self) -> (r: V)
        requires
            self.wf(),
            self.position() < self.array().layout().len(),
            V::width() == self.array().layout()[self.position() as int],
        ensures
            r == V::from_bytes(self.array().slot(self.position() as int)),
    {
        let start = self.array.shape.offset(self.pos);
        proof {
            let layout = self.array().layout();
            lemma_sum_split(layout, self.pos as int);
            lemma_sum_prefix(layout, self.pos + 1);
        }
        V::decode(&self.array.data, start)
    }

    /// The cursor one element further on.
    pub fn next(self) -> (r: RefIterator<'a>)
        requires
            self.wf(),
            self.position() < self.array().layout().len(),
        ensures
            r.wf(),
            r.array() == self.array(),
            r.position() == self.position() + 1,
    {
        let n = self.array.shape.len();
        assert(self.pos < n);
        RefIterator { array: self.array, pos: self.pos + 1 }
    }

    /// The cursor one element back.
    pub fn prev(self) -> (r: RefIterator<'a>)
        requires
            self.wf(),
            self.position() > 0,
        ensures
            r.wf(),
            r.array() == self.array(),
            r.position() == self.position() - 1,
    {
        RefIterator { array: self.array, pos: self.pos - 1 }
    }

    /// A cursor on the first element of the same array.
    pub fn forward(self) -> (r: RefIterator<'a>)
        requires
            self.wf(),
        ensures
            r.wf(),
            r.array() == self.array(),
            r.position() == 0,
    {
        self.array.forward()
    }

    /// A cursor on the last element of the same array.
    pub fn backward(self) -> (r: RefIterator<'a>)
        requires
            self.wf(),
        ensures
            r.wf(),
            r.array() == self.array(),
            r.position() == self.array().last_position(),
    {
        self.array.backward()
    }
}

} // verus!

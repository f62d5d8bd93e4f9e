//! The layout of a packed sequence: each element's size, where it starts when
//! counted from the front, and how many bytes follow it.
use vstd::prelude::*;

verus! {

/// Total number of bytes taken by elements of the given sizes, packed.
pub open spec fn sum_sizes(sizes: Seq<usize>) -> nat
    decreases sizes.len(),
{
    if sizes.len() == 0 {
        0
    } else {
        sum_sizes(sizes.drop_last()) + sizes.last() as nat
    }
}

/// Packing two runs one after the other takes the bytes of both.
pub proof fn lemma_sum_concat(a: Seq<usize>, b: Seq<usize>)
    ensures
        sum_sizes(a + b) == sum_sizes(a) + sum_sizes(b),
    decreases b.len(),
{
    if b.len() == 0 {
        assert(a + b =~= a);
    } else {
        assert((a + b).drop_last() =~= a + b.drop_last());
        lemma_sum_concat(a, b.drop_last());
    }
}

/// The bytes before element `k`, element `k` itself, and the bytes after it
/// make up the whole.
pub proof fn lemma_sum_split(s: Seq<usize>, k: int)
    requires
        0 <= k < s.len(),
    ensures
        sum_sizes(s) == sum_sizes(s.take(k)) + s[k] + sum_sizes(s.skip(k + 1)),
        sum_sizes(s.take(k + 1)) == sum_sizes(s.take(k)) + s[k],
{
    assert(s.take(k + 1).drop_last() =~= s.take(k));
    assert(s =~= s.take(k + 1) + s.skip(k + 1));
    lemma_sum_concat(s.take(k + 1), s.skip(k + 1));
}

/// A prefix never takes more bytes than the whole.
pub proof fn lemma_sum_prefix(s: Seq<usize>, k: int)
    requires
        0 <= k <= s.len(),
    ensures
        sum_sizes(s.take(k)) <= sum_sizes(s),
{
    assert(s =~= s.take(k) + s.skip(k));
    lemma_sum_concat(s.take(k), s.skip(k));
}

/// The layout of a packed sequence, built up one element at a time.
pub struct Shape {
    sizes: Vec<usize>,
    offsets: Vec<usize>,
    total: usize,
}

impl View for Shape {
    type V = Seq<usize>;

    /// The size of each element, in order.
    closed spec fn view(&self) -> Seq<usize> {
        self.sizes@
    }
}

impl Shape {
    /// Offsets are the running sums of the sizes, and the total is their sum.
    pub closed spec fn wf(&self) -> bool {
        &&& self.offsets@.len() == self.sizes@.len()
        &&& forall|k: int|
            0 <= k < self.sizes@.len() ==> #[trigger] self.offsets@[k] as nat == sum_sizes(
                self.sizes@.take(k),
            )
        &&& self.total as nat == sum_sizes(self.sizes@)
    }

    /// Bytes before element `k` in the packed layout.
    pub open spec fn offset_of(&self, k: int) -> nat {
        sum_sizes(self@.take(k))
    }

    /// Bytes after element `k` in the packed layout.
    pub open spec fn back_offset_of(&self, k: int) -> nat {
        sum_sizes(self@.skip(k + 1))
    }

    /// The empty shape: no elements, no bytes.
    pub fn new() -> (r: Shape)
        ensures
            r.wf(),
            r@ == Seq::<usize>::empty(),
    {
        Shape { sizes: Vec::new(), offsets: Vec::new(), total: 0 }
    }

    /// Appends an element of `size` bytes behind the others.
    pub fn push(&mut self, size: usize)
        requires
            old(self).wf(),
            sum_sizes(old(self)@) + size <= usize::MAX,
        ensures
            final(self).wf(),
            final(self)@ == old(self)@.push(size),
    {
        let ghost before = self.sizes@;
        self.offsets.push(self.total);
        self.sizes.push(size);
        self.total = self.total + size;
        proof {
            let after = self.sizes@;
            assert(after.drop_last() =~= before);
            assert(after.take(before.len() as int) =~= before);
            assert forall|k: int| 0 <= k < after.len() implies #[trigger] self.offsets@[k] as nat
                == sum_sizes(after.take(k)) by {
                if k < before.len() {
                    assert(after.take(k) =~= before.take(k));
                }
            }
        }
    }

    /// Number of elements.
    pub fn len(&self) -> (r: usize)
        requires
            self.wf(),
        ensures
            r == self@.len(),
    {
        self.sizes.len()
    }

    /// Whether the shape has no elements.
    pub fn is_empty(&self) -> (r: bool)
        requires
            self.wf(),
        ensures
            r == (self@.len() == 0),
    {
        self.sizes.len() == 0
    }

    /// Size of element `k`.
    pub fn size(&self, k: usize) -> (r: usize)
        requires
            self.wf(),
            k < self@.len(),
        ensures
            r == self@[k as int],
    {
        self.sizes[k]
    }

    /// Total packed size of all elements.
    pub fn memory_size(&self) -> (r: usize)
        requires
            self.wf(),
        ensures
            r == sum_sizes(self@),
    {
        self.total
    }

    /// Byte offset of element `k` counted from the front; for `k` equal to
    /// the length, the total size.
    pub fn offset(&self, k: usize) -> (r: usize)
        requires
            self.wf(),
            k <= self@.len(),
        ensures
            r == self.offset_of(k as int),
    {
        if k == self.sizes.len() {
            assert(self.sizes@.take(k as int) =~= self.sizes@);
            self.total
        } else {
            self.offsets[k]
        }
    }

    /// Number of bytes that follow element `k`, for access from the back.
    pub fn back_offset(&self, k: usize) -> (r: usize)
        requires
            self.wf(),
            k < self@.len(),
        ensures
            r == self.back_offset_of(k as int),
            r + self.offset_of(k as int) + self@[k as int] == sum_sizes(self@),
    {
        proof {
            lemma_sum_split(self.sizes@, k as int);
        }
        self.total - self.offsets[k] - self.sizes[k]
    }
}

} // verus!

//! The heap strategy: every pushed value gets its own allocation, reached
//! through a forward chain (insertion order) and a backward chain (reverse
//! order).
use vstd::prelude::*;

use crate::Empty;

verus! {

/// The values that `chain` reaches, in chain order.
pub open spec fn chain_values<T>(arena: Seq<Box<T>>, chain: Seq<usize>) -> Seq<T> {
    chain.map_values(|i: usize| *arena[i as int])
}

/// A sequence of values pushed one at a time, each in its own heap
/// allocation.
///
/// The arena owns the allocations, in insertion order. The forward and
/// backward chains hold positions in the arena and own nothing, so the two
/// chains reach the same allocations and dropping the list releases each
/// value exactly once, through the arena alone.
pub struct DynamicList<T> {
    values: Vec<Box<T>>,
    forward: Vec<usize>,
    backward: Vec<usize>,
}

impl<T> View for DynamicList<T> {
    type V = Seq<T>;

    /// The values in the order they were pushed.
    closed spec fn view(&self) -> Seq<T> {
        self.values@.map_values(|b: Box<T>| *b)
    }
}

impl<T> DynamicList<T> {
    /// Each chain reaches every allocation exactly once: the forward chain
    /// from the first pushed to the last, the backward chain the other way.
    pub closed spec fn wf(&self) -> bool {
        let n = self.values@.len();
        &&& self.forward@.len() == n
        &&& self.backward@.len() == n
        &&& forall|k: int| 0 <= k < n ==> #[trigger] self.forward@[k] == k
        &&& forall|k: int| 0 <= k < n ==> #[trigger] self.backward@[k] == n - 1 - k
    }

    /// The values met walking the forward chain.
    pub closed spec fn forward_values(&self) -> Seq<T> {
        chain_values(self.values@, self.forward@)
    }

    /// The values met walking the backward chain.
    pub closed spec fn backward_values(&self) -> Seq<T> {
        chain_values(self.values@, self.backward@)
    }

    /// The empty list.
    pub fn new() -> (r: DynamicList<T>)
        ensures
            r.wf(),
            r@ == Seq::<T>::empty(),
    {
        let r = DynamicList { values: Vec::new(), forward: Vec::new(), backward: Vec::new() };
        assert(r@ =~= Seq::<T>::empty());
        r
    }

    /// Moves `value` into a new allocation, links it at the tail of the
    /// forward chain and at the head of the backward chain, and returns the
    /// list that owns it.
    pub fn push(self, value: T) -> (r: DynamicList<T>)
        requires
            self.wf(),
        ensures
            r.wf(),
            r@ == self@.push(value),
            r@.len() == self@.len() + 1,
    {
        let ghost before = self@;
        let DynamicList { mut values, mut forward, mut backward } = self;
        let n = values.len();
        values.push(Box::new(value));
        forward.push(n);
        backward.insert(0, n);
        let r = DynamicList { values, forward, backward };
        assert(r@ =~= before.push(value));
        r
    }

    /// A list holding `values`, pushed in order.
    pub fn from_vec(values: Vec<T>) -> (r: DynamicList<T>)
        ensures
            r.wf(),
            r@ == values@,
            r@.len() == values@.len(),
    {
        let ghost all = values@;
        let mut rest = values;
        let mut list = DynamicList::new();
        while rest.len() > 0
            invariant
                list.wf(),
                list@ + rest@ == all,
            decreases rest@.len(),
        {
            let ghost before = rest@;
            let v = rest.remove(0);
            assert(before =~= seq![v] + rest@);
            assert(list@.push(v) + rest@ =~= list@ + before);
            list = list.push(v);
        }
        assert(list@ + rest@ =~= list@);
        list
    }

    /// The head of the forward chain: the first value pushed.
    pub fn forward(&self) -> (r: Node<'_, T>)
        requires
            self.wf(),
        ensures
            r.wf(),
            r@ == self.forward_values(),
            r@ == self@,
    {
        let r = Node { values: &self.values, chain: &self.forward, at: 0 };
        assert(self.forward@.skip(0) =~= self.forward@);
        proof {
            lemma_forward_in_order(self);
        }
        r
    }

    /// The head of the backward chain: the last value pushed.
    pub fn backward(&self) -> (r: Node<'_, T>)
        requires
            self.wf(),
        ensures
            r.wf(),
            r@ == self.backward_values(),
            r@ == self@.reverse(),
    {
        let r = Node { values: &self.values, chain: &self.backward, at: 0 };
        assert(self.backward@.skip(0) =~= self.backward@);
        assert(self.backward_values() =~= self@.reverse());
        r
    }

    /// Number of values pushed.
    pub fn len(&self) -> (r: usize)
        requires
            self.wf(),
        ensures
            r == self@.len(),
    {
        self.values.len()
    }

    /// Whether no value has been pushed.
    pub fn is_empty(&self) -> (r: bool)
        requires
            self.wf(),
        ensures
            r == (self@.len() == 0),
    {
        self.values.len() == 0
    }
}

impl<T> Default for DynamicList<T> {
    fn default() -> (r: DynamicList<T>)
        ensures
            r.wf(),
            r@ == Seq::<T>::empty(),
    {
        DynamicList::new()
    }
}

/// Walking the forward chain meets the values in the order they were pushed.
pub proof fn lemma_forward_in_order<T>(list: &DynamicList<T>)
    requires
        list.wf(),
    ensures
        list.forward_values() == list@,
{
    assert(list.forward_values() =~= list@);
}

/// The value at position `k` of the forward chain is the value at position
/// `n - 1 - k` of the backward chain, where `n` is the length.
pub proof fn lemma_forward_mirrors_backward<T>(list: &DynamicList<T>, k: int)
    requires
        list.wf(),
        0 <= k < list@.len(),
    ensures
        list.forward_values().len() == list@.len(),
        list.backward_values().len() == list@.len(),
        list.forward_values()[k] == list.backward_values()[list@.len() - 1 - k],
{
}

/// A position in a chain of a [`DynamicList`], seen as the rest of the chain
/// from there on. It borrows the list and owns nothing.
pub struct Node<'a, T> {
    values: &'a Vec<Box<T>>,
    chain: &'a Vec<usize>,
    at: usize,
}

impl<'a, T> View for Node<'a, T> {
    type V = Seq<T>;

    /// The values from this position to the end of the chain.
    closed spec fn view(&self) -> Seq<T> {
        chain_values(self.values@, self.chain@.skip(self.at as int))
    }
}

impl<'a, T> Node<'a, T> {
    /// The position lies in the chain, and the chain stays in the arena.
    pub closed spec fn wf(&self) -> bool {
        &&& self.at <= self.chain@.len()
        &&& forall|k: int|
            0 <= k < self.chain@.len() ==> #[trigger] self.chain@[k] < self.values@.len()
    }

    /// The value here.
    pub fn value(&self) -> (r: &'a T)
        requires
            self.wf(),
            self@.len() > 0,
        ensures
            *r == self@[0],
    {
        let i = self.chain[self.at];
        &*self.values[i]
    }

    /// The rest of the chain after this value; empty at the end.
    pub fn next(&self) -> (r: Node<'a, T>)
        requires
            self.wf(),
            self@.len() > 0,
        ensures
            r.wf(),
            r@ == self@.drop_first(),
    {
        let n = self.chain.len();
        assert(self.at < n);
        let r = Node { values: self.values, chain: self.chain, at: self.at + 1 };
        assert(r@ =~= self@.drop_first());
        r
    }

    /// Number of values from here to the end of the chain.
    pub fn len(&self) -> (r: usize)
        requires
            self.wf(),
        ensures
            r == self@.len(),
    {
        self.chain.len() - self.at
    }

    /// Whether this is the end of the chain.
    pub fn is_empty(&self) -> (r: bool)
        requires
            self.wf(),
        ensures
            r == (self@.len() == 0),
    {
        self.at == self.chain.len()
    }

    /// The value `k` positions further along the chain, or [`Empty`] when the
    /// chain ends before that.
    pub fn index(&self, k: usize) -> (r: Result<&'a T, Empty>)
        requires
            self.wf(),
        ensures
            k < self@.len() ==> r is Ok && *r->Ok_0 == self@[k as int],
            k >= self@.len() ==> r == Err::<&'a T, Empty>(Empty),
    {
        if k < self.chain.len() - self.at {
            let i = self.chain[self.at + k];
            Ok(&*self.values[i])
        } else {
            Err(Empty)
        }
    }
}

} // verus!

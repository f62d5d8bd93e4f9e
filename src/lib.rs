//! Heterogeneous, append-only sequences in two storage strategies.
//!
//! * [`Array`]: an inline, fixed-capacity byte buffer into which plain-data
//!   values of different types are packed one after the other, laid out by a
//!   [`Shape`] descriptor.
//! * [`DynamicList`]: heap-allocated values owned by one arena and reached
//!   through a forward and a backward chain of positions.
//!
//! Both are built by consuming pushes and read through cursors that walk in
//! insertion order or in reverse.
use vstd::prelude::*;

pub mod array;
pub mod element;
pub mod list;
pub mod shape;

pub use array::{size_of_val, Array, CapacityError, RefIterator};
pub use element::Element;
pub use list::{DynamicList, Node};
pub use shape::Shape;

verus! {

/// The end of a chain, and the answer to a positional access past the end.
#[derive(Debug, PartialEq, Eq, Structural)]
pub struct Empty;

} // verus!

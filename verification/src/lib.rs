//! A reverse-mode automatic-differentiation engine over dense n-dimensional
//! arrays of exact 64-bit integers.
//!
//! The crate has two halves.  `tensor` (with its shape algebra in `shape`)
//! is a dense row-major array type with elementwise arithmetic, NumPy-style
//! broadcasting, reductions and matrix multiplication; addition and
//! multiplication wrap modulo 2^64 and division truncates (yielding 0 where
//! machine division would trap), so every operation is a total function with
//! an exact specification.  `graph` records operations on tracked values as nodes of a
//! computation graph held in flat arena tables, and `engine` walks that graph
//! backwards in generation order, accumulating the gradient of a terminal
//! node into every upstream input.

use vstd::prelude::*;

pub mod arith;
pub mod broadcast;
pub mod engine;
pub mod graph;
pub mod laws;
pub mod linalg;
pub mod ops;
pub mod scalar;
pub mod shape;
pub mod tensor;
pub mod tensor_ops;

verus! {

/// Every failure the library can report.  Shape checks happen when an
/// operation is built, never after it has started to mutate anything.
#[derive(Clone, Copy, Debug, PartialEq, Eq, Structural)]
pub enum Error {
    /// Operand shapes neither match nor broadcast, or a reshape/reduction
    /// target has the wrong element count.
    ShapeError,
    /// The operation is not defined for the given rank.
    UnsupportedOperation,
    /// `backward` was called on a node that records no creator.
    GraphStateError,
    /// A gradient was read before any backward pass set it.
    UninitializedGradient,
    /// The requested element count does not fit in a machine word.
    SizeOverflow,
}

} // verus!

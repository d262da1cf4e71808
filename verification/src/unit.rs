//! The floating-point unit: the one place where numbers are computed with.
//!
//! The library works on words and asks a unit, handed in by the caller, for
//! each operation on the numbers behind them. Contracts are stated for
//! every function from operations to words that the unit computes.

use vstd::prelude::*;

verus! {

/// One operation on the numbers that words encode. The answer to each is
/// the word of the result.
#[derive(Clone, Copy, Debug)]
pub enum FloatOp {
    /// The sum of two numbers.
    Add(u64, u64),
    /// The product of two numbers.
    Mul(u64, u64),
    /// The first number divided by the second.
    Div(u64, u64),
    /// The exponential of a number.
    Exp(u64),
}

/// The unit answers every operation.
pub open spec fn total<F: Fn(FloatOp) -> u64>(fpu: F) -> bool {
    forall|op: FloatOp| #[trigger] call_requires(fpu, (op,))
}

/// Whatever the unit answers to an operation is what `o` gives for it.
pub open spec fn computes<F: Fn(FloatOp) -> u64>(fpu: F, o: spec_fn(FloatOp) -> u64) -> bool {
    forall|op: FloatOp, r: u64| #[trigger] call_ensures(fpu, (op,), r) ==> r == o(op)
}

} // verus!

use vstd::prelude::*;

verus! {

/// The result of evaluating a statement or an expression.
#[derive(Clone, Copy, Debug, PartialEq, Eq, Structural)]
pub enum Val {
    Number(i32),
    Unit,
}

} // verus!

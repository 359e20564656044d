use vstd::prelude::*;

verus! {

/// The result of a race between two joins: which side finished first.
#[derive(Debug, Clone, PartialEq, Eq)]
pub enum Either<A, B> {
    Left(A),
    Right(B),
}

} // verus!

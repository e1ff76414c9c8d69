//! Input language front-ends.

use vstd::prelude::*;
use crate::computation::Computation;

verus! {

/// A front-end.
pub trait FrontEnd {
    /// Representation of an input program (possibly with argument assignments) for this language.
    type Inputs;

    /// Compiles the program (and possibly assignment) to constraints.
    fn gen(i: Self::Inputs) -> Computation;
}

} // verus!

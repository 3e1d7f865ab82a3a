//! What every analysis of an operation offers once the walk is over.
use vstd::prelude::*;

verus! {

/// An analysis that reports an output at the end of a walk.
pub trait Analyzer: Sized {
    type Output;

    /// Whether the analysis reached a state it can report from.
    spec fn ready(&self) -> bool;

    fn into_output(self) -> Self::Output
        requires
            self.ready(),
    ;
}

} // verus!

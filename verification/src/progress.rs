//! How far an operation is from its end.

use vstd::prelude::*;

verus! {

/// What is left of an operation: stages, and steps within the stage at hand.
pub struct Left {
    pub stages: nat,
    pub steps: nat,
}

impl Left {
    /// Whether less is left than `other`. What is left cannot become less in this way for ever.
    pub open spec fn is_less(self, other: Left) -> bool {
        self.stages < other.stages || (self.stages == other.stages && self.steps < other.steps)
    }
}

} // verus!

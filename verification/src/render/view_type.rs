use vstd::prelude::*;

verus! {

/// How the compute renderer shades the world.
#[derive(Debug, Copy, Clone, PartialEq, Eq, Structural)]
pub enum ViewType {
    Standard,
    Complexity,
    Unshaded,
}

impl ViewType {
    /// The number the shaders know the view by.
    pub open spec fn spec_code(self) -> u32 {
        match self {
            ViewType::Standard => 1,
            ViewType::Complexity => 2,
            ViewType::Unshaded => 3,
        }
    }

    /// The number the shaders know the view by: 1, 2 and 3 in the order of
    /// the variants.
    pub fn code(self) -> (r: u32)
        ensures
            r == self.spec_code(),
    {
        match self {
            ViewType::Standard => 1,
            ViewType::Complexity => 2,
            ViewType::Unshaded => 3,
        }
    }
}

} // verus!

use vstd::prelude::*;

verus! {

/// Which of the six faces of a block are to be drawn.
#[derive(Debug, Copy, Clone, PartialEq, Eq, Structural)]
pub struct BlockSides {
    pub top: bool,
    pub bot: bool,
    pub left: bool,
    pub right: bool,
    pub front: bool,
    pub back: bool,
}

impl BlockSides {
    /// Whether every face is `b`.
    pub open spec fn spec_is_all(&self, b: bool) -> bool {
        &&& self.top == b
        &&& self.bot == b
        &&& self.left == b
        &&& self.right == b
        &&& self.front == b
        &&& self.back == b
    }

    /// No face is drawn.
    pub fn new() -> (s: BlockSides)
        ensures
            s.spec_is_all(false),
    {
        BlockSides { top: false, bot: false, left: false, right: false, front: false, back: false }
    }

    /// Sets every face to `b`.
    pub fn set_all(&mut self, b: bool)
        ensures
            final(self).spec_is_all(b),
    {
        self.top = b;
        self.bot = b;
        self.left = b;
        self.right = b;
        self.front = b;
        self.back = b;
    }

    /// Whether every face is `b`; the sides are left as they are.
    pub fn is_all(&mut self, b: bool) -> (r: bool)
        ensures
            r == old(self).spec_is_all(b),
            *final(self) == *old(self),
    {
        return self.left == b && self.right == b && self.back == b && self.bot == b
            && self.front == b && self.top == b;
    }
}

} // verus!

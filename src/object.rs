use vstd::prelude::*;

verus! {

/// What one cell of the grid holds.
#[derive(PartialEq, Eq, Structural, Copy, Clone, Hash, Debug, PartialOrd, Ord)]
pub enum Object {
    Empty,
    Goal,
    Wall,
}

impl Object {
    /// Position of the variant in the order `Empty < Goal < Wall`.
    pub open spec fn rank(self) -> nat {
        match self {
            Object::Empty => 0,
            Object::Goal => 1,
            Object::Wall => 2,
        }
    }

    /// The glyph shown for the object.
    pub open spec fn glyph(self) -> char {
        match self {
            Object::Empty => '_',
            Object::Goal => 'O',
            Object::Wall => '#',
        }
    }

    pub fn rank_of(&self) -> (r: usize)
        ensures
            r == self.rank(),
    {
        match self {
            Object::Empty => 0,
            Object::Goal => 1,
            Object::Wall => 2,
        }
    }

    pub fn symbol(&self) -> (c: char)
        ensures
            c == self.glyph(),
    {
        match self {
            Object::Empty => '_',
            Object::Goal => 'O',
            Object::Wall => '#',
        }
    }
}

} // verus!

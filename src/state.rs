use vstd::prelude::*;

use crate::object::Object;

verus! {

/// The five cells that the agent sees: its four neighbours and its own cell.
#[derive(PartialEq, Eq, Structural, Copy, Clone, Hash, Debug, PartialOrd, Ord)]
pub struct State {
    pub up: Object,
    pub down: Object,
    pub left: Object,
    pub right: Object,
    pub center: Object,
}

/// Number of distinct states over the three objects: `3^5`.
pub const N_CODES: usize = 243;

/// The object of rank `k` (`k < 3`).
pub open spec fn object_of(k: nat) -> Object {
    if k == 0 {
        Object::Empty
    } else if k == 1 {
        Object::Goal
    } else {
        Object::Wall
    }
}

/// The state whose code is `i`: its base-3 digits, `up` the most significant.
pub open spec fn state_of_code(i: nat) -> State {
    State {
        up: object_of(i / 81),
        down: object_of((i / 27) % 3),
        left: object_of((i / 9) % 3),
        right: object_of((i / 3) % 3),
        center: object_of(i % 3),
    }
}

impl State {
    /// Base-3 number of the state, `up` the most significant digit. Codes
    /// ascend in the lexicographic order of the fields.
    pub open spec fn code(self) -> nat {
        self.up.rank() * 81 + self.down.rank() * 27 + self.left.rank() * 9 + self.right.rank()
            * 3 + self.center.rank()
    }

    /// A state that an agent standing inside a walled grid of at least two
    /// interior rows and two interior columns can see.
    pub open spec fn reachable(self) -> bool {
        &&& self.center != Object::Wall
        &&& !(self.up == Object::Wall && self.down == Object::Wall)
        &&& !(self.left == Object::Wall && self.right == Object::Wall)
    }

    pub fn code_of(&self) -> (r: usize)
        ensures
            r == self.code(),
            r < N_CODES,
    {
        let r = self.up.rank_of() * 81 + self.down.rank_of() * 27 + self.left.rank_of() * 9
            + self.right.rank_of() * 3 + self.center.rank_of();
        r
    }

    pub fn is_reachable(&self) -> (b: bool)
        ensures
            b == self.reachable(),
    {
        self.center != Object::Wall && !(self.up == Object::Wall && self.down == Object::Wall)
            && !(self.left == Object::Wall && self.right == Object::Wall)
    }
}

/// Decoding a state's code gives the state back.
pub proof fn lemma_code_round_trip(s: State)
    ensures
        s.code() < N_CODES,
        state_of_code(s.code()) == s,
{
    let u = s.up.rank();
    let d = s.down.rank();
    let l = s.left.rank();
    let r = s.right.rank();
    let c = s.center.rank();
    let i = s.code();
    assert(i / 81 == u && (i / 27) % 3 == d && (i / 9) % 3 == l && (i / 3) % 3 == r && i % 3
        == c) by (nonlinear_arith)
        requires
            i == u * 81 + d * 27 + l * 9 + r * 3 + c,
            u < 3,
            d < 3,
            l < 3,
            r < 3,
            c < 3,
    ;
}

} // verus!

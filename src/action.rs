use vstd::prelude::*;

verus! {

/// What the agent does in one step.
#[derive(PartialEq, Eq, Structural, Copy, Clone, Debug)]
pub enum Action {
    MoveUp,
    MoveDown,
    MoveLeft,
    MoveRight,
    /// Resolved, when it is taken, into one of the four moves above.
    MoveRandom,
    PickUp,
}

/// The action numbered `k` in declaration order; 5 and above give `PickUp`.
pub open spec fn action_of(k: nat) -> Action {
    if k == 0 {
        Action::MoveUp
    } else if k == 1 {
        Action::MoveDown
    } else if k == 2 {
        Action::MoveLeft
    } else if k == 3 {
        Action::MoveRight
    } else if k == 4 {
        Action::MoveRandom
    } else {
        Action::PickUp
    }
}

/// The directional move numbered `k`; 3 and above give `MoveRight`.
pub open spec fn move_of(k: nat) -> Action {
    if k == 0 {
        Action::MoveUp
    } else if k == 1 {
        Action::MoveDown
    } else if k == 2 {
        Action::MoveLeft
    } else {
        Action::MoveRight
    }
}

impl Action {
    /// One of the four moves that change the location directly.
    pub open spec fn is_direction(self) -> bool {
        match self {
            Action::MoveUp | Action::MoveDown | Action::MoveLeft | Action::MoveRight => true,
            _ => false,
        }
    }

    /// The letter shown for the action.
    pub open spec fn letter(self) -> char {
        match self {
            Action::MoveUp => 'U',
            Action::MoveDown => 'D',
            Action::MoveLeft => 'L',
            Action::MoveRight => 'R',
            Action::MoveRandom => '?',
            Action::PickUp => 'P',
        }
    }

    pub fn symbol(&self) -> (c: char)
        ensures
            c == self.letter(),
    {
        match self {
            Action::MoveUp => 'U',
            Action::MoveDown => 'D',
            Action::MoveLeft => 'L',
            Action::MoveRight => 'R',
            Action::MoveRandom => '?',
            Action::PickUp => 'P',
        }
    }

    /// The action numbered `k` in declaration order.
    pub fn from_index(k: u32) -> (a: Action)
        ensures
            a == action_of(k as nat),
    {
        match k {
            0 => Action::MoveUp,
            1 => Action::MoveDown,
            2 => Action::MoveLeft,
            3 => Action::MoveRight,
            4 => Action::MoveRandom,
            _ => Action::PickUp,
        }
    }

    /// The directional move numbered `k`.
    pub fn move_from_index(k: u32) -> (a: Action)
        ensures
            a == move_of(k as nat),
            a.is_direction(),
    {
        match k {
            0 => Action::MoveUp,
            1 => Action::MoveDown,
            2 => Action::MoveLeft,
            _ => Action::MoveRight,
        }
    }
}

} // verus!

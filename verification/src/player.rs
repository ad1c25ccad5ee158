use vstd::prelude::*;

verus! {

/// A player in a two-player combinatorial game.
#[derive(Clone, Copy, PartialEq, Eq, Structural, Debug)]
pub enum Player {
    P1,
    P2,
}

impl Player {
    /// The player opposite to this one, as a mathematical function.
    pub open spec fn spec_opposite(self) -> Player {
        match self {
            Player::P1 => Player::P2,
            Player::P2 => Player::P1,
        }
    }

    /// Get the player opposite to this one.
    pub fn opposite(&self) -> (r: Self)
        ensures
            r == self.spec_opposite(),
    {
        match self {
            Player::P1 => Player::P2,
            Player::P2 => Player::P1,
        }
    }
}

/// Taking the opposite player twice gives back the original player:
/// `opposite` is an involution.
pub proof fn lemma_opposite_involution(p: Player)
    ensures
        p.spec_opposite().spec_opposite() == p,
{
}

} // verus!

use crate::player::Player;
use vstd::prelude::*;

verus! {

/// The game variants the surrounding command-line front end offers.
/// Their board representations, argument parsing and rendering live
/// with that front end; the engine itself never inspects them.
#[derive(Clone, Copy, PartialEq, Eq, Structural, Debug)]
pub enum Games {
    Reversi,
    TicTacToe,
    OrderAndChaos,
    Nim,
    Domineering,
    Chomp,
}

impl Games {
    /// The display name of the variant, as a sequence of characters.
    pub open spec fn spec_name(self) -> Seq<char> {
        match self {
            Games::Reversi => "Reversi"@,
            Games::TicTacToe => "Tic Tac Toe"@,
            Games::OrderAndChaos => "Order and Chaos"@,
            Games::Nim => "Nim"@,
            Games::Domineering => "Domineering"@,
            Games::Chomp => "Chomp"@,
        }
    }

    /// The display name of the variant.
    pub fn name(&self) -> (r: String)
        ensures
            r@ == self.spec_name(),
    {
        broadcast use vstd::string::to_string_from_display_ensures_for_str;

        match *self {
            Games::Reversi => "Reversi".to_string(),
            Games::TicTacToe => "Tic Tac Toe".to_string(),
            Games::OrderAndChaos => "Order and Chaos".to_string(),
            Games::Nim => "Nim".to_string(),
            Games::Domineering => "Domineering".to_string(),
            Games::Chomp => "Chomp".to_string(),
        }
    }
}

/// The character a square is drawn with: the first player is an `X`,
/// the second an `O`, an empty square a `-`.
pub fn player_to_char(player: Option<Player>) -> (c: char)
    ensures
        c == (match player {
            Some(Player::P1) => 'X',
            Some(Player::P2) => 'O',
            None => '-',
        }),
{
    match player {
        Some(Player::P1) => 'X',
        Some(Player::P2) => 'O',
        None => '-',
    }
}

} // verus!

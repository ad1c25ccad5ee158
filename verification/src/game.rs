use crate::player::Player;
use vstd::prelude::*;

verus! {

/// Largest magnitude the engine accepts for any game score. Keeping
/// every score and search window within this bound proves all of the
/// engine's `i32` arithmetic free of overflow.
pub const SCORE_LIMIT: i32 = 0x3fff_ffff;

/// The contract every game state implements to plug into the engine.
///
/// A concrete state (which may hold heap-allocated data) is tied to a
/// mathematical model of the position, `State`; the `st_*` spec
/// functions describe the game's rules on that model, the executable
/// methods are each pinned to one of them, and the `lemma_*` proof
/// obligations are the laws the search relies on.
pub trait Game: Sized {
    /// The type of move this game uses.
    type Move;

    /// The mathematical model of a position.
    type State;

    /// The abstract position this concrete value stands for.
    spec fn model(&self) -> Self::State;

    /// Well-formedness of a concrete value.
    spec fn inv(&self) -> bool;

    /// Well-formedness of an abstract position.
    spec fn st_inv(s: Self::State) -> bool;

    /// Whose turn it is in `s`.
    spec fn st_player(s: Self::State) -> Player;

    /// All legal moves from `s`, most promising first.
    spec fn st_moves(s: Self::State) -> Seq<Self::Move>;

    /// Whether `m` may be played in `s`.
    spec fn st_legal(s: Self::State, m: Self::Move) -> bool;

    /// The position after playing the legal move `m` in `s`.
    spec fn st_apply(s: Self::State, m: Self::Move) -> Self::State;

    /// The player for whom playing `m` in `s` immediately wins, if any.
    spec fn st_winner(s: Self::State, m: Self::Move) -> Option<Player>;

    /// Whether `s` is a terminal draw.
    spec fn st_draw(s: Self::State) -> bool;

    /// The terminal score of `s`, from the perspective of the player
    /// who just moved into it.
    spec fn st_score(s: Self::State) -> int;

    /// A non-negative upper bound on the magnitude of a win from `s`.
    spec fn st_max_score(s: Self::State) -> int;

    /// The corresponding negative lower bound for a loss from `s`.
    spec fn st_min_score(s: Self::State) -> int;

    /// A measure that shrinks with every listed move; it bounds the
    /// depth of the search.
    spec fn st_measure(s: Self::State) -> nat;

    /// Well-formed concrete values stand for well-formed positions.
    proof fn lemma_model_inv(&self)
        requires
            self.inv(),
        ensures
            Self::st_inv(self.model()),
    ;

    /// The score range of a well-formed position: symmetric around
    /// zero, within the engine's arithmetic bound, and containing the
    /// terminal score.
    proof fn lemma_score_range(s: Self::State)
        requires
            Self::st_inv(s),
        ensures
            0 <= Self::st_max_score(s) <= SCORE_LIMIT as int,
            Self::st_min_score(s) == -Self::st_max_score(s),
            0 <= Self::st_score(s) <= Self::st_max_score(s),
    ;

    /// Every listed move is legal, leads to a well-formed position,
    /// shrinks the measure, never widens the score range, and, when it
    /// is a winning move, ends the game.
    proof fn lemma_listed_move(s: Self::State, i: int)
        requires
            Self::st_inv(s),
            0 <= i < Self::st_moves(s).len(),
        ensures
            Self::st_legal(s, Self::st_moves(s)[i]),
            Self::st_inv(Self::st_apply(s, Self::st_moves(s)[i])),
            Self::st_measure(Self::st_apply(s, Self::st_moves(s)[i])) < Self::st_measure(s),
            Self::st_max_score(Self::st_apply(s, Self::st_moves(s)[i])) <= Self::st_max_score(s),
            Self::st_winner(s, Self::st_moves(s)[i]) is Some ==> Self::st_moves(
                Self::st_apply(s, Self::st_moves(s)[i]),
            ).len() == 0,
    ;

    /// Returns the player whose turn it is.
    fn player(&self) -> (p: Player)
        requires
            self.inv(),
        ensures
            p == Self::st_player(self.model()),
    ;

    /// Scores the position.
    fn score(&self) -> (r: u32)
        requires
            self.inv(),
        ensures
            r as int == Self::st_score(self.model()),
    ;

    /// Get the max score of the game.
    fn max_score(&self) -> (r: u32)
        requires
            self.inv(),
        ensures
            r as int == Self::st_max_score(self.model()),
    ;

    /// Get the min score of the game. This is negative or zero.
    fn min_score(&self) -> (r: i32)
        requires
            self.inv(),
        ensures
            r as int == Self::st_min_score(self.model()),
    ;

    /// Makes the move if and only if it is legal in the current state,
    /// and returns whether it was made; an illegal move is a no-op.
    fn make_move(&mut self, m: &Self::Move) -> (b: bool)
        requires
            old(self).inv(),
        ensures
            final(self).inv(),
            b == Self::st_legal(old(self).model(), *m),
            b ==> final(self).model() == Self::st_apply(old(self).model(), *m),
            !b ==> final(self).model() == old(self).model(),
    ;

    /// Returns all possible moves, ideally best guesses first.
    fn possible_moves(&self) -> (v: Vec<Self::Move>)
        requires
            self.inv(),
        ensures
            v@ == Self::st_moves(self.model()),
    ;

    /// Returns the winner that playing `m` would immediately produce,
    /// if any, without touching the current state.
    fn is_winning_move(&self, m: &Self::Move) -> (w: Option<Player>)
        requires
            self.inv(),
        ensures
            w == Self::st_winner(self.model(), *m),
    ;

    /// Returns true if the game is a draw.
    fn is_draw(&self) -> (d: bool)
        requires
            self.inv(),
        ensures
            d == Self::st_draw(self.model()),
    ;

    /// An independent copy of the state, for hypothetical branches.
    fn duplicate(&self) -> (c: Self)
        requires
            self.inv(),
        ensures
            c.inv(),
            c.model() == self.model(),
    ;

    /// Whether the two values stand for the same position; this is the
    /// equality a transposition table keys by.
    fn same_position(&self, other: &Self) -> (b: bool)
        requires
            self.inv(),
            other.inv(),
        ensures
            b == (self.model() == other.model()),
    ;
}

} // verus!

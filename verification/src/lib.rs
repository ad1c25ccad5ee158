//! A generic engine for solving two-player, zero-sum combinatorial games.
//!
//! The engine is a recursive negamax search with fail-soft alpha-beta
//! pruning, an exact-value driver that narrows a null window over the
//! score range, a pluggable transposition table for memoization, and a
//! per-move evaluator. Games plug in by implementing the [`game::Game`]
//! contract; memoization backends plug in by implementing the
//! [`table::TranspositionTable`] contract.

pub mod engine;
pub mod game;
pub mod games;
pub mod nim;
pub mod player;
pub mod table;

pub use engine::brute_force;
pub use engine::move_scores;
pub use engine::score_move;
pub use engine::solvable;
pub use engine::solve;
pub use engine::value;
pub use game::Game;
pub use game::SCORE_LIMIT;
pub use games::Games;
pub use nim::Nim;
pub use player::Player;
pub use table::DefaultTable;
pub use table::TranspositionTable;

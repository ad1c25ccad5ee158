use game_solver::engine::brute_force;
use game_solver::engine::move_scores;
use game_solver::engine::score_move;
use game_solver::engine::solve;
use game_solver::game::Game;
use game_solver::nim::Nim;
use game_solver::table::DefaultTable;
use game_solver::table::TranspositionTable;

fn fresh() -> DefaultTable<Nim> {
    DefaultTable::new()
}

#[test]
fn solve_is_deterministic_across_fresh_tables() {
    for heaps in [vec![1], vec![1, 1], vec![2], vec![1, 2], vec![2, 2], vec![1, 2, 3]] {
        let game = Nim::new(heaps);
        let first = solve(&game, &mut fresh());
        let second = solve(&game, &mut fresh());
        let third = solve(&game, &mut fresh());
        assert_eq!(first, second);
        assert_eq!(second, third);
    }
}

#[test]
fn solve_matches_brute_force() {
    for heaps in [vec![1], vec![1, 1], vec![2], vec![3], vec![1, 2], vec![2, 2], vec![1, 2, 3]] {
        let game = Nim::new(heaps);
        assert_eq!(solve(&game, &mut fresh()), brute_force(&game));
    }
}

#[test]
fn move_scores_consistent_with_solve() {
    let game = Nim::new(vec![1, 2]);
    let scores = move_scores(&game, &mut fresh());
    for (m, s) in scores {
        let mut child = game.duplicate();
        assert!(child.make_move(&m));
        assert_eq!(s, -solve(&child, &mut fresh()));
    }
}

#[test]
fn move_scores_cardinality() {
    for heaps in [vec![], vec![1], vec![2, 2], vec![1, 2, 3]] {
        let game = Nim::new(heaps);
        let n_moves = game.possible_moves().len();
        let scores = move_scores(&game, &mut fresh());
        assert_eq!(scores.len(), n_moves);
    }
}

#[test]
fn parallel_units_match_sequential_evaluator() {
    let game = Nim::new(vec![2, 1]);
    let sequential = move_scores(&game, &mut fresh());
    let mut unordered: Vec<((usize, usize), i32)> = game
        .possible_moves()
        .into_iter()
        .map(|m| score_move(&game, m))
        .collect();
    let mut expected = sequential.clone();
    unordered.sort();
    expected.sort();
    assert_eq!(unordered, expected);
}

#[test]
fn nim_single_heap_of_one_is_won() {
    let game = Nim::new(vec![1]);
    let moves = game.possible_moves();
    assert_eq!(moves, vec![(0, 1)]);
    let v = solve(&game, &mut fresh());
    assert!(v > 0);
    let scores = move_scores(&game, &mut fresh());
    assert_eq!(scores.len(), 1);
    assert_eq!(scores[0].0, (0, 1));
    assert!(scores[0].1 > 0);
}

#[test]
fn nim_two_equal_heaps_is_lost() {
    let game = Nim::new(vec![1, 1]);
    let v = solve(&game, &mut fresh());
    assert!(v < 0);
}

#[test]
fn nim_follows_xor_parity_rule() {
    // bitwise xor of the heap sizes is zero exactly in losing positions
    for heaps in [vec![1, 1], vec![2, 2], vec![1, 2, 3]] {
        let game = Nim::new(heaps);
        assert!(solve(&game, &mut fresh()) < 0);
    }
    for heaps in [vec![1], vec![2], vec![1, 2], vec![2, 2, 1], vec![3, 1]] {
        let game = Nim::new(heaps);
        assert!(solve(&game, &mut fresh()) > 0);
    }
}

#[test]
fn solve_exact_values_on_small_games() {
    // a win on the last possible move is worth one point; each move the
    // game ends early adds another
    assert_eq!(solve(&Nim::new(vec![1]), &mut fresh()), 1);
    assert_eq!(solve(&Nim::new(vec![2]), &mut fresh()), 2);
    assert_eq!(solve(&Nim::new(vec![3]), &mut fresh()), 3);
    assert_eq!(solve(&Nim::new(vec![1, 1]), &mut fresh()), -1);
}

#[test]
fn position_without_moves_is_lost() {
    // the player to move cannot move: the bottom of the score range
    assert_eq!(solve(&Nim::new(vec![]), &mut fresh()), -1);
    assert_eq!(solve(&Nim::new(vec![0, 0]), &mut fresh()), -1);
    assert_eq!(brute_force(&Nim::new(vec![0])), -1);
    assert_eq!(move_scores(&Nim::new(vec![]), &mut fresh()), vec![]);
}

#[test]
fn move_scores_exact_values_on_two_objects() {
    let game = Nim::new(vec![2]);
    let scores = move_scores(&game, &mut fresh());
    // taking one object hands the opponent a win on the final move;
    // taking both leaves the opponent without a move at once
    assert_eq!(scores, vec![((0, 1), -1), ((0, 2), 3)]);
}

#[test]
fn shared_table_does_not_change_results() {
    let game = Nim::new(vec![1, 2, 3]);
    let mut shared = fresh();
    let with_shared = solve(&game, &mut shared);
    let reused = solve(&game, &mut shared);
    assert_eq!(with_shared, solve(&game, &mut fresh()));
    assert_eq!(reused, with_shared);
    let scores_shared = move_scores(&game, &mut shared);
    let scores_fresh = move_scores(&game, &mut fresh());
    assert_eq!(scores_shared, scores_fresh);
}

use game_solver::game::Game;
use game_solver::games::player_to_char;
use game_solver::games::Games;
use game_solver::nim::Nim;
use game_solver::player::Player;
use game_solver::table::DefaultTable;
use game_solver::table::TranspositionTable;

#[test]
fn opposite_swaps_players() {
    assert_eq!(Player::P1.opposite(), Player::P2);
    assert_eq!(Player::P2.opposite(), Player::P1);
}

#[test]
fn opposite_is_an_involution() {
    assert_eq!(Player::P1.opposite().opposite(), Player::P1);
    assert_eq!(Player::P2.opposite().opposite(), Player::P2);
}

#[test]
fn games_have_their_display_names() {
    assert_eq!(Games::Reversi.name(), "Reversi");
    assert_eq!(Games::TicTacToe.name(), "Tic Tac Toe");
    assert_eq!(Games::OrderAndChaos.name(), "Order and Chaos");
    assert_eq!(Games::Nim.name(), "Nim");
    assert_eq!(Games::Domineering.name(), "Domineering");
    assert_eq!(Games::Chomp.name(), "Chomp");
}

#[test]
fn players_draw_as_x_and_o() {
    assert_eq!(player_to_char(Some(Player::P1)), 'X');
    assert_eq!(player_to_char(Some(Player::P2)), 'O');
    assert_eq!(player_to_char(None), '-');
}

#[test]
fn nim_lists_every_removal() {
    let game = Nim::new(vec![2, 1]);
    assert_eq!(game.possible_moves(), vec![(0, 1), (0, 2), (1, 1)]);
}

#[test]
fn nim_alternates_players_by_move_parity() {
    let mut game = Nim::new(vec![2]);
    assert_eq!(game.player(), Player::P1);
    assert!(game.make_move(&(0, 1)));
    assert_eq!(game.player(), Player::P2);
    assert_eq!(game.move_count(), 1);
    assert_eq!(game.max_moves(), Some(2));
}

#[test]
fn nim_rejects_illegal_moves() {
    let mut game = Nim::new(vec![2]);
    // naming a heap that does not exist
    assert!(!game.make_move(&(1, 1)));
    // removing more objects than the heap holds
    assert!(!game.make_move(&(0, 3)));
    // removing nothing
    assert!(!game.make_move(&(0, 0)));
    // the state is untouched by the rejected moves
    assert_eq!(game.move_count(), 0);
    assert_eq!(game.possible_moves(), vec![(0, 1), (0, 2)]);
}

#[test]
fn nim_winning_move_detection() {
    let game = Nim::new(vec![1, 1]);
    assert_eq!(game.is_winning_move(&(0, 1)), None);
    let game = Nim::new(vec![2]);
    assert_eq!(game.is_winning_move(&(0, 2)), Some(Player::P1));
    assert_eq!(game.is_winning_move(&(0, 1)), None);
    assert!(!game.is_draw());
}

#[test]
fn nim_duplicate_and_same_position() {
    let mut game = Nim::new(vec![2, 1]);
    let copy = game.duplicate();
    assert!(game.same_position(&copy));
    game.make_move(&(0, 1));
    assert!(!game.same_position(&copy));
}

#[test]
fn table_stores_and_returns_bounds() {
    let mut table: DefaultTable<Nim> = DefaultTable::new();
    let a = Nim::new(vec![1]);
    let b = Nim::new(vec![2]);
    assert_eq!(table.get(&a), None);
    table.insert(a.duplicate(), 5);
    assert_eq!(table.get(&a), Some(5));
    assert!(table.has(&a));
    // the newest bound for a position wins
    table.insert(a.duplicate(), 3);
    assert_eq!(table.get(&a), Some(3));
    assert_eq!(table.get(&b), None);
}

#[test]
fn table_never_lies_about_absence() {
    let mut table: DefaultTable<Nim> = DefaultTable::new();
    let never_inserted = Nim::new(vec![4, 2]);
    assert!(!table.has(&never_inserted));
    table.insert(Nim::new(vec![1]), 1);
    table.insert(Nim::new(vec![2, 2]), -1);
    assert!(!table.has(&never_inserted));
}

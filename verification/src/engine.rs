use crate::game::Game;
use crate::game::SCORE_LIMIT;
use crate::table::DefaultTable;
use crate::table::TranspositionTable;
use vstd::prelude::*;

verus! {

/// The larger of two mathematical integers.
pub open spec fn score_max(a: int, b: int) -> int {
    if a >= b {
        a
    } else {
        b
    }
}

/// Index of the first listed move of `s`, at or after `i`, that wins
/// immediately; the number of moves if none does.
pub open spec fn first_win_from<G: Game>(s: G::State, i: int) -> int
    decreases G::st_moves(s).len() - i,
{
    if i < 0 || i >= G::st_moves(s).len() {
        G::st_moves(s).len() as int
    } else if G::st_winner(s, G::st_moves(s)[i]) is Some {
        i
    } else {
        first_win_from::<G>(s, i + 1)
    }
}

pub proof fn lemma_first_win_from<G: Game>(s: G::State, i: int)
    requires
        0 <= i <= G::st_moves(s).len(),
    ensures
        i <= first_win_from::<G>(s, i) <= G::st_moves(s).len(),
        first_win_from::<G>(s, i) < G::st_moves(s).len() ==> G::st_winner(
            s,
            G::st_moves(s)[first_win_from::<G>(s, i)],
        ) is Some,
        forall|j: int|
            i <= j < first_win_from::<G>(s, i) ==> G::st_winner(s, G::st_moves(s)[j]) is None,
        forall|j: int|
            i <= j < G::st_moves(s).len() && G::st_winner(s, G::st_moves(s)[j]) is Some
                ==> first_win_from::<G>(s, i) <= j,
    decreases G::st_moves(s).len() - i,
{
    if i < G::st_moves(s).len() && G::st_winner(s, G::st_moves(s)[i]) is None {
        lemma_first_win_from::<G>(s, i + 1);
    }
}

/// The exact game-theoretic value of the position `s`, from the
/// perspective of the player to move: the result of a full, unpruned,
/// uncached minimax traversal under the Game contract. A draw is worth
/// zero; a position without moves is lost at the bottom of the score
/// range; a position with an immediately winning move is worth the
/// score reached by the first such move; otherwise the value is the
/// best negated child value.
pub open spec fn value<G: Game>(s: G::State) -> int
    decreases G::st_measure(s), G::st_moves(s).len() + 1int,
        when G::st_inv(s)
        via value_decreases::<G>
{
    if G::st_draw(s) {
        0
    } else if G::st_moves(s).len() == 0 {
        G::st_min_score(s)
    } else if first_win_from::<G>(s, 0) < G::st_moves(s).len() {
        G::st_score(G::st_apply(s, G::st_moves(s)[first_win_from::<G>(s, 0)]))
    } else {
        best_from::<G>(s, 0)
    }
}

/// The best negated child value over the listed moves of `s` from
/// index `i` on, starting from the bottom of the score range.
pub open spec fn best_from<G: Game>(s: G::State, i: int) -> int
    decreases G::st_measure(s), G::st_moves(s).len() - i,
        when G::st_inv(s) && 0 <= i <= G::st_moves(s).len()
        via best_from_decreases::<G>
{
    if i >= G::st_moves(s).len() {
        G::st_min_score(s)
    } else {
        score_max(
            -value::<G>(G::st_apply(s, G::st_moves(s)[i])),
            best_from::<G>(s, i + 1),
        )
    }
}

#[via_fn]
proof fn value_decreases<G: Game>(s: G::State) {
}

#[via_fn]
proof fn best_from_decreases<G: Game>(s: G::State, i: int) {
    if i < G::st_moves(s).len() {
        G::lemma_listed_move(s, i);
    }
}

/// Positions on which the recursive search is well-behaved: a terminal
/// draw lists no moves, and a live position still has moves and stays
/// well-behaved along every non-winning move (a finished game is always
/// announced one ply earlier by `is_winning_move`).
pub open spec fn sane<G: Game>(s: G::State) -> bool
    decreases G::st_measure(s),
        when G::st_inv(s)
        via sane_decreases::<G>
{
    if G::st_draw(s) {
        G::st_moves(s).len() == 0
    } else {
        G::st_moves(s).len() > 0 && forall|i: int|
            0 <= i < G::st_moves(s).len() && G::st_winner(s, G::st_moves(s)[i]) is None
                ==> sane::<G>(#[trigger] G::st_apply(s, G::st_moves(s)[i]))
    }
}

#[via_fn]
proof fn sane_decreases<G: Game>(s: G::State) {
    assert forall|i: int| 0 <= i < G::st_moves(s).len() implies {
        &&& G::st_inv(G::st_apply(s, G::st_moves(s)[i]))
        &&& G::st_measure(G::st_apply(s, G::st_moves(s)[i])) < G::st_measure(s)
    } by {
        G::lemma_listed_move(s, i);
    }
}

/// Positions the exact-value solver accepts: well-behaved ones, plus
/// finished positions without moves (which it scores as lost).
pub open spec fn solvable<G: Game>(s: G::State) -> bool {
    sane::<G>(s) || G::st_moves(s).len() == 0
}

/// The value of every well-formed position lies within its score range.
pub proof fn lemma_value_bounds<G: Game>(s: G::State)
    requires
        G::st_inv(s),
    ensures
        G::st_min_score(s) <= value::<G>(s) <= G::st_max_score(s),
    decreases G::st_measure(s), G::st_moves(s).len() + 2int,
{
    G::lemma_score_range(s);
    let n = G::st_moves(s).len() as int;
    if G::st_draw(s) {
    } else if n == 0 {
    } else if first_win_from::<G>(s, 0) < n {
        let w = first_win_from::<G>(s, 0);
        lemma_first_win_from::<G>(s, 0);
        G::lemma_listed_move(s, w);
        G::lemma_score_range(G::st_apply(s, G::st_moves(s)[w]));
    } else {
        lemma_best_from_bounds::<G>(s, 0);
    }
}

/// Every partial best over child values lies within the score range.
pub proof fn lemma_best_from_bounds<G: Game>(s: G::State, i: int)
    requires
        G::st_inv(s),
        0 <= i <= G::st_moves(s).len(),
    ensures
        G::st_min_score(s) <= best_from::<G>(s, i) <= G::st_max_score(s),
    decreases G::st_measure(s), G::st_moves(s).len() - i + 1int,
{
    G::lemma_score_range(s);
    if i < G::st_moves(s).len() {
        let child = G::st_apply(s, G::st_moves(s)[i]);
        G::lemma_listed_move(s, i);
        G::lemma_score_range(child);
        lemma_value_bounds::<G>(child);
        lemma_best_from_bounds::<G>(s, i + 1);
    }
}

/// The best over child values from `i` on is at least the negated
/// value of any single child at or after `i`.
pub proof fn lemma_best_from_ge<G: Game>(s: G::State, i: int, j: int)
    requires
        G::st_inv(s),
        0 <= i <= j < G::st_moves(s).len(),
    ensures
        best_from::<G>(s, i) >= -value::<G>(G::st_apply(s, G::st_moves(s)[j])),
    decreases j - i,
{
    G::lemma_listed_move(s, i);
    assert(best_from::<G>(s, i) == score_max(
        -value::<G>(G::st_apply(s, G::st_moves(s)[i])),
        best_from::<G>(s, i + 1),
    ));
    if i < j {
        lemma_best_from_ge::<G>(s, i + 1, j);
    }
}

/// The best over child values from `i` on is at most any bound that
/// dominates the bottom of the score range and each negated child
/// value at or after `i`.
pub proof fn lemma_best_from_le<G: Game>(s: G::State, i: int, c: int)
    requires
        G::st_inv(s),
        0 <= i <= G::st_moves(s).len(),
        G::st_min_score(s) <= c,
        forall|j: int|
            i <= j < G::st_moves(s).len() ==> -value::<G>(
                #[trigger] G::st_apply(s, G::st_moves(s)[j]),
            ) <= c,
    ensures
        best_from::<G>(s, i) <= c,
    decreases G::st_moves(s).len() - i,
{
    if i < G::st_moves(s).len() {
        G::lemma_listed_move(s, i);
        lemma_best_from_le::<G>(s, i + 1, c);
    }
}

/// Every bound a table holds for a well-formed position is a true upper
/// bound on that position's value, within the position's score range.
pub open spec fn table_ok<G: Game>(m: Map<G::State, i32>) -> bool {
    forall|s: G::State|
        #[trigger] m.contains_key(s) && G::st_inv(s) ==> value::<G>(s) <= m[s] as int
            <= G::st_max_score(s)
}

/// Runs the two-player minimax variant on a game: recursive negamax
/// with fail-soft alpha-beta pruning over the window `(alpha, beta)`,
/// using the transposition table's entries as upper-bound hints and
/// recording the bound learned here.
///
/// The result `r` classifies the position's exact value: at most
/// `alpha` means the value is at most `r`; inside the window means the
/// value is exactly `r`; at least `beta` means the value is at least
/// `r`.
#[verifier::loop_isolation(false)]
pub(crate) fn negamax<G: Game, TT: TranspositionTable<G>>(
    game: &G,
    transposition_table: &mut TT,
    alpha: i32,
    beta: i32,
) -> (r: i32)
    requires
        game.inv(),
        sane::<G>(game.model()) || (G::st_moves(game.model()).len() == 0 && alpha as int
            >= G::st_min_score(game.model())),
        old(transposition_table).wf(),
        table_ok::<G>(old(transposition_table).model()),
        alpha < beta,
        -(SCORE_LIMIT as int) - 1 <= alpha as int,
        beta as int <= SCORE_LIMIT as int + 1,
    ensures
        final(transposition_table).wf(),
        table_ok::<G>(final(transposition_table).model()),
        old(transposition_table).model().dom().subset_of(final(transposition_table).model().dom()),
        -(SCORE_LIMIT as int) - 1 <= r as int <= SCORE_LIMIT as int + 1,
        r <= alpha ==> value::<G>(game.model()) <= r as int,
        alpha < r < beta ==> r as int == value::<G>(game.model()),
        r >= beta ==> value::<G>(game.model()) >= r as int,
    decreases G::st_measure(game.model()),
{
    let ghost s = game.model();
    proof {
        game.lemma_model_inv();
        G::lemma_score_range(s);
        lemma_value_bounds::<G>(s);
    }

    if game.is_draw() {
        return 0;
    }

    let moves = game.possible_moves();

    // Terminal shortcut: the first immediately winning move decides the
    // position without recursing into the final ply.
    let mut i: usize = 0;
    while i < moves.len()
        invariant
            game.inv(),
            s == game.model(),
            moves@ == G::st_moves(s),
            i <= moves@.len(),
            forall|j: int| 0 <= j < i ==> G::st_winner(s, moves@[j]) is None,
        decreases moves@.len() - i,
    {
        let w = game.is_winning_move(&moves[i]);
        if w.is_some() {
            let mut board = game.duplicate();
            board.make_move(&moves[i]);
            proof {
                G::lemma_listed_move(s, i as int);
                G::lemma_score_range(G::st_apply(s, moves@[i as int]));
                lemma_first_win_from::<G>(s, 0);
                assert(first_win_from::<G>(s, 0) == i as int);
            }
            return board.score() as i32;
        }
        i += 1;
    }
    proof {
        lemma_first_win_from::<G>(s, 0);
        assert(first_win_from::<G>(s, 0) == moves@.len() as int);
    }

    let ghost alpha0 = alpha as int;
    let ghost beta0 = beta as int;
    let mut alpha = alpha;
    let mut beta = beta;

    // Tighten beta with the table's upper bound for this position
    // (the full score range if it holds none).
    let bound = match transposition_table.get(game) {
        Some(v) => v,
        None => game.max_score() as i32,
    };
    proof {
        assert(value::<G>(s) <= bound as int <= G::st_max_score(s));
    }
    if beta > bound {
        beta = bound;
        if alpha >= beta {
            return beta;
        }
    }

    let mut i: usize = 0;
    while i < moves.len()
        invariant
            game.inv(),
            s == game.model(),
            G::st_inv(s),
            !G::st_draw(s),
            moves@ == G::st_moves(s),
            i <= moves@.len(),
            transposition_table.wf(),
            table_ok::<G>(transposition_table.model()),
            old(transposition_table).model().dom().subset_of(transposition_table.model().dom()),
            forall|j: int| 0 <= j < moves@.len() ==> G::st_winner(s, moves@[j]) is None,
            sane::<G>(s) || (moves@.len() == 0 && alpha0 >= G::st_min_score(s)),
            first_win_from::<G>(s, 0) == moves@.len() as int,
            alpha0 <= alpha as int,
            (alpha as int) < beta as int,
            beta as int <= bound as int <= G::st_max_score(s),
            beta as int == beta0 || beta as int == bound as int,
            value::<G>(s) <= bound as int,
            -(SCORE_LIMIT as int) - 1 <= alpha0,
            beta0 <= SCORE_LIMIT as int + 1,
            forall|j: int|
                0 <= j < i ==> -value::<G>(#[trigger] G::st_apply(s, moves@[j])) <= alpha as int,
            score_max(alpha as int, best_from::<G>(s, i as int)) == score_max(
                alpha0,
                best_from::<G>(s, 0),
            ),
        decreases moves@.len() - i,
    {
        let ghost child = G::st_apply(s, moves@[i as int]);
        proof {
            G::lemma_listed_move(s, i as int);
            lemma_value_bounds::<G>(child);
            G::lemma_score_range(child);
            assert(sane::<G>(s));
            assert(sane::<G>(child));
        }
        let mut board = game.duplicate();
        board.make_move(&moves[i]);

        let rec = negamax(&board, transposition_table, -beta, -alpha);
        let score = -rec;

        if score >= beta {
            proof {
                // The child's value is at most `rec`, so ours is at
                // least `score`, which already reaches `beta`.
                lemma_best_from_ge::<G>(s, 0, i as int);
                assert(value::<G>(s) == best_from::<G>(s, 0));
                assert(value::<G>(s) >= beta as int);
            }
            return beta;
        }
        proof {
            if score > alpha as int {
                // Inside the child's window the recursion is exact.
                assert(score == -value::<G>(child));
            } else {
                assert(-value::<G>(child) <= alpha as int);
            }
            assert(best_from::<G>(s, i as int) == score_max(
                -value::<G>(child),
                best_from::<G>(s, i as int + 1),
            ));
        }
        if score > alpha {
            alpha = score;
        }
        i += 1;
    }

    proof {
        assert(best_from::<G>(s, moves@.len() as int) == G::st_min_score(s));
        if moves@.len() == 0 {
            assert(value::<G>(s) == G::st_min_score(s));
        } else {
            G::lemma_listed_move(s, 0);
            lemma_value_bounds::<G>(G::st_apply(s, moves@[0]));
            G::lemma_score_range(G::st_apply(s, moves@[0]));
            assert(G::st_min_score(s) <= alpha as int);
            lemma_best_from_le::<G>(s, 0, alpha as int);
            assert(value::<G>(s) == best_from::<G>(s, 0));
        }
        assert(value::<G>(s) <= alpha as int);
    }
    let board = game.duplicate();
    transposition_table.insert(board, alpha);

    alpha
}

/// Solves a game, returning the evaluated score: the exact value of the
/// position from the perspective of the player whose turn it is. A
/// positive score means a winning strategy, a negative one a losing
/// strategy, zero a draw. The exact value is found by binary search
/// over the score range with null-window probes; since it depends on
/// the position alone, repeated calls agree whatever table they use.
#[verifier::loop_isolation(false)]
pub fn solve<G: Game, TT: TranspositionTable<G>>(
    game: &G,
    transposition_table: &mut TT,
) -> (r: i32)
    requires
        game.inv(),
        solvable::<G>(game.model()),
        old(transposition_table).wf(),
        table_ok::<G>(old(transposition_table).model()),
    ensures
        final(transposition_table).wf(),
        table_ok::<G>(final(transposition_table).model()),
        old(transposition_table).model().dom().subset_of(final(transposition_table).model().dom()),
        r as int == value::<G>(game.model()),
{
    let ghost s = game.model();
    proof {
        game.lemma_model_inv();
        G::lemma_score_range(s);
        lemma_value_bounds::<G>(s);
    }
    let min = game.min_score();
    let max = game.max_score() as i32 + 1;

    let mut alpha = min;
    let mut beta = max;

    while alpha < beta
        invariant
            transposition_table.wf(),
            table_ok::<G>(transposition_table.model()),
            old(transposition_table).model().dom().subset_of(transposition_table.model().dom()),
            G::st_min_score(s) <= alpha as int,
            alpha as int <= value::<G>(s) <= beta as int,
            beta as int <= G::st_max_score(s) + 1,
        decreases beta as int - alpha as int,
    {
        let med = alpha + (beta - alpha) / 2;
        let r = negamax(game, transposition_table, med, med + 1);

        if r <= med {
            beta = r;
        } else {
            alpha = r;
        }
    }

    alpha
}

/// Utility function to get a list of the move scores of a certain game:
/// one `(move, score)` pair per legal move, in `possible_moves` order,
/// each score taken from the perspective of the player who makes that
/// move (higher is better for that player).
#[verifier::loop_isolation(false)]
pub fn move_scores<G: Game, TT: TranspositionTable<G>>(
    game: &G,
    transposition_table: &mut TT,
) -> (r: Vec<(G::Move, i32)>)
    requires
        game.inv(),
        solvable::<G>(game.model()),
        old(transposition_table).wf(),
        table_ok::<G>(old(transposition_table).model()),
    ensures
        final(transposition_table).wf(),
        table_ok::<G>(final(transposition_table).model()),
        old(transposition_table).model().dom().subset_of(final(transposition_table).model().dom()),
        r@.len() == G::st_moves(game.model()).len(),
        forall|j: int|
            0 <= j < r@.len() ==> {
                &&& (#[trigger] r@[j]).0 == G::st_moves(game.model())[j]
                &&& r@[j].1 as int == -value::<G>(
                    G::st_apply(game.model(), G::st_moves(game.model())[j]),
                )
            },
{
    let ghost s = game.model();
    proof {
        game.lemma_model_inv();
    }
    let mut moves = game.possible_moves();
    let ghost all = moves@;
    let mut out: Vec<(G::Move, i32)> = Vec::new();

    while moves.len() > 0
        invariant
            transposition_table.wf(),
            table_ok::<G>(transposition_table.model()),
            old(transposition_table).model().dom().subset_of(transposition_table.model().dom()),
            out@.len() + moves@.len() == all.len(),
            moves@ == all.subrange(out@.len() as int, all.len() as int),
            forall|j: int|
                0 <= j < out@.len() ==> {
                    &&& (#[trigger] out@[j]).0 == all[j]
                    &&& out@[j].1 as int == -value::<G>(G::st_apply(s, all[j]))
                },
        decreases moves@.len(),
    {
        let ghost idx = out@.len() as int;
        let m = moves.remove(0);
        proof {
            assert(m == all[idx]);
            assert(moves@ =~= all.subrange(idx + 1, all.len() as int));
            G::lemma_listed_move(s, idx);
            lemma_value_bounds::<G>(G::st_apply(s, all[idx]));
            G::lemma_score_range(G::st_apply(s, all[idx]));
            assert(solvable::<G>(G::st_apply(s, all[idx])));
        }
        let mut board = game.duplicate();
        board.make_move(&m);
        // We flip the sign of the score because we want the score from
        // the perspective of the player playing the move, not the
        // player whose turn it is.
        let score = -solve(&board, transposition_table);
        out.push((m, score));
    }
    out
}

/// Scores a single root move with a private, fresh table: the unit of
/// work a parallel evaluator dispatches per move. It yields exactly the
/// pair the sequential evaluator lists for this move, so fanning the
/// units out over workers and collecting the results unordered loses
/// nothing but the order.
pub fn score_move<G: Game>(game: &G, m: G::Move) -> (r: (G::Move, i32))
    requires
        game.inv(),
        solvable::<G>(game.model()),
        G::st_moves(game.model()).contains(m),
    ensures
        r.0 == m,
        r.1 as int == -value::<G>(G::st_apply(game.model(), m)),
{
    let ghost s = game.model();
    proof {
        game.lemma_model_inv();
        let idx = choose|idx: int| 0 <= idx < G::st_moves(s).len() && G::st_moves(s)[idx] == m;
        G::lemma_listed_move(s, idx);
        lemma_value_bounds::<G>(G::st_apply(s, m));
        G::lemma_score_range(G::st_apply(s, m));
        assert(solvable::<G>(G::st_apply(s, m)));
    }
    let mut board = game.duplicate();
    board.make_move(&m);
    let mut table: DefaultTable<G> = DefaultTable::new();
    let score = -solve(&board, &mut table);
    (m, score)
}

/// The brute-force referee: a full, unpruned, uncached minimax
/// traversal. It computes the same specification `value` the pruned,
/// memoized solver is proved against.
#[verifier::loop_isolation(false)]
pub fn brute_force<G: Game>(game: &G) -> (r: i32)
    requires
        game.inv(),
        solvable::<G>(game.model()),
    ensures
        r as int == value::<G>(game.model()),
    decreases G::st_measure(game.model()),
{
    let ghost s = game.model();
    proof {
        game.lemma_model_inv();
        G::lemma_score_range(s);
        lemma_value_bounds::<G>(s);
    }

    if game.is_draw() {
        return 0;
    }

    let moves = game.possible_moves();

    let mut i: usize = 0;
    while i < moves.len()
        invariant
            i <= moves@.len(),
            forall|j: int| 0 <= j < i ==> G::st_winner(s, moves@[j]) is None,
        decreases moves@.len() - i,
    {
        let w = game.is_winning_move(&moves[i]);
        if w.is_some() {
            let mut board = game.duplicate();
            board.make_move(&moves[i]);
            proof {
                G::lemma_listed_move(s, i as int);
                G::lemma_score_range(G::st_apply(s, moves@[i as int]));
                lemma_first_win_from::<G>(s, 0);
                assert(first_win_from::<G>(s, 0) == i as int);
            }
            return board.score() as i32;
        }
        i += 1;
    }
    proof {
        lemma_first_win_from::<G>(s, 0);
        assert(first_win_from::<G>(s, 0) == moves@.len() as int);
    }

    if moves.len() == 0 {
        return game.min_score();
    }

    let mut best = game.min_score();
    proof {
        lemma_best_from_bounds::<G>(s, 0);
    }
    let mut i: usize = 0;
    while i < moves.len()
        invariant
            i <= moves@.len(),
            G::st_min_score(s) <= best as int <= G::st_max_score(s),
            score_max(best as int, best_from::<G>(s, i as int)) == best_from::<G>(s, 0),
        decreases moves@.len() - i,
    {
        let ghost child = G::st_apply(s, moves@[i as int]);
        proof {
            G::lemma_listed_move(s, i as int);
            lemma_value_bounds::<G>(child);
            G::lemma_score_range(child);
            assert(sane::<G>(child));
            assert(best_from::<G>(s, i as int) == score_max(
                -value::<G>(child),
                best_from::<G>(s, i as int + 1),
            ));
        }
        let mut board = game.duplicate();
        board.make_move(&moves[i]);
        let sc = -brute_force(&board);
        if sc > best {
            best = sc;
        }
        i += 1;
    }
    proof {
        assert(best_from::<G>(s, moves@.len() as int) == G::st_min_score(s));
        assert(value::<G>(s) == best_from::<G>(s, 0));
    }
    best
}

/// Determinism: `solve` pins its result to the position's value, a
/// function of the position alone, so repeated calls on one position
/// agree whatever tables — fresh or shared — they were given.
pub proof fn lemma_solve_deterministic<G: Game>(s: G::State, r1: i32, r2: i32)
    requires
        r1 as int == value::<G>(s),
        r2 as int == value::<G>(s),
    ensures
        r1 == r2,
{
}

/// Correctness against brute force: `solve` and `brute_force` are
/// pinned to the same specification, so the pruned, memoized search
/// returns exactly what the unpruned, uncached traversal returns.
pub proof fn lemma_solve_matches_brute_force<G: Game>(s: G::State, pruned: i32, full: i32)
    requires
        pruned as int == value::<G>(s),
        full as int == value::<G>(s),
    ensures
        pruned == full,
{
}

/// Sequential/parallel equivalence: the pair the parallel per-move unit
/// (`score_move`) returns for the `j`th root move is exactly the pair
/// the sequential evaluator (`move_scores`) lists at position `j`, so
/// fanning the units out over workers and collecting their outputs
/// unordered loses nothing but the order.
pub proof fn lemma_parallel_matches_sequential<G: Game>(
    s: G::State,
    sequential: Seq<(G::Move, i32)>,
    unit: (G::Move, i32),
    j: int,
)
    requires
        0 <= j < sequential.len(),
        sequential.len() == G::st_moves(s).len(),
        sequential[j].0 == G::st_moves(s)[j],
        sequential[j].1 as int == -value::<G>(G::st_apply(s, G::st_moves(s)[j])),
        unit.0 == G::st_moves(s)[j],
        unit.1 as int == -value::<G>(G::st_apply(s, G::st_moves(s)[j])),
    ensures
        unit == sequential[j],
{
}

} // verus!

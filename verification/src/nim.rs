//! Nim: a game about removing objects from heaps, under the normal play
//! convention (whoever takes the last object wins). Despite its ability
//! to be rigidly analyzed, it makes a great example implementation of
//! the `Game` contract.

use crate::engine::sane;
use crate::engine::solvable;
use crate::game::Game;
use crate::game::SCORE_LIMIT;
use crate::player::Player;
use vstd::prelude::*;

verus! {

/// The abstract Nim position: the heaps, the number of moves already
/// made, and the score cap fixed when the game was created (the sum of
/// the starting heaps, an upper bound on the game's length).
#[verifier::ext_equal]
pub struct NimState {
    pub heaps: Seq<usize>,
    pub moves_made: usize,
    pub cap: usize,
}

/// The number of objects left on the board.
pub open spec fn heap_sum(hs: Seq<usize>) -> nat
    decreases hs.len(),
{
    if hs.len() == 0 {
        0
    } else {
        (heap_sum(hs.drop_last()) + hs.last()) as nat
    }
}

/// All moves available from the first `n` heaps, heap by heap: from
/// heap `i` with `h` objects, removing any amount `1 ..= h`.
pub open spec fn moves_upto(hs: Seq<usize>, n: int) -> Seq<(usize, usize)>
    decreases n,
{
    if n <= 0 {
        Seq::empty()
    } else {
        moves_upto(hs, n - 1) + Seq::new(
            hs[n - 1] as nat,
            |k: int| ((n - 1) as usize, (k + 1) as usize),
        )
    }
}

/// All moves available in a Nim position.
pub open spec fn nim_moves(hs: Seq<usize>) -> Seq<(usize, usize)> {
    moves_upto(hs, hs.len() as int)
}

proof fn lemma_heap_sum_update(hs: Seq<usize>, i: int, v: usize)
    requires
        0 <= i < hs.len(),
    ensures
        heap_sum(hs.update(i, v)) == heap_sum(hs) - hs[i] + v,
    decreases hs.len(),
{
    if i == hs.len() - 1 {
        assert(hs.update(i, v).drop_last() =~= hs.drop_last());
    } else {
        assert(hs.update(i, v).drop_last() =~= hs.drop_last().update(i, v));
        lemma_heap_sum_update(hs.drop_last(), i, v);
    }
}

proof fn lemma_heap_sum_prefix(hs: Seq<usize>, n: int)
    requires
        0 <= n <= hs.len(),
    ensures
        heap_sum(hs.subrange(0, n)) <= heap_sum(hs),
    decreases hs.len(),
{
    if n == hs.len() {
        assert(hs.subrange(0, n) =~= hs);
    } else {
        assert(hs.drop_last().subrange(0, n) =~= hs.subrange(0, n));
        lemma_heap_sum_prefix(hs.drop_last(), n);
    }
}

/// Every listed move names an existing heap and removes at least one
/// and at most all of its objects.
proof fn lemma_moves_valid(hs: Seq<usize>, n: int)
    requires
        0 <= n <= hs.len(),
        hs.len() <= usize::MAX as int,
    ensures
        forall|k: int|
            0 <= k < moves_upto(hs, n).len() ==> {
                let m = #[trigger] moves_upto(hs, n)[k];
                m.0 < n && 1 <= m.1 <= hs[m.0 as int]
            },
    decreases n,
{
    if n > 0 {
        lemma_moves_valid(hs, n - 1);
        let pre = moves_upto(hs, n - 1);
        let tail = Seq::new(hs[n - 1] as nat, |k: int| ((n - 1) as usize, (k + 1) as usize));
        assert forall|k: int|
            0 <= k < moves_upto(hs, n).len() implies {
            let m = #[trigger] moves_upto(hs, n)[k];
            m.0 < n && 1 <= m.1 <= hs[m.0 as int]
        } by {
            if k < pre.len() {
                assert(moves_upto(hs, n)[k] == pre[k]);
            } else {
                assert(moves_upto(hs, n)[k] == tail[k - pre.len()]);
            }
        }
    }
}

pub struct Nim {
    heaps: Vec<usize>,
    move_count: usize,
    max_score: usize,
}

impl Nim {
    /// Create a new game of Nim with the given heaps, where `heaps` is
    /// a list of the number of objects in each heap. The sum of the
    /// heaps must fit the engine's score bound.
    pub fn new(heaps: Vec<usize>) -> (r: Self)
        requires
            heap_sum(heaps@) < SCORE_LIMIT as int,
        ensures
            r.inv(),
            r.model() == (NimState { heaps: heaps@, moves_made: 0, cap: heap_sum(heaps@) as usize }),
    {
        let ghost hs = heaps@;
        // sum of all the heaps is the upper bound for the amount of moves
        let mut total: usize = 0;
        let mut i: usize = 0;
        while i < heaps.len()
            invariant
                i <= hs.len(),
                heaps@ == hs,
                total == heap_sum(hs.subrange(0, i as int)),
                heap_sum(hs) < SCORE_LIMIT as int,
            decreases hs.len() - i,
        {
            proof {
                lemma_heap_sum_prefix(hs, i + 1);
                assert(hs.subrange(0, i + 1).drop_last() =~= hs.subrange(0, i as int));
            }
            total = total + heaps[i];
            i += 1;
        }
        proof {
            assert(hs.subrange(0, hs.len() as int) =~= hs);
        }
        Nim { heaps, move_count: 0, max_score: total }
    }

    /// The number of moves made so far.
    pub fn move_count(&self) -> (r: usize)
        ensures
            r == self.model().moves_made,
    {
        self.move_count
    }

    /// An upper bound on how many moves the whole game can last.
    pub fn max_moves(&self) -> (r: Option<usize>)
        ensures
            r == Some(self.model().cap),
    {
        Some(self.max_score)
    }
}

impl Game for Nim {
    /// A move is a tuple of the heap index and the number of objects to
    /// remove from it.
    type Move = (usize, usize);

    type State = NimState;

    closed spec fn model(&self) -> NimState {
        NimState { heaps: self.heaps@, moves_made: self.move_count, cap: self.max_score }
    }

    closed spec fn inv(&self) -> bool {
        Self::st_inv(self.model())
    }

    open spec fn st_inv(s: NimState) -> bool {
        &&& s.moves_made + heap_sum(s.heaps) <= s.cap
        &&& s.cap < SCORE_LIMIT as int
        &&& s.heaps.len() <= usize::MAX as int
    }

    open spec fn st_player(s: NimState) -> Player {
        if s.moves_made % 2 == 0 {
            Player::P1
        } else {
            Player::P2
        }
    }

    open spec fn st_moves(s: NimState) -> Seq<(usize, usize)> {
        nim_moves(s.heaps)
    }

    open spec fn st_legal(s: NimState, m: (usize, usize)) -> bool {
        m.0 < s.heaps.len() && 1 <= m.1 <= s.heaps[m.0 as int]
    }

    open spec fn st_apply(s: NimState, m: (usize, usize)) -> NimState {
        NimState {
            heaps: s.heaps.update(m.0 as int, (s.heaps[m.0 as int] - m.1) as usize),
            moves_made: (s.moves_made + 1) as usize,
            cap: s.cap,
        }
    }

    open spec fn st_winner(s: NimState, m: (usize, usize)) -> Option<Player> {
        let after = if Self::st_legal(s, m) {
            Self::st_apply(s, m)
        } else {
            s
        };
        if nim_moves(after.heaps).len() == 0 {
            Some(Self::st_player(s))
        } else {
            None
        }
    }

    open spec fn st_draw(s: NimState) -> bool {
        false
    }

    open spec fn st_score(s: NimState) -> int {
        s.cap - s.moves_made + 1
    }

    open spec fn st_max_score(s: NimState) -> int {
        s.cap + 1
    }

    open spec fn st_min_score(s: NimState) -> int {
        -(s.cap + 1)
    }

    open spec fn st_measure(s: NimState) -> nat {
        heap_sum(s.heaps)
    }

    proof fn lemma_model_inv(&self) {
    }

    proof fn lemma_score_range(s: NimState) {
    }

    proof fn lemma_listed_move(s: NimState, i: int) {
        lemma_moves_valid(s.heaps, s.heaps.len() as int);
        let m = Self::st_moves(s)[i];
        lemma_heap_sum_update(s.heaps, m.0 as int, (s.heaps[m.0 as int] - m.1) as usize);
    }

    fn player(&self) -> (p: Player) {
        if self.move_count % 2 == 0 {
            Player::P1
        } else {
            Player::P2
        }
    }

    // a faster win is worth more: one point for the last possible
    // move, one more for each move the game ends early
    fn score(&self) -> (r: u32) {
        (self.max_score - self.move_count + 1) as u32
    }

    fn max_score(&self) -> (r: u32) {
        (self.max_score + 1) as u32
    }

    fn min_score(&self) -> (r: i32) {
        -(self.max_score as i32 + 1)
    }

    fn make_move(&mut self, m: &(usize, usize)) -> (b: bool) {
        let (heap, amount) = *m;
        // check for indexing out of bounds
        if heap >= self.heaps.len() {
            return false;
        }
        // a move must remove something, but not more than the heap holds
        if amount < 1 || amount > self.heaps[heap] {
            return false;
        }
        let left = self.heaps[heap] - amount;
        self.heaps[heap] = left;
        self.move_count = self.move_count + 1;
        proof {
            lemma_heap_sum_update(old(self).heaps@, heap as int, left);
            assert(self.model() =~= Self::st_apply(old(self).model(), *m));
        }
        true
    }

    fn possible_moves(&self) -> (v: Vec<(usize, usize)>) {
        let ghost hs = self.heaps@;
        let mut v: Vec<(usize, usize)> = Vec::new();

        // loop through every heap and add every possible move
        let mut i: usize = 0;
        while i < self.heaps.len()
            invariant
                i <= hs.len(),
                self.heaps@ == hs,
                Self::st_inv(self.model()),
                v@ == moves_upto(hs, i as int),
            decreases hs.len() - i,
        {
            let h = self.heaps[i];
            proof {
                lemma_heap_sum_prefix(hs, i + 1);
                assert(hs.subrange(0, i + 1).drop_last() =~= hs.subrange(0, i as int));
                assert(heap_sum(hs.subrange(0, i + 1)) >= hs[i as int]);
                assert(heap_sum(hs) < SCORE_LIMIT as int);
            }
            let mut j: usize = 1;
            while j <= h
                invariant
                    1 <= j <= h + 1,
                    h as int <= SCORE_LIMIT as int,
                    i < hs.len(),
                    self.heaps@ == hs,
                    h == hs[i as int],
                    v@ == moves_upto(hs, i as int) + Seq::new(
                        (j - 1) as nat,
                        |k: int| (i as usize, (k + 1) as usize),
                    ),
                decreases h + 1 - j,
            {
                v.push((i, j));
                proof {
                    assert(v@ =~= moves_upto(hs, i as int) + Seq::new(
                        j as nat,
                        |k: int| (i as usize, (k + 1) as usize),
                    ));
                }
                j += 1;
            }
            proof {
                assert(v@ =~= moves_upto(hs, i as int + 1));
            }
            i += 1;
        }
        v
    }

    // a move is winning if the next player has no possible moves to
    // make (normal play for Nim)
    fn is_winning_move(&self, m: &(usize, usize)) -> (w: Option<Player>) {
        let mut board = self.duplicate();
        board.make_move(m);
        // next player can't play - this player won!
        if board.possible_moves().len() == 0 {
            Some(self.player())
        } else {
            None
        }
    }

    // Nim can never be a draw - if there are no possible moves, the
    // game is already won
    fn is_draw(&self) -> (d: bool) {
        false
    }

    fn duplicate(&self) -> (c: Self) {
        let mut heaps: Vec<usize> = Vec::new();
        let mut i: usize = 0;
        while i < self.heaps.len()
            invariant
                i <= self.heaps@.len(),
                heaps@ == self.heaps@.subrange(0, i as int),
            decreases self.heaps@.len() - i,
        {
            heaps.push(self.heaps[i]);
            proof {
                assert(heaps@ =~= self.heaps@.subrange(0, i + 1));
            }
            i += 1;
        }
        proof {
            assert(heaps@ =~= self.heaps@);
        }
        Nim { heaps, move_count: self.move_count, max_score: self.max_score }
    }

    fn same_position(&self, other: &Self) -> (b: bool) {
        if self.move_count != other.move_count || self.max_score != other.max_score {
            return false;
        }
        if self.heaps.len() != other.heaps.len() {
            return false;
        }
        let mut i: usize = 0;
        while i < self.heaps.len()
            invariant
                i <= self.heaps@.len(),
                self.heaps@.len() == other.heaps@.len(),
                forall|k: int| 0 <= k < i ==> self.heaps@[k] == other.heaps@[k],
            decreases self.heaps@.len() - i,
        {
            if self.heaps[i] != other.heaps[i] {
                return false;
            }
            i += 1;
        }
        proof {
            assert(self.heaps@ =~= other.heaps@);
            assert(self.model() =~= other.model());
        }
        true
    }
}

/// Every well-formed Nim position is solvable: a position with moves
/// is well-behaved for the search (Nim has no draws, and a winning move
/// is exactly one that leaves no moves behind), and a position without
/// moves is accepted as finished.
pub proof fn lemma_nim_solvable(s: NimState)
    requires
        Nim::st_inv(s),
    ensures
        solvable::<Nim>(s),
    decreases heap_sum(s.heaps),
{
    if nim_moves(s.heaps).len() > 0 {
        assert forall|i: int| 0 <= i < Nim::st_moves(s).len() implies Nim::st_inv(
            #[trigger] Nim::st_apply(s, Nim::st_moves(s)[i]),
        ) by {
            Nim::lemma_listed_move(s, i);
        }
        assert forall|i: int|
            0 <= i < Nim::st_moves(s).len() && Nim::st_winner(s, Nim::st_moves(s)[i]) is None
                implies sane::<Nim>(#[trigger] Nim::st_apply(s, Nim::st_moves(s)[i])) by {
            Nim::lemma_listed_move(s, i);
            let child = Nim::st_apply(s, Nim::st_moves(s)[i]);
            lemma_nim_solvable(child);
            assert(nim_moves(child.heaps).len() > 0);
        }
        assert(sane::<Nim>(s));
    }
}

/// Making a legal move hands the turn to the opposite player.
pub proof fn lemma_nim_alternates(s: NimState, m: (usize, usize))
    requires
        Nim::st_inv(s),
        Nim::st_legal(s, m),
    ensures
        Nim::st_player(Nim::st_apply(s, m)) == Nim::st_player(s).spec_opposite(),
{
}

} // verus!

use crate::game::Game;
use vstd::prelude::*;

verus! {

/// A memoization strategy for a perfect-information sequential game.
///
/// A table is modeled as a mathematical map from abstract positions to
/// the integer bound learned for them. Absence means "no information",
/// never "zero"; entries are never removed.
pub trait TranspositionTable<G: Game>: Sized {
    /// The abstract contents: which positions map to which stored bound.
    spec fn model(&self) -> Map<G::State, i32>;

    /// Well-formedness of the backend's own representation.
    spec fn wf(&self) -> bool;

    /// The bound stored for this position, if any.
    fn get(&self, board: &G) -> (r: Option<i32>)
        requires
            self.wf(),
            board.inv(),
        ensures
            r == (if self.model().contains_key(board.model()) {
                Some(self.model()[board.model()])
            } else {
                None::<i32>
            }),
    ;

    /// Store a bound for this position, replacing any earlier one.
    fn insert(&mut self, board: G, score: i32)
        requires
            old(self).wf(),
            board.inv(),
        ensures
            final(self).wf(),
            final(self).model() == old(self).model().insert(board.model(), score),
    ;

    /// Whether any bound is stored for this position.
    fn has(&self, board: &G) -> (b: bool)
        requires
            self.wf(),
            board.inv(),
        ensures
            b == self.model().contains_key(board.model()),
    ;
}

/// The map a list of `(state, bound)` entries stands for: later entries
/// replace earlier ones for the same position.
pub open spec fn entries_model<G: Game>(es: Seq<(G, i32)>) -> Map<G::State, i32>
    decreases es.len(),
{
    if es.len() == 0 {
        Map::empty()
    } else {
        entries_model::<G>(es.drop_last()).insert(es.last().0.model(), es.last().1)
    }
}

proof fn lemma_entries_absent<G: Game>(es: Seq<(G, i32)>, key: G::State)
    requires
        forall|j: int| 0 <= j < es.len() ==> (#[trigger] es[j]).0.model() != key,
    ensures
        !entries_model::<G>(es).contains_key(key),
    decreases es.len(),
{
    if es.len() > 0 {
        lemma_entries_absent::<G>(es.drop_last(), key);
    }
}

proof fn lemma_entries_found<G: Game>(es: Seq<(G, i32)>, j: int)
    requires
        0 <= j < es.len(),
        forall|k: int| j < k < es.len() ==> (#[trigger] es[k]).0.model() != es[j].0.model(),
    ensures
        entries_model::<G>(es).contains_key(es[j].0.model()),
        entries_model::<G>(es)[es[j].0.model()] == es[j].1,
    decreases es.len(),
{
    if j < es.len() - 1 {
        lemma_entries_found::<G>(es.drop_last(), j);
    }
}

proof fn lemma_entries_contains<G: Game>(es: Seq<(G, i32)>, j: int)
    requires
        0 <= j < es.len(),
    ensures
        entries_model::<G>(es).contains_key(es[j].0.model()),
    decreases es.len(),
{
    if j < es.len() - 1 {
        lemma_entries_contains::<G>(es.drop_last(), j);
    }
}

/// A table never lies about absence: starting from the empty table,
/// inserting entries only ever adds the inserted positions, so `has`
/// stays false for every position that was never inserted.
pub proof fn lemma_absent_unless_inserted<G: Game>(
    m: Map<G::State, i32>,
    inserted: G::State,
    bound: i32,
    other: G::State,
)
    requires
        other != inserted,
    ensures
        m.insert(inserted, bound).contains_key(other) == m.contains_key(other),
        !Map::<G::State, i32>::empty().contains_key(other),
{
}

/// The default memoization backend: an unboundedly growing list of
/// `(position, bound)` pairs keyed by position equality, the newest
/// entry for a position winning.
pub struct DefaultTable<G: Game> {
    entries: Vec<(G, i32)>,
}

impl<G: Game> DefaultTable<G> {
    /// An empty table: no position has any information.
    pub fn new() -> (t: Self)
        ensures
            t.wf(),
            t.model() == Map::<G::State, i32>::empty(),
    {
        DefaultTable { entries: Vec::new() }
    }
}

impl<G: Game> TranspositionTable<G> for DefaultTable<G> {
    closed spec fn model(&self) -> Map<G::State, i32> {
        entries_model::<G>(self.entries@)
    }

    closed spec fn wf(&self) -> bool {
        forall|i: int| 0 <= i < self.entries@.len() ==> (#[trigger] self.entries@[i]).0.inv()
    }

    fn get(&self, board: &G) -> (r: Option<i32>) {
        let mut i: usize = self.entries.len();
        while i > 0
            invariant
                self.wf(),
                board.inv(),
                i <= self.entries@.len(),
                forall|k: int|
                    i <= k < self.entries@.len() ==> (#[trigger] self.entries@[k]).0.model()
                        != board.model(),
            decreases i,
        {
            i = i - 1;
            if self.entries[i].0.same_position(board) {
                proof {
                    lemma_entries_found::<G>(self.entries@, i as int);
                }
                return Some(self.entries[i].1);
            }
        }
        proof {
            lemma_entries_absent::<G>(self.entries@, board.model());
        }
        None
    }

    fn insert(&mut self, board: G, score: i32) {
        let ghost key = board.model();
        let ghost before = self.entries@;
        self.entries.push((board, score));
        proof {
            assert(self.entries@.drop_last() =~= before);
        }
    }

    fn has(&self, board: &G) -> (b: bool) {
        let mut i: usize = 0;
        while i < self.entries.len()
            invariant
                self.wf(),
                board.inv(),
                i <= self.entries@.len(),
                forall|k: int|
                    0 <= k < i ==> (#[trigger] self.entries@[k]).0.model() != board.model(),
            decreases self.entries@.len() - i,
        {
            if self.entries[i].0.same_position(board) {
                proof {
                    lemma_entries_contains::<G>(self.entries@, i as int);
                }
                return true;
            }
            i = i + 1;
        }
        proof {
            lemma_entries_absent::<G>(self.entries@, board.model());
        }
        false
    }
}

} // verus!

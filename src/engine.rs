use vstd::prelude::*;

use rand::rngs::ThreadRng;

use crate::chance::{random_below, thread_rng};

verus! {

/// A game position that can list the moves open to the side to act and take one.
pub trait GameState: Sized {
    type TakeActionError;

    type Action;

    /// The actions that may be taken now, in the order `get_all_actions` lists them.
    spec fn legal_actions(&self) -> Seq<Self::Action>;

    /// Whether the position may take an action without any value outgrowing the machine.
    spec fn has_capacity(&self) -> bool;

    fn get_all_actions(&self) -> (r: Vec<Self::Action>)
        ensures
            r@ == self.legal_actions(),
    ;

    fn take_action_mut(&mut self, action: Self::Action) -> Result<(), Self::TakeActionError>
        requires
            old(self).has_capacity(),
    ;
}

/// A decision source: given a position, picks one of its legal actions, or `None` when
/// it has none to offer.
pub trait Engine<G: GameState> {
    fn get_action(&mut self, game: G) -> (r: Option<G::Action>)
        ensures
            r matches Some(a) ==> game.legal_actions().contains(a),
    ;
}

/// The `k`-th legal action of `game`, or `None` when there are not that many.
pub open spec fn action_at<G: GameState>(game: &G, k: int) -> Option<G::Action> {
    if 0 <= k < game.legal_actions().len() {
        Some(game.legal_actions()[k])
    } else {
        None
    }
}

/// A position that can describe itself as text for a terminal.
pub trait ToConsole: GameState {
    fn to_console() -> String;
}

/// Picks uniformly at random among the legal actions.
pub struct RandomEngine {
    rng: ThreadRng,
}

impl RandomEngine {
    /// An engine drawing from the generator of the current thread.
    pub fn new() -> RandomEngine {
        RandomEngine { rng: thread_rng() }
    }

    /// The legal action of `game` picked by the draw `k`: its `k`-th one, so that a
    /// uniform `k` below their number gives a uniform choice.
    pub fn pick_at<G: GameState>(game: &G, k: usize) -> (r: Option<G::Action>)
        ensures
            r == action_at(game, k as int),
    {
        let mut actions = game.get_all_actions();
        if k >= actions.len() {
            return None;
        }
        Some(actions.remove(k))
    }

    /// Draws one of the legal actions of `game` uniformly; `None` exactly when there is
    /// none.
    pub fn pick<G: GameState>(&mut self, game: &G) -> (r: Option<G::Action>)
        ensures
            r is None <==> game.legal_actions().len() == 0,
            r matches Some(a) ==> game.legal_actions().contains(a),
            exists|k: int| r == action_at(game, k),
    {
        let n = game.get_all_actions().len();
        if n == 0 {
            assert(action_at(game, 0) is None);
            return None;
        }
        let k = random_below(&mut self.rng, n);
        let r = RandomEngine::pick_at(game, k);
        assert(game.legal_actions()[k as int] == r->0);
        r
    }
}

impl<G: GameState> Engine<G> for RandomEngine {
    /// Draws one of the legal actions of `game` uniformly; `None` exactly when there is
    /// none.
    fn get_action(&mut self, game: G) -> (r: Option<G::Action>)
        ensures
            r is None <==> game.legal_actions().len() == 0,
            exists|k: int| r == action_at(&game, k),
    {
        self.pick(&game)
    }
}

} // verus!

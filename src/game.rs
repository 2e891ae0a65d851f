use vstd::prelude::*;

use crate::deal::{HIDDEN, NUM_PLAYERS};

verus! {

/// A move of the game: play a card, announce trump, and so on.
#[derive(Clone, Copy, Debug, PartialEq, Eq, Structural)]
pub struct MarjaPussiMove {
    pub move_id: u8,
}

/// The move returned when a state offers no legal move at all.
pub open spec fn sentinel_move() -> MarjaPussiMove {
    MarjaPussiMove { move_id: 0 }
}

/// The rules of the game as the solver sees them. A state may hold hidden
/// facts; `determinize` resolves them, and everything else only reads or
/// advances the state.
pub trait MarjaPussiGameState: Sized {
    /// The legal moves of this state, in order.
    spec fn legal_moves_spec(&self) -> Seq<MarjaPussiMove>;

    /// The index of the player to act.
    spec fn current_player_spec(&self) -> usize;

    /// Whether the game is over.
    spec fn is_terminal_spec(&self) -> bool;

    /// Where each card of the deck lies, one byte per card; `HIDDEN` for a
    /// card whose holder is not known.
    spec fn card_locations_spec(&self) -> Seq<u8>;

    /// The score of the state.
    spec fn terminal_score_spec(&self) -> i64;

    /// The state after `m` is played.
    spec fn after_move(&self, m: MarjaPussiMove) -> Self;

    /// The known facts admit at least one consistent deal of the hidden cards.
    spec fn admits_deal(&self) -> bool;

    fn is_terminal(&self) -> (r: bool)
        ensures
            r == self.is_terminal_spec(),
    ;

    /// The score of the state; meaningful once it is terminal.
    fn evaluate_terminal_score(&self) -> (r: i64)
        ensures
            r == self.terminal_score_spec(),
    ;

    fn current_player(&self) -> (r: usize)
        ensures
            r == self.current_player_spec(),
    ;

    fn legal_moves(&self) -> (r: Vec<MarjaPussiMove>)
        ensures
            r@ == self.legal_moves_spec(),
    ;

    fn card_locations(&self) -> (r: Vec<u8>)
        ensures
            r@ == self.card_locations_spec(),
    ;

    /// Advances the state by one move, in place.
    fn apply_move(&mut self, mov: &MarjaPussiMove)
        ensures
            *final(self) == old(self).after_move(*mov),
    ;

    /// An independent deep copy.
    fn clone_box(&self) -> (r: Self)
        ensures
            r.current_player_spec() == self.current_player_spec(),
            r.is_terminal_spec() == self.is_terminal_spec(),
            r.legal_moves_spec() == self.legal_moves_spec(),
            r.card_locations_spec() == self.card_locations_spec(),
            r.terminal_score_spec() == self.terminal_score_spec(),
    ;

    /// One perfect-information completion of this state, drawn with `rng`:
    /// every fact already known stays as it is and every hidden card gets a
    /// holder.
    fn determinize(&self, rng: &mut rand::rngs::StdRng) -> (r: Self)
        requires
            self.admits_deal(),
        ensures
            r.current_player_spec() == self.current_player_spec(),
            r.is_terminal_spec() == self.is_terminal_spec(),
            r.legal_moves_spec() == self.legal_moves_spec(),
            r.card_locations_spec().len() == self.card_locations_spec().len(),
            forall|i: int|
                0 <= i < self.card_locations_spec().len() && self.card_locations_spec()[i] != HIDDEN
                    ==> #[trigger] r.card_locations_spec()[i] == self.card_locations_spec()[i],
            forall|i: int|
                0 <= i < r.card_locations_spec().len() ==> #[trigger] r.card_locations_spec()[i]
                    != HIDDEN,
    ;
}

/// Two states agree on everything public: acting player, terminality and
/// legal moves.
pub open spec fn same_facts<S: MarjaPussiGameState>(a: S, b: S) -> bool {
    &&& a.current_player_spec() == b.current_player_spec()
    &&& a.is_terminal_spec() == b.is_terminal_spec()
    &&& a.legal_moves_spec() == b.legal_moves_spec()
}

/// `d` is a perfect-information completion of `s`: the public facts and
/// every known card location are those of `s`, and no card is left hidden.
pub open spec fn completes<S: MarjaPussiGameState>(d: S, s: S) -> bool {
    let dl = d.card_locations_spec();
    let sl = s.card_locations_spec();
    &&& same_facts(d, s)
    &&& dl.len() == sl.len()
    &&& forall|i: int| 0 <= i < sl.len() && sl[i] != HIDDEN ==> #[trigger] dl[i] == sl[i]
    &&& forall|i: int| 0 <= i < dl.len() ==> #[trigger] dl[i] != HIDDEN
}

/// A small state with no hidden facts, for trying the solver out.
pub struct FakeMarjaState {
    pub turn: usize,
    pub done: bool,
    pub moves: Vec<MarjaPussiMove>,
}

/// The move that ends a game of `FakeMarjaState`.
pub const FINISHING_MOVE_ID: u8 = 255;

impl MarjaPussiGameState for FakeMarjaState {
    open spec fn legal_moves_spec(&self) -> Seq<MarjaPussiMove> {
        if self.done {
            Seq::empty()
        } else {
            self.moves@
        }
    }

    open spec fn current_player_spec(&self) -> usize {
        self.turn
    }

    open spec fn is_terminal_spec(&self) -> bool {
        self.done
    }

    open spec fn card_locations_spec(&self) -> Seq<u8> {
        Seq::empty()
    }

    open spec fn terminal_score_spec(&self) -> i64 {
        42
    }

    open spec fn after_move(&self, m: MarjaPussiMove) -> Self {
        if m.move_id == FINISHING_MOVE_ID {
            FakeMarjaState { turn: self.turn, done: true, moves: self.moves }
        } else {
            FakeMarjaState {
                turn: ((self.turn as int % NUM_PLAYERS as int + 1) % NUM_PLAYERS as int) as usize,
                done: self.done,
                moves: self.moves,
            }
        }
    }

    open spec fn admits_deal(&self) -> bool {
        true
    }

    fn is_terminal(&self) -> (r: bool) {
        self.done
    }

    fn evaluate_terminal_score(&self) -> i64 {
        42
    }

    fn current_player(&self) -> (r: usize) {
        self.turn
    }

    fn legal_moves(&self) -> (r: Vec<MarjaPussiMove>) {
        if self.done {
            Vec::new()
        } else {
            self.moves.clone()
        }
    }

    fn card_locations(&self) -> (r: Vec<u8>) {
        Vec::new()
    }

    fn apply_move(&mut self, mov: &MarjaPussiMove) {
        if mov.move_id == FINISHING_MOVE_ID {
            self.done = true;
        } else {
            self.turn = (self.turn % NUM_PLAYERS + 1) % NUM_PLAYERS;
        }
    }

    fn clone_box(&self) -> Self {
        FakeMarjaState { turn: self.turn, done: self.done, moves: self.moves.clone() }
    }

    /// This state hides nothing, so its only completion is a copy.
    fn determinize(&self, rng: &mut rand::rngs::StdRng) -> Self {
        self.clone_box()
    }
}

} // verus!

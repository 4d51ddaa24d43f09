use vstd::prelude::*;
use crate::magic::MagicBitBoards;
use crate::minimax;
use crate::montecarlo;
use crate::moves::{legal_moves, legal_moves_spec, lemma_legal_moves_admit};
use crate::types::{Colour, GameState, Move, ZobristHash};
use crate::zobrist::ZobristHasher;

verus! {

/// A position of chess with the tables that playing it needs.
#[derive(Clone, Copy)]
pub struct Chess<'a> {
    pub state: GameState,
    pub mbb: &'a MagicBitBoards,
    pub hasher: &'a ZobristHasher,
}

impl<'a> Chess<'a> {
    /// The position with its tables.
    pub fn new(state: GameState, mbb: &'a MagicBitBoards, hasher: &'a ZobristHasher) -> (chess: Chess<
        'a,
    >)
        ensures
            chess.state == state,
            chess.mbb == mbb,
            chess.hasher == hasher,
    {
        Chess { state, mbb, hasher }
    }

    /// The position is well formed and carries its own Zobrist key.
    pub open spec fn playable(&self) -> bool {
        self.state.wf() && self.state.hash_ok(self.hasher)
    }

    /// The moves that the fifty-move clock can still count.
    pub open spec fn moves_left(&self) -> nat {
        (u8::MAX - self.state.fifty_move_clock) as nat
    }

    /// The game with the move made.
    pub open spec fn played(&self, mv: Move) -> Chess<'a> {
        Chess { state: self.state.after(mv, self.hasher), mbb: self.mbb, hasher: self.hasher }
    }

    /// Whether the game goes on, and how it ended for the side to move if
    /// it does not: lost where the side cannot move and is in check, drawn
    /// where it cannot move and is not, and drawn where the fifty-move
    /// clock has reached 50.
    pub open spec fn result(&self) -> montecarlo::GameState {
        if legal_moves_spec(self.state).len() == 0 {
            if self.state.in_check() {
                montecarlo::GameState::Finished(montecarlo::GameResult::Loss)
            } else {
                montecarlo::GameState::Finished(montecarlo::GameResult::Draw)
            }
        } else if self.state.fifty_move_clock >= 50 {
            montecarlo::GameState::Finished(montecarlo::GameResult::Draw)
        } else {
            montecarlo::GameState::Ongoing
        }
    }

    /// Makes a legal move.
    fn apply(&mut self, mv: Move)
        requires
            old(self).playable(),
            old(self).moves_left() > 0,
            legal_moves_spec(old(self).state).contains(mv),
        ensures
            *final(self) == old(self).played(mv),
            final(self).playable(),
            final(self).moves_left() + 1 >= old(self).moves_left(),
    {
        proof {
            let i = choose|i: int|
                0 <= i < legal_moves_spec(self.state).len() && legal_moves_spec(self.state)[i] == mv;
            lemma_legal_moves_admit(self.state, i);
        }
        self.state.make_move(mv, self.hasher);
    }
}

impl<'a> minimax::Game for Chess<'a> {
    type Move = Move;

    open spec fn ready(&self) -> bool {
        self.playable()
    }

    open spec fn budget(&self) -> nat {
        self.moves_left()
    }

    open spec fn moves(&self) -> Seq<Move> {
        legal_moves_spec(self.state)
    }

    open spec fn after(&self, mv: Move) -> Chess<'a> {
        self.played(mv)
    }

    open spec fn key(&self) -> u64 {
        self.state.zh.0
    }

    fn make_move(&mut self, mv: Move) {
        self.apply(mv);
    }

    fn legal_moves(&self) -> (r: Vec<Move>) {
        legal_moves(&self.state, self.mbb)
    }

    fn zobrist_hash(&self) -> (h: ZobristHash) {
        self.state.zh
    }

    fn duplicate(&self) -> (r: Chess<'a>) {
        Chess { state: self.state, mbb: self.mbb, hasher: self.hasher }
    }

    fn same_move(a: Move, b: Move) -> (r: bool) {
        a == b
    }
}

impl<'a> montecarlo::Game for Chess<'a> {
    type Move = Move;

    open spec fn ready(&self) -> bool {
        self.playable()
    }

    open spec fn budget(&self) -> nat {
        self.moves_left()
    }

    open spec fn moves(&self) -> Seq<Move> {
        legal_moves_spec(self.state)
    }

    open spec fn after(&self, mv: Move) -> Chess<'a> {
        self.played(mv)
    }

    open spec fn outcome(&self) -> montecarlo::GameState {
        self.result()
    }

    open spec fn player(&self) -> montecarlo::Player {
        match self.state.active_colour {
            Colour::White => montecarlo::Player::One,
            Colour::Black => montecarlo::Player::Two,
        }
    }

    fn make_move(&mut self, mv: Move) {
        self.apply(mv);
    }

    fn legal_moves(&self) -> (r: Vec<Move>) {
        legal_moves(&self.state, self.mbb)
    }

    fn has_budget(&self) -> (r: bool) {
        self.state.fifty_move_clock < u8::MAX
    }

    fn game_state(&self) -> (r: montecarlo::GameState) {
        let num_moves = legal_moves(&self.state, self.mbb).len();
        if num_moves == 0 {
            if self.state.is_in_check(self.mbb) {
                montecarlo::GameState::Finished(montecarlo::GameResult::Loss)
            } else {
                montecarlo::GameState::Finished(montecarlo::GameResult::Draw)
            }
        } else if self.state.fifty_move_clock >= 50 {
            montecarlo::GameState::Finished(montecarlo::GameResult::Draw)
        } else {
            montecarlo::GameState::Ongoing
        }
    }

    fn active_player(&self) -> (r: montecarlo::Player) {
        match self.state.active_colour {
            Colour::White => montecarlo::Player::One,
            Colour::Black => montecarlo::Player::Two,
        }
    }

    fn duplicate(&self) -> (r: Chess<'a>) {
        Chess { state: self.state, mbb: self.mbb, hasher: self.hasher }
    }

    fn same_move(a: Move, b: Move) -> (r: bool) {
        a == b
    }
}

} // verus!

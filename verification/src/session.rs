use vstd::prelude::*;

use crate::board::Board;
use crate::board::COORD_BOUND;
use crate::board::initial_board_pieces;
use crate::cards::Card;
use crate::deck::Deck;
use crate::deck::DeckError;
use crate::deck::canonical_deck;
use crate::drag::SelectionState;
use crate::drag::board_after_input;
use crate::drag::piece_drag_system;
use crate::drag::piece_release_system;
use crate::drag::sel_after_input;
use crate::drag::selection_valid;
use crate::hand::EvalError;
use crate::hand::HandValue;
use crate::hand::evaluate;

verus! {

/// One game session: it owns the deck, the board and the drag state, and
/// every externally triggered action goes through it. State is mutated
/// only by the explicit call sequence of `tick` and the deal actions,
/// never from ambient context.
pub struct GameSession {
    pub deck: Deck,
    pub board: Board,
    pub selection: SelectionState,
}

impl GameSession {
    /// The session's state is consistent: piece coordinates are in range
    /// and a dragged identifier points at a piece.
    pub open spec fn wf(&self) -> bool {
        self.board.wf() && selection_valid(self.selection, self.board@)
    }

    /// Start a session: a full deck in canonical order, the standard
    /// starting board, and nothing being dragged.
    pub fn new() -> (s: GameSession)
        ensures
            s.deck@ == canonical_deck(),
            s.board@ == initial_board_pieces(),
            s.selection == SelectionState::Idle,
            s.wf(),
    {
        let mut deck = Deck::new();
        deck.reset();
        GameSession { deck, board: Board::setup_chess_board(), selection: SelectionState::Idle }
    }

    /// Start a new hand: rebuild the full 52-card deck and shuffle it with
    /// the injected randomness source. Board and drag state are untouched.
    pub fn start_hand(&mut self, rng: &mut rand::rngs::StdRng)
        ensures
            final(self).deck@.to_multiset() == canonical_deck().to_multiset(),
            final(self).deck@.len() == 52,
            final(self).board == old(self).board,
            final(self).selection == old(self).selection,
    {
        self.deck.reset();
        self.deck.shuffle(rng);
    }

    /// Deal `n` cards off the top of the deck; fails with
    /// `InsufficientCards`, leaving the deck unchanged, if fewer remain.
    pub fn deal(&mut self, n: usize) -> (r: Result<Vec<Card>, DeckError>)
        ensures
            n <= old(self).deck@.len() ==> (r matches Ok(dealt) && dealt@ == old(
                self,
            ).deck@.take(n as int) && final(self).deck@ == old(self).deck@.skip(n as int)),
            n > old(self).deck@.len() ==> r == Err::<Vec<Card>, DeckError>(
                DeckError::InsufficientCards,
            ) && final(self).deck@ == old(self).deck@,
            final(self).board == old(self).board,
            final(self).selection == old(self).selection,
    {
        self.deck.deal(n)
    }

    /// Evaluate a dealt hand of five or more cards on demand.
    pub fn check_hand(&self, cards: &Vec<Card>) -> (r: Result<HandValue, EvalError>)
        ensures
            cards@.len() < 5 ==> r == Err::<HandValue, EvalError>(EvalError::InvalidHandSize),
            cards@.len() >= 5 ==> (r matches Ok(v) && crate::hand::best_of(cards@, v)),
    {
        evaluate(cards)
    }

    /// One frame of input: the drag half of the state machine first (press
    /// edge may pick up a piece; the dragged piece tracks the pointer),
    /// then the release half (release edge drops it). The deck is never
    /// touched by pointer input.
    pub fn tick(&mut self, just_pressed: bool, just_released: bool, pointer: Option<(i32, i32)>)
        requires
            old(self).wf(),
            pointer matches Some(p) ==> (-COORD_BOUND <= p.0 <= COORD_BOUND && -COORD_BOUND <= p.1
                <= COORD_BOUND),
        ensures
            final(self).wf(),
            final(self).deck == old(self).deck,
            pointer is None ==> final(self).board@ == old(self).board@ && final(self).selection
                == (if just_released {
                SelectionState::Idle
            } else {
                old(self).selection
            }),
            pointer matches Some(p) ==> final(self).board@ == board_after_input(
                old(self).board@,
                old(self).selection,
                just_pressed,
                p.0 as int,
                p.1 as int,
            ) && final(self).selection == (if just_released {
                SelectionState::Idle
            } else {
                sel_after_input(
                    old(self).board@,
                    old(self).selection,
                    just_pressed,
                    p.0 as int,
                    p.1 as int,
                )
            }),
    {
        piece_drag_system(&mut self.board, &mut self.selection, just_pressed, pointer);
        piece_release_system(&mut self.selection, just_released);
    }
}

} // verus!

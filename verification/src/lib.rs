//! Deterministic game-state core for a two-mode tabletop application: a
//! chess board with draggable pieces and a poker deck with hand
//! evaluation. The crate holds the stateful logic with real invariants —
//! card uniqueness, permutation-only shuffles, no-partial deals, total
//! hand ranking with deterministic tie-breaks, and an at-most-one-piece
//! drag state machine — each stated as a contract and proved. Rendering,
//! windowing and asset loading are outside collaborators; the core only
//! consumes world points and edge events and emits canonical key strings.

use vstd::prelude::*;

pub mod board;
pub mod cards;
pub mod deck;
pub mod drag;
pub mod hand;
pub mod session;

pub use board::Board;
pub use board::BoardPiece;
pub use board::ChessPiece;
pub use board::PieceColor;
pub use board::PieceType;
pub use cards::Card;
pub use cards::Rank;
pub use cards::Suit;
pub use deck::Deck;
pub use deck::DeckError;
pub use drag::SelectionState;
pub use hand::EvalError;
pub use hand::HandValue;
pub use hand::PokerHand;
pub use session::GameSession;

verus! {

} // verus!

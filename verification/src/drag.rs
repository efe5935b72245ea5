use vstd::prelude::*;

use crate::board::Board;
use crate::board::BoardPiece;
use crate::board::COORD_BOUND;
use crate::board::nearest_spec;

verus! {

/// Distance threshold, in world units, within which a press picks up the
/// nearest piece.
pub const DRAG_THRESHOLD: i32 = 40;

/// The per-session drag state machine: at most one piece is ever dragged,
/// by construction of the single variant that can hold one.
#[derive(Clone, Copy, Debug, PartialEq, Eq, Structural)]
pub enum SelectionState {
    Idle,
    Dragging(usize),
}

/// A dragged identifier points at a piece of the board.
pub open spec fn selection_valid(sel: SelectionState, pieces: Seq<BoardPiece>) -> bool {
    match sel {
        SelectionState::Idle => true,
        SelectionState::Dragging(i) => i < pieces.len(),
    }
}

/// The selection after one frame of pointer input at world point (px, py):
/// a press edge selects the piece nearest to the point if one lies within
/// the threshold, and otherwise leaves the selection as it was; without a
/// press edge the selection is untouched.
pub open spec fn sel_after_input(
    pieces: Seq<BoardPiece>,
    sel: SelectionState,
    just_pressed: bool,
    px: int,
    py: int,
) -> SelectionState {
    if just_pressed {
        match nearest_spec(pieces, px, py, DRAG_THRESHOLD as int) {
            Some(i) => SelectionState::Dragging(i as usize),
            None => sel,
        }
    } else {
        sel
    }
}

/// The board after one frame of pointer input: whichever piece is selected
/// after the press edge (if any) tracks the pointer, its live position
/// overwritten with the world point; everything else stands still.
pub open spec fn board_after_input(
    pieces: Seq<BoardPiece>,
    sel: SelectionState,
    just_pressed: bool,
    px: int,
    py: int,
) -> Seq<BoardPiece> {
    match sel_after_input(pieces, sel, just_pressed, px, py) {
        SelectionState::Dragging(i) => if i < pieces.len() {
            pieces.update(
                i as int,
                BoardPiece { piece: pieces[i as int].piece, x: px as i32, y: py as i32 },
            )
        } else {
            pieces
        },
        SelectionState::Idle => pieces,
    }
}

/// One frame of the drag half of the state machine. `pointer` is the
/// pointer's world position this frame, if the pointer maps to one;
/// `just_pressed` is the button's press edge. On a press edge the piece
/// nearest the pointer (within the threshold) becomes the dragged piece;
/// then the dragged piece, if any, has its live position set to the
/// pointer. With no pointer position nothing changes.
pub fn piece_drag_system(
    board: &mut Board,
    sel: &mut SelectionState,
    just_pressed: bool,
    pointer: Option<(i32, i32)>,
)
    requires
        old(board).wf(),
        selection_valid(*old(sel), old(board)@),
        pointer matches Some(p) ==> (-COORD_BOUND <= p.0 <= COORD_BOUND && -COORD_BOUND <= p.1
            <= COORD_BOUND),
    ensures
        final(board).wf(),
        selection_valid(*final(sel), final(board)@),
        pointer is None ==> final(board)@ == old(board)@ && *final(sel) == *old(sel),
        pointer matches Some(p) ==> *final(sel) == sel_after_input(
            old(board)@,
            *old(sel),
            just_pressed,
            p.0 as int,
            p.1 as int,
        ) && final(board)@ == board_after_input(
            old(board)@,
            *old(sel),
            just_pressed,
            p.0 as int,
            p.1 as int,
        ),
{
    if let Some((px, py)) = pointer {
        if just_pressed {
            match board.nearest_piece(px, py, DRAG_THRESHOLD) {
                Some(i) => {
                    *sel = SelectionState::Dragging(i);
                },
                None => {},
            }
        }
        match *sel {
            SelectionState::Dragging(i) => {
                if i < board.len() {
                    board.set_piece_position(i, px, py);
                }
            },
            SelectionState::Idle => {},
        }
    }
}

/// One frame of the release half of the state machine: a release edge
/// drops whatever is dragged and returns to Idle; releasing with no
/// active drag is a no-op, not an error.
pub fn piece_release_system(sel: &mut SelectionState, just_released: bool)
    ensures
        just_released ==> *final(sel) == SelectionState::Idle,
        !just_released ==> *final(sel) == *old(sel),
{
    if just_released {
        *sel = SelectionState::Idle;
    }
}

} // verus!

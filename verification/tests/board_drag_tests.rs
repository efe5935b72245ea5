use tabletop_core::Board;
use tabletop_core::ChessPiece;
use tabletop_core::Deck;
use tabletop_core::GameSession;
use tabletop_core::PieceColor;
use tabletop_core::PieceType;
use tabletop_core::SelectionState;
use tabletop_core::board::chess_texture_key;
use tabletop_core::board::get_initial_piece;
use tabletop_core::deck::rng_from_seed;

fn pawn() -> ChessPiece {
    ChessPiece { piece_type: PieceType::Pawn, color: PieceColor::White }
}

#[test]
fn initial_layout_has_32_pieces_in_place() {
    let board = Board::setup_chess_board();
    assert_eq!(board.len(), 32);
    assert_eq!(
        board.piece_at(0, 0),
        Some(ChessPiece { piece_type: PieceType::Rook, color: PieceColor::Black })
    );
    assert_eq!(
        board.piece_at(0, 4),
        Some(ChessPiece { piece_type: PieceType::King, color: PieceColor::Black })
    );
    assert_eq!(
        board.piece_at(7, 3),
        Some(ChessPiece { piece_type: PieceType::Queen, color: PieceColor::White })
    );
    assert_eq!(
        board.piece_at(6, 2),
        Some(ChessPiece { piece_type: PieceType::Pawn, color: PieceColor::White })
    );
    assert_eq!(
        board.piece_at(1, 5),
        Some(ChessPiece { piece_type: PieceType::Pawn, color: PieceColor::Black })
    );
    assert_eq!(board.piece_at(3, 3), None);
    assert_eq!(get_initial_piece(4, 4), None);
    assert_eq!(get_initial_piece(7, 1), Some((PieceType::Knight, PieceColor::White)));
}

#[test]
fn texture_keys_are_canonical() {
    assert_eq!(chess_texture_key(PieceColor::White, PieceType::Pawn), "chess/W_Pawn.png");
    assert_eq!(chess_texture_key(PieceColor::Black, PieceType::Queen), "chess/B_Queen.png");
}

#[test]
fn nearest_piece_picks_the_closer_one_within_threshold() {
    let mut board = Board::new();
    board.add_piece(pawn(), 10, 0);  // distance 10 from the origin
    board.add_piece(pawn(), 30, 40);  // distance 50 from the origin
    assert_eq!(board.nearest_piece(0, 0, 40), Some(0));
}

#[test]
fn nearest_piece_none_beyond_threshold() {
    let mut board = Board::new();
    board.add_piece(pawn(), 30, 40);  // distance 50 from the origin
    assert_eq!(board.nearest_piece(0, 0, 40), None);
    assert_eq!(Board::new().nearest_piece(0, 0, 40), None);
}

#[test]
fn nearest_piece_tie_goes_to_scan_order() {
    let mut board = Board::new();
    board.add_piece(pawn(), 10, 0);
    board.add_piece(pawn(), 0, 10);  // same distance 10
    assert_eq!(board.nearest_piece(0, 0, 40), Some(0));
}

#[test]
fn move_piece_relocates_and_leaves_source_empty() {
    let mut board = Board::setup_chess_board();
    assert!(board.move_piece(6, 0, 5, 0));
    assert_eq!(
        board.piece_at(5, 0),
        Some(ChessPiece { piece_type: PieceType::Pawn, color: PieceColor::White })
    );
    assert_eq!(board.piece_at(6, 0), None);
    assert!(!board.move_piece(3, 3, 4, 4), "an empty square has nothing to move");
}

#[test]
fn drag_press_move_release_cycle() {
    let mut board = Board::new();
    board.add_piece(pawn(), 0, 0);
    let mut session = GameSession { deck: Deck::new(), board, selection: SelectionState::Idle };

    // Press near the piece: it becomes the dragged piece.
    session.tick(true, false, Some((5, 5)));
    assert_eq!(session.selection, SelectionState::Dragging(0));
    assert_eq!((session.board.pieces()[0].x, session.board.pieces()[0].y), (5, 5));

    // Moving the pointer while held drags the piece with it.
    session.tick(false, false, Some((60, 70)));
    assert_eq!(session.selection, SelectionState::Dragging(0));
    assert_eq!((session.board.pieces()[0].x, session.board.pieces()[0].y), (60, 70));

    // Release: back to Idle, the piece stays where the pointer last was.
    session.tick(false, true, Some((80, 80)));
    assert_eq!(session.selection, SelectionState::Idle);
    assert_eq!((session.board.pieces()[0].x, session.board.pieces()[0].y), (80, 80));

    // No further updates once idle.
    session.tick(false, false, Some((300, 300)));
    assert_eq!(session.selection, SelectionState::Idle);
    assert_eq!((session.board.pieces()[0].x, session.board.pieces()[0].y), (80, 80));
}

#[test]
fn press_with_nothing_near_stays_idle() {
    let mut board = Board::new();
    board.add_piece(pawn(), 100, 100);  // about 141 units from the origin
    let mut session = GameSession { deck: Deck::new(), board, selection: SelectionState::Idle };
    session.tick(true, false, Some((0, 0)));
    assert_eq!(session.selection, SelectionState::Idle);
    assert_eq!((session.board.pieces()[0].x, session.board.pieces()[0].y), (100, 100));
}

#[test]
fn frame_without_pointer_changes_nothing() {
    let mut board = Board::new();
    board.add_piece(pawn(), 0, 0);
    let mut session = GameSession { deck: Deck::new(), board, selection: SelectionState::Idle };
    session.tick(true, false, Some((5, 5)));
    assert_eq!(session.selection, SelectionState::Dragging(0));
    session.tick(false, false, None);
    assert_eq!(session.selection, SelectionState::Dragging(0));
    assert_eq!((session.board.pieces()[0].x, session.board.pieces()[0].y), (5, 5));
}

#[test]
fn session_deals_a_playable_hand() {
    let mut session = GameSession::new();
    assert_eq!(session.deck.len(), 52);
    assert_eq!(session.board.len(), 32);
    let mut rng = rng_from_seed(9);
    session.start_hand(&mut rng);
    assert_eq!(session.deck.len(), 52);
    let hand = session.deal(5).expect("a fresh deck covers a deal of 5");
    assert_eq!(session.deck.len(), 47);
    let value = session.check_hand(&hand).expect("five cards evaluate");
    let _ = value.cat;
}

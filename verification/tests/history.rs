use chess_core::board::BoardState;
use chess_core::game::{GameContainer, GameHistory};
use chess_core::types::{CastlingRules, ChessMove, Piece, PieceType, PlayerColor};

fn no_rights() -> CastlingRules {
    CastlingRules::new(false, false, false, false)
}

fn find_move(moves: &Vec<ChessMove>, tx: i8, ty: i8) -> Option<ChessMove> {
    for mv in moves {
        if mv.to.x == tx && mv.to.y == ty {
            return Some(*mv);
        }
    }
    None
}

#[test]
fn history_starts_with_one_board_and_no_moves() {
    let container = GameContainer::new();
    assert_eq!(container.history.board_states.len(), 1);
    assert_eq!(container.history.moves.len(), 0);
}

#[test]
fn execute_move_appends_to_both_logs() {
    let mut container = GameContainer::new();
    let board = container.get_board();
    let pawn = Piece::new(4, 1, PieceType::PAWN, PlayerColor::WHITE);
    let mv = find_move(&board.get_legal_moves(&pawn), 4, 3).unwrap();
    let desc = container.execute_move(mv);
    assert_eq!(container.history.board_states.len(), 2);
    assert_eq!(container.history.moves.len(), 1);
    assert!(!desc.was_takes);
    assert!(!desc.was_check);
    assert!(!desc.was_checkmate);
    let now = container.get_board();
    assert_eq!(now.player_to_move, PlayerColor::BLACK);
    assert_eq!(now.can_take_en_passant, Some(4));
}

#[test]
fn a_capture_is_reported_as_takes() {
    let pieces = vec![
        Piece::new(4, 0, PieceType::KING, PlayerColor::WHITE),
        Piece::new(4, 7, PieceType::KING, PlayerColor::BLACK),
        Piece::new(0, 0, PieceType::ROOK, PlayerColor::WHITE),
        Piece::new(0, 5, PieceType::PAWN, PlayerColor::BLACK),
    ];
    let board = BoardState::new(pieces, PlayerColor::WHITE, no_rights(), None);
    let mut history = GameHistory::new(vec![board], None);
    let rook = Piece::new(0, 0, PieceType::ROOK, PlayerColor::WHITE);
    let capture = find_move(&history.get_board().get_legal_moves(&rook), 0, 5).unwrap();
    let desc = history.execute_move(capture);
    assert!(desc.was_takes);
    assert!(!desc.was_checkmate);
}

#[test]
fn an_en_passant_capture_is_reported_as_takes() {
    let pieces = vec![
        Piece::new(4, 0, PieceType::KING, PlayerColor::WHITE),
        Piece::new(4, 7, PieceType::KING, PlayerColor::BLACK),
        Piece::new(4, 1, PieceType::PAWN, PlayerColor::WHITE),
        Piece::new(3, 3, PieceType::PAWN, PlayerColor::BLACK),
    ];
    let board = BoardState::new(pieces, PlayerColor::WHITE, no_rights(), None);
    let mut history = GameHistory::new(vec![board], None);
    let pawn = Piece::new(4, 1, PieceType::PAWN, PlayerColor::WHITE);
    let double = find_move(&history.get_board().get_legal_moves(&pawn), 4, 3).unwrap();
    assert!(!history.execute_move(double).was_takes);
    let black_pawn = Piece::new(3, 3, PieceType::PAWN, PlayerColor::BLACK);
    let capture = find_move(&history.get_board().get_legal_moves(&black_pawn), 4, 2).unwrap();
    let desc = history.execute_move(capture);
    assert!(desc.was_takes);
    assert_eq!(history.board_states.len(), 3);
    assert_eq!(history.moves.len(), 2);
}

#[test]
fn a_checking_move_is_reported_as_check() {
    let pieces = vec![
        Piece::new(4, 0, PieceType::KING, PlayerColor::WHITE),
        Piece::new(7, 7, PieceType::KING, PlayerColor::BLACK),
        Piece::new(0, 1, PieceType::ROOK, PlayerColor::WHITE),
    ];
    let board = BoardState::new(pieces, PlayerColor::WHITE, no_rights(), None);
    let mut history = GameHistory::new(vec![board], None);
    let rook = Piece::new(0, 1, PieceType::ROOK, PlayerColor::WHITE);
    let to_seventh = find_move(&history.get_board().get_legal_moves(&rook), 0, 7).unwrap();
    let desc = history.execute_move(to_seventh);
    assert!(desc.was_check);
    assert!(!desc.was_checkmate);
    assert!(!desc.was_takes);
}

#[test]
fn a_mating_move_is_reported_as_checkmate() {
    // white queen slides in beside the cornered black king, defended by the
    // white king
    let pieces = vec![
        Piece::new(7, 7, PieceType::KING, PlayerColor::BLACK),
        Piece::new(1, 6, PieceType::QUEEN, PlayerColor::WHITE),
        Piece::new(5, 5, PieceType::KING, PlayerColor::WHITE),
    ];
    let board = BoardState::new(pieces, PlayerColor::WHITE, no_rights(), None);
    let mut history = GameHistory::new(vec![board], None);
    let queen = Piece::new(1, 6, PieceType::QUEEN, PlayerColor::WHITE);
    let mate = find_move(&history.get_board().get_legal_moves(&queen), 6, 6).unwrap();
    let desc = history.execute_move(mate);
    assert!(desc.was_check);
    assert!(desc.was_checkmate);
}

#[test]
fn get_board_returns_the_latest_snapshot() {
    let mut container = GameContainer::new();
    let board = container.get_board();
    let knight = Piece::new(1, 0, PieceType::KNIGHT, PlayerColor::WHITE);
    let jump = find_move(&board.get_legal_moves(&knight), 2, 2).unwrap();
    container.execute_move(jump);
    let now = container.get_board();
    assert!(now.get_piece_at_square(1, 0).is_none());
    let moved = now.get_piece_at_square(2, 2).unwrap();
    assert_eq!(moved.piece_type, PieceType::KNIGHT);
}

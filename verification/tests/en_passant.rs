use chess_core::board::BoardState;
use chess_core::types::{CastlingRules, ChessMove, Piece, PieceType, PlayerColor};

fn no_rights() -> CastlingRules {
    CastlingRules::new(false, false, false, false)
}

fn find_move(moves: &Vec<ChessMove>, tx: i8, ty: i8) -> Option<ChessMove> {
    for mv in moves {
        if mv.to.x == tx && mv.to.y == ty {
            return Some(*mv);
        }
    }
    None
}

fn board_before_double_push() -> BoardState {
    let pieces = vec![
        Piece::new(4, 0, PieceType::KING, PlayerColor::WHITE),
        Piece::new(4, 7, PieceType::KING, PlayerColor::BLACK),
        Piece::new(4, 1, PieceType::PAWN, PlayerColor::WHITE),
        Piece::new(3, 3, PieceType::PAWN, PlayerColor::BLACK),
    ];
    BoardState::new(pieces, PlayerColor::WHITE, no_rights(), None)
}

#[test]
fn double_push_sets_the_en_passant_file() {
    let board = board_before_double_push();
    let pawn = Piece::new(4, 1, PieceType::PAWN, PlayerColor::WHITE);
    let legal = board.get_legal_moves(&pawn);
    let double = find_move(&legal, 4, 3).expect("the double push must be legal");
    let after = board.after_move(double);
    assert_eq!(after.can_take_en_passant, Some(4));
    assert_eq!(after.player_to_move, PlayerColor::BLACK);
}

#[test]
fn single_push_does_not_set_the_en_passant_file() {
    let board = board_before_double_push();
    let pawn = Piece::new(4, 1, PieceType::PAWN, PlayerColor::WHITE);
    let legal = board.get_legal_moves(&pawn);
    let single = find_move(&legal, 4, 2).expect("the single push must be legal");
    let after = board.after_move(single);
    assert_eq!(after.can_take_en_passant, None);
}

#[test]
fn en_passant_capture_removes_the_passed_pawn() {
    let board = board_before_double_push();
    let pawn = Piece::new(4, 1, PieceType::PAWN, PlayerColor::WHITE);
    let legal = board.get_legal_moves(&pawn);
    let double = find_move(&legal, 4, 3).expect("the double push must be legal");
    let after = board.after_move(double);

    let black_pawn = Piece::new(3, 3, PieceType::PAWN, PlayerColor::BLACK);
    let replies = after.get_legal_moves(&black_pawn);
    let capture = find_move(&replies, 4, 2).expect("the en-passant capture must be legal");
    assert_eq!(capture.to.piece_type, PieceType::PAWN);

    let end = after.after_move(capture);
    // the white pawn that double-pushed is gone from (4,3), not from (4,2)
    assert!(end.get_piece_at_square(4, 3).is_none());
    let capturer = end.get_piece_at_square(4, 2).unwrap();
    assert_eq!(capturer.color, PlayerColor::BLACK);
    assert_eq!(capturer.piece_type, PieceType::PAWN);
    assert!(end.get_piece_at_square(3, 3).is_none());
    assert_eq!(end.can_take_en_passant, None);
}

#[test]
fn en_passant_capture_works_from_the_other_side() {
    let pieces = vec![
        Piece::new(4, 0, PieceType::KING, PlayerColor::WHITE),
        Piece::new(4, 7, PieceType::KING, PlayerColor::BLACK),
        Piece::new(4, 1, PieceType::PAWN, PlayerColor::WHITE),
        Piece::new(5, 3, PieceType::PAWN, PlayerColor::BLACK),
    ];
    let board = BoardState::new(pieces, PlayerColor::WHITE, no_rights(), None);
    let pawn = Piece::new(4, 1, PieceType::PAWN, PlayerColor::WHITE);
    let double = find_move(&board.get_legal_moves(&pawn), 4, 3).unwrap();
    let after = board.after_move(double);
    let black_pawn = Piece::new(5, 3, PieceType::PAWN, PlayerColor::BLACK);
    let capture = find_move(&after.get_legal_moves(&black_pawn), 4, 2)
        .expect("the en-passant capture must be legal");
    let end = after.after_move(capture);
    assert!(end.get_piece_at_square(4, 3).is_none());
    assert!(end.get_piece_at_square(4, 2).is_some());
}

#[test]
fn pawn_on_the_wrong_rank_cannot_capture_en_passant() {
    // the en-passant file is set, but the black pawn stands on rank 4, not 3
    let pieces = vec![
        Piece::new(4, 0, PieceType::KING, PlayerColor::WHITE),
        Piece::new(4, 7, PieceType::KING, PlayerColor::BLACK),
        Piece::new(3, 4, PieceType::PAWN, PlayerColor::BLACK),
    ];
    let board = BoardState::new(pieces, PlayerColor::BLACK, no_rights(), Some(4));
    let pawn = Piece::new(3, 4, PieceType::PAWN, PlayerColor::BLACK);
    let legal = board.get_legal_moves(&pawn);
    assert!(find_move(&legal, 4, 3).is_none());
}

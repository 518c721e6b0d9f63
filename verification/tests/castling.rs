use chess_core::board::BoardState;
use chess_core::types::{CastlingRules, ChessMove, Piece, PieceType, PlayerColor};

fn find_move(moves: &Vec<ChessMove>, tx: i8, ty: i8) -> Option<ChessMove> {
    for mv in moves {
        if mv.to.x == tx && mv.to.y == ty {
            return Some(*mv);
        }
    }
    None
}

fn white_kingside_fixture() -> BoardState {
    let pieces = vec![
        Piece::new(4, 0, PieceType::KING, PlayerColor::WHITE),
        Piece::new(7, 0, PieceType::ROOK, PlayerColor::WHITE),
        Piece::new(4, 7, PieceType::KING, PlayerColor::BLACK),
    ];
    BoardState::new(
        pieces,
        PlayerColor::WHITE,
        CastlingRules::new(true, true, false, false),
        None,
    )
}

#[test]
fn kingside_castling_is_offered_and_relocates_the_rook() {
    let board = white_kingside_fixture();
    assert!(board.can_castle_k_this_move);
    let king = Piece::new(4, 0, PieceType::KING, PlayerColor::WHITE);
    let legal = board.get_legal_moves(&king);
    let castle = find_move(&legal, 6, 0).expect("castling must be offered");
    assert!(castle.is_king_side_castles());

    let after = board.after_move(castle);
    let king_after = after.get_piece_at_square(6, 0).unwrap();
    assert_eq!(king_after.piece_type, PieceType::KING);
    let rook_after = after.get_piece_at_square(5, 0).unwrap();
    assert_eq!(rook_after.piece_type, PieceType::ROOK);
    assert!(after.get_piece_at_square(4, 0).is_none());
    assert!(after.get_piece_at_square(7, 0).is_none());
    // both white flags are cleared forever; the turn flipped exactly once
    assert!(!after.castling_rules.white_can_still_castle_k);
    assert!(!after.castling_rules.white_can_still_castle_q);
    assert_eq!(after.player_to_move, PlayerColor::BLACK);
    assert_eq!(after.pieces.len(), 3);
}

#[test]
fn queenside_castling_relocates_the_rook_to_file_three() {
    let pieces = vec![
        Piece::new(4, 0, PieceType::KING, PlayerColor::WHITE),
        Piece::new(0, 0, PieceType::ROOK, PlayerColor::WHITE),
        Piece::new(4, 7, PieceType::KING, PlayerColor::BLACK),
    ];
    let board = BoardState::new(
        pieces,
        PlayerColor::WHITE,
        CastlingRules::new(true, true, false, false),
        None,
    );
    assert!(board.can_castle_q_this_move);
    let king = Piece::new(4, 0, PieceType::KING, PlayerColor::WHITE);
    let castle = find_move(&board.get_legal_moves(&king), 2, 0).expect("castling must be offered");
    let after = board.after_move(castle);
    assert_eq!(after.get_piece_at_square(2, 0).unwrap().piece_type, PieceType::KING);
    assert_eq!(after.get_piece_at_square(3, 0).unwrap().piece_type, PieceType::ROOK);
    assert!(after.get_piece_at_square(0, 0).is_none());
}

#[test]
fn castling_needs_the_rights_flag() {
    let pieces = vec![
        Piece::new(4, 0, PieceType::KING, PlayerColor::WHITE),
        Piece::new(7, 0, PieceType::ROOK, PlayerColor::WHITE),
        Piece::new(4, 7, PieceType::KING, PlayerColor::BLACK),
    ];
    let board = BoardState::new(
        pieces,
        PlayerColor::WHITE,
        CastlingRules::new(false, false, false, false),
        None,
    );
    assert!(!board.can_castle_k_this_move);
    let king = Piece::new(4, 0, PieceType::KING, PlayerColor::WHITE);
    assert!(find_move(&board.get_legal_moves(&king), 6, 0).is_none());
}

#[test]
fn castling_needs_empty_squares_between() {
    let pieces = vec![
        Piece::new(4, 0, PieceType::KING, PlayerColor::WHITE),
        Piece::new(7, 0, PieceType::ROOK, PlayerColor::WHITE),
        Piece::new(5, 0, PieceType::BISHOP, PlayerColor::WHITE),
        Piece::new(4, 7, PieceType::KING, PlayerColor::BLACK),
    ];
    let board = BoardState::new(
        pieces,
        PlayerColor::WHITE,
        CastlingRules::new(true, true, false, false),
        None,
    );
    assert!(!board.can_castle_k_this_move);
}

#[test]
fn castling_out_of_check_is_refused() {
    // a black rook gives check on the king's file
    let pieces = vec![
        Piece::new(4, 0, PieceType::KING, PlayerColor::WHITE),
        Piece::new(7, 0, PieceType::ROOK, PlayerColor::WHITE),
        Piece::new(4, 5, PieceType::ROOK, PlayerColor::BLACK),
        Piece::new(0, 7, PieceType::KING, PlayerColor::BLACK),
    ];
    let board = BoardState::new(
        pieces,
        PlayerColor::WHITE,
        CastlingRules::new(true, true, false, false),
        None,
    );
    assert!(board.is_check(Some(PlayerColor::WHITE)));
    let king = Piece::new(4, 0, PieceType::KING, PlayerColor::WHITE);
    assert!(find_move(&board.get_legal_moves(&king), 6, 0).is_none());
}

#[test]
fn castling_through_an_attacked_square_is_refused() {
    // a black rook attacks the transit square (5,0) but not the king
    let pieces = vec![
        Piece::new(4, 0, PieceType::KING, PlayerColor::WHITE),
        Piece::new(7, 0, PieceType::ROOK, PlayerColor::WHITE),
        Piece::new(5, 5, PieceType::ROOK, PlayerColor::BLACK),
        Piece::new(0, 7, PieceType::KING, PlayerColor::BLACK),
    ];
    let board = BoardState::new(
        pieces,
        PlayerColor::WHITE,
        CastlingRules::new(true, true, false, false),
        None,
    );
    assert!(!board.is_check(Some(PlayerColor::WHITE)));
    let king = Piece::new(4, 0, PieceType::KING, PlayerColor::WHITE);
    assert!(find_move(&board.get_legal_moves(&king), 6, 0).is_none());
}

#[test]
fn moving_the_kingside_rook_clears_only_that_flag() {
    let board = white_kingside_fixture();
    let rook = Piece::new(7, 0, PieceType::ROOK, PlayerColor::WHITE);
    let legal = board.get_legal_moves(&rook);
    let up = find_move(&legal, 7, 4).expect("the rook can slide up its file");
    let after = board.after_move(up);
    assert!(!after.castling_rules.white_can_still_castle_k);
    assert!(after.castling_rules.white_can_still_castle_q);
}

use chess_core::board::BoardState;
use chess_core::types::{
    is_within_chessboard, CastlingRules, ChessMove, MovePlausibility, Piece, PieceType,
    PlayerColor,
};

fn no_rights() -> CastlingRules {
    CastlingRules::new(false, false, false, false)
}

#[test]
fn opposite_is_an_involution() {
    assert_eq!(PlayerColor::opposite(PlayerColor::WHITE), PlayerColor::BLACK);
    assert_eq!(PlayerColor::opposite(PlayerColor::BLACK), PlayerColor::WHITE);
    assert_eq!(
        PlayerColor::opposite(PlayerColor::opposite(PlayerColor::WHITE)),
        PlayerColor::WHITE
    );
}

#[test]
fn board_bounds() {
    assert!(is_within_chessboard(0, 0));
    assert!(is_within_chessboard(7, 7));
    assert!(!is_within_chessboard(8, 0));
    assert!(!is_within_chessboard(0, 8));
    assert!(!is_within_chessboard(-1, 3));
    assert!(!is_within_chessboard(3, -1));
}

#[test]
fn piece_new_and_pos() {
    let p = Piece::new(3, 4, PieceType::QUEEN, PlayerColor::BLACK);
    assert_eq!(p.x, 3);
    assert_eq!(p.y, 4);
    assert_eq!(p.piece_type, PieceType::QUEEN);
    assert_eq!(p.color, PlayerColor::BLACK);
    assert_eq!(p.pos(), (3, 4));
}

#[test]
fn castle_shapes() {
    let k = Piece::new(4, 0, PieceType::KING, PlayerColor::WHITE);
    let ks = ChessMove::new(k, Piece::new(6, 0, PieceType::KING, PlayerColor::WHITE));
    let qs = ChessMove::new(k, Piece::new(2, 0, PieceType::KING, PlayerColor::WHITE));
    let step = ChessMove::new(k, Piece::new(5, 0, PieceType::KING, PlayerColor::WHITE));
    assert!(ks.is_king_side_castles());
    assert!(!ks.is_queen_side_castles());
    assert!(qs.is_queen_side_castles());
    assert!(!qs.is_king_side_castles());
    assert!(!step.is_king_side_castles());
    assert!(!step.is_queen_side_castles());
    let rook_slide = ChessMove::new(
        Piece::new(4, 0, PieceType::ROOK, PlayerColor::WHITE),
        Piece::new(6, 0, PieceType::ROOK, PlayerColor::WHITE),
    );
    assert!(!rook_slide.is_king_side_castles());
}

#[test]
fn get_piece_at_square_finds_the_occupant() {
    let pieces = vec![
        Piece::new(4, 0, PieceType::KING, PlayerColor::WHITE),
        Piece::new(4, 7, PieceType::KING, PlayerColor::BLACK),
        Piece::new(2, 3, PieceType::BISHOP, PlayerColor::WHITE),
    ];
    let board = BoardState::new(pieces, PlayerColor::WHITE, no_rights(), None);
    let found = board.get_piece_at_square(2, 3).unwrap();
    assert_eq!(found.piece_type, PieceType::BISHOP);
    assert!(board.get_piece_at_square(5, 5).is_none());
}

#[test]
fn duplicate_copies_every_field() {
    let pieces = vec![
        Piece::new(4, 0, PieceType::KING, PlayerColor::WHITE),
        Piece::new(4, 7, PieceType::KING, PlayerColor::BLACK),
    ];
    let board = BoardState::new(pieces, PlayerColor::BLACK, no_rights(), Some(4));
    let copy = board.duplicate();
    assert_eq!(copy.pieces.len(), board.pieces.len());
    assert_eq!(copy.player_to_move, PlayerColor::BLACK);
    assert_eq!(copy.can_take_en_passant, Some(4));
    assert_eq!(copy.castling_rules, board.castling_rules);
}

#[test]
fn move_plausibility_values_are_distinct() {
    assert_ne!(MovePlausibility::MOVE, MovePlausibility::TAKES);
    assert_ne!(MovePlausibility::MOVE, MovePlausibility::IMPOSSIBLE);
    assert_ne!(MovePlausibility::TAKES, MovePlausibility::IMPOSSIBLE);
}

#[test]
fn endgame_fixtures_are_well_formed() {
    let first = chess_core::game::GameContainer::test_board_1();
    assert_eq!(first.pieces.len(), 8);
    assert_eq!(first.player_to_move, PlayerColor::WHITE);
    assert!(first.get_piece_at_square(4, 0).is_some());
    assert!(first.get_piece_at_square(6, 4).is_some());
    let second = chess_core::game::GameContainer::test_board_2();
    assert_eq!(second.pieces.len(), 7);
    assert!(second.get_piece_at_square(6, 4).is_some());
    assert!(second.get_piece_at_square(6, 2).is_some());
    // both fixtures answer check queries for both colors
    let _ = first.is_check(Some(PlayerColor::WHITE));
    let _ = first.is_check(Some(PlayerColor::BLACK));
    let _ = second.is_check(Some(PlayerColor::WHITE));
    let _ = second.is_check(Some(PlayerColor::BLACK));
}

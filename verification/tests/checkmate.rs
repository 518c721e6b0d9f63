use chess_core::board::BoardState;
use chess_core::types::{CastlingRules, Piece, PieceType, PlayerColor};

fn no_rights() -> CastlingRules {
    CastlingRules::new(false, false, false, false)
}

fn corner_mate() -> BoardState {
    // a lone black king in the corner, the white queen and king closing in
    let pieces = vec![
        Piece::new(7, 7, PieceType::KING, PlayerColor::BLACK),
        Piece::new(6, 6, PieceType::QUEEN, PlayerColor::WHITE),
        Piece::new(5, 5, PieceType::KING, PlayerColor::WHITE),
    ];
    BoardState::new(pieces, PlayerColor::BLACK, no_rights(), None)
}

#[test]
fn cornered_king_is_checkmated() {
    let board = corner_mate();
    assert!(board.is_check(Some(PlayerColor::BLACK)));
    assert!(board.is_check(None));
    assert_eq!(board.get_all_legal_moves().len(), 0);
}

#[test]
fn cornered_king_cannot_take_the_defended_queen() {
    let board = corner_mate();
    let king = Piece::new(7, 7, PieceType::KING, PlayerColor::BLACK);
    // the capture is pseudo-legal but not legal: the queen is defended
    let plausible = board.get_plausible_moves(&king);
    let mut takes_queen = false;
    for mv in &plausible {
        if mv.to.x == 6 && mv.to.y == 6 {
            takes_queen = true;
        }
    }
    assert!(takes_queen);
    assert_eq!(board.get_legal_moves(&king).len(), 0);
}

#[test]
fn stalemate_is_terminal_but_not_check() {
    // the black king has no move, yet is not attacked
    let pieces = vec![
        Piece::new(7, 7, PieceType::KING, PlayerColor::BLACK),
        Piece::new(6, 5, PieceType::QUEEN, PlayerColor::WHITE),
        Piece::new(0, 0, PieceType::KING, PlayerColor::WHITE),
    ];
    let board = BoardState::new(pieces, PlayerColor::BLACK, no_rights(), None);
    assert!(!board.is_check(Some(PlayerColor::BLACK)));
    assert_eq!(board.get_all_legal_moves().len(), 0);
}

#[test]
fn a_king_with_room_is_not_checkmated() {
    let pieces = vec![
        Piece::new(7, 7, PieceType::KING, PlayerColor::BLACK),
        Piece::new(6, 6, PieceType::QUEEN, PlayerColor::WHITE),
        Piece::new(0, 0, PieceType::KING, PlayerColor::WHITE),
    ];
    let board = BoardState::new(pieces, PlayerColor::BLACK, no_rights(), None);
    assert!(board.is_check(Some(PlayerColor::BLACK)));
    // the undefended queen can be captured
    assert!(board.get_all_legal_moves().len() > 0);
}

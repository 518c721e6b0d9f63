use chess_core::game::GameContainer;
use chess_core::types::{PieceType, PlayerColor};

#[test]
fn opening_has_twenty_legal_moves_and_no_check() {
    let container = GameContainer::new();
    let board = container.get_board();
    let moves = board.get_all_legal_moves();
    assert_eq!(moves.len(), 20);
    assert!(!board.is_check(Some(PlayerColor::WHITE)));
    assert!(!board.is_check(None));
}

#[test]
fn opening_moves_are_pawn_and_knight_moves() {
    let container = GameContainer::new();
    let board = container.get_board();
    let moves = board.get_all_legal_moves();
    let mut pawn_moves: usize = 0;
    let mut knight_moves: usize = 0;
    for mv in &moves {
        assert_eq!(mv.from.color, PlayerColor::WHITE);
        match mv.from.piece_type {
            PieceType::PAWN => pawn_moves += 1,
            PieceType::KNIGHT => knight_moves += 1,
            _ => panic!("unexpected mover in the opening"),
        }
    }
    assert_eq!(pawn_moves, 16);
    assert_eq!(knight_moves, 4);
}

#[test]
fn opening_board_is_fully_populated() {
    let board = GameContainer::default_board();
    assert_eq!(board.pieces.len(), 32);
    assert_eq!(board.player_to_move, PlayerColor::WHITE);
    assert_eq!(board.can_take_en_passant, None);
    assert!(board.castling_rules.white_can_still_castle_k);
    assert!(board.castling_rules.white_can_still_castle_q);
    assert!(board.castling_rules.black_can_still_castle_k);
    assert!(board.castling_rules.black_can_still_castle_q);
    // the back ranks are occupied, so neither derived castling flag is set
    assert!(!board.can_castle_k_this_move);
    assert!(!board.can_castle_q_this_move);
    let wk = board.get_piece_at_square(4, 0).unwrap();
    assert_eq!(wk.piece_type, PieceType::KING);
    let bq = board.get_piece_at_square(3, 7).unwrap();
    assert_eq!(bq.piece_type, PieceType::QUEEN);
}

#[test]
fn all_plausible_destinations_stay_on_board() {
    let container = GameContainer::new();
    let board = container.get_board();
    let moves = board.get_all_plausible_moves();
    assert_eq!(moves.len(), 20);
    for mv in &moves {
        assert!(0 <= mv.to.x && mv.to.x < 8);
        assert!(0 <= mv.to.y && mv.to.y < 8);
    }
}

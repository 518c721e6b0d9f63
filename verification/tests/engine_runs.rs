use chess_core::board::BoardState;
use chess_core::engine::Engine;
use chess_core::types::{CastlingRules, ChessMove, Piece, PieceType, PlayerColor};

fn no_rights() -> CastlingRules {
    CastlingRules::new(false, false, false, false)
}

fn sample_move() -> ChessMove {
    ChessMove::new(
        Piece::new(0, 1, PieceType::PAWN, PlayerColor::WHITE),
        Piece::new(0, 2, PieceType::PAWN, PlayerColor::WHITE),
    )
}

#[test]
fn polling_spawns_once_and_returns_to_idle_on_a_result() {
    let mut engine = Engine::new();
    assert!(!engine.computing);
    // first poll, nothing received yet: spawn exactly one worker
    let first = engine.maybe_calculate_move(None);
    assert!(first.should_spawn);
    assert_eq!(first.result, None);
    assert!(engine.computing);
    // repeated polls before a result is ready never spawn a second worker
    let second = engine.maybe_calculate_move(None);
    assert!(!second.should_spawn);
    assert_eq!(second.result, None);
    assert!(engine.computing);
    let third = engine.maybe_calculate_move(None);
    assert!(!third.should_spawn);
    // the result arrives: hand it out and return to idle
    let done = engine.maybe_calculate_move(Some(sample_move()));
    assert!(!done.should_spawn);
    assert_eq!(done.result, Some(sample_move()));
    assert!(!engine.computing);
    // idle again: the next poll may spawn anew
    let again = engine.maybe_calculate_move(None);
    assert!(again.should_spawn);
}

#[test]
fn chosen_move_is_one_of_the_legal_moves() {
    let pieces = vec![
        Piece::new(0, 0, PieceType::KING, PlayerColor::WHITE),
        Piece::new(1, 1, PieceType::ROOK, PlayerColor::WHITE),
        Piece::new(7, 7, PieceType::KING, PlayerColor::BLACK),
    ];
    let board = BoardState::new(pieces, PlayerColor::WHITE, no_rights(), None);
    let chosen = Engine::compute_best_move(&board).expect("the position is not terminal");
    let legal = board.get_all_legal_moves();
    let mut found = false;
    for mv in &legal {
        if *mv == chosen {
            found = true;
        }
    }
    assert!(found);
}

#[test]
fn terminal_position_yields_no_move() {
    let pieces = vec![
        Piece::new(7, 7, PieceType::KING, PlayerColor::BLACK),
        Piece::new(6, 6, PieceType::QUEEN, PlayerColor::WHITE),
        Piece::new(5, 5, PieceType::KING, PlayerColor::WHITE),
    ];
    let board = BoardState::new(pieces, PlayerColor::BLACK, no_rights(), None);
    assert_eq!(Engine::compute_best_move(&board), None);
}

#[test]
fn evaluation_counts_material_in_tenths_of_a_pawn() {
    // a queen up, not in check, not terminal: exactly +9.0 pawns
    let pieces = vec![
        Piece::new(5, 5, PieceType::KING, PlayerColor::WHITE),
        Piece::new(6, 6, PieceType::QUEEN, PlayerColor::WHITE),
        Piece::new(7, 7, PieceType::KING, PlayerColor::BLACK),
    ];
    let board = BoardState::new(pieces, PlayerColor::WHITE, no_rights(), None);
    assert_eq!(Engine::static_position_evaluation(&board), 90);
}

#[test]
fn evaluation_adds_the_check_and_terminal_penalties() {
    // the same pieces with BLACK to move: checkmate against the side to move
    let pieces = vec![
        Piece::new(5, 5, PieceType::KING, PlayerColor::WHITE),
        Piece::new(6, 6, PieceType::QUEEN, PlayerColor::WHITE),
        Piece::new(7, 7, PieceType::KING, PlayerColor::BLACK),
    ];
    let board = BoardState::new(pieces, PlayerColor::BLACK, no_rights(), None);
    assert_eq!(Engine::static_position_evaluation(&board), 90 + 10 + 10000);
}

#[test]
fn evaluation_balances_to_zero_on_the_opening() {
    let board = chess_core::game::GameContainer::default_board();
    assert_eq!(Engine::static_position_evaluation(&board), 0);
}

#[test]
fn engine_takes_the_free_rook() {
    // white to move; the white rook is attacked by the black rook, and the
    // capture is the only move worth a full exchange at depth two
    let pieces = vec![
        Piece::new(0, 0, PieceType::KING, PlayerColor::WHITE),
        Piece::new(4, 4, PieceType::ROOK, PlayerColor::WHITE),
        Piece::new(4, 7, PieceType::ROOK, PlayerColor::BLACK),
        Piece::new(7, 7, PieceType::KING, PlayerColor::BLACK),
    ];
    let board = BoardState::new(pieces, PlayerColor::WHITE, no_rights(), None);
    let chosen = Engine::compute_best_move(&board).expect("the position is not terminal");
    assert_eq!(chosen.from.piece_type, PieceType::ROOK);
    assert_eq!((chosen.to.x, chosen.to.y), (4, 7));
}

#[test]
fn depth_zero_score_is_the_static_evaluation() {
    let pieces = vec![
        Piece::new(0, 0, PieceType::KING, PlayerColor::WHITE),
        Piece::new(1, 1, PieceType::ROOK, PlayerColor::WHITE),
        Piece::new(7, 7, PieceType::KING, PlayerColor::BLACK),
    ];
    let board = BoardState::new(pieces, PlayerColor::WHITE, no_rights(), None);
    assert_eq!(
        Engine::compute_position_score(&board, 0),
        Engine::static_position_evaluation(&board)
    );
}

#[test]
fn one_ply_search_finds_the_mate() {
    // white mates in one; the maximizing score is the mated position's
    // evaluation: 9.0 pawns of material plus the check and terminal terms
    let pieces = vec![
        Piece::new(7, 7, PieceType::KING, PlayerColor::BLACK),
        Piece::new(1, 6, PieceType::QUEEN, PlayerColor::WHITE),
        Piece::new(5, 5, PieceType::KING, PlayerColor::WHITE),
    ];
    let board = BoardState::new(pieces, PlayerColor::WHITE, no_rights(), None);
    assert_eq!(Engine::compute_position_score(&board, 1), 90 + 10 + 10000);
}

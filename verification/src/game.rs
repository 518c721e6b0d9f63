//! The game history — the append-only log of snapshots and moves and the
//! single mutation entry point — and the container that owns it, with the
//! standard opening position and two endgame fixtures.

use vstd::prelude::*;

use crate::board::{occupied, pieces_wf, BoardModel, BoardState};
use crate::check::{in_check, lemma_move_keeps_enemy_king, lemma_move_keeps_own_king, one_king};
use crate::legal::{has_legal_move, legal_move_of};
use crate::moves::is_plausible;
use crate::transition::{after_move_model, is_en_passant_capture, is_ep_victim};
use crate::types::{
    en_passant_rank, other, CastlingRules, ChessMove, MoveDescription, Piece, PieceType,
    PlayerColor,
};

verus! {

broadcast use vstd::seq_lib::lemma_seq_contains_after_push;

/// The append-only game log: all snapshots so far, and the moves between
/// consecutive ones. The last snapshot is the current position.
pub struct GameHistory {
    pub board_states: Vec<BoardState>,
    pub moves: Vec<ChessMove>,
}

/// Executing `mv` captures a piece: its destination square is occupied, or
/// it is an en-passant capture and the enemy pawn sits on the target square.
pub open spec fn captures_something(m: BoardModel, mv: ChessMove) -> bool {
    occupied(m, mv.to.x as int, mv.to.y as int) || (is_en_passant_capture(m, mv) && (exists|
        q: Piece,
    |
        (#[trigger] m.pieces.contains(q)) && is_ep_victim(mv, q)))
}

impl GameHistory {
    /// The log is well-formed: at least one snapshot, one move fewer than
    /// snapshots, and every snapshot well-formed.
    pub open spec fn wf(&self) -> bool {
        &&& self.board_states@.len() >= 1
        &&& self.moves@.len() + 1 == self.board_states@.len()
        &&& forall|i: int|
            0 <= i < self.board_states@.len() ==> (#[trigger] self.board_states@[i]).wf()
    }

    /// The model of the current position.
    pub open spec fn current(&self) -> BoardModel {
        self.board_states@[self.board_states@.len() - 1]@
    }

    /// Build a history from an initial (or replayed) sequence of snapshots
    /// and, optionally, the moves between them.
    pub fn new(board_states: Vec<BoardState>, moves: Option<Vec<ChessMove>>) -> (r: GameHistory)
        requires
            board_states@.len() >= 1,
            forall|i: int| 0 <= i < board_states@.len() ==> (#[trigger] board_states@[i]).wf(),
            match moves {
                Some(ms) => ms@.len() + 1 == board_states@.len(),
                None => board_states@.len() == 1,
            },
        ensures
            r.wf(),
            r.board_states@ == board_states@,
            r.moves@ == match moves {
                Some(ms) => ms@,
                None => Seq::<ChessMove>::empty(),
            },
    {
        let moves_unwrapped = match moves {
            Some(thing) => thing,
            None => Vec::<ChessMove>::new(),
        };
        GameHistory { board_states, moves: moves_unwrapped }
    }

    /// The current snapshot.
    pub fn get_board(&self) -> (r: &BoardState)
        requires
            self.wf(),
        ensures
            *r == self.board_states@[self.board_states@.len() - 1],
            r@ == self.current(),
            r.wf(),
    {
        &self.board_states[self.board_states.len() - 1]
    }

    /// Append `mv` — which must be legal on the current position, whose two
    /// kings must be unique and whose side not to move must not already be
    /// in check — and the snapshot it produces; report whether the move
    /// captured, and whether the new position is check and terminal.
    /// `was_checkmate` is set for any position without legal replies,
    /// stalemate included; `was_check` tells the two apart.
    pub fn execute_move(&mut self, mv: ChessMove) -> (desc: MoveDescription)
        requires
            old(self).wf(),
            one_king(old(self).current(), PlayerColor::WHITE),
            one_king(old(self).current(), PlayerColor::BLACK),
            !in_check(old(self).current(), other(old(self).current().player_to_move)),
            legal_move_of(old(self).current(), mv),
        ensures
            final(self).wf(),
            final(self).moves@ == old(self).moves@.push(mv),
            final(self).board_states@.len() == old(self).board_states@.len() + 1,
            forall|i: int|
                0 <= i < old(self).board_states@.len() ==> final(self).board_states@[i] == old(
                    self,
                ).board_states@[i],
            final(self).current() == after_move_model(old(self).current(), mv),
            desc.was_takes == captures_something(old(self).current(), mv),
            desc.was_check == in_check(final(self).current(), final(self).current().player_to_move),
            desc.was_checkmate == !has_legal_move(final(self).current()),
            one_king(final(self).current(), PlayerColor::WHITE),
            one_king(final(self).current(), PlayerColor::BLACK),
            !in_check(final(self).current(), other(final(self).current().player_to_move)),
    {
        let ghost cur = old(self).current();
        let n = self.board_states.len();
        let current = &self.board_states[n - 1];
        let mover = current.player_to_move;
        let direct_capture = match current.get_piece_at_square(mv.to.x, mv.to.y) {
            Some(_) => true,
            None => false,
        };
        let was_takes = if direct_capture {
            proof {
                assert(occupied(cur, mv.to.x as int, mv.to.y as int));
            }
            true
        } else {
            let is_ep = match current.can_take_en_passant {
                Some(f) => mv.to.piece_type == PieceType::PAWN && mv.to.x == f && ((mv.to.color
                    == PlayerColor::WHITE && mv.from.y == 4) || (mv.to.color == PlayerColor::BLACK
                    && mv.from.y == 3)),
                None => false,
            };
            proof {
                assert(is_ep == is_en_passant_capture(cur, mv));
            }
            if is_ep {
                let victim_rank: i8 = if mv.to.color == PlayerColor::WHITE {
                    4
                } else {
                    3
                };
                match current.get_piece_at_square(mv.to.x, victim_rank) {
                    Some(q) => {
                        let hit = q.piece_type == PieceType::PAWN && q.color
                            == PlayerColor::opposite(mv.to.color);
                        proof {
                            if !hit {
                                assert forall|v: Piece|
                                    (#[trigger] cur.pieces.contains(v)) implies !is_ep_victim(
                                    mv,
                                    v,
                                ) by {
                                    if is_ep_victim(mv, v) && v != q {
                                        let a = choose|a: int|
                                            0 <= a < cur.pieces.len() && cur.pieces[a] == v;
                                        let b = choose|b: int|
                                            0 <= b < cur.pieces.len() && cur.pieces[b] == q;
                                        assert(cur.pieces[a] == v && cur.pieces[b] == q);
                                    }
                                }
                            }
                        }
                        hit
                    },
                    None => {
                        proof {
                            assert forall|v: Piece|
                                (#[trigger] cur.pieces.contains(v)) implies !is_ep_victim(
                                mv,
                                v,
                            ) by {
                                if is_ep_victim(mv, v) {
                                    assert(occupied(
                                        cur,
                                        mv.to.x as int,
                                        en_passant_rank(mv.to.color),
                                    ));
                                }
                            }
                        }
                        false
                    },
                }
            } else {
                false
            }
        };
        proof {
            assert(was_takes == captures_something(cur, mv));
            assert(mv.from.color == mover);
            lemma_move_keeps_own_king(cur, mv, mover);
            lemma_move_keeps_enemy_king(cur, mv, other(mover));
        }
        let board_after = current.after_move(mv);
        let legal_after = board_after.get_all_legal_moves();
        let was_checkmate = legal_after.len() == 0;
        proof {
            if legal_after@.len() > 0 {
                assert(legal_after@.contains(legal_after@[0]));
                assert(legal_move_of(board_after@, legal_after@[0]));
            }
            if has_legal_move(board_after@) {
                let w = choose|w: ChessMove| #[trigger] legal_move_of(board_after@, w);
                assert(legal_after@.contains(w));
            }
        }
        let was_check = board_after.is_check(None);
        self.moves.push(mv);
        self.board_states.push(board_after);
        proof {
            assert(self.board_states@[self.board_states@.len() - 1] == board_after);
            assert forall|i: int|
                0 <= i < self.board_states@.len() implies (
            #[trigger] self.board_states@[i]).wf() by {
                if i < self.board_states@.len() - 1 {
                    assert(self.board_states@[i] == old(self).board_states@[i]);
                }
            }
        }
        MoveDescription { was_takes, was_check, was_checkmate }
    }
}

/// The owner of a running game: holds the history and exposes the current
/// board, move submission, and the fixture constructors.
pub struct GameContainer {
    pub history: GameHistory,
}

impl GameContainer {
    /// A new game from the standard opening position, WHITE to move.
    pub fn new() -> (r: GameContainer)
        ensures
            r.history.wf(),
            r.history.board_states@.len() == 1,
            r.history.moves@.len() == 0,
            r.history.current() == opening_model(),
            one_king(r.history.current(), PlayerColor::WHITE),
            one_king(r.history.current(), PlayerColor::BLACK),
            !in_check(r.history.current(), PlayerColor::WHITE),
            !in_check(r.history.current(), PlayerColor::BLACK),
    {
        let board = GameContainer::default_board();
        let mut states: Vec<BoardState> = Vec::new();
        states.push(board);
        let history = GameHistory::new(states, None);
        GameContainer { history }
    }

    /// Submit a pre-validated move; see `GameHistory::execute_move`.
    pub fn execute_move(&mut self, mv: ChessMove) -> (desc: MoveDescription)
        requires
            old(self).history.wf(),
            one_king(old(self).history.current(), PlayerColor::WHITE),
            one_king(old(self).history.current(), PlayerColor::BLACK),
            !in_check(
                old(self).history.current(),
                other(old(self).history.current().player_to_move),
            ),
            legal_move_of(old(self).history.current(), mv),
        ensures
            final(self).history.wf(),
            final(self).history.current() == after_move_model(old(self).history.current(), mv),
            desc.was_takes == captures_something(old(self).history.current(), mv),
            desc.was_check == in_check(
                final(self).history.current(),
                final(self).history.current().player_to_move,
            ),
            desc.was_checkmate == !has_legal_move(final(self).history.current()),
            one_king(final(self).history.current(), PlayerColor::WHITE),
            one_king(final(self).history.current(), PlayerColor::BLACK),
            !in_check(
                final(self).history.current(),
                other(final(self).history.current().player_to_move),
            ),
    {
        self.history.execute_move(mv)
    }

    /// An owned copy of the current board, for rendering or for handing to
    /// the search engine.
    pub fn get_board(&self) -> (r: BoardState)
        requires
            self.history.wf(),
        ensures
            r@ == self.history.current(),
            r.wf(),
    {
        self.history.get_board().duplicate()
    }

    /// An endgame fixture: white rooks, queen and knight against the black
    /// king, a black bishop and a black pawn; WHITE to move.
    pub fn test_board_1() -> (r: BoardState)
        ensures
            r.wf(),
            r@.player_to_move == PlayerColor::WHITE,
            r@.en_passant_file is None,
            one_king(r@, PlayerColor::WHITE),
            one_king(r@, PlayerColor::BLACK),
    {
        let mut pieces: Vec<Piece> = Vec::new();
        pieces.push(Piece::new(1, 4, PieceType::KNIGHT, PlayerColor::WHITE));
        pieces.push(Piece::new(6, 4, PieceType::KING, PlayerColor::BLACK));
        pieces.push(Piece::new(0, 0, PieceType::ROOK, PlayerColor::WHITE));
        pieces.push(Piece::new(7, 0, PieceType::ROOK, PlayerColor::WHITE));
        pieces.push(Piece::new(3, 2, PieceType::QUEEN, PlayerColor::WHITE));
        pieces.push(Piece::new(4, 0, PieceType::KING, PlayerColor::WHITE));
        pieces.push(Piece::new(5, 3, PieceType::BISHOP, PlayerColor::BLACK));
        pieces.push(Piece::new(6, 6, PieceType::PAWN, PlayerColor::BLACK));
        let r = BoardState::new(
            pieces,
            PlayerColor::WHITE,
            CastlingRules::new(false, false, false, false),
            None,
        );
        proof {
            lemma_fixture_kings(r@, 5, 1);
        }
        r
    }

    /// A second endgame fixture: both kings in the middlegame ruins; WHITE
    /// to move.
    pub fn test_board_2() -> (r: BoardState)
        ensures
            r.wf(),
            r@.player_to_move == PlayerColor::WHITE,
            r@.en_passant_file is None,
            one_king(r@, PlayerColor::WHITE),
            one_king(r@, PlayerColor::BLACK),
    {
        let mut pieces: Vec<Piece> = Vec::new();
        pieces.push(Piece::new(1, 4, PieceType::KNIGHT, PlayerColor::WHITE));
        pieces.push(Piece::new(6, 4, PieceType::KING, PlayerColor::WHITE));
        pieces.push(Piece::new(5, 3, PieceType::ROOK, PlayerColor::WHITE));
        pieces.push(Piece::new(3, 1, PieceType::QUEEN, PlayerColor::WHITE));
        pieces.push(Piece::new(6, 2, PieceType::KING, PlayerColor::BLACK));
        pieces.push(Piece::new(4, 4, PieceType::BISHOP, PlayerColor::BLACK));
        pieces.push(Piece::new(6, 6, PieceType::PAWN, PlayerColor::BLACK));
        let r = BoardState::new(
            pieces,
            PlayerColor::WHITE,
            CastlingRules::new(false, false, false, false),
            None,
        );
        proof {
            lemma_fixture_kings(r@, 1, 4);
        }
        r
    }

    /// The standard opening position, all castling rights set, WHITE to
    /// move.
    pub fn default_board() -> (r: BoardState)
        ensures
            r@ == opening_model(),
            r.wf(),
            one_king(r@, PlayerColor::WHITE),
            one_king(r@, PlayerColor::BLACK),
            !in_check(r@, PlayerColor::WHITE),
            !in_check(r@, PlayerColor::BLACK),
    {
        proof {
            lemma_opening_no_check();
        }
        let mut pieces: Vec<Piece> = Vec::new();
        let mut i: i8 = 0;
        while i < 8
            invariant
                0 <= i <= 8,
                pieces@.len() == i as int,
                forall|k: int|
                    0 <= k < i as int ==> #[trigger] pieces@[k] == (Piece {
                        x: k as i8,
                        y: 1,
                        piece_type: PieceType::PAWN,
                        color: PlayerColor::WHITE,
                    }),
            decreases 8 - i,
        {
            pieces.push(Piece::new(i, 1, PieceType::PAWN, PlayerColor::WHITE));
            i = i + 1;
        }
        pieces.push(Piece::new(0, 0, PieceType::ROOK, PlayerColor::WHITE));
        pieces.push(Piece::new(7, 0, PieceType::ROOK, PlayerColor::WHITE));
        pieces.push(Piece::new(2, 0, PieceType::BISHOP, PlayerColor::WHITE));
        pieces.push(Piece::new(5, 0, PieceType::BISHOP, PlayerColor::WHITE));
        pieces.push(Piece::new(1, 0, PieceType::KNIGHT, PlayerColor::WHITE));
        pieces.push(Piece::new(6, 0, PieceType::KNIGHT, PlayerColor::WHITE));
        pieces.push(Piece::new(4, 0, PieceType::KING, PlayerColor::WHITE));
        pieces.push(Piece::new(3, 0, PieceType::QUEEN, PlayerColor::WHITE));
        let mut i: i8 = 0;
        while i < 8
            invariant
                0 <= i <= 8,
                pieces@.len() == 16 + i as int,
                forall|k: int|
                    0 <= k < 16 ==> #[trigger] pieces@[k] == opening_model().pieces[k],
                forall|k: int|
                    16 <= k < 16 + i as int ==> #[trigger] pieces@[k] == (Piece {
                        x: (k - 16) as i8,
                        y: 6,
                        piece_type: PieceType::PAWN,
                        color: PlayerColor::BLACK,
                    }),
            decreases 8 - i,
        {
            pieces.push(Piece::new(i, 6, PieceType::PAWN, PlayerColor::BLACK));
            i = i + 1;
        }
        pieces.push(Piece::new(0, 7, PieceType::ROOK, PlayerColor::BLACK));
        pieces.push(Piece::new(7, 7, PieceType::ROOK, PlayerColor::BLACK));
        pieces.push(Piece::new(2, 7, PieceType::BISHOP, PlayerColor::BLACK));
        pieces.push(Piece::new(5, 7, PieceType::BISHOP, PlayerColor::BLACK));
        pieces.push(Piece::new(1, 7, PieceType::KNIGHT, PlayerColor::BLACK));
        pieces.push(Piece::new(6, 7, PieceType::KNIGHT, PlayerColor::BLACK));
        pieces.push(Piece::new(4, 7, PieceType::KING, PlayerColor::BLACK));
        pieces.push(Piece::new(3, 7, PieceType::QUEEN, PlayerColor::BLACK));
        proof {
            assert(pieces@ =~= opening_model().pieces);
            lemma_opening_wf();
        }
        BoardState::new(
            pieces,
            PlayerColor::WHITE,
            CastlingRules::new(true, true, true, true),
            None,
        )
    }
}

/// The model of the standard opening position.
pub open spec fn opening_model() -> BoardModel {
    BoardModel {
        pieces: opening_pieces(),
        player_to_move: PlayerColor::WHITE,
        rights: CastlingRules {
            white_can_still_castle_q: true,
            white_can_still_castle_k: true,
            black_can_still_castle_q: true,
            black_can_still_castle_k: true,
        },
        en_passant_file: None,
    }
}

/// The thirty-two pieces of the standard opening position: each side's eight
/// pawns one rank before its back rank, and its back-rank pieces.
pub open spec fn opening_pieces() -> Seq<Piece> {
    Seq::new(32, |k: int| opening_piece(k))
}

/// Piece `k` of the standard opening: 0-7 the white pawns, 8-15 the white
/// back rank, 16-23 the black pawns, 24-31 the black back rank.
pub open spec fn opening_piece(k: int) -> Piece {
    if k < 8 {
        Piece { x: k as i8, y: 1, piece_type: PieceType::PAWN, color: PlayerColor::WHITE }
    } else if k < 16 {
        Piece { x: home_file(k - 8), y: 0, piece_type: home_type(k - 8), color: PlayerColor::WHITE }
    } else if k < 24 {
        Piece { x: (k - 16) as i8, y: 6, piece_type: PieceType::PAWN, color: PlayerColor::BLACK }
    } else {
        Piece { x: home_file(k - 24), y: 7, piece_type: home_type(k - 24), color: PlayerColor::BLACK }
    }
}

/// The files of one back rank, in the order the pieces are laid out.
pub open spec fn home_file(j: int) -> i8 {
    if j == 0 {
        0
    } else if j == 1 {
        7
    } else if j == 2 {
        2
    } else if j == 3 {
        5
    } else if j == 4 {
        1
    } else if j == 5 {
        6
    } else if j == 6 {
        4
    } else {
        3
    }
}

/// The piece kinds of one back rank, matching `home_file`.
pub open spec fn home_type(j: int) -> PieceType {
    if j == 0 || j == 1 {
        PieceType::ROOK
    } else if j == 2 || j == 3 {
        PieceType::BISHOP
    } else if j == 4 || j == 5 {
        PieceType::KNIGHT
    } else if j == 6 {
        PieceType::KING
    } else {
        PieceType::QUEEN
    }
}

/// A fixture whose only kings stand at indices `wi` (white) and `bi`
/// (black) has exactly one king per color.
proof fn lemma_fixture_kings(m: BoardModel, wi: int, bi: int)
    requires
        0 <= wi < m.pieces.len(),
        0 <= bi < m.pieces.len(),
        crate::check::is_king_of(m.pieces[wi], PlayerColor::WHITE),
        crate::check::is_king_of(m.pieces[bi], PlayerColor::BLACK),
        forall|i: int|
            0 <= i < m.pieces.len() && i != wi && i != bi ==> (#[trigger] m.pieces[i]).piece_type
                != PieceType::KING,
    ensures
        one_king(m, PlayerColor::WHITE),
        one_king(m, PlayerColor::BLACK),
{
    let wk = m.pieces[wi];
    let bk = m.pieces[bi];
    assert(m.pieces.contains(wk));
    assert(m.pieces.contains(bk));
    assert forall|q: Piece|
        #[trigger] m.pieces.contains(q) && crate::check::is_king_of(
            q,
            PlayerColor::WHITE,
        ) implies q == wk by {
        let i = choose|i: int| 0 <= i < m.pieces.len() && m.pieces[i] == q;
        assert(i == wi || i == bi || m.pieces[i].piece_type != PieceType::KING);
    }
    assert forall|q: Piece|
        #[trigger] m.pieces.contains(q) && crate::check::is_king_of(
            q,
            PlayerColor::BLACK,
        ) implies q == bk by {
        let i = choose|i: int| 0 <= i < m.pieces.len() && m.pieces[i] == q;
        assert(i == wi || i == bi || m.pieces[i].piece_type != PieceType::KING);
    }
}

/// The opening position is well-formed and has exactly one king per color.
proof fn lemma_opening_wf()
    ensures
        pieces_wf(opening_pieces()),
        one_king(opening_model(), PlayerColor::WHITE),
        one_king(opening_model(), PlayerColor::BLACK),
{
    let s = opening_pieces();
    assert forall|i: int, j: int|
        #![trigger s[i], s[j]]
        0 <= i < s.len() && 0 <= j < s.len() && i != j implies !(s[i].x == s[j].x && s[i].y
        == s[j].y) by {
        assert(s[i] == opening_piece(i));
        assert(s[j] == opening_piece(j));
    }
    assert forall|i: int| 0 <= i < s.len() implies crate::types::piece_in_bounds(
        #[trigger] s[i],
    ) by {
        assert(s[i] == opening_piece(i));
    }
    let wk = opening_piece(14);
    assert(s[14] == wk);
    assert(opening_model().pieces.contains(wk));
    assert forall|q: Piece|
        #[trigger] opening_model().pieces.contains(q) && crate::check::is_king_of(
            q,
            PlayerColor::WHITE,
        ) implies q == wk by {
        let i = choose|i: int| 0 <= i < s.len() && s[i] == q;
        assert(s[i] == opening_piece(i));
    }
    let bk = opening_piece(30);
    assert(s[30] == bk);
    assert(opening_model().pieces.contains(bk));
    assert forall|q: Piece|
        #[trigger] opening_model().pieces.contains(q) && crate::check::is_king_of(
            q,
            PlayerColor::BLACK,
        ) implies q == bk by {
        let i = choose|i: int| 0 <= i < s.len() && s[i] == q;
        assert(s[i] == opening_piece(i));
    }
}

/// No piece standing in the opening position has a pseudo-legal move onto
/// either king's square: the pawn walls are too short, the back-rank pieces
/// are boxed in, and the kings face each other across six empty ranks.
proof fn lemma_no_opening_attack(m: BoardModel, mv: ChessMove)
    requires
        m == opening_model(),
        m.pieces.contains(mv.from),
        is_plausible(m, mv.from, mv),
    ensures
        !(mv.to.x == 4 && mv.to.y == 7 && mv.from.color == PlayerColor::WHITE),
        !(mv.to.x == 4 && mv.to.y == 0 && mv.from.color == PlayerColor::BLACK),
{
    let i = choose|i: int| 0 <= i < m.pieces.len() && m.pieces[i] == mv.from;
    assert(m.pieces[i] == opening_piece(i));
}

/// In the opening position neither side is in check.
proof fn lemma_opening_no_check()
    ensures
        !in_check(opening_model(), PlayerColor::WHITE),
        !in_check(opening_model(), PlayerColor::BLACK),
{
    let m = opening_model();
    lemma_opening_wf();
    let wk = opening_piece(14);
    let bk = opening_piece(30);
    assert(m.pieces[14] == wk);
    assert(m.pieces.contains(wk));
    assert(m.pieces[30] == bk);
    assert(m.pieces.contains(bk));
    assert(crate::check::is_king_of(wk, PlayerColor::WHITE));
    assert(crate::check::is_king_of(bk, PlayerColor::BLACK));
    assert(crate::check::king_of(m, PlayerColor::WHITE) == wk);
    assert(crate::check::king_of(m, PlayerColor::BLACK) == bk);
    if in_check(m, PlayerColor::WHITE) {
        let mv = choose|mv: ChessMove|
            m.pieces.contains(mv.from) && mv.from.color == other(PlayerColor::WHITE) && (
            #[trigger] is_plausible(m, mv.from, mv)) && mv.to.x == wk.x && mv.to.y == wk.y;
        lemma_no_opening_attack(m, mv);
    }
    if in_check(m, PlayerColor::BLACK) {
        let mv = choose|mv: ChessMove|
            m.pieces.contains(mv.from) && mv.from.color == other(PlayerColor::BLACK) && (
            #[trigger] is_plausible(m, mv.from, mv)) && mv.to.x == bk.x && mv.to.y == bk.y;
        lemma_no_opening_attack(m, mv);
    }
}

} // verus!

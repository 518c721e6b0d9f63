//! The state transition: applying one already-validated move to a snapshot,
//! as a single transaction that also covers the en-passant removal and the
//! rook relocation of castling, the castling-rights bookkeeping, the new
//! en-passant target, and the turn flip.

use vstd::prelude::*;

use crate::board::{all_in_bounds, occupied, pieces_wf, BoardModel, BoardState};
use crate::moves::{castle_move_ok, is_plausible, king_step_shape, shape_ok};
use crate::types::{
    back_rank, en_passant_rank, kingside_castle_shape, other, piece_in_bounds,
    queenside_castle_shape, CastlingRules, ChessMove, Piece, PieceType, PlayerColor,
};

verus! {

broadcast use vstd::seq_lib::lemma_seq_contains_after_push, vstd::prelude::Seq::lemma_filter_push;

/// `mv` captures en passant on board `m`: a target file is set, a pawn moves
/// onto that file, and it starts from the capturing rank of its color.
pub open spec fn is_en_passant_capture(m: BoardModel, mv: ChessMove) -> bool {
    &&& m.en_passant_file == Some(mv.to.x)
    &&& mv.to.piece_type == PieceType::PAWN
    &&& mv.from.y as int == en_passant_rank(mv.to.color)
}

/// `q` is the pawn an en-passant capture by `mv` removes: the enemy pawn on
/// the target file, beside the capturing pawn's starting square.
pub open spec fn is_ep_victim(mv: ChessMove, q: Piece) -> bool {
    &&& q.piece_type == PieceType::PAWN
    &&& q.color == other(mv.to.color)
    &&& q.x == mv.to.x
    &&& q.y as int == en_passant_rank(mv.to.color)
}

/// `q` survives the move `mv`: it stands neither on the vacated square, nor
/// on the destination, nor is it the en-passant victim, nor the castling
/// rook's corner occupant.
pub open spec fn keep_piece(m: BoardModel, mv: ChessMove, q: Piece) -> bool {
    &&& !(q.x == mv.from.x && q.y == mv.from.y)
    &&& !(q.x == mv.to.x && q.y == mv.to.y)
    &&& !(is_en_passant_capture(m, mv) && is_ep_victim(mv, q))
    &&& !(kingside_castle_shape(mv) && q.x == 7 && q.y == mv.from.y)
    &&& !(queenside_castle_shape(mv) && q.x == 0 && q.y == mv.from.y)
}

/// Moving the king, or moving a rook off the kingside corner of its color's
/// home rank, forfeits that color's kingside castling right.
pub open spec fn breaks_castling_k(mv: ChessMove) -> bool {
    mv.from.piece_type == PieceType::KING || (mv.from.piece_type == PieceType::ROOK && mv.from.x
        == 7 && mv.from.y as int == back_rank(mv.from.color))
}

/// As `breaks_castling_k`, for the queenside corner.
pub open spec fn breaks_castling_q(mv: ChessMove) -> bool {
    mv.from.piece_type == PieceType::KING || (mv.from.piece_type == PieceType::ROOK && mv.from.x
        == 0 && mv.from.y as int == back_rank(mv.from.color))
}

/// The castling rights after `mv`: the mover's side loses a right forever
/// when its king or the matching rook moves; rights never turn back on.
pub open spec fn rights_after(r: CastlingRules, mv: ChessMove) -> CastlingRules {
    let white = mv.from.color == PlayerColor::WHITE;
    CastlingRules {
        white_can_still_castle_q: r.white_can_still_castle_q && !(white && breaks_castling_q(mv)),
        white_can_still_castle_k: r.white_can_still_castle_k && !(white && breaks_castling_k(mv)),
        black_can_still_castle_q: r.black_can_still_castle_q && !(!white && breaks_castling_q(mv)),
        black_can_still_castle_k: r.black_can_still_castle_k && !(!white && breaks_castling_k(mv)),
    }
}

/// The en-passant target after `mv`: the moved pawn's file for a two-square
/// push from its home rank, otherwise none.
pub open spec fn ep_after(mv: ChessMove) -> Option<i8> {
    if mv.from.piece_type == PieceType::PAWN && ((mv.from.color == PlayerColor::WHITE && mv.from.y
        == 1 && mv.to.y == 3) || (mv.from.color == PlayerColor::BLACK && mv.from.y == 6 && mv.to.y
        == 4)) {
        Some(mv.from.x)
    } else {
        None
    }
}

/// The kingside rook's post-castle square on rank `y`.
pub open spec fn rook_after_kingside(mv: ChessMove) -> Piece {
    Piece { x: 5, y: mv.from.y, piece_type: PieceType::ROOK, color: mv.from.color }
}

/// The queenside rook's post-castle square on rank `y`.
pub open spec fn rook_after_queenside(mv: ChessMove) -> Piece {
    Piece { x: 3, y: mv.from.y, piece_type: PieceType::ROOK, color: mv.from.color }
}

/// The board after `mv`: the surviving pieces plus the moved piece (and, for
/// castling, the relocated rook), updated rights and en-passant target, and
/// the turn flipped exactly once.
pub open spec fn after_move_model(m: BoardModel, mv: ChessMove) -> BoardModel {
    let kept = m.pieces.filter(|q: Piece| keep_piece(m, mv, q));
    let pieces = if kingside_castle_shape(mv) {
        kept.push(mv.to).push(rook_after_kingside(mv))
    } else if queenside_castle_shape(mv) {
        kept.push(mv.to).push(rook_after_queenside(mv))
    } else {
        kept.push(mv.to)
    };
    BoardModel {
        pieces,
        player_to_move: other(m.player_to_move),
        rights: rights_after(m.rights, mv),
        en_passant_file: ep_after(mv),
    }
}

/// Filtering keeps exactly the contained elements that satisfy the
/// predicate, and preserves one-piece-per-square and in-bounds.
pub proof fn lemma_filter_keeps(s: Seq<Piece>, pred: spec_fn(Piece) -> bool)
    requires
        pieces_wf(s),
    ensures
        forall|q: Piece| #[trigger] s.filter(pred).contains(q) <==> s.contains(q) && pred(q),
        pieces_wf(s.filter(pred)),
    decreases s.len(),
{
    reveal(Seq::filter);
    let out = s.filter(pred);
    if s.len() == 0 {
        assert(out.len() == 0);
        assert forall|q: Piece| #[trigger] out.contains(q) <==> s.contains(q) && pred(q) by {
            if s.contains(q) {
                let i = choose|i: int| 0 <= i < s.len() && s[i] == q;
            }
        }
    } else {
        let rest = s.drop_last();
        let last = s.last();
        assert(pieces_wf(rest)) by {
            assert(forall|i: int| 0 <= i < rest.len() ==> rest[i] == s[i]);
        }
        lemma_filter_keeps(rest, pred);
        let fr = rest.filter(pred);
        assert(out == if pred(last) {
            fr.push(last)
        } else {
            fr
        });
        assert forall|q: Piece| #[trigger] out.contains(q) implies s.contains(q) && pred(q) by {
            if fr.contains(q) {
                assert(rest.contains(q) && pred(q));
                let i = choose|i: int| 0 <= i < rest.len() && rest[i] == q;
                assert(s[i] == q);
            } else {
                assert(pred(last) && q == last);
                assert(s[s.len() - 1] == q);
            }
        }
        assert forall|q: Piece| s.contains(q) && pred(q) implies #[trigger] out.contains(q) by {
            let i = choose|i: int| 0 <= i < s.len() && s[i] == q;
            if i < s.len() - 1 {
                assert(rest[i] == q);
                assert(rest.contains(q));
            } else {
                assert(q == last);
            }
        }
        if pred(last) {
            assert forall|i: int, j: int|
                #![trigger out[i], out[j]]
                0 <= i < out.len() && 0 <= j < out.len() && i != j implies !(out[i].x == out[j].x
                && out[i].y == out[j].y) by {
                if i < fr.len() && j < fr.len() {
                    assert(fr[i] == out[i] && fr[j] == out[j]);
                } else {
                    let a = if i < fr.len() {
                        i
                    } else {
                        j
                    };
                    assert(out[a] == fr[a]);
                    assert(fr.contains(fr[a]));
                    assert(rest.contains(fr[a]));
                    let k = choose|k: int| 0 <= k < rest.len() && rest[k] == fr[a];
                    assert(s[k] == fr[a]);
                    assert(s[s.len() - 1] == last);
                    assert(!(s[k].x == last.x && s[k].y == last.y));
                }
            }
            assert(all_in_bounds(out)) by {
                assert forall|i: int| 0 <= i < out.len() implies piece_in_bounds(#[trigger] out[i]) by {
                    if i < fr.len() {
                        assert(out[i] == fr[i]);
                    } else {
                        assert(out[i] == last);
                        assert(s[s.len() - 1] == last);
                    }
                }
            }
        }
    }
}

/// Castling rights never turn back on: each flag set after a move was
/// already set before it.
pub proof fn lemma_castling_rights_monotonic(m: BoardModel, mv: ChessMove)
    ensures
        after_move_model(m, mv).rights.white_can_still_castle_k
            ==> m.rights.white_can_still_castle_k,
        after_move_model(m, mv).rights.white_can_still_castle_q
            ==> m.rights.white_can_still_castle_q,
        after_move_model(m, mv).rights.black_can_still_castle_k
            ==> m.rights.black_can_still_castle_k,
        after_move_model(m, mv).rights.black_can_still_castle_q
            ==> m.rights.black_can_still_castle_q,
{
}

/// A two-square pawn push from its home rank sets the en-passant target to
/// the pawn's file; every other move clears it.
pub proof fn lemma_double_push_sets_en_passant(m: BoardModel, mv: ChessMove)
    ensures
        (mv.from.piece_type == PieceType::PAWN && ((mv.from.color == PlayerColor::WHITE
            && mv.from.y == 1 && mv.to.y == 3) || (mv.from.color == PlayerColor::BLACK && mv.from.y
            == 6 && mv.to.y == 4))) ==> after_move_model(m, mv).en_passant_file == Some(mv.from.x),
        !(mv.from.piece_type == PieceType::PAWN && ((mv.from.color == PlayerColor::WHITE
            && mv.from.y == 1 && mv.to.y == 3) || (mv.from.color == PlayerColor::BLACK && mv.from.y
            == 6 && mv.to.y == 4))) ==> after_move_model(m, mv).en_passant_file is None,
{
}

impl BoardState {
    /// The snapshot after applying `mv`, which the caller must already have
    /// validated; castling relocates both the king and its rook in this one
    /// transaction, and the turn flips exactly once.
    pub fn after_move(&self, mv: ChessMove) -> (r: BoardState)
        requires
            self.wf(),
            is_plausible(self@, mv.from, mv),
        ensures
            r@ == after_move_model(self@, mv),
            r.wf(),
    {
        let ghost m = self@;
        let ghost pred = |q: Piece| keep_piece(m, mv, q);
        let has_taken_en_passant = match self.can_take_en_passant {
            Some(f) => mv.to.piece_type == PieceType::PAWN && mv.to.x == f && ((mv.to.color
                == PlayerColor::WHITE && mv.from.y == 4) || (mv.to.color == PlayerColor::BLACK
                && mv.from.y == 3)),
            None => false,
        };
        proof {
            assert(has_taken_en_passant == is_en_passant_capture(m, mv));
        }
        let did_k_castle = mv.is_king_side_castles();
        let did_q_castle = mv.is_queen_side_castles();
        let victim_rank: i8 = if mv.to.color == PlayerColor::WHITE {
            4
        } else {
            3
        };
        let n = self.pieces.len();
        let mut pieces: Vec<Piece> = Vec::new();
        let mut i: usize = 0;
        while i < n
            invariant
                n == self.pieces.len(),
                i <= n,
                pieces@ == self.pieces@.take(i as int).filter(pred),
                pred == (|q: Piece| keep_piece(m, mv, q)),
                m == self@,
                has_taken_en_passant == is_en_passant_capture(m, mv),
                did_k_castle == kingside_castle_shape(mv),
                did_q_castle == queenside_castle_shape(mv),
                victim_rank as int == en_passant_rank(mv.to.color),
            decreases n - i,
        {
            let q = self.pieces[i];
            let mut keep = !(q.x == mv.from.x && q.y == mv.from.y) && !(q.x == mv.to.x && q.y
                == mv.to.y);
            if has_taken_en_passant && q.piece_type == PieceType::PAWN && q.color
                == PlayerColor::opposite(mv.to.color) && q.x == mv.to.x && q.y == victim_rank {
                keep = false;
            }
            if did_k_castle && q.x == 7 && q.y == mv.from.y {
                keep = false;
            }
            if did_q_castle && q.x == 0 && q.y == mv.from.y {
                keep = false;
            }
            proof {
                assert(keep == keep_piece(m, mv, q));
                assert(self.pieces@.take(i + 1 as int).drop_last() =~= self.pieces@.take(i as int));
                assert(self.pieces@.take(i + 1 as int) =~= self.pieces@.take(i as int).push(q));
            }
            if keep {
                pieces.push(q);
            }
            i = i + 1;
        }
        proof {
            assert(self.pieces@.take(n as int) =~= self.pieces@);
            lemma_filter_keeps(m.pieces, pred);
        }
        pieces.push(mv.to);
        if did_k_castle {
            pieces.push(Piece::new(5, mv.from.y, PieceType::ROOK, mv.from.color));
        }
        if did_q_castle {
            pieces.push(Piece::new(3, mv.from.y, PieceType::ROOK, mv.from.color));
        }
        proof {
            lemma_after_pieces_wf(m, mv, pieces@);
        }
        let rights = CastlingRules::new(
            self.castling_rules.white_can_still_castle_q && !(mv.from.color == PlayerColor::WHITE
                && breaks_q_exec(mv)),
            self.castling_rules.white_can_still_castle_k && !(mv.from.color == PlayerColor::WHITE
                && breaks_k_exec(mv)),
            self.castling_rules.black_can_still_castle_q && !(mv.from.color == PlayerColor::BLACK
                && breaks_q_exec(mv)),
            self.castling_rules.black_can_still_castle_k && !(mv.from.color == PlayerColor::BLACK
                && breaks_k_exec(mv)),
        );
        let mut can_take_en_passant: Option<i8> = None;
        if mv.from.piece_type == PieceType::PAWN {
            if mv.from.color == PlayerColor::WHITE && mv.from.y == 1 && mv.to.y == 3 {
                can_take_en_passant = Some(mv.from.x);
            }
            if mv.from.color == PlayerColor::BLACK && mv.from.y == 6 && mv.to.y == 4 {
                can_take_en_passant = Some(mv.from.x);
            }
        }
        BoardState::new(
            pieces,
            PlayerColor::opposite(self.player_to_move),
            rights,
            can_take_en_passant,
        )
    }
}

/// Whether `mv` forfeits the mover's kingside castling right.
fn breaks_k_exec(mv: ChessMove) -> (r: bool)
    ensures
        r == breaks_castling_k(mv),
{
    let home: i8 = if mv.from.color == PlayerColor::WHITE {
        0
    } else {
        7
    };
    mv.from.piece_type == PieceType::KING || (mv.from.piece_type == PieceType::ROOK && mv.from.x
        == 7 && mv.from.y == home)
}

/// Whether `mv` forfeits the mover's queenside castling right.
fn breaks_q_exec(mv: ChessMove) -> (r: bool)
    ensures
        r == breaks_castling_q(mv),
{
    let home: i8 = if mv.from.color == PlayerColor::WHITE {
        0
    } else {
        7
    };
    mv.from.piece_type == PieceType::KING || (mv.from.piece_type == PieceType::ROOK && mv.from.x
        == 0 && mv.from.y == home)
}

/// The piece collection built by `after_move` is well-formed: the survivors
/// keep distinct squares, the moved piece lands on a square no survivor
/// holds, and a castling rook lands on a square the castling condition shows
/// empty.
proof fn lemma_after_pieces_wf(m: BoardModel, mv: ChessMove, pieces: Seq<Piece>)
    requires
        pieces_wf(m.pieces),
        is_plausible(m, mv.from, mv),
        pieces == after_move_model(m, mv).pieces,
    ensures
        pieces_wf(pieces),
{
    let pred = |q: Piece| keep_piece(m, mv, q);
    let kept = m.pieces.filter(pred);
    lemma_filter_keeps(m.pieces, pred);
    assert forall|q: Piece| #[trigger] kept.contains(q) implies !(q.x == mv.to.x && q.y
        == mv.to.y) by {}
    let step1 = kept.push(mv.to);
    lemma_push_distinct(kept, mv.to);
    if kingside_castle_shape(mv) || queenside_castle_shape(mv) {
        let rook = if kingside_castle_shape(mv) {
            rook_after_kingside(mv)
        } else {
            rook_after_queenside(mv)
        };
        assert(castle_move_ok(m, mv.from, mv)) by {
            assert(shape_ok(m, mv.from, mv));
            assert(!king_step_shape(mv.to.x - mv.from.x, mv.to.y - mv.from.y));
        }
        assert(!occupied(m, rook.x as int, rook.y as int));
        assert forall|q: Piece| #[trigger] step1.contains(q) implies !(q.x == rook.x && q.y
            == rook.y) by {
            if kept.contains(q) {
                assert(m.pieces.contains(q));
                assert(occupied(m, q.x as int, q.y as int));
            }
        }
        lemma_push_distinct(step1, rook);
        assert(piece_in_bounds(rook));
    }
}

/// Pushing a piece whose square no element holds, onto a well-formed
/// collection, keeps it well-formed.
proof fn lemma_push_distinct(s: Seq<Piece>, p: Piece)
    requires
        pieces_wf(s),
        piece_in_bounds(p),
        forall|q: Piece| #[trigger] s.contains(q) ==> !(q.x == p.x && q.y == p.y),
    ensures
        pieces_wf(s.push(p)),
{
    let out = s.push(p);
    assert forall|i: int, j: int|
        #![trigger out[i], out[j]]
        0 <= i < out.len() && 0 <= j < out.len() && i != j implies !(out[i].x == out[j].x
        && out[i].y == out[j].y) by {
        if i < s.len() && j < s.len() {
            assert(out[i] == s[i] && out[j] == s[j]);
        } else {
            let a = if i < s.len() {
                i
            } else {
                j
            };
            assert(out[a] == s[a]);
            assert(s.contains(s[a]));
        }
    }
    assert forall|i: int| 0 <= i < out.len() implies piece_in_bounds(#[trigger] out[i]) by {
        if i < s.len() {
            assert(out[i] == s[i]);
        }
    }
}

} // verus!

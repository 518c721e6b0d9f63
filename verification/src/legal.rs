//! The legality filter: a pseudo-legal move is legal when the position it
//! produces does not leave the mover's own king in check, and a castling
//! move additionally requires the king to be safe now and on the square it
//! passes through.

use vstd::prelude::*;

use crate::board::{occupied, BoardModel, BoardState};
use crate::check::{in_check, lemma_move_keeps_own_king, one_king};
use crate::moves::{castle_move_ok, is_plausible, king_step_shape, shape_ok};
use crate::transition::after_move_model;
use crate::types::{
    kingside_castle_shape, queenside_castle_shape, step_move, ChessMove, Piece, PlayerColor,
};

verus! {

broadcast use vstd::seq_lib::lemma_seq_contains_after_push, vstd::seq_lib::lemma_seq_concat_contains_all_elements;

/// The extra conditions on castling: the king may not castle out of check,
/// and the square it passes through (file 5 kingside, file 3 queenside) may
/// not be attacked. The landing square is covered by the ordinary filter.
pub open spec fn castle_safe(m: BoardModel, p: Piece, mv: ChessMove) -> bool {
    &&& ((kingside_castle_shape(mv) || queenside_castle_shape(mv)) ==> !in_check(m, p.color))
    &&& (kingside_castle_shape(mv) ==> !in_check(
        after_move_model(m, step_move(p, 5, p.y)),
        p.color,
    ))
    &&& (queenside_castle_shape(mv) ==> !in_check(
        after_move_model(m, step_move(p, 3, p.y)),
        p.color,
    ))
}

/// `mv` is a legal move of piece `p`: pseudo-legal, it does not leave `p`'s
/// own king in check, and a castling move is safe throughout.
pub open spec fn is_legal(m: BoardModel, p: Piece, mv: ChessMove) -> bool {
    &&& is_plausible(m, p, mv)
    &&& !in_check(after_move_model(m, mv), p.color)
    &&& castle_safe(m, p, mv)
}

/// `mv` is a legal move of some piece of the side to move.
pub open spec fn legal_move_of(m: BoardModel, mv: ChessMove) -> bool {
    &&& m.pieces.contains(mv.from)
    &&& mv.from.color == m.player_to_move
    &&& is_legal(m, mv.from, mv)
}

/// The side to move has at least one legal move; a position without one is
/// terminal.
pub open spec fn has_legal_move(m: BoardModel) -> bool {
    exists|mv: ChessMove| #[trigger] legal_move_of(m, mv)
}

/// The legality filter's postcondition, stated on its own: a legal move of
/// the side to move never leaves that side's king in check in the resulting
/// position.
pub proof fn lemma_legal_move_escapes_check(m: BoardModel, mv: ChessMove)
    requires
        legal_move_of(m, mv),
    ensures
        !in_check(after_move_model(m, mv), m.player_to_move),
{
}

/// Legal play preserves the game invariants: after a legal move of the side
/// to move, both kings still exist uniquely and the side that just moved is
/// not in check — so the invariants hold again with the colors swapped.
pub proof fn lemma_play_preserves_invariants(m: BoardModel, mv: ChessMove)
    requires
        crate::board::pieces_wf(m.pieces),
        legal_move_of(m, mv),
        crate::check::one_king(m, PlayerColor::WHITE),
        crate::check::one_king(m, PlayerColor::BLACK),
        !in_check(m, crate::types::other(m.player_to_move)),
    ensures
        crate::check::one_king(after_move_model(m, mv), PlayerColor::WHITE),
        crate::check::one_king(after_move_model(m, mv), PlayerColor::BLACK),
        !in_check(
            after_move_model(m, mv),
            crate::types::other(after_move_model(m, mv).player_to_move),
        ),
{
    let mover = m.player_to_move;
    crate::check::lemma_move_keeps_own_king(m, mv, mover);
    crate::check::lemma_move_keeps_enemy_king(m, mv, crate::types::other(mover));
}

/// A castling move that is pseudo-legal satisfies the castling clause of the
/// movement rules, and the king's one-square step toward the rook is itself
/// pseudo-legal; the legality filter probes that step's safety.
proof fn lemma_castle_step_plausible(m: BoardModel, p: Piece, mv: ChessMove, kingside: bool)
    requires
        is_plausible(m, p, mv),
        kingside ==> kingside_castle_shape(mv),
        !kingside ==> queenside_castle_shape(mv),
    ensures
        kingside ==> is_plausible(m, p, step_move(p, 5, p.y)),
        !kingside ==> is_plausible(m, p, step_move(p, 3, p.y)),
{
    assert(castle_move_ok(m, p, mv)) by {
        assert(shape_ok(m, p, mv));
        assert(!king_step_shape(mv.to.x - p.x, mv.to.y - p.y));
    }
    let tx: i8 = if kingside {
        5
    } else {
        3
    };
    let step = step_move(p, tx, p.y);
    assert(!occupied(m, tx as int, p.y as int));
    assert(!crate::board::occupied_by(m, tx as int, p.y as int, p.color));
    assert(king_step_shape(step.to.x - p.x, step.to.y - p.y));
}

impl BoardState {
    /// The legal moves of piece `p`: its pseudo-legal moves, kept when the
    /// resulting position leaves `p`'s own king out of check, with the
    /// standard extra safety conditions on castling.
    pub fn get_legal_moves(&self, p: &Piece) -> (moves: Vec<ChessMove>)
        requires
            self.wf(),
            self@.pieces.contains(*p),
            one_king(self@, p.color),
        ensures
            forall|mv: ChessMove|
                #[trigger] moves@.contains(mv) <==> is_legal(self@, *p, mv),
    {
        let ghost m = self@;
        proof {
            let i = choose|i: int| 0 <= i < m.pieces.len() && m.pieces[i] == *p;
            assert(crate::types::piece_in_bounds(m.pieces[i]));
        }
        let plausible = self.get_plausible_moves(p);
        let mut out: Vec<ChessMove> = Vec::new();
        let n = plausible.len();
        let mut i: usize = 0;
        while i < n
            invariant
                n == plausible@.len(),
                i <= n,
                m == self@,
                self.wf(),
                self@.pieces.contains(*p),
                one_king(m, p.color),
                forall|mv: ChessMove|
                    #![trigger plausible@.contains(mv)]
                    #![trigger is_plausible(m, *p, mv)]
                    plausible@.contains(mv) <==> is_plausible(m, *p, mv),
                forall|mv: ChessMove|
                    #[trigger] out@.contains(mv) <==> ((exists|j: int|
                        0 <= j < i && plausible@[j] == mv) && is_legal(m, *p, mv)),
            decreases n - i,
        {
            let mv = plausible[i];
            proof {
                assert(plausible@.contains(mv));
                assert(is_plausible(m, *p, mv));
                lemma_move_keeps_own_king(m, mv, p.color);
            }
            let after = self.after_move(mv);
            let mut ok = !after.is_check(Some(p.color));
            if ok {
                let is_ks = mv.is_king_side_castles();
                let is_qs = mv.is_queen_side_castles();
                if is_ks || is_qs {
                    ok = !self.is_check(Some(p.color));
                    if ok {
                        let tx: i8 = if is_ks {
                            5
                        } else {
                            3
                        };
                        let step = ChessMove::new(*p, Piece::new(tx, p.y, p.piece_type, p.color));
                        proof {
                            lemma_castle_step_plausible(m, *p, mv, is_ks);
                            assert(step == step_move(*p, tx, p.y));
                            lemma_move_keeps_own_king(m, step, p.color);
                        }
                        let after_step = self.after_move(step);
                        ok = !after_step.is_check(Some(p.color));
                    }
                }
                proof {
                    assert(ok == (!in_check(after_move_model(m, mv), p.color) && castle_safe(
                        m,
                        *p,
                        mv,
                    )));
                }
            }
            if ok {
                out.push(mv);
            }
            proof {
                assert(plausible@[i as int] == mv);
                assert forall|mv2: ChessMove|
                    #[trigger] out@.contains(mv2) <==> ((exists|j: int|
                        0 <= j < i + 1 && plausible@[j] == mv2) && is_legal(m, *p, mv2)) by {
                    if out@.contains(mv2) && mv2 != mv {
                        let j = choose|j: int| 0 <= j < i && plausible@[j] == mv2;
                        assert(0 <= j < i + 1 && plausible@[j] == mv2);
                    }
                    if (exists|j: int| 0 <= j < i + 1 && plausible@[j] == mv2) && is_legal(
                        m,
                        *p,
                        mv2,
                    ) {
                        let j = choose|j: int| 0 <= j < i + 1 && plausible@[j] == mv2;
                        if j < i {
                            assert(out@.contains(mv2));
                        }
                    }
                }
            }
            i = i + 1;
        }
        proof {
            assert forall|mv: ChessMove|
                #[trigger] out@.contains(mv) <==> is_legal(m, *p, mv) by {
                if is_legal(m, *p, mv) {
                    assert(is_plausible(m, *p, mv));
                    assert(plausible@.contains(mv));
                    let j = choose|j: int| 0 <= j < plausible@.len() && plausible@[j] == mv;
                    assert(0 <= j < n && plausible@[j] == mv);
                }
            }
        }
        out
    }

    /// The legal moves of every piece of the side to move; an empty result
    /// means the position is terminal.
    pub fn get_all_legal_moves(&self) -> (moves: Vec<ChessMove>)
        requires
            self.wf(),
            one_king(self@, self@.player_to_move),
        ensures
            forall|mv: ChessMove|
                #![trigger moves@.contains(mv)]
                #![trigger legal_move_of(self@, mv)]
                moves@.contains(mv) <==> legal_move_of(self@, mv),
    {
        let ghost m = self@;
        let mut moves: Vec<ChessMove> = Vec::new();
        let n = self.pieces.len();
        let mut i: usize = 0;
        while i < n
            invariant
                n == self.pieces.len(),
                i <= n,
                m == self@,
                self.wf(),
                one_king(m, m.player_to_move),
                forall|mv: ChessMove|
                    moves@.contains(mv) <==> ((exists|k: int|
                        0 <= k < i && (#[trigger] self.pieces@[k]) == mv.from) && mv.from.color
                        == self.player_to_move && is_legal(self@, mv.from, mv)),
            decreases n - i,
        {
            let piece = self.pieces[i];
            proof {
                assert(m.pieces.contains(piece));
            }
            if piece.color == self.player_to_move {
                let mut ms = self.get_legal_moves(&piece);
                proof {
                    assert forall|mv: ChessMove| #[trigger] ms@.contains(mv) implies mv.from
                        == piece by {
                        assert(is_legal(m, piece, mv));
                    }
                }
                moves.append(&mut ms);
            }
            proof {
                assert(self.pieces@[i as int] == piece);
            }
            i = i + 1;
        }
        proof {
            assert forall|mv: ChessMove|
                (exists|k: int| 0 <= k < n && (#[trigger] self.pieces@[k]) == mv.from)
                    <==> m.pieces.contains(mv.from) by {}
        }
        moves
    }
}

} // verus!

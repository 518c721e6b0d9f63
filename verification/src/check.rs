//! Check detection: a color is in check when some pseudo-legal move of the
//! opposite color reaches its king's square. Check detection scans only
//! pseudo-legal moves, never legal ones, so it cannot recurse into the
//! legality filter.

use vstd::prelude::*;

use crate::board::{distinct_squares, occupied_by, pieces_wf, BoardModel, BoardState};
use crate::moves::{castle_move_ok, is_plausible, king_step_shape, shape_ok};
use crate::transition::{after_move_model, keep_piece, lemma_filter_keeps};
use crate::types::{
    kingside_castle_shape, other, queenside_castle_shape, ChessMove, Piece, PieceType, PlayerColor,
};

verus! {

broadcast use vstd::seq_lib::lemma_seq_contains_after_push;

/// `q` is a king of color `c`.
pub open spec fn is_king_of(q: Piece, c: PlayerColor) -> bool {
    q.piece_type == PieceType::KING && q.color == c
}

/// Exactly one king of color `c` stands on the board. A snapshot violating
/// this is a malformed fixture or a transition bug, and every check query
/// demands it.
pub open spec fn one_king(m: BoardModel, c: PlayerColor) -> bool {
    exists|k: Piece|
        (#[trigger] m.pieces.contains(k)) && is_king_of(k, c) && (forall|q: Piece|
            #[trigger] m.pieces.contains(q) && is_king_of(q, c) ==> q == k)
}

/// The king of color `c` (meaningful under `one_king`).
pub open spec fn king_of(m: BoardModel, c: PlayerColor) -> Piece {
    choose|k: Piece| (#[trigger] m.pieces.contains(k)) && is_king_of(k, c)
}

/// Color `c` is in check: some pseudo-legal move of the opposite color has
/// `c`'s king's square as its destination.
pub open spec fn in_check(m: BoardModel, c: PlayerColor) -> bool {
    exists|mv: ChessMove|
        #![trigger is_plausible(m, mv.from, mv)]
        m.pieces.contains(mv.from) && mv.from.color == other(c) && is_plausible(m, mv.from, mv)
            && mv.to.x == king_of(m, c).x && mv.to.y == king_of(m, c).y
}

/// The color a check query asks about: the given one, or the side to move.
pub open spec fn check_color(m: BoardModel, color: Option<PlayerColor>) -> PlayerColor {
    match color {
        Some(c) => c,
        None => m.player_to_move,
    }
}

impl BoardState {
    /// Whether `color` (the side to move, when `None`) is in check. The
    /// board must hold exactly one king of the queried color.
    pub fn is_check(&self, color: Option<PlayerColor>) -> (r: bool)
        requires
            self.wf(),
            one_king(self@, check_color(self@, color)),
        ensures
            r == in_check(self@, check_color(self@, color)),
    {
        let ghost m = self@;
        let c = match color {
            Some(c) => c,
            None => self.player_to_move,
        };
        let enemy = PlayerColor::opposite(c);
        let n = self.pieces.len();
        let mut i: usize = 0;
        let mut kx: i8 = 0;
        let mut ky: i8 = 0;
        let mut found = false;
        while i < n
            invariant
                n == self.pieces.len(),
                i <= n,
                m == self@,
                one_king(m, c),
                found ==> kx == king_of(m, c).x && ky == king_of(m, c).y,
                !found ==> forall|k: int|
                    0 <= k < i ==> !is_king_of(#[trigger] self.pieces@[k], c),
            decreases n - i,
        {
            if !found {
                let q = self.pieces[i];
                if q.piece_type == PieceType::KING && q.color == c {
                    kx = q.x;
                    ky = q.y;
                    found = true;
                    proof {
                        assert(m.pieces.contains(q));
                        assert(q == king_of(m, c));
                    }
                }
            }
            i = i + 1;
        }
        proof {
            if !found {
                let k = choose|k: Piece| #[trigger] m.pieces.contains(k) && is_king_of(k, c);
                let ki = choose|ki: int| 0 <= ki < m.pieces.len() && m.pieces[ki] == k;
                assert(!is_king_of(self.pieces@[ki], c));
                assert(false);
            }
        }
        let mut i: usize = 0;
        while i < n
            invariant
                n == self.pieces.len(),
                i <= n,
                m == self@,
                self.wf(),
                one_king(m, c),
                c == check_color(m, color),
                enemy == other(c),
                kx == king_of(m, c).x && ky == king_of(m, c).y,
                forall|mv: ChessMove|
                    #![trigger is_plausible(m, mv.from, mv)]
                    ((exists|k: int| 0 <= k < i && (#[trigger] self.pieces@[k]) == mv.from)
                        && mv.from.color == other(c) && is_plausible(m, mv.from, mv)) ==> !(
                    mv.to.x == kx && mv.to.y == ky),
            decreases n - i,
        {
            let q = self.pieces[i];
            if q.color == enemy {
                proof {
                    assert(m.pieces.contains(q));
                }
                let ms = self.get_plausible_moves(&q);
                let mut j: usize = 0;
                while j < ms.len()
                    invariant
                        j <= ms.len(),
                        m == self@,
                        forall|jj: int|
                            0 <= jj < j ==> !((#[trigger] ms@[jj]).to.x == kx && ms@[jj].to.y
                                == ky),
                        forall|mv: ChessMove|
                            #![trigger is_plausible(m, q, mv)]
                            ms@.contains(mv) <==> is_plausible(m, q, mv),
                        one_king(m, c),
                        c == check_color(m, color),
                        kx == king_of(m, c).x && ky == king_of(m, c).y,
                        q.color == other(c),
                        m.pieces.contains(q),
                    decreases ms.len() - j,
                {
                    let mv = ms[j];
                    if mv.to.x == kx && mv.to.y == ky {
                        proof {
                            assert(ms@.contains(mv));
                            assert(is_plausible(m, q, mv));
                            assert(mv.from == q);
                            assert(is_plausible(m, mv.from, mv));
                            assert(m.pieces.contains(mv.from) && mv.from.color == other(c));
                            assert(mv.to.x == king_of(m, c).x && mv.to.y == king_of(m, c).y);
                            assert(in_check(m, c));
                        }
                        return true;
                    }
                    j = j + 1;
                }
            }
            proof {
                assert(self.pieces@[i as int] == q);
                assert forall|mv: ChessMove|
                    ((exists|k: int| 0 <= k < i + 1 && (#[trigger] self.pieces@[k]) == mv.from)
                        && mv.from.color == other(c) && #[trigger] is_plausible(
                        m,
                        mv.from,
                        mv,
                    )) implies !(mv.to.x == kx && mv.to.y == ky) by {
                    let k = choose|k: int|
                        0 <= k < i + 1 && (#[trigger] self.pieces@[k]) == mv.from;
                    if k == i {
                        if q.color == enemy {
                            assert(mv.from == q);
                        }
                    }
                }
            }
            i = i + 1;
        }
        proof {
            if in_check(m, c) {
                let mv = choose|mv: ChessMove|
                    m.pieces.contains(mv.from) && mv.from.color == other(c) && (
                    #[trigger] is_plausible(m, mv.from, mv)) && mv.to.x == king_of(m, c).x
                        && mv.to.y == king_of(m, c).y;
                let k = choose|k: int| 0 <= k < m.pieces.len() && m.pieces[k] == mv.from;
                assert(self.pieces@[k] == mv.from);
                assert(false);
            }
        }
        false
    }
}

/// A pseudo-legal move of a piece on the board keeps exactly one king of the
/// mover's own color: if the king itself moves it arrives as the new king,
/// and no move of one's own ever removes one's own king.
pub proof fn lemma_move_keeps_own_king(m: BoardModel, mv: ChessMove, c: PlayerColor)
    requires
        pieces_wf(m.pieces),
        m.pieces.contains(mv.from),
        is_plausible(m, mv.from, mv),
        c == mv.from.color,
        one_king(m, c),
    ensures
        one_king(after_move_model(m, mv), c),
{
    let after = after_move_model(m, mv);
    let pred = |q: Piece| keep_piece(m, mv, q);
    lemma_filter_keeps(m.pieces, pred);
    let k = choose|k: Piece| (#[trigger] m.pieces.contains(k)) && is_king_of(k, c);
    if mv.from.piece_type == PieceType::KING {
        assert(is_king_of(mv.from, c));
        assert(k == mv.from);
        assert(after.pieces.contains(mv.to));
        assert(is_king_of(mv.to, c));
        assert forall|q: Piece|
            #[trigger] after.pieces.contains(q) && is_king_of(q, c) implies q == mv.to by {
            if m.pieces.filter(pred).contains(q) {
                assert(m.pieces.contains(q) && pred(q));
                assert(q == mv.from);
                assert(!keep_piece(m, mv, q));
            }
        }
    } else {
        assert(!kingside_castle_shape(mv) && !queenside_castle_shape(mv));
        assert(k != mv.from);
        lemma_distinct_pieces_distinct_squares(m.pieces, k, mv.from);
        assert(keep_piece(m, mv, k)) by {
            if k.x == mv.to.x && k.y == mv.to.y {
                assert(occupied_by(m, mv.to.x as int, mv.to.y as int, c));
            }
        }
        assert(after.pieces.contains(k));
        assert forall|q: Piece| #[trigger] after.pieces.contains(q) && is_king_of(q, c) implies q
            == k by {
            if m.pieces.filter(pred).contains(q) {
            } else {
                assert(q == mv.to);
                assert(mv.to.piece_type == mv.from.piece_type);
            }
        }
    }
}

/// A pseudo-legal move keeps exactly one enemy king as long as the enemy is
/// not already in check: a move that could capture the enemy king would be
/// an attack on its square, which is exactly a check.
pub proof fn lemma_move_keeps_enemy_king(m: BoardModel, mv: ChessMove, c: PlayerColor)
    requires
        pieces_wf(m.pieces),
        m.pieces.contains(mv.from),
        is_plausible(m, mv.from, mv),
        c == other(mv.from.color),
        one_king(m, c),
        !in_check(m, c),
    ensures
        one_king(after_move_model(m, mv), c),
{
    let after = after_move_model(m, mv);
    let pred = |q: Piece| keep_piece(m, mv, q);
    lemma_filter_keeps(m.pieces, pred);
    let k = choose|k: Piece| (#[trigger] m.pieces.contains(k)) && is_king_of(k, c);
    assert(k == king_of(m, c));
    assert(k != mv.from);
    lemma_distinct_pieces_distinct_squares(m.pieces, k, mv.from);
    assert(keep_piece(m, mv, k)) by {
        if k.x == mv.to.x && k.y == mv.to.y {
            assert(mv.from.color == other(c));
            assert(is_plausible(m, mv.from, mv) && mv.to.x == king_of(m, c).x && mv.to.y
                == king_of(m, c).y);
            assert(in_check(m, c));
        }
        if kingside_castle_shape(mv) && k.x == 7 && k.y == mv.from.y {
            assert(castle_move_ok(m, mv.from, mv)) by {
                assert(shape_ok(m, mv.from, mv));
                assert(!king_step_shape(mv.to.x - mv.from.x, mv.to.y - mv.from.y));
            }
            lemma_typed_square_unique(m, k, 7, crate::types::back_rank(m.player_to_move));
        }
        if queenside_castle_shape(mv) && k.x == 0 && k.y == mv.from.y {
            assert(castle_move_ok(m, mv.from, mv)) by {
                assert(shape_ok(m, mv.from, mv));
                assert(!king_step_shape(mv.to.x - mv.from.x, mv.to.y - mv.from.y));
            }
            lemma_typed_square_unique(m, k, 0, crate::types::back_rank(m.player_to_move));
        }
    }
    assert(after.pieces.contains(k));
    assert forall|q: Piece| #[trigger] after.pieces.contains(q) && is_king_of(q, c) implies q
        == k by {
        if m.pieces.filter(pred).contains(q) {
        } else if q == mv.to {
            assert(mv.to.color == mv.from.color);
        } else {
            assert(q.piece_type == PieceType::ROOK);
        }
    }
}

/// Two different contained pieces stand on different squares.
proof fn lemma_distinct_pieces_distinct_squares(s: Seq<Piece>, a: Piece, b: Piece)
    requires
        distinct_squares(s),
        s.contains(a),
        s.contains(b),
        a != b,
    ensures
        !(a.x == b.x && a.y == b.y),
{
    let i = choose|i: int| 0 <= i < s.len() && s[i] == a;
    let j = choose|j: int| 0 <= j < s.len() && s[j] == b;
    assert(s[i] == a && s[j] == b);
}

/// Under one-piece-per-square, a contained king cannot stand on a square
/// that the castling condition shows holds a rook.
proof fn lemma_typed_square_unique(m: BoardModel, k: Piece, x: int, y: int)
    requires
        distinct_squares(m.pieces),
        m.pieces.contains(k),
        k.piece_type == PieceType::KING,
        crate::board::piece_type_at(m, x, y, PieceType::ROOK),
    ensures
        !(k.x == x && k.y == y),
{
    let r = choose|r: Piece|
        (#[trigger] m.pieces.contains(r)) && r.x == x && r.y == y && r.piece_type
            == PieceType::ROOK;
    if k.x == x && k.y == y {
        lemma_distinct_pieces_distinct_squares(m.pieces, k, r);
    }
}

} // verus!

//! Pseudo-legal move generation: movement-rule-correct moves that are not
//! yet filtered for leaving the mover's own king in check.

use vstd::prelude::*;

use crate::board::{
    can_castle_kingside, can_castle_queenside, occupied, occupied_by, BoardModel, BoardState,
};
use crate::types::{
    back_rank, en_passant_rank, in_bounds, is_within_chessboard, other, pawn_dir, pawn_home_rank,
    piece_in_bounds, step_move, ChessMove, MovePlausibility, Piece, PieceType, PlayerColor,
};

verus! {

broadcast use vstd::seq_lib::lemma_seq_contains_after_push, vstd::seq_lib::lemma_seq_concat_contains_all_elements;

/// A knight's jump: one file and two ranks, or two files and one rank.
pub open spec fn knight_shape(dx: int, dy: int) -> bool {
    ((dx == 1 || dx == -1) && (dy == 2 || dy == -2)) || ((dx == 2 || dx == -2) && (dy == 1 || dy
        == -1))
}

/// A king's single step to an adjacent square.
pub open spec fn king_step_shape(dx: int, dy: int) -> bool {
    -1 <= dx <= 1 && -1 <= dy <= 1 && !(dx == 0 && dy == 0)
}

/// Square `(tx, ty)` lies `d` steps from `p` along direction `(dx, dy)`.
pub open spec fn ray_hit(p: Piece, tx: int, ty: int, dx: int, dy: int, d: int) -> bool {
    tx == p.x + d * dx && ty == p.y + d * dy
}

/// The square `k` steps from `p` along `(dx, dy)` is empty.
pub open spec fn ray_sq_free(m: BoardModel, p: Piece, dx: int, dy: int, k: int) -> bool {
    !occupied(m, p.x + k * dx, p.y + k * dy)
}

/// All squares strictly between `p` and the square `d` steps away are empty.
pub open spec fn clear_ray(m: BoardModel, p: Piece, dx: int, dy: int, d: int) -> bool {
    forall|k: int| 1 <= k < d ==> ray_sq_free(m, p, dx, dy, k)
}

/// `(tx, ty)` is reachable from `p` along `(dx, dy)` in fewer than `dmax`
/// steps, over empty intermediate squares.
pub open spec fn ray_reaches_upto(
    m: BoardModel,
    p: Piece,
    tx: int,
    ty: int,
    dx: int,
    dy: int,
    dmax: int,
) -> bool {
    exists|d: int|
        1 <= d < dmax && #[trigger] ray_hit(p, tx, ty, dx, dy, d) && clear_ray(m, p, dx, dy, d)
}

/// `(tx, ty)` is reachable from `p` along `(dx, dy)` over empty squares.
/// Seven steps suffice to cross the whole board.
pub open spec fn ray_reaches(m: BoardModel, p: Piece, tx: int, ty: int, dx: int, dy: int) -> bool {
    ray_reaches_upto(m, p, tx, ty, dx, dy, 8)
}

/// A rook's slide: along one of the four straight directions.
pub open spec fn rook_shape(m: BoardModel, p: Piece, mv: ChessMove) -> bool {
    let tx = mv.to.x as int;
    let ty = mv.to.y as int;
    ||| ray_reaches(m, p, tx, ty, 0, 1)
    ||| ray_reaches(m, p, tx, ty, 0, -1)
    ||| ray_reaches(m, p, tx, ty, 1, 0)
    ||| ray_reaches(m, p, tx, ty, -1, 0)
}

/// A bishop's slide: along one of the four diagonal directions.
pub open spec fn bishop_shape(m: BoardModel, p: Piece, mv: ChessMove) -> bool {
    let tx = mv.to.x as int;
    let ty = mv.to.y as int;
    ||| ray_reaches(m, p, tx, ty, 1, 1)
    ||| ray_reaches(m, p, tx, ty, 1, -1)
    ||| ray_reaches(m, p, tx, ty, -1, 1)
    ||| ray_reaches(m, p, tx, ty, -1, -1)
}

/// A pawn's move: one push onto an empty square, a double push from the home
/// rank over an empty square, or a diagonal capture onto an enemy piece or
/// onto the en-passant target file from the proper rank.
pub open spec fn pawn_shape(m: BoardModel, p: Piece, mv: ChessMove) -> bool {
    let dir = pawn_dir(p.color);
    let dx = mv.to.x - p.x;
    let dy = mv.to.y - p.y;
    let tx = mv.to.x as int;
    let ty = mv.to.y as int;
    ||| (dx == 0 && dy == dir && !occupied(m, tx, ty))
    ||| (dx == 0 && dy == 2 * dir && p.y as int == pawn_home_rank(p.color) && !occupied(
        m,
        p.x as int,
        p.y + dir,
    ) && !occupied(m, tx, ty))
    ||| ((dx == 1 || dx == -1) && dy == dir && (occupied_by(m, tx, ty, other(p.color)) || (
    m.en_passant_file == Some(mv.to.x) && p.y as int == en_passant_rank(p.color))))
}

/// A castling move offered to the side to move: its king stands on its home
/// square and the derived castling condition for the matching wing holds.
pub open spec fn castle_move_ok(m: BoardModel, p: Piece, mv: ChessMove) -> bool {
    &&& p.color == m.player_to_move
    &&& p.x == 4
    &&& p.y as int == back_rank(p.color)
    &&& mv.to.y == p.y
    &&& ((mv.to.x == 6 && can_castle_kingside(m)) || (mv.to.x == 2 && can_castle_queenside(m)))
}

/// The movement rule of `p`'s kind allows `mv` on board `m`.
pub open spec fn shape_ok(m: BoardModel, p: Piece, mv: ChessMove) -> bool {
    let dx = mv.to.x - p.x;
    let dy = mv.to.y - p.y;
    match p.piece_type {
        PieceType::PAWN => pawn_shape(m, p, mv),
        PieceType::KNIGHT => knight_shape(dx, dy),
        PieceType::KING => king_step_shape(dx, dy) || castle_move_ok(m, p, mv),
        PieceType::ROOK => rook_shape(m, p, mv),
        PieceType::BISHOP => bishop_shape(m, p, mv),
        PieceType::QUEEN => rook_shape(m, p, mv) || bishop_shape(m, p, mv),
    }
}

/// `mv` is a pseudo-legal move of piece `p` on board `m`: it starts at `p`,
/// keeps `p`'s kind and color, stays on the board, does not land on a piece
/// of `p`'s own color, and follows `p`'s movement rule.
pub open spec fn is_plausible(m: BoardModel, p: Piece, mv: ChessMove) -> bool {
    &&& mv.from == p
    &&& piece_in_bounds(p)
    &&& piece_in_bounds(mv.to)
    &&& mv.to.color == p.color
    &&& mv.to.piece_type == p.piece_type
    &&& !occupied_by(m, mv.to.x as int, mv.to.y as int, p.color)
    &&& shape_ok(m, p, mv)
}

/// `mv` is a pseudo-legal move of some piece of the side to move.
pub open spec fn plausible_move_of(m: BoardModel, mv: ChessMove) -> bool {
    &&& m.pieces.contains(mv.from)
    &&& mv.from.color == m.player_to_move
    &&& is_plausible(m, mv.from, mv)
}

/// Every pseudo-legal move keeps its destination within the board.
pub proof fn lemma_plausible_moves_stay_on_board(m: BoardModel, p: Piece, mv: ChessMove)
    requires
        is_plausible(m, p, mv),
    ensures
        in_bounds(mv.to.x as int, mv.to.y as int),
{
}

/// Multiplying by a factor in `[-1, 1]` keeps, zeroes, or negates a value.
proof fn lemma_mul_unit(d: int, u: int)
    requires
        -1 <= u <= 1,
    ensures
        u == 1 ==> d * u == d,
        u == 0 ==> d * u == 0,
        u == -1 ==> d * u == -d,
{
    assert(u == 1 ==> d * u == d) by (nonlinear_arith);
    assert(u == 0 ==> d * u == 0) by (nonlinear_arith);
    assert(u == -1 ==> d * u == -d) by (nonlinear_arith);
}

/// Once a ray has left the board it never returns: in a fixed direction the
/// coordinates move monotonically.
proof fn lemma_ray_oob(p: Piece, dx: int, dy: int, d: int, d2: int)
    requires
        piece_in_bounds(p),
        -1 <= dx <= 1,
        -1 <= dy <= 1,
        1 <= d <= d2,
        !in_bounds(p.x + d * dx, p.y + d * dy),
    ensures
        !in_bounds(p.x + d2 * dx, p.y + d2 * dy),
{
    lemma_mul_unit(d, dx);
    lemma_mul_unit(d2, dx);
    lemma_mul_unit(d, dy);
    lemma_mul_unit(d2, dy);
}

impl BoardState {
    /// How a mover of color `mover` could use square `(x, y)`: off the board
    /// or held by a piece of its own color is impossible, an enemy occupant
    /// is a capture, an empty square is a quiet move.
    fn get_move_position_plausibility(&self, x: i8, y: i8, mover: PlayerColor) -> (r:
        MovePlausibility)
        requires
            self@.wf(),
        ensures
            (r == MovePlausibility::IMPOSSIBLE) == (!in_bounds(x as int, y as int) || occupied_by(
                self@,
                x as int,
                y as int,
                mover,
            )),
            (r == MovePlausibility::MOVE) == (in_bounds(x as int, y as int) && !occupied(
                self@,
                x as int,
                y as int,
            )),
    {
        if !is_within_chessboard(x, y) {
            return MovePlausibility::IMPOSSIBLE;
        }
        match self.get_piece_at_square(x, y) {
            Some(q) => {
                if q.color == mover {
                    MovePlausibility::IMPOSSIBLE
                } else {
                    MovePlausibility::TAKES
                }
            },
            None => MovePlausibility::MOVE,
        }
    }

    /// Append the move of `p` to `(tx, ty)` if that square is on the board
    /// and not held by a piece of `p`'s own color.
    fn push_step_move(&self, p: &Piece, tx: i8, ty: i8, moves: &mut Vec<ChessMove>) -> (pushed:
        bool)
        requires
            self@.wf(),
        ensures
            pushed == (in_bounds(tx as int, ty as int) && !occupied_by(
                self@,
                tx as int,
                ty as int,
                p.color,
            )),
            pushed ==> final(moves)@ == old(moves)@.push(step_move(*p, tx, ty)),
            !pushed ==> final(moves)@ == old(moves)@,
            forall|mv: ChessMove|
                final(moves)@.contains(mv) <==> old(moves)@.contains(mv) || (pushed && mv == step_move(
                    *p,
                    tx,
                    ty,
                )),
    {
        let plausibility = self.get_move_position_plausibility(tx, ty, p.color);
        if plausibility != MovePlausibility::IMPOSSIBLE {
            moves.push(ChessMove::new(*p, Piece::new(tx, ty, p.piece_type, p.color)));
            true
        } else {
            false
        }
    }

    /// All pseudo-legal moves of a knight: the eight jumps, kept when they
    /// stay on the board and do not land on the knight's own color.
    fn knight_moves(&self, p: &Piece) -> (moves: Vec<ChessMove>)
        requires
            self@.wf(),
            piece_in_bounds(*p),
            p.piece_type == PieceType::KNIGHT,
        ensures
            forall|mv: ChessMove|
                #[trigger] moves@.contains(mv) <==> is_plausible(self@, *p, mv),
    {
        let mut moves: Vec<ChessMove> = Vec::new();
        self.push_step_move(p, p.x + 2, p.y + 1, &mut moves);
        self.push_step_move(p, p.x - 2, p.y + 1, &mut moves);
        self.push_step_move(p, p.x + 2, p.y - 1, &mut moves);
        self.push_step_move(p, p.x + 1, p.y + 2, &mut moves);
        self.push_step_move(p, p.x - 1, p.y + 2, &mut moves);
        self.push_step_move(p, p.x - 1, p.y - 2, &mut moves);
        self.push_step_move(p, p.x + 1, p.y - 2, &mut moves);
        self.push_step_move(p, p.x - 2, p.y - 1, &mut moves);
        moves
    }

    /// All pseudo-legal moves of a king: the eight single steps, plus the
    /// castling moves the derived flags offer to the side to move.
    fn king_moves(&self, p: &Piece) -> (moves: Vec<ChessMove>)
        requires
            self.wf(),
            piece_in_bounds(*p),
            p.piece_type == PieceType::KING,
        ensures
            forall|mv: ChessMove|
                #[trigger] moves@.contains(mv) <==> is_plausible(self@, *p, mv),
    {
        let mut moves: Vec<ChessMove> = Vec::new();
        self.push_step_move(p, p.x, p.y + 1, &mut moves);
        self.push_step_move(p, p.x, p.y - 1, &mut moves);
        self.push_step_move(p, p.x + 1, p.y - 1, &mut moves);
        self.push_step_move(p, p.x + 1, p.y + 1, &mut moves);
        self.push_step_move(p, p.x - 1, p.y + 1, &mut moves);
        self.push_step_move(p, p.x - 1, p.y - 1, &mut moves);
        self.push_step_move(p, p.x + 1, p.y, &mut moves);
        self.push_step_move(p, p.x - 1, p.y, &mut moves);
        let y: i8 = if p.color == PlayerColor::WHITE {
            0
        } else {
            7
        };
        let on_home = p.x == 4 && p.y == y && p.color == self.player_to_move;
        if on_home && self.can_castle_k_this_move {
            moves.push(ChessMove::new(*p, Piece::new(6, y, p.piece_type, p.color)));
            proof {
                assert(!occupied(self@, 6, y as int));
                assert(!occupied_by(self@, 6, y as int, p.color));
            }
        }
        if on_home && self.can_castle_q_this_move {
            moves.push(ChessMove::new(*p, Piece::new(2, y, p.piece_type, p.color)));
            proof {
                assert(!occupied(self@, 2, y as int));
                assert(!occupied_by(self@, 2, y as int, p.color));
            }
        }
        moves
    }

    /// All pseudo-legal moves of a pawn: the diagonal captures (including en
    /// passant) and the forward pushes.
    fn pawn_moves(&self, p: &Piece) -> (moves: Vec<ChessMove>)
        requires
            self@.wf(),
            piece_in_bounds(*p),
            p.piece_type == PieceType::PAWN,
        ensures
            forall|mv: ChessMove|
                #[trigger] moves@.contains(mv) <==> is_plausible(self@, *p, mv),
    {
        let dir: i8 = if p.color == PlayerColor::WHITE {
            1
        } else {
            -1
        };
        let ep_rank: i8 = if p.color == PlayerColor::WHITE {
            4
        } else {
            3
        };
        let mut moves: Vec<ChessMove> = Vec::new();
        self.pawn_capture(p, p.x - 1, p.y + dir, ep_rank, &mut moves);
        self.pawn_capture(p, p.x + 1, p.y + dir, ep_rank, &mut moves);
        let fy = p.y + dir;
        if is_within_chessboard(p.x, fy) {
            if self.get_piece_at_square(p.x, fy).is_none() {
                moves.push(ChessMove::new(*p, Piece::new(p.x, fy, p.piece_type, p.color)));
                let home: i8 = if p.color == PlayerColor::WHITE {
                    1
                } else {
                    6
                };
                if p.y == home {
                    let fy2 = fy + dir;
                    if self.get_piece_at_square(p.x, fy2).is_none() {
                        moves.push(
                            ChessMove::new(*p, Piece::new(p.x, fy2, p.piece_type, p.color)),
                        );
                    }
                }
            }
        }
        moves
    }

    /// Append the pawn's diagonal move to `(tx, ty)` if it captures an enemy
    /// piece there or captures en passant onto the target file.
    fn pawn_capture(&self, p: &Piece, tx: i8, ty: i8, ep_rank: i8, moves: &mut Vec<ChessMove>)
        requires
            self@.wf(),
            ep_rank as int == en_passant_rank(p.color),
        ensures
            forall|mv: ChessMove|
                final(moves)@.contains(mv) <==> old(moves)@.contains(mv) || (mv == step_move(
                    *p,
                    tx,
                    ty,
                ) && in_bounds(tx as int, ty as int) && !occupied_by(
                    self@,
                    tx as int,
                    ty as int,
                    p.color,
                ) && (occupied_by(self@, tx as int, ty as int, other(p.color)) || (
                self@.en_passant_file == Some(tx) && p.y == ep_rank))),
    {
        if !is_within_chessboard(tx, ty) {
            return;
        }
        let push = match self.get_piece_at_square(tx, ty) {
            Some(q) => q.color != p.color,
            None => {
                match self.can_take_en_passant {
                    Some(f) => f == tx && p.y == ep_rank,
                    None => false,
                }
            },
        };
        if push {
            moves.push(ChessMove::new(*p, Piece::new(tx, ty, p.piece_type, p.color)));
        }
    }

    /// Walk one sliding-piece ray from `p`, appending each reachable empty
    /// square and, if the ray ends on an enemy piece, that capture.
    fn ray_moves_dir(&self, p: &Piece, dx: i8, dy: i8, moves: &mut Vec<ChessMove>)
        requires
            self@.wf(),
            piece_in_bounds(*p),
            -1 <= dx <= 1,
            -1 <= dy <= 1,
            !(dx == 0 && dy == 0),
        ensures
            forall|mv: ChessMove|
                #[trigger] final(moves)@.contains(mv) <==> old(moves)@.contains(mv)
                    || ray_plausible(self@, *p, mv, dx as int, dy as int),
    {
        let ghost m = self@;
        let ghost dxi = dx as int;
        let ghost dyi = dy as int;
        let mut d: i8 = 1;
        loop
            invariant_except_break
                self@.wf(),
                self@ == m,
                piece_in_bounds(*p),
                -1 <= dx <= 1,
                -1 <= dy <= 1,
                !(dx == 0 && dy == 0),
                dxi == dx as int,
                dyi == dy as int,
                1 <= d <= 8,
                forall|k: int| 1 <= k < d ==> ray_sq_free(m, *p, dxi, dyi, k),
                forall|mv: ChessMove|
                    moves@.contains(mv) <==> old(moves)@.contains(mv) || (ray_plausible_upto(
                        m,
                        *p,
                        mv,
                        dxi,
                        dyi,
                        d as int,
                    )),
            ensures
                forall|mv: ChessMove|
                    moves@.contains(mv) <==> old(moves)@.contains(mv) || ray_plausible(
                        m,
                        *p,
                        mv,
                        dxi,
                        dyi,
                    ),
            decreases 8 - d,
        {
            if d >= 8 {
                proof {
                    lemma_ray_full_range(m, *p, dxi, dyi);
                }
                break;
            }
            proof {
                lemma_mul_unit(d as int, dxi);
                lemma_mul_unit(d as int, dyi);
            }
            let sx: i8 = d * dx;
            let sy: i8 = d * dy;
            let tx: i8 = p.x + sx;
            let ty: i8 = p.y + sy;
            proof {
                assert(ray_hit(*p, tx as int, ty as int, dxi, dyi, d as int));
            }
            if !is_within_chessboard(tx, ty) {
                proof {
                    lemma_ray_stops_oob(m, *p, dxi, dyi, d as int);
                }
                break;
            }
            match self.get_piece_at_square(tx, ty) {
                Some(q) => {
                    if q.color != p.color {
                        let mv = ChessMove::new(*p, Piece::new(tx, ty, p.piece_type, p.color));
                        moves.push(mv);
                        proof {
                            assert(occupied(m, tx as int, ty as int));
                            lemma_ray_stops_capture(m, *p, mv, dxi, dyi, d as int);
                        }
                    } else {
                        proof {
                            assert(occupied(m, tx as int, ty as int));
                            assert(occupied_by(m, tx as int, ty as int, p.color));
                            lemma_ray_stops_own(m, *p, dxi, dyi, d as int);
                        }
                    }
                    break;
                },
                None => {
                    let mv = ChessMove::new(*p, Piece::new(tx, ty, p.piece_type, p.color));
                    moves.push(mv);
                    proof {
                        assert(!occupied(m, tx as int, ty as int));
                        assert(ray_sq_free(m, *p, dxi, dyi, d as int));
                        lemma_ray_extends(m, *p, mv, dxi, dyi, d as int);
                    }
                },
            }
            d = d + 1;
        }
    }

    /// All pseudo-legal moves of piece `p` on this board: movement-rule
    /// correct, not yet filtered for leaving `p`'s own king in check.
    pub fn get_plausible_moves(&self, p: &Piece) -> (moves: Vec<ChessMove>)
        requires
            self.wf(),
            piece_in_bounds(*p),
        ensures
            forall|mv: ChessMove|
                #[trigger] moves@.contains(mv) <==> is_plausible(self@, *p, mv),
    {
        match p.piece_type {
            PieceType::KNIGHT => self.knight_moves(p),
            PieceType::KING => self.king_moves(p),
            PieceType::PAWN => self.pawn_moves(p),
            PieceType::BISHOP => {
                let mut moves: Vec<ChessMove> = Vec::new();
                self.ray_moves_dir(p, 1, 1, &mut moves);
                self.ray_moves_dir(p, 1, -1, &mut moves);
                self.ray_moves_dir(p, -1, 1, &mut moves);
                self.ray_moves_dir(p, -1, -1, &mut moves);
                moves
            },
            PieceType::ROOK => {
                let mut moves: Vec<ChessMove> = Vec::new();
                self.ray_moves_dir(p, 0, 1, &mut moves);
                self.ray_moves_dir(p, 0, -1, &mut moves);
                self.ray_moves_dir(p, 1, 0, &mut moves);
                self.ray_moves_dir(p, -1, 0, &mut moves);
                moves
            },
            PieceType::QUEEN => {
                let mut moves: Vec<ChessMove> = Vec::new();
                self.ray_moves_dir(p, 1, 1, &mut moves);
                self.ray_moves_dir(p, 1, -1, &mut moves);
                self.ray_moves_dir(p, -1, 1, &mut moves);
                self.ray_moves_dir(p, -1, -1, &mut moves);
                self.ray_moves_dir(p, 0, 1, &mut moves);
                self.ray_moves_dir(p, 0, -1, &mut moves);
                self.ray_moves_dir(p, 1, 0, &mut moves);
                self.ray_moves_dir(p, -1, 0, &mut moves);
                moves
            },
        }
    }

    /// All pseudo-legal moves of every piece of the side to move.
    pub fn get_all_plausible_moves(&self) -> (moves: Vec<ChessMove>)
        requires
            self.wf(),
        ensures
            forall|mv: ChessMove|
                #![trigger moves@.contains(mv)]
                #![trigger plausible_move_of(self@, mv)]
                moves@.contains(mv) <==> plausible_move_of(self@, mv),
    {
        let mut moves: Vec<ChessMove> = Vec::new();
        let n = self.pieces.len();
        let mut i: usize = 0;
        while i < n
            invariant
                self.wf(),
                n == self.pieces.len(),
                i <= n,
                forall|mv: ChessMove|
                    moves@.contains(mv) <==> ((exists|k: int|
                        0 <= k < i && (#[trigger] self.pieces@[k]) == mv.from)
                        && mv.from.color == self.player_to_move && is_plausible(
                        self@,
                        mv.from,
                        mv,
                    )),
            decreases n - i,
        {
            let piece = self.pieces[i];
            if piece.color == self.player_to_move {
                let mut ms = self.get_plausible_moves(&piece);
                moves.append(&mut ms);
            }
            proof {
                assert(self.pieces@[i as int] == piece);
            }
            i = i + 1;
        }
        proof {
            assert forall|mv: ChessMove|
                (exists|k: int| 0 <= k < n && (#[trigger] self.pieces@[k]) == mv.from)
                    <==> self.pieces@.contains(mv.from) by {}
        }
        moves
    }
}

/// A pseudo-legal sliding move of `p` along direction `(dx, dy)`.
pub open spec fn ray_plausible(m: BoardModel, p: Piece, mv: ChessMove, dx: int, dy: int) -> bool {
    &&& mv.from == p
    &&& mv.to.piece_type == p.piece_type
    &&& mv.to.color == p.color
    &&& piece_in_bounds(mv.to)
    &&& !occupied_by(m, mv.to.x as int, mv.to.y as int, p.color)
    &&& ray_reaches(m, p, mv.to.x as int, mv.to.y as int, dx, dy)
}

/// As `ray_plausible`, but reachable in fewer than `dmax` steps.
pub open spec fn ray_plausible_upto(
    m: BoardModel,
    p: Piece,
    mv: ChessMove,
    dx: int,
    dy: int,
    dmax: int,
) -> bool {
    &&& mv.from == p
    &&& mv.to.piece_type == p.piece_type
    &&& mv.to.color == p.color
    &&& piece_in_bounds(mv.to)
    &&& !occupied_by(m, mv.to.x as int, mv.to.y as int, p.color)
    &&& ray_reaches_upto(m, p, mv.to.x as int, mv.to.y as int, dx, dy, dmax)
}

/// Along a unit direction, any square eight or more steps away is off the
/// board, so reachability within eight steps is full reachability.
proof fn lemma_ray_full_range(m: BoardModel, p: Piece, dx: int, dy: int)
    requires
        piece_in_bounds(p),
        -1 <= dx <= 1,
        -1 <= dy <= 1,
        !(dx == 0 && dy == 0),
    ensures
        forall|mv: ChessMove|
            ray_plausible(m, p, mv, dx, dy) <==> ray_plausible_upto(m, p, mv, dx, dy, 8),
{
}

/// The same distance along a ray determines the same destination square, so
/// two moves reaching at the same distance are equal if their piece fields
/// agree; and a move reachable at some distance below `d + 1` but not below
/// `d` is reachable exactly at `d`.
proof fn lemma_ray_stops_oob(m: BoardModel, p: Piece, dx: int, dy: int, d: int)
    requires
        piece_in_bounds(p),
        -1 <= dx <= 1,
        -1 <= dy <= 1,
        !(dx == 0 && dy == 0),
        1 <= d < 8,
        !in_bounds(p.x + d * dx, p.y + d * dy),
    ensures
        forall|mv: ChessMove|
            ray_plausible(m, p, mv, dx, dy) <==> ray_plausible_upto(m, p, mv, dx, dy, d),
{
    assert forall|mv: ChessMove| ray_plausible(m, p, mv, dx, dy) implies ray_plausible_upto(
        m,
        p,
        mv,
        dx,
        dy,
        d,
    ) by {
        let d2 = choose|d2: int|
            1 <= d2 < 8 && #[trigger] ray_hit(p, mv.to.x as int, mv.to.y as int, dx, dy, d2)
                && clear_ray(m, p, dx, dy, d2);
        if d2 >= d {
            lemma_ray_oob(p, dx, dy, d, d2);
            assert(!piece_in_bounds(mv.to));
        }
    }
}

/// When the walk stops on an enemy piece at distance `d`, the capture at `d`
/// is the one extra pseudo-legal move beyond those below `d`.
proof fn lemma_ray_stops_capture(
    m: BoardModel,
    p: Piece,
    cap: ChessMove,
    dx: int,
    dy: int,
    d: int,
)
    requires
        piece_in_bounds(p),
        -1 <= dx <= 1,
        -1 <= dy <= 1,
        !(dx == 0 && dy == 0),
        1 <= d < 8,
        forall|k: int| 1 <= k < d ==> ray_sq_free(m, p, dx, dy, k),
        occupied(m, p.x + d * dx, p.y + d * dy),
        cap.from == p,
        cap.to.piece_type == p.piece_type,
        cap.to.color == p.color,
        ray_hit(p, cap.to.x as int, cap.to.y as int, dx, dy, d),
    ensures
        forall|mv: ChessMove|
            ray_plausible(m, p, mv, dx, dy) <==> (ray_plausible_upto(m, p, mv, dx, dy, d) || (mv
                == cap && piece_in_bounds(cap.to) && !occupied_by(
                m,
                cap.to.x as int,
                cap.to.y as int,
                p.color,
            ))),
{
    assert(clear_ray(m, p, dx, dy, d));
    assert forall|mv: ChessMove| ray_plausible(m, p, mv, dx, dy) implies (ray_plausible_upto(
        m,
        p,
        mv,
        dx,
        dy,
        d,
    ) || (mv == cap && piece_in_bounds(cap.to) && !occupied_by(
        m,
        cap.to.x as int,
        cap.to.y as int,
        p.color,
    ))) by {
        let d2 = choose|d2: int|
            1 <= d2 < 8 && #[trigger] ray_hit(p, mv.to.x as int, mv.to.y as int, dx, dy, d2)
                && clear_ray(m, p, dx, dy, d2);
        if d2 > d {
            assert(!ray_sq_free(m, p, dx, dy, d));
            assert(false);
        } else if d2 == d {
            lemma_hit_same_square(p, mv.to, cap.to, dx, dy, d);
        }
    }
    assert forall|mv: ChessMove|
        (mv == cap && piece_in_bounds(cap.to) && !occupied_by(
            m,
            cap.to.x as int,
            cap.to.y as int,
            p.color,
        )) implies ray_plausible(m, p, mv, dx, dy) by {
        assert(ray_hit(p, cap.to.x as int, cap.to.y as int, dx, dy, d));
    }
}

/// When the walk stops on a piece of `p`'s own color at distance `d`, the
/// pseudo-legal moves along the ray are exactly those below `d`.
proof fn lemma_ray_stops_own(m: BoardModel, p: Piece, dx: int, dy: int, d: int)
    requires
        piece_in_bounds(p),
        -1 <= dx <= 1,
        -1 <= dy <= 1,
        !(dx == 0 && dy == 0),
        1 <= d < 8,
        forall|k: int| 1 <= k < d ==> ray_sq_free(m, p, dx, dy, k),
        occupied_by(m, p.x + d * dx, p.y + d * dy, p.color),
    ensures
        forall|mv: ChessMove|
            ray_plausible(m, p, mv, dx, dy) <==> ray_plausible_upto(m, p, mv, dx, dy, d),
{
    assert forall|mv: ChessMove| ray_plausible(m, p, mv, dx, dy) implies ray_plausible_upto(
        m,
        p,
        mv,
        dx,
        dy,
        d,
    ) by {
        let d2 = choose|d2: int|
            1 <= d2 < 8 && #[trigger] ray_hit(p, mv.to.x as int, mv.to.y as int, dx, dy, d2)
                && clear_ray(m, p, dx, dy, d2);
        if d2 > d {
            assert(occupied(m, p.x + d * dx, p.y + d * dy));
            assert(!ray_sq_free(m, p, dx, dy, d));
            assert(false);
        } else if d2 == d {
            assert(mv.to.x as int == p.x + d * dx && mv.to.y as int == p.y + d * dy);
            assert(occupied_by(m, mv.to.x as int, mv.to.y as int, p.color));
            assert(false);
        }
    }
}

/// Stepping past an empty square at distance `d` extends the collected moves
/// by exactly the quiet move onto that square.
proof fn lemma_ray_extends(m: BoardModel, p: Piece, step: ChessMove, dx: int, dy: int, d: int)
    requires
        piece_in_bounds(p),
        -1 <= dx <= 1,
        -1 <= dy <= 1,
        !(dx == 0 && dy == 0),
        1 <= d < 8,
        forall|k: int| 1 <= k < d ==> ray_sq_free(m, p, dx, dy, k),
        !occupied(m, p.x + d * dx, p.y + d * dy),
        in_bounds(p.x + d * dx, p.y + d * dy),
        step.from == p,
        step.to.piece_type == p.piece_type,
        step.to.color == p.color,
        ray_hit(p, step.to.x as int, step.to.y as int, dx, dy, d),
    ensures
        forall|mv: ChessMove|
            ray_plausible_upto(m, p, mv, dx, dy, d + 1) <==> (ray_plausible_upto(
                m,
                p,
                mv,
                dx,
                dy,
                d,
            ) || mv == step),
{
    assert(!occupied_by(m, step.to.x as int, step.to.y as int, p.color));
    assert(piece_in_bounds(step.to));
    assert(clear_ray(m, p, dx, dy, d));
    assert(ray_reaches_upto(m, p, step.to.x as int, step.to.y as int, dx, dy, d + 1));
    assert forall|mv: ChessMove| ray_plausible_upto(m, p, mv, dx, dy, d + 1) implies (
    ray_plausible_upto(m, p, mv, dx, dy, d) || mv == step) by {
        let d2 = choose|d2: int|
            1 <= d2 < d + 1 && #[trigger] ray_hit(p, mv.to.x as int, mv.to.y as int, dx, dy, d2)
                && clear_ray(m, p, dx, dy, d2);
        if d2 == d {
            lemma_hit_same_square(p, mv.to, step.to, dx, dy, d);
        }
    }
}

/// Two destinations hit at the same distance along the same ray stand on the
/// same square.
proof fn lemma_hit_same_square(p: Piece, a: Piece, b: Piece, dx: int, dy: int, d: int)
    requires
        ray_hit(p, a.x as int, a.y as int, dx, dy, d),
        ray_hit(p, b.x as int, b.y as int, dx, dy, d),
    ensures
        a.x == b.x && a.y == b.y,
{
}

} // verus!

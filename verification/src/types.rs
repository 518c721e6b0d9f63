//! Value types of the rules engine: players, piece kinds, pieces, moves,
//! castling rights, and the summary of an executed move.

use vstd::prelude::*;

verus! {

/// The two players. WHITE's home rank is 0, BLACK's is 7.
#[allow(non_camel_case_types)]
#[derive(Clone, Copy, PartialEq, Eq, Structural, Debug)]
pub enum PlayerColor {
    BLACK,
    WHITE,
}

/// The six piece kinds.
#[allow(non_camel_case_types)]
#[derive(Clone, Copy, PartialEq, Eq, Structural, Debug)]
pub enum PieceType {
    PAWN,
    ROOK,
    BISHOP,
    KNIGHT,
    KING,
    QUEEN,
}

/// A piece together with the square it stands on. Files and ranks are in
/// `[0, 8)`; identity is positional.
#[derive(Clone, Copy, PartialEq, Eq, Structural, Debug)]
pub struct Piece {
    pub x: i8,
    pub y: i8,
    pub piece_type: PieceType,
    pub color: PlayerColor,
}

/// A move: `from` is the moved piece on its old square, `to` carries the
/// destination square and the resulting piece kind and color.
#[derive(Clone, Copy, PartialEq, Eq, Structural, Debug)]
pub struct ChessMove {
    pub from: Piece,
    pub to: Piece,
}

/// The four castling-rights flags. Once a flag is cleared it is never
/// restored.
#[derive(Clone, Copy, PartialEq, Eq, Structural, Debug)]
pub struct CastlingRules {
    pub white_can_still_castle_q: bool,
    pub white_can_still_castle_k: bool,
    pub black_can_still_castle_q: bool,
    pub black_can_still_castle_k: bool,
}

/// Summary of one executed move for a presentation layer.
/// A position with no legal replies sets `was_checkmate` whether or not it
/// is check; `was_check` lets the caller tell checkmate from stalemate.
#[derive(Clone, Copy, PartialEq, Eq, Structural, Debug)]
pub struct MoveDescription {
    pub was_takes: bool,
    pub was_check: bool,
    pub was_checkmate: bool,
}

/// How a destination square can be used by the moving side.
#[allow(non_camel_case_types)]
#[derive(Clone, Copy, PartialEq, Eq, Structural, Debug)]
pub enum MovePlausibility {
    MOVE,
    TAKES,
    IMPOSSIBLE,
}

/// The color that moves after `c`.
pub open spec fn other(c: PlayerColor) -> PlayerColor {
    match c {
        PlayerColor::WHITE => PlayerColor::BLACK,
        PlayerColor::BLACK => PlayerColor::WHITE,
    }
}

/// A square `(x, y)` lies on the board.
pub open spec fn in_bounds(x: int, y: int) -> bool {
    0 <= x < 8 && 0 <= y < 8
}

/// The piece's square lies on the board.
pub open spec fn piece_in_bounds(p: Piece) -> bool {
    in_bounds(p.x as int, p.y as int)
}

/// The home row of a color: rank 0 for WHITE, rank 7 for BLACK.
pub open spec fn back_rank(c: PlayerColor) -> int {
    if c == PlayerColor::WHITE {
        0
    } else {
        7
    }
}

/// The direction a pawn of color `c` advances in.
pub open spec fn pawn_dir(c: PlayerColor) -> int {
    if c == PlayerColor::WHITE {
        1
    } else {
        -1
    }
}

/// The rank a pawn of color `c` starts on.
pub open spec fn pawn_home_rank(c: PlayerColor) -> int {
    if c == PlayerColor::WHITE {
        1
    } else {
        6
    }
}

/// The rank a pawn of color `c` must stand on to capture en passant; it is
/// also the rank the captured enemy pawn sits on.
pub open spec fn en_passant_rank(c: PlayerColor) -> int {
    if c == PlayerColor::WHITE {
        4
    } else {
        3
    }
}

/// A move of the king from its home square two files toward file 6, the
/// shape of kingside castling.
pub open spec fn kingside_castle_shape(mv: ChessMove) -> bool {
    &&& mv.from.piece_type == PieceType::KING
    &&& mv.from.x == 4
    &&& (mv.from.y == 0 || mv.from.y == 7)
    &&& (mv.to.y == 0 || mv.to.y == 7)
    &&& mv.to.x == 6
}

/// A move of the king from its home square two files toward file 2, the
/// shape of queenside castling.
pub open spec fn queenside_castle_shape(mv: ChessMove) -> bool {
    &&& mv.from.piece_type == PieceType::KING
    &&& mv.from.x == 4
    &&& (mv.from.y == 0 || mv.from.y == 7)
    &&& (mv.to.y == 0 || mv.to.y == 7)
    &&& mv.to.x == 2
}

/// The move of `p` to square `(tx, ty)`, keeping its kind and color.
pub open spec fn step_move(p: Piece, tx: i8, ty: i8) -> ChessMove {
    ChessMove { from: p, to: Piece { x: tx, y: ty, piece_type: p.piece_type, color: p.color } }
}

/// Whether a square lies on the board.
pub fn is_within_chessboard(x: i8, y: i8) -> (r: bool)
    ensures
        r == in_bounds(x as int, y as int),
{
    !(x >= 8 || y >= 8 || x < 0 || y < 0)
}

impl PlayerColor {
    /// The color that moves after `color`.
    pub fn opposite(color: PlayerColor) -> (r: PlayerColor)
        ensures
            r == other(color),
    {
        if color == PlayerColor::WHITE {
            return PlayerColor::BLACK;
        }
        PlayerColor::WHITE
    }
}

impl Piece {
    pub fn new(x: i8, y: i8, piece_type: PieceType, color: PlayerColor) -> (r: Piece)
        ensures
            r == (Piece { x, y, piece_type, color }),
    {
        Piece { x, y, piece_type, color }
    }

    /// The square the piece stands on.
    pub fn pos(&self) -> (r: (i8, i8))
        ensures
            r.0 == self.x,
            r.1 == self.y,
    {
        (self.x, self.y)
    }
}

impl ChessMove {
    pub fn new(from: Piece, to: Piece) -> (r: ChessMove)
        ensures
            r == (ChessMove { from, to }),
    {
        ChessMove { from, to }
    }

    /// Whether this move has the shape of kingside castling.
    pub fn is_king_side_castles(&self) -> (r: bool)
        ensures
            r == kingside_castle_shape(*self),
    {
        if self.from.piece_type != PieceType::KING {
            return false;
        }
        if self.from.x != 4 {
            return false;
        }
        if self.from.y != 0 && self.from.y != 7 {
            return false;
        }
        if self.to.y != 0 && self.to.y != 7 {
            return false;
        }
        if self.to.x != 6 {
            return false;
        }
        true
    }

    /// Whether this move has the shape of queenside castling.
    pub fn is_queen_side_castles(&self) -> (r: bool)
        ensures
            r == queenside_castle_shape(*self),
    {
        if self.from.piece_type != PieceType::KING {
            return false;
        }
        if self.from.x != 4 {
            return false;
        }
        if self.from.y != 0 && self.from.y != 7 {
            return false;
        }
        if self.to.y != 0 && self.to.y != 7 {
            return false;
        }
        if self.to.x != 2 {
            return false;
        }
        true
    }
}

impl CastlingRules {
    pub fn new(
        white_can_still_castle_q: bool,
        white_can_still_castle_k: bool,
        black_can_still_castle_q: bool,
        black_can_still_castle_k: bool,
    ) -> (r: CastlingRules)
        ensures
            r == (CastlingRules {
                white_can_still_castle_q,
                white_can_still_castle_k,
                black_can_still_castle_q,
                black_can_still_castle_k,
            }),
    {
        CastlingRules {
            white_can_still_castle_q,
            white_can_still_castle_k,
            black_can_still_castle_q,
            black_can_still_castle_k,
        }
    }
}

} // verus!

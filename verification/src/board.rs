//! The board snapshot: its mathematical model, well-formedness, square
//! occupancy queries, and the constructor that derives the castling flags.

use vstd::prelude::*;

use crate::types::{
    back_rank, in_bounds, piece_in_bounds, CastlingRules, Piece, PieceType, PlayerColor,
};

verus! {

/// Mathematical view of a board snapshot.
pub ghost struct BoardModel {
    pub pieces: Seq<Piece>,
    pub player_to_move: PlayerColor,
    pub rights: CastlingRules,
    pub en_passant_file: Option<i8>,
}

/// An immutable board snapshot. `can_castle_k_this_move` and
/// `can_castle_q_this_move` are derived once, at construction, for the side
/// to move.
pub struct BoardState {
    pub pieces: Vec<Piece>,
    pub player_to_move: PlayerColor,
    pub castling_rules: CastlingRules,
    pub can_castle_k_this_move: bool,
    pub can_castle_q_this_move: bool,
    pub can_take_en_passant: Option<i8>,
}

impl View for BoardState {
    type V = BoardModel;

    open spec fn view(&self) -> BoardModel {
        BoardModel {
            pieces: self.pieces@,
            player_to_move: self.player_to_move,
            rights: self.castling_rules,
            en_passant_file: self.can_take_en_passant,
        }
    }
}

/// No two pieces of the sequence share a square.
pub open spec fn distinct_squares(s: Seq<Piece>) -> bool {
    forall|i: int, j: int|
        #![trigger s[i], s[j]]
        0 <= i < s.len() && 0 <= j < s.len() && i != j ==> !(s[i].x == s[j].x && s[i].y == s[j].y)
}

/// Every piece of the sequence stands on the board.
pub open spec fn all_in_bounds(s: Seq<Piece>) -> bool {
    forall|i: int| 0 <= i < s.len() ==> piece_in_bounds(#[trigger] s[i])
}

/// A well-formed piece collection: on the board, one piece per square.
pub open spec fn pieces_wf(s: Seq<Piece>) -> bool {
    distinct_squares(s) && all_in_bounds(s)
}

/// Some piece stands on square `(x, y)`.
pub open spec fn occupied(m: BoardModel, x: int, y: int) -> bool {
    exists|p: Piece| #[trigger] m.pieces.contains(p) && p.x == x && p.y == y
}

/// A piece of color `c` stands on square `(x, y)`.
pub open spec fn occupied_by(m: BoardModel, x: int, y: int, c: PlayerColor) -> bool {
    exists|p: Piece| #[trigger] m.pieces.contains(p) && p.x == x && p.y == y && p.color == c
}

/// A piece of kind `t` stands on square `(x, y)`.
pub open spec fn piece_type_at(m: BoardModel, x: int, y: int, t: PieceType) -> bool {
    exists|p: Piece| #[trigger] m.pieces.contains(p) && p.x == x && p.y == y && p.piece_type == t
}

/// The castling-rights flag of color `c` on the kingside.
pub open spec fn right_k(r: CastlingRules, c: PlayerColor) -> bool {
    if c == PlayerColor::WHITE {
        r.white_can_still_castle_k
    } else {
        r.black_can_still_castle_k
    }
}

/// The castling-rights flag of color `c` on the queenside.
pub open spec fn right_q(r: CastlingRules, c: PlayerColor) -> bool {
    if c == PlayerColor::WHITE {
        r.white_can_still_castle_q
    } else {
        r.black_can_still_castle_q
    }
}

/// Color `c` may castle kingside this move: the rights flag is still set, a
/// king stands on its home square and a rook on the kingside corner, and the
/// squares strictly between them are empty.
pub open spec fn can_castle_kingside_for(m: BoardModel, c: PlayerColor) -> bool {
    let y = back_rank(c);
    &&& right_k(m.rights, c)
    &&& piece_type_at(m, 4, y, PieceType::KING)
    &&& piece_type_at(m, 7, y, PieceType::ROOK)
    &&& !occupied(m, 5, y)
    &&& !occupied(m, 6, y)
}

/// Color `c` may castle queenside this move; all three squares strictly
/// between the king and the queenside rook must be empty.
pub open spec fn can_castle_queenside_for(m: BoardModel, c: PlayerColor) -> bool {
    let y = back_rank(c);
    &&& right_q(m.rights, c)
    &&& piece_type_at(m, 4, y, PieceType::KING)
    &&& piece_type_at(m, 0, y, PieceType::ROOK)
    &&& !occupied(m, 1, y)
    &&& !occupied(m, 2, y)
    &&& !occupied(m, 3, y)
}

/// The side to move may castle kingside this move.
pub open spec fn can_castle_kingside(m: BoardModel) -> bool {
    can_castle_kingside_for(m, m.player_to_move)
}

/// The side to move may castle queenside this move.
pub open spec fn can_castle_queenside(m: BoardModel) -> bool {
    can_castle_queenside_for(m, m.player_to_move)
}

impl BoardModel {
    /// The piece collection is well-formed.
    pub open spec fn wf(self) -> bool {
        pieces_wf(self.pieces)
    }
}

impl BoardState {
    /// The snapshot is well-formed: its model is, and the derived castling
    /// flags agree with the position.
    pub open spec fn wf(&self) -> bool {
        &&& self@.wf()
        &&& self.can_castle_k_this_move == can_castle_kingside(self@)
        &&& self.can_castle_q_this_move == can_castle_queenside(self@)
    }

    /// The piece standing on square `(x, y)`, if any.
    pub fn get_piece_at_square(&self, x: i8, y: i8) -> (r: Option<Piece>)
        ensures
            match r {
                Some(p) => self@.pieces.contains(p) && p.x == x && p.y == y,
                None => !occupied(self@, x as int, y as int),
            },
    {
        let n = self.pieces.len();
        let mut i: usize = 0;
        while i < n
            invariant
                n == self.pieces.len(),
                i <= n,
                forall|k: int| 0 <= k < i ==> !((#[trigger] self.pieces@[k]).x == x && self.pieces@[k].y == y),
            decreases n - i,
        {
            let p = self.pieces[i];
            if p.x == x && p.y == y {
                return Some(p);
            }
            i = i + 1;
        }
        None
    }

    fn evaluate_can_king_side_castle(&self, player_color: PlayerColor) -> (r: bool)
        requires
            self@.wf(),
        ensures
            r == can_castle_kingside_for(self@, player_color),
    {
        let y: i8 = match player_color {
            PlayerColor::WHITE => 0,
            PlayerColor::BLACK => 7,
        };
        if player_color == PlayerColor::WHITE && !self.castling_rules.white_can_still_castle_k {
            return false;
        }
        if player_color == PlayerColor::BLACK && !self.castling_rules.black_can_still_castle_k {
            return false;
        }
        let piece_at_4 = self.get_piece_at_square(4, y);
        let piece_at_7 = self.get_piece_at_square(7, y);
        let king_home = match piece_at_4 {
            Some(p) => p.piece_type == PieceType::KING,
            None => false,
        };
        let rook_home = match piece_at_7 {
            Some(p) => p.piece_type == PieceType::ROOK,
            None => false,
        };
        king_home && rook_home && self.get_piece_at_square(5, y).is_none()
            && self.get_piece_at_square(6, y).is_none()
    }

    fn evaluate_can_queen_side_castle(&self, player_color: PlayerColor) -> (r: bool)
        requires
            self@.wf(),
        ensures
            r == can_castle_queenside_for(self@, player_color),
    {
        let y: i8 = match player_color {
            PlayerColor::WHITE => 0,
            PlayerColor::BLACK => 7,
        };
        if player_color == PlayerColor::WHITE && !self.castling_rules.white_can_still_castle_q {
            return false;
        }
        if player_color == PlayerColor::BLACK && !self.castling_rules.black_can_still_castle_q {
            return false;
        }
        let piece_at_4 = self.get_piece_at_square(4, y);
        let piece_at_0 = self.get_piece_at_square(0, y);
        let king_home = match piece_at_4 {
            Some(p) => p.piece_type == PieceType::KING,
            None => false,
        };
        let rook_home = match piece_at_0 {
            Some(p) => p.piece_type == PieceType::ROOK,
            None => false,
        };
        king_home && rook_home && self.get_piece_at_square(1, y).is_none()
            && self.get_piece_at_square(2, y).is_none()
            && self.get_piece_at_square(3, y).is_none()
    }

    /// Build a snapshot from a well-formed piece collection; the castling
    /// flags for the side to move are derived here, once.
    pub fn new(
        pieces: Vec<Piece>,
        player_to_move: PlayerColor,
        castling_rules: CastlingRules,
        can_take_en_passant: Option<i8>,
    ) -> (r: BoardState)
        requires
            pieces_wf(pieces@),
        ensures
            r@ == (BoardModel {
                pieces: pieces@,
                player_to_move,
                rights: castling_rules,
                en_passant_file: can_take_en_passant,
            }),
            r.wf(),
    {
        let mut state = BoardState {
            pieces,
            player_to_move,
            castling_rules,
            can_castle_k_this_move: false,
            can_castle_q_this_move: false,
            can_take_en_passant,
        };
        let k = state.evaluate_can_king_side_castle(state.player_to_move);
        let q = state.evaluate_can_queen_side_castle(state.player_to_move);
        state.can_castle_k_this_move = k;
        state.can_castle_q_this_move = q;
        state
    }

    /// An owned copy of the snapshot.
    pub fn duplicate(&self) -> (r: BoardState)
        ensures
            r@ == self@,
            r.can_castle_k_this_move == self.can_castle_k_this_move,
            r.can_castle_q_this_move == self.can_castle_q_this_move,
            self.wf() ==> r.wf(),
    {
        let n = self.pieces.len();
        let mut pieces: Vec<Piece> = Vec::new();
        let mut i: usize = 0;
        while i < n
            invariant
                n == self.pieces.len(),
                i <= n,
                pieces@ == self.pieces@.take(i as int),
            decreases n - i,
        {
            pieces.push(self.pieces[i]);
            proof {
                assert(pieces@ =~= self.pieces@.take(i + 1 as int));
            }
            i = i + 1;
        }
        proof {
            assert(pieces@ =~= self.pieces@);
        }
        BoardState {
            pieces,
            player_to_move: self.player_to_move,
            castling_rules: self.castling_rules,
            can_castle_k_this_move: self.can_castle_k_this_move,
            can_castle_q_this_move: self.can_castle_q_this_move,
            can_take_en_passant: self.can_take_en_passant,
        }
    }
}

/// A well-formed piece collection has at most one piece per board square,
/// so at most 64 pieces.
pub proof fn lemma_pieces_bound(s: Seq<Piece>)
    requires
        pieces_wf(s),
    ensures
        s.len() <= 64,
{
    let codes = s.map_values(|p: Piece| p.y as int * 8 + p.x as int);
    assert(codes.len() == s.len());
    assert forall|i: int, j: int|
        0 <= i < codes.len() && 0 <= j < codes.len() && i != j implies codes[i] != codes[j] by {
        assert(piece_in_bounds(s[i]));
        assert(piece_in_bounds(s[j]));
        assert(!(s[i].x == s[j].x && s[i].y == s[j].y));
    }
    assert(codes.no_duplicates());
    codes.unique_seq_to_set();
    let range = vstd::set_lib::set_int_range(0, 64);
    vstd::set_lib::lemma_int_range(0, 64);
    assert forall|v: int| codes.to_set().contains(v) implies range.contains(v) by {
        let i = choose|i: int| 0 <= i < codes.len() && codes[i] == v;
        assert(piece_in_bounds(s[i]));
    }
    assert(codes.to_set().subset_of(range));
    vstd::set_lib::lemma_len_subset(codes.to_set(), range);
}

} // verus!

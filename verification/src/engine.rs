//! The automated opponent: a static evaluation in tenths of a pawn, a
//! fixed-depth minimax score, a best-move chooser, and the engine's
//! non-blocking polling state machine. The host that actually spawns the
//! background computation lives outside the library; the engine here decides
//! when one may be spawned and never allows a second while one is in flight.

use vstd::prelude::*;

use crate::board::{lemma_pieces_bound, pieces_wf, BoardModel, BoardState};
use crate::check::{in_check, one_king};
use crate::legal::{has_legal_move, legal_move_of, lemma_play_preserves_invariants};
use crate::transition::after_move_model;
use crate::types::{other, ChessMove, Piece, PieceType, PlayerColor};

verus! {

broadcast use vstd::seq_lib::lemma_seq_contains_after_push;

/// The search depth of the background computation, in plies.
pub const SEARCH_DEPTH: u32 = 2;

/// A piece's material worth in tenths of a pawn: pawn 10, knight 30, bishop
/// 32, rook 50, queen 90, king 0.
pub open spec fn piece_worth(t: PieceType) -> int {
    match t {
        PieceType::PAWN => 10,
        PieceType::KNIGHT => 30,
        PieceType::BISHOP => 32,
        PieceType::ROOK => 50,
        PieceType::QUEEN => 90,
        PieceType::KING => 0,
    }
}

/// A piece's worth counted positively for WHITE and negatively for BLACK.
pub open spec fn signed_worth(p: Piece) -> int {
    if p.color == PlayerColor::WHITE {
        piece_worth(p.piece_type)
    } else {
        -piece_worth(p.piece_type)
    }
}

/// The signed material sum of a piece collection.
pub open spec fn material(s: Seq<Piece>) -> int
    decreases s.len(),
{
    if s.len() == 0 {
        0
    } else {
        material(s.drop_last()) + signed_worth(s.last())
    }
}

/// +1 for WHITE, -1 for BLACK.
pub open spec fn side_sign(c: PlayerColor) -> int {
    if c == PlayerColor::WHITE {
        1
    } else {
        -1
    }
}

/// The static evaluation of a position, in tenths of a pawn: the signed
/// material sum, a penalty of one pawn against a side to move that is in
/// check, and a penalty of a thousand pawns against a side to move with no
/// legal reply (stalemate included, as the terminal signal does not
/// distinguish the two).
pub open spec fn eval_spec(m: BoardModel) -> int {
    material(m.pieces) + (if in_check(m, m.player_to_move) {
        -10 * side_sign(m.player_to_move)
    } else {
        0
    }) + (if !has_legal_move(m) {
        -10000 * side_sign(m.player_to_move)
    } else {
        0
    })
}

/// Always true. Quantifiers that range over candidate scores name it as
/// their instantiation key: inside the minimax relation's own recursive
/// definition the relation itself cannot serve as a trigger, so this anchor
/// stands in for the score variable.
pub open spec fn considered_score(w: int) -> bool {
    true
}

/// Some legal move leads to a position whose minimax score at `depth` plies
/// is `v`.
pub open spec fn some_child_attains(m: BoardModel, depth: int, v: int) -> bool
    decreases depth, 1int,
{
    exists|mv: ChessMove|
        #[trigger] legal_move_of(m, mv) && is_minimax_score(after_move_model(m, mv), depth, v)
}

/// `v` bounds, from the side to move's point of view, the minimax score at
/// `depth` plies of every position a legal move leads to: from above when
/// WHITE is to move, from below when BLACK is.
pub open spec fn bounds_children(m: BoardModel, depth: int, v: int) -> bool
    decreases depth, 1int,
{
    forall|mv: ChessMove, w: int|
        #![trigger legal_move_of(m, mv), considered_score(w)]
        legal_move_of(m, mv) && considered_score(w) && is_minimax_score(
            after_move_model(m, mv),
            depth,
            w,
        ) ==> (if m.player_to_move == PlayerColor::WHITE {
            w <= v
        } else {
            w >= v
        })
}

/// `v` is the minimax score of `m` at `depth` plies: a position at depth
/// zero or without a legal reply scores its static evaluation; otherwise the
/// position scores the best of its children's scores — the maximum when
/// WHITE is to move, the minimum when BLACK is. The relation determines `v`
/// uniquely (`lemma_minimax_unique`).
pub open spec fn is_minimax_score(m: BoardModel, depth: int, v: int) -> bool
    decreases depth, 0int,
{
    if depth <= 0 || !has_legal_move(m) {
        v == eval_spec(m)
    } else {
        some_child_attains(m, depth - 1, v) && bounds_children(m, depth - 1, v)
    }
}

/// `mv` is a best choice on `m` for the side to move: it is legal, and the
/// minimax score of the position it produces, at `depth` plies, bounds the
/// score of every legal alternative from the proper side.
pub open spec fn is_best_choice(m: BoardModel, mv: ChessMove, depth: int) -> bool {
    &&& legal_move_of(m, mv)
    &&& exists|v: int|
        #![trigger considered_score(v)]
        considered_score(v) && is_minimax_score(after_move_model(m, mv), depth, v)
            && bounds_children(m, depth, v)
}

/// At most one value stands in the minimax relation to a position: at the
/// base it is the static evaluation, and above it each candidate attains a
/// score the other bounds.
pub proof fn lemma_minimax_unique(m: BoardModel, depth: int, v: int, w: int)
    requires
        is_minimax_score(m, depth, v),
        is_minimax_score(m, depth, w),
    ensures
        v == w,
{
    if depth <= 0 || !has_legal_move(m) {
    } else {
        let mv_v = choose|mv: ChessMove|
            #[trigger] legal_move_of(m, mv) && is_minimax_score(
                after_move_model(m, mv),
                depth - 1,
                v,
            );
        let mv_w = choose|mv: ChessMove|
            #[trigger] legal_move_of(m, mv) && is_minimax_score(
                after_move_model(m, mv),
                depth - 1,
                w,
            );
        assert(is_minimax_score(after_move_model(m, mv_v), depth - 1, v));
        assert(is_minimax_score(after_move_model(m, mv_w), depth - 1, w));
        assert(considered_score(v) && considered_score(w));
    }
}

/// Each piece moves the material sum by at most a queen's worth.
proof fn lemma_material_bound(s: Seq<Piece>)
    ensures
        -90 * s.len() <= material(s) <= 90 * s.len(),
    decreases s.len(),
{
    if s.len() > 0 {
        lemma_material_bound(s.drop_last());
    }
}

/// On a well-formed board the static evaluation is bounded by the worth of
/// sixty-four queens plus both penalty terms.
pub proof fn lemma_eval_bound(m: BoardModel)
    requires
        pieces_wf(m.pieces),
    ensures
        -15770 <= eval_spec(m) <= 15770,
{
    lemma_pieces_bound(m.pieces);
    lemma_material_bound(m.pieces);
}

/// The outcome of one engine poll: whether the host should spawn the
/// background computation now, and the result to hand to the caller.
pub struct EnginePoll {
    pub should_spawn: bool,
    pub result: Option<ChessMove>,
}

/// The engine's state machine: IDLE (no worker) or COMPUTING (exactly one
/// worker in flight).
pub struct Engine {
    pub computing: bool,
}

impl Engine {
    /// A fresh engine, idle.
    pub fn new() -> (e: Engine)
        ensures
            !e.computing,
    {
        Engine { computing: false }
    }

    /// One non-blocking poll. `received` is what the host's one-shot channel
    /// held. A spawn is requested only from the idle state — repeated polls
    /// before a result is ready never request a second worker — and a
    /// received result returns the engine to idle.
    pub fn maybe_calculate_move(&mut self, received: Option<ChessMove>) -> (r: EnginePoll)
        ensures
            r.should_spawn == !old(self).computing,
            r.result == received,
            final(self).computing == received.is_none(),
    {
        let should_spawn = !self.computing;
        self.computing = received.is_none();
        EnginePoll { should_spawn, result: received }
    }

    /// A piece's material worth in tenths of a pawn.
    pub fn get_piece_worth(p: &Piece) -> (r: i64)
        ensures
            r == piece_worth(p.piece_type),
    {
        match p.piece_type {
            PieceType::PAWN => 10,
            PieceType::KNIGHT => 30,
            PieceType::BISHOP => 32,
            PieceType::ROOK => 50,
            PieceType::QUEEN => 90,
            PieceType::KING => 0,
        }
    }

    /// The static evaluation of `board`, in tenths of a pawn.
    pub fn static_position_evaluation(board: &BoardState) -> (r: i64)
        requires
            board.wf(),
            one_king(board@, board@.player_to_move),
        ensures
            r == eval_spec(board@),
    {
        let ghost m = board@;
        let n = board.pieces.len();
        proof {
            lemma_pieces_bound(m.pieces);
        }
        let mut result: i64 = 0;
        let mut i: usize = 0;
        while i < n
            invariant
                n == board.pieces@.len(),
                i <= n,
                m == board@,
                n <= 64,
                result == material(m.pieces.take(i as int)),
                -90 * i <= result <= 90 * i,
            decreases n - i,
        {
            let p = board.pieces[i];
            let worth = Engine::get_piece_worth(&p);
            proof {
                assert(m.pieces.take(i + 1 as int).drop_last() =~= m.pieces.take(i as int));
                assert(m.pieces.take(i + 1 as int).last() == p);
            }
            match p.color {
                PlayerColor::WHITE => {
                    result = result + worth;
                },
                PlayerColor::BLACK => {
                    result = result - worth;
                },
            }
            i = i + 1;
        }
        proof {
            assert(m.pieces.take(n as int) =~= m.pieces);
        }
        if board.is_check(None) {
            if board.player_to_move == PlayerColor::WHITE {
                result = result - 10;
            } else {
                result = result + 10;
            }
        }
        let legal = board.get_all_legal_moves();
        proof {
            if legal@.len() > 0 {
                assert(legal@.contains(legal@[0]));
                assert(legal_move_of(m, legal@[0]));
            }
            if has_legal_move(m) {
                let w = choose|w: ChessMove| #[trigger] legal_move_of(m, w);
                assert(legal@.contains(w));
            }
        }
        if legal.len() == 0 {
            if board.player_to_move == PlayerColor::WHITE {
                result = result - 10000;
            } else {
                result = result + 10000;
            }
        }
        result
    }

    /// The minimax score of `board` at the given depth, in tenths of a pawn:
    /// a position with no legal replies, or at depth zero, scores its static
    /// evaluation; otherwise the position scores the maximum of its
    /// children's scores when WHITE is to move, the minimum when BLACK is.
    pub fn compute_position_score(board_state: &BoardState, depth: u32) -> (r: i64)
        requires
            board_state.wf(),
            one_king(board_state@, PlayerColor::WHITE),
            one_king(board_state@, PlayerColor::BLACK),
            !in_check(board_state@, other(board_state@.player_to_move)),
        ensures
            -15770 <= r <= 15770,
            is_minimax_score(board_state@, depth as int, r as int),
        decreases depth,
    {
        let ghost m = board_state@;
        let moves = board_state.get_all_legal_moves();
        proof {
            if moves@.len() > 0 {
                assert(moves@.contains(moves@[0]));
            }
            if has_legal_move(m) {
                let w = choose|w: ChessMove| #[trigger] legal_move_of(m, w);
                assert(moves@.contains(w));
            }
        }
        if moves.len() == 0 || depth == 0 {
            proof {
                lemma_eval_bound(m);
            }
            return Engine::static_position_evaluation(board_state);
        }
        let white_to_move = board_state.player_to_move == PlayerColor::WHITE;
        let first = moves[0];
        proof {
            assert(moves@.contains(first));
            assert(legal_move_of(m, first));
            lemma_play_preserves_invariants(m, first);
        }
        let child = board_state.after_move(first);
        let mut best = Engine::compute_position_score(&child, depth - 1);
        let ghost mut best_src = moves@[0];
        let mut i: usize = 1;
        proof {
            assert(is_minimax_score(after_move_model(m, moves@[0]), depth - 1, best as int));
            assert forall|j: int, w: int|
                0 <= j < i && #[trigger] is_minimax_score(
                    after_move_model(m, moves@[j]),
                    depth - 1,
                    w,
                ) implies (if white_to_move {
                w <= best
            } else {
                w >= best
            }) by {
                lemma_minimax_unique(after_move_model(m, moves@[0]), depth - 1, w, best as int);
            }
        }
        while i < moves.len()
            invariant
                m == board_state@,
                board_state.wf(),
                one_king(m, PlayerColor::WHITE),
                one_king(m, PlayerColor::BLACK),
                !in_check(m, other(m.player_to_move)),
                forall|mv: ChessMove|
                    #![trigger moves@.contains(mv)]
                    #![trigger legal_move_of(m, mv)]
                    moves@.contains(mv) <==> legal_move_of(m, mv),
                depth >= 1,
                1 <= i <= moves@.len(),
                -15770 <= best <= 15770,
                white_to_move == (m.player_to_move == PlayerColor::WHITE),
                legal_move_of(m, best_src),
                is_minimax_score(after_move_model(m, best_src), depth - 1, best as int),
                forall|j: int, w: int|
                    0 <= j < i && #[trigger] is_minimax_score(
                        after_move_model(m, moves@[j]),
                        depth - 1,
                        w,
                    ) ==> (if white_to_move {
                        w <= best
                    } else {
                        w >= best
                    }),
            decreases moves@.len() - i,
        {
            let mv = moves[i];
            proof {
                assert(moves@.contains(mv));
                assert(legal_move_of(m, mv));
                lemma_play_preserves_invariants(m, mv);
            }
            let ghost old_best = best;
            let child = board_state.after_move(mv);
            let score = Engine::compute_position_score(&child, depth - 1);
            if white_to_move {
                if score > best {
                    best = score;
                    proof {
                        best_src = mv;
                    }
                }
            } else {
                if score < best {
                    best = score;
                    proof {
                        best_src = mv;
                    }
                }
            }
            proof {
                assert(is_minimax_score(after_move_model(m, mv), depth - 1, score as int));
                assert forall|j: int, w: int|
                    0 <= j < i + 1 && #[trigger] is_minimax_score(
                        after_move_model(m, moves@[j]),
                        depth - 1,
                        w,
                    ) implies (if white_to_move {
                    w <= best
                } else {
                    w >= best
                }) by {
                    if j == i {
                        lemma_minimax_unique(
                            after_move_model(m, moves@[j]),
                            depth - 1,
                            w,
                            score as int,
                        );
                    }
                }
            }
            i = i + 1;
        }
        proof {
            assert(moves@.contains(moves@[0]));
            assert(legal_move_of(m, moves@[0]));
            assert(has_legal_move(m));
            assert(legal_move_of(m, best_src) && is_minimax_score(
                after_move_model(m, best_src),
                depth as int - 1,
                best as int,
            ));
            assert(some_child_attains(m, depth as int - 1, best as int));
            assert forall|mv: ChessMove, w: int|
                #![trigger legal_move_of(m, mv), considered_score(w)]
                legal_move_of(m, mv) && considered_score(w) && is_minimax_score(
                    after_move_model(m, mv),
                    depth as int - 1,
                    w,
                ) implies (if m.player_to_move == PlayerColor::WHITE {
                w <= best as int
            } else {
                w >= best as int
            }) by {
                assert(moves@.contains(mv));
                let j = choose|j: int| 0 <= j < moves@.len() && moves@[j] == mv;
                assert(is_minimax_score(after_move_model(m, moves@[j]), depth - 1, w));
            }
            assert(bounds_children(m, depth as int - 1, best as int));
            assert(is_minimax_score(m, depth as int, best as int));
        }
        best
    }

    /// The background computation: pick, among the legal moves of the side
    /// to move, one whose resulting position's minimax score is best for
    /// that side — or nothing when the position is terminal, in which case
    /// the engine must not have been invoked at all.
    pub fn compute_best_move(board_state: &BoardState) -> (r: Option<ChessMove>)
        requires
            board_state.wf(),
            one_king(board_state@, PlayerColor::WHITE),
            one_king(board_state@, PlayerColor::BLACK),
            !in_check(board_state@, other(board_state@.player_to_move)),
        ensures
            r.is_some() <==> has_legal_move(board_state@),
            match r {
                Some(mv) => is_best_choice(board_state@, mv, SEARCH_DEPTH as int),
                None => true,
            },
    {
        let ghost m = board_state@;
        let ghost depth = SEARCH_DEPTH as int;
        let moves = board_state.get_all_legal_moves();
        if moves.len() == 0 {
            proof {
                if has_legal_move(m) {
                    let w = choose|w: ChessMove| #[trigger] legal_move_of(m, w);
                    assert(moves@.contains(w));
                }
            }
            return None;
        }
        let white_to_move = board_state.player_to_move == PlayerColor::WHITE;
        let mut best_move = moves[0];
        proof {
            assert(moves@.contains(best_move));
            lemma_play_preserves_invariants(m, best_move);
        }
        let child = board_state.after_move(best_move);
        let mut best_score = Engine::compute_position_score(&child, SEARCH_DEPTH);
        let mut i: usize = 1;
        proof {
            assert forall|j: int, w: int|
                0 <= j < i && #[trigger] is_minimax_score(
                    after_move_model(m, moves@[j]),
                    depth,
                    w,
                ) implies (if white_to_move {
                w <= best_score
            } else {
                w >= best_score
            }) by {
                lemma_minimax_unique(after_move_model(m, moves@[0]), depth, w, best_score as int);
            }
        }
        while i < moves.len()
            invariant
                m == board_state@,
                board_state.wf(),
                one_king(m, PlayerColor::WHITE),
                one_king(m, PlayerColor::BLACK),
                !in_check(m, other(m.player_to_move)),
                forall|mv: ChessMove|
                    #![trigger moves@.contains(mv)]
                    #![trigger legal_move_of(m, mv)]
                    moves@.contains(mv) <==> legal_move_of(m, mv),
                1 <= i <= moves@.len(),
                depth == SEARCH_DEPTH as int,
                white_to_move == (m.player_to_move == PlayerColor::WHITE),
                legal_move_of(m, best_move),
                is_minimax_score(after_move_model(m, best_move), depth, best_score as int),
                forall|j: int, w: int|
                    0 <= j < i && #[trigger] is_minimax_score(
                        after_move_model(m, moves@[j]),
                        depth,
                        w,
                    ) ==> (if white_to_move {
                        w <= best_score
                    } else {
                        w >= best_score
                    }),
            decreases moves@.len() - i,
        {
            let mv = moves[i];
            proof {
                assert(moves@.contains(mv));
                assert(legal_move_of(m, mv));
                lemma_play_preserves_invariants(m, mv);
            }
            let child = board_state.after_move(mv);
            let score = Engine::compute_position_score(&child, SEARCH_DEPTH);
            let better = if white_to_move {
                score > best_score
            } else {
                score < best_score
            };
            if better {
                best_score = score;
                best_move = mv;
            }
            proof {
                assert(is_minimax_score(after_move_model(m, mv), depth, score as int));
                assert forall|j: int, w: int|
                    0 <= j < i + 1 && #[trigger] is_minimax_score(
                        after_move_model(m, moves@[j]),
                        depth,
                        w,
                    ) implies (if white_to_move {
                    w <= best_score
                } else {
                    w >= best_score
                }) by {
                    if j == i {
                        lemma_minimax_unique(
                            after_move_model(m, moves@[j]),
                            depth,
                            w,
                            score as int,
                        );
                    }
                }
            }
            i = i + 1;
        }
        proof {
            assert forall|mv: ChessMove, w: int|
                #![trigger legal_move_of(m, mv), considered_score(w)]
                legal_move_of(m, mv) && considered_score(w) && is_minimax_score(
                    after_move_model(m, mv),
                    depth,
                    w,
                ) implies (if m.player_to_move == PlayerColor::WHITE {
                w <= best_score as int
            } else {
                w >= best_score as int
            }) by {
                assert(moves@.contains(mv));
                let j = choose|j: int| 0 <= j < moves@.len() && moves@[j] == mv;
                assert(is_minimax_score(after_move_model(m, moves@[j]), depth, w));
            }
            assert(bounds_children(m, depth, best_score as int));
            assert(considered_score(best_score as int));
            assert(is_best_choice(m, best_move, depth));
        }
        Some(best_move)
    }
}

} // verus!

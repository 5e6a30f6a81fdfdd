use vstd::prelude::*;
use crate::attacks::{bishop_attack, bishop_attacks, king_attacks, king_step, knight_attacks, knight_step, pawn_attack_step, rook_attack, rook_attacks};
use crate::bitboard::{lemma_on_sq_or, lemma_zero_has_nothing, on_sq};
use crate::board_rep::{BoardRep, piece_at};
use crate::king_analysis::{KingPositionAnalysis, ThreatRaycastCollision};
use crate::move_generation::{bit_at, get_pawn_threatboard};
use crate::piece_type::PieceType;

verus! {

/// The occupancy that a side's threats see: the board's, without the opponent's king.
pub open spec fn occupancy_without_opponent_king(board: BoardRep, is_black: bool) -> u64 {
    board.occupancy ^ (1u64 << if is_black { board.white_king_position } else { board.black_king_position })
}

/// Whether the piece on `p` of a side threatens `t`, sliders seeing `occ` as occupied.
pub open spec fn piece_threat(board: BoardRep, is_black: bool, occ: u64, p: int, t: int) -> bool {
    match piece_at(board, p) {
        PieceType::Pawn => pawn_attack_step(p, is_black, t),
        PieceType::Knight => knight_step(p, t),
        PieceType::Bishop => bishop_attack(p, occ, t),
        PieceType::Rook => rook_attack(p, occ, t),
        PieceType::Queen => bishop_attack(p, occ, t) || rook_attack(p, occ, t),
        PieceType::King => king_step(p, t),
        PieceType::NoPiece => false,
    }
}

/// Whether a piece of `pieces` on `p` threatens `t` (see `piece_threat`).
pub open spec fn threatens_from(board: BoardRep, is_black: bool, pieces: u64, p: int, t: int) -> bool {
    0 <= p < 64 && on_sq(pieces, p) && piece_threat(board, is_black, occupancy_without_opponent_king(board, is_black), p, t)
}

fn piece_threats(board: &BoardRep, is_black: bool, occ: u64, p: u8) -> (r: u64)
    requires
        p < 64,
    ensures
        forall|t: int| 0 <= t < 64 ==> (#[trigger] on_sq(r, t) <==> piece_threat(*board, is_black, occ, p as int, t)),
{
    match board.get_piece_type_at_index(p) {
        PieceType::Pawn => get_pawn_threatboard(p, is_black),
        PieceType::Knight => knight_attacks(p),
        PieceType::Bishop => bishop_attacks(p, occ),
        PieceType::Rook => rook_attacks(p, occ),
        PieceType::Queen => {
            let b = bishop_attacks(p, occ);
            let rk = rook_attacks(p, occ);
            proof {
                assert forall|t: int| 0 <= t < 64 implies (#[trigger] on_sq(b | rk, t) <==> (on_sq(b, t) || on_sq(rk, t))) by {
                    lemma_on_sq_or(b, rk, t as u64);
                }
            }
            b | rk
        },
        PieceType::King => king_attacks(p),
        PieceType::NoPiece => {
            proof {
                assert forall|t: int| 0 <= t < 64 implies !#[trigger] on_sq(0u64, t) by {
                    lemma_zero_has_nothing(t as u64);
                }
            }
            0
        },
    }
}

/// The squares that the pieces `piece_occupancy` of a side threaten, the opponent's king
/// taken off the board (see `piece_threat`).
pub fn generate_threat_board(is_black: bool, piece_occupancy: u64, board: BoardRep) -> (r: u64)
    requires
        board.wf(),
    ensures
        forall|t: int| 0 <= t < 64 ==> (#[trigger] on_sq(r, t) <==> exists|p: int| #[trigger] threatens_from(board, is_black, piece_occupancy, p, t)),
{
    let occ = if is_black {
        board.occupancy ^ (1u64 << board.white_king_position)
    } else {
        board.occupancy ^ (1u64 << board.black_king_position)
    };
    assert(occ == occupancy_without_opponent_king(board, is_black));
    let mut r: u64 = 0;
    proof {
        assert forall|t: int| 0 <= t < 64 implies !#[trigger] on_sq(0u64, t) by {
            lemma_zero_has_nothing(t as u64);
        }
    }
    let mut sq: u8 = 0;
    while sq < 64
        invariant
            sq <= 64,
            board.wf(),
            occ == occupancy_without_opponent_king(board, is_black),
            forall|t: int| 0 <= t < 64 ==> (#[trigger] on_sq(r, t) <==> exists|p: int| p < sq && #[trigger] threatens_from(board, is_black, piece_occupancy, p, t)),
        decreases 64 - sq,
    {
        if bit_at(piece_occupancy, sq) {
            let threats = piece_threats(&board, is_black, occ, sq);
            let nr = r | threats;
            proof {
                assert forall|t: int| 0 <= t < 64 implies (#[trigger] on_sq(nr, t) <==> exists|p: int| p < sq + 1 && #[trigger] threatens_from(board, is_black, piece_occupancy, p, t)) by {
                    lemma_on_sq_or(r, threats, t as u64);
                    if on_sq(threats, t) {
                        assert(threatens_from(board, is_black, piece_occupancy, sq as int, t));
                    }
                    if exists|p: int| p < sq + 1 && #[trigger] threatens_from(board, is_black, piece_occupancy, p, t) {
                        let p = choose|p: int| p < sq + 1 && #[trigger] threatens_from(board, is_black, piece_occupancy, p, t);
                        if p < sq {
                            assert(exists|p: int| p < sq && #[trigger] threatens_from(board, is_black, piece_occupancy, p, t));
                        }
                    }
                }
            }
            r = nr;
        } else {
            proof {
                assert forall|t: int| 0 <= t < 64 implies (#[trigger] on_sq(r, t) <==> exists|p: int| p < sq + 1 && #[trigger] threatens_from(board, is_black, piece_occupancy, p, t)) by {
                    if exists|p: int| p < sq + 1 && #[trigger] threatens_from(board, is_black, piece_occupancy, p, t) {
                        let p = choose|p: int| p < sq + 1 && #[trigger] threatens_from(board, is_black, piece_occupancy, p, t);
                        if p < sq {
                            assert(exists|p: int| p < sq && #[trigger] threatens_from(board, is_black, piece_occupancy, p, t));
                        }
                    }
                }
            }
        }
        sq = sq + 1;
    }
    proof {
        assert forall|t: int| 0 <= t < 64 implies (#[trigger] on_sq(r, t) <==> exists|p: int| #[trigger] threatens_from(board, is_black, piece_occupancy, p, t)) by {
            if exists|p: int| #[trigger] threatens_from(board, is_black, piece_occupancy, p, t) {
                let p = choose|p: int| #[trigger] threatens_from(board, is_black, piece_occupancy, p, t);
                assert(p < 64);
            }
        }
    }
    r
}

/// What move generation learns for the evaluation: each side's threat board and pins.
pub struct MoveGenerationEvalMetrics {
    pub white_threatboard: u64,
    pub black_threatboard: u64,
    pub white_pinned: Vec<ThreatRaycastCollision>,
    pub black_pinned: Vec<ThreatRaycastCollision>,
}

fn copy_pins(pins: &Vec<ThreatRaycastCollision>) -> (r: Vec<ThreatRaycastCollision>)
    ensures
        r@ == pins@,
{
    let mut r: Vec<ThreatRaycastCollision> = Vec::new();
    let mut i: usize = 0;
    while i < pins.len()
        invariant
            i <= pins@.len(),
            r@ == pins@.subrange(0, i as int),
        decreases pins@.len() - i,
    {
        r.push(pins[i]);
        i = i + 1;
    }
    r
}

/// The metrics from the side to move (`is_black`) and its opponent: the threat boards and
/// pins put on the white or the black side according to the colour.
pub fn build_move_generation_eval_metrics(
    is_black: bool,
    friendly_king_analysis: &KingPositionAnalysis,
    opponent_king_analysis: &KingPositionAnalysis,
    friendly_threatboard: u64,
    opponent_threatboard: u64,
) -> (r: MoveGenerationEvalMetrics)
    ensures
        r.white_threatboard == if is_black { opponent_threatboard } else { friendly_threatboard },
        r.black_threatboard == if is_black { friendly_threatboard } else { opponent_threatboard },
        r.white_pinned@ == if is_black { opponent_king_analysis.pins@ } else { friendly_king_analysis.pins@ },
        r.black_pinned@ == if is_black { friendly_king_analysis.pins@ } else { opponent_king_analysis.pins@ },
{
    if is_black {
        MoveGenerationEvalMetrics {
            white_threatboard: opponent_threatboard,
            black_threatboard: friendly_threatboard,
            black_pinned: copy_pins(&friendly_king_analysis.pins),
            white_pinned: copy_pins(&opponent_king_analysis.pins),
        }
    } else {
        MoveGenerationEvalMetrics {
            white_threatboard: friendly_threatboard,
            black_threatboard: opponent_threatboard,
            black_pinned: copy_pins(&opponent_king_analysis.pins),
            white_pinned: copy_pins(&friendly_king_analysis.pins),
        }
    }
}

impl Default for MoveGenerationEvalMetrics {
    /// No threats and no pins.
    fn default() -> (r: MoveGenerationEvalMetrics)
        ensures
            r.white_threatboard == 0,
            r.black_threatboard == 0,
            r.white_pinned@.len() == 0,
            r.black_pinned@.len() == 0,
    {
        MoveGenerationEvalMetrics { white_threatboard: 0, black_threatboard: 0, white_pinned: Vec::new(), black_pinned: Vec::new() }
    }
}

} // verus!

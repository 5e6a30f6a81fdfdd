use vstd::prelude::*;
use crate::attacks::{knight_attacks, knight_step};
use crate::bitboard::{on_sq, lemma_on_sq_and, lemma_zero_iff_no_square};
use crate::board_rep::BoardRep;
use crate::board_utils::{rank_of, chebyshev_spec, chebyshev_distance, get_rank};
use crate::chess_move::Move;
use crate::constants::{MF_CAPTURE, MF_EP_CAPTURE, MF_DOUBLE_PAWN_PUSH, MF_KNIGHT_PROMOTION, MF_BISHOP_PROMOTION, MF_ROOK_PROMOTION, MF_QUEEN_PROMOTION, MF_KNIGHT_CAPTURE_PROMOTION, MF_BISHOP_CAPTURE_PROMOTION, MF_ROOK_CAPTURE_PROMOTION, MF_QUEEN_CAPTURE_PROMOTION, MF_KING_CASTLING, MF_QUEEN_CASTLING};
use crate::king_analysis::{ThreatRaycastCollision, ThreatSource, KingPositionAnalysis, line_between, squares_between, first_pin};
use crate::position::Position;
use crate::board_rep::piece_at;
use crate::move_generation::{find_pin, friendly_king, ep_leads_to_orthogonal_check};
use crate::board_utils::{file_of, get_file};
use crate::attacked_by::any_spec;
use crate::attack_and_defend_lookups::attacked_by_spec;
use crate::piece_type::PieceType;
use crate::move_generation::bit_at;

verus! {

/// Whether two squares share a rank or a file.
pub open spec fn slide_orthogonal(a: int, b: int) -> bool {
    a / 8 == b / 8 || a % 8 == b % 8
}

/// Whether two squares share a diagonal (and neither a rank nor a file).
pub open spec fn slide_diagonal(a: int, b: int) -> bool {
    !slide_orthogonal(a, b) && (a / 8 - b / 8 == a % 8 - b % 8 || a / 8 - b / 8 == b % 8 - a % 8)
}

/// Whether no square strictly between two squares of a line is occupied.
pub open spec fn path_clear(occ: u64, a: int, b: int) -> bool {
    forall|t: int| #[trigger] line_between(a, b, t) ==> !on_sq(occ, t)
}

/// Whether two squares share a rank or a file, and whether they share a diagonal.
pub fn slide_kind(a: u8, b: u8) -> (r: (bool, bool))
    requires
        a < 64,
        b < 64,
    ensures
        r.0 == slide_orthogonal(a as int, b as int),
        r.1 == slide_diagonal(a as int, b as int),
{
    let (ra, fa, rb, fb) = ((a / 8) as i8, (a % 8) as i8, (b / 8) as i8, (b % 8) as i8);
    let orthogonal = ra == rb || fa == fb;
    (orthogonal, !orthogonal && (ra - rb == fa - fb || ra - rb == fb - fa))
}

/// Whether no square strictly between `a` and `b` on a line is occupied.
pub fn slide_clear(occupancy: u64, a: u8, b: u8) -> (r: bool)
    requires
        a < 64,
        b < 64,
    ensures
        r == path_clear(occupancy, a as int, b as int),
{
    let between = squares_between(a, b);
    let blocked = occupancy & between;
    proof {
        lemma_zero_iff_no_square(blocked);
        assert forall|t: int| 0 <= t < 64 implies (#[trigger] on_sq(blocked, t) <==> (on_sq(occupancy, t)
            && line_between(a as int, b as int, t))) by {
            lemma_on_sq_and(occupancy, between, t as u64);
        }
        if blocked != 0 {
            let t = choose|t: u64| t < 64 && on_sq(blocked, t as int);
            assert(line_between(a as int, b as int, t as int));
        } else {
            assert forall|t: int| #[trigger] line_between(a as int, b as int, t) implies !on_sq(occupancy, t) by {
                assert(!on_sq(blocked, (t as u64) as int));
            }
        }
    }
    blocked == 0
}

/// Whether a rook move follows a rank or file with nothing in between.
pub fn is_legal_rook_move(m: Move, board: BoardRep) -> (r: bool)
    ensures
        r == (slide_orthogonal(m.from_spec() as int, m.to_spec() as int) && path_clear(
            board.occupancy,
            m.from_spec() as int,
            m.to_spec() as int,
        )),
{
    let (orthogonal, _) = slide_kind(m.from(), m.to());
    orthogonal && slide_clear(board.occupancy, m.from(), m.to())
}

/// Whether a bishop move follows a diagonal with nothing in between.
pub fn is_legal_bishop_move(m: Move, board: BoardRep) -> (r: bool)
    ensures
        r == (slide_diagonal(m.from_spec() as int, m.to_spec() as int) && path_clear(
            board.occupancy,
            m.from_spec() as int,
            m.to_spec() as int,
        )),
{
    let (_, diagonal) = slide_kind(m.from(), m.to());
    diagonal && slide_clear(board.occupancy, m.from(), m.to())
}

/// Whether a queen move follows a line or a diagonal with nothing in between.
pub fn is_legal_queen_move(m: Move, board: BoardRep) -> (r: bool)
    ensures
        r == ((slide_orthogonal(m.from_spec() as int, m.to_spec() as int) || slide_diagonal(
            m.from_spec() as int,
            m.to_spec() as int,
        )) && path_clear(board.occupancy, m.from_spec() as int, m.to_spec() as int)),
{
    let (orthogonal, diagonal) = slide_kind(m.from(), m.to());
    (orthogonal || diagonal) && slide_clear(board.occupancy, m.from(), m.to())
}

/// The pieces of the side not to move.
pub open spec fn opponent_of(board: BoardRep) -> u64 {
    if board.black_turn { board.white_occupancy } else { board.black_occupancy }
}

/// Whether a knight move is a knight's step onto an opponent piece (for a capture) or an
/// empty square (otherwise).
pub fn is_legal_knight_move(m: Move, board: BoardRep) -> (r: bool)
    ensures
        r == (knight_step(m.from_spec() as int, m.to_spec() as int) && if m.capture_spec() {
            on_sq(opponent_of(board), m.to_spec() as int)
        } else {
            !on_sq(board.occupancy, m.to_spec() as int)
        }),
{
    let moveboard = knight_attacks(m.from());
    if !bit_at(moveboard, m.to()) {
        return false;
    }
    if m.is_capture() {
        let opponent_occupancy = board.get_opponent_occupancy();
        bit_at(opponent_occupancy, m.to())
    } else {
        !bit_at(board.occupancy, m.to())
    }
}

/// The square a pawn of the side to move reaches by a single push from `from`.
pub open spec fn push_square(board: BoardRep, from: int) -> int {
    from + if board.black_turn { -8int } else { 8 }
}

/// Whether a quiet pawn move is the single push onto an empty square.
pub open spec fn pawn_push_ok(m: Move, board: BoardRep) -> bool {
    push_square(board, m.from_spec() as int) == m.to_spec() && !on_sq(board.occupancy, m.to_spec() as int)
}

/// Whether a pawn capture goes one square to either side of the push square, onto an
/// opponent piece.
pub open spec fn pawn_capture_ok(m: Move, board: BoardRep) -> bool {
    let p = push_square(board, m.from_spec() as int);
    (m.to_spec() == p + 1 || m.to_spec() == p - 1) && on_sq(opponent_of(board), m.to_spec() as int)
}

/// Whether a double pawn push starts from the pawn's second rank and crosses two empty
/// squares.
pub open spec fn pawn_double_push_ok(m: Move, board: BoardRep) -> bool {
    let rank = rank_of(m.from_spec() as int);
    let s1 = m.from_spec() + if board.black_turn { -8int } else { 8 };
    let s2 = m.from_spec() + if board.black_turn { -16int } else { 16 };
    &&& !((!m.black_spec() && rank != 1) || (m.black_spec() && rank != 6))
    &&& (0 <= s1 < 64 ==> !on_sq(board.occupancy, s1))
    &&& (0 <= s2 < 64 ==> !on_sq(board.occupancy, s2))
}

/// Whether a promotion ends on the last rank of the moving side.
pub open spec fn promotion_rank_ok(m: Move) -> bool {
    let rank = rank_of(m.to_spec() as int);
    !((m.black_spec() && rank != 0) || (!m.black_spec() && rank != 7))
}

/// Whether a pawn move is legal for its flags: a push, a capture, an en passant capture onto
/// the en passant square, a double push, or a promotion onto an empty square of the last rank
/// (a capturing promotion capturing onto it); other flags are refused.
pub open spec fn pawn_move_spec(m: Move, board: BoardRep) -> bool {
    let f = m.flags_spec();
    if f == MF_CAPTURE {
        pawn_capture_ok(m, board)
    } else if f == MF_EP_CAPTURE {
        m.to_spec() == board.ep_index
    } else if f == MF_DOUBLE_PAWN_PUSH {
        pawn_double_push_ok(m, board)
    } else if f == MF_KNIGHT_PROMOTION || f == MF_BISHOP_PROMOTION || f == MF_ROOK_PROMOTION || f
        == MF_QUEEN_PROMOTION {
        promotion_rank_ok(m) && !on_sq(board.occupancy, m.to_spec() as int)
    } else if f == MF_KNIGHT_CAPTURE_PROMOTION || f == MF_BISHOP_CAPTURE_PROMOTION || f
        == MF_ROOK_CAPTURE_PROMOTION || f == MF_QUEEN_CAPTURE_PROMOTION {
        promotion_rank_ok(m) && pawn_capture_ok(m, board)
    } else if f == 0 {
        pawn_push_ok(m, board)
    } else {
        false
    }
}

fn is_legal_pawn_push(m: Move, board: BoardRep) -> (r: bool)
    ensures
        r == pawn_push_ok(m, board),
{
    let offset: i16 = if board.black_turn { -8 } else { 8 };
    let push = m.from() as i16 + offset;
    push == m.to() as i16 && (board.occupancy >> (m.to() as u64)) & 1 != 1
}

fn is_legal_pawn_capture(m: Move, board: BoardRep) -> (r: bool)
    ensures
        r == pawn_capture_ok(m, board),
{
    let offset: i16 = if board.black_turn { -8 } else { 8 };
    let push = m.from() as i16 + offset;
    let to = m.to() as i16;
    (to == push + 1 || to == push - 1) && (board.get_opponent_occupancy() >> (m.to() as u64)) & 1 == 1
}

fn is_legal_double_push(m: Move, board: BoardRep) -> (r: bool)
    ensures
        r == pawn_double_push_ok(m, board),
{
    let rank = get_rank(m.from());
    if (!m.is_black() && rank != 1) || (m.is_black() && rank != 6) {
        return false;
    }
    let offset: i16 = if board.black_turn { -8 } else { 8 };
    let s1 = m.from() as i16 + offset;
    let s2 = m.from() as i16 + 2 * offset;
    let clear1 = !(0 <= s1 && s1 < 64) || (board.occupancy >> (s1 as u64)) & 1 != 1;
    let clear2 = !(0 <= s2 && s2 < 64) || (board.occupancy >> (s2 as u64)) & 1 != 1;
    clear1 && clear2
}

fn is_promotion_rank(m: Move) -> (r: bool)
    ensures
        r == promotion_rank_ok(m),
{
    let rank = get_rank(m.to());
    !((m.is_black() && rank != 0) || (!m.is_black() && rank != 7))
}

/// Whether a pawn move is legal for its flags (see `pawn_move_spec`).
pub fn is_legal_pawn_move(m: Move, board: BoardRep) -> (r: bool)
    ensures
        r == pawn_move_spec(m, board),
{
    let f = m.flags();
    if f == MF_CAPTURE {
        is_legal_pawn_capture(m, board)
    } else if f == MF_EP_CAPTURE {
        m.to() == board.ep_index
    } else if f == MF_DOUBLE_PAWN_PUSH {
        is_legal_double_push(m, board)
    } else if f == MF_KNIGHT_PROMOTION || f == MF_BISHOP_PROMOTION || f == MF_ROOK_PROMOTION || f
        == MF_QUEEN_PROMOTION {
        is_promotion_rank(m) && (board.occupancy >> (m.to() as u64)) & 1 != 1
    } else if f == MF_KNIGHT_CAPTURE_PROMOTION || f == MF_BISHOP_CAPTURE_PROMOTION || f
        == MF_ROOK_CAPTURE_PROMOTION || f == MF_QUEEN_CAPTURE_PROMOTION {
        is_promotion_rank(m) && is_legal_pawn_capture(m, board)
    } else if f == 0 {
        is_legal_pawn_push(m, board)
    } else {
        false
    }
}

/// Whether the opponent of the side to move attacks `index`, with the king of the side to
/// move taken off the board.
pub open spec fn square_attacked(board: BoardRep, index: int) -> bool {
    any_spec(attacked_by_spec(
        BoardRep {
            occupancy: board.occupancy ^ (1u64 << (if !board.black_turn {
                board.white_king_position
            } else {
                board.black_king_position
            })),
            ..board
        },
        index,
        !board.black_turn,
    ))
}

/// Whether the opponent of the side to move attacks `index` (see `square_attacked`).
pub fn position_is_in_check(index: u8, board: BoardRep) -> (r: bool)
    requires
        index < 64,
        board.wf(),
    ensures
        r == square_attacked(board, index as int),
{
    board.has_at_least_one_attacker(index, !board.black_turn, true)
}

/// Whether some square of `mask` is attacked (see `square_attacked`).
pub open spec fn mask_attacked(mask: u64, board: BoardRep) -> bool {
    exists|t: int| 0 <= t < 64 && #[trigger] on_sq(mask, t) && square_attacked(board, t)
}

/// Whether some square of `mask` is attacked (see `square_attacked`).
pub fn any_position_in_check(mask: u64, board: BoardRep) -> (r: bool)
    requires
        board.wf(),
    ensures
        r == mask_attacked(mask, board),
{
    let mut sq: u8 = 0;
    let mut found = false;
    while sq < 64
        invariant
            sq <= 64,
            board.wf(),
            found == exists|t: int| 0 <= t < sq && #[trigger] on_sq(mask, t) && square_attacked(board, t),
        decreases 64 - sq,
    {
        if !found && bit_at(mask, sq) && position_is_in_check(sq, board) {
            found = true;
        }
        sq = sq + 1;
    }
    found
}

/// Whether a king move to `to` would stand in check: the square is attacked, or it lies on the
/// line from the checking piece to the king on `king`.
pub open spec fn king_square_checked(board: BoardRep, threat: Option<ThreatSource>, king: int, to: int) -> bool {
    square_attacked(board, to) || (threat matches Some(t) && line_between(king, t.from as int, to))
}

fn is_in_check(to: u8, board: BoardRep, threat: Option<ThreatSource>, king: u8) -> (r: bool)
    requires
        to < 64,
        king < 64,
        board.wf(),
        threat matches Some(t) ==> t.from < 64,
    ensures
        r == king_square_checked(board, threat, king as int, to as int),
{
    if position_is_in_check(to, board) {
        return true;
    }
    match threat {
        Some(t) => bit_at(squares_between(king, t.from), to),
        None => false,
    }
}

/// The castling clearance or check mask moved to a king on `from`.
pub open spec fn castle_mask(base: u64, from: int) -> u64 {
    base << ((from - 3) as u64)
}

/// Whether castling is legal: the king is not in check, the side to move holds the right, the
/// squares between king and rook are empty and the squares the king crosses are not attacked
/// (a king left of its third square cannot castle).
pub open spec fn castling_spec(king_side: bool, m: Move, board: BoardRep, threat: Option<ThreatSource>) -> bool {
    let from = m.from_spec() as int;
    let right = if board.black_turn {
        if king_side { board.black_king_side_castling } else { board.black_queen_side_castling }
    } else {
        if king_side { board.white_king_side_castling } else { board.white_queen_side_castling }
    };
    &&& !king_square_checked(board, threat, from, from)
    &&& right
    &&& from >= 3
    &&& castle_mask(if king_side { 0b110u64 } else { 0b1110000u64 }, from) & board.occupancy == 0
    &&& !mask_attacked(castle_mask(if king_side { 0b110u64 } else { 0b110000u64 }, from), board)
}

/// Whether castling is legal (see `castling_spec`).
pub fn is_legal_castling(king_side: bool, m: Move, board: BoardRep, king_position_analysis: &KingPositionAnalysis) -> (r: bool)
    requires
        board.wf(),
        king_position_analysis.threat_source matches Some(t) ==> t.from < 64,
    ensures
        r == castling_spec(king_side, m, board, king_position_analysis.threat_source),
{
    let from = m.from();
    if is_in_check(from, board, king_position_analysis.threat_source, from) {
        return false;
    }
    let right = if board.black_turn {
        if king_side { board.black_king_side_castling } else { board.black_queen_side_castling }
    } else {
        if king_side { board.white_king_side_castling } else { board.white_queen_side_castling }
    };
    if !right || from < 3 {
        return false;
    }
    let clearance_mask: u64 = (if king_side { 0b110u64 } else { 0b1110000u64 }) << ((from - 3) as u64);
    if clearance_mask & board.occupancy != 0 {
        return false;
    }
    let check_mask: u64 = (if king_side { 0b110u64 } else { 0b110000u64 }) << ((from - 3) as u64);
    !any_position_in_check(check_mask, board)
}

/// Whether a king move is legal for its flags: a step (a capture onto an opponent piece) to a
/// square not in check, or castling.
pub open spec fn king_move_spec(m: Move, board: BoardRep, threat: Option<ThreatSource>) -> bool {
    let f = m.flags_spec();
    let step_ok = chebyshev_spec(m.from_spec() as int, m.to_spec() as int) == 1 && !king_square_checked(
        board,
        threat,
        m.from_spec() as int,
        m.to_spec() as int,
    );
    if f == 0 {
        step_ok
    } else if f == MF_CAPTURE {
        step_ok && on_sq(opponent_of(board), m.to_spec() as int)
    } else if f == MF_KING_CASTLING {
        castling_spec(true, m, board, threat)
    } else if f == MF_QUEEN_CASTLING {
        castling_spec(false, m, board, threat)
    } else {
        false
    }
}

/// Whether a king move is legal (see `king_move_spec`).
pub fn is_legal_king_move(m: Move, board: BoardRep, king_position_analysis: &KingPositionAnalysis) -> (r: bool)
    requires
        board.wf(),
        king_position_analysis.threat_source matches Some(t) ==> t.from < 64,
    ensures
        r == king_move_spec(m, board, king_position_analysis.threat_source),
{
    let f = m.flags();
    let threat = king_position_analysis.threat_source;
    if f == 0 || f == MF_CAPTURE {
        if chebyshev_distance(m.from() as i8, m.to() as i8) != 1 {
            return false;
        }
        if is_in_check(m.to(), board, threat, m.from()) {
            return false;
        }
        if f == MF_CAPTURE {
            bit_at(board.get_opponent_occupancy(), m.to())
        } else {
            true
        }
    } else if f == MF_KING_CASTLING {
        is_legal_castling(true, m, board, king_position_analysis)
    } else if f == MF_QUEEN_CASTLING {
        is_legal_castling(false, m, board, king_position_analysis)
    } else {
        false
    }
}

/// Whether a move answers a check: the moving piece is not pinned, and it captures the
/// checking piece or (other than the king) steps onto the line between it and the king on
/// `king`; with no checking piece known, it does not.
pub open spec fn removes_check_spec(m: Move, threat: Option<ThreatSource>, pins: Seq<ThreatRaycastCollision>, king: int) -> bool {
    match first_pin(pins, m.from_spec() as int) {
        Some(_) => false,
        None => match threat {
            Some(t) => m.to_spec() == t.from || (m.piece_spec() != PieceType::King && line_between(
                king,
                t.from as int,
                m.to_spec() as int,
            )),
            None => false,
        },
    }
}

/// Whether a move answers a check (see `removes_check_spec`), for the king on `king`.
pub fn move_removes_check(m: Move, king_analysis: &KingPositionAnalysis, king: u8) -> (r: bool)
    requires
        king < 64,
        king_analysis.threat_source matches Some(t) ==> t.from < 64,
    ensures
        r == removes_check_spec(m, king_analysis.threat_source, king_analysis.pins@, king as int),
{
    match find_pin(&king_analysis.pins, m.from()) {
        Some(_) => false,
        None => match king_analysis.threat_source {
            Some(threat) => {
                if m.to() == threat.from {
                    return true;
                }
                m.piece_type() != PieceType::King && bit_at(squares_between(king, threat.from), m.to())
            },
            None => false,
        },
    }
}

/// Whether a move keeps a pinned piece on its pin: a piece that is not pinned may move; a
/// pinned one may capture its pinner or move along the line between pinner and king.
pub open spec fn pinned_move_spec(m: Move, pins: Seq<ThreatRaycastCollision>, king: int) -> bool {
    match first_pin(pins, m.from_spec() as int) {
        None => true,
        Some(p) => (m.capture_spec() && m.to_spec() == p.from) || line_between(king, p.from as int, m.to_spec() as int),
    }
}

/// Whether a move keeps a pinned piece on its pin (see `pinned_move_spec`), for the king on
/// `king`.
pub fn is_legal_pinned_piece_move(m: Move, king_analysis: &KingPositionAnalysis, king: u8) -> (r: bool)
    requires
        king < 64,
        forall|i: int| 0 <= i < king_analysis.pins@.len() ==> (#[trigger] king_analysis.pins@[i]).from < 64,
    ensures
        r == pinned_move_spec(m, king_analysis.pins@, king as int),
{
    match find_pin(&king_analysis.pins, m.from()) {
        None => true,
        Some(p) => {
            proof {
                let k = choose|k: int| 0 <= k < king_analysis.pins@.len() && king_analysis.pins@[k] == p;
                assert(king_analysis.pins@[k].from < 64);
            }
            (m.is_capture() && m.to() == p.from) || bit_at(squares_between(king, p.from), m.to())
        },
    }
}

/// Whether a move follows the rules of its piece (see the legality of each piece).
pub open spec fn piece_move_spec(m: Move, board: BoardRep, threat: Option<ThreatSource>) -> bool {
    let (from, to) = (m.from_spec() as int, m.to_spec() as int);
    match m.piece_spec() {
        PieceType::Pawn => pawn_move_spec(m, board),
        PieceType::Knight => knight_step(from, to) && if m.capture_spec() {
            on_sq(opponent_of(board), to)
        } else {
            !on_sq(board.occupancy, to)
        },
        PieceType::Bishop => slide_diagonal(from, to) && path_clear(board.occupancy, from, to),
        PieceType::Rook => slide_orthogonal(from, to) && path_clear(board.occupancy, from, to),
        PieceType::Queen => (slide_orthogonal(from, to) || slide_diagonal(from, to)) && path_clear(board.occupancy, from, to),
        PieceType::King => king_move_spec(m, board, threat),
        PieceType::NoPiece => false,
    }
}

/// The square of the pawn an en passant capture takes: beside the capturing pawn, towards
/// the file it captures onto.
pub open spec fn ep_captured_square(m: Move) -> int {
    m.from_spec() + if file_of(m.to_spec() as int) > file_of(m.from_spec() as int) { -1int } else { 1 }
}

/// Whether taking both pawns of an en passant capture off the board opens a rank or file from
/// the king of the side to move to an opponent rook or queen.
pub open spec fn ep_reveals_check(board: BoardRep, pawn: u8, captured: u8) -> bool {
    exists|t: int|
        0 <= t < 64 && on_sq((board.rook_bitboard | board.queen_bitboard) & opponent_of(board), t) && #[trigger] crate::attacks::rook_attack(
            friendly_king(board) as int,
            board.occupancy ^ (1u64 << pawn) ^ (1u64 << captured),
            t,
        )
}

/// Whether a move is legal in a position, given the analysis of the king of the side to move
/// (its checking piece and its pins): the move is of the side to move, its piece stands on its
/// square, its target fits its flags, in double check only the king moves, in check the move
/// answers the check, a pinned piece keeps to its pin, an en passant capture does not open a
/// line to the king, and the piece moves by its rules.
pub open spec fn legal_move_spec(pos: Position, m: Move, threat: Option<ThreatSource>, pins: Seq<ThreatRaycastCollision>) -> bool {
    let b = pos.board;
    let (from, to) = (m.from_spec() as int, m.to_spec() as int);
    let king = friendly_king(b) as int;
    let cap = ep_captured_square(m);
    &&& b.black_turn == m.black_spec()
    &&& on_sq(if b.black_turn { b.black_occupancy } else { b.white_occupancy }, from)
    &&& piece_at(b, from) == m.piece_spec()
    &&& !(!m.capture_spec() && on_sq(b.occupancy, to))
    &&& !(m.flags_spec() == MF_CAPTURE && !on_sq(opponent_of(b), to))
    &&& !(m.flags_spec() == MF_EP_CAPTURE && to != b.ep_index)
    &&& !(pos.double_check && m.piece_spec() != PieceType::King)
    &&& !(pos.in_check_spec() && !removes_check_spec(m, threat, pins, king))
    &&& pinned_move_spec(m, pins, king)
    &&& !(m.flags_spec() == MF_EP_CAPTURE && 0 <= cap < 64 && ep_reveals_check(b, m.from_spec(), cap as u8))
    &&& piece_move_spec(m, b, threat)
}

impl Position {
    /// Whether a move follows the rules of its piece, given the king's analysis.
    pub fn is_legal_piece_move(&self, m: Move, king_analysis: &KingPositionAnalysis) -> (r: bool)
        requires
            self.wf(),
            king_analysis.threat_source matches Some(t) ==> t.from < 64,
        ensures
            r == piece_move_spec(m, self.board, king_analysis.threat_source),
    {
        match m.piece_type() {
            PieceType::Pawn => is_legal_pawn_move(m, self.board),
            PieceType::Knight => is_legal_knight_move(m, self.board),
            PieceType::Bishop => is_legal_bishop_move(m, self.board),
            PieceType::Rook => is_legal_rook_move(m, self.board),
            PieceType::Queen => is_legal_queen_move(m, self.board),
            PieceType::King => is_legal_king_move(m, self.board, king_analysis),
            PieceType::NoPiece => false,
        }
    }

    /// Whether a move is legal, given the analysis of the king of the side to move (see
    /// `legal_move_spec`).
    #[verifier::rlimit(30)]
    pub fn is_legal_move_with(&self, m: Move, king_analysis: &KingPositionAnalysis) -> (r: bool)
        requires
            self.wf(),
            king_analysis.threat_source matches Some(t) ==> t.from < 64,
            forall|i: int| 0 <= i < king_analysis.pins@.len() ==> (#[trigger] king_analysis.pins@[i]).from < 64,
        ensures
            r == legal_move_spec(*self, m, king_analysis.threat_source, king_analysis.pins@),
    {
        let board = self.board;
        if board.black_turn != m.is_black() {
            return false;
        }
        let from = m.from();
        let to = m.to();
        let friendly_occupancy = if board.black_turn { board.black_occupancy } else { board.white_occupancy };
        if !bit_at(friendly_occupancy, from) || board.get_piece_type_at_index(from) != m.piece_type() {
            return false;
        }
        if !m.is_capture() && bit_at(board.occupancy, to) {
            return false;
        }
        let opponent_occupancy = board.get_opponent_occupancy();
        if m.flags() == MF_CAPTURE && !bit_at(opponent_occupancy, to) {
            return false;
        }
        if m.flags() == MF_EP_CAPTURE && to != board.ep_index {
            return false;
        }
        if self.double_check && m.piece_type() != PieceType::King {
            return false;
        }
        let king = if board.black_turn { board.black_king_position } else { board.white_king_position };
        if self.current_in_check() && !move_removes_check(m, king_analysis, king) {
            return false;
        }
        if !is_legal_pinned_piece_move(m, king_analysis, king) {
            return false;
        }
        if m.flags() == MF_EP_CAPTURE {
            let cap: i16 = from as i16 + if get_file(to) > get_file(from) { -1 } else { 1 };
            if 0 <= cap && cap < 64 && ep_leads_to_orthogonal_check(board, from, cap as u8, opponent_occupancy) {
                return false;
            }
        }
        self.is_legal_piece_move(m, king_analysis)
    }

    /// Whether a move is legal in this position, with the analysis of the king of the side to
    /// move computed afresh (see `legal_move_spec`).
    pub fn is_legal_move(&self, m: Move) -> (r: bool)
        requires
            self.wf(),
        ensures
            r ==> m.black_spec() == self.board.black_turn,
            r ==> piece_at(self.board, m.from_spec() as int) == m.piece_spec(),
            exists|a: KingPositionAnalysis| r == legal_move_spec(*self, m, a.threat_source, a.pins@),
            exists|a: KingPositionAnalysis|
                #[trigger] crate::move_generation::friendly_analysis_ok(a, self.board) && r == legal_move_spec(
                    *self,
                    m,
                    a.threat_source,
                    a.pins@,
                ),
    {
        let king_analysis = if self.board.black_turn {
            self.board.get_black_king_analysis()
        } else {
            self.board.get_white_king_analysis()
        };
        let r = self.is_legal_move_with(m, &king_analysis);
        assert(crate::move_generation::friendly_analysis_ok(king_analysis, self.board));
        r
    }
}

} // verus!

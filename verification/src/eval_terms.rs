use vstd::prelude::*;
use crate::attack_and_defend_lookups::{AttackAndDefendTable, attacked_by_spec, count_where};
use crate::attacks::{bishop_attacks, knight_attacks, pawn_attack_step, pawn_attacks, pawn_threat_sources, rook_attacks};
use crate::attacked_by::any_spec;
use crate::bitboard::{on_sq, popcount, count_squares, lemma_on_sq_and, lemma_on_sq_or, lemma_on_sq_not, lemma_on_sq_xor, lemma_on_sq_bit, lemma_zero_has_nothing, lemma_zero_iff_no_square};
use crate::board_rep::{BoardRep, piece_at};
use crate::board_utils::{chebyshev_distance, chebyshev_spec, file_of, get_file};
use crate::move_generation::bit_at;
use crate::piece_type::PieceType;
use crate::see::{piece_safety, piece_safety_spec};

verus! {

/// Whether a pawn of the given colour among `p` attacks square `t`.
pub open spec fn pawn_attacked(p: u64, black: bool, t: int) -> bool {
    exists|s: int| 0 <= s < 64 && #[trigger] on_sq(p, s) && pawn_attack_step(s, black, t)
}

/// The squares that the pawns `pawns` of the given colour attack.
pub fn get_pawn_attacks(is_black: bool, pawns: u64) -> (r: u64)
    ensures
        forall|t: int| 0 <= t < 64 ==> (#[trigger] on_sq(r, t) <==> pawn_attacked(pawns, is_black, t)),
{
    let mut r: u64 = 0;
    let mut s: u8 = 0;
    proof {
        assert forall|t: int| 0 <= t < 64 implies !#[trigger] on_sq(0u64, t) by {
            lemma_zero_has_nothing(t as u64);
        }
    }
    while s < 64
        invariant
            s <= 64,
            forall|t: int| 0 <= t < 64 ==> (#[trigger] on_sq(r, t) <==> exists|u: int| 0 <= u < s && #[trigger] on_sq(pawns, u)
                && pawn_attack_step(u, is_black, t)),
        decreases 64 - s,
    {
        if bit_at(pawns, s) {
            let a = pawn_attacks(s, is_black);
            let old_r = r;
            r = r | a;
            proof {
                assert forall|t: int| 0 <= t < 64 implies (#[trigger] on_sq(r, t) <==> exists|u: int| 0 <= u < s + 1 && #[trigger] on_sq(pawns, u)
                    && pawn_attack_step(u, is_black, t)) by {
                    lemma_on_sq_or(old_r, a, t as u64);
                    if on_sq(a, t) {
                        assert(on_sq(pawns, s as int) && pawn_attack_step(s as int, is_black, t));
                    }
                }
            }
        } else {
            proof {
                assert forall|t: int| 0 <= t < 64 implies (#[trigger] on_sq(r, t) <==> exists|u: int| 0 <= u < s + 1 && #[trigger] on_sq(pawns, u)
                    && pawn_attack_step(u, is_black, t)) by {
                    if exists|u: int| 0 <= u < s + 1 && #[trigger] on_sq(pawns, u) && pawn_attack_step(u, is_black, t) {
                        let u = choose|u: int| 0 <= u < s + 1 && #[trigger] on_sq(pawns, u) && pawn_attack_step(u, is_black, t);
                        assert(u != s);
                    }
                }
            }
        }
        s = s + 1;
    }
    r
}

/// The pieces of `pieces` that the pawns `a_pawns` of the given colour defend.
pub fn get_forts(is_black: bool, pieces: u64, a_pawns: u64) -> (r: u64)
    ensures
        forall|t: int| 0 <= t < 64 ==> (#[trigger] on_sq(r, t) <==> on_sq(pieces, t) && pawn_attacked(a_pawns, is_black, t)),
{
    let p_attacks = get_pawn_attacks(is_black, a_pawns);
    let r = pieces & p_attacks;
    proof {
        assert forall|t: int| 0 <= t < 64 implies (#[trigger] on_sq(r, t) <==> on_sq(pieces, t) && pawn_attacked(a_pawns, is_black, t)) by {
            lemma_on_sq_and(pieces, p_attacks, t as u64);
        }
    }
    r
}

/// The squares that the pawns of one side attack.
pub fn get_pawn_controlled_squares(is_black: bool, board: BoardRep) -> (r: u64)
    ensures
        forall|t: int| 0 <= t < 64 ==> (#[trigger] on_sq(r, t) <==> pawn_attacked(
            board.pawn_bitboard & if is_black { board.black_occupancy } else { board.white_occupancy },
            is_black,
            t,
        )),
{
    let pawns = board.pawn_bitboard & if is_black { board.black_occupancy } else { board.white_occupancy };
    get_pawn_attacks(is_black, pawns)
}

/// The pawn score of a flank, which counts for nothing.
pub fn get_flank_score(abc: bool, board: BoardRep) -> (r: i16)
    ensures
        r == 0,
{
    0
}

/// The two squares beside a king's square that `is_on_pawnless_file` looks at: the next
/// file towards h and the next towards a, or the two files inward at an edge.
pub open spec fn king_file_neighbours(king_pos: int) -> (int, int) {
    let file = file_of(king_pos);
    (if file != 0 { king_pos + 1 } else { king_pos - 2 }, if file != 7 { king_pos - 1 } else { king_pos + 2 })
}

/// Whether the king's square and its two neighbouring squares (see `king_file_neighbours`)
/// all lie on open files.
pub fn is_on_pawnless_file(king_pos: u8, open_files: u64) -> (r: bool)
    requires
        king_pos < 64,
    ensures
        r == (on_sq(open_files, king_pos as int) && on_sq(open_files, king_file_neighbours(king_pos as int).0) && on_sq(
            open_files,
            king_file_neighbours(king_pos as int).1,
        )),
{
    let file = get_file(king_pos);
    let b: u8 = if file != 0 { king_pos + 1 } else { king_pos - 2 };
    let c: u8 = if file != 7 { king_pos - 1 } else { king_pos + 2 };
    bit_at(open_files, king_pos) && bit_at(open_files, b) && bit_at(open_files, c)
}

/// The penalty for each rank of distance between a king and its nearest pawn.
pub const KING_PAWN_DISTANCE_PENALTY: i16 = 10;

/// The king distance from `king` to the nearest square of `pawns` below `n`, at most 8.
pub open spec fn nearest_pawn_distance(king: int, pawns: u64, n: nat) -> int
    decreases n,
{
    if n == 0 {
        8
    } else {
        let d = nearest_pawn_distance(king, pawns, (n - 1) as nat);
        if on_sq(pawns, n - 1) && chebyshev_spec(king, n - 1) < d { chebyshev_spec(king, n - 1) } else { d }
    }
}

proof fn lemma_nearest_bounds(king: int, pawns: u64, n: nat)
    ensures
        0 <= nearest_pawn_distance(king, pawns, n) <= 8,
    decreases n,
{
    if n > 0 {
        lemma_nearest_bounds(king, pawns, (n - 1) as nat);
        assert(chebyshev_spec(king, n - 1) >= 0);
    }
}

/// The penalty for a king far from its pawns: the penalty per rank times one less than the
/// distance to the nearest pawn (8 with no pawns).
pub fn get_pawn_distance_penalty(king_position: u8, pawn_occupancy: u64) -> (r: i16)
    requires
        king_position < 64,
    ensures
        r == KING_PAWN_DISTANCE_PENALTY * (nearest_pawn_distance(king_position as int, pawn_occupancy, 64) - 1),
{
    let mut dist: i8 = 8;
    let mut sq: u8 = 0;
    while sq < 64
        invariant
            sq <= 64,
            king_position < 64,
            dist == nearest_pawn_distance(king_position as int, pawn_occupancy, sq as nat),
        decreases 64 - sq,
    {
        if bit_at(pawn_occupancy, sq) {
            let a = chebyshev_distance(king_position as i8, sq as i8);
            if a < dist {
                dist = a;
            }
        }
        sq = sq + 1;
    }
    proof {
        lemma_nearest_bounds(king_position as int, pawn_occupancy, 64);
    }
    KING_PAWN_DISTANCE_PENALTY * (dist as i16 - 1)
}

/// The squares that a piece on `index` attacks, for the pieces that have mobility (none for
/// pawns, kings and empty squares).
pub open spec fn piece_reach(board: BoardRep, index: int, t: int) -> bool {
    match piece_at(board, index) {
        PieceType::Knight => crate::attacks::knight_step(index, t),
        PieceType::Bishop => crate::attacks::bishop_attack(index, board.occupancy, t),
        PieceType::Rook => crate::attacks::rook_attack(index, board.occupancy, t),
        PieceType::Queen => crate::attacks::rook_attack(index, board.occupancy, t) || crate::attacks::bishop_attack(
            index,
            board.occupancy,
            t,
        ),
        _ => false,
    }
}

/// The squares a piece reaches.
pub fn piece_reach_board(index: u8, board: BoardRep) -> (r: u64)
    requires
        index < 64,
    ensures
        forall|t: int| 0 <= t < 64 ==> (#[trigger] on_sq(r, t) <==> piece_reach(board, index as int, t)),
{
    match board.get_piece_type_at_index(index) {
        PieceType::Knight => knight_attacks(index),
        PieceType::Bishop => bishop_attacks(index, board.occupancy),
        PieceType::Rook => rook_attacks(index, board.occupancy),
        PieceType::Queen => {
            let a = rook_attacks(index, board.occupancy);
            let b = bishop_attacks(index, board.occupancy);
            let r = a | b;
            proof {
                assert forall|t: int| 0 <= t < 64 implies (#[trigger] on_sq(r, t) <==> piece_reach(board, index as int, t)) by {
                    lemma_on_sq_or(a, b, t as u64);
                }
            }
            r
        },
        _ => {
            proof {
                assert forall|t: int| 0 <= t < 64 implies (#[trigger] on_sq(0u64, t) <==> piece_reach(board, index as int, t)) by {
                    lemma_zero_has_nothing(t as u64);
                }
            }
            0
        },
    }
}

/// The squares a piece on `index` reaches among `safe`.
pub open spec fn reach_within(board: BoardRep, index: int, safe: u64) -> spec_fn(int) -> bool {
    |t: int| piece_reach(board, index, t) && on_sq(safe, t)
}

/// Two conditions that agree on the board count the same squares.
proof fn lemma_count_where_agree(p: spec_fn(int) -> bool, q: spec_fn(int) -> bool, n: nat)
    requires
        n <= 64,
        forall|t: int| 0 <= t < 64 ==> #[trigger] p(t) == q(t),
    ensures
        crate::attack_and_defend_lookups::count_where_upto(p, n) == crate::attack_and_defend_lookups::count_where_upto(q, n),
    decreases n,
{
    if n > 0 {
        lemma_count_where_agree(p, q, (n - 1) as nat);
        assert(p(n - 1) == q(n - 1));
    }
}

/// The number of squares that the piece on `index` reaches among `safe_squares` (none for
/// pawns, kings and empty squares).
pub fn get_piece_mobility(index: u8, board: BoardRep, safe_squares: u64) -> (r: u32)
    requires
        index < 64,
    ensures
        r == count_where(reach_within(board, index as int, safe_squares)),
        r <= 64,
{
    let reach = piece_reach_board(index, board);
    let moves = reach & safe_squares;
    proof {
        assert forall|t: int| 0 <= t < 64 implies (#[trigger] on_sq(moves, t) <==> reach_within(board, index as int, safe_squares)(t)) by {
            lemma_on_sq_and(reach, safe_squares, t as u64);
        }
        crate::attack_and_defend_lookups::lemma_popcount_where(moves, reach_within(board, index as int, safe_squares), 64);
        crate::attack_and_defend_lookups::lemma_count_where_bound(reach_within(board, index as int, safe_squares), 64);
    }
    count_squares(moves) as u32
}

/// The squares where a side's pieces may move freely: not attacked by an opponent pawn and
/// not the side's own king square.
pub open spec fn mobility_area(board: BoardRep, is_black: bool, t: int) -> bool {
    let king = if is_black { board.black_king_position } else { board.white_king_position };
    !pawn_attacked(
        board.pawn_bitboard & if !is_black { board.black_occupancy } else { board.white_occupancy },
        !is_black,
        t,
    ) && t != king
}

/// The squares that the piece on `sq` reaches inside the mobility area of a side.
pub open spec fn reach_in_area(board: BoardRep, is_black: bool, sq: int) -> spec_fn(int) -> bool {
    |t: int| piece_reach(board, sq, t) && mobility_area(board, is_black, t)
}

/// The mobility of the pieces of one side (other than pawns) on squares below `n`.
pub open spec fn mobility_upto(board: BoardRep, is_black: bool, n: nat) -> int
    decreases n,
{
    if n == 0 {
        0
    } else {
        let sq = n - 1;
        let own = !on_sq(board.pawn_bitboard, sq) && on_sq(if is_black { board.black_occupancy } else { board.white_occupancy }, sq);
        mobility_upto(board, is_black, (n - 1) as nat) + if own {
            count_where(reach_in_area(board, is_black, sq)) as int
        } else {
            0
        }
    }
}

/// The number of moves that the pieces of one side (other than pawns) have into their
/// mobility area (see `mobility_area`).
pub fn get_mobility(is_black: bool, board: BoardRep) -> (r: u32)
    requires
        board.wf(),
    ensures
        r == mobility_upto(board, is_black, 64),
        r <= 4096,
{
    let king = if is_black { board.black_king_position } else { board.white_king_position };
    let controlled = get_pawn_controlled_squares(!is_black, board);
    let not_controlled = !controlled;
    let king_bit = 1u64 << king;
    let not_king = !king_bit;
    let permissable = not_controlled & not_king;
    proof {
        assert forall|t: int| 0 <= t < 64 implies (#[trigger] on_sq(permissable, t) <==> mobility_area(board, is_black, t)) by {
            lemma_on_sq_and(not_controlled, not_king, t as u64);
            lemma_on_sq_not(king_bit, t as u64);
            lemma_on_sq_not(controlled, t as u64);
            lemma_on_sq_bit(t as u64, king as u64);
        }
    }
    let own_occ = if is_black { board.black_occupancy } else { board.white_occupancy };
    let not_pawns = !board.pawn_bitboard;
    let friendly_occupancy = not_pawns & own_occ;
    let mut mobility: u32 = 0;
    let mut sq: u8 = 0;
    while sq < 64
        invariant
            sq <= 64,
            mobility == mobility_upto(board, is_black, sq as nat),
            mobility <= 64 * sq,
            friendly_occupancy == not_pawns & own_occ,
            not_pawns == !board.pawn_bitboard,
            own_occ == if is_black { board.black_occupancy } else { board.white_occupancy },
            forall|t: int| 0 <= t < 64 ==> (#[trigger] on_sq(permissable, t) <==> mobility_area(board, is_black, t)),
        decreases 64 - sq,
    {
        proof {
            lemma_on_sq_and(not_pawns, own_occ, sq as u64);
            lemma_on_sq_not(board.pawn_bitboard, sq as u64);
        }
        if bit_at(friendly_occupancy, sq) {
            let l = get_piece_mobility(sq, board, permissable);
            proof {
                lemma_count_where_agree(reach_within(board, sq as int, permissable), reach_in_area(board, is_black, sq as int), 64);
            }
            mobility = mobility + l;
        }
        sq = sq + 1;
    }
    mobility
}

/// The squares that the pawns `p` of a colour may attack as they advance: on a neighbouring
/// file, on a rank ahead of the pawn (up for white, down for black).
pub open spec fn attack_frontspan(p: u64, black: bool, t: int) -> bool {
    exists|s: int| 0 <= s < 64 && #[trigger] on_sq(p, s) && (s % 8 - t % 8 == 1 || t % 8 - s % 8 == 1) && if black {
        t / 8 < s / 8
    } else {
        t / 8 > s / 8
    }
}

/// The attack frontspan of the pawns `pawns` of a colour (see `attack_frontspan`).
pub fn calculate_attack_frontspan(pawns: u64, is_black: bool) -> (r: u64)
    ensures
        forall|t: int| 0 <= t < 64 ==> (#[trigger] on_sq(r, t) <==> attack_frontspan(pawns, is_black, t)),
{
    let mut r: u64 = 0;
    let mut t: u8 = 0;
    proof {
        assert forall|u: int| 0 <= u < 64 implies !#[trigger] on_sq(0u64, u) by {
            lemma_zero_has_nothing(u as u64);
        }
    }
    while t < 64
        invariant
            t <= 64,
            forall|u: int| 0 <= u < 64 ==> (#[trigger] on_sq(r, u) <==> (u < t && attack_frontspan(pawns, is_black, u))),
        decreases 64 - t,
    {
        let mut found = false;
        let mut s: u8 = 0;
        while s < 64
            invariant
                s <= 64,
                t < 64,
                found == exists|v: int| 0 <= v < s && #[trigger] on_sq(pawns, v) && (v % 8 - t % 8 == 1 || t % 8 - v % 8 == 1) && if is_black {
                    t / 8 < v / 8
                } else {
                    t / 8 > v / 8
                },
            decreases 64 - s,
        {
            let near = (s % 8) as i8 - (t % 8) as i8 == 1 || (t % 8) as i8 - (s % 8) as i8 == 1;
            let ahead = if is_black { t / 8 < s / 8 } else { t / 8 > s / 8 };
            if !found && bit_at(pawns, s) && near && ahead {
                found = true;
            }
            s = s + 1;
        }
        if found {
            r = crate::attacks::with_square(r, t);
        }
        t = t + 1;
    }
    r
}

/// The ranks of white's half of the board (the first four) and of black's half.
pub open spec fn in_half(black_half: bool, t: int) -> bool {
    if black_half { t >= 32 } else { t < 32 }
}

/// Whether a knight on `s` of the given side is an outpost: in the opponent's half, defended by
/// a friendly pawn, and out of reach of the opponent pawns' attack frontspan.
pub open spec fn is_outpost(is_black: bool, knights: u64, friendly_pawns: u64, opponent_pawns: u64, s: int) -> bool {
    &&& on_sq(knights, s)
    &&& in_half(!is_black, s)
    &&& pawn_attacked(friendly_pawns, is_black, s)
    &&& !attack_frontspan(opponent_pawns, !is_black, s)
}

/// The number of knights of one side on outposts (see `is_outpost`).
pub fn count_knight_outposts(is_black: bool, knight_occupancy: u64, friendly_pawn_occupancy: u64, opponent_pawn_occupancy: u64) -> (r: i16)
    ensures
        r == count_where(|s: int| is_outpost(is_black, knight_occupancy, friendly_pawn_occupancy, opponent_pawn_occupancy, s)),
{
    let ghost p = |s: int| is_outpost(is_black, knight_occupancy, friendly_pawn_occupancy, opponent_pawn_occupancy, s);
    let mut defended: u64 = 0;
    let mut sq: u8 = 0;
    proof {
        assert forall|u: int| 0 <= u < 64 implies !#[trigger] on_sq(0u64, u) by {
            lemma_zero_has_nothing(u as u64);
        }
    }
    while sq < 64
        invariant
            sq <= 64,
            forall|u: int| 0 <= u < 64 ==> (#[trigger] on_sq(defended, u) <==> (u < sq && on_sq(knight_occupancy, u) && in_half(!is_black, u)
                && pawn_attacked(friendly_pawn_occupancy, is_black, u))),
        decreases 64 - sq,
    {
        let in_opponent_half = if is_black { sq < 32 } else { sq >= 32 };
        if in_opponent_half && bit_at(knight_occupancy, sq) {
            let pawn_defenders = pawn_threat_sources(sq, !is_black);
            let d = pawn_defenders & friendly_pawn_occupancy;
            proof {
                lemma_zero_iff_no_square(d);
            }
            if d != 0 {
                proof {
                    let v = choose|v: u64| v < 64 && on_sq(d, v as int);
                    lemma_on_sq_and(pawn_defenders, friendly_pawn_occupancy, v);
                    assert(on_sq(friendly_pawn_occupancy, v as int) && pawn_attack_step(v as int, is_black, sq as int));
                }
                defended = crate::attacks::with_square(defended, sq);
            } else {
                proof {
                    if pawn_attacked(friendly_pawn_occupancy, is_black, sq as int) {
                        let v = choose|v: int| 0 <= v < 64 && #[trigger] on_sq(friendly_pawn_occupancy, v) && pawn_attack_step(v, is_black, sq as int);
                        lemma_on_sq_and(pawn_defenders, friendly_pawn_occupancy, v as u64);
                        assert(on_sq(d, v));
                    }
                }
            }
        }
        sq = sq + 1;
    }
    let opponent_attacks = calculate_attack_frontspan(opponent_pawn_occupancy, !is_black);
    let not_attacked = !opponent_attacks;
    let outposts = defended & not_attacked;
    proof {
        assert forall|u: int| 0 <= u < 64 implies (#[trigger] on_sq(outposts, u) <==> p(u)) by {
            lemma_on_sq_and(defended, not_attacked, u as u64);
            lemma_on_sq_not(opponent_attacks, u as u64);
        }
        crate::attack_and_defend_lookups::lemma_popcount_where(outposts, p, 64);
    }
    count_squares(outposts) as i16
}

/// The least valuable piece type with a piece on `mask` (pawns first, kings last).
pub open spec fn least_valuable_in_mask(mask: u64, board: BoardRep) -> Option<PieceType> {
    if board.pawn_bitboard & mask != 0 {
        Some(PieceType::Pawn)
    } else if board.knight_bitboard & mask != 0 {
        Some(PieceType::Knight)
    } else if board.bishop_bitboard & mask != 0 {
        Some(PieceType::Bishop)
    } else if board.rook_bitboard & mask != 0 {
        Some(PieceType::Rook)
    } else if board.queen_bitboard & mask != 0 {
        Some(PieceType::Queen)
    } else if on_sq(mask, board.white_king_position as int) || on_sq(mask, board.black_king_position as int) {
        Some(PieceType::King)
    } else {
        None
    }
}

/// The least valuable piece type with a piece on `mask` (see `least_valuable_in_mask`).
pub fn get_least_valueable_piece_in_mask(mask: u64, board: BoardRep) -> (r: Option<PieceType>)
    requires
        board.wf(),
    ensures
        r == least_valuable_in_mask(mask, board),
{
    if board.pawn_bitboard & mask != 0 {
        Some(PieceType::Pawn)
    } else if board.knight_bitboard & mask != 0 {
        Some(PieceType::Knight)
    } else if board.bishop_bitboard & mask != 0 {
        Some(PieceType::Bishop)
    } else if board.rook_bitboard & mask != 0 {
        Some(PieceType::Rook)
    } else if board.queen_bitboard & mask != 0 {
        Some(PieceType::Queen)
    } else if bit_at(mask, board.white_king_position) || bit_at(mask, board.black_king_position) {
        Some(PieceType::King)
    } else {
        None
    }
}

/// The opponent pieces that a pawn or knight on `index` attacks (none for other pieces).
pub open spec fn fork_targets(board: BoardRep, index: int, is_black: bool, t: int) -> bool {
    let opp = if is_black { board.white_occupancy } else { board.black_occupancy };
    on_sq(opp, t) && match piece_at(board, index) {
        PieceType::Pawn => pawn_attack_step(index, is_black, t),
        PieceType::Knight => crate::attacks::knight_step(index, t),
        _ => false,
    }
}

/// The piece that a fork by the piece on `index` wins: none when the piece can be taken on
/// the opponent's turn (the opponent not in check); else, when the pawn or knight attacks
/// more than one opponent piece, the least valuable of them.
pub open spec fn fork_spec(board: BoardRep, index: int, white_king_check: bool, black_king_check: bool, forked: u64) -> Option<PieceType> {
    let is_black = on_sq(board.black_occupancy, index);
    let opponent_in_check = if is_black { white_king_check } else { black_king_check };
    if board.black_turn != is_black && !opponent_in_check && piece_safety_spec(
        piece_at(board, index),
        false,
        attacked_by_spec(board, index, !is_black),
        attacked_by_spec(board, index, is_black),
    ) < 0 {
        None
    } else if popcount(forked) > 1 {
        least_valuable_in_mask(forked, board)
    } else {
        None
    }
}

/// Whether `f` holds the opponent pieces that a pawn or knight on `index` attacks.
pub open spec fn is_fork_board(b: BoardRep, index: int, f: u64) -> bool {
    forall|t: int| 0 <= t < 64 ==> (#[trigger] on_sq(f, t) <==> fork_targets(b, index, on_sq(b.black_occupancy, index), t))
}

/// The opponent pieces that a pawn or knight on `index` attacks, as a bitboard.
pub open spec fn forked_board(b: BoardRep, index: int) -> u64 {
    choose|f: u64| #[trigger] is_fork_board(b, index, f)
}

/// The piece that a fork by the piece on `index` wins (see `fork_spec`).
pub fn detect_fork(index: u8, board: BoardRep, white_king_check: bool, black_king_check: bool, ad_table: &mut AttackAndDefendTable) -> (r: Option<PieceType>)
    requires
        index < 64,
        board.wf(),
        old(ad_table).valid_for(board),
    ensures
        final(ad_table).valid_for(board),
        r == fork_spec(board, index as int, white_king_check, black_king_check, forked_board(board, index as int)),
{
    let is_black = bit_at(board.black_occupancy, index);
    let piece_type = board.get_piece_type_at_index(index);
    let opponent_in_check = if is_black { white_king_check } else { black_king_check };
    let opponent_occupancy = if is_black { board.white_occupancy } else { board.black_occupancy };
    let attackers = match piece_type {
        PieceType::Pawn => pawn_attacks(index, is_black),
        PieceType::Knight => knight_attacks(index),
        _ => 0,
    };
    let forked = attackers & opponent_occupancy;
    proof {
        assert forall|t: int| 0 <= t < 64 implies (#[trigger] on_sq(forked, t) <==> fork_targets(board, index as int, is_black, t)) by {
            lemma_on_sq_and(attackers, opponent_occupancy, t as u64);
            lemma_zero_has_nothing(t as u64);
        }
        assert(is_fork_board(board, index as int, forked));
        let f = forked_board(board, index as int);
        assert(is_fork_board(board, index as int, f));
        assert forall|t: int| 0 <= t < 64 implies (#[trigger] on_sq(f, t) <==> on_sq(forked, t)) by {
            assert(on_sq(f, t) <==> fork_targets(board, index as int, is_black, t));
        }
        crate::bitboard::lemma_same_squares_equal(f, forked);
    }
    if board.black_turn != is_black && !opponent_in_check {
        let attacked = ad_table.get_attacked_by(index, board, !is_black);
        let defended = ad_table.get_attacked_by(index, board, is_black);
        if piece_safety(piece_type, false, attacked, defended) < 0 {
            assert(fork_spec(board, index as int, white_king_check, black_king_check, forked) is None);
            return None;
        }
    }
    let r = if count_squares(forked) > 1 {
        get_least_valueable_piece_in_mask(forked, board)
    } else {
        None
    };
    assert(r == fork_spec(board, index as int, white_king_check, black_king_check, forked));
    r
}

/// The centre squares where a side measures its space: files c to f of its second to fourth
/// ranks.
pub open spec fn space_center(is_black: bool) -> u64 {
    if is_black { 16954726998343680u64 } else { 1010580480u64 }
}

/// The squares one, two and three ranks ahead of `t` for a side (up for white, down for
/// black).
pub open spec fn behind_pawn_squares(is_black: bool, t: int, u: int) -> bool {
    let off = if is_black { -8int } else { 8 };
    u == t + off || u == t + 2 * off || u == t + 3 * off
}

/// The pawns of a side.
pub open spec fn pawns_of(board: BoardRep, is_black: bool) -> u64 {
    board.pawn_bitboard & if is_black { board.black_occupancy } else { board.white_occupancy }
}

/// What a centre square adds to a side's space: one when no opponent pawn attacks it, and
/// one more when a friendly pawn stands up to three ranks ahead of it and no opponent piece
/// attacks it.
pub open spec fn space_points(board: BoardRep, is_black: bool, t: int) -> int {
    let friendly_pawns = pawns_of(board, is_black);
    let attacks = attacked_by_spec(board, t, !is_black);
    if on_sq(space_center(is_black), t) && !on_sq(friendly_pawns, t) {
        (if attacks.pawns == 0 { 1int } else { 0 }) + (if (exists|u: int| 0 <= u < 64 && #[trigger] on_sq(friendly_pawns, u)
            && behind_pawn_squares(is_black, t, u)) && !any_spec(attacks) {
            1int
        } else {
            0
        })
    } else {
        0
    }
}

/// The space points of a side over the squares below `n`.
pub open spec fn space_upto(board: BoardRep, is_black: bool, n: nat) -> int
    decreases n,
{
    if n == 0 { 0 } else { space_upto(board, is_black, (n - 1) as nat) + space_points(board, is_black, n - 1) }
}

/// The space a side controls in the centre (see `space_points`).
pub fn calculate_controlled_space_area_for_player(is_black: bool, board: BoardRep, ad_table: &mut AttackAndDefendTable) -> (r: i16)
    requires
        board.wf(),
        old(ad_table).valid_for(board),
    ensures
        final(ad_table).valid_for(board),
        r == space_upto(board, is_black, 64),
{
    let center: u64 = if is_black { 16954726998343680u64 } else { 1010580480u64 };
    let friendly_pawns = board.pawn_bitboard & if is_black { board.black_occupancy } else { board.white_occupancy };
    let off: i8 = if is_black { -8 } else { 8 };
    let mut count: i16 = 0;
    let mut sq: u8 = 0;
    while sq < 64
        invariant
            sq <= 64,
            board.wf(),
            ad_table.valid_for(board),
            count == space_upto(board, is_black, sq as nat),
            0 <= count <= 2 * sq,
            center == space_center(is_black),
            friendly_pawns == pawns_of(board, is_black),
            off == if is_black { -8int } else { 8 },
        decreases 64 - sq,
    {
        if bit_at(center, sq) && !bit_at(friendly_pawns, sq) {
            let attacks = ad_table.get_attacked_by(sq, board, !is_black);
            let mut points: i16 = 0;
            if attacks.pawns == 0 {
                points = points + 1;
            }
            let mut behind = false;
            let mut k: i8 = 1;
            while k <= 3
                invariant
                    1 <= k <= 4,
                    sq < 64,
                    off == if is_black { -8int } else { 8 },
                    behind == exists|j: int| 1 <= j < k && 0 <= sq + j * off < 64 && #[trigger] on_sq(friendly_pawns, sq + j * off),
                decreases 4 - k,
            {
                let step: i16 = if k == 1 { off as i16 } else if k == 2 { 2 * (off as i16) } else { 3 * (off as i16) };
                assert(step == k * off);
                let u: i16 = sq as i16 + step;
                if 0 <= u && u < 64 && bit_at(friendly_pawns, u as u8) {
                    behind = true;
                }
                k = k + 1;
            }
            proof {
                let e1 = exists|u: int| 0 <= u < 64 && #[trigger] on_sq(friendly_pawns, u) && behind_pawn_squares(is_black, sq as int, u);
                if e1 {
                    let u = choose|u: int| 0 <= u < 64 && #[trigger] on_sq(friendly_pawns, u) && behind_pawn_squares(is_black, sq as int, u);
                    if u == sq + off {
                        assert(on_sq(friendly_pawns, sq + 1 * off));
                    } else if u == sq + 2 * off {
                        assert(on_sq(friendly_pawns, sq + 2 * off));
                    } else {
                        assert(on_sq(friendly_pawns, sq + 3 * off));
                    }
                }
                if behind {
                    let j = choose|j: int| 1 <= j < 4 && 0 <= sq + j * off < 64 && #[trigger] on_sq(friendly_pawns, sq + j * off);
                    assert(behind_pawn_squares(is_black, sq as int, sq + j * off));
                }
                assert(behind == e1);
            }
            if behind && !attacks.any() {
                points = points + 1;
            }
            assert(points == space_points(board, is_black, sq as int));
            count = count + points;
        }
        sq = sq + 1;
    }
    count
}

} // verus!

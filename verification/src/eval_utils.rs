use vstd::prelude::*;
use crate::bitboard::{count_squares, on_sq, popcount};
use crate::board_rep::BoardRep;
use crate::move_generation::bit_at;

verus! {

/// Squares whose centre distance (see `center_distance`) has bit 0 set.
pub const CENTER_DISTANCE_BIT_0: u64 = 0xFF81BDA5A5BD81FFu64;

/// Squares whose centre distance (see `center_distance`) has bit 1 set.
pub const CENTER_DISTANCE_BIT_1: u64 = 0xFFFFC3C3C3C3FFFFu64;

/// How far a file or rank number lies from the two middle ones (3 and 4).
pub open spec fn line_distance(c: int) -> int {
    if c < 4 { 3 - c } else { c - 4 }
}

/// The distance of a square from the four centre squares counted in king steps: the larger of
/// its file's and its rank's distance from the middle.
pub open spec fn center_distance(sq: int) -> int {
    let f = line_distance(sq % 8);
    let r = line_distance(sq / 8);
    if f < r { r } else { f }
}

/// The distance of a square from the four centre squares counted in file and rank steps.
pub open spec fn center_manhattan_distance(sq: int) -> int {
    line_distance(sq % 8) + line_distance(sq / 8)
}

/// The score of the pieces of `occupancy` that stand on `board`: `factor` for each.
pub fn board_occupancy_score(occupancy: u64, board: u64, factor: i16) -> (r: i16)
    requires
        i16::MIN <= popcount(occupancy & board) * factor <= i16::MAX,
    ensures
        r == popcount(occupancy & board) * factor,
{
    (count_squares(occupancy & board) as i16) * factor
}

/// The score of the pieces of `pov_occupancy` that stand on the squares of the 32-bit board
/// `pov_board` (the lower half of the board): `factor` for each.
pub fn half_board_occupancy_score(pov_occupancy: u64, pov_board: u32, factor: i16) -> (r: i16)
    requires
        i16::MIN <= popcount(pov_occupancy & (pov_board as u64)) * factor <= i16::MAX,
    ensures
        r == popcount(pov_occupancy & (pov_board as u64)) * factor,
{
    (count_squares(pov_occupancy & (pov_board as u64)) as i16) * factor
}

/// `factor` when `occupancy` holds the square `index`, else 0.
pub fn piece_positional_reward(occupancy: u64, index: u8, factor: i16) -> (r: i16)
    requires
        index < 64,
    ensures
        r == if on_sq(occupancy, index as int) { factor } else { 0 },
{
    if bit_at(occupancy, index) {
        factor
    } else {
        0
    }
}

/// The value of the pieces of `occ`, by type (`piece_value` lists pawn, knight, bishop,
/// rook and queen values first), as the partial sums pawn, pawn and knight, and so on.
pub open spec fn aggregate_upto(board: BoardRep, occ: u64, piece_value: Seq<i16>, k: int) -> int
    decreases k,
{
    if k <= 0 {
        0
    } else {
        let bb = if k == 1 {
            board.pawn_bitboard
        } else if k == 2 {
            board.knight_bitboard
        } else if k == 3 {
            board.bishop_bitboard
        } else if k == 4 {
            board.rook_bitboard
        } else {
            board.queen_bitboard
        };
        aggregate_upto(board, occ, piece_value, k - 1) + popcount(bb & occ) * piece_value[k - 1]
    }
}

/// Whether every term and partial sum of a piece aggregate fits an `i16`.
pub open spec fn aggregate_fits(board: BoardRep, occ: u64, piece_value: Seq<i16>) -> bool {
    &&& forall|k: int| 1 <= k <= 5 ==> i16::MIN <= #[trigger] aggregate_upto(board, occ, piece_value, k) <= i16::MAX
    &&& i16::MIN <= popcount(board.pawn_bitboard & occ) * piece_value[0] <= i16::MAX
    &&& i16::MIN <= popcount(board.knight_bitboard & occ) * piece_value[1] <= i16::MAX
    &&& i16::MIN <= popcount(board.bishop_bitboard & occ) * piece_value[2] <= i16::MAX
    &&& i16::MIN <= popcount(board.rook_bitboard & occ) * piece_value[3] <= i16::MAX
    &&& i16::MIN <= popcount(board.queen_bitboard & occ) * piece_value[4] <= i16::MAX
}

/// The value of the pieces of `occ` other than kings (see `aggregate_upto`).
pub fn piece_aggregate_score(board: BoardRep, occ: u64, piece_value: [i16; 6]) -> (r: i16)
    requires
        aggregate_fits(board, occ, piece_value@),
    ensures
        r == aggregate_upto(board, occ, piece_value@, 5),
{
    let ghost v = piece_value@;
    assert(aggregate_upto(board, occ, v, 0) == 0);
    assert(i16::MIN <= aggregate_upto(board, occ, v, 1) <= i16::MAX);
    assert(i16::MIN <= aggregate_upto(board, occ, v, 2) <= i16::MAX);
    assert(i16::MIN <= aggregate_upto(board, occ, v, 3) <= i16::MAX);
    assert(i16::MIN <= aggregate_upto(board, occ, v, 4) <= i16::MAX);
    assert(i16::MIN <= aggregate_upto(board, occ, v, 5) <= i16::MAX);
    let mut r: i16 = 0;
    r = r + board_occupancy_score(board.pawn_bitboard, occ, piece_value[0]);
    assert(r == aggregate_upto(board, occ, v, 1));
    r = r + board_occupancy_score(board.knight_bitboard, occ, piece_value[1]);
    assert(r == aggregate_upto(board, occ, v, 2));
    r = r + board_occupancy_score(board.bishop_bitboard, occ, piece_value[2]);
    assert(r == aggregate_upto(board, occ, v, 3));
    r = r + board_occupancy_score(board.rook_bitboard, occ, piece_value[3]);
    assert(r == aggregate_upto(board, occ, v, 4));
    r = r + board_occupancy_score(board.queen_bitboard, occ, piece_value[4]);
    r
}

/// The distance of a square from the four centre squares in king steps (see
/// `center_distance`), read off two bitboards.
pub fn distance_to_center(square: u8) -> (r: i16)
    requires
        square < 64,
    ensures
        r == center_distance(square as int),
{
    let s = square as u64;
    let b1 = (CENTER_DISTANCE_BIT_1 >> s) & 1;
    let b0 = (CENTER_DISTANCE_BIT_0 >> s) & 1;
    assert(b1 <= 1 && b0 <= 1 && 2 * b1 + b0 == (if (if s % 8 < 4 { 3 - s % 8 } else { s % 8 - 4 }) < (if s / 8 < 4 { 3 - s / 8 } else { s / 8 - 4 }) {
        if s / 8 < 4 { 3 - s / 8 } else { s / 8 - 4 }
    } else {
        if s % 8 < 4 { 3 - s % 8 } else { s % 8 - 4 }
    })) by (bit_vector)
        requires
            s < 64,
            b1 == (0xFFFFC3C3C3C3FFFFu64 >> s) & 1,
            b0 == (0xFF81BDA5A5BD81FFu64 >> s) & 1,
    ;
    let v = 2 * b1 + b0;
    v as i16
}

/// The value a file or rank number takes in `manhattan_distance_to_center` before the sum is
/// cut to three bits: numbers below 4 become their complement.
pub open spec fn fold_line(c: int) -> int {
    if c < 4 { -c - 1 } else { c }
}

/// What `manhattan_distance_to_center` gives for any byte: the folded file and rank numbers
/// added, cut to three bits.
pub open spec fn manhattan_center_spec(square: int) -> int {
    ((fold_line(square % 8) + fold_line(square / 8)) as i16 & 7i16) as int
}

/// The distance of a square from the four centre squares in file and rank steps (see
/// `center_manhattan_distance`), by folding the file and rank numbers.
pub fn manhattan_distance_to_center(square: u8) -> (r: i16)
    ensures
        r == manhattan_center_spec(square as int),
        square < 64 ==> r == center_manhattan_distance(square as int),
{
    let sq = square as i16;
    assert({
        &&& 0 <= (sq & 7) <= 7
        &&& 0 <= (sq >> 3) <= 31
        &&& (sq & 7) == sq % 8
        &&& (sq >> 3) == sq / 8
        &&& ((sq & 7) ^ ((((sq & 7) - 4) as i16) >> 8)) == (if (sq & 7) < 4 { -(sq & 7) - 1 } else { (sq & 7) as int })
        &&& ((sq >> 3) ^ ((((sq >> 3) - 4) as i16) >> 8)) == (if (sq >> 3) < 4 { -(sq >> 3) - 1 } else { (sq >> 3) as int })
        &&& sq < 64 ==> ((((if (sq & 7) < 4 { -(sq & 7) - 1 } else { (sq & 7) as int }) + (if (sq >> 3) < 4 {
            -(sq >> 3) - 1
        } else {
            (sq >> 3) as int
        })) as i16) & 7i16) == (if (sq & 7) < 4 { 3 - (sq & 7) } else { (sq & 7) - 4 }) + (if (sq >> 3) < 4 {
            3 - (sq >> 3)
        } else {
            (sq >> 3) - 4
        })
    }) by (bit_vector)
        requires
            0 <= sq < 256,
    ;
    let mut file = sq & 7;
    let mut rank = sq >> 3;
    file = file ^ ((file - 4) >> 8);
    rank = rank ^ ((rank - 4) >> 8);
    (file + rank) & 7
}

/// The absolute value of an integer.
pub open spec fn abs_int(x: int) -> int {
    if x < 0 { -x } else { x }
}

/// The distance between two squares in file and rank steps, for any bytes: file and rank are
/// the remainder and the quotient of division by 8 (rounding down).
pub open spec fn manhattan_spec(a: int, b: int) -> int {
    abs_int(b / 8 - a / 8) + abs_int(b % 8 - a % 8)
}

/// A byte splits into its lowest three bits and the rest shifted down.
proof fn lemma_i8_split(x: i8)
    ensures
        x == (x >> 3) * 8 + (x & 7),
        0 <= (x & 7) < 8,
        -16 <= (x >> 3) < 16,
{
    assert(x == (x >> 3) * 8 + (x & 7) && 0 <= (x & 7) < 8 && -16 <= (x >> 3) < 16) by (bit_vector);
}

/// The distance between two squares in file and rank steps (see `manhattan_spec`).
pub fn manhattan_distance(a: i8, b: i8) -> (r: u8)
    ensures
        r == manhattan_spec(a as int, b as int),
{
    proof {
        lemma_i8_split(a);
        lemma_i8_split(b);
    }
    let a_file = a & 7;
    let a_rank = a >> 3;
    let b_file = b & 7;
    let b_rank = b >> 3;
    let dr = b_rank - a_rank;
    let df = b_file - a_file;
    let ar = if dr < 0 { -dr } else { dr };
    let af = if df < 0 { -df } else { df };
    (ar + af) as u8
}

/// How many more rooks and queens white has than black.
pub fn orthogonal_piece_difference(board: BoardRep) -> (r: i8)
    ensures
        r == popcount((board.rook_bitboard | board.queen_bitboard) & board.white_occupancy) - popcount(
            (board.rook_bitboard | board.queen_bitboard) & board.black_occupancy,
        ),
{
    let orthog_pieces = board.rook_bitboard | board.queen_bitboard;
    let w = count_squares(orthog_pieces & board.white_occupancy) as i8;
    let b = count_squares(orthog_pieces & board.black_occupancy) as i8;
    w - b
}

} // verus!

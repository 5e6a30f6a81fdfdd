use vstd::prelude::*;
use crate::bitboard::{on_sq, lemma_on_sq_or, lemma_on_sq_and, lemma_on_sq_not, lemma_on_sq_xor, lemma_on_sq_shr, lemma_on_sq_shl, popcount, count_squares};

verus! {

/// Whether a square of `p` stands on the file of `t`, at `t` or up to six ranks above it.
pub open spec fn filled_from_above(p: u64, t: int) -> bool {
    exists|k: int| 0 <= k < 7 && t + 8 * k < 64 && #[trigger] on_sq(p, t + 8 * k)
}

/// Whether a square of `p` stands on the file of `t`, at `t` or up to six ranks below it.
pub open spec fn filled_from_below(p: u64, t: int) -> bool {
    exists|k: int| 0 <= k < 7 && t - 8 * k >= 0 && #[trigger] on_sq(p, t - 8 * k)
}

/// Whether a square of `p` stands on the file of `t`.
pub open spec fn on_file_of(p: u64, t: int) -> bool {
    exists|s: int| 0 <= s < 64 && s % 8 == t % 8 && #[trigger] on_sq(p, s)
}

proof fn lemma_south_step(p: u64, r: u64, k: u64, reach: int, t: int)
    requires
        k == 8 * reach,
        0 < reach <= 4,
        0 <= t < 64,
        r == p | (p >> k),
    ensures
        on_sq(r, t) <==> (on_sq(p, t) || (t + k < 64 && on_sq(p, t + k))),
{
    lemma_on_sq_or(p, p >> k, t as u64);
    lemma_on_sq_shr(p, k, t as u64);
}

/// Each square of `pawns` filled down its file to the first rank.
pub fn south_file_fill(pawns: u64) -> (r: u64)
    ensures
        forall|t: int| 0 <= t < 64 ==> (#[trigger] on_sq(r, t) <==> filled_from_above(pawns, t)),
{
    let p1 = pawns | (pawns >> 8u64);
    let p2 = p1 | (p1 >> 16u64);
    let p3 = p2 | (p2 >> 24u64);
    proof {
        assert forall|t: int| 0 <= t < 64 implies (#[trigger] on_sq(p3, t) <==> filled_from_above(pawns, t)) by {
            lemma_south_step(p2, p3, 24, 3, t);
            lemma_south_step(p1, p2, 16, 2, t);
            lemma_south_step(pawns, p1, 8, 1, t);
            if t + 24 < 64 {
                lemma_south_step(p1, p2, 16, 2, t + 24);
                lemma_south_step(pawns, p1, 8, 1, t + 24);
            }
            if t + 16 < 64 {
                lemma_south_step(pawns, p1, 8, 1, t + 16);
            }
            if t + 40 < 64 {
                lemma_south_step(pawns, p1, 8, 1, t + 40);
            }
            if filled_from_above(pawns, t) {
                let k = choose|k: int| 0 <= k < 7 && t + 8 * k < 64 && #[trigger] on_sq(pawns, t + 8 * k);
                if k == 0 {
                    assert(on_sq(pawns, t));
                } else if k == 1 {
                    assert(on_sq(pawns, t + 8));
                } else if k == 2 {
                    assert(on_sq(pawns, t + 16));
                } else if k == 3 {
                    assert(on_sq(pawns, t + 24));
                } else if k == 4 {
                    assert(on_sq(pawns, t + 32));
                } else if k == 5 {
                    assert(on_sq(pawns, t + 40));
                } else {
                    assert(on_sq(pawns, t + 48));
                }
                assert(on_sq(p3, t));
            }
            if on_sq(p3, t) {
                if on_sq(pawns, t) {
                    assert(on_sq(pawns, t + 8 * 0));
                } else if t + 8 < 64 && on_sq(pawns, t + 8) {
                    assert(on_sq(pawns, t + 8 * 1));
                } else if t + 16 < 64 && on_sq(pawns, t + 16) {
                    assert(on_sq(pawns, t + 8 * 2));
                } else if t + 24 < 64 && on_sq(pawns, t + 24) {
                    assert(on_sq(pawns, t + 8 * 3));
                } else if t + 32 < 64 && on_sq(pawns, t + 32) {
                    assert(on_sq(pawns, t + 8 * 4));
                } else if t + 40 < 64 && on_sq(pawns, t + 40) {
                    assert(on_sq(pawns, t + 8 * 5));
                } else {
                    assert(on_sq(pawns, t + 8 * 6));
                }
            }
        }
    }
    p3
}

proof fn lemma_north_step(p: u64, r: u64, k: u64, reach: int, t: int)
    requires
        k == 8 * reach,
        0 < reach <= 4,
        0 <= t < 64,
        r == p | (p << k),
    ensures
        on_sq(r, t) <==> (on_sq(p, t) || (t - k >= 0 && on_sq(p, t - k))),
{
    lemma_on_sq_or(p, p << k, t as u64);
    lemma_on_sq_shl(p, k, t as u64);
}

/// Each square of `pawns` filled up its file to the last rank.
pub fn north_file_fill(pawns: u64) -> (r: u64)
    ensures
        forall|t: int| 0 <= t < 64 ==> (#[trigger] on_sq(r, t) <==> filled_from_below(pawns, t)),
{
    let p1 = pawns | (pawns << 8u64);
    let p2 = p1 | (p1 << 16u64);
    let p3 = p2 | (p2 << 24u64);
    proof {
        assert forall|t: int| 0 <= t < 64 implies (#[trigger] on_sq(p3, t) <==> filled_from_below(pawns, t)) by {
            lemma_north_step(p2, p3, 24, 3, t);
            lemma_north_step(p1, p2, 16, 2, t);
            lemma_north_step(pawns, p1, 8, 1, t);
            if t - 24 >= 0 {
                lemma_north_step(p1, p2, 16, 2, t - 24);
                lemma_north_step(pawns, p1, 8, 1, t - 24);
            }
            if t - 16 >= 0 {
                lemma_north_step(pawns, p1, 8, 1, t - 16);
            }
            if t - 40 >= 0 {
                lemma_north_step(pawns, p1, 8, 1, t - 40);
            }
            if filled_from_below(pawns, t) {
                let k = choose|k: int| 0 <= k < 7 && t - 8 * k >= 0 && #[trigger] on_sq(pawns, t - 8 * k);
                if k == 0 {
                    assert(on_sq(pawns, t));
                } else if k == 1 {
                    assert(on_sq(pawns, t - 8));
                } else if k == 2 {
                    assert(on_sq(pawns, t - 16));
                } else if k == 3 {
                    assert(on_sq(pawns, t - 24));
                } else if k == 4 {
                    assert(on_sq(pawns, t - 32));
                } else if k == 5 {
                    assert(on_sq(pawns, t - 40));
                } else {
                    assert(on_sq(pawns, t - 48));
                }
                assert(on_sq(p3, t));
            }
            if on_sq(p3, t) {
                if on_sq(pawns, t) {
                    assert(on_sq(pawns, t - 8 * 0));
                } else if t - 8 >= 0 && on_sq(pawns, t - 8) {
                    assert(on_sq(pawns, t - 8 * 1));
                } else if t - 16 >= 0 && on_sq(pawns, t - 16) {
                    assert(on_sq(pawns, t - 8 * 2));
                } else if t - 24 >= 0 && on_sq(pawns, t - 24) {
                    assert(on_sq(pawns, t - 8 * 3));
                } else if t - 32 >= 0 && on_sq(pawns, t - 32) {
                    assert(on_sq(pawns, t - 8 * 4));
                } else if t - 40 >= 0 && on_sq(pawns, t - 40) {
                    assert(on_sq(pawns, t - 8 * 5));
                } else {
                    assert(on_sq(pawns, t - 8 * 6));
                }
            }
        }
    }
    p3
}

/// Whether the file fill of `p` covers `t`: a square of `p` on its file within six ranks.
pub open spec fn filled(p: u64, t: int) -> bool {
    filled_from_below(p, t) || filled_from_above(p, t)
}

/// Each square of `pawns` filled along its file both ways.
pub fn file_fill(pawns: u64) -> (r: u64)
    ensures
        forall|t: int| 0 <= t < 64 ==> (#[trigger] on_sq(r, t) <==> filled(pawns, t)),
{
    let n = north_file_fill(pawns);
    let s = south_file_fill(pawns);
    let r = n | s;
    proof {
        assert forall|t: int| 0 <= t < 64 implies (#[trigger] on_sq(r, t) <==> filled(pawns, t)) by {
            lemma_on_sq_or(n, s, t as u64);
        }
    }
    r
}

/// The files filled by both sides' pawn fills.
pub fn closed_files(white_file_fill: u64, black_file_fill: u64) -> (r: u64)
    ensures
        forall|t: int| 0 <= t < 64 ==> (#[trigger] on_sq(r, t) <==> on_sq(white_file_fill, t) && on_sq(black_file_fill, t)),
{
    let r = white_file_fill & black_file_fill;
    proof {
        assert forall|t: int| 0 <= t < 64 implies (#[trigger] on_sq(r, t) <==> on_sq(white_file_fill, t) && on_sq(black_file_fill, t)) by {
            lemma_on_sq_and(white_file_fill, black_file_fill, t as u64);
        }
    }
    r
}

/// The squares that neither side's pawn fill covers.
pub fn open_files(white_file_fill: u64, black_file_fill: u64) -> (r: u64)
    ensures
        forall|t: int| 0 <= t < 64 ==> (#[trigger] on_sq(r, t) <==> !on_sq(white_file_fill, t) && !on_sq(black_file_fill, t)),
{
    let u = white_file_fill | black_file_fill;
    let r = !u;
    proof {
        assert forall|t: int| 0 <= t < 64 implies (#[trigger] on_sq(r, t) <==> !on_sq(white_file_fill, t) && !on_sq(black_file_fill, t)) by {
            lemma_on_sq_not(u, t as u64);
            lemma_on_sq_or(white_file_fill, black_file_fill, t as u64);
        }
    }
    r
}

/// The squares that the file fill of `pawns` leaves empty.
pub fn half_open_or_open_files(pawns: u64) -> (r: u64)
    ensures
        forall|t: int| 0 <= t < 64 ==> (#[trigger] on_sq(r, t) <==> !filled(pawns, t)),
{
    let f = file_fill(pawns);
    let r = !f;
    proof {
        assert forall|t: int| 0 <= t < 64 implies (#[trigger] on_sq(r, t) <==> !filled(pawns, t)) by {
            lemma_on_sq_not(f, t as u64);
        }
    }
    r
}

/// The squares half open for the side of `a_file_fill`: its own fill leaves them empty and
/// the other side's covers them.
pub fn half_open_files(a_file_fill: u64, b_file_fill: u64) -> (r: u64)
    ensures
        forall|t: int| 0 <= t < 64 ==> (#[trigger] on_sq(r, t) <==> !on_sq(a_file_fill, t) && on_sq(b_file_fill, t)),
{
    let na = !a_file_fill;
    let o = open_files(a_file_fill, b_file_fill);
    let r = na ^ o;
    proof {
        assert forall|t: int| 0 <= t < 64 implies (#[trigger] on_sq(r, t) <==> !on_sq(a_file_fill, t) && on_sq(b_file_fill, t)) by {
            lemma_on_sq_xor(na, o, t as u64);
            lemma_on_sq_not(a_file_fill, t as u64);
        }
    }
    r
}

/// The squares on files that no pawn of either side fills.
pub fn board_open_files(board: crate::board_rep::BoardRep) -> (r: u64)
    ensures
        forall|t: int| 0 <= t < 64 ==> (#[trigger] on_sq(r, t) <==> !filled(board.pawn_bitboard & board.white_occupancy, t)
            && !filled(board.pawn_bitboard & board.black_occupancy, t)),
{
    let w = file_fill(board.pawn_bitboard & board.white_occupancy);
    let b = file_fill(board.pawn_bitboard & board.black_occupancy);
    open_files(w, b)
}

/// The number of rooks on open files.
pub fn count_rooks_on_open_file(rooks: u64, open_files: u64) -> (r: i16)
    ensures
        r == popcount(rooks & open_files),
{
    count_squares(rooks & open_files) as i16
}

/// The number of forts of one side on files where an opponent rook stands on an open file.
pub fn get_forts_on_rook_open_file(a_forts: u64, b_rooks: u64, open_files: u64) -> (r: i16)
    ensures
        exists|fill: u64| (forall|t: int| 0 <= t < 64 ==> (#[trigger] on_sq(fill, t) <==> filled(b_rooks & open_files, t)))
            && r == popcount(a_forts & fill),
{
    let rook_open_files = file_fill(b_rooks & open_files);
    count_squares(a_forts & rook_open_files) as i16
}

} // verus!

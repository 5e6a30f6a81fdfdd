use vstd::prelude::*;
use crate::bitboard::{on_sq, lemma_on_sq_or, lemma_on_sq_bit, lemma_zero_has_nothing};
use crate::board_utils::{rank_of, file_of};

verus! {

/// The distance between two integers.
pub open spec fn abs_diff(a: int, b: int) -> int {
    if a >= b { a - b } else { b - a }
}

/// Whether a knight on `s` attacks square `t`.
pub open spec fn knight_step(s: int, t: int) -> bool {
    &&& 0 <= t < 64
    &&& {
        let dr = abs_diff(rank_of(s), rank_of(t));
        let df = abs_diff(file_of(s), file_of(t));
        (dr == 1 && df == 2) || (dr == 2 && df == 1)
    }
}

/// Whether a king on `s` attacks square `t`.
pub open spec fn king_step(s: int, t: int) -> bool {
    &&& 0 <= t < 64
    &&& t != s
    &&& abs_diff(rank_of(s), rank_of(t)) <= 1
    &&& abs_diff(file_of(s), file_of(t)) <= 1
}

/// Whether a pawn of the given colour on `s` attacks square `t`: one rank forward
/// (up for white, down for black) on a neighbouring file.
pub open spec fn pawn_attack_step(s: int, black: bool, t: int) -> bool {
    &&& 0 <= t < 64
    &&& rank_of(t) == rank_of(s) + (if black { -1int } else { 1 })
    &&& abs_diff(file_of(s), file_of(t)) == 1
}

/// The squares set in a bitboard, as a predicate.
pub open spec fn squares_are(b: u64, p: spec_fn(int) -> bool) -> bool {
    forall|t: int| 0 <= t < 64 ==> (#[trigger] on_sq(b, t) <==> p(t))
}

/// `b` with square `t` added.
pub fn with_square(b: u64, t: u8) -> (r: u64)
    requires
        t < 64,
    ensures
        r == b | (1u64 << t),
        forall|u: int| 0 <= u < 64 ==> (#[trigger] on_sq(r, u) <==> (on_sq(b, u) || u == t)),
{
    let r = b | (1u64 << t);
    proof {
        assert forall|u: int| 0 <= u < 64 implies (#[trigger] on_sq(r, u) <==> (on_sq(b, u) || u == t)) by {
            lemma_on_sq_or(b, 1u64 << t, u as u64);
            lemma_on_sq_bit(u as u64, t as u64);
        }
    }
    r
}

proof fn lemma_empty_board()
    ensures
        forall|u: int| 0 <= u < 64 ==> !#[trigger] on_sq(0u64, u),
{
    assert forall|u: int| 0 <= u < 64 implies !#[trigger] on_sq(0u64, u) by {
        lemma_zero_has_nothing(u as u64);
    }
}

/// The squares a knight on `index` attacks.
pub fn knight_attacks(index: u8) -> (r: u64)
    requires
        index < 64,
    ensures
        forall|t: int| 0 <= t < 64 ==> (#[trigger] on_sq(r, t) <==> knight_step(index as int, t)),
{
    proof {
        lemma_empty_board();
    }
    let col = index % 8;
    let mut r: u64 = 0;
    if index <= 48 && col != 0 {
        r = with_square(r, index + 15);
    }
    if index <= 55 && col > 1 {
        r = with_square(r, index + 6);
    }
    if index >= 10 && col > 1 {
        r = with_square(r, index - 10);
    }
    if index >= 17 && col != 0 {
        r = with_square(r, index - 17);
    }
    if index >= 15 && col != 7 {
        r = with_square(r, index - 15);
    }
    if index >= 6 && col < 6 {
        r = with_square(r, index - 6);
    }
    if index <= 53 && col < 6 {
        r = with_square(r, index + 10);
    }
    if index <= 46 && col != 7 {
        r = with_square(r, index + 17);
    }
    r
}

/// The squares a king on `index` attacks.
pub fn king_attacks(index: u8) -> (r: u64)
    requires
        index < 64,
    ensures
        forall|t: int| 0 <= t < 64 ==> (#[trigger] on_sq(r, t) <==> king_step(index as int, t)),
{
    proof {
        lemma_empty_board();
    }
    let col = index % 8;
    let mut r: u64 = 0;
    if index + 7 < 64 && col != 0 {
        r = with_square(r, index + 7);
    }
    if index >= 1 && col != 0 {
        r = with_square(r, index - 1);
    }
    if index >= 9 && col != 0 {
        r = with_square(r, index - 9);
    }
    if index >= 8 {
        r = with_square(r, index - 8);
    }
    if index >= 7 && col != 7 {
        r = with_square(r, index - 7);
    }
    if index + 1 < 64 && col != 7 {
        r = with_square(r, index + 1);
    }
    if index + 9 < 64 && col != 7 {
        r = with_square(r, index + 9);
    }
    if index + 8 < 64 {
        r = with_square(r, index + 8);
    }
    r
}

/// The squares a pawn of the given colour on `index` attacks.
pub fn pawn_attacks(index: u8, is_black: bool) -> (r: u64)
    requires
        index < 64,
    ensures
        forall|t: int| 0 <= t < 64 ==> (#[trigger] on_sq(r, t) <==> pawn_attack_step(index as int, is_black, t)),
{
    proof {
        lemma_empty_board();
    }
    let col = index % 8;
    let mut r: u64 = 0;
    if is_black {
        if index >= 8 {
            if col != 0 {
                r = with_square(r, index - 9);
            }
            if col != 7 {
                r = with_square(r, index - 7);
            }
        }
    } else {
        if index < 56 {
            if col != 0 {
                r = with_square(r, index + 7);
            }
            if col != 7 {
                r = with_square(r, index + 9);
            }
        }
    }
    r
}

/// The squares from which a pawn of the side other than `black_turn` attacks `index`
/// (below it for white pawns, when `black_turn`; above it for black pawns otherwise).
pub fn pawn_threat_sources(index: u8, black_turn: bool) -> (r: u64)
    requires
        index < 64,
    ensures
        forall|t: int| 0 <= t < 64 ==> (#[trigger] on_sq(r, t) <==> pawn_attack_step(t, !black_turn, index as int)),
{
    proof {
        lemma_empty_board();
    }
    let col = index % 8;
    let mut r: u64 = 0;
    if black_turn {
        if index >= 8 {
            if col != 0 {
                r = with_square(r, index - 9);
            }
            if col != 7 {
                r = with_square(r, index - 7);
            }
        }
    } else {
        if index < 56 {
            if col != 0 {
                r = with_square(r, index + 7);
            }
            if col != 7 {
                r = with_square(r, index + 9);
            }
        }
    }
    r
}

/// Whether `t` lies on the ray from `s` in direction (`dr` ranks, `dc` bit columns) at
/// distance `k`.
pub open spec fn ray_square(s: int, dr: int, dc: int, k: int) -> int {
    (s / 8 + k * dr) * 8 + (s % 8 + k * dc)
}

/// Whether the ray square at distance `k` is on the board.
pub open spec fn ray_on_board(s: int, dr: int, dc: int, k: int) -> bool {
    0 <= s / 8 + k * dr < 8 && 0 <= s % 8 + k * dc < 8
}

/// Whether a slider on `s` moving in direction (`dr`, `dc`) reaches `t` over empty squares
/// (the square `t` itself may be occupied).
pub open spec fn slide_reaches(s: int, dr: int, dc: int, occ: u64, t: int) -> bool {
    exists|k: int|
        1 <= k < 8 && ray_on_board(s, dr, dc, k) && #[trigger] ray_square(s, dr, dc, k) == t && forall|j: int|
            1 <= j < k ==> !on_sq(occ, #[trigger] ray_square(s, dr, dc, j))
}

/// Whether a rook on `s` attacks `t` with the squares of `occ` occupied.
pub open spec fn rook_attack(s: int, occ: u64, t: int) -> bool {
    slide_reaches(s, 1, 0, occ, t) || slide_reaches(s, -1, 0, occ, t) || slide_reaches(s, 0, 1, occ, t)
        || slide_reaches(s, 0, -1, occ, t)
}

/// Whether a bishop on `s` attacks `t` with the squares of `occ` occupied.
pub open spec fn bishop_attack(s: int, occ: u64, t: int) -> bool {
    slide_reaches(s, 1, 1, occ, t) || slide_reaches(s, 1, -1, occ, t) || slide_reaches(s, -1, 1, occ, t)
        || slide_reaches(s, -1, -1, occ, t)
}

/// The squares a slider on `index` reaches in one direction.
fn slide_ray(index: u8, dr: i8, dc: i8, occ: u64, acc: u64) -> (r: u64)
    requires
        index < 64,
        -1 <= dr <= 1,
        -1 <= dc <= 1,
        dr != 0 || dc != 0,
    ensures
        forall|t: int| 0 <= t < 64 ==> (#[trigger] on_sq(r, t) <==> (on_sq(acc, t) || slide_reaches(index as int, dr as int, dc as int, occ, t))),
{
    let mut r = acc;
    let mut rank: i8 = (index / 8) as i8 + dr;
    let mut col: i8 = (index % 8) as i8 + dc;
    let mut k: i8 = 1;
    let ghost s = index as int;
    while 0 <= rank && rank < 8 && 0 <= col && col < 8
        invariant
            1 <= k <= 8,
            rank == s / 8 + k * dr,
            col == s % 8 + k * dc,
            -1 <= dr <= 1,
            -1 <= dc <= 1,
            dr != 0 || dc != 0,
            0 <= s < 64,
            s == index as int,
            forall|j: int| 1 <= j < k ==> ray_on_board(s, dr as int, dc as int, j),
            forall|j: int| 1 <= j < k ==> !on_sq(occ, #[trigger] ray_square(s, dr as int, dc as int, j)),
            forall|t: int| 0 <= t < 64 ==> (#[trigger] on_sq(r, t) <==> (on_sq(acc, t) || exists|j: int|
                1 <= j < k && #[trigger] ray_square(s, dr as int, dc as int, j) == t)),
        decreases 8 - k,
    {
        let t = (rank * 8 + col) as u8;
        assert(t as int == ray_square(s, dr as int, dc as int, k as int));
        assert(ray_on_board(s, dr as int, dc as int, k as int));
        r = with_square(r, t);
        proof {
            assert forall|tt: int| 0 <= tt < 64 implies (#[trigger] on_sq(r, tt) <==> (on_sq(acc, tt) || exists|j: int|
                1 <= j < k + 1 && #[trigger] ray_square(s, dr as int, dc as int, j) == tt)) by {
                if tt == t as int {
                    assert(ray_square(s, dr as int, dc as int, k as int) == tt);
                }
                if exists|j: int| 1 <= j < k + 1 && #[trigger] ray_square(s, dr as int, dc as int, j) == tt {
                    let j = choose|j: int| 1 <= j < k + 1 && #[trigger] ray_square(s, dr as int, dc as int, j) == tt;
                    if j < k {
                    } else {
                        assert(j == k);
                    }
                }
            }
        }
        if (occ >> (t as u64)) & 1 == 1 {
            proof {
                assert(on_sq(occ, ray_square(s, dr as int, dc as int, k as int)));
                assert forall|tt: int| 0 <= tt < 64 implies (#[trigger] on_sq(r, tt) <==> (on_sq(acc, tt) || slide_reaches(s, dr as int, dc as int, occ, tt))) by {
                    if slide_reaches(s, dr as int, dc as int, occ, tt) {
                        let kk = choose|kk: int| 1 <= kk < 8 && ray_on_board(s, dr as int, dc as int, kk) && #[trigger] ray_square(s, dr as int, dc as int, kk) == tt && forall|j: int|
                            1 <= j < kk ==> !on_sq(occ, #[trigger] ray_square(s, dr as int, dc as int, j));
                        if kk > k {
                            assert(!on_sq(occ, ray_square(s, dr as int, dc as int, k as int)));
                            assert(false);
                        }
                        assert(1 <= kk < k + 1);
                        assert(exists|j: int| 1 <= j < k + 1 && #[trigger] ray_square(s, dr as int, dc as int, j) == tt);
                    }
                    if exists|j: int| 1 <= j < k + 1 && #[trigger] ray_square(s, dr as int, dc as int, j) == tt {
                        let j = choose|j: int| 1 <= j < k + 1 && #[trigger] ray_square(s, dr as int, dc as int, j) == tt;
                        assert(ray_on_board(s, dr as int, dc as int, j));
                        assert(forall|i: int| 1 <= i < j ==> !on_sq(occ, #[trigger] ray_square(s, dr as int, dc as int, i)));
                        assert(slide_reaches(s, dr as int, dc as int, occ, tt));
                    }
                }
            }
            return r;
        }
        assert((k as int + 1) * (dr as int) == k as int * dr as int + dr as int) by (nonlinear_arith);
        assert((k as int + 1) * (dc as int) == k as int * dc as int + dc as int) by (nonlinear_arith);
        assert(!on_sq(occ, ray_square(s, dr as int, dc as int, k as int)));
        rank = rank + dr;
        col = col + dc;
        k = k + 1;
    }
    proof {
        assert forall|tt: int| 0 <= tt < 64 implies (#[trigger] on_sq(r, tt) <==> (on_sq(acc, tt) || slide_reaches(s, dr as int, dc as int, occ, tt))) by {
            if slide_reaches(s, dr as int, dc as int, occ, tt) {
                let kk = choose|kk: int| 1 <= kk < 8 && ray_on_board(s, dr as int, dc as int, kk) && #[trigger] ray_square(s, dr as int, dc as int, kk) == tt && forall|j: int|
                    1 <= j < kk ==> !on_sq(occ, #[trigger] ray_square(s, dr as int, dc as int, j));
                if kk >= k {
                    assert(!ray_on_board(s, dr as int, dc as int, k as int));
                    assert(!ray_on_board(s, dr as int, dc as int, kk)) by (nonlinear_arith)
                        requires
                            !ray_on_board(s, dr as int, dc as int, k as int),
                            ray_on_board(s, dr as int, dc as int, 1) || k == 1,
                            kk >= k,
                            k >= 1,
                            -1 <= dr <= 1,
                            -1 <= dc <= 1,
                            0 <= s < 64,
                    {
                    }
                }
            }
            if exists|j: int| 1 <= j < k && #[trigger] ray_square(s, dr as int, dc as int, j) == tt {
                let j = choose|j: int| 1 <= j < k && #[trigger] ray_square(s, dr as int, dc as int, j) == tt;
                assert(slide_reaches(s, dr as int, dc as int, occ, tt));
            }
        }
    }
    r
}

/// The squares a rook on `index` attacks with the squares of `occupancy` occupied.
pub fn rook_attacks(index: u8, occupancy: u64) -> (r: u64)
    requires
        index < 64,
    ensures
        forall|t: int| 0 <= t < 64 ==> (#[trigger] on_sq(r, t) <==> rook_attack(index as int, occupancy, t)),
{
    proof {
        lemma_empty_board();
    }
    let r = slide_ray(index, 1, 0, occupancy, 0);
    let r = slide_ray(index, -1, 0, occupancy, r);
    let r = slide_ray(index, 0, 1, occupancy, r);
    let r = slide_ray(index, 0, -1, occupancy, r);
    r
}

/// The squares a bishop on `index` attacks with the squares of `occupancy` occupied.
pub fn bishop_attacks(index: u8, occupancy: u64) -> (r: u64)
    requires
        index < 64,
    ensures
        forall|t: int| 0 <= t < 64 ==> (#[trigger] on_sq(r, t) <==> bishop_attack(index as int, occupancy, t)),
{
    proof {
        lemma_empty_board();
    }
    let r = slide_ray(index, 1, 1, occupancy, 0);
    let r = slide_ray(index, 1, -1, occupancy, r);
    let r = slide_ray(index, -1, 1, occupancy, r);
    let r = slide_ray(index, -1, -1, occupancy, r);
    r
}

} // verus!

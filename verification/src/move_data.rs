use vstd::prelude::*;
use crate::attacks::{king_attacks, king_step, knight_attacks, knight_step, with_square};
use crate::bitboard::{lemma_zero_has_nothing, on_sq};
use crate::king_analysis::{line_between, squares_between};
use crate::legal_move::{slide_diagonal, slide_kind, slide_orthogonal};
use crate::magic::MagicTable;

verus! {

/// Castling needs these squares empty on the king's side.
pub const KING_CASTLING_CLEARANCE: u64 = 0b110;

/// Castling needs these squares unattacked on the king's side.
pub const KING_CASTLING_CHECK: u64 = 0b110;

/// Castling needs these squares empty on the queen's side.
pub const QUEEN_CASTLING_CLEARANCE: u64 = 0b1110000;

/// Castling needs these squares unattacked on the queen's side.
pub const QUEEN_CASTLING_CHECK: u64 = 0b110000;

/// The rank on which white pawns promote.
pub const WHITE_PAWN_PROMOTION_RANK: u64 = 0xff00000000000000;

/// The rank on which black pawns promote.
pub const BLACK_PAWN_PROMOTION_RANK: u64 = 0b11111111;

proof fn lemma_empty_board()
    ensures
        forall|u: int| 0 <= u < 64 ==> !#[trigger] on_sq(0u64, u),
{
    assert forall|u: int| 0 <= u < 64 implies !#[trigger] on_sq(0u64, u) by {
        lemma_zero_has_nothing(u as u64);
    }
}

/// Whether `t` shares a rank or a file with `s` (and is not `s`).
pub open spec fn orthogonal_line(s: int, t: int) -> bool {
    t != s && (t / 8 == s / 8 || t % 8 == s % 8)
}

/// Whether `t` shares a diagonal with `s` (and is not `s`).
pub open spec fn diagonal_line(s: int, t: int) -> bool {
    t != s && (t / 8 - s / 8 == t % 8 - s % 8 || t / 8 - s / 8 == s % 8 - t % 8)
}

/// Whether `t` is on the line of `s` that `line` names (true for ranks and files, false for
/// diagonals).
pub open spec fn on_line(orthogonal: bool, s: int, t: int) -> bool {
    if orthogonal { orthogonal_line(s, t) } else { diagonal_line(s, t) }
}

fn line_mask(orthogonal: bool, s: u8) -> (r: u64)
    requires
        s < 64,
    ensures
        forall|t: int| 0 <= t < 64 ==> (#[trigger] on_sq(r, t) <==> on_line(orthogonal, s as int, t)),
{
    proof {
        lemma_empty_board();
    }
    let mut r: u64 = 0;
    let mut t: u8 = 0;
    while t < 64
        invariant
            t <= 64,
            s < 64,
            forall|u: int| 0 <= u < 64 ==> (#[trigger] on_sq(r, u) <==> (u < t && on_line(orthogonal, s as int, u))),
        decreases 64 - t,
    {
        let (tr, tf, sr, sf) = ((t / 8) as i8, (t % 8) as i8, (s / 8) as i8, (s % 8) as i8);
        let hit = if orthogonal { tr == sr || tf == sf } else { tr - sr == tf - sf || tr - sr == sf - tf };
        if t != s && hit {
            r = with_square(r, t);
        }
        t = t + 1;
    }
    r
}

fn line_masks(orthogonal: bool) -> (r: [u64; 64])
    ensures
        forall|s: int, t: int| 0 <= s < 64 && 0 <= t < 64 ==> (#[trigger] on_sq(r[s], t) <==> on_line(orthogonal, s, t)),
{
    let mut result: [u64; 64] = [0; 64];
    let mut s: u8 = 0;
    while s < 64
        invariant
            s <= 64,
            forall|q: int, t: int| 0 <= q < s && 0 <= t < 64 ==> (#[trigger] on_sq(result[q], t) <==> on_line(orthogonal, q, t)),
        decreases 64 - s,
    {
        let m = line_mask(orthogonal, s);
        result.set(s as usize, m);
        s = s + 1;
    }
    result
}

/// For each square, the other squares of its rank and file.
pub fn horizontal_mask_generation() -> (r: [u64; 64])
    ensures
        forall|s: int, t: int| 0 <= s < 64 && 0 <= t < 64 ==> (#[trigger] on_sq(r[s], t) <==> orthogonal_line(s, t)),
{
    line_masks(true)
}

/// For each square, the other squares of its diagonals.
pub fn diagonal_mask_generation() -> (r: [u64; 64])
    ensures
        forall|s: int, t: int| 0 <= s < 64 && 0 <= t < 64 ==> (#[trigger] on_sq(r[s], t) <==> diagonal_line(s, t)),
{
    line_masks(false)
}

/// The squares a pawn of a colour on `i` moves to without capturing, from the second to the
/// seventh rank: one step forward, and two from its starting rank.
pub open spec fn pawn_push_square(black: bool, i: int, t: int) -> bool {
    8 <= i < 56 && if black {
        t == i - 8 || (i / 8 == 6 && t == i - 16)
    } else {
        t == i + 8 || (i / 8 == 1 && t == i + 16)
    }
}

/// The squares a pawn of a colour on `i` captures on, from the second to the seventh rank.
pub open spec fn pawn_capture_square(black: bool, i: int, t: int) -> bool {
    8 <= i < 56 && if black {
        (i % 8 != 7 && t == i - 7) || (i % 8 != 0 && t == i - 9)
    } else {
        (i % 8 != 7 && t == i + 9) || (i % 8 != 0 && t == i + 7)
    }
}

fn pawn_table(black: bool, captures: bool) -> (r: [u64; 64])
    ensures
        forall|i: int, t: int| 0 <= i < 64 && 0 <= t < 64 ==> (#[trigger] on_sq(r[i], t) <==> if captures {
            pawn_capture_square(black, i, t)
        } else {
            pawn_push_square(black, i, t)
        }),
{
    proof {
        lemma_empty_board();
    }
    let mut result: [u64; 64] = [0; 64];
    let mut i: u8 = 0;
    while i < 64
        invariant
            i <= 64,
            forall|q: int, t: int| 0 <= q < i && 0 <= t < 64 ==> (#[trigger] on_sq(result[q], t) <==> if captures {
                pawn_capture_square(black, q, t)
            } else {
                pawn_push_square(black, q, t)
            }),
            forall|q: int, t: int| i <= q < 64 && 0 <= t < 64 ==> !#[trigger] on_sq(result[q], t),
            forall|u: int| 0 <= u < 64 ==> !#[trigger] on_sq(0u64, u),
        decreases 64 - i,
    {
        if 8 <= i && i < 56 {
            let mut m: u64 = 0;
            if captures {
                if i % 8 != 7 {
                    m = with_square(m, if black { i - 7 } else { i + 9 });
                }
                if i % 8 != 0 {
                    m = with_square(m, if black { i - 9 } else { i + 7 });
                }
            } else {
                m = with_square(m, if black { i - 8 } else { i + 8 });
                if black && i / 8 == 6 {
                    m = with_square(m, i - 16);
                }
                if !black && i / 8 == 1 {
                    m = with_square(m, i + 16);
                }
            }
            result.set(i as usize, m);
        }
        i = i + 1;
    }
    result
}

fn step_table(king: bool) -> (r: [u64; 64])
    ensures
        forall|i: int, t: int| 0 <= i < 64 && 0 <= t < 64 ==> (#[trigger] on_sq(r[i], t) <==> if king {
            king_step(i, t)
        } else {
            knight_step(i, t)
        }),
{
    let mut result: [u64; 64] = [0; 64];
    let mut i: u8 = 0;
    while i < 64
        invariant
            i <= 64,
            forall|q: int, t: int| 0 <= q < i && 0 <= t < 64 ==> (#[trigger] on_sq(result[q], t) <==> if king {
                king_step(q, t)
            } else {
                knight_step(q, t)
            }),
        decreases 64 - i,
    {
        let m = if king { king_attacks(i) } else { knight_attacks(i) };
        result.set(i as usize, m);
        i = i + 1;
    }
    result
}

/// The slot of a pair of squares in the tables of slides: the rows of the smaller square
/// come one after another, each from the pair with itself on.
pub open spec fn triangular_index(a: int, b: int) -> int {
    let (lo, hi) = if a <= b { (a, b) } else { (b, a) };
    lo * (127 - lo) / 2 + hi
}

proof fn lemma_row_step(lo: int)
    requires
        0 <= lo < 64,
    ensures
        (lo + 1) * (127 - (lo + 1)) / 2 + (lo + 1) == lo * (127 - lo) / 2 + 64,
        lo * (127 - lo) / 2 + lo >= 0,
{
    let m = lo / 2;
    if lo % 2 == 0 {
        assert(lo * (127 - lo) == 2 * (m * (127 - lo))) by (nonlinear_arith)
            requires
                lo == 2 * m,
        ;
        assert((lo + 1) * (126 - lo) == 2 * ((lo + 1) * (63 - m))) by (nonlinear_arith)
            requires
                lo == 2 * m,
        ;
        assert((lo + 1) * (63 - m) == m * (127 - lo) + 63 - lo) by (nonlinear_arith)
            requires
                lo == 2 * m,
        ;
        assert(m * (127 - lo) >= 0) by (nonlinear_arith)
            requires
                lo == 2 * m,
                0 <= lo < 64,
        ;
    } else {
        assert(lo * (127 - lo) == 2 * (lo * (63 - m))) by (nonlinear_arith)
            requires
                lo == 2 * m + 1,
        ;
        assert((lo + 1) * (126 - lo) == 2 * ((m + 1) * (126 - lo))) by (nonlinear_arith)
            requires
                lo == 2 * m + 1,
        ;
        assert((m + 1) * (126 - lo) == lo * (63 - m) + 63 - lo) by (nonlinear_arith)
            requires
                lo == 2 * m + 1,
        ;
        assert(lo * (63 - m) >= 0) by (nonlinear_arith)
            requires
                lo == 2 * m + 1,
                0 <= lo < 64,
        ;
    }
}

proof fn lemma_index_bound(lo: int)
    requires
        0 <= lo <= 64,
    ensures
        lo * (127 - lo) / 2 + lo <= 2080,
        lo * (127 - lo) / 2 + lo >= 0,
{
    assert(0 <= lo * (127 - lo) <= 4032) by (nonlinear_arith)
        requires
            0 <= lo <= 64,
    ;
}

/// The slot of a pair of squares in the tables of slides (see `triangular_index`).
fn calculate_triangular_index(a: i32, b: i32) -> (r: usize)
    requires
        0 <= a < 64,
        0 <= b < 64,
    ensures
        r == triangular_index(a as int, b as int),
        r < 2080,
{
    let (lo, hi) = if a <= b { (a, b) } else { (b, a) };
    proof {
        lemma_index_bound(lo as int);
        lemma_index_bound(lo as int + 1);
        lemma_row_step(lo as int);
    }
    ((lo * (127 - lo)) / 2 + hi) as usize
}

fn generate_slide_data() -> (r: (Vec<u64>, Vec<(bool, bool)>))
    ensures
        r.0@.len() == 2080,
        r.1@.len() == 2080,
        forall|a: int, b: int| 0 <= a <= b < 64 ==> {
            let k = #[trigger] triangular_index(a, b);
            &&& r.1@[k] == (slide_orthogonal(a, b), slide_diagonal(a, b))
            &&& forall|t: int| 0 <= t < 64 ==> (#[trigger] on_sq(r.0@[k], t) <==> line_between(a, b, t))
        },
{
    let mut between: Vec<u64> = Vec::new();
    let mut legal: Vec<(bool, bool)> = Vec::new();
    let mut lo: u8 = 0;
    while lo < 64
        invariant
            lo <= 64,
            between@.len() == legal@.len(),
            between@.len() == lo * (127 - lo) / 2 + lo,
            forall|a: int, b: int| 0 <= a < lo && a <= b < 64 ==> {
                let k = #[trigger] triangular_index(a, b);
                &&& 0 <= k < between@.len()
                &&& legal@[k] == (slide_orthogonal(a, b), slide_diagonal(a, b))
                &&& forall|t: int| 0 <= t < 64 ==> (#[trigger] on_sq(between@[k], t) <==> line_between(a, b, t))
            },
        decreases 64 - lo,
    {
        proof {
            lemma_index_bound(lo as int);
            lemma_row_step(lo as int);
        }
        let ghost start = between@.len();
        let mut hi: u8 = lo;
        while hi < 64
            invariant
                lo < 64,
                lo <= hi <= 64,
                start == lo * (127 - lo) / 2 + lo,
                between@.len() == legal@.len(),
                between@.len() == start + (hi - lo),
                forall|a: int, b: int| 0 <= a < lo && a <= b < 64 ==> {
                    let k = #[trigger] triangular_index(a, b);
                    &&& 0 <= k < start
                    &&& legal@[k] == (slide_orthogonal(a, b), slide_diagonal(a, b))
                    &&& forall|t: int| 0 <= t < 64 ==> (#[trigger] on_sq(between@[k], t) <==> line_between(a, b, t))
                },
                forall|b: int| lo <= b < hi ==> {
                    let k = #[trigger] triangular_index(lo as int, b);
                    &&& start <= k < between@.len()
                    &&& legal@[k] == (slide_orthogonal(lo as int, b), slide_diagonal(lo as int, b))
                    &&& forall|t: int| 0 <= t < 64 ==> (#[trigger] on_sq(between@[k], t) <==> line_between(lo as int, b, t))
                },
            decreases 64 - hi,
        {
            let kind = slide_kind(lo, hi);
            let squares = squares_between(lo, hi);
            between.push(squares);
            legal.push(kind);
            hi = hi + 1;
        }
        lo = lo + 1;
    }
    (between, legal)
}

/// Precomputed move tables: the magic tables, pawn pushes and captures, knight and king
/// steps, the rank-and-file and diagonal lines of each square, and for each pair of squares
/// (by `triangular_index`) the squares between them and whether a slide joins them.
pub struct MoveData {
    pub magic_bitboard_table: MagicTable,
    pub white_pawn_moves: [u64; 64],
    pub black_pawn_moves: [u64; 64],
    pub white_pawn_captures: [u64; 64],
    pub black_pawn_captures: [u64; 64],
    pub knight_moves: [u64; 64],
    pub king_moves: [u64; 64],
    pub diagonal_threat_boards: [u64; 64],
    pub orthogonal_threat_board: [u64; 64],
    pub slide_inbetween: Vec<u64>,
    pub slide_legal: Vec<(bool, bool)>,
}

impl MoveData {
    /// Every table holds what its description says.
    pub open spec fn wf(&self) -> bool {
        &&& self.magic_bitboard_table.wf()
        &&& forall|i: int, t: int| 0 <= i < 64 && 0 <= t < 64 ==> {
            &&& (#[trigger] on_sq(self.white_pawn_moves[i], t) <==> pawn_push_square(false, i, t))
            &&& (on_sq(self.black_pawn_moves[i], t) <==> pawn_push_square(true, i, t))
            &&& (on_sq(self.white_pawn_captures[i], t) <==> pawn_capture_square(false, i, t))
            &&& (on_sq(self.black_pawn_captures[i], t) <==> pawn_capture_square(true, i, t))
            &&& (on_sq(self.knight_moves[i], t) <==> knight_step(i, t))
            &&& (on_sq(self.king_moves[i], t) <==> king_step(i, t))
            &&& (on_sq(self.diagonal_threat_boards[i], t) <==> diagonal_line(i, t))
            &&& (on_sq(self.orthogonal_threat_board[i], t) <==> orthogonal_line(i, t))
        }
        &&& self.slide_inbetween@.len() == 2080
        &&& self.slide_legal@.len() == 2080
        &&& forall|a: int, b: int| 0 <= a <= b < 64 ==> {
            let k = #[trigger] triangular_index(a, b);
            &&& self.slide_legal@[k] == (slide_orthogonal(a, b), slide_diagonal(a, b))
            &&& forall|t: int| 0 <= t < 64 ==> (#[trigger] on_sq(self.slide_inbetween@[k], t) <==> line_between(a, b, t))
        }
    }

    /// All the tables, computed.
    pub fn new() -> (r: MoveData)
        ensures
            r.wf(),
    {
        let magic_bitboard_table = MagicTable::new();
        let white_pawn_moves = pawn_table(false, false);
        let black_pawn_moves = pawn_table(true, false);
        let white_pawn_captures = pawn_table(false, true);
        let black_pawn_captures = pawn_table(true, true);
        let knight_moves = step_table(false);
        let king_moves = step_table(true);
        let diagonal_threat_boards = diagonal_mask_generation();
        let orthogonal_threat_board = horizontal_mask_generation();
        let (slide_inbetween, slide_legal) = generate_slide_data();
        MoveData {
            magic_bitboard_table,
            white_pawn_moves,
            black_pawn_moves,
            white_pawn_captures,
            black_pawn_captures,
            knight_moves,
            king_moves,
            diagonal_threat_boards,
            orthogonal_threat_board,
            slide_inbetween,
            slide_legal,
        }
    }

    /// Whether two squares share a rank or a file, and whether they share a diagonal.
    pub fn is_slide_legal(&self, from: u8, to: u8) -> (r: (bool, bool))
        requires
            self.wf(),
            from < 64,
            to < 64,
        ensures
            r == (slide_orthogonal(from as int, to as int), slide_diagonal(from as int, to as int)),
    {
        let index = calculate_triangular_index(from as i32, to as i32);
        if from <= to {
            assert(triangular_index(from as int, to as int) == index);
        } else {
            assert(triangular_index(to as int, from as int) == index);
        }
        self.slide_legal[index]
    }

    /// The squares strictly between two squares of a line (none when no line joins them).
    pub fn get_slide_inbetween(&self, from: u8, to: u8) -> (r: u64)
        requires
            self.wf(),
            from < 64,
            to < 64,
        ensures
            forall|t: int| 0 <= t < 64 ==> (#[trigger] on_sq(r, t) <==> line_between(from as int, to as int, t)),
    {
        let index = calculate_triangular_index(from as i32, to as i32);
        if from <= to {
            assert(triangular_index(from as int, to as int) == index);
        } else {
            assert(triangular_index(to as int, from as int) == index);
        }
        self.slide_inbetween[index]
    }
}

} // verus!

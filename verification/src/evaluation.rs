use vstd::prelude::*;
use crate::piece_type::{PieceType, piece_index};
use crate::board_rep::{BoardRep, piece_at};
use crate::bitboard::{on_sq, popcount, count_squares};
use crate::square_scores::{opening_spec, endgame_spec, opening_square_score, endgame_square_score, trunc_div, phase_spec};
use crate::attack_and_defend_lookups::{AttackAndDefendTable, attacked_by_spec};
use crate::see::{piece_safety, piece_safety_spec};
use crate::move_generation::calculate_game_phase;

verus! {

/// How safe one piece on the board is (see `piece_safety`): negative when it can be won.
#[derive(Copy, Clone, Debug)]
pub struct PieceSafetyInfo {
    pub index: u8,
    pub score: i8,
    pub is_black: bool,
    pub piece_type: PieceType,
}

/// Material values in the opening: pawn, knight, bishop, rook, queen, king.
pub const OPENING_MATERIAL_VALUES: [i16; 6] = [110, 400, 450, 1000, 1800, 0];

/// Material values in the endgame: pawn, knight, bishop, rook, queen, king.
pub const ENDGAME_MATERIAL_VALUES: [i16; 6] = [195, 420, 500, 1300, 2300, 0];

/// The material value of a piece in the opening (`opening`) or in the endgame.
pub open spec fn material_value(p: PieceType, opening: bool) -> int {
    match p {
        PieceType::Pawn => if opening { 110 } else { 195 },
        PieceType::Knight => if opening { 400 } else { 420 },
        PieceType::Bishop => if opening { 450 } else { 500 },
        PieceType::Rook => if opening { 1000 } else { 1300 },
        PieceType::Queen => if opening { 1800 } else { 2300 },
        _ => 0,
    }
}

/// The value that a table of six values gives a piece: its entry, counted from the pawn; 0
/// for no piece.
pub open spec fn table_value(values: Seq<i16>, p: PieceType) -> int {
    if piece_index(p) >= 1 {
        values[piece_index(p) - 1] as int
    } else {
        0
    }
}

/// The reward for a pawn majority of `d` pawns (at most 7 counted), in the opening or the
/// endgame.
pub open spec fn pawn_difference_reward(d: int, opening: bool) -> int {
    let table: Seq<int> = if opening {
        seq![0int, 12, 26, 42, 60, 80, 102, 126]
    } else {
        seq![0int, 18, 36, 56, 78, 102, 130, 155]
    };
    let a = if d < 0 { -d } else { d };
    let v = table[if a > 7 { 7 } else { a }];
    if d < 0 { -v } else if d > 0 { v } else { 0 }
}

/// The material of the pieces on `occ`.
pub open spec fn side_material(b: BoardRep, occ: u64, opening: bool) -> int {
    popcount(b.pawn_bitboard & occ) * material_value(PieceType::Pawn, opening) + popcount(b.knight_bitboard & occ)
        * material_value(PieceType::Knight, opening) + popcount(b.bishop_bitboard & occ) * material_value(
        PieceType::Bishop,
        opening,
    ) + popcount(b.rook_bitboard & occ) * material_value(PieceType::Rook, opening) + popcount(b.queen_bitboard & occ)
        * material_value(PieceType::Queen, opening)
}

/// The bitboard of a piece type (nothing for the king or no piece).
pub open spec fn type_bitboard(b: BoardRep, p: PieceType) -> u64 {
    match p {
        PieceType::Pawn => b.pawn_bitboard,
        PieceType::Knight => b.knight_bitboard,
        PieceType::Bishop => b.bishop_bitboard,
        PieceType::Rook => b.rook_bitboard,
        PieceType::Queen => b.queen_bitboard,
        _ => 0,
    }
}

/// How many pieces of a type stand on the squares of `occ`.
pub open spec fn count_of(b: BoardRep, occ: u64, p: PieceType) -> nat {
    popcount(type_bitboard(b, p) & occ)
}

/// Whether the pieces on `occ2` of `b2` are those on `occ` of `b` with one more of type `p`.
pub open spec fn one_more_piece(b: BoardRep, occ: u64, b2: BoardRep, occ2: u64, p: PieceType) -> bool {
    forall|q: PieceType|
        q != PieceType::King && q != PieceType::NoPiece ==> #[trigger] count_of(b2, occ2, q) == count_of(b, occ, q) + if q == p {
            1int
        } else {
            0
        }
}

/// A side with one more piece of a type (pawn to queen) has exactly that type's material value
/// more (see `OPENING_MATERIAL_VALUES` and `ENDGAME_MATERIAL_VALUES`).
pub proof fn law_side_material_adds_piece_value(b: BoardRep, occ: u64, b2: BoardRep, occ2: u64, p: PieceType, opening: bool)
    requires
        p != PieceType::King && p != PieceType::NoPiece,
        one_more_piece(b, occ, b2, occ2, p),
    ensures
        side_material(b2, occ2, opening) == side_material(b, occ, opening) + if opening {
            OPENING_MATERIAL_VALUES@[piece_index(p) - 1] as int
        } else {
            ENDGAME_MATERIAL_VALUES@[piece_index(p) - 1] as int
        },
{
    assert(count_of(b2, occ2, PieceType::Pawn) == count_of(b, occ, PieceType::Pawn) + if p == PieceType::Pawn { 1int } else { 0 });
    assert(count_of(b2, occ2, PieceType::Knight) == count_of(b, occ, PieceType::Knight) + if p == PieceType::Knight { 1int } else { 0 });
    assert(count_of(b2, occ2, PieceType::Bishop) == count_of(b, occ, PieceType::Bishop) + if p == PieceType::Bishop { 1int } else { 0 });
    assert(count_of(b2, occ2, PieceType::Rook) == count_of(b, occ, PieceType::Rook) + if p == PieceType::Rook { 1int } else { 0 });
    assert(count_of(b2, occ2, PieceType::Queen) == count_of(b, occ, PieceType::Queen) + if p == PieceType::Queen { 1int } else { 0 });
    assert(OPENING_MATERIAL_VALUES@ == seq![110i16, 400, 450, 1000, 1800, 0]);
    assert(ENDGAME_MATERIAL_VALUES@ == seq![195i16, 420, 500, 1300, 2300, 0]);
    let v = if opening { OPENING_MATERIAL_VALUES@[piece_index(p) - 1] as int } else { ENDGAME_MATERIAL_VALUES@[piece_index(p) - 1] as int };
    assert(v == material_value(p, opening));
    assert(popcount(b2.pawn_bitboard & occ2) == count_of(b2, occ2, PieceType::Pawn));
    assert(popcount(b.pawn_bitboard & occ) == count_of(b, occ, PieceType::Pawn));
    assert(popcount(b2.knight_bitboard & occ2) == count_of(b2, occ2, PieceType::Knight));
    assert(popcount(b.knight_bitboard & occ) == count_of(b, occ, PieceType::Knight));
    assert(popcount(b2.bishop_bitboard & occ2) == count_of(b2, occ2, PieceType::Bishop));
    assert(popcount(b.bishop_bitboard & occ) == count_of(b, occ, PieceType::Bishop));
    assert(popcount(b2.rook_bitboard & occ2) == count_of(b2, occ2, PieceType::Rook));
    assert(popcount(b.rook_bitboard & occ) == count_of(b, occ, PieceType::Rook));
    assert(popcount(b2.queen_bitboard & occ2) == count_of(b2, occ2, PieceType::Queen));
    assert(popcount(b.queen_bitboard & occ) == count_of(b, occ, PieceType::Queen));
}

proof fn lemma_and_commutes(x: u64, y: u64)
    ensures
        x & y == y & x,
{
    assert forall|t: int| 0 <= t < 64 implies (#[trigger] on_sq(x & y, t) <==> on_sq(y & x, t)) by {
        crate::bitboard::lemma_on_sq_and(x, y, t as u64);
        crate::bitboard::lemma_on_sq_and(y, x, t as u64);
    }
    crate::bitboard::lemma_same_squares_equal(x & y, y & x);
}

/// White with one more knight, rook or queen, and nothing else changed in the pieces of
/// either side, is ahead by exactly that piece's material value.
pub proof fn law_material_adds_piece_value(b: BoardRep, b2: BoardRep, p: PieceType, opening: bool)
    requires
        p == PieceType::Knight || p == PieceType::Rook || p == PieceType::Queen,
        one_more_piece(b, b.white_occupancy, b2, b2.white_occupancy, p),
        one_more_piece(b, b.black_occupancy, b2, b2.black_occupancy, PieceType::NoPiece),
    ensures
        material_spec(b2, opening) == material_spec(b, opening) + if opening {
            OPENING_MATERIAL_VALUES@[piece_index(p) - 1] as int
        } else {
            ENDGAME_MATERIAL_VALUES@[piece_index(p) - 1] as int
        },
{
    lemma_and_commutes(b2.white_occupancy, b2.bishop_bitboard);
    lemma_and_commutes(b.white_occupancy, b.bishop_bitboard);
    lemma_and_commutes(b2.black_occupancy, b2.bishop_bitboard);
    lemma_and_commutes(b.black_occupancy, b.bishop_bitboard);
    law_side_material_adds_piece_value(b, b.white_occupancy, b2, b2.white_occupancy, p, opening);
    assert(count_of(b2, b2.black_occupancy, PieceType::Pawn) == count_of(b, b.black_occupancy, PieceType::Pawn));
    assert(count_of(b2, b2.black_occupancy, PieceType::Knight) == count_of(b, b.black_occupancy, PieceType::Knight));
    assert(count_of(b2, b2.black_occupancy, PieceType::Bishop) == count_of(b, b.black_occupancy, PieceType::Bishop));
    assert(count_of(b2, b2.black_occupancy, PieceType::Rook) == count_of(b, b.black_occupancy, PieceType::Rook));
    assert(count_of(b2, b2.black_occupancy, PieceType::Queen) == count_of(b, b.black_occupancy, PieceType::Queen));
    assert(count_of(b2, b2.white_occupancy, PieceType::Pawn) == count_of(b, b.white_occupancy, PieceType::Pawn));
    assert(count_of(b2, b2.white_occupancy, PieceType::Bishop) == count_of(b, b.white_occupancy, PieceType::Bishop));
}

/// The reward for holding two bishops, in the opening or the endgame.
pub open spec fn bishop_pair_reward(opening: bool) -> int {
    if opening { 100 } else { 240 }
}

/// The material balance from white's side: material, the bishop pair and the pawn majority.
pub open spec fn material_spec(b: BoardRep, opening: bool) -> int {
    side_material(b, b.white_occupancy, opening) - side_material(b, b.black_occupancy, opening) + (if popcount(
        b.white_occupancy & b.bishop_bitboard,
    ) == 2 {
        bishop_pair_reward(opening)
    } else {
        0
    }) - (if popcount(b.black_occupancy & b.bishop_bitboard) == 2 {
        bishop_pair_reward(opening)
    } else {
        0
    }) + pawn_difference_reward(
        popcount(b.pawn_bitboard & b.white_occupancy) - popcount(b.pawn_bitboard & b.black_occupancy),
        opening,
    )
}

/// The square score of a piece in the opening (`opening`) or the endgame.
pub open spec fn square_value(p: PieceType, is_black: bool, sq: int, opening: bool) -> int {
    if opening { opening_spec(p, is_black, sq) } else { endgame_spec(p, is_black, sq) }
}

/// The sum of the square scores of a piece type over the squares below `n` of `bits`.
pub open spec fn square_sum(bits: u64, p: PieceType, is_black: bool, opening: bool, n: nat) -> int
    decreases n,
{
    if n == 0 {
        0
    } else {
        square_sum(bits, p, is_black, opening, (n - 1) as nat) + if on_sq(bits, n - 1) {
            square_value(p, is_black, n - 1, opening)
        } else {
            0
        }
    }
}

/// The square scores of pawns, knights and bishops, from white's side.
pub open spec fn positioning_spec(b: BoardRep, opening: bool) -> int {
    square_sum(b.white_occupancy & b.pawn_bitboard, PieceType::Pawn, false, opening, 64) - square_sum(
        b.black_occupancy & b.pawn_bitboard,
        PieceType::Pawn,
        true,
        opening,
        64,
    ) + square_sum(b.white_occupancy & b.knight_bitboard, PieceType::Knight, false, opening, 64) - square_sum(
        b.black_occupancy & b.knight_bitboard,
        PieceType::Knight,
        true,
        opening,
        64,
    ) + square_sum(b.white_occupancy & b.bishop_bitboard, PieceType::Bishop, false, opening, 64) - square_sum(
        b.black_occupancy & b.bishop_bitboard,
        PieceType::Bishop,
        true,
        opening,
        64,
    )
}

/// The sum of the square scores of a piece type over the squares of `bits`, in the opening
/// (`opening`) or the endgame.
pub fn piece_square_score(bits: u64, p: PieceType, is_black: bool, opening: bool) -> (r: i32)
    ensures
        r == square_sum(bits, p, is_black, opening, 64),
        -640 <= r <= 6400,
{
    let mut total: i32 = 0;
    let mut sq: u8 = 0;
    while sq < 64
        invariant
            sq <= 64,
            total == square_sum(bits, p, is_black, opening, sq as nat),
            -10 * sq <= total <= 100 * sq,
        decreases 64 - sq,
    {
        if (bits >> (sq as u64)) & 1 == 1 {
            let v = if opening {
                opening_square_score(p, is_black, sq as usize)
            } else {
                endgame_square_score(p, is_black, sq as usize)
            };
            total = total + v as i32;
        }
        sq = sq + 1;
    }
    total
}

/// The reward for a pawn majority of `d` pawns (at most 7 counted).
pub fn pawn_difference_score(d: i16, opening: bool) -> (r: i32)
    requires
        -64 <= d <= 64,
    ensures
        r == pawn_difference_reward(d as int, opening),
        -155 <= r <= 155,
{
    let table: [i32; 8] = if opening {
        [0, 12, 26, 42, 60, 80, 102, 126]
    } else {
        [0, 18, 36, 56, 78, 102, 130, 155]
    };
    proof {
        if opening {
            assert(table@ =~= seq![0i32, 12, 26, 42, 60, 80, 102, 126]);
        } else {
            assert(table@ =~= seq![0i32, 18, 36, 56, 78, 102, 130, 155]);
        }
    }
    let a: i16 = if d < 0 { -d } else { d };
    let v = table[if a > 7 { 7 } else { a as usize }];
    if d < 0 { -v } else if d > 0 { v } else { 0 }
}

/// The material of the pieces on `occ`.
fn side_material_score(b: &BoardRep, occ: u64, opening: bool) -> (r: i32)
    ensures
        r == side_material(*b, occ, opening),
        0 <= r <= 400000,
{
    let pawns = count_squares(b.pawn_bitboard & occ) as i32;
    let knights = count_squares(b.knight_bitboard & occ) as i32;
    let bishops = count_squares(b.bishop_bitboard & occ) as i32;
    let rooks = count_squares(b.rook_bitboard & occ) as i32;
    let queens = count_squares(b.queen_bitboard & occ) as i32;
    if opening {
        pawns * 110 + knights * 400 + bishops * 450 + rooks * 1000 + queens * 1800
    } else {
        pawns * 195 + knights * 420 + bishops * 500 + rooks * 1300 + queens * 2300
    }
}

/// The material balance from white's side (see `material_spec`).
pub fn material_score(b: &BoardRep, opening: bool) -> (r: i32)
    ensures
        r == material_spec(*b, opening),
        -401000 <= r <= 401000,
{
    let mut score = side_material_score(b, b.white_occupancy, opening) - side_material_score(b, b.black_occupancy, opening);
    let reward: i32 = if opening { 100 } else { 240 };
    if count_squares(b.white_occupancy & b.bishop_bitboard) == 2 {
        score = score + reward;
    }
    if count_squares(b.black_occupancy & b.bishop_bitboard) == 2 {
        score = score - reward;
    }
    let d = count_squares(b.pawn_bitboard & b.white_occupancy) as i16 - count_squares(b.pawn_bitboard & b.black_occupancy) as i16;
    score + pawn_difference_score(d, opening)
}

/// The square scores of pawns, knights and bishops, from white's side.
pub fn positioning_score(b: &BoardRep, opening: bool) -> (r: i32)
    ensures
        r == positioning_spec(*b, opening),
        -50000 <= r <= 50000,
{
    piece_square_score(b.white_occupancy & b.pawn_bitboard, PieceType::Pawn, false, opening) - piece_square_score(
        b.black_occupancy & b.pawn_bitboard,
        PieceType::Pawn,
        true,
        opening,
    ) + piece_square_score(b.white_occupancy & b.knight_bitboard, PieceType::Knight, false, opening)
        - piece_square_score(b.black_occupancy & b.knight_bitboard, PieceType::Knight, true, opening)
        + piece_square_score(b.white_occupancy & b.bishop_bitboard, PieceType::Bishop, false, opening)
        - piece_square_score(b.black_occupancy & b.bishop_bitboard, PieceType::Bishop, true, opening)
}

/// The safety of the piece of one side on square `i`.
pub open spec fn safety_info_spec(b: BoardRep, i: int, is_black: bool) -> PieceSafetyInfo {
    PieceSafetyInfo {
        index: i as u8,
        score: piece_safety_spec(
            piece_at(b, i),
            false,
            attacked_by_spec(b, i, !is_black),
            attacked_by_spec(b, i, is_black),
        ) as i8,
        is_black,
        piece_type: piece_at(b, i),
    }
}

/// The safety of the pieces of one side on the squares below `n`, by square.
pub open spec fn safety_seq(b: BoardRep, is_black: bool, n: nat) -> Seq<PieceSafetyInfo>
    decreases n,
{
    if n == 0 {
        seq![]
    } else {
        let s = safety_seq(b, is_black, (n - 1) as nat);
        if on_sq(if is_black { b.black_occupancy } else { b.white_occupancy }, n - 1) {
            s.push(safety_info_spec(b, n - 1, is_black))
        } else {
            s
        }
    }
}

proof fn lemma_safety_seq_len(b: BoardRep, is_black: bool, n: nat)
    ensures
        safety_seq(b, is_black, n).len() <= n,
    decreases n,
{
    if n > 0 {
        lemma_safety_seq_len(b, is_black, (n - 1) as nat);
    }
}

/// The safety of one piece.
fn get_piece_safety(ad_table: &mut AttackAndDefendTable, board: BoardRep, index: u8, is_black: bool) -> (r: PieceSafetyInfo)
    requires
        index < 64,
        board.wf(),
        old(ad_table).valid_for(board),
    ensures
        final(ad_table).valid_for(board),
        r == safety_info_spec(board, index as int, is_black),
{
    let attacked_by = ad_table.get_attacked_by(index, board, !is_black);
    let defended_by = ad_table.get_attacked_by(index, board, is_black);
    let piece_type = board.get_piece_type_at_index(index);
    let score = piece_safety(piece_type, false, attacked_by, defended_by);
    PieceSafetyInfo { index, score, is_black, piece_type }
}

/// The safety of every piece: the white pieces by square, then the black pieces by square.
pub fn generate_piece_safety(ad_table: &mut AttackAndDefendTable, board: BoardRep) -> (r: Vec<PieceSafetyInfo>)
    requires
        board.wf(),
        old(ad_table).valid_for(board),
    ensures
        final(ad_table).valid_for(board),
        r@ == safety_seq(board, false, 64) + safety_seq(board, true, 64),
{
    let mut r: Vec<PieceSafetyInfo> = Vec::new();
    let mut side: u8 = 0;
    while side < 2
        invariant
            side <= 2,
            board.wf(),
            ad_table.valid_for(board),
            side == 0 ==> r@ == Seq::<PieceSafetyInfo>::empty(),
            side == 1 ==> r@ == safety_seq(board, false, 64),
            side == 2 ==> r@ == safety_seq(board, false, 64) + safety_seq(board, true, 64),
        decreases 2 - side,
    {
        let is_black = side == 1;
        let occ = if is_black { board.black_occupancy } else { board.white_occupancy };
        let ghost start = r@;
        let mut sq: u8 = 0;
        while sq < 64
            invariant
                sq <= 64,
                board.wf(),
                ad_table.valid_for(board),
                occ == if is_black { board.black_occupancy } else { board.white_occupancy },
                r@ == start + safety_seq(board, is_black, sq as nat),
            decreases 64 - sq,
        {
            if (occ >> (sq as u64)) & 1 == 1 {
                let info = get_piece_safety(ad_table, board, sq, is_black);
                r.push(info);
                assert(r@ =~= start + safety_seq(board, is_black, (sq + 1) as nat));
            } else {
                assert(r@ =~= start + safety_seq(board, is_black, (sq + 1) as nat));
            }
            sq = sq + 1;
        }
        proof {
            if side == 0 {
                assert(r@ =~= safety_seq(board, false, 64));
            }
        }
        side = side + 1;
    }
    r
}

/// Over the unsafe pieces (score below zero) of one side: how many there are, and the
/// highest and second highest of their piece types (by `piece_index`, 0 for none).
pub open spec fn unsafe_stats(s: Seq<PieceSafetyInfo>, black: bool) -> (int, int, int)
    decreases s.len(),
{
    if s.len() == 0 {
        (0, 0, 0)
    } else {
        let (c, a, b) = unsafe_stats(s.drop_last(), black);
        let x = s.last();
        if x.is_black == black && x.score < 0 {
            let p = piece_index(x.piece_type);
            if p >= a {
                (c + 1, p, a)
            } else if p > b {
                (c + 1, a, p)
            } else {
                (c + 1, a, b)
            }
        } else {
            (c, a, b)
        }
    }
}

/// The value that a table gives the piece type with index `p` (0 for none).
pub open spec fn value_at(values: Seq<i16>, p: int) -> int {
    if 1 <= p <= 6 {
        values[p - 1] as int
    } else {
        0
    }
}

/// Over the unsafe pieces (score below zero) of one side: the lowest and second lowest of
/// their piece types (by `piece_index`, 7 for none; a type held twice counts twice).
pub open spec fn unsafe_low(s: Seq<PieceSafetyInfo>, black: bool) -> (int, int)
    decreases s.len(),
{
    if s.len() == 0 {
        (7, 7)
    } else {
        let (lo, lo2) = unsafe_low(s.drop_last(), black);
        let x = s.last();
        if x.is_black == black && x.score < 0 {
            let p = piece_index(x.piece_type);
            if p <= lo {
                (p, lo)
            } else if p < lo2 {
                (lo, p)
            } else {
                (lo, lo2)
            }
        } else {
            (lo, lo2)
        }
    }
}

/// The penalty for pieces that can be won, from white's side: for the side to move with more
/// than one such piece, three quarters of the value of the second least valuable and 5 for each
/// beyond two; for the other side with any, three quarters of the most valuable and 10 for
/// each beyond one.
pub open spec fn piece_safety_penalty_spec(s: Seq<PieceSafetyInfo>, values: Seq<i16>, black_turn: bool) -> int {
    let (ca, fa, sa) = unsafe_stats(s, black_turn);
    let (la, la2) = unsafe_low(s, black_turn);
    let (ci, fi, si) = unsafe_stats(s, !black_turn);
    let active = if ca > 1 { value_at(values, la2) / 4 * 3 + (ca - 2) * 5 } else { 0 };
    let inactive = if ci > 0 { value_at(values, fi) / 4 * 3 + (ci - 1) * 10 } else { 0 };
    if black_turn { active - inactive } else { inactive - active }
}

proof fn lemma_unsafe_low_bounds(s: Seq<PieceSafetyInfo>, black: bool)
    ensures
        0 <= unsafe_low(s, black).0 <= unsafe_low(s, black).1 <= 7,
        unsafe_stats(s, black).0 > 1 ==> unsafe_low(s, black).1 <= 6,
        unsafe_stats(s, black).0 > 0 ==> unsafe_low(s, black).0 <= 6,
    decreases s.len(),
{
    if s.len() > 0 {
        lemma_unsafe_low_bounds(s.drop_last(), black);
        lemma_unsafe_stats_bounds(s.drop_last(), black);
    }
}

proof fn lemma_unsafe_stats_bounds(s: Seq<PieceSafetyInfo>, black: bool)
    ensures
        0 <= unsafe_stats(s, black).0 <= s.len(),
        0 <= unsafe_stats(s, black).2 <= unsafe_stats(s, black).1 <= 6,
    decreases s.len(),
{
    if s.len() > 0 {
        lemma_unsafe_stats_bounds(s.drop_last(), black);
    }
}

/// The penalty for pieces that can be won (see `piece_safety_penalty_spec`). The penalty is
/// a 16-bit value: the bounds on the number of entries and on the piece values keep every
/// partial sum within 16 bits (a board has at most 32 pieces, and material values stay far
/// below 10000).
pub fn get_piece_safety_penalty(piece_safety_results: &Vec<PieceSafetyInfo>, piece_values: [i16; 6], black_turn: bool) -> (r: i32)
    requires
        piece_safety_results.len() <= 1000,
        forall|i: int| 0 <= i < 6 ==> 0 <= #[trigger] piece_values@[i] <= 10000,
    ensures
        r == piece_safety_penalty_spec(piece_safety_results@, piece_values@, black_turn),
        -40000 <= r <= 40000,
{
    let ghost s = piece_safety_results@;
    let mut ca: i32 = 0;
    let mut fa: i32 = 0;
    let mut sa: i32 = 0;
    let mut la: i32 = 7;
    let mut la2: i32 = 7;
    let mut ci: i32 = 0;
    let mut fi: i32 = 0;
    let mut si: i32 = 0;
    let mut i: usize = 0;
    while i < piece_safety_results.len()
        invariant
            i <= piece_safety_results.len() <= 1000,
            s == piece_safety_results@,
            (ca as int, fa as int, sa as int) == unsafe_stats(s.take(i as int), black_turn),
            (ci as int, fi as int, si as int) == unsafe_stats(s.take(i as int), !black_turn),
            (la as int, la2 as int) == unsafe_low(s.take(i as int), black_turn),
        decreases piece_safety_results.len() - i,
    {
        proof {
            assert(s.take(i as int + 1).drop_last() =~= s.take(i as int));
            lemma_unsafe_stats_bounds(s.take(i as int), black_turn);
            lemma_unsafe_stats_bounds(s.take(i as int), !black_turn);
            lemma_unsafe_low_bounds(s.take(i as int), black_turn);
        }
        let x = piece_safety_results[i];
        if x.score < 0 {
            let p: i32 = x.piece_type.to_index() as i32;
            if x.is_black == black_turn {
                if p >= fa {
                    sa = fa;
                    fa = p;
                } else if p > sa {
                    sa = p;
                }
                if p <= la {
                    la2 = la;
                    la = p;
                } else if p < la2 {
                    la2 = p;
                }
                ca = ca + 1;
            } else {
                if p >= fi {
                    si = fi;
                    fi = p;
                } else if p > si {
                    si = p;
                }
                ci = ci + 1;
            }
        }
        i = i + 1;
    }
    proof {
        assert(s.take(s.len() as int) =~= s);
        lemma_unsafe_stats_bounds(s, black_turn);
        lemma_unsafe_stats_bounds(s, !black_turn);
        lemma_unsafe_low_bounds(s, black_turn);
    }
    let mut r: i32 = 0;
    if ca > 1 {
        let v: i32 = if la2 >= 1 && la2 <= 6 { piece_values[(la2 - 1) as usize] as i32 } else { 0 };
        let active = v / 4 * 3 + (ca - 2) * 5;
        r = if black_turn { r + active } else { r - active };
    }
    if ci > 0 {
        let v: i32 = if fi >= 1 { piece_values[(fi - 1) as usize] as i32 } else { 0 };
        let inactive = v / 4 * 3 + (ci - 1) * 10;
        r = if black_turn { r - inactive } else { r + inactive };
    }
    r
}

/// The opening material values as a sequence.
pub open spec fn opening_values() -> Seq<i16> {
    seq![110i16, 400i16, 450i16, 1000i16, 1800i16, 0i16]
}

/// The endgame material values as a sequence.
pub open spec fn endgame_values() -> Seq<i16> {
    seq![195i16, 420i16, 500i16, 1300i16, 2300i16, 0i16]
}

/// The safety of every piece of the board, white's first.
pub open spec fn board_safety(b: BoardRep) -> Seq<PieceSafetyInfo> {
    safety_seq(b, false, 64) + safety_seq(b, true, 64)
}

/// The opening score from white's side: material, square scores, pieces that can be won and
/// a reward of 50 for the side to move.
pub open spec fn opening_eval_spec(b: BoardRep) -> int {
    material_spec(b, true) + positioning_spec(b, true) + piece_safety_penalty_spec(board_safety(b), opening_values(), b.black_turn)
        + if b.black_turn { -50int } else { 50 }
}

/// The endgame score from white's side: material, square scores and pieces that can be won.
pub open spec fn endgame_eval_spec(b: BoardRep) -> int {
    material_spec(b, false) + positioning_spec(b, false) + piece_safety_penalty_spec(board_safety(b), endgame_values(), b.black_turn)
}

/// The game phase of a board (see `calculate_game_phase`).
pub open spec fn board_phase(b: BoardRep) -> int {
    phase_spec(
        (popcount(b.knight_bitboard & b.occupancy) + popcount(b.bishop_bitboard & b.occupancy)) as int,
        popcount(b.rook_bitboard & b.occupancy) as int,
        popcount(b.queen_bitboard & b.occupancy) as int,
    )
}

/// The evaluation of a board from white's side: the opening and the endgame scores blended by
/// the game phase (all opening at phase 0, all endgame at phase 256).
pub open spec fn evaluation_spec(b: BoardRep) -> int {
    trunc_div(opening_eval_spec(b) * (256 - board_phase(b)) + endgame_eval_spec(b) * board_phase(b), 256)
}

/// The evaluation of a board from white's side (see `evaluation_spec`).
#[verifier::rlimit(50)]
pub fn calculate(board: BoardRep) -> (r: i32)
    requires
        board.wf(),
    ensures
        r == evaluation_spec(board),
{
    let phase = calculate_game_phase(&board) as i64;
    let mut ad_table = AttackAndDefendTable::new();
    let safety = generate_piece_safety(&mut ad_table, board);
    proof {
        lemma_safety_seq_len(board, false, 64);
        lemma_safety_seq_len(board, true, 64);
    }
    let opening_values_arr: [i16; 6] = [110, 400, 450, 1000, 1800, 0];
    let endgame_values_arr: [i16; 6] = [195, 420, 500, 1300, 2300, 0];
    assert(opening_values_arr@ =~= opening_values());
    assert(endgame_values_arr@ =~= endgame_values());
    let tempo: i32 = if board.black_turn { -50 } else { 50 };
    let opening = material_score(&board, true) + positioning_score(&board, true) + get_piece_safety_penalty(
        &safety,
        opening_values_arr,
        board.black_turn,
    ) + tempo;
    let endgame = material_score(&board, false) + positioning_score(&board, false) + get_piece_safety_penalty(
        &safety,
        endgame_values_arr,
        board.black_turn,
    );
    let w_open: i64 = 256 - phase;
    proof {
        let (o, e, w, ph) = (opening as int, endgame as int, w_open as int, phase as int);
        assert(-32768 <= ph <= 32767);
        assert(-20000000000 <= o * w <= 20000000000) by (nonlinear_arith)
            requires
                -500000 <= o <= 500000,
                -33000 <= w <= 33100,
        ;
        assert(-20000000000 <= e * ph <= 20000000000) by (nonlinear_arith)
            requires
                -500000 <= e <= 500000,
                -33000 <= ph <= 33000,
        ;
    }
    let blended = (opening as i64) * w_open + (endgame as i64) * phase;
    let v = blended / 256;
    proof {
        assert(opening == opening_eval_spec(board));
        assert(endgame == endgame_eval_spec(board));
        assert(phase == board_phase(board));
        assert(v as int == trunc_div(blended as int, 256));
    }
    v as i32
}

} // verus!

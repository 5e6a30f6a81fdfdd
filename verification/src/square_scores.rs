use vstd::prelude::*;
use crate::piece_type::PieceType;

verus! {

/// The opening square score of a white pawns, by square.
pub open spec fn opening_white_pawn_square_table() -> Seq<i16> {
    seq![0i16, 0i16, 0i16, 0i16, 0i16, 0i16, 0i16, 0i16, 0i16, 0i16, 0i16, -1i16, -1i16, 0i16, 0i16, 0i16, 1i16, 1i16, 1i16, 1i16, 1i16, 1i16, 1i16, 1i16, 2i16, 2i16, 2i16, 3i16, 3i16, 2i16, 2i16, 2i16, 2i16, 2i16, 2i16, 3i16, 3i16, 2i16, 2i16, 2i16, 4i16, 4i16, 4i16, 4i16, 4i16, 4i16, 4i16, 4i16, 5i16, 5i16, 5i16, 5i16, 5i16, 5i16, 5i16, 5i16, 0i16, 0i16, 0i16, 0i16, 0i16, 0i16, 0i16, 0i16]
}

/// The opening square score of a white pawn.
pub fn opening_white_pawn_square(sq: usize) -> (r: i16)
    requires
        sq < 64,
    ensures
        r == opening_white_pawn_square_table()[sq as int],
        -1 <= r <= 10,
{
    let t: [i16; 64] = [0, 0, 0, 0, 0, 0, 0, 0, 0, 0, 0, -1, -1, 0, 0, 0, 1, 1, 1, 1, 1, 1, 1, 1, 2, 2, 2, 3, 3, 2, 2, 2, 2, 2, 2, 3, 3, 2, 2, 2, 4, 4, 4, 4, 4, 4, 4, 4, 5, 5, 5, 5, 5, 5, 5, 5, 0, 0, 0, 0, 0, 0, 0, 0];
    assert(t@ =~= opening_white_pawn_square_table());
    t[sq]
}

/// The opening square score of a black pawns, by square.
pub open spec fn opening_black_pawn_square_table() -> Seq<i16> {
    seq![0i16, 0i16, 0i16, 0i16, 0i16, 0i16, 0i16, 0i16, 1i16, 1i16, 1i16, 2i16, 2i16, 1i16, 1i16, 1i16, 1i16, 1i16, 1i16, 2i16, 2i16, 1i16, 1i16, 1i16, 2i16, 2i16, 2i16, 4i16, 4i16, 2i16, 2i16, 2i16, 2i16, 2i16, 2i16, 6i16, 6i16, 2i16, 2i16, 2i16, 4i16, 4i16, 4i16, 8i16, 8i16, 4i16, 4i16, 4i16, 5i16, 5i16, 5i16, 10i16, 10i16, 5i16, 5i16, 5i16, 0i16, 0i16, 0i16, 0i16, 0i16, 0i16, 0i16, 0i16]
}

/// The opening square score of a black pawn.
pub fn opening_black_pawn_square(sq: usize) -> (r: i16)
    requires
        sq < 64,
    ensures
        r == opening_black_pawn_square_table()[sq as int],
        -1 <= r <= 10,
{
    let t: [i16; 64] = [0, 0, 0, 0, 0, 0, 0, 0, 1, 1, 1, 2, 2, 1, 1, 1, 1, 1, 1, 2, 2, 1, 1, 1, 2, 2, 2, 4, 4, 2, 2, 2, 2, 2, 2, 6, 6, 2, 2, 2, 4, 4, 4, 8, 8, 4, 4, 4, 5, 5, 5, 10, 10, 5, 5, 5, 0, 0, 0, 0, 0, 0, 0, 0];
    assert(t@ =~= opening_black_pawn_square_table());
    t[sq]
}

/// The opening square score of a knights, by square.
pub open spec fn opening_knight_square_table() -> Seq<i16> {
    seq![-1i16, -1i16, -1i16, -1i16, -1i16, -1i16, -1i16, -1i16, -1i16, 0i16, 0i16, 0i16, 0i16, 0i16, 0i16, -1i16, -1i16, 0i16, 1i16, 0i16, 0i16, 1i16, 0i16, -1i16, -1i16, 0i16, 0i16, 0i16, 0i16, 0i16, 0i16, -1i16, -1i16, 0i16, 0i16, 0i16, 0i16, 0i16, 0i16, -1i16, -1i16, 0i16, 1i16, 0i16, 0i16, 1i16, 0i16, -1i16, -1i16, 0i16, 0i16, 0i16, 0i16, 0i16, 0i16, -1i16, -1i16, -1i16, -1i16, -1i16, -1i16, -1i16, -1i16, -1i16]
}

/// The opening square score of a knight.
pub fn opening_knight_square(sq: usize) -> (r: i16)
    requires
        sq < 64,
    ensures
        r == opening_knight_square_table()[sq as int],
        -1 <= r <= 10,
{
    let t: [i16; 64] = [-1, -1, -1, -1, -1, -1, -1, -1, -1, 0, 0, 0, 0, 0, 0, -1, -1, 0, 1, 0, 0, 1, 0, -1, -1, 0, 0, 0, 0, 0, 0, -1, -1, 0, 0, 0, 0, 0, 0, -1, -1, 0, 1, 0, 0, 1, 0, -1, -1, 0, 0, 0, 0, 0, 0, -1, -1, -1, -1, -1, -1, -1, -1, -1];
    assert(t@ =~= opening_knight_square_table());
    t[sq]
}

/// The opening square score of a bishops, by square.
pub open spec fn opening_bishop_square_table() -> Seq<i16> {
    seq![-1i16, -1i16, -1i16, -1i16, -1i16, -1i16, -1i16, -1i16, -1i16, 3i16, 0i16, 0i16, 0i16, 0i16, 3i16, -1i16, -1i16, 0i16, 2i16, 0i16, 0i16, 2i16, 0i16, -1i16, -1i16, 0i16, 2i16, 0i16, 0i16, 2i16, 0i16, -1i16, -1i16, 0i16, 2i16, 0i16, 0i16, 2i16, 0i16, -1i16, -1i16, 0i16, 2i16, 0i16, 0i16, 2i16, 0i16, -1i16, -1i16, 3i16, 0i16, 0i16, 0i16, 0i16, 3i16, -1i16, -1i16, -1i16, -1i16, -1i16, -1i16, -1i16, -1i16, -1i16]
}

/// The opening square score of a bishop.
pub fn opening_bishop_square(sq: usize) -> (r: i16)
    requires
        sq < 64,
    ensures
        r == opening_bishop_square_table()[sq as int],
        -1 <= r <= 10,
{
    let t: [i16; 64] = [-1, -1, -1, -1, -1, -1, -1, -1, -1, 3, 0, 0, 0, 0, 3, -1, -1, 0, 2, 0, 0, 2, 0, -1, -1, 0, 2, 0, 0, 2, 0, -1, -1, 0, 2, 0, 0, 2, 0, -1, -1, 0, 2, 0, 0, 2, 0, -1, -1, 3, 0, 0, 0, 0, 3, -1, -1, -1, -1, -1, -1, -1, -1, -1];
    assert(t@ =~= opening_bishop_square_table());
    t[sq]
}

/// The endgame square score of a white pawns, by square.
pub open spec fn endgame_white_pawn_square_table() -> Seq<i16> {
    seq![0i16, 0i16, 0i16, 0i16, 0i16, 0i16, 0i16, 0i16, 1i16, 1i16, 1i16, 1i16, 1i16, 1i16, 1i16, 1i16, 1i16, 1i16, 1i16, 1i16, 1i16, 1i16, 1i16, 1i16, 2i16, 2i16, 2i16, 2i16, 2i16, 2i16, 2i16, 2i16, 4i16, 4i16, 4i16, 4i16, 4i16, 4i16, 4i16, 4i16, 6i16, 6i16, 6i16, 6i16, 6i16, 6i16, 6i16, 6i16, 8i16, 8i16, 8i16, 8i16, 8i16, 8i16, 8i16, 8i16, 0i16, 0i16, 0i16, 0i16, 0i16, 0i16, 0i16, 0i16]
}

/// The endgame square score of a white pawn.
pub fn endgame_white_pawn_square(sq: usize) -> (r: i16)
    requires
        sq < 64,
    ensures
        r == endgame_white_pawn_square_table()[sq as int],
        -1 <= r <= 10,
{
    let t: [i16; 64] = [0, 0, 0, 0, 0, 0, 0, 0, 1, 1, 1, 1, 1, 1, 1, 1, 1, 1, 1, 1, 1, 1, 1, 1, 2, 2, 2, 2, 2, 2, 2, 2, 4, 4, 4, 4, 4, 4, 4, 4, 6, 6, 6, 6, 6, 6, 6, 6, 8, 8, 8, 8, 8, 8, 8, 8, 0, 0, 0, 0, 0, 0, 0, 0];
    assert(t@ =~= endgame_white_pawn_square_table());
    t[sq]
}

/// The endgame square score of a black pawns, by square.
pub open spec fn endgame_black_pawn_square_table() -> Seq<i16> {
    seq![0i16, 0i16, 0i16, 0i16, 0i16, 0i16, 0i16, 0i16, 8i16, 8i16, 8i16, 8i16, 8i16, 8i16, 8i16, 8i16, 6i16, 6i16, 6i16, 6i16, 6i16, 6i16, 6i16, 6i16, 4i16, 4i16, 4i16, 4i16, 4i16, 4i16, 4i16, 4i16, 2i16, 2i16, 2i16, 2i16, 2i16, 2i16, 2i16, 2i16, 1i16, 1i16, 1i16, 1i16, 1i16, 1i16, 1i16, 1i16, 1i16, 1i16, 1i16, 1i16, 1i16, 1i16, 1i16, 1i16, 0i16, 0i16, 0i16, 0i16, 0i16, 0i16, 0i16, 0i16]
}

/// The endgame square score of a black pawn.
pub fn endgame_black_pawn_square(sq: usize) -> (r: i16)
    requires
        sq < 64,
    ensures
        r == endgame_black_pawn_square_table()[sq as int],
        -1 <= r <= 10,
{
    let t: [i16; 64] = [0, 0, 0, 0, 0, 0, 0, 0, 8, 8, 8, 8, 8, 8, 8, 8, 6, 6, 6, 6, 6, 6, 6, 6, 4, 4, 4, 4, 4, 4, 4, 4, 2, 2, 2, 2, 2, 2, 2, 2, 1, 1, 1, 1, 1, 1, 1, 1, 1, 1, 1, 1, 1, 1, 1, 1, 0, 0, 0, 0, 0, 0, 0, 0];
    assert(t@ =~= endgame_black_pawn_square_table());
    t[sq]
}

/// The endgame square score of a knights, by square.
pub open spec fn endgame_knight_square_table() -> Seq<i16> {
    seq![-1i16, -1i16, -1i16, -1i16, -1i16, -1i16, -1i16, -1i16, -1i16, 0i16, 0i16, 0i16, 0i16, 0i16, 0i16, -1i16, -1i16, 0i16, 0i16, 0i16, 0i16, 0i16, 0i16, -1i16, -1i16, 0i16, 0i16, 0i16, 0i16, 0i16, 0i16, -1i16, -1i16, 0i16, 0i16, 0i16, 0i16, 0i16, 0i16, -1i16, -1i16, 0i16, 0i16, 0i16, 0i16, 0i16, 0i16, -1i16, -1i16, 0i16, 0i16, 0i16, 0i16, 0i16, 0i16, -1i16, -1i16, -1i16, -1i16, -1i16, -1i16, -1i16, -1i16, -1i16]
}

/// The endgame square score of a knight.
pub fn endgame_knight_square(sq: usize) -> (r: i16)
    requires
        sq < 64,
    ensures
        r == endgame_knight_square_table()[sq as int],
        -1 <= r <= 10,
{
    let t: [i16; 64] = [-1, -1, -1, -1, -1, -1, -1, -1, -1, 0, 0, 0, 0, 0, 0, -1, -1, 0, 0, 0, 0, 0, 0, -1, -1, 0, 0, 0, 0, 0, 0, -1, -1, 0, 0, 0, 0, 0, 0, -1, -1, 0, 0, 0, 0, 0, 0, -1, -1, 0, 0, 0, 0, 0, 0, -1, -1, -1, -1, -1, -1, -1, -1, -1];
    assert(t@ =~= endgame_knight_square_table());
    t[sq]
}

/// The opening score of a piece on a square.
pub open spec fn opening_spec(piece_type: PieceType, is_black: bool, sq: int) -> int {
    match piece_type {
        PieceType::Pawn => 10 * if is_black { opening_black_pawn_square_table()[sq] } else { opening_white_pawn_square_table()[sq] },
        PieceType::Knight => 10 * opening_knight_square_table()[sq],
        PieceType::Bishop => 10 * opening_bishop_square_table()[sq],
        _ => 0,
    }
}

/// The endgame score of a piece on a square.
pub open spec fn endgame_spec(piece_type: PieceType, is_black: bool, sq: int) -> int {
    match piece_type {
        PieceType::Pawn => 10 * if is_black { endgame_black_pawn_square_table()[sq] } else { endgame_white_pawn_square_table()[sq] },
        PieceType::Knight => 2 * endgame_knight_square_table()[sq],
        _ => 0,
    }
}

/// The opening score of a piece on a square: the square score times its factor (10 for pawns,
/// knights and bishops); 0 for other pieces.
pub fn opening_square_score(piece_type: PieceType, is_black: bool, sq: usize) -> (r: i16)
    requires
        sq < 64,
    ensures
        r == opening_spec(piece_type, is_black, sq as int),
        -10 <= r <= 100,
{
    match piece_type {
        PieceType::Pawn => 10 * if is_black { opening_black_pawn_square(sq) } else { opening_white_pawn_square(sq) },
        PieceType::Knight => 10 * opening_knight_square(sq),
        PieceType::Bishop => 10 * opening_bishop_square(sq),
        _ => 0,
    }
}

/// The endgame score of a piece on a square: the square score times its factor (10 for pawns,
/// 2 for knights); 0 for other pieces.
pub fn endgame_square_score(piece_type: PieceType, is_black: bool, sq: usize) -> (r: i16)
    requires
        sq < 64,
    ensures
        r == endgame_spec(piece_type, is_black, sq as int),
        -10 <= r <= 100,
{
    match piece_type {
        PieceType::Pawn => 10 * if is_black { endgame_black_pawn_square(sq) } else { endgame_white_pawn_square(sq) },
        PieceType::Knight => 2 * endgame_knight_square(sq),
        _ => 0,
    }
}

/// Division rounding toward zero, as Rust's integer division does.
pub open spec fn trunc_div(a: int, b: int) -> int {
    if a >= 0 { a / b } else { -((-a) / b) }
}

/// How much a move from `from` to `to` improves the piece's square score, blending the opening
/// and endgame scores by the game phase (0 opening, 256 endgame).
pub fn square_delta(from: usize, to: usize, is_black: bool, piece_type: PieceType, phase: i16) -> (r: i16)
    requires
        from < 64,
        to < 64,
    ensures
        r as int == trunc_div(((opening_spec(piece_type, is_black, to as int) - opening_spec(piece_type, is_black, from as int)) * (256 - phase))
            + ((endgame_spec(piece_type, is_black, to as int) - endgame_spec(piece_type, is_black, from as int)) * phase), 256),
{
    let open = opening_square_score(piece_type, is_black, to) as i32 - opening_square_score(piece_type, is_black, from) as i32;
    let end = endgame_square_score(piece_type, is_black, to) as i32 - endgame_square_score(piece_type, is_black, from) as i32;
    proof {
        assert(-110 <= open <= 110);
        assert(-110 <= end <= 110);
        assert(-110 * 33024 <= open * (256 - phase as i32) <= 110 * 33024) by (nonlinear_arith)
            requires -110 <= open <= 110, -32768 <= phase <= 32767;
        assert(-110 * 32768 <= end * (phase as i32) <= 110 * 32768) by (nonlinear_arith)
            requires -110 <= end <= 110, -32768 <= phase <= 32767;
    }
    let x = (open * (256 - phase as i32)) + (end * phase as i32);
    let v = x / 256;
    assert(v as int == trunc_div(x as int, 256));
    assert(-7237120 <= x <= 7237120);
    assert(-28300 <= v <= 28300);
    v as i16
}

/// The game phase from the material on the board: 0 with all minor and major pieces, 256
/// with none (knights and bishops count 1, rooks 2, queens 4, out of 24).
pub open spec fn phase_spec(minors: int, rooks: int, queens: int) -> int {
    trunc_div((24 - (minors + 2 * rooks + 4 * queens)) * 256 + 12, 24)
}

} // verus!

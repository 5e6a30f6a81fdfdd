use vstd::prelude::*;

verus! {

/// The kinds of piece, `NoPiece` standing for an empty square.
#[derive(Clone, Copy, Debug, PartialEq, Eq, Structural, PartialOrd, Ord, Hash)]
pub enum PieceType {
    NoPiece,
    Pawn,
    Knight,
    Bishop,
    Rook,
    Queen,
    King,
}

/// The number of a piece type: 0 for `NoPiece`, then 1 (pawn) up to 6 (king).
pub open spec fn piece_index(p: PieceType) -> int {
    match p {
        PieceType::NoPiece => 0,
        PieceType::Pawn => 1,
        PieceType::Knight => 2,
        PieceType::Bishop => 3,
        PieceType::Rook => 4,
        PieceType::Queen => 5,
        PieceType::King => 6,
    }
}

/// The value of a piece in an exchange (pawn 1, minor pieces 3, then 4, 5 and 25).
pub open spec fn exchange_value(p: PieceType) -> i8 {
    match p {
        PieceType::NoPiece => 0,
        PieceType::Pawn => 1,
        PieceType::Knight => 3,
        PieceType::Bishop => 3,
        PieceType::Rook => 4,
        PieceType::Queen => 5,
        PieceType::King => 25,
    }
}

impl PieceType {
    /// The number of the piece type, as a table index.
    pub fn to_index(self) -> (r: usize)
        ensures
            r == piece_index(self),
            r < 7,
    {
        match self {
            PieceType::NoPiece => 0,
            PieceType::Pawn => 1,
            PieceType::Knight => 2,
            PieceType::Bishop => 3,
            PieceType::Rook => 4,
            PieceType::Queen => 5,
            PieceType::King => 6,
        }
    }

    /// The value of the piece type in an exchange.
    pub fn exchange_value(self) -> (r: i8)
        ensures
            r == exchange_value(self),
    {
        match self {
            PieceType::NoPiece => 0,
            PieceType::Pawn => 1,
            PieceType::Knight => 3,
            PieceType::Bishop => 3,
            PieceType::Rook => 4,
            PieceType::Queen => 5,
            PieceType::King => 25,
        }
    }

    /// `NoPiece`, the default piece type.
    pub fn default_piece() -> (r: PieceType)
        ensures
            r == PieceType::NoPiece,
    {
        PieceType::NoPiece
    }
}

impl Default for PieceType {
    fn default() -> (r: PieceType)
        ensures
            r == PieceType::NoPiece,
    {
        PieceType::NoPiece
    }
}

/// The FEN character of a piece: upper case for white, lower case for black, 'X' for `NoPiece`.
pub open spec fn piece_char_spec(piece_type: PieceType, black: bool) -> char {
    match piece_type {
        PieceType::Pawn => if black { 'p' } else { 'P' },
        PieceType::Bishop => if black { 'b' } else { 'B' },
        PieceType::Knight => if black { 'n' } else { 'N' },
        PieceType::Rook => if black { 'r' } else { 'R' },
        PieceType::Queen => if black { 'q' } else { 'Q' },
        PieceType::King => if black { 'k' } else { 'K' },
        PieceType::NoPiece => 'X',
    }
}

/// The piece type that a FEN character names, in either case; `NoPiece` for any other character.
pub open spec fn piece_from_char_spec(c: char) -> PieceType {
    if c == 'P' || c == 'p' {
        PieceType::Pawn
    } else if c == 'B' || c == 'b' {
        PieceType::Bishop
    } else if c == 'N' || c == 'n' {
        PieceType::Knight
    } else if c == 'R' || c == 'r' {
        PieceType::Rook
    } else if c == 'Q' || c == 'q' {
        PieceType::Queen
    } else if c == 'K' || c == 'k' {
        PieceType::King
    } else {
        PieceType::NoPiece
    }
}

/// The FEN character of a piece of the given colour.
pub fn get_piece_char(piece_type: PieceType, black_turn: bool) -> (r: char)
    ensures
        r == piece_char_spec(piece_type, black_turn),
{
    match (piece_type, black_turn) {
        (PieceType::Pawn, false) => 'P',
        (PieceType::Pawn, true) => 'p',
        (PieceType::Bishop, false) => 'B',
        (PieceType::Bishop, true) => 'b',
        (PieceType::Knight, false) => 'N',
        (PieceType::Knight, true) => 'n',
        (PieceType::Rook, false) => 'R',
        (PieceType::Rook, true) => 'r',
        (PieceType::Queen, false) => 'Q',
        (PieceType::Queen, true) => 'q',
        (PieceType::King, false) => 'K',
        (PieceType::King, true) => 'k',
        _ => 'X',
    }
}

/// The piece type that a FEN character names (either case).
pub fn get_piece_type_from_char(c: char) -> (r: PieceType)
    requires
        piece_from_char_spec(c) != PieceType::NoPiece,
    ensures
        r == piece_from_char_spec(c),
{
    match c {
        'P' | 'p' => PieceType::Pawn,
        'B' | 'b' => PieceType::Bishop,
        'N' | 'n' => PieceType::Knight,
        'R' | 'r' => PieceType::Rook,
        'Q' | 'q' => PieceType::Queen,
        _ => PieceType::King,
    }
}

/// The piece type that a FEN character names, `NoPiece` for other characters.
pub fn piece_type_from_char_or_none(c: char) -> (r: PieceType)
    ensures
        r == piece_from_char_spec(c),
{
    match c {
        'P' | 'p' => PieceType::Pawn,
        'B' | 'b' => PieceType::Bishop,
        'N' | 'n' => PieceType::Knight,
        'R' | 'r' => PieceType::Rook,
        'Q' | 'q' => PieceType::Queen,
        'K' | 'k' => PieceType::King,
        _ => PieceType::NoPiece,
    }
}

/// The FEN character of a piece names its type back, for every piece type but `NoPiece`.
pub proof fn law_piece_char_round_trip(p: PieceType, black: bool)
    requires
        p != PieceType::NoPiece,
    ensures
        piece_from_char_spec(piece_char_spec(p, black)) == p,
{
}

} // verus!

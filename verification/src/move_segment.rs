use vstd::prelude::*;
use crate::piece_type::PieceType;

verus! {

/// One elementary change that a move makes to a board.
#[derive(Clone, Copy, Debug, PartialEq, Eq, Structural)]
pub enum MoveSegmentType {
    NoSegment,
    Pickup,
    Place,
    /// The index is the square of the piece whose move or removal cleared the castling right.
    ClearCastling,
    DoublePawnPush,
    ClearEP,
}

/// An elementary change: its kind, the square, and the piece concerned.
#[derive(Clone, Copy, Debug, PartialEq, Eq, Structural)]
pub struct MoveSegment {
    pub segment_type: MoveSegmentType,
    pub index: u8,
    pub piece_type: PieceType,
    pub black_piece: bool,
}

impl MoveSegment {
    /// A segment from its parts.
    pub fn new(segment_type: MoveSegmentType, index: u8, piece_type: PieceType, black_piece: bool) -> (r: MoveSegment)
        ensures
            r == (MoveSegment { segment_type, index, piece_type, black_piece }),
    {
        MoveSegment { segment_type, index, piece_type, black_piece }
    }

    /// Whether the segment changes nothing.
    pub fn is_empty(&self) -> (r: bool)
        ensures
            r == (self.segment_type == MoveSegmentType::NoSegment),
    {
        self.segment_type == MoveSegmentType::NoSegment
    }

    /// The segment that changes nothing.
    pub fn empty() -> (r: MoveSegment)
        ensures
            r.segment_type == MoveSegmentType::NoSegment,
            r.index == 0,
            r.piece_type == PieceType::NoPiece,
            !r.black_piece,
    {
        MoveSegment { segment_type: MoveSegmentType::NoSegment, index: 0, piece_type: PieceType::NoPiece, black_piece: false }
    }
}

impl Default for MoveSegment {
    fn default() -> (r: MoveSegment)
        ensures
            r.segment_type == MoveSegmentType::NoSegment,
            r.index == 0,
            r.piece_type == PieceType::NoPiece,
            !r.black_piece,
    {
        MoveSegment::empty()
    }
}

} // verus!

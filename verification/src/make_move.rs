use vstd::prelude::*;
use crate::bitboard::on_sq;
use crate::board_rep::{BoardRep, piece_at};
use crate::board_utils::{file_of, get_file};
use crate::chess_move::Move;
use crate::constants::{MF_EP_CAPTURE, MF_KING_CASTLING, MF_QUEEN_CASTLING, MF_DOUBLE_PAWN_PUSH, MF_PROMOTION};
use crate::legal_move::ep_captured_square;
use crate::move_segment::{MoveSegment, MoveSegmentType};
use crate::piece_type::PieceType;
use crate::zorb_set::{ZorbSet, segment_ok, segments_ok};

verus! {

/// A board with a bitboard updated: `f` applied to the bitboard of piece `p` (kings have none).
pub open spec fn with_piece_bits(b: BoardRep, p: PieceType, bits: u64) -> BoardRep {
    match p {
        PieceType::Pawn => BoardRep { pawn_bitboard: bits, ..b },
        PieceType::Knight => BoardRep { knight_bitboard: bits, ..b },
        PieceType::Bishop => BoardRep { bishop_bitboard: bits, ..b },
        PieceType::Rook => BoardRep { rook_bitboard: bits, ..b },
        PieceType::Queen => BoardRep { queen_bitboard: bits, ..b },
        _ => b,
    }
}

/// The bitboard of piece `p` (0 for the king and for no piece).
pub open spec fn piece_bits(b: BoardRep, p: PieceType) -> u64 {
    match p {
        PieceType::Pawn => b.pawn_bitboard,
        PieceType::Knight => b.knight_bitboard,
        PieceType::Bishop => b.bishop_bitboard,
        PieceType::Rook => b.rook_bitboard,
        PieceType::Queen => b.queen_bitboard,
        _ => 0,
    }
}

/// A board with a piece taken off square `i`: its bit cleared in its piece's bitboard and in
/// its colour's squares, the occupied squares recomputed.
pub open spec fn pickup_spec(b: BoardRep, i: u8, p: PieceType, black: bool) -> BoardRep {
    let keep = !(1u64 << i);
    let b1 = with_piece_bits(b, p, piece_bits(b, p) & keep);
    let w = if black { b1.white_occupancy } else { b1.white_occupancy & keep };
    let k = if black { b1.black_occupancy & keep } else { b1.black_occupancy };
    BoardRep { white_occupancy: w, black_occupancy: k, occupancy: w | k, ..b1 }
}

/// A board with a piece put on square `i`: its bit set in its piece's bitboard and in its
/// colour's squares, the occupied squares recomputed; a king's square is recorded.
pub open spec fn place_spec(b: BoardRep, i: u8, p: PieceType, black: bool) -> BoardRep {
    let bit = 1u64 << i;
    let b1 = with_piece_bits(b, p, piece_bits(b, p) | bit);
    let w = if black { b1.white_occupancy } else { b1.white_occupancy | bit };
    let k = if black { b1.black_occupancy | bit } else { b1.black_occupancy };
    let b2 = BoardRep { white_occupancy: w, black_occupancy: k, occupancy: w | k, ..b1 };
    if p == PieceType::King {
        if black { BoardRep { black_king_position: i, ..b2 } } else { BoardRep { white_king_position: i, ..b2 } }
    } else {
        b2
    }
}

/// A board with castling rights cleared by a piece on square `i`: a rook corner clears its
/// side's right, the king's square both.
pub open spec fn clear_castling_spec(b: BoardRep, i: u8, black: bool) -> BoardRep {
    if black {
        if i == 56 {
            BoardRep { black_king_side_castling: false, ..b }
        } else if i == 63 {
            BoardRep { black_queen_side_castling: false, ..b }
        } else if i == 59 {
            BoardRep { black_king_side_castling: false, black_queen_side_castling: false, ..b }
        } else {
            b
        }
    } else {
        if i == 0 {
            BoardRep { white_king_side_castling: false, ..b }
        } else if i == 7 {
            BoardRep { white_queen_side_castling: false, ..b }
        } else if i == 3 {
            BoardRep { white_king_side_castling: false, white_queen_side_castling: false, ..b }
        } else {
            b
        }
    }
}

/// A board after one segment.
pub open spec fn apply_segment_spec(b: BoardRep, s: MoveSegment) -> BoardRep {
    match s.segment_type {
        MoveSegmentType::Pickup => pickup_spec(b, s.index, s.piece_type, s.black_piece),
        MoveSegmentType::Place => place_spec(b, s.index, s.piece_type, s.black_piece),
        MoveSegmentType::ClearCastling => clear_castling_spec(b, s.index, s.black_piece),
        MoveSegmentType::DoublePawnPush => BoardRep { ep_index: s.index, ..b },
        MoveSegmentType::ClearEP => BoardRep { ep_index: u8::MAX, ..b },
        MoveSegmentType::NoSegment => b,
    }
}

/// A board after the segments before the first empty one.
pub open spec fn apply_all_spec(b: BoardRep, segs: Seq<MoveSegment>) -> BoardRep
    decreases segs.len(),
{
    if segs.len() == 0 || segs[0].segment_type == MoveSegmentType::NoSegment {
        b
    } else {
        apply_all_spec(apply_segment_spec(b, segs[0]), segs.drop_first())
    }
}

/// The board after a move's segments: the segments applied, the other side to move and the
/// given hash.
pub open spec fn after_segments_spec(b: BoardRep, segs: Seq<MoveSegment>, zorb: u64) -> BoardRep {
    let a = apply_all_spec(b, segs);
    BoardRep { black_turn: !a.black_turn, zorb_key: zorb, ..a }
}

/// Applying move segments leaves the side to move as it was.
pub proof fn lemma_apply_all_keeps_turn(b: BoardRep, segs: Seq<MoveSegment>)
    ensures
        apply_all_spec(b, segs).black_turn == b.black_turn,
    decreases segs.len(),
{
    if segs.len() > 0 && segs[0].segment_type != MoveSegmentType::NoSegment {
        lemma_apply_all_keeps_turn(apply_segment_spec(b, segs[0]), segs.drop_first());
    }
}

/// A move hands the turn to the other side.
pub proof fn law_move_switches_turn(b: BoardRep, m: Move, zorb: u64)
    ensures
        after_segments_spec(b, move_segments_spec(b, m), zorb).black_turn == !b.black_turn,
{
    lemma_apply_all_keeps_turn(b, move_segments_spec(b, m));
}

proof fn lemma_apply_segment_wf(b: BoardRep, s: MoveSegment)
    requires
        b.wf(),
        segment_ok(s),
    ensures
        apply_segment_spec(b, s).wf(),
{
}

proof fn lemma_apply_all_wf(b: BoardRep, segs: Seq<MoveSegment>)
    requires
        b.wf(),
        segments_ok(segs),
    ensures
        apply_all_spec(b, segs).wf(),
    decreases segs.len(),
{
    if segs.len() > 0 && segs[0].segment_type != MoveSegmentType::NoSegment {
        assert(segment_ok(segs[0]));
        lemma_apply_segment_wf(b, segs[0]);
        assert(segments_ok(segs.drop_first())) by {
            assert forall|i: int| 0 <= i < segs.drop_first().len() implies #[trigger] segment_ok(segs.drop_first()[i]) by {
                assert(segs.drop_first()[i] == segs[i + 1]);
            }
        }
        lemma_apply_all_wf(apply_segment_spec(b, segs[0]), segs.drop_first());
    }
}

impl BoardRep {
    /// The board after one segment (see `apply_segment_spec`).
    pub fn apply_segment(&self, s: MoveSegment) -> (r: BoardRep)
        requires
            segment_ok(s),
        ensures
            r == apply_segment_spec(*self, s),
    {
        let b = *self;
        match s.segment_type {
            MoveSegmentType::Pickup | MoveSegmentType::Place => {
                let bit: u64 = 1u64 << s.index;
                let pickup = s.segment_type == MoveSegmentType::Pickup;
                let mut r = b;
                let keep = !bit;
                match s.piece_type {
                    PieceType::Pawn => {
                        r.pawn_bitboard = if pickup { b.pawn_bitboard & keep } else { b.pawn_bitboard | bit };
                    },
                    PieceType::Knight => {
                        r.knight_bitboard = if pickup { b.knight_bitboard & keep } else { b.knight_bitboard | bit };
                    },
                    PieceType::Bishop => {
                        r.bishop_bitboard = if pickup { b.bishop_bitboard & keep } else { b.bishop_bitboard | bit };
                    },
                    PieceType::Rook => {
                        r.rook_bitboard = if pickup { b.rook_bitboard & keep } else { b.rook_bitboard | bit };
                    },
                    PieceType::Queen => {
                        r.queen_bitboard = if pickup { b.queen_bitboard & keep } else { b.queen_bitboard | bit };
                    },
                    _ => {},
                }
                if s.black_piece {
                    r.black_occupancy = if pickup { b.black_occupancy & keep } else { b.black_occupancy | bit };
                } else {
                    r.white_occupancy = if pickup { b.white_occupancy & keep } else { b.white_occupancy | bit };
                }
                r.occupancy = r.white_occupancy | r.black_occupancy;
                if !pickup && s.piece_type == PieceType::King {
                    if s.black_piece {
                        r.black_king_position = s.index;
                    } else {
                        r.white_king_position = s.index;
                    }
                }
                r
            },
            MoveSegmentType::ClearCastling => {
                let mut r = b;
                let i = s.index;
                if s.black_piece {
                    if i == 56 || i == 59 {
                        r.black_king_side_castling = false;
                    }
                    if i == 63 || i == 59 {
                        r.black_queen_side_castling = false;
                    }
                } else {
                    if i == 0 || i == 3 {
                        r.white_king_side_castling = false;
                    }
                    if i == 7 || i == 3 {
                        r.white_queen_side_castling = false;
                    }
                }
                r
            },
            MoveSegmentType::DoublePawnPush => BoardRep { ep_index: s.index, ..b },
            MoveSegmentType::ClearEP => BoardRep { ep_index: u8::MAX, ..b },
            MoveSegmentType::NoSegment => b,
        }
    }

    /// The board after a move's segments (those before the first empty one), with the other
    /// side to move and the given hash.
    pub fn apply_segments(&self, move_segments: &Vec<MoveSegment>, new_zorb: u64) -> (r: BoardRep)
        requires
            segments_ok(move_segments@),
        ensures
            r == after_segments_spec(*self, move_segments@, new_zorb),
            self.wf() ==> r.wf(),
    {
        let mut b = *self;
        let mut i: usize = 0;
        let mut done = false;
        assert(move_segments@.skip(0) =~= move_segments@);
        while i < move_segments.len() && !done
            invariant
                i <= move_segments@.len(),
                segments_ok(move_segments@),
                apply_all_spec(*self, move_segments@) == if done {
                    b
                } else {
                    apply_all_spec(b, move_segments@.skip(i as int))
                },
            decreases move_segments@.len() - i + if done { 0int } else { 1 },
        {
            let s = move_segments[i];
            assert(move_segments@.skip(i as int)[0] == s);
            if s.segment_type == MoveSegmentType::NoSegment {
                done = true;
            } else {
                assert(segment_ok(move_segments@[i as int]));
                assert(move_segments@.skip(i as int).drop_first() =~= move_segments@.skip(i as int + 1));
                b = b.apply_segment(s);
                i = i + 1;
            }
        }
        proof {
            if !done {
                assert(move_segments@.skip(i as int) =~= Seq::<MoveSegment>::empty());
            }
            if self.wf() {
                lemma_apply_all_wf(*self, move_segments@);
            }
        }
        BoardRep { black_turn: !b.black_turn, zorb_key: new_zorb, ..b }
    }
}

/// A segment from its parts.
pub open spec fn seg(t: MoveSegmentType, i: int, p: PieceType, black: bool) -> MoveSegment {
    MoveSegment { segment_type: t, index: i as u8, piece_type: p, black_piece: black }
}

/// The piece that stands on the target square after a move: the promotion piece of a
/// promotion, else the moving piece.
pub open spec fn promoted_piece(m: Move) -> PieceType {
    if m.flags_spec() & MF_PROMOTION == MF_PROMOTION {
        let k = m.flags_spec() & 3u16;
        if k == 0 {
            PieceType::Knight
        } else if k == 1 {
            PieceType::Bishop
        } else if k == 2 {
            PieceType::Rook
        } else {
            PieceType::Queen
        }
    } else {
        m.piece_spec()
    }
}

/// Whether a side holds the castling right of the rook corner `sq`.
pub open spec fn has_right_at(b: BoardRep, sq: int, black: bool) -> bool {
    if black {
        (sq == 56 && b.black_king_side_castling) || (sq == 63 && b.black_queen_side_castling)
    } else {
        (sq == 0 && b.white_king_side_castling) || (sq == 7 && b.white_queen_side_castling)
    }
}

/// The segment clearing the old en passant square.
pub open spec fn ep_part(b: BoardRep) -> Seq<MoveSegment> {
    if b.ep_index < 64 {
        seq![seg(MoveSegmentType::ClearEP, file_of(b.ep_index as int), PieceType::NoPiece, false)]
    } else {
        seq![]
    }
}

/// Whether a move captures on its target square (not en passant).
pub open spec fn plain_capture(m: Move) -> bool {
    m.capture_spec() && m.flags_spec() != MF_EP_CAPTURE
}

/// The segments taking off a captured piece, with the castling right of a captured corner
/// rook.
pub open spec fn capture_part(b: BoardRep, m: Move) -> Seq<MoveSegment> {
    let to = m.to_spec() as int;
    let captured = piece_at(b, to);
    (if plain_capture(m) && captured != PieceType::NoPiece {
        seq![seg(MoveSegmentType::Pickup, to, captured, !b.black_turn)]
    } else {
        seq![]
    }) + (if plain_capture(m) && captured == PieceType::Rook && has_right_at(b, to, !b.black_turn) {
        seq![seg(MoveSegmentType::ClearCastling, to, PieceType::NoPiece, !b.black_turn)]
    } else {
        seq![]
    })
}

/// The segment taking off the pawn captured en passant.
pub open spec fn ep_capture_part(b: BoardRep, m: Move) -> Seq<MoveSegment> {
    let cap_sq = ep_captured_square(m);
    if m.flags_spec() == MF_EP_CAPTURE && 0 <= cap_sq < 64 {
        seq![seg(MoveSegmentType::Pickup, cap_sq, PieceType::Pawn, !b.black_turn)]
    } else {
        seq![]
    }
}

/// The segments moving the piece (promoted where it promotes).
pub open spec fn piece_part(b: BoardRep, m: Move) -> Seq<MoveSegment> {
    if m.piece_spec() != PieceType::NoPiece {
        seq![
            seg(MoveSegmentType::Pickup, m.from_spec() as int, m.piece_spec(), b.black_turn),
            seg(MoveSegmentType::Place, m.to_spec() as int, promoted_piece(m), b.black_turn),
        ]
    } else {
        seq![]
    }
}

/// The segments moving the rook of a castling.
pub open spec fn rook_part(b: BoardRep, m: Move) -> Seq<MoveSegment> {
    let (from, f, black) = (m.from_spec() as int, m.flags_spec(), b.black_turn);
    if f == MF_KING_CASTLING && from >= 3 {
        seq![seg(MoveSegmentType::Pickup, from - 3, PieceType::Rook, black), seg(MoveSegmentType::Place, from - 1, PieceType::Rook, black)]
    } else if f == MF_QUEEN_CASTLING && from + 4 < 64 {
        seq![seg(MoveSegmentType::Pickup, from + 4, PieceType::Rook, black), seg(MoveSegmentType::Place, from + 1, PieceType::Rook, black)]
    } else {
        seq![]
    }
}

/// The segment setting the en passant square of a double push.
pub open spec fn dpp_part(b: BoardRep, m: Move) -> Seq<MoveSegment> {
    if m.flags_spec() == MF_DOUBLE_PAWN_PUSH {
        seq![seg(MoveSegmentType::DoublePawnPush, (m.from_spec() + m.to_spec()) / 2, PieceType::NoPiece, b.black_turn)]
    } else {
        seq![]
    }
}

/// The segments giving up the castling rights that a king move or a corner rook's move
/// loses.
pub open spec fn rights_part(b: BoardRep, m: Move) -> Seq<MoveSegment> {
    let black = b.black_turn;
    let king_side = if black { 56int } else { 0 };
    let queen_side = if black { 63int } else { 7 };
    if m.piece_spec() == PieceType::King {
        (if has_right_at(b, king_side, black) {
            seq![seg(MoveSegmentType::ClearCastling, king_side, PieceType::NoPiece, black)]
        } else {
            seq![]
        }) + (if has_right_at(b, queen_side, black) {
            seq![seg(MoveSegmentType::ClearCastling, queen_side, PieceType::NoPiece, black)]
        } else {
            seq![]
        })
    } else if m.piece_spec() == PieceType::Rook && has_right_at(b, m.from_spec() as int, black) {
        seq![seg(MoveSegmentType::ClearCastling, m.from_spec() as int, PieceType::NoPiece, black)]
    } else {
        seq![]
    }
}

/// The segments of a move by the side to move: the old en passant square cleared; a captured
/// piece taken off (with the castling right of a captured corner rook); the pawn taken en
/// passant; the piece moved (promoted where it promotes); the rook of a castling moved; the
/// en passant square of a double push set; and the castling rights that a king move or a
/// corner rook's move gives up.
pub open spec fn move_segments_spec(b: BoardRep, m: Move) -> Seq<MoveSegment> {
    ep_part(b) + capture_part(b, m) + ep_capture_part(b, m) + piece_part(b, m) + rook_part(b, m) + dpp_part(b, m)
        + rights_part(b, m)
}

proof fn lemma_segments_ok_concat(a: Seq<MoveSegment>, c: Seq<MoveSegment>)
    requires
        segments_ok(a),
        segments_ok(c),
    ensures
        segments_ok(a + c),
{
    assert forall|i: int| 0 <= i < (a + c).len() implies #[trigger] segment_ok((a + c)[i]) by {
        if i < a.len() {
            assert((a + c)[i] == a[i]);
        } else {
            assert((a + c)[i] == c[i - a.len()]);
        }
    }
}

fn promoted_piece_exec(m: Move) -> (r: PieceType)
    ensures
        r == promoted_piece(m),
{
    if m.flags() & MF_PROMOTION == MF_PROMOTION {
        let k = m.flags() & 3;
        if k == 0 {
            PieceType::Knight
        } else if k == 1 {
            PieceType::Bishop
        } else if k == 2 {
            PieceType::Rook
        } else {
            PieceType::Queen
        }
    } else {
        m.piece_type()
    }
}

fn has_right_at_exec(b: &BoardRep, sq: u8, black: bool) -> (r: bool)
    ensures
        r == has_right_at(*b, sq as int, black),
{
    if black {
        (sq == 56 && b.black_king_side_castling) || (sq == 63 && b.black_queen_side_castling)
    } else {
        (sq == 0 && b.white_king_side_castling) || (sq == 7 && b.white_queen_side_castling)
    }
}

fn push_ep_part(v: &mut Vec<MoveSegment>, b: &BoardRep)
    requires
        b.ep_index == u8::MAX || b.ep_index < 64,
    ensures
        final(v)@ == old(v)@ + ep_part(*b),
{
    if b.ep_index < 64 {
        v.push(MoveSegment::new(MoveSegmentType::ClearEP, get_file(b.ep_index), PieceType::NoPiece, false));
    }
    assert(v@ =~= old(v)@ + ep_part(*b));
}

fn push_capture_part(v: &mut Vec<MoveSegment>, b: &BoardRep, m: Move)
    ensures
        final(v)@ == old(v)@ + capture_part(*b, m),
{
    let to = m.to();
    let black = b.black_turn;
    let captured = b.get_piece_type_at_index(to);
    let plain = m.is_capture() && m.flags() != MF_EP_CAPTURE;
    if plain && captured != PieceType::NoPiece {
        v.push(MoveSegment::new(MoveSegmentType::Pickup, to, captured, !black));
    }
    if plain && captured == PieceType::Rook && has_right_at_exec(b, to, !black) {
        v.push(MoveSegment::new(MoveSegmentType::ClearCastling, to, PieceType::NoPiece, !black));
    }
    assert(v@ =~= old(v)@ + capture_part(*b, m));
}

fn push_ep_capture_part(v: &mut Vec<MoveSegment>, b: &BoardRep, m: Move)
    ensures
        final(v)@ == old(v)@ + ep_capture_part(*b, m),
{
    if m.flags() == MF_EP_CAPTURE {
        let from = m.from();
        let to = m.to();
        let cap: i16 = from as i16 + if get_file(to) > get_file(from) { -1 } else { 1 };
        if 0 <= cap && cap < 64 {
            v.push(MoveSegment::new(MoveSegmentType::Pickup, cap as u8, PieceType::Pawn, !b.black_turn));
        }
    }
    assert(v@ =~= old(v)@ + ep_capture_part(*b, m));
}

fn push_piece_part(v: &mut Vec<MoveSegment>, b: &BoardRep, m: Move)
    ensures
        final(v)@ == old(v)@ + piece_part(*b, m),
{
    let p = m.piece_type();
    if p != PieceType::NoPiece {
        v.push(MoveSegment::new(MoveSegmentType::Pickup, m.from(), p, b.black_turn));
        v.push(MoveSegment::new(MoveSegmentType::Place, m.to(), promoted_piece_exec(m), b.black_turn));
    }
    assert(v@ =~= old(v)@ + piece_part(*b, m));
}

fn push_rook_part(v: &mut Vec<MoveSegment>, b: &BoardRep, m: Move)
    ensures
        final(v)@ == old(v)@ + rook_part(*b, m),
{
    let from = m.from();
    let f = m.flags();
    let black = b.black_turn;
    if f == MF_KING_CASTLING && from >= 3 {
        v.push(MoveSegment::new(MoveSegmentType::Pickup, from - 3, PieceType::Rook, black));
        v.push(MoveSegment::new(MoveSegmentType::Place, from - 1, PieceType::Rook, black));
    } else if f == MF_QUEEN_CASTLING && from + 4 < 64 {
        v.push(MoveSegment::new(MoveSegmentType::Pickup, from + 4, PieceType::Rook, black));
        v.push(MoveSegment::new(MoveSegmentType::Place, from + 1, PieceType::Rook, black));
    }
    assert(v@ =~= old(v)@ + rook_part(*b, m));
}

fn push_dpp_part(v: &mut Vec<MoveSegment>, b: &BoardRep, m: Move)
    ensures
        final(v)@ == old(v)@ + dpp_part(*b, m),
{
    if m.flags() == MF_DOUBLE_PAWN_PUSH {
        let sq = ((m.from() as u16 + m.to() as u16) / 2) as u8;
        v.push(MoveSegment::new(MoveSegmentType::DoublePawnPush, sq, PieceType::NoPiece, b.black_turn));
    }
    assert(v@ =~= old(v)@ + dpp_part(*b, m));
}

fn push_rights_part(v: &mut Vec<MoveSegment>, b: &BoardRep, m: Move)
    ensures
        final(v)@ == old(v)@ + rights_part(*b, m),
{
    let black = b.black_turn;
    let p = m.piece_type();
    let from = m.from();
    let king_side: u8 = if black { 56 } else { 0 };
    let queen_side: u8 = if black { 63 } else { 7 };
    if p == PieceType::King {
        if has_right_at_exec(b, king_side, black) {
            v.push(MoveSegment::new(MoveSegmentType::ClearCastling, king_side, PieceType::NoPiece, black));
        }
        if has_right_at_exec(b, queen_side, black) {
            v.push(MoveSegment::new(MoveSegmentType::ClearCastling, queen_side, PieceType::NoPiece, black));
        }
    } else if p == PieceType::Rook && has_right_at_exec(b, from, black) {
        v.push(MoveSegment::new(MoveSegmentType::ClearCastling, from, PieceType::NoPiece, black));
    }
    assert(v@ =~= old(v)@ + rights_part(*b, m));
}

impl BoardRep {
    /// The segments of a move by the side to move (see `move_segments_spec`).
    pub fn move_segments(&self, m: Move) -> (r: Vec<MoveSegment>)
        requires
            self.ep_index == u8::MAX || self.ep_index < 64,
        ensures
            r@ == move_segments_spec(*self, m),
    {
        let mut v: Vec<MoveSegment> = Vec::new();
        push_ep_part(&mut v, self);
        push_capture_part(&mut v, self, m);
        push_ep_capture_part(&mut v, self, m);
        push_piece_part(&mut v, self, m);
        push_rook_part(&mut v, self, m);
        push_dpp_part(&mut v, self, m);
        push_rights_part(&mut v, self, m);
        assert(v@ =~= move_segments_spec(*self, m));
        v
    }

    /// The hash after a move by the side to move, and the move's segments: the segments'
    /// keys toggled in the board's hash, then the side to move's key.
    pub fn zorb_key_after_move(&self, m: Move) -> (r: (u64, Vec<MoveSegment>))
        requires
            self.ep_index == u8::MAX || self.ep_index < 64,
        ensures
            r.1@ == move_segments_spec(*self, m),
            segments_ok(r.1@),
            exists|z: ZorbSet| z.is_fixed() && r.0 == z.shift_all(self.zorb_key, r.1@) ^ z.black_turn,
    {
        let segs = self.move_segments(m);
        proof {
            lemma_move_segments_ok(*self, m);
        }
        let z = ZorbSet::precomputed();
        proof {
            crate::zorb_set::lemma_leading_segments_ok(segs@);
        }
        let key = z.apply_segments(self.zorb_key, &segs);
        (key, segs)
    }
}

proof fn lemma_move_segments_ok(b: BoardRep, m: Move)
    requires
        b.ep_index == u8::MAX || b.ep_index < 64,
    ensures
        segments_ok(move_segments_spec(b, m)),
{
    m.lemma_parts_bounded();
    let parts = seq![ep_part(b), capture_part(b, m), ep_capture_part(b, m), piece_part(b, m), rook_part(b, m), dpp_part(b, m), rights_part(b, m)];
    assert(segments_ok(ep_part(b)));
    assert(segments_ok(capture_part(b, m))) by {
        let s = capture_part(b, m);
        assert forall|i: int| 0 <= i < s.len() implies #[trigger] segment_ok(s[i]) by {}
    }
    assert(segments_ok(ep_capture_part(b, m)));
    assert(segments_ok(piece_part(b, m))) by {
        let s = piece_part(b, m);
        assert forall|i: int| 0 <= i < s.len() implies #[trigger] segment_ok(s[i]) by {}
    }
    assert(segments_ok(rook_part(b, m))) by {
        let s = rook_part(b, m);
        assert forall|i: int| 0 <= i < s.len() implies #[trigger] segment_ok(s[i]) by {}
    }
    assert(segments_ok(dpp_part(b, m)));
    assert(segments_ok(rights_part(b, m))) by {
        let s = rights_part(b, m);
        assert forall|i: int| 0 <= i < s.len() implies #[trigger] segment_ok(s[i]) by {}
    }
    let a1 = ep_part(b) + capture_part(b, m);
    lemma_segments_ok_concat(ep_part(b), capture_part(b, m));
    let a2 = a1 + ep_capture_part(b, m);
    lemma_segments_ok_concat(a1, ep_capture_part(b, m));
    let a3 = a2 + piece_part(b, m);
    lemma_segments_ok_concat(a2, piece_part(b, m));
    let a4 = a3 + rook_part(b, m);
    lemma_segments_ok_concat(a3, rook_part(b, m));
    let a5 = a4 + dpp_part(b, m);
    lemma_segments_ok_concat(a4, dpp_part(b, m));
    lemma_segments_ok_concat(a5, rights_part(b, m));
}

} // verus!

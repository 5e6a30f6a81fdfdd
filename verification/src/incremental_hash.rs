use vstd::prelude::*;
use crate::bitboard::{lemma_on_sq_and, lemma_on_sq_bit, lemma_on_sq_not, lemma_on_sq_or, on_sq};
use crate::board_rep::{BoardRep, piece_at};
use crate::board_utils::file_of;
use crate::make_move::{after_segments_spec, apply_all_spec, apply_segment_spec, clear_castling_spec, pickup_spec, place_spec};
use crate::move_segment::{MoveSegment, MoveSegmentType};
use crate::piece_type::PieceType;
use crate::zorb_set::ZorbSet;

verus! {

pub proof fn lemma_xor(a: u64, b: u64, c: u64)
    by (bit_vector)
    ensures
        (a ^ b) ^ c == (a ^ c) ^ b,
        a ^ 0u64 == a,
        (a ^ b) ^ b == a,
        a ^ (b ^ c) == (a ^ b) ^ c,
        a ^ b == b ^ a,
{
}

/// The hash of a board with `pieces` standing for the keys of its pieces.
pub open spec fn hash_frame(z: ZorbSet, b: BoardRep, pieces: u64) -> u64 {
    let h0 = if b.black_turn { z.black_turn } else { 0u64 };
    let h1 = h0 ^ pieces;
    let h2 = if b.white_king_side_castling { h1 ^ z.wkc } else { h1 };
    let h3 = if b.white_queen_side_castling { h2 ^ z.wqc } else { h2 };
    let h4 = if b.black_king_side_castling { h3 ^ z.bkc } else { h3 };
    let h5 = if b.black_queen_side_castling { h4 ^ z.bqc } else { h4 };
    if b.ep_index != u8::MAX && b.ep_index < 64 {
        h5 ^ z.ep_table@[file_of(b.ep_index as int)]
    } else {
        h5
    }
}

proof fn lemma_frame_xor(z: ZorbSet, b: BoardRep, pieces: u64, k: u64)
    ensures
        hash_frame(z, b, pieces ^ k) == hash_frame(z, b, pieces) ^ k,
{
    let h0 = if b.black_turn { z.black_turn } else { 0u64 };
    lemma_xor(h0, pieces, k);
    let h1 = h0 ^ pieces;
    lemma_xor(h1, z.wkc, k);
    let h2 = if b.white_king_side_castling { h1 ^ z.wkc } else { h1 };
    lemma_xor(h2, z.wqc, k);
    let h3 = if b.white_queen_side_castling { h2 ^ z.wqc } else { h2 };
    lemma_xor(h3, z.bkc, k);
    let h4 = if b.black_king_side_castling { h3 ^ z.bkc } else { h3 };
    lemma_xor(h4, z.bqc, k);
    let h5 = if b.black_queen_side_castling { h4 ^ z.bqc } else { h4 };
    if b.ep_index != u8::MAX && b.ep_index < 64 {
        lemma_xor(h5, z.ep_table@[file_of(b.ep_index as int)], k);
    }
}

proof fn lemma_pieces_hash_one_square(z: ZorbSet, b: BoardRep, b2: BoardRep, i: int, n: nat)
    requires
        0 <= i < 64,
        n <= 64,
        forall|j: int| 0 <= j < 64 && j != i ==> #[trigger] z.square_key(b2, j) == z.square_key(b, j),
    ensures
        z.pieces_hash(b2, n) == if i < n {
            z.pieces_hash(b, n) ^ z.square_key(b, i) ^ z.square_key(b2, i)
        } else {
            z.pieces_hash(b, n)
        },
    decreases n,
{
    if n > 0 {
        lemma_pieces_hash_one_square(z, b, b2, i, (n - 1) as nat);
        let p = z.pieces_hash(b, (n - 1) as nat);
        let ka = z.square_key(b, i);
        let kb = z.square_key(b2, i);
        if n - 1 == i {
            lemma_xor(p, ka, ka);
            lemma_xor(p ^ ka, ka, kb);
            lemma_xor(p, ka, kb);
        } else if i < n - 1 {
            let q = z.square_key(b, n - 1);
            lemma_xor(p ^ ka, kb, q);
            lemma_xor(p, ka, q);
            lemma_xor(p ^ q, ka, kb);
        }
    }
}

/// Boards alike but for the keys of their pieces.
pub open spec fn same_frame(b: BoardRep, b2: BoardRep) -> bool {
    &&& b2.black_turn == b.black_turn
    &&& b2.white_king_side_castling == b.white_king_side_castling
    &&& b2.white_queen_side_castling == b.white_queen_side_castling
    &&& b2.black_king_side_castling == b.black_king_side_castling
    &&& b2.black_queen_side_castling == b.black_queen_side_castling
    &&& b2.ep_index == b.ep_index
}

proof fn lemma_hash_one_square(z: ZorbSet, b: BoardRep, b2: BoardRep, i: int)
    requires
        0 <= i < 64,
        same_frame(b, b2),
        forall|j: int| 0 <= j < 64 && j != i ==> #[trigger] z.square_key(b2, j) == z.square_key(b, j),
    ensures
        z.hash_spec(b2) == z.hash_spec(b) ^ (z.square_key(b, i) ^ z.square_key(b2, i)),
{
    lemma_pieces_hash_one_square(z, b, b2, i, 64);
    let p = z.pieces_hash(b, 64);
    let k = z.square_key(b, i) ^ z.square_key(b2, i);
    lemma_xor(p, z.square_key(b, i), z.square_key(b2, i));
    lemma_frame_xor(z, b, p, k);
    assert(z.hash_spec(b) == hash_frame(z, b, p));
    assert(z.hash_spec(b2) == hash_frame(z, b2, z.pieces_hash(b2, 64)));
}

proof fn lemma_cleared_bit(x: u64, i: u8, j: int)
    requires
        i < 64,
        0 <= j < 64,
    ensures
        on_sq(x & !(1u64 << i), j) <==> (on_sq(x, j) && j != i),
        on_sq(x | (1u64 << i), j) <==> (on_sq(x, j) || j == i),
{
    lemma_on_sq_and(x, !(1u64 << i), j as u64);
    lemma_on_sq_not(1u64 << i, j as u64);
    lemma_on_sq_bit(j as u64, i as u64);
    lemma_on_sq_or(x, 1u64 << i, j as u64);
}

/// Taking a piece off the board updates the hash as the pickup segment does: where the
/// piece stands on its square, of its colour alone, shifting the hash of the board by the
/// segment gives the hash of the board without it.
pub proof fn law_pickup_updates_hash(z: ZorbSet, b: BoardRep, i: u8, p: PieceType, black: bool)
    requires
        z.wf(),
        b.wf(),
        i < 64,
        p != PieceType::NoPiece,
        piece_at(b, i as int) == p,
        on_sq(if black { b.black_occupancy } else { b.white_occupancy }, i as int),
        !on_sq(if black { b.white_occupancy } else { b.black_occupancy }, i as int),
    ensures
        z.shift_spec(z.hash_spec(b), MoveSegment { segment_type: MoveSegmentType::Pickup, index: i, piece_type: p, black_piece: black })
            == z.hash_spec(pickup_spec(b, i, p, black)),
{
    let b2 = pickup_spec(b, i, p, black);
    assert forall|j: int| 0 <= j < 64 && j != i implies #[trigger] z.square_key(b2, j) == z.square_key(b, j) by {
        lemma_cleared_bit(b.pawn_bitboard, i, j);
        lemma_cleared_bit(b.knight_bitboard, i, j);
        lemma_cleared_bit(b.bishop_bitboard, i, j);
        lemma_cleared_bit(b.rook_bitboard, i, j);
        lemma_cleared_bit(b.queen_bitboard, i, j);
        lemma_cleared_bit(b.white_occupancy, i, j);
        lemma_cleared_bit(b.black_occupancy, i, j);
        lemma_on_sq_or(b.white_occupancy, b.black_occupancy, j as u64);
        lemma_on_sq_or(b2.white_occupancy, b2.black_occupancy, j as u64);
        assert(piece_at(b2, j) == piece_at(b, j));
        assert(on_sq(b2.black_occupancy, j) == on_sq(b.black_occupancy, j));
        assert(on_sq(b2.occupancy, j) == on_sq(b.occupancy, j));
    }
    lemma_cleared_bit(b.white_occupancy, i, i as int);
    lemma_cleared_bit(b.black_occupancy, i, i as int);
    lemma_on_sq_or(b2.white_occupancy, b2.black_occupancy, i as u64);
    lemma_on_sq_or(b.white_occupancy, b.black_occupancy, i as u64);
    assert(z.square_key(b2, i as int) == 0);
    assert(on_sq(b.black_occupancy, i as int) == black);
    lemma_hash_one_square(z, b, b2, i as int);
    lemma_xor(z.square_key(b, i as int), 0, 0);
}

/// Putting a piece on an empty square updates the hash as the place segment does: where no
/// piece stands on the square (and, for a king, its colour's king has left its square),
/// shifting the hash of the board by the segment gives the hash of the board with it.
pub proof fn law_place_updates_hash(z: ZorbSet, b: BoardRep, i: u8, p: PieceType, black: bool)
    requires
        z.wf(),
        b.wf(),
        i < 64,
        p != PieceType::NoPiece,
        piece_at(b, i as int) == PieceType::NoPiece,
        !on_sq(b.occupancy, i as int),
        p == PieceType::King ==> !on_sq(b.occupancy, (if black { b.black_king_position } else { b.white_king_position }) as int),
    ensures
        z.shift_spec(z.hash_spec(b), MoveSegment { segment_type: MoveSegmentType::Place, index: i, piece_type: p, black_piece: black })
            == z.hash_spec(place_spec(b, i, p, black)),
{
    let b2 = place_spec(b, i, p, black);
    assert forall|j: int| 0 <= j < 64 && j != i implies #[trigger] z.square_key(b2, j) == z.square_key(b, j) by {
        lemma_cleared_bit(b.pawn_bitboard, i, j);
        lemma_cleared_bit(b.knight_bitboard, i, j);
        lemma_cleared_bit(b.bishop_bitboard, i, j);
        lemma_cleared_bit(b.rook_bitboard, i, j);
        lemma_cleared_bit(b.queen_bitboard, i, j);
        lemma_cleared_bit(b.white_occupancy, i, j);
        lemma_cleared_bit(b.black_occupancy, i, j);
        lemma_on_sq_or(b.white_occupancy, b.black_occupancy, j as u64);
        lemma_on_sq_or(b2.white_occupancy, b2.black_occupancy, j as u64);
        assert(on_sq(b2.black_occupancy, j) == on_sq(b.black_occupancy, j));
        assert(on_sq(b2.occupancy, j) == on_sq(b.occupancy, j));
        if on_sq(b.occupancy, j) {
            assert(piece_at(b2, j) == piece_at(b, j));
        }
    }
    lemma_cleared_bit(b.pawn_bitboard, i, i as int);
    lemma_cleared_bit(b.knight_bitboard, i, i as int);
    lemma_cleared_bit(b.bishop_bitboard, i, i as int);
    lemma_cleared_bit(b.rook_bitboard, i, i as int);
    lemma_cleared_bit(b.queen_bitboard, i, i as int);
    lemma_cleared_bit(b.white_occupancy, i, i as int);
    lemma_cleared_bit(b.black_occupancy, i, i as int);
    lemma_on_sq_or(b2.white_occupancy, b2.black_occupancy, i as u64);
    lemma_on_sq_or(b.white_occupancy, b.black_occupancy, i as u64);
    assert(z.square_key(b, i as int) == 0);
    assert(piece_at(b2, i as int) == p);
    assert(on_sq(b2.black_occupancy, i as int) == black);
    lemma_hash_one_square(z, b, b2, i as int);
    lemma_xor(0, 0, z.square_key(b2, i as int));
    lemma_xor(z.square_key(b2, i as int), 0, 0);
}

/// Whether a castling segment clears only rights that the board holds.
pub open spec fn castling_clear_effective(b: BoardRep, i: u8, black: bool) -> bool {
    if black {
        (i == 56 ==> b.black_king_side_castling) && (i == 63 ==> b.black_queen_side_castling) && (i == 59
            ==> b.black_king_side_castling && b.black_queen_side_castling)
    } else {
        (i == 0 ==> b.white_king_side_castling) && (i == 7 ==> b.white_queen_side_castling) && (i == 3
            ==> b.white_king_side_castling && b.white_queen_side_castling)
    }
}

proof fn lemma_castling_key(z: ZorbSet, b: BoardRep, pieces: u64, which: int)
    requires
        0 <= which < 4,
        which == 0 ==> b.white_king_side_castling,
        which == 1 ==> b.white_queen_side_castling,
        which == 2 ==> b.black_king_side_castling,
        which == 3 ==> b.black_queen_side_castling,
    ensures
        ({
            let (b2, k) = if which == 0 {
                (BoardRep { white_king_side_castling: false, ..b }, z.wkc)
            } else if which == 1 {
                (BoardRep { white_queen_side_castling: false, ..b }, z.wqc)
            } else if which == 2 {
                (BoardRep { black_king_side_castling: false, ..b }, z.bkc)
            } else {
                (BoardRep { black_queen_side_castling: false, ..b }, z.bqc)
            };
            hash_frame(z, b, pieces) == hash_frame(z, b2, pieces ^ k)
        }),
{
    let h0 = if b.black_turn { z.black_turn } else { 0u64 };
    let k = if which == 0 { z.wkc } else if which == 1 { z.wqc } else if which == 2 { z.bkc } else { z.bqc };
    lemma_xor(h0, pieces, k);
    let h1 = h0 ^ pieces;
    let g1 = h0 ^ (pieces ^ k);
    lemma_xor(h1, k, z.wkc);
    let h2 = if b.white_king_side_castling { h1 ^ z.wkc } else { h1 };
    lemma_xor(h2, k, z.wqc);
    lemma_xor(h1, z.wkc, k);
    let h3 = if b.white_queen_side_castling { h2 ^ z.wqc } else { h2 };
    lemma_xor(h3, k, z.bkc);
    lemma_xor(h2, z.wqc, k);
    let h4 = if b.black_king_side_castling { h3 ^ z.bkc } else { h3 };
    lemma_xor(h4, k, z.bqc);
    lemma_xor(h3, z.bkc, k);
    lemma_xor(h4, z.bqc, k);
}

/// Clearing castling rights updates the hash as the castling segment does, where the rights
/// it clears are held.
pub proof fn law_clear_castling_updates_hash(z: ZorbSet, b: BoardRep, i: u8, black: bool)
    requires
        castling_clear_effective(b, i, black),
    ensures
        z.shift_spec(z.hash_spec(b), MoveSegment {
            segment_type: MoveSegmentType::ClearCastling,
            index: i,
            piece_type: PieceType::NoPiece,
            black_piece: black,
        }) == z.hash_spec(clear_castling_spec(b, i, black)),
{
    let p = z.pieces_hash(b, 64);
    let b2 = clear_castling_spec(b, i, black);
    lemma_pieces_same(z, b, b2, 64);
    assert(z.hash_spec(b) == hash_frame(z, b, p));
    assert(z.hash_spec(b2) == hash_frame(z, b2, p));
    if black {
        if i == 56 {
            lemma_castling_key(z, b, p, 2);
            lemma_frame_xor(z, b2, p, z.bkc);
            lemma_xor(hash_frame(z, b2, p), z.bkc, z.bkc);
        } else if i == 63 {
            lemma_castling_key(z, b, p, 3);
            lemma_frame_xor(z, b2, p, z.bqc);
            lemma_xor(hash_frame(z, b2, p), z.bqc, z.bqc);
        } else if i == 59 {
            let bm = BoardRep { black_king_side_castling: false, ..b };
            lemma_castling_key(z, b, p, 2);
            lemma_castling_key(z, bm, p ^ z.bkc, 3);
            assert(b2 == BoardRep { black_queen_side_castling: false, ..bm });
            lemma_frame_xor(z, b2, p, z.bkc ^ z.bqc);
            lemma_xor(p, z.bkc, z.bqc);
            let f = hash_frame(z, b2, p);
            lemma_xor(f, z.bkc ^ z.bqc, z.bkc ^ z.bqc);
            lemma_xor(f ^ (z.bkc ^ z.bqc), z.bkc, z.bqc);
        }
    } else {
        if i == 0 {
            lemma_castling_key(z, b, p, 0);
            lemma_frame_xor(z, b2, p, z.wkc);
            lemma_xor(hash_frame(z, b2, p), z.wkc, z.wkc);
        } else if i == 7 {
            lemma_castling_key(z, b, p, 1);
            lemma_frame_xor(z, b2, p, z.wqc);
            lemma_xor(hash_frame(z, b2, p), z.wqc, z.wqc);
        } else if i == 3 {
            let bm = BoardRep { white_king_side_castling: false, ..b };
            lemma_castling_key(z, b, p, 0);
            lemma_castling_key(z, bm, p ^ z.wkc, 1);
            assert(b2 == BoardRep { white_queen_side_castling: false, ..bm });
            lemma_frame_xor(z, b2, p, z.wkc ^ z.wqc);
            lemma_xor(p, z.wkc, z.wqc);
            let f = hash_frame(z, b2, p);
            lemma_xor(f, z.wkc ^ z.wqc, z.wkc ^ z.wqc);
            lemma_xor(f ^ (z.wkc ^ z.wqc), z.wkc, z.wqc);
        }
    }
}

proof fn lemma_pieces_same(z: ZorbSet, b: BoardRep, b2: BoardRep, n: nat)
    requires
        n <= 64,
        b2.pawn_bitboard == b.pawn_bitboard,
        b2.knight_bitboard == b.knight_bitboard,
        b2.bishop_bitboard == b.bishop_bitboard,
        b2.rook_bitboard == b.rook_bitboard,
        b2.queen_bitboard == b.queen_bitboard,
        b2.white_occupancy == b.white_occupancy,
        b2.black_occupancy == b.black_occupancy,
        b2.occupancy == b.occupancy,
        b2.white_king_position == b.white_king_position,
        b2.black_king_position == b.black_king_position,
    ensures
        z.pieces_hash(b2, n) == z.pieces_hash(b, n),
    decreases n,
{
    if n > 0 {
        lemma_pieces_same(z, b, b2, (n - 1) as nat);
        assert(z.square_key(b2, n - 1) == z.square_key(b, n - 1));
    }
}

/// A double pawn push updates the hash as its segment does, on a board with no en passant
/// square.
pub proof fn law_double_pawn_push_updates_hash(z: ZorbSet, b: BoardRep, i: u8)
    requires
        b.ep_index == u8::MAX,
        i < 64,
    ensures
        z.shift_spec(z.hash_spec(b), MoveSegment {
            segment_type: MoveSegmentType::DoublePawnPush,
            index: i,
            piece_type: PieceType::Pawn,
            black_piece: false,
        }) == z.hash_spec(BoardRep { ep_index: i, ..b }),
{
    let b2 = BoardRep { ep_index: i, ..b };
    lemma_pieces_same(z, b, b2, 64);
}

/// Clearing the en passant square updates the hash as its segment does, when the segment
/// names the file of the board's en passant square.
pub proof fn law_clear_ep_updates_hash(z: ZorbSet, b: BoardRep, f: u8)
    requires
        b.ep_index < 64,
        f as int == file_of(b.ep_index as int),
    ensures
        z.shift_spec(z.hash_spec(b), MoveSegment {
            segment_type: MoveSegmentType::ClearEP,
            index: f,
            piece_type: PieceType::NoPiece,
            black_piece: false,
        }) == z.hash_spec(BoardRep { ep_index: u8::MAX, ..b }),
{
    let b2 = BoardRep { ep_index: u8::MAX, ..b };
    lemma_pieces_same(z, b, b2, 64);
    let e = z.ep_table@[file_of(b.ep_index as int)];
    let h5 = hash_frame(z, b2, z.pieces_hash(b, 64));
    lemma_xor(h5, e, e);
}


/// Whether a segment, applied to a board, changes the hash as its shift does: a piece
/// picked up stands on its square, of its colour alone; a piece placed goes to an empty
/// square (and a king's old square is empty); castling rights cleared are held; a double
/// pawn push comes with no en passant square; a cleared en passant file is the board's.
pub open spec fn segment_hash_ok(b: BoardRep, s: MoveSegment) -> bool {
    match s.segment_type {
        MoveSegmentType::Pickup => {
            &&& b.wf()
            &&& s.index < 64
            &&& s.piece_type != PieceType::NoPiece
            &&& piece_at(b, s.index as int) == s.piece_type
            &&& on_sq(if s.black_piece { b.black_occupancy } else { b.white_occupancy }, s.index as int)
            &&& !on_sq(if s.black_piece { b.white_occupancy } else { b.black_occupancy }, s.index as int)
        },
        MoveSegmentType::Place => {
            &&& b.wf()
            &&& s.index < 64
            &&& s.piece_type != PieceType::NoPiece
            &&& piece_at(b, s.index as int) == PieceType::NoPiece
            &&& !on_sq(b.occupancy, s.index as int)
            &&& s.piece_type == PieceType::King ==> !on_sq(
                b.occupancy,
                (if s.black_piece { b.black_king_position } else { b.white_king_position }) as int,
            )
        },
        MoveSegmentType::ClearCastling => castling_clear_effective(b, s.index, s.black_piece),
        MoveSegmentType::DoublePawnPush => b.ep_index == u8::MAX && s.index < 64,
        MoveSegmentType::ClearEP => b.ep_index < 64 && s.index as int == file_of(b.ep_index as int),
        MoveSegmentType::NoSegment => true,
    }
}

/// Whether each segment before the first empty one changes the hash as its shift does, on
/// the board the segments before it leave.
pub open spec fn segments_hash_ok(b: BoardRep, segs: Seq<MoveSegment>) -> bool
    decreases segs.len(),
{
    if segs.len() == 0 || segs[0].segment_type == MoveSegmentType::NoSegment {
        true
    } else {
        segment_hash_ok(b, segs[0]) && segments_hash_ok(apply_segment_spec(b, segs[0]), segs.drop_first())
    }
}

/// One segment that changes the hash as its shift does (see `segment_hash_ok`) updates the
/// hash of the board to the hash of the board after it.
pub proof fn law_segment_updates_hash(z: ZorbSet, b: BoardRep, s: MoveSegment)
    requires
        z.wf(),
        segment_hash_ok(b, s),
    ensures
        z.shift_spec(z.hash_spec(b), s) == z.hash_spec(apply_segment_spec(b, s)),
{
    match s.segment_type {
        MoveSegmentType::Pickup => {
            law_pickup_updates_hash(z, b, s.index, s.piece_type, s.black_piece);
            assert(s == MoveSegment { segment_type: MoveSegmentType::Pickup, index: s.index, piece_type: s.piece_type, black_piece: s.black_piece });
        },
        MoveSegmentType::Place => {
            law_place_updates_hash(z, b, s.index, s.piece_type, s.black_piece);
            assert(s == MoveSegment { segment_type: MoveSegmentType::Place, index: s.index, piece_type: s.piece_type, black_piece: s.black_piece });
        },
        MoveSegmentType::ClearCastling => {
            law_clear_castling_updates_hash(z, b, s.index, s.black_piece);
        },
        MoveSegmentType::DoublePawnPush => {
            law_double_pawn_push_updates_hash(z, b, s.index);
        },
        MoveSegmentType::ClearEP => {
            law_clear_ep_updates_hash(z, b, s.index);
        },
        MoveSegmentType::NoSegment => {},
    }
}

/// The hash updated by a move's segments is the hash of the board they lead to, where each
/// segment changes the hash as its shift does (see `segments_hash_ok`).
pub proof fn law_segments_update_hash(z: ZorbSet, b: BoardRep, segs: Seq<MoveSegment>)
    requires
        z.wf(),
        segments_hash_ok(b, segs),
    ensures
        z.shift_all(z.hash_spec(b), segs) == z.hash_spec(apply_all_spec(b, segs)),
    decreases segs.len(),
{
    if segs.len() > 0 && segs[0].segment_type != MoveSegmentType::NoSegment {
        law_segment_updates_hash(z, b, segs[0]);
        law_segments_update_hash(z, apply_segment_spec(b, segs[0]), segs.drop_first());
    }
}


proof fn lemma_turn_toggles_hash(z: ZorbSet, a: BoardRep, key: u64)
    ensures
        z.hash_spec(BoardRep { black_turn: !a.black_turn, zorb_key: key, ..a }) == z.hash_spec(a) ^ z.black_turn,
{
    let a2 = BoardRep { black_turn: !a.black_turn, zorb_key: key, ..a };
    lemma_pieces_same(z, a, a2, 64);
    let p = z.pieces_hash(a, 64);
    let h0 = if a.black_turn { z.black_turn } else { 0u64 };
    let g0 = if a2.black_turn { z.black_turn } else { 0u64 };
    lemma_xor(z.black_turn, 0, 0);
    lemma_xor(0, z.black_turn, z.black_turn);
    lemma_xor(z.black_turn, z.black_turn, 0);
    assert(g0 == h0 ^ z.black_turn);
    lemma_xor(h0, z.black_turn, p);
    lemma_xor(h0, p, z.black_turn);
    assert(g0 ^ p == (h0 ^ p) ^ z.black_turn);
    assert(hash_frame(z, a2, p) == hash_frame(z, a, p ^ z.black_turn)) by {
        lemma_xor(h0, p, z.black_turn);
        lemma_xor(h0, p ^ z.black_turn, 0);
        lemma_xor(h0, p, z.black_turn);
    }
    lemma_frame_xor(z, a, p, z.black_turn);
}

/// The hash that a move's segments give, with the side to move changed, is the hash of the
/// board after the move, where each segment changes the hash as its shift does (see
/// `segments_hash_ok`).
pub proof fn law_move_updates_hash(z: ZorbSet, b: BoardRep, segs: Seq<MoveSegment>, key: u64)
    requires
        z.wf(),
        segments_hash_ok(b, segs),
    ensures
        z.shift_all(z.hash_spec(b), segs) ^ z.black_turn == z.hash_spec(after_segments_spec(b, segs, key)),
{
    law_segments_update_hash(z, b, segs);
    lemma_turn_toggles_hash(z, apply_all_spec(b, segs), key);
}

} // verus!

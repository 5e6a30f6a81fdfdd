use vstd::prelude::*;
use crate::bitboard::on_sq;
use crate::board_rep::{BoardRep, piece_at};
use crate::board_utils::file_of;
use crate::move_segment::{MoveSegment, MoveSegmentType};
use crate::piece_type::{PieceType, piece_index};

verus! {

/// The keys of Zobrist hashing: one per (square, piece and colour), one per en passant file,
/// one for black to move and one per castling right.
#[derive(Clone, Debug)]
pub struct ZorbSet {
    /// Key of piece id `p` on square `s` at `s * 12 + p`; ids are white pawn 0, black pawn 1,
    /// white knight 2, ... black king 11.
    pub table: Vec<u64>,
    pub ep_table: Vec<u64>,
    pub black_turn: u64,
    pub wkc: u64,
    pub wqc: u64,
    pub bkc: u64,
    pub bqc: u64,
}

/// The id of a piece of a colour in the key table.
pub open spec fn piece_zorb_id(p: PieceType, black: bool) -> int {
    (piece_index(p) - 1) * 2 + if black { 1int } else { 0 }
}

/// Whether a segment can be hashed: pieces named where a piece is picked up or placed,
/// squares on the board, and en passant files below 8.
pub open spec fn segment_ok(s: MoveSegment) -> bool {
    match s.segment_type {
        MoveSegmentType::Pickup | MoveSegmentType::Place => s.index < 64 && s.piece_type != PieceType::NoPiece,
        MoveSegmentType::DoublePawnPush => s.index < 64,
        MoveSegmentType::ClearEP => s.index < 8,
        _ => true,
    }
}

/// The segments that `apply_segments` hashes: those before the first empty one.
pub open spec fn segments_ok(segs: Seq<MoveSegment>) -> bool {
    forall|i: int| 0 <= i < segs.len() ==> #[trigger] segment_ok(segs[i])
}

/// Whether the segments before the first empty one are well formed (see `segment_ok`);
/// those after it are never read.
pub open spec fn leading_segments_ok(segs: Seq<MoveSegment>) -> bool
    decreases segs.len(),
{
    segs.len() == 0 || segs[0].segment_type == MoveSegmentType::NoSegment || (segment_ok(segs[0]) && leading_segments_ok(
        segs.drop_first(),
    ))
}

/// Well-formed segments are well formed up to the first empty one.
pub proof fn lemma_leading_segments_ok(segs: Seq<MoveSegment>)
    requires
        segments_ok(segs),
    ensures
        leading_segments_ok(segs),
    decreases segs.len(),
{
    if segs.len() > 0 {
        assert(segment_ok(segs[0]));
        assert forall|i: int| 0 <= i < segs.drop_first().len() implies #[trigger] segment_ok(segs.drop_first()[i]) by {
            assert(segment_ok(segs[i + 1]));
        }
        lemma_leading_segments_ok(segs.drop_first());
    }
}

/// One next value of the SplitMix64 generator: the new state and the output.
pub open spec fn splitmix_spec(state: u64) -> (u64, u64) {
    let s = vstd::wrapping::u64_specs::wrapping_add(state, 0x9E3779B97F4A7C15u64);
    let z1 = vstd::wrapping::u64_specs::wrapping_mul(s ^ (s >> 30u64), 0xBF58476D1CE4E5B9u64);
    let z2 = vstd::wrapping::u64_specs::wrapping_mul(z1 ^ (z1 >> 27u64), 0x94D049BB133111EBu64);
    (s, z2 ^ (z2 >> 31u64))
}

/// One step of the SplitMix64 generator.
pub fn splitmix(state: u64) -> (r: (u64, u64))
    ensures
        r == splitmix_spec(state),
{
    let s = state.wrapping_add(0x9E3779B97F4A7C15u64);
    let z1 = (s ^ (s >> 30)).wrapping_mul(0xBF58476D1CE4E5B9u64);
    let z2 = (z1 ^ (z1 >> 27)).wrapping_mul(0x94D049BB133111EBu64);
    (s, z2 ^ (z2 >> 31))
}

/// The generator's state after `n` steps from seed 0.
pub open spec fn mix_state(n: nat) -> u64
    decreases n,
{
    if n == 0 {
        0
    } else {
        splitmix_spec(mix_state((n - 1) as nat)).0
    }
}

/// The generator's output at step `n` (counting from 0).
pub open spec fn mix_out(n: nat) -> u64 {
    splitmix_spec(mix_state(n)).1
}

/// A random 64-bit number.
/// Trusted: `rand::random::<u64>` of the rand crate. Nothing is claimed of the result: it
/// depends on the thread's random generator.
#[verifier::external_body]
pub(crate) fn random_u64() -> u64 {
    rand::random::<u64>()
}

impl ZorbSet {
    /// Tables of the right sizes: 768 piece keys and 8 en passant keys.
    pub open spec fn wf(&self) -> bool {
        self.table@.len() == 768 && self.ep_table@.len() == 8
    }

    /// The fixed keys: the generator's outputs in the order piece keys, en passant keys,
    /// black to move, then the castling rights KQkq.
    pub open spec fn is_fixed(&self) -> bool {
        &&& self.table@ == Seq::new(768, |i: int| mix_out(i as nat))
        &&& self.ep_table@ == Seq::new(8, |i: int| mix_out((768 + i) as nat))
        &&& self.black_turn == mix_out(776)
        &&& self.wkc == mix_out(777)
        &&& self.wqc == mix_out(778)
        &&& self.bkc == mix_out(779)
        &&& self.bqc == mix_out(780)
    }

    /// A set of random keys.
    pub fn new() -> (r: ZorbSet)
        ensures
            r.wf(),
    {
        let mut table: Vec<u64> = Vec::new();
        let mut i: usize = 0;
        while i < 768
            invariant
                i <= 768,
                table@.len() == i,
            decreases 768 - i,
        {
            table.push(random_u64());
            i += 1;
        }
        let mut ep_table: Vec<u64> = Vec::new();
        let mut j: usize = 0;
        while j < 8
            invariant
                j <= 8,
                ep_table@.len() == j,
            decreases 8 - j,
        {
            ep_table.push(random_u64());
            j += 1;
        }
        ZorbSet {
            table,
            ep_table,
            black_turn: random_u64(),
            wkc: random_u64(),
            wqc: random_u64(),
            bkc: random_u64(),
            bqc: random_u64(),
        }
    }

    /// The fixed set of keys that boards are hashed with: the SplitMix64 sequence from seed 0,
    /// in the order piece keys, en passant keys, black to move, then the four castling rights.
    pub fn precomputed() -> (r: ZorbSet)
        ensures
            r.wf(),
            r.is_fixed(),
    {
        let mut state: u64 = 0;
        let mut table: Vec<u64> = Vec::new();
        let mut i: usize = 0;
        while i < 768
            invariant
                i <= 768,
                state == mix_state(i as nat),
                table@ == Seq::new(i as nat, |k: int| mix_out(k as nat)),
            decreases 768 - i,
        {
            let (s, v) = splitmix(state);
            state = s;
            table.push(v);
            i += 1;
            assert(table@ =~= Seq::new(i as nat, |k: int| mix_out(k as nat)));
        }
        let mut ep_table: Vec<u64> = Vec::new();
        let mut j: usize = 0;
        while j < 8
            invariant
                j <= 8,
                state == mix_state((768 + j) as nat),
                ep_table@ == Seq::new(j as nat, |k: int| mix_out((768 + k) as nat)),
            decreases 8 - j,
        {
            let (s, v) = splitmix(state);
            state = s;
            ep_table.push(v);
            j += 1;
            assert(ep_table@ =~= Seq::new(j as nat, |k: int| mix_out((768 + k) as nat)));
        }
        assert(state == mix_state(776));
        let (s, black_turn) = splitmix(state);
        assert(s == mix_state(777));
        let (s, wkc) = splitmix(s);
        assert(s == mix_state(778));
        let (s, wqc) = splitmix(s);
        assert(s == mix_state(779));
        let (s, bkc) = splitmix(s);
        assert(s == mix_state(780));
        let (_s, bqc) = splitmix(s);
        ZorbSet { table, ep_table, black_turn, wkc, wqc, bkc, bqc }
    }

    /// The key of the piece (if any) on square `i` of a board, 0 for an empty square.
    pub open spec fn square_key(&self, b: BoardRep, i: int) -> u64 {
        let p = piece_at(b, i);
        if on_sq(b.occupancy, i) && p != PieceType::NoPiece {
            self.table@[i * 12 + piece_zorb_id(p, on_sq(b.black_occupancy, i))]
        } else {
            0
        }
    }

    /// The XOR of the keys of the pieces on squares below `n`.
    pub open spec fn pieces_hash(&self, b: BoardRep, n: nat) -> u64
        decreases n,
    {
        if n == 0 {
            0
        } else {
            self.pieces_hash(b, (n - 1) as nat) ^ self.square_key(b, n - 1)
        }
    }

    /// The hash of a board: the keys of the side to move, its pieces, its castling rights and
    /// its en passant file, combined by XOR.
    pub open spec fn hash_spec(&self, b: BoardRep) -> u64 {
        let h0 = if b.black_turn { self.black_turn } else { 0u64 };
        let h1 = h0 ^ self.pieces_hash(b, 64);
        let h2 = if b.white_king_side_castling { h1 ^ self.wkc } else { h1 };
        let h3 = if b.white_queen_side_castling { h2 ^ self.wqc } else { h2 };
        let h4 = if b.black_king_side_castling { h3 ^ self.bkc } else { h3 };
        let h5 = if b.black_queen_side_castling { h4 ^ self.bqc } else { h4 };
        if b.ep_index != u8::MAX && b.ep_index < 64 {
            h5 ^ self.ep_table@[file_of(b.ep_index as int)]
        } else {
            h5
        }
    }

    /// The Zobrist hash of a board.
    pub fn hash(&self, board: &BoardRep) -> (r: u64)
        requires
            self.wf(),
            board.ep_index == u8::MAX || board.ep_index < 64,
        ensures
            r == self.hash_spec(*board),
    {
        let mut r: u64 = if board.black_turn { self.black_turn } else { 0 };
        let mut acc: u64 = 0;
        let mut position_index: u8 = 0;
        while position_index < 64
            invariant
                position_index <= 64,
                self.wf(),
                acc == self.pieces_hash(*board, position_index as nat),
            decreases 64 - position_index,
        {
            if (board.occupancy >> (position_index as u64)) & 1 == 1 {
                let piece_type = board.get_piece_type_at_index(position_index);
                let is_black = (board.black_occupancy >> (position_index as u64)) & 1 == 1;
                if piece_type != PieceType::NoPiece {
                    let id = (piece_type.to_index() - 1) * 2 + if is_black { 1 } else { 0 };
                    acc = acc ^ self.table[position_index as usize * 12 + id];
                } else {
                    assert(acc ^ 0u64 == acc) by (bit_vector);
                }
            } else {
                assert(acc ^ 0u64 == acc) by (bit_vector);
            }
            position_index = position_index + 1;
        }
        r = r ^ acc;
        if board.white_king_side_castling {
            r = r ^ self.wkc;
        }
        if board.white_queen_side_castling {
            r = r ^ self.wqc;
        }
        if board.black_king_side_castling {
            r = r ^ self.bkc;
        }
        if board.black_queen_side_castling {
            r = r ^ self.bqc;
        }
        if board.ep_index != u8::MAX {
            let f = 7 - (board.ep_index % 8);
            r = r ^ self.ep_table[f as usize];
        }
        r
    }

    /// The hash after one segment: a picked up or placed piece toggles its key; a cleared
    /// castling right (by the square of the rook, or of the king for both) toggles its key;
    /// a double pawn push toggles the key of its file; a cleared en passant file (given by
    /// number) toggles its key.
    pub open spec fn shift_spec(&self, zorb: u64, s: MoveSegment) -> u64 {
        match s.segment_type {
            MoveSegmentType::Pickup | MoveSegmentType::Place => zorb ^ self.table@[s.index as int * 12
                + piece_zorb_id(s.piece_type, s.black_piece)],
            MoveSegmentType::ClearCastling => {
                if s.black_piece {
                    if s.index == 56 {
                        zorb ^ self.bkc
                    } else if s.index == 63 {
                        zorb ^ self.bqc
                    } else if s.index == 59 {
                        zorb ^ self.bkc ^ self.bqc
                    } else {
                        zorb
                    }
                } else {
                    if s.index == 0 {
                        zorb ^ self.wkc
                    } else if s.index == 7 {
                        zorb ^ self.wqc
                    } else if s.index == 3 {
                        zorb ^ self.wkc ^ self.wqc
                    } else {
                        zorb
                    }
                }
            },
            MoveSegmentType::DoublePawnPush => zorb ^ self.ep_table@[file_of(s.index as int)],
            MoveSegmentType::ClearEP => zorb ^ self.ep_table@[s.index as int],
            MoveSegmentType::NoSegment => zorb,
        }
    }

    /// The hash after one segment.
    pub fn shift(&self, zorb: u64, move_segment: MoveSegment) -> (r: u64)
        requires
            self.wf(),
            segment_ok(move_segment),
        ensures
            r == self.shift_spec(zorb, move_segment),
    {
        match move_segment.segment_type {
            MoveSegmentType::Pickup | MoveSegmentType::Place => {
                let piece_zorb_id = ((move_segment.piece_type.to_index()) - 1) * 2 + if move_segment.black_piece {
                    1
                } else {
                    0
                };
                zorb ^ self.table[move_segment.index as usize * 12 + piece_zorb_id]
            },
            MoveSegmentType::ClearCastling => {
                if move_segment.black_piece {
                    match move_segment.index {
                        56 => zorb ^ self.bkc,
                        63 => zorb ^ self.bqc,
                        59 => zorb ^ self.bkc ^ self.bqc,
                        _ => zorb,
                    }
                } else {
                    match move_segment.index {
                        0 => zorb ^ self.wkc,
                        7 => zorb ^ self.wqc,
                        3 => zorb ^ self.wkc ^ self.wqc,
                        _ => zorb,
                    }
                }
            },
            MoveSegmentType::DoublePawnPush => zorb ^ self.ep_table[(7 - move_segment.index % 8) as usize],
            MoveSegmentType::ClearEP => zorb ^ self.ep_table[move_segment.index as usize],
            MoveSegmentType::NoSegment => zorb,
        }
    }

    /// The hash after the segments before the first empty one.
    pub open spec fn shift_all(&self, zorb: u64, segs: Seq<MoveSegment>) -> u64
        decreases segs.len(),
    {
        if segs.len() == 0 || segs[0].segment_type == MoveSegmentType::NoSegment {
            zorb
        } else {
            self.shift_all(self.shift_spec(zorb, segs[0]), segs.drop_first())
        }
    }

    /// The hash after a move's segments and the change of the side to move.
    pub fn apply_segments(&self, zorb: u64, move_segments: &Vec<MoveSegment>) -> (r: u64)
        requires
            self.wf(),
            leading_segments_ok(move_segments@),
        ensures
            r == self.shift_all(zorb, move_segments@) ^ self.black_turn,
    {
        let mut output = zorb;
        let mut i: usize = 0;
        let mut done = false;
        assert(move_segments@.skip(0) =~= move_segments@);
        while i < move_segments.len() && !done
            invariant
                i <= move_segments@.len(),
                self.wf(),
                !done ==> leading_segments_ok(move_segments@.skip(i as int)),
                !done ==> self.shift_all(output, move_segments@.skip(i as int)) == self.shift_all(zorb, move_segments@),
                done ==> output == self.shift_all(zorb, move_segments@),
            decreases move_segments@.len() - i,
        {
            let segment = move_segments[i];
            assert(move_segments@.skip(i as int)[0] == segment);
            if segment.segment_type != MoveSegmentType::NoSegment {
                assert(move_segments@.skip(i as int).drop_first() =~= move_segments@.skip(i + 1));
                output = self.shift(output, segment);
            } else {
                done = true;
            }
            i += 1;
        }
        proof {
            if !done {
                assert(move_segments@.skip(i as int).len() == 0);
            }
        }
        output = output ^ self.black_turn;
        output
    }

    /// The hash with the side to move changed.
    pub fn colour_shift(&self, zorb: u64) -> (r: u64)
        ensures
            r == zorb ^ self.black_turn,
    {
        zorb ^ self.black_turn
    }
}

/// Hashing a segment twice gives the hash back: every segment toggles keys.
pub proof fn law_shift_involution(z: ZorbSet, zorb: u64, s: MoveSegment)
    ensures
        z.shift_spec(z.shift_spec(zorb, s), s) == zorb,
{
    let t = z.table@[s.index as int * 12 + piece_zorb_id(s.piece_type, s.black_piece)];
    let e1 = z.ep_table@[file_of(s.index as int)];
    let e2 = z.ep_table@[s.index as int];
    assert(zorb ^ t ^ t == zorb) by (bit_vector);
    assert(zorb ^ e1 ^ e1 == zorb) by (bit_vector);
    assert(zorb ^ e2 ^ e2 == zorb) by (bit_vector);
    let (a, b, c, d) = (z.wkc, z.wqc, z.bkc, z.bqc);
    assert(zorb ^ a ^ a == zorb) by (bit_vector);
    assert(zorb ^ b ^ b == zorb) by (bit_vector);
    assert(zorb ^ c ^ c == zorb) by (bit_vector);
    assert(zorb ^ d ^ d == zorb) by (bit_vector);
    assert(zorb ^ a ^ b ^ a ^ b == zorb) by (bit_vector);
    assert(zorb ^ c ^ d ^ c ^ d == zorb) by (bit_vector);
}

/// The order of two segments does not change the hash.
pub proof fn law_shift_commutes(z: ZorbSet, zorb: u64, s1: MoveSegment, s2: MoveSegment)
    ensures
        z.shift_spec(z.shift_spec(zorb, s1), s2) == z.shift_spec(z.shift_spec(zorb, s2), s1),
{
    let k1 = z.shift_spec(0, s1);
    let k2 = z.shift_spec(0, s2);
    lemma_shift_is_xor(z, zorb, s1);
    lemma_shift_is_xor(z, zorb, s2);
    lemma_shift_is_xor(z, z.shift_spec(zorb, s1), s2);
    lemma_shift_is_xor(z, z.shift_spec(zorb, s2), s1);
    assert(zorb ^ k1 ^ k2 == zorb ^ k2 ^ k1) by (bit_vector);
}

/// A segment's hash change is an XOR with a key that does not depend on the hash.
pub proof fn lemma_shift_is_xor(z: ZorbSet, zorb: u64, s: MoveSegment)
    ensures
        z.shift_spec(zorb, s) == zorb ^ z.shift_spec(0, s),
{
    let t = z.table@[s.index as int * 12 + piece_zorb_id(s.piece_type, s.black_piece)];
    let e1 = z.ep_table@[file_of(s.index as int)];
    let e2 = z.ep_table@[s.index as int];
    let (a, b, c, d) = (z.wkc, z.wqc, z.bkc, z.bqc);
    assert(0u64 ^ t == t) by (bit_vector);
    assert(0u64 ^ e1 == e1) by (bit_vector);
    assert(0u64 ^ e2 == e2) by (bit_vector);
    assert(0u64 ^ a == a && 0u64 ^ b == b && 0u64 ^ c == c && 0u64 ^ d == d) by (bit_vector);
    assert(0u64 ^ a ^ b == a ^ b && zorb ^ a ^ b == zorb ^ (a ^ b)) by (bit_vector);
    assert(0u64 ^ c ^ d == c ^ d && zorb ^ c ^ d == zorb ^ (c ^ d)) by (bit_vector);
    assert(zorb ^ 0u64 == zorb) by (bit_vector);
}

/// Changing the side to move twice gives the hash back.
pub proof fn law_colour_shift_involution(z: ZorbSet, zorb: u64)
    ensures
        (zorb ^ z.black_turn) ^ z.black_turn == zorb,
{
    let k = z.black_turn;
    assert((zorb ^ k) ^ k == zorb) by (bit_vector);
}

} // verus!

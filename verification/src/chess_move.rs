use vstd::prelude::*;
use crate::piece_type::PieceType;
use crate::attacked_by::{AttackedBy, can_remove};
use crate::see::{see_from_capture, see_from_capture_spec};
use crate::board_utils::{get_coords_from_index, coords_spec};
use crate::text::{push_char, push_str};
use crate::constants::{
    MF_BISHOP_CAPTURE_PROMOTION, MF_BISHOP_PROMOTION, MF_CAPTURE, MF_DOUBLE_PAWN_PUSH, MF_EP_CAPTURE,
    MF_KING_CASTLING, MF_KNIGHT_CAPTURE_PROMOTION, MF_KNIGHT_PROMOTION, MF_PROMOTION,
    MF_QUEEN_CAPTURE_PROMOTION, MF_QUEEN_CASTLING, MF_QUEEN_PROMOTION, MF_ROOK_CAPTURE_PROMOTION,
    MF_ROOK_PROMOTION,
};

verus! {

/// A move: the from square, the to square and the flags packed in a `u16`
/// (`from << 10 | to << 4 | flags`), the moving piece's type, its colour, the exchange value
/// the move was generated with, and how much the move improves the piece's square score.
#[derive(Clone, Copy, Debug)]
pub struct Move(u16, PieceType, bool, i8, i16);

impl PartialEq for Move {
    fn eq(&self, other: &Self) -> (r: bool) {
        self.0 == other.0 && self.1 == other.1 && self.2 == other.2
    }
}

impl vstd::std_specs::cmp::PartialEqSpecImpl for Move {
    open spec fn obeys_eq_spec() -> bool {
        true
    }

    open spec fn eq_spec(&self, other: &Self) -> bool {
        self.code() == other.code() && self.piece_spec() == other.piece_spec() && self.black_spec() == other.black_spec()
    }
}

impl Eq for Move {}

/// The packed squares and flags of a move.
pub open spec fn pack(from: u8, to: u8, flags: u16) -> u16 {
    ((from as u16) << 10u16) | ((to as u16) << 4u16) | flags
}

/// The promotion letter of a move in UCI notation ("" for a move that promotes nothing).
pub open spec fn promotion_suffix(flags: u16) -> Seq<char> {
    if flags == MF_KNIGHT_PROMOTION || flags == MF_KNIGHT_CAPTURE_PROMOTION {
        seq!['n']
    } else if flags == MF_BISHOP_PROMOTION || flags == MF_BISHOP_CAPTURE_PROMOTION {
        seq!['b']
    } else if flags == MF_ROOK_PROMOTION || flags == MF_ROOK_CAPTURE_PROMOTION {
        seq!['r']
    } else if flags == MF_QUEEN_PROMOTION || flags == MF_QUEEN_CAPTURE_PROMOTION {
        seq!['q']
    } else {
        seq![]
    }
}

proof fn lemma_pack(from: u8, to: u8, flags: u16)
    requires
        from < 64,
        to < 64,
        flags < 16,
    ensures
        pack(from, to, flags) >> 10u16 == from as u16,
        (pack(from, to, flags) >> 4u16) & 63u16 == to as u16,
        pack(from, to, flags) & 15u16 == flags,
{
    let f = from as u16;
    let t = to as u16;
    assert(((f << 10u16) | (t << 4u16) | flags) >> 10u16 == f) by (bit_vector)
        requires f < 64, t < 64, flags < 16;
    assert((((f << 10u16) | (t << 4u16) | flags) >> 4u16) & 63u16 == t) by (bit_vector)
        requires f < 64, t < 64, flags < 16;
    assert(((f << 10u16) | (t << 4u16) | flags) & 15u16 == flags) by (bit_vector)
        requires f < 64, t < 64, flags < 16;
}

impl Move {
    /// The packed squares and flags.
    pub closed spec fn code(self) -> u16 {
        self.0
    }

    /// The from square.
    pub closed spec fn from_spec(self) -> u8 {
        (self.0 >> 10u16) as u8
    }

    /// The to square.
    pub closed spec fn to_spec(self) -> u8 {
        ((self.0 >> 4u16) & 63u16) as u8
    }

    /// The flags.
    pub closed spec fn flags_spec(self) -> u16 {
        self.0 & 15u16
    }

    /// The moving piece's type.
    pub closed spec fn piece_spec(self) -> PieceType {
        self.1
    }

    /// Whether the moving piece is black.
    pub closed spec fn black_spec(self) -> bool {
        self.2
    }

    /// The exchange value the move was generated with.
    pub closed spec fn see_spec(self) -> i8 {
        self.3
    }

    /// The square-score improvement of the move.
    pub closed spec fn delta_spec(self) -> i16 {
        self.4
    }

    /// The squares of a move lie on the board and its flags in four bits.
    pub proof fn lemma_parts_bounded(self)
        ensures
            self.from_spec() < 64,
            self.to_spec() < 64,
            self.flags_spec() < 16,
    {
        let c = self.0;
        assert(c >> 10u16 < 64u16) by (bit_vector);
        assert((c >> 4u16) & 63u16 < 64u16) by (bit_vector);
        assert(c & 15u16 < 16u16) by (bit_vector);
    }

    /// Whether the flags mark a capture (plain, en passant or with promotion).
    pub open spec fn capture_spec(self) -> bool {
        self.flags_spec() & MF_CAPTURE == MF_CAPTURE
    }

    /// A move from its parts.
    pub fn new(
        from_index: u8,
        to_index: u8,
        flags: u16,
        piece_type: PieceType,
        is_black: bool,
        see_value: i8,
        square_delta: i16,
    ) -> (r: Move)
        ensures
            r.code() == pack(from_index, to_index, flags),
            r.piece_spec() == piece_type,
            r.black_spec() == is_black,
            r.see_spec() == see_value,
            r.delta_spec() == square_delta,
            from_index < 64 && to_index < 64 && flags < 16 ==> {
                &&& r.from_spec() == from_index
                &&& r.to_spec() == to_index
                &&& r.flags_spec() == flags
            },
    {
        proof {
            if from_index < 64 && to_index < 64 && flags < 16 {
                lemma_pack(from_index, to_index, flags);
            }
        }
        let f: u16 = from_index as u16;
        let t: u16 = to_index as u16;
        let m: u16 = f << 10 | t << 4 | flags;
        Move(m, piece_type, is_black, see_value, square_delta)
    }

    /// The empty move: all parts zero, no piece.
    /// The empty move.
    pub closed spec fn empty_spec() -> Move {
        Move(0, PieceType::NoPiece, false, 0, 0)
    }

    pub fn empty() -> (r: Move)
        ensures
            r == Move::empty_spec(),
            r.code() == 0,
            r.piece_spec() == PieceType::NoPiece,
            !r.black_spec(),
            r.see_spec() == 0,
            r.delta_spec() == 0,
    {
        Move(0, PieceType::NoPiece, false, 0, 0)
    }

    /// A capture, valued by the exchange evaluation of the attackers and defenders of the
    /// to square.
    pub fn capture_move(
        from_index: u8,
        to_index: u8,
        attacker_piece_type: PieceType,
        attacked_piece_type: PieceType,
        is_black: bool,
        friendly_attacked_by: AttackedBy,
        opponent_attacked_by: AttackedBy,
        square_delta: i16,
    ) -> (r: Move)
        requires
            can_remove(friendly_attacked_by, attacker_piece_type),
        ensures
            r.code() == pack(from_index, to_index, MF_CAPTURE),
            r.piece_spec() == attacker_piece_type,
            r.black_spec() == is_black,
            r.see_spec() == see_from_capture_spec(
                attacker_piece_type,
                friendly_attacked_by,
                attacked_piece_type,
                opponent_attacked_by,
            ),
            r.delta_spec() == square_delta,
            from_index < 64 && to_index < 64 ==> {
                &&& r.from_spec() == from_index
                &&& r.to_spec() == to_index
                &&& r.flags_spec() == MF_CAPTURE
            },
    {
        let see_value = see_from_capture(
            attacker_piece_type,
            friendly_attacked_by,
            attacked_piece_type,
            opponent_attacked_by,
        );
        Move::new(from_index, to_index, MF_CAPTURE, attacker_piece_type, is_black, see_value, square_delta)
    }

    /// The from square.
    pub fn from(&self) -> (r: u8)
        ensures
            r == self.from_spec(),
            r < 64,
    {
        let v = self.0 >> 10;
        let ghost c = self.0;
        assert(c >> 10u16 < 64) by (bit_vector);
        v as u8
    }

    /// The to square.
    pub fn to(&self) -> (r: u8)
        ensures
            r == self.to_spec(),
            r < 64,
    {
        let v = (self.0 >> 4) & 0b111111;
        let ghost c = self.0;
        assert((c >> 4u16) & 63u16 < 64) by (bit_vector);
        v as u8
    }

    /// The flags.
    pub fn flags(&self) -> (r: u16)
        ensures
            r == self.flags_spec(),
            r < 16,
    {
        let c = self.0;
        assert(c & 15u16 < 16) by (bit_vector);
        c & 0b1111
    }

    /// The moving piece's type.
    pub fn piece_type(&self) -> (r: PieceType)
        ensures
            r == self.piece_spec(),
    {
        self.1
    }

    /// Whether the moving piece is black.
    pub fn is_black(&self) -> (r: bool)
        ensures
            r == self.black_spec(),
    {
        self.2
    }

    /// Whether the move castles.
    pub fn is_castling(&self) -> (r: bool)
        ensures
            r == (self.flags_spec() == MF_KING_CASTLING || self.flags_spec() == MF_QUEEN_CASTLING),
    {
        self.flags() == MF_KING_CASTLING || self.flags() == MF_QUEEN_CASTLING
    }

    /// Whether the move castles on the king side.
    pub fn is_king_castling(&self) -> (r: bool)
        ensures
            r == (self.flags_spec() == MF_KING_CASTLING),
    {
        self.flags() == MF_KING_CASTLING
    }

    /// Whether the move promotes.
    pub fn is_promotion(&self) -> (r: bool)
        ensures
            r == (self.flags_spec() & MF_PROMOTION == MF_PROMOTION),
    {
        self.flags() & MF_PROMOTION == MF_PROMOTION
    }

    /// Whether the move captures (plainly, en passant or with promotion).
    pub fn is_capture(&self) -> (r: bool)
        ensures
            r == self.capture_spec(),
    {
        self.flags() & MF_CAPTURE == MF_CAPTURE
    }

    /// Whether the move captures en passant.
    pub fn is_ep_capture(&self) -> (r: bool)
        ensures
            r == (self.flags_spec() == MF_EP_CAPTURE),
    {
        self.flags() == MF_EP_CAPTURE
    }

    /// Whether the move is a pawn's double step.
    pub fn is_double_pawn_push(&self) -> (r: bool)
        ensures
            r == (self.flags_spec() == MF_DOUBLE_PAWN_PUSH),
    {
        self.flags() == MF_DOUBLE_PAWN_PUSH
    }

    /// Whether the move's exchange value is zero.
    pub fn is_quiet(&self) -> (r: bool)
        ensures
            r == (self.see_spec() == 0),
    {
        self.3 == 0
    }

    /// The exchange value the move was generated with.
    pub fn see(&self) -> (r: i8)
        ensures
            r == self.see_spec(),
    {
        self.3
    }

    /// The square-score improvement of the move.
    pub fn square_delta(&self) -> (r: i16)
        ensures
            r == self.delta_spec(),
    {
        self.4
    }

    /// The move in UCI notation, such as "e2e4" or "a7a8q".
    pub fn uci(&self) -> (r: String)
        ensures
            r@ == coords_spec(self.from_spec() as int) + coords_spec(self.to_spec() as int)
                + promotion_suffix(self.flags_spec()),
    {
        let flags = self.flags();
        let mut s = get_coords_from_index(self.from());
        let to = get_coords_from_index(self.to());
        push_str(&mut s, to.as_str());
        let ghost before = s@;
        if flags == MF_KNIGHT_PROMOTION || flags == MF_KNIGHT_CAPTURE_PROMOTION {
            push_char(&mut s, 'n');
        } else if flags == MF_BISHOP_PROMOTION || flags == MF_BISHOP_CAPTURE_PROMOTION {
            push_char(&mut s, 'b');
        } else if flags == MF_ROOK_PROMOTION || flags == MF_ROOK_CAPTURE_PROMOTION {
            push_char(&mut s, 'r');
        } else if flags == MF_QUEEN_PROMOTION || flags == MF_QUEEN_CAPTURE_PROMOTION {
            push_char(&mut s, 'q');
        }
        assert(s@ =~= before + promotion_suffix(flags));
        s
    }

    /// Whether the packed squares and flags are all zero.
    pub fn is_empty(&self) -> (r: bool)
        ensures
            r == (self.code() == 0),
    {
        self.0 == 0
    }
}

impl Default for Move {
    fn default() -> (r: Move)
        ensures
            r.code() == 0,
            r.piece_spec() == PieceType::NoPiece,
            !r.black_spec(),
            r.see_spec() == 0,
            r.delta_spec() == 0,
    {
        Move::empty()
    }
}

/// The order in which moves are searched: -1 when `a` comes before `b`, 1 when after, 0 when
/// neither. Better exchange value first; then captures before other moves, captures by the
/// less valuable piece first; then higher flags first (promotions, en passant, captures,
/// castling, double steps, quiet moves); then the larger square-score improvement first.
pub open spec fn move_order(a: Move, b: Move) -> int {
    if a.see_spec() != b.see_spec() {
        if b.see_spec() < a.see_spec() { -1 } else { 1 }
    } else if a.capture_spec() {
        if !b.capture_spec() {
            -1
        } else {
            let pa = crate::piece_type::piece_index(a.piece_spec());
            let pb = crate::piece_type::piece_index(b.piece_spec());
            if pa < pb { -1 } else if pa > pb { 1 } else { 0 }
        }
    } else if b.capture_spec() {
        1
    } else if a.flags_spec() != b.flags_spec() {
        if b.flags_spec() < a.flags_spec() { -1 } else { 1 }
    } else if b.delta_spec() < a.delta_spec() {
        -1
    } else if b.delta_spec() > a.delta_spec() {
        1
    } else {
        0
    }
}

/// Compares two moves in search order: -1 when `a` comes first, 1 when `b` does, 0 when neither.
pub fn compare_moves(a: &Move, b: &Move) -> (r: i8)
    ensures
        r == move_order(*a, *b),
{
    if a.3 != b.3 {
        return if b.3 < a.3 { -1 } else { 1 };
    }
    if a.is_capture() {
        if !b.is_capture() {
            return -1;
        }
        let pa = a.1.to_index();
        let pb = b.1.to_index();
        return if pa < pb { -1 } else if pa > pb { 1 } else { 0 };
    }
    if b.is_capture() {
        return 1;
    }
    let fa = a.flags();
    let fb = b.flags();
    if fa != fb {
        return if fb < fa { -1 } else { 1 };
    }
    if b.4 < a.4 {
        -1
    } else if b.4 > a.4 {
        1
    } else {
        0
    }
}

/// The search order is antisymmetric.
pub proof fn law_move_order_antisymmetric(a: Move, b: Move)
    ensures
        move_order(a, b) == -move_order(b, a),
{
}

/// The search order is transitive: it is a strict weak order, so any stable sort gives one result.
pub proof fn law_move_order_transitive(a: Move, b: Move, c: Move)
    requires
        move_order(a, b) == -1,
        move_order(b, c) == -1,
    ensures
        move_order(a, c) == -1,
{
}

/// Moves in search order: no move is placed after a move that must come later.
pub open spec fn sorted_moves(s: Seq<Move>) -> bool {
    forall|i: int, j: int| 0 <= i < j < s.len() ==> move_order(s[j], s[i]) != -1
}

/// "Not after" in the search order is transitive.
pub proof fn law_move_order_not_after_transitive(a: Move, b: Move, c: Move)
    requires
        move_order(a, b) != -1,
        move_order(b, c) != -1,
    ensures
        move_order(a, c) != -1,
{
}

/// Sorts moves into search order, keeping the order of moves that compare equal.
pub fn sort_moves(moves: &mut Vec<Move>)
    ensures
        final(moves)@.to_multiset() == old(moves)@.to_multiset(),
        final(moves)@.len() == old(moves)@.len(),
        sorted_moves(final(moves)@),
{
    broadcast use vstd::seq_lib::to_multiset_update, vstd::multiset::group_multiset_axioms;
    let n = moves.len();
    if n == 0 {
        return;
    }
    let mut i: usize = 1;
    while i < n
        invariant
            1 <= i <= n,
            n == moves@.len(),
            moves@.to_multiset() == old(moves)@.to_multiset(),
            forall|a: int, b: int| 0 <= a < b < i ==> move_order(moves@[b], moves@[a]) != -1,
        decreases n - i,
    {
        let mut j: usize = i;
        while j > 0 && compare_moves(&moves[j], &moves[j - 1]) == -1
            invariant
                0 <= j <= i < n,
                n == moves@.len(),
                moves@.to_multiset() == old(moves)@.to_multiset(),
                forall|a: int, b: int| 0 <= a < b <= i && a != j && b != j ==> move_order(moves@[b], moves@[a]) != -1,
                forall|b: int| j < b <= i ==> move_order(moves@[j as int], moves@[b]) == -1,
            decreases j,
        {
            let x = moves[j];
            let y = moves[j - 1];
            let ghost s0 = moves@;
            moves.set(j, y);
            moves.set(j - 1, x);
            proof {
                let s1 = s0.update(j as int, y);
                vstd::seq_lib::to_multiset_update(s0, j as int, y);
                vstd::seq_lib::to_multiset_update(s1, j - 1, x);
                assert(moves@ == s1.update(j - 1, x));
                assert(moves@.to_multiset() == s1.to_multiset().insert(x).remove(y));
                assert(s0[j as int] == x);
                vstd::seq_lib::to_multiset_contains(s0, x);
                assert(s0.to_multiset().count(x) > 0);
                let m0 = s0.to_multiset();
                assert forall|v: Move| #[trigger] moves@.to_multiset().count(v) == m0.count(v) by {
                    if v == x && v == y {
                    } else if v == x {
                    } else if v == y {
                    }
                }
                assert(moves@.to_multiset() =~= s0.to_multiset());
            }
            j = j - 1;
        }
        proof {
            assert forall|a: int, b: int| 0 <= a < b < i + 1 implies move_order(moves@[b], moves@[a]) != -1 by {
                if b == j as int {
                    if move_order(moves@[b], moves@[a]) == -1 {
                        law_move_order_antisymmetric(moves@[b], moves@[a]);
                        if a < j - 1 {
                            law_move_order_not_after_transitive(moves@[b], moves@[j - 1], moves@[a]);
                        }
                    }
                } else if a == j as int {
                    law_move_order_antisymmetric(moves@[a], moves@[b]);
                }
            }
        }
        i = i + 1;
    }
}

/// Moves with the same code, piece and colour have the same squares and flags.
pub proof fn lemma_same_code_same_fields(a: Move, b: Move)
    requires
        a.code() == b.code(),
    ensures
        a.from_spec() == b.from_spec(),
        a.to_spec() == b.to_spec(),
        a.flags_spec() == b.flags_spec(),
{
}

/// Packing squares and flags into a move and reading them back gives them unchanged.
pub proof fn law_move_round_trip(from: u8, to: u8, flags: u16)
    requires
        from < 64,
        to < 64,
        flags < 16,
    ensures
        (pack(from, to, flags) >> 10u16) as u8 == from,
        ((pack(from, to, flags) >> 4u16) & 63u16) as u8 == to,
        pack(from, to, flags) & 15u16 == flags,
{
    lemma_pack(from, to, flags);
}

} // verus!

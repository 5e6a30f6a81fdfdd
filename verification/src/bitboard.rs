use vstd::prelude::*;
use crate::text::push_char;

verus! {

/// The bitboard that holds only square `i`.
pub open spec fn bit(i: int) -> u64 {
    1u64 << (i as u64)
}

/// Whether square `i` is set in bitboard `b`.
pub open spec fn on_sq(b: u64, i: int) -> bool {
    (b >> (i as u64)) & 1u64 == 1u64
}

/// The number of squares below `n` that are set in `b`.
pub open spec fn popcount_upto(b: u64, n: nat) -> nat
    decreases n,
{
    if n == 0 {
        0
    } else {
        popcount_upto(b, (n - 1) as nat) + if on_sq(b, n - 1) { 1nat } else { 0nat }
    }
}

/// The number of squares set in a bitboard.
pub open spec fn popcount(b: u64) -> nat {
    popcount_upto(b, 64)
}

/// A bitboard turned by 180 degrees: square `i` goes to square `63 - i`.
pub open spec fn rotated_180(b: u64, r: u64) -> bool {
    forall|i: u64| i < 64 ==> #[trigger] ((r >> i) & 1u64) == (b >> ((63u64 - i) as u64)) & 1u64
}

/// A bitboard mirrored about the centre files: the a-file and the h-file swap.
pub open spec fn mirrored(b: u64, r: u64) -> bool {
    forall|i: u64| i < 64 ==> #[trigger] ((r >> i) & 1u64) == (b >> (i ^ 7u64)) & 1u64
}

/// The characters of one rank in the board format: "0b", then the eight squares from
/// the a-file to the h-file as '1' or '0', then a line feed.
pub open spec fn rank_line(byte: u8) -> Seq<char> {
    seq!['0', 'b'] + Seq::new(8, |k: int| if (byte >> ((7 - k) as u8)) & 1u8 == 1u8 { '1' } else { '0' })
        + seq!['\n']
}

/// The lines of ranks `rank` down to the first rank.
pub open spec fn board_lines(b: u64, rank: int) -> Seq<char>
    decreases rank + 1,
{
    if rank < 0 {
        seq![]
    } else {
        rank_line(((b >> ((rank * 8) as u64)) & 255u64) as u8) + board_lines(b, rank - 1)
    }
}

pub proof fn lemma_on_sq_bit(i: u64, j: u64)
    requires
        i < 64,
        j < 64,
    ensures
        on_sq(1u64 << j, i as int) <==> i == j,
{
    assert(((1u64 << j) >> i) & 1u64 == 1u64 <==> i == j) by (bit_vector)
        requires i < 64, j < 64;
}

/// How `|`, `&`, `^` and `!` act on one bit.
proof fn lemma_bit_ops(a: u64, b: u64, i: u64)
    by (bit_vector)
    requires
        i < 64,
    ensures
        ((a | b) >> i) & 1u64 == 1u64 <==> (a >> i) & 1u64 == 1u64 || (b >> i) & 1u64 == 1u64,
        ((a & b) >> i) & 1u64 == 1u64 <==> (a >> i) & 1u64 == 1u64 && (b >> i) & 1u64 == 1u64,
        ((a ^ b) >> i) & 1u64 == 1u64 <==> ((a >> i) & 1u64 == 1u64) != ((b >> i) & 1u64 == 1u64),
        ((!a) >> i) & 1u64 == 1u64 <==> !((a >> i) & 1u64 == 1u64),
{
}

pub proof fn lemma_on_sq_or(a: u64, b: u64, i: u64)
    requires
        i < 64,
    ensures
        on_sq(a | b, i as int) <==> on_sq(a, i as int) || on_sq(b, i as int),
{
    lemma_bit_ops(a, b, i);
}

pub proof fn lemma_on_sq_and(a: u64, b: u64, i: u64)
    requires
        i < 64,
    ensures
        on_sq(a & b, i as int) <==> on_sq(a, i as int) && on_sq(b, i as int),
{
    lemma_bit_ops(a, b, i);
}

pub proof fn lemma_on_sq_xor(a: u64, b: u64, i: u64)
    requires
        i < 64,
    ensures
        on_sq(a ^ b, i as int) <==> (on_sq(a, i as int) != on_sq(b, i as int)),
{
    lemma_bit_ops(a, b, i);
}

pub proof fn lemma_on_sq_not(a: u64, i: u64)
    requires
        i < 64,
    ensures
        on_sq(!a, i as int) <==> !on_sq(a, i as int),
{
    lemma_bit_ops(a, a, i);
}

pub proof fn lemma_on_sq_shr(a: u64, k: u64, i: u64)
    requires
        k < 64,
        i < 64,
    ensures
        on_sq(a >> k, i as int) <==> (i + k < 64 && on_sq(a, (i + k) as int)),
{
    assert(((a >> k) >> i) & 1u64 == 1u64 <==> (i + k < 64 && (a >> ((i + k) as u64)) & 1u64 == 1u64)) by (bit_vector)
        requires k < 64, i < 64;
}

pub proof fn lemma_on_sq_shl(a: u64, k: u64, i: u64)
    requires
        k < 64,
        i < 64,
    ensures
        on_sq(a << k, i as int) <==> (i >= k && on_sq(a, (i - k) as int)),
{
    assert(((a << k) >> i) & 1u64 == 1u64 <==> (i >= k && (a >> ((i - k) as u64)) & 1u64 == 1u64)) by (bit_vector)
        requires k < 64, i < 64;
}

pub proof fn lemma_zero_has_nothing(i: u64)
    requires
        i < 64,
    ensures
        !on_sq(0u64, i as int),
{
    assert((0u64 >> i) & 1u64 != 1u64) by (bit_vector);
}

/// A bitboard is empty exactly when none of its squares is set.
pub proof fn lemma_zero_iff_no_square(a: u64)
    ensures
        a == 0 <==> forall|i: u64| i < 64 ==> !#[trigger] on_sq(a, i as int),
{
    if a != 0 {
        assert(exists|i: u64| i < 64 && (a >> i) & 1u64 == 1u64) by {
            let tz = a.trailing_zeros();
            vstd::std_specs::bits::axiom_u64_trailing_zeros(a);
            assert((a >> (tz as u64)) & 1u64 == 1u64);
        }
        let i = choose|i: u64| i < 64 && (a >> i) & 1u64 == 1u64;
        assert(on_sq(a, i as int));
    } else {
        assert forall|i: u64| i < 64 implies !#[trigger] on_sq(a, i as int) by {
            lemma_zero_has_nothing(i);
        }
    }
}

/// The number of squares set in `b`.
pub fn count_squares(b: u64) -> (r: u8)
    ensures
        r == popcount(b),
        r <= 64,
{
    let mut c: u8 = 0;
    let mut i: u64 = 0;
    while i < 64
        invariant
            i <= 64,
            c == popcount_upto(b, i as nat),
            c <= i,
        decreases 64 - i,
    {
        if (b >> i) & 1 == 1 {
            c = c + 1;
        }
        i = i + 1;
    }
    c
}

/// The bits of one rank in the board format.
fn push_rank_line(s: &mut String, byte: u8)
    ensures
        final(s)@ == old(s)@ + rank_line(byte),
{
    push_char(s, '0');
    push_char(s, 'b');
    let ghost start = s@;
    let mut k: u8 = 0;
    while k < 8
        invariant
            k <= 8,
            s@ == start + Seq::new(k as nat, |j: int| if (byte >> ((7 - j) as u8)) & 1u8 == 1u8 { '1' } else { '0' }),
        decreases 8 - k,
    {
        let c = if (byte >> (7 - k)) & 1 == 1 { '1' } else { '0' };
        push_char(s, c);
        k = k + 1;
        assert(s@ =~= start + Seq::new(k as nat, |j: int| if (byte >> ((7 - j) as u8)) & 1u8 == 1u8 { '1' } else { '0' }));
    }
    push_char(s, '\n');
    assert(s@ =~= old(s)@ + rank_line(byte));
}

/// Operations on a bitboard, a 64-square board held in the bits of a `u64`.
pub trait Bitboard: Sized {
    /// The squares of the bitboard.
    spec fn bits(&self) -> u64;

    /// Whether square `index` is set.
    fn occupied(&self, index: u8) -> (r: bool)
        requires
            index < 64,
        ensures
            r == on_sq(self.bits(), index as int),
    ;

    /// The bitboard with square `index` toggled.
    fn flip(&self, index: u8) -> (r: u64)
        requires
            index < 64,
        ensures
            r == self.bits() ^ (1u64 << index),
    ;

    /// The bitboard with square `index` set.
    fn set(&self, index: u8) -> (r: u64)
        requires
            index < 64,
        ensures
            r == self.bits() | (1u64 << index),
    ;

    /// The number of squares set.
    fn count_occupied(&self) -> (r: u8)
        ensures
            r == popcount(self.bits()),
    ;

    /// The eight squares of a rank as a byte, the h-file in the lowest bit.
    fn get_rank(&self, rank: u8) -> (r: u8)
        requires
            rank < 8,
        ensures
            r == (self.bits() >> ((rank * 8) as u64)) & 255u64,
    ;

    /// The bitboard with the `file`-th bit column set on every rank.
    fn set_file(&self, file: u8) -> (r: u64)
        requires
            file < 64,
        ensures
            r == self.bits() | (0x0101010101010101u64 << file),
    ;

    /// The bitboard with every square of a rank set.
    fn set_rank(&self, rank: u8) -> (r: u64)
        requires
            rank < 8,
        ensures
            r == self.bits() | (0xffu64 << (8 * rank)),
    ;

    /// The board as eight lines "0b........", from the eighth rank down to the first.
    fn to_board_format(&self) -> (r: String)
        ensures
            r@ == board_lines(self.bits(), 7),
    ;

    /// The bitboard turned by 180 degrees.
    fn rotate_180(&self) -> (r: u64)
        ensures
            rotated_180(self.bits(), r),
    ;

    /// The bitboard mirrored about the centre files.
    fn mirror_horizontally(&self) -> (r: Self)
        ensures
            mirrored(self.bits(), r.bits()),
    ;
}

impl Bitboard for u64 {
    open spec fn bits(&self) -> u64 {
        *self
    }

    fn occupied(&self, index: u8) -> (r: bool) {
        (*self >> index) & 1 == 1
    }

    fn flip(&self, index: u8) -> (r: u64) {
        *self ^ (1u64 << index)
    }

    fn set(&self, index: u8) -> (r: u64) {
        *self | (1u64 << index)
    }

    fn count_occupied(&self) -> (r: u8) {
        count_squares(*self)
    }

    fn get_rank(&self, rank: u8) -> (r: u8) {
        let x = *self;
        let v = (x >> (rank * 8) as u64) & 255;
        assert(v <= 255) by (bit_vector)
            requires v == (x >> ((rank * 8) as u64)) & 255u64;
        v as u8
    }

    fn set_file(&self, file: u8) -> (r: u64) {
        *self | (0x0101010101010101u64 << file)
    }

    fn set_rank(&self, rank: u8) -> (r: u64) {
        *self | (0xffu64 << (8 * rank))
    }

    fn to_board_format(&self) -> (r: String) {
        let mut s = String::new();
        let mut rank: u8 = 8;
        while rank > 0
            invariant
                rank <= 8,
                s@ + board_lines(*self, rank as int - 1) == board_lines(*self, 7),
            decreases rank,
        {
            rank = rank - 1;
            let byte = self.get_rank(rank);
            let ghost before = s@;
            push_rank_line(&mut s, byte);
            assert(board_lines(*self, rank as int) == rank_line(byte) + board_lines(*self, rank as int - 1));
            assert(before + board_lines(*self, rank as int) =~= s@ + board_lines(*self, rank as int - 1));
        }
        assert(board_lines(*self, -1) =~= Seq::<char>::empty());
        assert(s@ =~= board_lines(*self, 7));
        s
    }

    fn rotate_180(&self) -> (r: u64) {
        let x = *self;
        let mut r = x;
        r = ((r >> 1) & 0x5555555555555555u64) | ((r & 0x5555555555555555u64) << 1);
        r = ((r >> 2) & 0x3333333333333333u64) | ((r & 0x3333333333333333u64) << 2);
        r = ((r >> 4) & 0x0F0F0F0F0F0F0F0Fu64) | ((r & 0x0F0F0F0F0F0F0F0Fu64) << 4);
        r = ((r >> 8) & 0x00FF00FF00FF00FFu64) | ((r & 0x00FF00FF00FF00FFu64) << 8);
        r = ((r >> 16) & 0x0000FFFF0000FFFFu64) | ((r & 0x0000FFFF0000FFFFu64) << 16);
        r = (r >> 32) | (r << 32);
        proof {
            lemma_rotate_180(x);
        }
        r
    }

    fn mirror_horizontally(&self) -> (r: u64) {
        let x = *self;
        let mut r = x;
        r = ((r >> 1) & 0x5555555555555555u64) | ((r & 0x5555555555555555u64) << 1);
        r = ((r >> 2) & 0x3333333333333333u64) | ((r & 0x3333333333333333u64) << 2);
        r = ((r >> 4) & 0x0f0f0f0f0f0f0f0fu64) | ((r & 0x0f0f0f0f0f0f0f0fu64) << 4);
        proof {
            lemma_mirror(x);
        }
        r
    }
}

proof fn lemma_rotate_180(x: u64)
    ensures
        rotated_180(
            x,
            ({
                let r1 = ((x >> 1) & 0x5555555555555555u64) | ((x & 0x5555555555555555u64) << 1);
                let r2 = ((r1 >> 2) & 0x3333333333333333u64) | ((r1 & 0x3333333333333333u64) << 2);
                let r3 = ((r2 >> 4) & 0x0F0F0F0F0F0F0F0Fu64) | ((r2 & 0x0F0F0F0F0F0F0F0Fu64) << 4);
                let r4 = ((r3 >> 8) & 0x00FF00FF00FF00FFu64) | ((r3 & 0x00FF00FF00FF00FFu64) << 8);
                let r5 = ((r4 >> 16) & 0x0000FFFF0000FFFFu64) | ((r4 & 0x0000FFFF0000FFFFu64) << 16);
                (r5 >> 32) | (r5 << 32)
            }),
        ),
{
    let r1 = ((x >> 1) & 0x5555555555555555u64) | ((x & 0x5555555555555555u64) << 1);
    let r2 = ((r1 >> 2) & 0x3333333333333333u64) | ((r1 & 0x3333333333333333u64) << 2);
    let r3 = ((r2 >> 4) & 0x0F0F0F0F0F0F0F0Fu64) | ((r2 & 0x0F0F0F0F0F0F0F0Fu64) << 4);
    let r4 = ((r3 >> 8) & 0x00FF00FF00FF00FFu64) | ((r3 & 0x00FF00FF00FF00FFu64) << 8);
    let r5 = ((r4 >> 16) & 0x0000FFFF0000FFFFu64) | ((r4 & 0x0000FFFF0000FFFFu64) << 16);
    let r = (r5 >> 32) | (r5 << 32);
    assert forall|i: u64| i < 64 implies #[trigger] ((r >> i) & 1u64) == (x >> ((63u64 - i) as u64)) & 1u64 by {
        assert(((r >> i) & 1u64) == (x >> ((63u64 - i) as u64)) & 1u64) by (bit_vector)
            requires
                i < 64,
                r1 == ((x >> 1) & 0x5555555555555555u64) | ((x & 0x5555555555555555u64) << 1),
                r2 == ((r1 >> 2) & 0x3333333333333333u64) | ((r1 & 0x3333333333333333u64) << 2),
                r3 == ((r2 >> 4) & 0x0F0F0F0F0F0F0F0Fu64) | ((r2 & 0x0F0F0F0F0F0F0F0Fu64) << 4),
                r4 == ((r3 >> 8) & 0x00FF00FF00FF00FFu64) | ((r3 & 0x00FF00FF00FF00FFu64) << 8),
                r5 == ((r4 >> 16) & 0x0000FFFF0000FFFFu64) | ((r4 & 0x0000FFFF0000FFFFu64) << 16),
                r == (r5 >> 32) | (r5 << 32);
    }
}

proof fn lemma_mirror(x: u64)
    ensures
        mirrored(
            x,
            ({
                let r1 = ((x >> 1) & 0x5555555555555555u64) | ((x & 0x5555555555555555u64) << 1);
                let r2 = ((r1 >> 2) & 0x3333333333333333u64) | ((r1 & 0x3333333333333333u64) << 2);
                ((r2 >> 4) & 0x0f0f0f0f0f0f0f0fu64) | ((r2 & 0x0f0f0f0f0f0f0f0fu64) << 4)
            }),
        ),
{
    let r1 = ((x >> 1) & 0x5555555555555555u64) | ((x & 0x5555555555555555u64) << 1);
    let r2 = ((r1 >> 2) & 0x3333333333333333u64) | ((r1 & 0x3333333333333333u64) << 2);
    let r = ((r2 >> 4) & 0x0f0f0f0f0f0f0f0fu64) | ((r2 & 0x0f0f0f0f0f0f0f0fu64) << 4);
    assert forall|i: u64| i < 64 implies #[trigger] ((r >> i) & 1u64) == (x >> (i ^ 7u64)) & 1u64 by {
        assert(((r >> i) & 1u64) == (x >> (i ^ 7u64)) & 1u64) by (bit_vector)
            requires
                i < 64,
                r1 == ((x >> 1) & 0x5555555555555555u64) | ((x & 0x5555555555555555u64) << 1),
                r2 == ((r1 >> 2) & 0x3333333333333333u64) | ((r1 & 0x3333333333333333u64) << 2),
                r == ((r2 >> 4) & 0x0f0f0f0f0f0f0f0fu64) | ((r2 & 0x0f0f0f0f0f0f0f0fu64) << 4);
    }
}

/// The empty bitboard has no squares.
pub proof fn lemma_zero_popcount_upto(n: nat)
    requires
        n <= 64,
    ensures
        popcount_upto(0u64, n) == 0,
    decreases n,
{
    if n > 0 {
        lemma_zero_popcount_upto((n - 1) as nat);
        lemma_zero_has_nothing((n - 1) as u64);
    }
}

/// Two bitboards with the same squares are equal.
pub proof fn lemma_bits_equal(a: u64, b: u64)
    requires
        forall|i: u64| i < 64 ==> #[trigger] ((a >> i) & 1u64) == (b >> i) & 1u64,
    ensures
        a == b,
{
    let c = a ^ b;
    assert forall|i: u64| i < 64 implies !#[trigger] on_sq(c, i as int) by {
        assert(((a >> i) & 1u64) == (b >> i) & 1u64);
        assert(((a >> i) & 1u64) == (b >> i) & 1u64 ==> ((a ^ b) >> i) & 1u64 != 1u64) by (bit_vector);
    }
    lemma_zero_iff_no_square(c);
    assert(a ^ b == 0 ==> a == b) by (bit_vector);
}

/// Two bitboards that hold the same squares are equal.
pub proof fn lemma_same_squares_equal(a: u64, b: u64)
    requires
        forall|t: int| 0 <= t < 64 ==> (#[trigger] on_sq(a, t) <==> on_sq(b, t)),
    ensures
        a == b,
{
    assert forall|i: u64| i < 64 implies #[trigger] ((a >> i) & 1u64) == (b >> i) & 1u64 by {
        assert(on_sq(a, i as int) <==> on_sq(b, i as int));
        assert(((a >> i) & 1u64) <= 1u64 && ((b >> i) & 1u64) <= 1u64) by (bit_vector);
    }
    lemma_bits_equal(a, b);
}

/// Turning a bitboard by 180 degrees twice gives it back.
pub proof fn law_rotate_180_involution(x: u64, r: u64, rr: u64)
    requires
        rotated_180(x, r),
        rotated_180(r, rr),
    ensures
        rr == x,
{
    assert forall|i: u64| i < 64 implies #[trigger] ((rr >> i) & 1u64) == (x >> i) & 1u64 by {
        assert(((rr >> i) & 1u64) == (r >> ((63u64 - i) as u64)) & 1u64);
        assert(((r >> ((63u64 - i) as u64)) & 1u64) == (x >> ((63u64 - ((63u64 - i) as u64)) as u64)) & 1u64);
    }
    lemma_bits_equal(rr, x);
}

/// Mirroring a bitboard twice gives it back.
pub proof fn law_mirror_involution(x: u64, r: u64, rr: u64)
    requires
        mirrored(x, r),
        mirrored(r, rr),
    ensures
        rr == x,
{
    assert forall|i: u64| i < 64 implies #[trigger] ((rr >> i) & 1u64) == (x >> i) & 1u64 by {
        assert(((rr >> i) & 1u64) == (r >> (i ^ 7u64)) & 1u64);
        assert((i ^ 7u64) < 64 && ((i ^ 7u64) ^ 7u64) == i) by (bit_vector)
            requires i < 64;
        assert(((r >> (i ^ 7u64)) & 1u64) == (x >> ((i ^ 7u64) ^ 7u64)) & 1u64);
    }
    lemma_bits_equal(rr, x);
}

} // verus!

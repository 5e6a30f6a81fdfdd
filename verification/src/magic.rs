use vstd::prelude::*;
use crate::attacks::{bishop_attack, bishop_attacks, ray_on_board, ray_square, rook_attack, rook_attacks, slide_reaches, with_square};
use crate::bitboard::lemma_on_sq_and;
use crate::bitboard::{count_squares, lemma_zero_has_nothing, on_sq, popcount};
use crate::zorb_set::random_u64;

verus! {

/// The squares whose occupancy can stop a rook on `s`: the other squares of its rank and
/// file, without the edge squares at their ends.
pub open spec fn rook_mask_square(s: int, t: int) -> bool {
    t != s && ((t / 8 == s / 8 && 1 <= t % 8 <= 6) || (t % 8 == s % 8 && 1 <= t / 8 <= 6))
}

/// The squares whose occupancy can stop a bishop on `s`: the other squares of its
/// diagonals, without the squares on the edge of the board.
pub open spec fn bishop_mask_square(s: int, t: int) -> bool {
    &&& t != s
    &&& (t / 8 - s / 8 == t % 8 - s % 8 || t / 8 - s / 8 == s % 8 - t % 8)
    &&& 1 <= t / 8 <= 6
    &&& 1 <= t % 8 <= 6
}

proof fn lemma_empty_board()
    ensures
        forall|u: int| 0 <= u < 64 ==> !#[trigger] on_sq(0u64, u),
{
    assert forall|u: int| 0 <= u < 64 implies !#[trigger] on_sq(0u64, u) by {
        lemma_zero_has_nothing(u as u64);
    }
}

/// The squares whose occupancy can stop a rook on `square` (see `rook_mask_square`).
pub fn rook_mask_generation(square: i64) -> (r: u64)
    requires
        0 <= square < 64,
    ensures
        forall|t: int| 0 <= t < 64 ==> (#[trigger] on_sq(r, t) <==> rook_mask_square(square as int, t)),
{
    proof {
        lemma_empty_board();
    }
    let s = square as u8;
    let mut r: u64 = 0;
    let mut t: u8 = 0;
    while t < 64
        invariant
            t <= 64,
            s == square,
            forall|u: int| 0 <= u < 64 ==> (#[trigger] on_sq(r, u) <==> (u < t && rook_mask_square(s as int, u))),
        decreases 64 - t,
    {
        let same_rank = t / 8 == s / 8 && 1 <= t % 8 && t % 8 <= 6;
        let same_file = t % 8 == s % 8 && 1 <= t / 8 && t / 8 <= 6;
        if t != s && (same_rank || same_file) {
            r = with_square(r, t);
        }
        t = t + 1;
    }
    r
}

/// The squares whose occupancy can stop a bishop on `square` (see `bishop_mask_square`).
pub fn bishop_mask_generation(square: i64) -> (r: u64)
    requires
        0 <= square < 64,
    ensures
        forall|t: int| 0 <= t < 64 ==> (#[trigger] on_sq(r, t) <==> bishop_mask_square(square as int, t)),
{
    proof {
        lemma_empty_board();
    }
    let s = square as u8;
    let mut r: u64 = 0;
    let mut t: u8 = 0;
    while t < 64
        invariant
            t <= 64,
            s == square,
            forall|u: int| 0 <= u < 64 ==> (#[trigger] on_sq(r, u) <==> (u < t && bishop_mask_square(s as int, u))),
        decreases 64 - t,
    {
        let tr = (t / 8) as i8;
        let tf = (t % 8) as i8;
        let sr = (s / 8) as i8;
        let sf = (s % 8) as i8;
        let diagonal = tr - sr == tf - sf || tr - sr == sf - tf;
        if t != s && diagonal && 1 <= tr && tr <= 6 && 1 <= tf && tf <= 6 {
            r = with_square(r, t);
        }
        t = t + 1;
    }
    r
}

/// The squares that a rook on `square` attacks with the squares of `blocker_bitboard`
/// occupied.
fn generate_legal_rook_moves(square: i64, blocker_bitboard: u64) -> (r: u64)
    requires
        0 <= square < 64,
    ensures
        forall|t: int| 0 <= t < 64 ==> (#[trigger] on_sq(r, t) <==> rook_attack(square as int, blocker_bitboard, t)),
{
    rook_attacks(square as u8, blocker_bitboard)
}

/// The squares that a bishop on `square` attacks with the squares of `blocker_bitboard`
/// occupied.
pub fn generate_legal_bishop_moves(square: i64, blocker_bitboard: u64) -> (r: u64)
    requires
        0 <= square < 64,
    ensures
        forall|t: int| 0 <= t < 64 ==> (#[trigger] on_sq(r, t) <==> bishop_attack(square as int, blocker_bitboard, t)),
{
    bishop_attacks(square as u8, blocker_bitboard)
}

/// The squares set in `mask` below `n`, in increasing order.
pub open spec fn mask_squares_upto(mask: u64, n: nat) -> Seq<int>
    decreases n,
{
    if n == 0 {
        seq![]
    } else {
        mask_squares_upto(mask, (n - 1) as nat) + if on_sq(mask, n - 1) { seq![n - 1] } else { seq![] }
    }
}

/// The squares set in `mask`, in increasing order.
pub open spec fn mask_squares(mask: u64) -> Seq<int> {
    mask_squares_upto(mask, 64)
}

/// Whether bit `b` of `j` is set.
pub open spec fn bit_of(j: int, b: int) -> bool {
    ((j as u64) >> (b as u64)) & 1u64 == 1u64
}

/// The blocker pattern number `j` of a mask: the `b`-th square of the mask (in increasing
/// order) is set when bit `b` of `j` is.
pub open spec fn pattern_square(squares: Seq<int>, j: int, t: int) -> bool {
    exists|b: int| 0 <= b < squares.len() && squares[b] == t && #[trigger] bit_of(j, b)
}

proof fn lemma_mask_squares(mask: u64, n: nat)
    requires
        n <= 64,
    ensures
        forall|b: int| 0 <= b < mask_squares_upto(mask, n).len() ==> {
            let t = #[trigger] mask_squares_upto(mask, n)[b];
            0 <= t < n && on_sq(mask, t)
        },
        forall|b: int, c: int| 0 <= b < c < mask_squares_upto(mask, n).len() ==>
            #[trigger] mask_squares_upto(mask, n)[b] < #[trigger] mask_squares_upto(mask, n)[c],
        mask_squares_upto(mask, n).len() <= n,
    decreases n,
{
    if n > 0 {
        lemma_mask_squares(mask, (n - 1) as nat);
    }
}

/// Every blocker pattern of a mask: pattern `j` holds the squares of the mask picked by the
/// bits of `j` (see `pattern_square`), for each `j` below two to the number of squares.
pub fn generate_blocker_patterns(mask: u64) -> (r: Vec<u64>)
    requires
        mask_squares(mask).len() <= 16,
    ensures
        r@.len() == vstd::arithmetic::power2::pow2(mask_squares(mask).len()),
        forall|j: int, t: int| 0 <= j < r@.len() && 0 <= t < 64 ==> (#[trigger] on_sq(r@[j], t) <==> pattern_square(mask_squares(mask), j, t)),
{
    let mut move_indices: Vec<u8> = Vec::new();
    let mut i: u8 = 0;
    proof {
        lemma_mask_squares(mask, 64);
    }
    while i < 64
        invariant
            i <= 64,
            move_indices@.len() == mask_squares_upto(mask, i as nat).len(),
            forall|b: int| 0 <= b < move_indices@.len() ==> move_indices@[b] as int == #[trigger] mask_squares_upto(mask, i as nat)[b],
            mask_squares_upto(mask, i as nat).len() <= i,
        decreases 64 - i,
    {
        proof {
            lemma_mask_squares(mask, i as nat);
        }
        if (mask >> (i as u64)) & 1 == 1 {
            move_indices.push(i);
        }
        i = i + 1;
        proof {
            lemma_mask_squares(mask, i as nat);
        }
    }
    let ghost squares = mask_squares(mask);
    let n = move_indices.len();
    proof {
        vstd::arithmetic::power2::lemma2_to64();
        vstd::arithmetic::power2::lemma_pow2_strictly_increases(n as nat, 17);
    }
    let num_patterns: usize = 1usize << n;
    proof {
        vstd::bits::lemma_usize_shl_is_mul(1, n);
    }
    let mut blocker_bitboards: Vec<u64> = Vec::new();
    let mut pattern_index: usize = 0;
    while pattern_index < num_patterns
        invariant
            pattern_index <= num_patterns,
            n == squares.len(),
            n <= 16,
            squares == mask_squares(mask),
            move_indices@.len() == n,
            forall|b: int| 0 <= b < n ==> move_indices@[b] as int == #[trigger] squares[b],
            forall|b: int| 0 <= b < n ==> 0 <= #[trigger] squares[b] < 64,
            blocker_bitboards@.len() == pattern_index,
            forall|j: int, t: int| 0 <= j < pattern_index && 0 <= t < 64 ==> (#[trigger] on_sq(blocker_bitboards@[j], t)
                <==> pattern_square(squares, j, t)),
        decreases num_patterns - pattern_index,
    {
        proof {
            lemma_empty_board();
        }
        let mut pattern: u64 = 0;
        let mut bit_index: usize = 0;
        while bit_index < n
            invariant
                bit_index <= n,
                n <= 16,
                n == squares.len(),
                move_indices@.len() == n,
                forall|b: int| 0 <= b < n ==> move_indices@[b] as int == #[trigger] squares[b],
                forall|b: int| 0 <= b < n ==> 0 <= #[trigger] squares[b] < 64,
                forall|t: int| 0 <= t < 64 ==> (#[trigger] on_sq(pattern, t) <==> exists|b: int|
                    0 <= b < bit_index && squares[b] == t && #[trigger] bit_of(pattern_index as int, b)),
            decreases n - bit_index,
        {
            let sq = move_indices[bit_index];
            assert(squares[bit_index as int] == sq as int);
            if ((pattern_index as u64) >> (bit_index as u64)) & 1 == 1 {
                assert(bit_of(pattern_index as int, bit_index as int));
                pattern = with_square(pattern, sq);
                proof {
                    assert forall|t: int| 0 <= t < 64 implies (#[trigger] on_sq(pattern, t) <==> exists|b: int|
                        0 <= b < bit_index + 1 && squares[b] == t && #[trigger] bit_of(pattern_index as int, b)) by {
                        if t == sq as int {
                            assert(squares[bit_index as int] == t && bit_of(pattern_index as int, bit_index as int));
                        }
                    }
                }
            } else {
                assert(!bit_of(pattern_index as int, bit_index as int));
                proof {
                    assert forall|t: int| 0 <= t < 64 implies (#[trigger] on_sq(pattern, t) <==> exists|b: int|
                        0 <= b < bit_index + 1 && squares[b] == t && #[trigger] bit_of(pattern_index as int, b)) by {
                        if exists|b: int| 0 <= b < bit_index + 1 && squares[b] == t && #[trigger] bit_of(pattern_index as int, b) {
                            let b = choose|b: int| 0 <= b < bit_index + 1 && squares[b] == t && #[trigger] bit_of(pattern_index as int, b);
                            assert(b != bit_index);
                        }
                    }
                }
            }
            bit_index = bit_index + 1;
        }
        blocker_bitboards.push(pattern);
        proof {
            assert forall|j: int, t: int| 0 <= j < pattern_index + 1 && 0 <= t < 64 implies (#[trigger] on_sq(blocker_bitboards@[j], t)
                <==> pattern_square(squares, j, t)) by {
                if j == pattern_index {
                    assert(blocker_bitboards@[j] == pattern);
                }
            }
        }
        pattern_index = pattern_index + 1;
    }
    blocker_bitboards
}


/// How far the magic product of a rook's blockers is shifted right, by square.
pub const ROOK_LEFT_SHIFT_BITS: [usize; 64] = [
    52, 53, 53, 53, 53, 53, 53, 52, 53, 54, 54, 54, 54, 54, 54, 53, 53, 54, 54, 54, 54, 54, 54, 53,
    53, 54, 54, 54, 54, 54, 54, 53, 53, 54, 54, 54, 54, 54, 54, 53, 53, 54, 54, 54, 54, 54, 54, 53,
    53, 54, 54, 54, 54, 54, 54, 53, 52, 53, 53, 53, 53, 53, 53, 52,
];

/// How far the magic product of a bishop's blockers is shifted right, by square.
pub const BISHOP_LEFT_SHIFT_BITS: [usize; 64] = [
    58, 59, 59, 59, 59, 59, 59, 58, 59, 59, 59, 59, 59, 59, 59, 59, 59, 59, 57, 57, 57, 57, 59, 59,
    59, 59, 57, 55, 55, 57, 59, 59, 59, 59, 57, 55, 55, 57, 59, 59, 59, 59, 57, 57, 57, 57, 59, 59,
    59, 59, 59, 59, 59, 59, 59, 59, 58, 59, 59, 59, 59, 59, 59, 58,
];


/// The magic multipliers of the rook, by square.
pub const ROOK_MAGIC: [u64; 64] = [
    648536213958983684, 9313444305622294532, 4647724161832062980, 936754220186468384,
    144150441200976904, 396338757466333696, 36029346808332544, 2449958336880251396, 5770376609021952,
    1152991873887916036, 703756188516480, 9518639322052567296, 108649478583751168, 3940719601516548,
    3171097399027565056, 9147938630534400, 6932970644717569, 306254121047441536, 2918404027328762117,
    9369748920617467938, 11541601048851384320, 37718196702151296, 18168330274275856,
    14987981758917542164, 1225050571197677568, 144150377816674304, 729591936804982784,
    4688827758529283080, 2251838469440768, 16286142704381984772, 612498431319085105, 72198471114309888,
    36028934629883968, 4756153187684061192, 369312763786305540, 3170674943885051904, 2251836329296897,
    9223935124314521616, 613333993596649984, 13925200967436861700, 9224568359195541504, 141012383498274,
    1157442696957165696, 4543250782289928, 585473449250586640, 306246973751591040, 5332279559717126145,
    1191202805818458113, 2350949376379072640, 1153062516975206528, 288247973169627520, 10175348019712,
    576469550544191616, 306246975832195200, 7036883007963392, 108122142503141888, 4648595253821210625,
    145410983203074, 18298356514162705, 8933615865857, 844493685784653, 155655696782983217,
    18760695154708, 74319031842144290,
];

/// The magic multipliers of the bishop, by square.
pub const BISHOP_MAGIC: [u64; 64] = [
    580628315668993, 144687213916585986, 1130315808636936, 649715723639227904, 576760094411326468,
    2386644091582021636, 16141754500303044736, 637748017246209, 74326995039159424, 3100184094183538820,
    2332873437447464064, 16158919878442221824, 22610512269279234, 288235392746930176,
    4755801765124801568, 9225753587781536000, 1162773713042606088, 9268412439832101424,
    9948452833158365248, 1127137947951361, 2306406388673556490, 142146372108803, 307097996892840961,
    38319088338736256, 9016081515677728, 878492748700188952, 582092455222977539, 9293072282419328,
    1801721394728288258, 142936528404992, 600126674948109320, 12385998799962928, 9225872360657133572,
    2308660104042385412, 19210873319064577, 5764642741767702544, 144397779745243650, 9015999776981132,
    282591672476680, 72631599237189696, 218433395267490180, 867508086372303458, 45054758973624320,
    10448492011903256834, 567419168883712, 18094115300312192, 6764230975986768, 10134009912754240,
    4620772674646312065, 4613093702616039554, 4647715099460501568, 2214854656, 306279993946734592,
    7512074564512915528, 5917765111926259712, 1768102675582296066, 293931378310906944, 4503745791296576,
    9295712209744503808, 1152923291317568002, 144116498309454336, 2305844521582264898,
    24844601014092304, 54045411798712336,
];

/// One square's magic numbers: the squares that can block, the multiplier, and the right
/// shift that turns the product into a slot of the square's attack table.
#[derive(Clone, Copy, Debug)]
pub struct TableEntry {
    pub mask: u64,
    pub magic: u64,
    pub shift: u64,
}

/// The slot of an attack table that an occupancy falls in: the occupancy within the mask,
/// times the multiplier (wrapping), shifted right.
pub open spec fn magic_slot(e: TableEntry, occupancy: u64) -> int {
    (vstd::wrapping::u64_specs::wrapping_mul(occupancy & e.mask, e.magic) >> e.shift) as int
}

/// The number of slots of a square's attack table.
pub open spec fn table_size(e: TableEntry) -> nat {
    vstd::arithmetic::power2::pow2((64 - e.shift) as nat)
}

/// Whether a blocker pattern lies within a mask.
pub open spec fn blocks_within(mask: u64, p: u64) -> bool {
    forall|t: int| 0 <= t < 64 ==> #[trigger] on_sq(p, t) ==> on_sq(mask, t)
}

/// Whether `v` holds the squares that a rook (`rook`) or a bishop on `s` attacks with the
/// squares of `p` occupied.
pub open spec fn slider_moves_are(rook: bool, s: int, p: u64, v: u64) -> bool {
    forall|t: int| 0 <= t < 64 ==> (#[trigger] on_sq(v, t) <==> if rook { rook_attack(s, p, t) } else { bishop_attack(s, p, t) })
}

/// What a slot of an attack table may hold: nothing, or the attacks with some blocker
/// pattern of the mask that falls in that slot.
pub open spec fn slot_ok(rook: bool, s: int, e: TableEntry, v: u64, k: int) -> bool {
    v == 0 || exists|p: u64| #[trigger] blocks_within(e.mask, p) && magic_slot(e, p) == k && slider_moves_are(rook, s, p, v)
}

/// Whether a slot holds the attacks with some blocker pattern of the mask that falls in it.
pub open spec fn slot_filled(rook: bool, s: int, e: TableEntry, v: u64, k: int) -> bool {
    exists|p: u64| #[trigger] blocks_within(e.mask, p) && magic_slot(e, p) == k && slider_moves_are(rook, s, p, v)
}

/// Whether a rook (`rook`) or a bishop on `s` attacks `t` with the squares of `p` occupied.
pub open spec fn slider_attack_at(rook: bool, s: int, p: u64, t: int) -> bool {
    if rook { rook_attack(s, p, t) } else { bishop_attack(s, p, t) }
}

/// Whether a square's multiplier and shift send blocker patterns with different attacks to
/// different slots: two patterns of the mask in one slot give the same attacks.
pub open spec fn magic_exact(rook: bool, s: int, e: TableEntry) -> bool {
    forall|p1: u64, p2: u64, t: int|
        #![trigger blocks_within(e.mask, p1), blocks_within(e.mask, p2), slider_attack_at(rook, s, p1, t)]
        blocks_within(e.mask, p1) && blocks_within(e.mask, p2) && magic_slot(e, p1) == magic_slot(e, p2) && 0 <= t < 64
            ==> (slider_attack_at(rook, s, p1, t) <==> slider_attack_at(rook, s, p2, t))
}

/// Whether a square's magic numbers and attack table fit together: the mask is the
/// square's blocking squares, the shift leaves at most twelve bits, the table has a slot for
/// each value of them, each slot holds what `slot_ok` allows, and the slot of every blocker
/// pattern of the mask is filled.
pub open spec fn square_table_ok(rook: bool, s: int, e: TableEntry, table: Seq<u64>) -> bool {
    &&& forall|t: int| 0 <= t < 64 ==> (#[trigger] on_sq(e.mask, t) <==> if rook { rook_mask_square(s, t) } else { bishop_mask_square(s, t) })
    &&& 52 <= e.shift <= 63
    &&& table.len() == table_size(e)
    &&& forall|k: int| 0 <= k < table.len() ==> slot_ok(rook, s, e, #[trigger] table[k], k)
    &&& forall|x: u64| #[trigger] blocks_within(e.mask, x) ==> slot_filled(rook, s, e, table[magic_slot(e, x)], magic_slot(e, x))
}

/// A product shifted right by `s` falls below two to the `64 - s`.
proof fn lemma_slot_bound(x: u64, s: u64)
    requires
        52 <= s <= 63,
    ensures
        x >> s < (1u64 << ((64u64 - s) as u64)),
{
    assert(x >> s < (1u64 << ((64u64 - s) as u64))) by (bit_vector)
        requires
            52u64 <= s <= 63u64,
    ;
}

/// The slot of any occupancy lies within the square's table.
proof fn lemma_magic_slot_range(e: TableEntry, x: u64)
    requires
        52 <= e.shift <= 63,
    ensures
        0 <= magic_slot(e, x) < table_size(e),
{
    let product = vstd::wrapping::u64_specs::wrapping_mul(x & e.mask, e.magic);
    lemma_slot_bound(product, e.shift);
    vstd::arithmetic::power2::lemma2_to64();
    vstd::arithmetic::power2::lemma_pow2_strictly_increases((64 - e.shift) as nat, 13);
    vstd::bits::lemma_u64_shl_is_mul(1, (64 - e.shift) as u64);
}

/// The number of squares of a mask.
fn mask_square_count(mask: u64) -> (r: usize)
    ensures
        r == mask_squares(mask).len(),
{
    let mut count: usize = 0;
    let mut i: u8 = 0;
    while i < 64
        invariant
            i <= 64,
            count == mask_squares_upto(mask, i as nat).len(),
            count <= i,
        decreases 64 - i,
    {
        proof {
            lemma_mask_squares(mask, i as nat);
        }
        if (mask >> (i as u64)) & 1 == 1 {
            count = count + 1;
        }
        i = i + 1;
    }
    count
}

/// The attack table of a square for its magic numbers: for each blocker pattern of the mask,
/// its slot holds the attacks with that pattern (a later pattern in the same slot replacing
/// an earlier one); slots that no pattern reaches hold nothing.
fn build_attack_table(rook: bool, square: i64, e: TableEntry) -> (r: Vec<u64>)
    requires
        0 <= square < 64,
        52 <= e.shift <= 63,
        forall|t: int| 0 <= t < 64 ==> (#[trigger] on_sq(e.mask, t) <==> if rook { rook_mask_square(square as int, t) } else { bishop_mask_square(square as int, t) }),
    ensures
        square_table_ok(rook, square as int, e, r@),
{
    let bits = 64 - e.shift;
    proof {
        vstd::arithmetic::power2::lemma2_to64();
        vstd::arithmetic::power2::lemma_pow2_strictly_increases(bits as nat, 13);
        vstd::bits::lemma_usize_shl_is_mul(1, bits as usize);
    }
    let size: usize = 1usize << (bits as usize);
    let mut table: Vec<u64> = Vec::new();
    while table.len() < size
        invariant
            table@.len() <= size,
            size == table_size(e),
            forall|k: int| 0 <= k < table@.len() ==> #[trigger] table@[k] == 0,
        decreases size - table@.len(),
    {
        table.push(0);
    }
    proof {
        assert forall|k: int| 0 <= k < table@.len() implies slot_ok(rook, square as int, e, #[trigger] table@[k], k) by {}
    }
    proof {
        lemma_mask_small(e.mask, rook, square as int);
    }
    if mask_square_count(e.mask) <= 16 {
        let patterns = generate_blocker_patterns(e.mask);
        let ghost squares = mask_squares(e.mask);
        proof {
            lemma_mask_squares(e.mask, 64);
        }
        let mut j: usize = 0;
        while j < patterns.len()
            invariant
                j <= patterns@.len(),
                0 <= square < 64,
                52 <= e.shift <= 63,
                size == table_size(e),
                table@.len() == size,
                squares == mask_squares(e.mask),
                forall|b: int| 0 <= b < squares.len() ==> {
                    let t = #[trigger] squares[b];
                    0 <= t < 64 && on_sq(e.mask, t)
                },
                forall|i: int, t: int| 0 <= i < patterns@.len() && 0 <= t < 64 ==> (#[trigger] on_sq(patterns@[i], t)
                    <==> pattern_square(squares, i, t)),
                forall|k: int| 0 <= k < table@.len() ==> slot_ok(rook, square as int, e, #[trigger] table@[k], k),
                patterns_of(e.mask, patterns@),
                forall|i: int|
                    0 <= i < j ==> slot_filled(rook, square as int, e, table@[magic_slot(e, #[trigger] patterns@[i])], magic_slot(e, patterns@[i])),
            decreases patterns@.len() - j,
        {
            let p = patterns[j];
            let moves = if rook { generate_legal_rook_moves(square, p) } else { generate_legal_bishop_moves(square, p) };
            let product = (p & e.mask).wrapping_mul(e.magic);
            let slot = product >> e.shift;
            proof {
                lemma_slot_bound(product, e.shift);
                vstd::bits::lemma_u64_shl_is_mul(1, (64 - e.shift) as u64);
                assert forall|t: int| 0 <= t < 64 implies #[trigger] on_sq(p, t) ==> on_sq(e.mask, t) by {
                    if on_sq(p, t) {
                        assert(pattern_square(squares, j as int, t));
                        let b = choose|b: int| 0 <= b < squares.len() && squares[b] == t && #[trigger] bit_of(j as int, b);
                        assert(on_sq(e.mask, squares[b]));
                    }
                }
                assert(blocks_within(e.mask, p));
                assert(slider_moves_are(rook, square as int, p, moves));
            }
            let ghost before = table@;
            table.set(slot as usize, moves);
            proof {
                assert forall|k: int| 0 <= k < table@.len() implies slot_ok(rook, square as int, e, #[trigger] table@[k], k) by {
                    if k == slot as int {
                        assert(magic_slot(e, p) == k);
                    }
                }
                assert(magic_slot(e, p) == slot as int);
                assert forall|i: int| 0 <= i < j + 1 implies slot_filled(
                    rook,
                    square as int,
                    e,
                    table@[magic_slot(e, #[trigger] patterns@[i])],
                    magic_slot(e, patterns@[i]),
                ) by {
                    let k = magic_slot(e, patterns@[i]);
                    lemma_magic_slot_range(e, patterns@[i]);
                    if k == slot as int {
                        assert(table@[k] == moves);
                        assert(blocks_within(e.mask, p));
                    } else {
                        assert(table@[k] == before[k]);
                    }
                }
            }
            j = j + 1;
        }
        proof {
            assert forall|x: u64| #[trigger] blocks_within(e.mask, x) implies slot_filled(
                rook,
                square as int,
                e,
                table@[magic_slot(e, x)],
                magic_slot(e, x),
            ) by {
                lemma_pattern_of(e.mask, patterns@, x);
                let i = choose|i: int| 0 <= i < patterns@.len() && #[trigger] patterns@[i] == x;
                assert(slot_filled(rook, square as int, e, table@[magic_slot(e, patterns@[i])], magic_slot(e, patterns@[i])));
            }
        }
    }
    table
}

/// The slot that a blocker pattern falls in for a multiplier and a right shift.
pub open spec fn transform_spec(b: u64, magic: u64, bits: usize) -> int {
    (vstd::wrapping::u64_specs::wrapping_mul(b, magic) >> (bits as u64)) as int
}

/// A product shifted right by 52 to 63 bits falls below 4096.
proof fn lemma_slot_below_4096(x: u64, bits: usize)
    requires
        52 <= bits <= 63,
    ensures
        x >> (bits as u64) < 4096,
{
    lemma_slot_bound(x, bits as u64);
    vstd::arithmetic::power2::lemma2_to64();
    if 64 - bits < 12 {
        vstd::arithmetic::power2::lemma_pow2_strictly_increases((64 - bits) as nat, 12);
    }
    vstd::bits::lemma_u64_shl_is_mul(1, (64 - bits) as u64);
}

/// The slot that a blocker pattern falls in for a multiplier and a right shift.
fn transform(b: u64, magic: u64, bits: usize) -> (r: usize)
    requires
        52 <= bits <= 63,
    ensures
        r as int == transform_spec(b, magic, bits),
        r < 4096,
{
    let product = b.wrapping_mul(magic);
    let slot = product >> (bits as u64);
    proof {
        lemma_slot_below_4096(product, bits);
    }
    slot as usize
}

/// Whether a multiplier keeps the attacks of blocker patterns apart: going through the
/// patterns in order, no pattern falls in a slot that an earlier pattern with other, nonzero
/// attacks has taken.
pub open spec fn magic_fits_spec(patterns: Seq<u64>, attacks: Seq<u64>, magic: u64, bits: usize) -> bool {
    forall|i: int, k: int|
        0 <= i < k < patterns.len() && #[trigger] transform_spec(patterns[i], magic, bits) == #[trigger] transform_spec(
            patterns[k],
            magic,
            bits,
        ) && attacks[i] != 0 ==> attacks[k] == attacks[i]
}

/// Whether a multiplier keeps the attacks of blocker patterns apart (see `magic_fits_spec`):
/// each pattern's attacks go to its slot of a table of 4096, and a slot that already holds
/// other attacks refuses the multiplier.
pub fn magic_fits(patterns: &Vec<u64>, attacks: &Vec<u64>, magic: u64, bits: usize) -> (r: bool)
    requires
        patterns@.len() == attacks@.len(),
        52 <= bits <= 63,
    ensures
        r == magic_fits_spec(patterns@, attacks@, magic, bits),
{
    let mut used: Vec<u64> = Vec::new();
    while used.len() < 4096
        invariant
            used@.len() <= 4096,
            forall|q: int| 0 <= q < used@.len() ==> #[trigger] used@[q] == 0,
        decreases 4096 - used@.len(),
    {
        used.push(0);
    }
    let ghost ps = patterns@;
    let ghost atts = attacks@;
    let mut i: usize = 0;
    while i < patterns.len()
        invariant
            i <= ps.len(),
            ps == patterns@,
            atts == attacks@,
            ps.len() == atts.len(),
            52 <= bits <= 63,
            used@.len() == 4096,
            forall|i1: int, k: int|
                0 <= i1 < k < i && #[trigger] transform_spec(ps[i1], magic, bits) == #[trigger] transform_spec(
                    ps[k],
                    magic,
                    bits,
                ) && atts[i1] != 0 ==> atts[k] == atts[i1],
            forall|i1: int| 0 <= i1 < i && atts[i1] != 0 ==> used@[#[trigger] transform_spec(ps[i1], magic, bits)] == atts[i1],
            forall|q: int| 0 <= q < 4096 && #[trigger] used@[q] != 0 ==> exists|i1: int|
                0 <= i1 < i && #[trigger] transform_spec(ps[i1], magic, bits) == q && atts[i1] == used@[q],
        decreases ps.len() - i,
    {
        let j = transform(patterns[i], magic, bits);
        proof {
            assert forall|i1: int| 0 <= i1 < i && atts[i1] != 0 implies 0 <= #[trigger] transform_spec(ps[i1], magic, bits) < 4096 by {
                lemma_slot_below_4096(vstd::wrapping::u64_specs::wrapping_mul(ps[i1], magic), bits);
            }
        }
        let a = attacks[i];
        if used[j] == 0 {
            used.set(j, a);
        } else if used[j] != a {
            proof {
                let i1 = choose|i1: int| 0 <= i1 < i && #[trigger] transform_spec(ps[i1], magic, bits) == j as int && atts[i1] == used@[j as int];
                assert(transform_spec(ps[i1], magic, bits) == transform_spec(ps[i as int], magic, bits));
            }
            return false;
        }
        proof {
            assert(transform_spec(ps[i as int], magic, bits) == j as int);
        }
        i = i + 1;
    }
    true
}

/// Whether `pats` holds the blocker patterns of a mask, as `generate_blocker_patterns`
/// makes them.
pub open spec fn patterns_of(mask: u64, pats: Seq<u64>) -> bool {
    &&& pats.len() == vstd::arithmetic::power2::pow2(mask_squares(mask).len())
    &&& forall|j: int, t: int| 0 <= j < pats.len() && 0 <= t < 64 ==> (#[trigger] on_sq(pats[j], t) <==> pattern_square(mask_squares(mask), j, t))
}

/// Whether `atts` holds, pattern by pattern, the attacks of a rook (`rook`) or bishop on `s`.
pub open spec fn attacks_of(rook: bool, s: int, pats: Seq<u64>, atts: Seq<u64>) -> bool {
    &&& atts.len() == pats.len()
    &&& forall|i: int| 0 <= i < pats.len() ==> #[trigger] slider_moves_are(rook, s, pats[i], atts[i])
}

/// Adding the bit `k` to a number below it sets that bit and keeps the others.
proof fn lemma_add_top_bit(j: u64, k: u64, b: u64)
    by (bit_vector)
    requires
        k < 16,
        b < 64,
    ensures
        0u64 < (1u64 << k),
        (1u64 << k) < (1u64 << ((k + 1) as u64)),
        j < (1u64 << k) ==> ((j + (1u64 << k)) as u64) < (1u64 << ((k + 1) as u64)),
        j < (1u64 << k) ==> ((((j + (1u64 << k)) as u64) >> b) & 1u64 == 1u64 <==> (b == k || (j >> b) & 1u64 == 1u64)),
        j < (1u64 << k) && b >= k ==> (j >> b) & 1u64 != 1u64,
{
}

/// The number of the blocker pattern that holds the squares of `x` among the first `k`
/// squares of `squares`: bit `b` is set when `x` holds the `b`-th square.
pub open spec fn pattern_number(squares: Seq<int>, x: u64, k: nat) -> u64
    decreases k,
{
    if k == 0 {
        0
    } else {
        let j = pattern_number(squares, x, (k - 1) as nat);
        if on_sq(x, squares[k - 1]) { (j + (1u64 << ((k - 1) as u64))) as u64 } else { j }
    }
}

proof fn lemma_pattern_number(squares: Seq<int>, x: u64, k: nat)
    requires
        k <= 16,
    ensures
        pattern_number(squares, x, k) < (1u64 << (k as u64)),
        forall|b: int| 0 <= b < k ==> (#[trigger] bit_of(pattern_number(squares, x, k) as int, b) <==> on_sq(x, squares[b])),
        forall|b: int| k <= b < 64 ==> !#[trigger] bit_of(pattern_number(squares, x, k) as int, b),
    decreases k,
{
    let j = pattern_number(squares, x, k);
    if k == 0 {
        lemma_add_top_bit(0, 0, 0);
        assert forall|b: int| k <= b < 64 implies !#[trigger] bit_of(j as int, b) by {
            crate::bitboard::lemma_zero_has_nothing(b as u64);
        }
    } else {
        let kk = (k - 1) as nat;
        let jp = pattern_number(squares, x, kk);
        lemma_pattern_number(squares, x, kk);
        lemma_add_top_bit(jp, kk as u64, 0);
        if on_sq(x, squares[k - 1]) {
            assert forall|b: int| 0 <= b < 64 implies (#[trigger] bit_of(j as int, b) <==> (b == kk || bit_of(jp as int, b))) by {
                lemma_add_top_bit(jp, kk as u64, b as u64);
            }
        }
        assert forall|b: int| 0 <= b < k implies (#[trigger] bit_of(j as int, b) <==> on_sq(x, squares[b])) by {
            if on_sq(x, squares[k - 1]) {
                assert(bit_of(j as int, b) <==> (b == kk || bit_of(jp as int, b)));
                if b == kk {
                    lemma_add_top_bit(jp, kk as u64, b as u64);
                }
            }
        }
        assert forall|b: int| k <= b < 64 implies !#[trigger] bit_of(j as int, b) by {
            lemma_add_top_bit(jp, kk as u64, b as u64);
            if on_sq(x, squares[k - 1]) {
                assert(bit_of(j as int, b) <==> (b == kk || bit_of(jp as int, b)));
            }
        }
    }
}

/// Every square of a mask below `n` is among its squares below `n`.
proof fn lemma_mask_squares_complete(mask: u64, n: nat)
    requires
        n <= 64,
    ensures
        forall|t: int| 0 <= t < n && on_sq(mask, t) ==> exists|b: int|
            0 <= b < mask_squares_upto(mask, n).len() && #[trigger] mask_squares_upto(mask, n)[b] == t,
    decreases n,
{
    if n > 0 {
        let m = (n - 1) as nat;
        lemma_mask_squares_complete(mask, m);
        let prev = mask_squares_upto(mask, m);
        let cur = mask_squares_upto(mask, n);
        assert forall|t: int| 0 <= t < n && on_sq(mask, t) implies exists|b: int|
            0 <= b < cur.len() && #[trigger] cur[b] == t by {
            if t < m {
                let b = choose|b: int| 0 <= b < prev.len() && #[trigger] prev[b] == t;
                assert(cur[b] == prev[b]);
            } else {
                assert(cur[prev.len() as int] == t);
            }
        }
    }
}

/// Every blocker set within a mask of at most sixteen squares is one of the mask's blocker
/// patterns.
proof fn lemma_pattern_of(mask: u64, pats: Seq<u64>, x: u64)
    requires
        patterns_of(mask, pats),
        blocks_within(mask, x),
        mask_squares(mask).len() <= 16,
    ensures
        exists|j: int| 0 <= j < pats.len() && #[trigger] pats[j] == x,
{
    let squares = mask_squares(mask);
    let n = squares.len();
    let j = pattern_number(squares, x, n);
    lemma_pattern_number(squares, x, n);
    lemma_mask_squares_complete(mask, 64);
    lemma_mask_squares(mask, 64);
    vstd::arithmetic::power2::lemma2_to64();
    vstd::arithmetic::power2::lemma_pow2_strictly_increases(n, 17);
    vstd::bits::lemma_u64_shl_is_mul(1, n as u64);
    assert((j as int) < pats.len());
    assert forall|t: int| 0 <= t < 64 implies (#[trigger] on_sq(pats[j as int], t) <==> on_sq(x, t)) by {
        assert(on_sq(pats[j as int], t) <==> pattern_square(squares, j as int, t));
        if on_sq(x, t) {
            assert(on_sq(mask, t));
            let b = choose|b: int| 0 <= b < squares.len() && #[trigger] squares[b] == t;
            assert(bit_of(j as int, b));
        }
        if pattern_square(squares, j as int, t) {
            let b = choose|b: int| 0 <= b < squares.len() && squares[b] == t && #[trigger] bit_of(j as int, b);
            assert(on_sq(x, squares[b]));
        }
    }
    crate::bitboard::lemma_same_squares_equal(pats[j as int], x);
}

/// Whether a multiplier serves a square of a rook (`rook`) or bishop with a right shift of
/// `bits`: the top byte of the product of the square's mask and the multiplier has at least six
/// squares, and the multiplier keeps the attacks of the mask's blocker patterns apart.
pub open spec fn magic_serves(rook: bool, s: int, bits: usize, magic: u64) -> bool {
    exists|mask: u64, pats: Seq<u64>, atts: Seq<u64>|
        {
            &&& #[trigger] patterns_of(mask, pats)
            &&& forall|t: int| 0 <= t < 64 ==> (#[trigger] on_sq(mask, t) <==> if rook { rook_mask_square(s, t) } else { bishop_mask_square(s, t) })
            &&& popcount(vstd::wrapping::u64_specs::wrapping_mul(mask, magic) & 0xFF00000000000000u64) >= 6
            &&& #[trigger] attacks_of(rook, s, pats, atts)
            &&& magic_fits_spec(pats, atts, magic, bits)
        }
}

/// Searches for a multiplier that serves a square: up to a hundred million random candidates,
/// each the AND of three random numbers; 0 when none serves (or when the mask has more
/// squares than patterns can be made for).
fn find_magic(rook: bool, square: i64, bits: usize) -> (r: u64)
    requires
        0 <= square < 64,
        52 <= bits <= 63,
    ensures
        r == 0 || magic_serves(rook, square as int, bits, r),
{
    let mask = if rook { rook_mask_generation(square) } else { bishop_mask_generation(square) };
    if mask_square_count(mask) > 16 {
        return 0;
    }
    let patterns = generate_blocker_patterns(mask);
    let mut attacks: Vec<u64> = Vec::new();
    let mut i: usize = 0;
    while i < patterns.len()
        invariant
            i <= patterns@.len(),
            0 <= square < 64,
            attacks@.len() == i,
            forall|k: int| 0 <= k < i ==> #[trigger] slider_moves_are(rook, square as int, patterns@[k], attacks@[k]),
        decreases patterns@.len() - i,
    {
        let moves = if rook {
            generate_legal_rook_moves(square, patterns[i])
        } else {
            generate_legal_bishop_moves(square, patterns[i])
        };
        attacks.push(moves);
        proof {
            assert forall|k: int| 0 <= k < i + 1 implies #[trigger] slider_moves_are(rook, square as int, patterns@[k], attacks@[k]) by {
                if k == i {
                    assert(attacks@[k] == moves);
                }
            }
        }
        i = i + 1;
    }
    proof {
        assert(patterns_of(mask, patterns@));
        assert(attacks_of(rook, square as int, patterns@, attacks@));
    }
    let mut k: u32 = 0;
    while k < 100000000
        invariant
            k <= 100000000,
            patterns@.len() == attacks@.len(),
            52 <= bits <= 63,
            patterns_of(mask, patterns@),
            attacks_of(rook, square as int, patterns@, attacks@),
            forall|t: int| 0 <= t < 64 ==> (#[trigger] on_sq(mask, t) <==> if rook { rook_mask_square(square as int, t) } else { bishop_mask_square(square as int, t) }),
        decreases 100000000 - k,
    {
        let magic = random_u64() & random_u64() & random_u64();
        if count_squares(mask.wrapping_mul(magic) & 0xFF00000000000000u64) >= 6 {
            if magic_fits(&patterns, &attacks, magic, bits) {
                proof {
                    assert(patterns_of(mask, patterns@) && attacks_of(rook, square as int, patterns@, attacks@));
                }
                return magic;
            }
        }
        k = k + 1;
    }
    0
}

/// Searches for a rook multiplier for `square` with a right shift of `bits` (see `find_magic`).
pub fn find_rook_magics(square: i64, bits: usize) -> (r: u64)
    requires
        0 <= square < 64,
        52 <= bits <= 63,
    ensures
        r == 0 || magic_serves(true, square as int, bits, r),
{
    find_magic(true, square, bits)
}

/// Searches for a bishop multiplier for `square` with a right shift of `bits` (see
/// `find_magic`).
pub fn find_bishop_magics(square: i64, bits: usize) -> (r: u64)
    requires
        0 <= square < 64,
        52 <= bits <= 63,
    ensures
        r == 0 || magic_serves(false, square as int, bits, r),
{
    find_magic(false, square, bits)
}

/// Whether square `t` is a blocking square of a rook (`rook`) or a bishop on `s`.
pub open spec fn mask_square_of(rook: bool, s: int, t: int) -> bool {
    if rook { rook_mask_square(s, t) } else { bishop_mask_square(s, t) }
}

/// The most blocking squares of a rook (`rook`) or a bishop on `s` among the first `c` squares
/// of rank `k`: for a rook all of them on its own rank and one (its file) on the others; for a
/// bishop one on each of its two diagonals.
pub open spec fn rank_hits(rook: bool, s: int, k: int, c: int) -> int {
    if rook {
        if k == s / 8 { c } else if s % 8 < c { 1 } else { 0 }
    } else {
        let c1 = s % 8 + (k - s / 8);
        let c2 = s % 8 - (k - s / 8);
        (if 0 <= c1 < c { 1int } else { 0 }) + (if 0 <= c2 < c && c2 != c1 { 1int } else { 0 })
    }
}

proof fn lemma_rank_count(mask: u64, rook: bool, s: int, k: nat, c: nat)
    requires
        0 <= s < 64,
        c <= 8,
        8 * k + c <= 64,
        forall|t: int| 0 <= t < 64 ==> (#[trigger] on_sq(mask, t) <==> mask_square_of(rook, s, t)),
    ensures
        mask_squares_upto(mask, 8 * k + c).len() <= mask_squares_upto(mask, 8 * k).len() + rank_hits(rook, s, k as int, c as int),
    decreases c,
{
    if c > 0 {
        lemma_rank_count(mask, rook, s, k, (c - 1) as nat);
        let t = 8 * k + c - 1;
        assert(t / 8 == k && t % 8 == c - 1);
        assert((8 * k + c) as nat == (t + 1) as nat);
        if on_sq(mask, t) {
            assert(mask_square_of(rook, s, t));
        }
    }
}

proof fn lemma_mask_count(mask: u64, rook: bool, s: int, k: nat)
    requires
        0 <= s < 64,
        k <= 8,
        forall|t: int| 0 <= t < 64 ==> (#[trigger] on_sq(mask, t) <==> mask_square_of(rook, s, t)),
    ensures
        mask_squares_upto(mask, 8 * k).len() <= if rook { k + if s / 8 < k { 7int } else { 0 } } else { 2 * k as int },
    decreases k,
{
    if k > 0 {
        let kk = (k - 1) as nat;
        lemma_mask_count(mask, rook, s, kk);
        lemma_rank_count(mask, rook, s, kk, 8);
        assert(8 * kk + 8 == 8 * k);
    }
}

/// A rook's or a bishop's mask has at most sixteen squares.
proof fn lemma_mask_small(mask: u64, rook: bool, s: int)
    requires
        0 <= s < 64,
        forall|t: int| 0 <= t < 64 ==> (#[trigger] on_sq(mask, t) <==> if rook { rook_mask_square(s, t) } else { bishop_mask_square(s, t) }),
    ensures
        mask_squares(mask).len() <= 16,
{
    assert forall|t: int| 0 <= t < 64 implies (#[trigger] on_sq(mask, t) <==> mask_square_of(rook, s, t)) by {}
    lemma_mask_count(mask, rook, s, 8);
}

/// When a square's multiplier is exact (see `magic_exact`), its table gives a slider's attacks
/// for every occupancy: the attacks depend only on the blockers within the mask, and the slot
/// of those blockers holds the attacks of a pattern with the same attacks.
proof fn lemma_lookup_exact(rook: bool, s: int, e: TableEntry, table: Seq<u64>, occ: u64)
    requires
        0 <= s < 64,
        square_table_ok(rook, s, e, table),
        magic_exact(rook, s, e),
    ensures
        slider_moves_are(rook, s, occ, table[magic_slot(e, occ)]),
{
    let x = occ & e.mask;
    assert forall|t: int| 0 <= t < 64 implies (#[trigger] on_sq(x & e.mask, t) <==> on_sq(x, t)) && (on_sq(x, t) ==> on_sq(e.mask, t)) by {
        crate::bitboard::lemma_on_sq_and(occ, e.mask, t as u64);
        crate::bitboard::lemma_on_sq_and(x, e.mask, t as u64);
    }
    crate::bitboard::lemma_same_squares_equal(x & e.mask, x);
    assert(blocks_within(e.mask, x));
    let k = magic_slot(e, x);
    assert(k == magic_slot(e, occ));
    let v = table[k];
    assert(slot_filled(rook, s, e, v, k));
    let q = choose|q: u64| #[trigger] blocks_within(e.mask, q) && magic_slot(e, q) == k && slider_moves_are(rook, s, q, v);
    assert forall|t: int| 0 <= t < 64 implies (#[trigger] on_sq(v, t) <==> if rook { rook_attack(s, occ, t) } else { bishop_attack(s, occ, t) }) by {
        assert(slider_attack_at(rook, s, q, t) <==> slider_attack_at(rook, s, x, t));
        if rook {
            law_rook_attacks_depend_on_mask(s, occ, e.mask, t);
        } else {
            law_bishop_attacks_depend_on_mask(s, occ, e.mask, t);
        }
    }
}

/// The magic bitboard tables of rooks and bishops: each square's magic numbers and attack
/// table.
pub struct MagicTable {
    pub rook_table: Vec<TableEntry>,
    pub rook_attack_table: Vec<Vec<u64>>,
    pub bishop_table: Vec<TableEntry>,
    pub bishop_attack_table: Vec<Vec<u64>>,
}

impl MagicTable {
    /// Each square's magic numbers and attack table fit together (see `square_table_ok`).
    pub open spec fn wf(&self) -> bool {
        &&& self.rook_table@.len() == 64
        &&& self.rook_attack_table@.len() == 64
        &&& self.bishop_table@.len() == 64
        &&& self.bishop_attack_table@.len() == 64
        &&& forall|i: int| 0 <= i < 64 ==> square_table_ok(true, i, #[trigger] self.rook_table@[i], self.rook_attack_table@[i]@)
        &&& forall|i: int| 0 <= i < 64 ==> square_table_ok(false, i, #[trigger] self.bishop_table@[i], self.bishop_attack_table@[i]@)
    }

    /// The tables built from the rook and bishop masks, the fixed magic multipliers and the
    /// shifts `ROOK_LEFT_SHIFT_BITS` and `BISHOP_LEFT_SHIFT_BITS`.
    pub fn new() -> (r: MagicTable)
        ensures
            r.wf(),
            forall|i: int| 0 <= i < 64 ==> (#[trigger] r.rook_table@[i]).shift == ROOK_LEFT_SHIFT_BITS@[i]
                && r.bishop_table@[i].shift == BISHOP_LEFT_SHIFT_BITS@[i]
                && r.rook_table@[i].magic == ROOK_MAGIC@[i] && r.bishop_table@[i].magic == BISHOP_MAGIC@[i],
    {
        let rook_shifts = ROOK_LEFT_SHIFT_BITS;
        let bishop_shifts = BISHOP_LEFT_SHIFT_BITS;
        let rook_magics = ROOK_MAGIC;
        let bishop_magics = BISHOP_MAGIC;
        let mut rook_table: Vec<TableEntry> = Vec::new();
        let mut bishop_table: Vec<TableEntry> = Vec::new();
        let mut rook_attack_table: Vec<Vec<u64>> = Vec::new();
        let mut bishop_attack_table: Vec<Vec<u64>> = Vec::new();
        let mut i: usize = 0;
        while i < 64
            invariant
                i <= 64,
                rook_shifts == ROOK_LEFT_SHIFT_BITS,
                bishop_shifts == BISHOP_LEFT_SHIFT_BITS,
                rook_magics == ROOK_MAGIC,
                bishop_magics == BISHOP_MAGIC,
                rook_table@.len() == i,
                bishop_table@.len() == i,
                rook_attack_table@.len() == i,
                bishop_attack_table@.len() == i,
                forall|k: int| 0 <= k < i ==> square_table_ok(true, k, #[trigger] rook_table@[k], rook_attack_table@[k]@),
                forall|k: int| 0 <= k < i ==> square_table_ok(false, k, #[trigger] bishop_table@[k], bishop_attack_table@[k]@),
                forall|k: int| 0 <= k < i ==> (#[trigger] rook_table@[k]).shift == ROOK_LEFT_SHIFT_BITS@[k]
                    && bishop_table@[k].shift == BISHOP_LEFT_SHIFT_BITS@[k]
                    && rook_table@[k].magic == ROOK_MAGIC@[k] && bishop_table@[k].magic == BISHOP_MAGIC@[k],
            decreases 64 - i,
        {
            let rook_shift = rook_shifts[i];
            let bishop_shift = bishop_shifts[i];
            assert(52 <= rook_shift <= 54);
            assert(55 <= bishop_shift <= 59);
            let rook_entry = TableEntry { mask: rook_mask_generation(i as i64), magic: rook_magics[i], shift: rook_shift as u64 };
            let bishop_entry = TableEntry { mask: bishop_mask_generation(i as i64), magic: bishop_magics[i], shift: bishop_shift as u64 };
            let rook_attacks_of_square = build_attack_table(true, i as i64, rook_entry);
            let bishop_attacks_of_square = build_attack_table(false, i as i64, bishop_entry);
            rook_table.push(rook_entry);
            bishop_table.push(bishop_entry);
            rook_attack_table.push(rook_attacks_of_square);
            bishop_attack_table.push(bishop_attacks_of_square);
            i = i + 1;
        }
        MagicTable { rook_table, rook_attack_table, bishop_table, bishop_attack_table }
    }

    /// The rook attacks from a square that the table holds for an occupancy: the slot of the
    /// occupancy (see `magic_slot`) in the square's attack table.
    pub fn get_rook_attacks(&self, index: usize, occupancy: u64) -> (r: u64)
        requires
            self.wf(),
            index < 64,
        ensures
            r == self.rook_attack_table@[index as int]@[magic_slot(self.rook_table@[index as int], occupancy)],
            magic_exact(true, index as int, self.rook_table@[index as int]) ==> slider_moves_are(true, index as int, occupancy, r),
    {
        let e = self.rook_table[index];
        let product = (occupancy & e.mask).wrapping_mul(e.magic);
        let slot = product >> e.shift;
        proof {
            assert(square_table_ok(true, index as int, e, self.rook_attack_table@[index as int]@));
            if magic_exact(true, index as int, e) {
                lemma_lookup_exact(true, index as int, e, self.rook_attack_table@[index as int]@, occupancy);
            }
            lemma_slot_bound(product, e.shift);
            vstd::arithmetic::power2::lemma2_to64();
            vstd::arithmetic::power2::lemma_pow2_strictly_increases((64 - e.shift) as nat, 13);
            vstd::bits::lemma_u64_shl_is_mul(1, (64 - e.shift) as u64);
        }
        self.rook_attack_table[index][slot as usize]
    }

    /// The bishop attacks from a square that the table holds for an occupancy: the slot of
    /// the occupancy (see `magic_slot`) in the square's attack table.
    pub fn get_bishop_attacks(&self, index: usize, occupancy: u64) -> (r: u64)
        requires
            self.wf(),
            index < 64,
        ensures
            r == self.bishop_attack_table@[index as int]@[magic_slot(self.bishop_table@[index as int], occupancy)],
            magic_exact(false, index as int, self.bishop_table@[index as int]) ==> slider_moves_are(false, index as int, occupancy, r),
    {
        let e = self.bishop_table[index];
        let product = (occupancy & e.mask).wrapping_mul(e.magic);
        let slot = product >> e.shift;
        proof {
            assert(square_table_ok(false, index as int, e, self.bishop_attack_table@[index as int]@));
            if magic_exact(false, index as int, e) {
                lemma_lookup_exact(false, index as int, e, self.bishop_attack_table@[index as int]@, occupancy);
            }
            lemma_slot_bound(product, e.shift);
            vstd::arithmetic::power2::lemma2_to64();
            vstd::arithmetic::power2::lemma_pow2_strictly_increases((64 - e.shift) as nat, 13);
            vstd::bits::lemma_u64_shl_is_mul(1, (64 - e.shift) as u64);
        }
        self.bishop_attack_table[index][slot as usize]
    }
}


/// A slide in one direction sees the same blockers through a mask that holds every square
/// it passes over on the way to a square on the board.
proof fn lemma_slide_through_mask(s: int, dr: int, dc: int, occ: u64, mask: u64, t: int)
    requires
        forall|j: int, k: int| 1 <= j < k < 8 && ray_on_board(s, dr, dc, k) ==> 0 <= #[trigger] ray_square(s, dr, dc, j) < 64
            && on_sq(mask, ray_square(s, dr, dc, j)) && #[trigger] ray_on_board(s, dr, dc, k),
    ensures
        slide_reaches(s, dr, dc, occ, t) <==> slide_reaches(s, dr, dc, occ & mask, t),
{
    if slide_reaches(s, dr, dc, occ, t) {
        let k = choose|k: int| 1 <= k < 8 && ray_on_board(s, dr, dc, k) && #[trigger] ray_square(s, dr, dc, k) == t && forall|j: int|
            1 <= j < k ==> !on_sq(occ, #[trigger] ray_square(s, dr, dc, j));
        assert forall|j: int| 1 <= j < k implies !on_sq(occ & mask, #[trigger] ray_square(s, dr, dc, j)) by {
            assert(ray_on_board(s, dr, dc, k));
            lemma_on_sq_and(occ, mask, ray_square(s, dr, dc, j) as u64);
        }
        assert(ray_square(s, dr, dc, k) == t);
    }
    if slide_reaches(s, dr, dc, occ & mask, t) {
        let k = choose|k: int| 1 <= k < 8 && ray_on_board(s, dr, dc, k) && #[trigger] ray_square(s, dr, dc, k) == t && forall|j: int|
            1 <= j < k ==> !on_sq(occ & mask, #[trigger] ray_square(s, dr, dc, j));
        assert forall|j: int| 1 <= j < k implies !on_sq(occ, #[trigger] ray_square(s, dr, dc, j)) by {
            assert(ray_on_board(s, dr, dc, k));
            assert(!on_sq(occ & mask, ray_square(s, dr, dc, j)));
            lemma_on_sq_and(occ, mask, ray_square(s, dr, dc, j) as u64);
        }
        assert(ray_square(s, dr, dc, k) == t);
    }
}

proof fn lemma_ray_square_coords(s: int, dr: int, dc: int, j: int)
    requires
        0 <= s < 64,
        0 <= s / 8 + j * dr < 8,
        0 <= s % 8 + j * dc < 8,
    ensures
        ray_square(s, dr, dc, j) / 8 == s / 8 + j * dr,
        ray_square(s, dr, dc, j) % 8 == s % 8 + j * dc,
        0 <= ray_square(s, dr, dc, j) < 64,
{
    let a = s / 8 + j * dr;
    let b = s % 8 + j * dc;
    assert((a * 8 + b) / 8 == a && (a * 8 + b) % 8 == b) by (nonlinear_arith)
        requires
            0 <= a < 8,
            0 <= b < 8,
    ;
}

proof fn lemma_rook_rays_in_mask(s: int, mask: u64, dr: int, dc: int)
    requires
        0 <= s < 64,
        (dr == 0 && (dc == 1 || dc == -1)) || (dc == 0 && (dr == 1 || dr == -1)),
        forall|t: int| 0 <= t < 64 ==> (#[trigger] on_sq(mask, t) <==> rook_mask_square(s, t)),
    ensures
        forall|j: int, k: int| 1 <= j < k < 8 && ray_on_board(s, dr, dc, k) ==> 0 <= #[trigger] ray_square(s, dr, dc, j) < 64
            && on_sq(mask, ray_square(s, dr, dc, j)) && #[trigger] ray_on_board(s, dr, dc, k),
{
    assert forall|j: int, k: int| 1 <= j < k < 8 && ray_on_board(s, dr, dc, k) implies 0 <= #[trigger] ray_square(s, dr, dc, j) < 64
        && on_sq(mask, ray_square(s, dr, dc, j)) && #[trigger] ray_on_board(s, dr, dc, k) by {
        assert(0 <= s / 8 + j * dr < 8 && 0 <= s % 8 + j * dc < 8
            && (dr == 0 || 1 <= s / 8 + j * dr <= 6) && (dc == 0 || 1 <= s % 8 + j * dc <= 6)
            && (dr == 0 ==> j * dr == 0) && (dc == 0 ==> j * dc == 0) && j * dr + j * dc != 0) by (nonlinear_arith)
            requires
                1 <= j < k < 8,
                0 <= s / 8 + k * dr < 8,
                0 <= s % 8 + k * dc < 8,
                0 <= s / 8 < 8,
                0 <= s % 8 < 8,
                (dr == 0 && (dc == 1 || dc == -1)) || (dc == 0 && (dr == 1 || dr == -1)),
        ;
        lemma_ray_square_coords(s, dr, dc, j);
        assert(rook_mask_square(s, ray_square(s, dr, dc, j)));
    }
}

proof fn lemma_bishop_rays_in_mask(s: int, mask: u64, dr: int, dc: int)
    requires
        0 <= s < 64,
        (dr == 1 || dr == -1) && (dc == 1 || dc == -1),
        forall|t: int| 0 <= t < 64 ==> (#[trigger] on_sq(mask, t) <==> bishop_mask_square(s, t)),
    ensures
        forall|j: int, k: int| 1 <= j < k < 8 && ray_on_board(s, dr, dc, k) ==> 0 <= #[trigger] ray_square(s, dr, dc, j) < 64
            && on_sq(mask, ray_square(s, dr, dc, j)) && #[trigger] ray_on_board(s, dr, dc, k),
{
    assert forall|j: int, k: int| 1 <= j < k < 8 && ray_on_board(s, dr, dc, k) implies 0 <= #[trigger] ray_square(s, dr, dc, j) < 64
        && on_sq(mask, ray_square(s, dr, dc, j)) && #[trigger] ray_on_board(s, dr, dc, k) by {
        assert(1 <= s / 8 + j * dr <= 6 && 1 <= s % 8 + j * dc <= 6 && (j * dr == j * dc || j * dr == -(j * dc)) && j * dr != 0) by (nonlinear_arith)
            requires
                1 <= j < k < 8,
                0 <= s / 8 + k * dr < 8,
                0 <= s % 8 + k * dc < 8,
                0 <= s / 8 < 8,
                0 <= s % 8 < 8,
                (dr == 1 || dr == -1) && (dc == 1 || dc == -1),
        ;
        lemma_ray_square_coords(s, dr, dc, j);
        assert(bishop_mask_square(s, ray_square(s, dr, dc, j)));
    }
}

/// A rook's attacks depend only on the blockers within its mask: the occupancy and the
/// occupancy cut down to the mask give the same attacks.
pub proof fn law_rook_attacks_depend_on_mask(s: int, occ: u64, mask: u64, t: int)
    requires
        0 <= s < 64,
        forall|u: int| 0 <= u < 64 ==> (#[trigger] on_sq(mask, u) <==> rook_mask_square(s, u)),
    ensures
        rook_attack(s, occ, t) <==> rook_attack(s, occ & mask, t),
{
    lemma_rook_rays_in_mask(s, mask, 1, 0);
    lemma_rook_rays_in_mask(s, mask, -1, 0);
    lemma_rook_rays_in_mask(s, mask, 0, 1);
    lemma_rook_rays_in_mask(s, mask, 0, -1);
    lemma_slide_through_mask(s, 1, 0, occ, mask, t);
    lemma_slide_through_mask(s, -1, 0, occ, mask, t);
    lemma_slide_through_mask(s, 0, 1, occ, mask, t);
    lemma_slide_through_mask(s, 0, -1, occ, mask, t);
}

/// A bishop's attacks depend only on the blockers within its mask: the occupancy and the
/// occupancy cut down to the mask give the same attacks.
pub proof fn law_bishop_attacks_depend_on_mask(s: int, occ: u64, mask: u64, t: int)
    requires
        0 <= s < 64,
        forall|u: int| 0 <= u < 64 ==> (#[trigger] on_sq(mask, u) <==> bishop_mask_square(s, u)),
    ensures
        bishop_attack(s, occ, t) <==> bishop_attack(s, occ & mask, t),
{
    lemma_bishop_rays_in_mask(s, mask, 1, 1);
    lemma_bishop_rays_in_mask(s, mask, 1, -1);
    lemma_bishop_rays_in_mask(s, mask, -1, 1);
    lemma_bishop_rays_in_mask(s, mask, -1, -1);
    lemma_slide_through_mask(s, 1, 1, occ, mask, t);
    lemma_slide_through_mask(s, 1, -1, occ, mask, t);
    lemma_slide_through_mask(s, -1, 1, occ, mask, t);
    lemma_slide_through_mask(s, -1, -1, occ, mask, t);
}

} // verus!

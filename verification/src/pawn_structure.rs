use vstd::prelude::*;
use crate::bitboard::{on_sq, lemma_on_sq_bit, lemma_on_sq_xor, lemma_zero_has_nothing};
use crate::board_utils::{file_of, get_file, get_rank, rank_of};
use crate::move_generation::bit_at;
use crate::zorb_set::random_u64;

verus! {

/// The pawn structure of one side: doubled pawns, isolated pawns, the king's pawn shield and
/// the lowest pawn square (counted from the second rank).
#[derive(Clone, Copy, Debug)]
pub struct PawnInfo {
    pub doubles: u8,
    pub isolated: u8,
    pub pawn_shield: i8,
    pub lsb: u8,
}

/// Whether the pawns all stand between the second and the seventh rank.
pub open spec fn pawns_inside(p: u64) -> bool {
    forall|s: int| 0 <= s < 64 && #[trigger] on_sq(p, s) ==> 8 <= s < 56
}

/// Whether a pawn of `p` stands on the file of `t` on a lower rank.
pub open spec fn frontspan(p: u64, t: int) -> bool {
    exists|s: int| 0 <= s < 64 && #[trigger] on_sq(p, s) && s % 8 == t % 8 && t / 8 > s / 8
}

/// The squares ahead of the pawns on their files (see `frontspan`).
pub fn calculate_frontspan(pawn_occupancy: u64) -> (r: u64)
    ensures
        forall|t: int| 0 <= t < 64 ==> (#[trigger] on_sq(r, t) <==> frontspan(pawn_occupancy, t)),
{
    let mut r: u64 = 0;
    let mut t: u8 = 0;
    proof {
        assert forall|u: int| 0 <= u < 64 implies !#[trigger] on_sq(0u64, u) by {
            lemma_zero_has_nothing(u as u64);
        }
    }
    while t < 64
        invariant
            t <= 64,
            forall|u: int| 0 <= u < 64 ==> (#[trigger] on_sq(r, u) <==> (u < t && frontspan(pawn_occupancy, u))),
        decreases 64 - t,
    {
        let mut found = false;
        let mut s: u8 = 0;
        while s < 64
            invariant
                s <= 64,
                t < 64,
                found == exists|v: int| 0 <= v < s && #[trigger] on_sq(pawn_occupancy, v) && v % 8 == t % 8 && t / 8 > v / 8,
            decreases 64 - s,
        {
            if !found && bit_at(pawn_occupancy, s) && s % 8 == t % 8 && t / 8 > s / 8 {
                found = true;
            }
            s = s + 1;
        }
        if found {
            r = crate::attacks::with_square(r, t);
        }
        t = t + 1;
    }
    r
}

/// The number of squares below `n` where `p` holds.
pub open spec fn count_upto(p: spec_fn(int) -> bool, n: nat) -> nat
    decreases n,
{
    if n == 0 {
        0
    } else {
        count_upto(p, (n - 1) as nat) + if p(n - 1) { 1nat } else { 0nat }
    }
}

proof fn lemma_count_upto_bound(p: spec_fn(int) -> bool, n: nat)
    ensures
        count_upto(p, n) <= n,
    decreases n,
{
    if n > 0 {
        lemma_count_upto_bound(p, (n - 1) as nat);
    }
}

/// The number of pawns standing in the frontspan.
pub fn get_doubled(pawn_occupancy: u64, frontspan: u64) -> (r: u8)
    ensures
        r == count_upto(|s: int| on_sq(pawn_occupancy, s) && on_sq(frontspan, s), 64),
{
    let ghost p = |s: int| on_sq(pawn_occupancy, s) && on_sq(frontspan, s);
    let mut r: u8 = 0;
    let mut s: u8 = 0;
    while s < 64
        invariant
            s <= 64,
            r == count_upto(p, s as nat),
            p == (|s: int| on_sq(pawn_occupancy, s) && on_sq(frontspan, s)),
        decreases 64 - s,
    {
        proof {
            lemma_count_upto_bound(p, s as nat);
        }
        if bit_at(pawn_occupancy, s) && bit_at(frontspan, s) {
            r = r + 1;
        }
        s = s + 1;
    }
    r
}

/// Whether no pawn of `p` stands on a file next to the file of `pos`.
pub open spec fn isolated_spec(pos: int, p: u64) -> bool {
    !exists|s: int| 0 <= s < 64 && #[trigger] on_sq(p, s) && (file_of(s) == file_of(pos) - 1 || file_of(s) == file_of(pos) + 1)
}

/// Whether no pawn stands on a file next to the file of `pos`.
pub fn isolated(pos: u8, pawn_occupancy: u64) -> (r: bool)
    requires
        pos < 64,
    ensures
        r == isolated_spec(pos as int, pawn_occupancy),
{
    let file = get_file(pos);
    let mut s: u8 = 0;
    let mut neighbour = false;
    while s < 64
        invariant
            s <= 64,
            pos < 64,
            file == file_of(pos as int),
            neighbour == exists|v: int| 0 <= v < s && #[trigger] on_sq(pawn_occupancy, v) && (file_of(v) == file_of(pos as int) - 1
                || file_of(v) == file_of(pos as int) + 1),
        decreases 64 - s,
    {
        let f = get_file(s);
        if !neighbour && bit_at(pawn_occupancy, s) && (f as i8 == file as i8 - 1 || f as i8 == file as i8 + 1) {
            neighbour = true;
        }
        s = s + 1;
    }
    !neighbour
}

/// The number of isolated pawns.
pub fn get_isolated(pawn_occupancy: u64) -> (r: u8)
    ensures
        r == count_upto(|s: int| on_sq(pawn_occupancy, s) && isolated_spec(s, pawn_occupancy), 64),
{
    let ghost p = |s: int| on_sq(pawn_occupancy, s) && isolated_spec(s, pawn_occupancy);
    let mut r: u8 = 0;
    let mut s: u8 = 0;
    while s < 64
        invariant
            s <= 64,
            r == count_upto(p, s as nat),
            p == (|s: int| on_sq(pawn_occupancy, s) && isolated_spec(s, pawn_occupancy)),
        decreases 64 - s,
    {
        proof {
            lemma_count_upto_bound(p, s as nat);
        }
        if bit_at(pawn_occupancy, s) && isolated(s, pawn_occupancy) {
            r = r + 1;
        }
        s = s + 1;
    }
    r
}

/// The pawn shield score: -10 for a king off the first two ranks or on the d- or e-file.
pub fn get_pawn_shield(pawn_occupancy: u64, king_position: u8) -> (r: i8)
    requires
        king_position < 64,
    ensures
        r == if rank_of(king_position as int) > 1 || file_of(king_position as int) == 4 || file_of(king_position as int) == 3 {
            -10int
        } else {
            0
        },
{
    let king_file = get_file(king_position);
    let king_rank = get_rank(king_position);
    if king_rank > 1 || king_file == 4 || king_file == 3 {
        return -10;
    }
    0
}

/// The lowest square of `p` at or above `n` (64 when there is none).
pub open spec fn lowest_square_from(p: u64, n: int) -> int
    decreases 64 - n,
{
    if n >= 64 || n < 0 {
        64
    } else if on_sq(p, n) {
        n
    } else {
        lowest_square_from(p, n + 1)
    }
}

/// The lowest square of a bitboard (64 when it is empty).
pub fn lowest_square(p: u64) -> (r: u8)
    ensures
        r == lowest_square_from(p, 0),
        r <= 64,
{
    let mut i: u8 = 0;
    let mut found = false;
    while i < 64 && !found
        invariant
            i <= 64,
            found ==> i < 64 && on_sq(p, i as int),
            lowest_square_from(p, 0) == lowest_square_from(p, i as int),
        decreases 64 - i + if found { 0int } else { 1 },
    {
        if bit_at(p, i) {
            found = true;
        } else {
            i = i + 1;
        }
    }
    i
}

/// The pawn structure of one side's pawns and king (see `PawnInfo`).
pub fn get_pawn_structure_metrics(pawn_zorb: u32, pawn_occupancy: u64, king_position: u8) -> (r: PawnInfo)
    requires
        king_position < 64,
        pawns_inside(pawn_occupancy),
    ensures
        r.doubles == count_upto(|s: int| on_sq(pawn_occupancy, s) && frontspan(pawn_occupancy, s), 64),
        r.isolated == count_upto(|s: int| on_sq(pawn_occupancy, s) && isolated_spec(s, pawn_occupancy), 64),
        r.lsb == lowest_square_from(pawn_occupancy, 0) - 8,
        r.pawn_shield == if rank_of(king_position as int) > 1 || file_of(king_position as int) == 4 || file_of(
            king_position as int,
        ) == 3 {
            -10int
        } else {
            0
        },
{
    let low = lowest_square(pawn_occupancy);
    proof {
        if low < 8 {
            assert(on_sq(pawn_occupancy, low as int)) by {
                lemma_lowest_is_square(pawn_occupancy, 0);
            }
        }
    }
    let span = calculate_frontspan(pawn_occupancy);
    let doubles = get_doubled(pawn_occupancy, span);
    proof {
        lemma_count_upto_ext(
            |s: int| on_sq(pawn_occupancy, s) && on_sq(span, s),
            |s: int| on_sq(pawn_occupancy, s) && frontspan(pawn_occupancy, s),
            64,
        );
    }
    let pawn_shield = get_pawn_shield(pawn_occupancy, king_position);
    let isolated = get_isolated(pawn_occupancy);
    PawnInfo { doubles, lsb: low - 8, isolated, pawn_shield }
}

proof fn lemma_lowest_is_square(p: u64, n: int)
    requires
        0 <= n <= 64,
    ensures
        lowest_square_from(p, n) < 64 ==> on_sq(p, lowest_square_from(p, n)),
        n <= lowest_square_from(p, n) <= 64,
    decreases 64 - n,
{
    if n < 64 && !on_sq(p, n) {
        lemma_lowest_is_square(p, n + 1);
    }
}

proof fn lemma_count_upto_ext(p: spec_fn(int) -> bool, q: spec_fn(int) -> bool, n: nat)
    requires
        forall|s: int| 0 <= s < n ==> #[trigger] p(s) == q(s),
    ensures
        count_upto(p, n) == count_upto(q, n),
    decreases n,
{
    if n > 0 {
        lemma_count_upto_ext(p, q, (n - 1) as nat);
    }
}

/// Random keys for hashing a side's pawns and king: one per pawn square from the second to
/// the seventh rank, one per king square.
pub struct PawnZorb {
    pawn_table: Vec<u32>,
    king_table: Vec<u32>,
}

/// XOR on 32-bit keys is associative and commutative, and undoes itself.
proof fn lemma_xor32(a: u32, b: u32, c: u32)
    ensures
        (a ^ b) ^ c == (a ^ c) ^ b,
        a ^ 0u32 == a,
        (a ^ b) ^ b == a,
        a ^ (b ^ c) == (a ^ b) ^ c,
        a ^ b == b ^ a,
{
    crate::incremental_hash::lemma_xor(a as u64, b as u64, c as u64);
    assert((a as u64) ^ (b as u64) == (a ^ b) as u64);
    assert(((a ^ b) as u64) ^ (c as u64) == ((a ^ b) ^ c) as u64);
    assert(((a ^ c) as u64) ^ (b as u64) == ((a ^ c) ^ b) as u64);
    assert((a as u64) ^ (c as u64) == (a ^ c) as u64);
    assert((a as u64) ^ 0u64 == (a ^ 0u32) as u64);
    assert(((a ^ b) as u64) ^ (b as u64) == ((a ^ b) ^ b) as u64);
    assert((b as u64) ^ (c as u64) == (b ^ c) as u64);
    assert((a as u64) ^ ((b ^ c) as u64) == (a ^ (b ^ c)) as u64);
    assert((b as u64) ^ (a as u64) == (b ^ a) as u64);
}

impl PawnZorb {
    /// The pawn keys, by square counted from the second rank.
    pub closed spec fn pawn_keys(&self) -> Seq<u32> {
        self.pawn_table@
    }

    /// The king keys, by square.
    pub closed spec fn king_keys(&self) -> Seq<u32> {
        self.king_table@
    }

    /// Whether there are 48 pawn keys and 64 king keys.
    pub open spec fn wf(&self) -> bool {
        self.pawn_keys().len() == 48 && self.king_keys().len() == 64
    }

    /// The XOR of the keys of the pawns on squares below `n`.
    pub open spec fn pawns_hash(&self, p: u64, n: nat) -> u32
        decreases n,
    {
        if n == 0 {
            0
        } else {
            let h = self.pawns_hash(p, (n - 1) as nat);
            if on_sq(p, n - 1) { h ^ self.pawn_keys()[n - 1 - 8] } else { h }
        }
    }

    /// Toggling the pawn on square `pos` toggles its key in the hash of the pawns below `n`,
    /// once `n` is past `pos`.
    proof fn lemma_pawns_hash_toggle(&self, p: u64, pos: int, n: nat)
        requires
            8 <= pos < 56,
            n <= 64,
        ensures
            self.pawns_hash(p ^ (1u64 << (pos as u64)), n) == if pos < n {
                self.pawns_hash(p, n) ^ self.pawn_keys()[pos - 8]
            } else {
                self.pawns_hash(p, n)
            },
        decreases n,
    {
        let q = p ^ (1u64 << (pos as u64));
        if n > 0 {
            let m = (n - 1) as nat;
            self.lemma_pawns_hash_toggle(p, pos, m);
            lemma_on_sq_xor(p, 1u64 << (pos as u64), m as u64);
            lemma_on_sq_bit(m as u64, pos as u64);
            let h = self.pawns_hash(p, m);
            let k = self.pawn_keys()[pos - 8];
            let km = self.pawn_keys()[m - 8];
            lemma_xor32(h, k, km);
        }
    }

    /// The hash of the pawns with the pawn on `pos` toggled is the hash shifted by that square:
    /// `shift` keeps the hash of a changed pawn set.
    pub proof fn law_shift_toggles_pawn(&self, p: u64, king_pos: u8, pos: u8)
        requires
            self.wf(),
            king_pos < 64,
            8 <= pos < 56,
        ensures
            self.pawns_hash(p ^ (1u64 << (pos as u64)), 64) ^ self.king_keys()[king_pos as int] == (self.pawns_hash(p, 64)
                ^ self.king_keys()[king_pos as int]) ^ self.pawn_keys()[pos - 8],
    {
        self.lemma_pawns_hash_toggle(p, pos as int, 64);
        lemma_xor32(self.pawns_hash(p, 64), self.pawn_keys()[pos - 8], self.king_keys()[king_pos as int]);
    }

    /// Random keys.
    pub fn new() -> (r: PawnZorb)
        ensures
            r.wf(),
    {
        let mut pawn_table: Vec<u32> = Vec::new();
        let mut i: usize = 0;
        while i < 48
            invariant
                i <= 48,
                pawn_table@.len() == i,
            decreases 48 - i,
        {
            pawn_table.push(random_u64() as u32);
            i = i + 1;
        }
        let mut king_table: Vec<u32> = Vec::new();
        let mut k: usize = 0;
        while k < 64
            invariant
                k <= 64,
                king_table@.len() == k,
            decreases 64 - k,
        {
            king_table.push(random_u64() as u32);
            k = k + 1;
        }
        PawnZorb { pawn_table, king_table }
    }

    /// The hash of a side's pawns and king: the XOR of their keys.
    pub fn hash(&self, pawn_occupancy: u64, king_pos: u8) -> (r: u32)
        requires
            self.wf(),
            pawns_inside(pawn_occupancy),
            king_pos < 64,
        ensures
            r == self.pawns_hash(pawn_occupancy, 64) ^ self.king_keys()[king_pos as int],
    {
        let mut key: u32 = 0;
        let mut pos: u8 = 0;
        while pos < 64
            invariant
                pos <= 64,
                self.wf(),
                pawns_inside(pawn_occupancy),
                key == self.pawns_hash(pawn_occupancy, pos as nat),
            decreases 64 - pos,
        {
            if bit_at(pawn_occupancy, pos) {
                key = key ^ self.pawn_table[(pos - 8) as usize];
            }
            pos = pos + 1;
        }
        key ^ self.king_table[king_pos as usize]
    }

    /// The hash with the pawn key of one square toggled.
    pub fn shift(&self, key: u32, changed_pos_in_64_square_rep: u8) -> (r: u32)
        requires
            self.wf(),
            8 <= changed_pos_in_64_square_rep < 56,
        ensures
            r == key ^ self.pawn_keys()[changed_pos_in_64_square_rep - 8],
    {
        key ^ self.pawn_table[(changed_pos_in_64_square_rep - 8) as usize]
    }

    /// The hash with the king key of one square toggled.
    pub fn shift_king(&self, key: u32, pos: u8) -> (r: u32)
        requires
            self.wf(),
            pos < 64,
        ensures
            r == key ^ self.king_keys()[pos as int],
    {
        key ^ self.king_table[pos as usize]
    }
}

} // verus!

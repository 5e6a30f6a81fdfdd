use vstd::prelude::*;
use crate::attacked_by::{AttackedBy, any_spec};
use crate::attacks::{
    knight_attacks, king_attacks, rook_attacks, bishop_attacks, pawn_threat_sources, knight_step, king_step,
    rook_attack, bishop_attack, pawn_attack_step,
};
use crate::bitboard::{on_sq, popcount, popcount_upto, count_squares, lemma_on_sq_and, lemma_on_sq_xor, lemma_on_sq_not, lemma_on_sq_or, lemma_zero_iff_no_square};
use crate::board_rep::BoardRep;

verus! {

/// The number of squares below `n` where `p` holds.
pub open spec fn count_where_upto(p: spec_fn(int) -> bool, n: nat) -> nat
    decreases n,
{
    if n == 0 {
        0
    } else {
        count_where_upto(p, (n - 1) as nat) + if p(n - 1) { 1nat } else { 0nat }
    }
}

/// The number of squares where `p` holds.
pub open spec fn count_where(p: spec_fn(int) -> bool) -> nat {
    count_where_upto(p, 64)
}

pub proof fn lemma_popcount_where(b: u64, p: spec_fn(int) -> bool, n: nat)
    requires
        n <= 64,
        forall|t: int| 0 <= t < 64 ==> (#[trigger] on_sq(b, t) <==> p(t)),
    ensures
        popcount_upto(b, n) == count_where_upto(p, n),
    decreases n,
{
    if n > 0 {
        lemma_popcount_where(b, p, (n - 1) as nat);
        assert(on_sq(b, n - 1) <==> p(n - 1));
    }
}

/// White pawns attacking a square from below, or black pawns from above.
pub open spec fn pawn_attackers(index: int, pawns: u64, black_turn: bool) -> spec_fn(int) -> bool {
    |t: int| on_sq(pawns, t) && pawn_attack_step(t, !black_turn, index)
}

/// Knights among `att` that attack `index`.
pub open spec fn knight_attackers(index: int, att: u64) -> spec_fn(int) -> bool {
    |t: int| on_sq(att, t) && knight_step(t, index)
}

/// Rooks among `att` that attack `index` with the squares of `occ` occupied.
pub open spec fn rook_attackers(index: int, att: u64, occ: u64) -> spec_fn(int) -> bool {
    |t: int| on_sq(att, t) && rook_attack(index, occ, t)
}

/// Whether a bishop among `att` attacks `index` with the squares of `occ` occupied.
pub open spec fn bishop_attacks_from(index: int, att: u64, occ: u64) -> bool {
    exists|t: int| 0 <= t < 64 && on_sq(att, t) && #[trigger] bishop_attack(index, occ, t)
}

/// Whether a queen among `att` attacks `index` with the squares of `occ` occupied.
pub open spec fn queen_attacks_from(index: int, att: u64, occ: u64) -> bool {
    exists|t: int| 0 <= t < 64 && on_sq(att, t) && (#[trigger] bishop_attack(index, occ, t) || rook_attack(index, occ, t))
}

/// The number of pawns among `att_p_occ` that attack `index` (pawns of the colour other than
/// `black_turn`).
pub fn get_pawn_threats(index: u8, att_p_occ: u64, black_turn: bool) -> (r: u8)
    requires
        index < 64,
    ensures
        r == count_where(pawn_attackers(index as int, att_p_occ, black_turn)),
{
    let sources = pawn_threat_sources(index, black_turn);
    let b = att_p_occ & sources;
    proof {
        assert forall|t: int| 0 <= t < 64 implies (#[trigger] on_sq(b, t) <==> pawn_attackers(index as int, att_p_occ, black_turn)(t)) by {
            lemma_on_sq_and(att_p_occ, sources, t as u64);
        }
        lemma_popcount_where(b, pawn_attackers(index as int, att_p_occ, black_turn), 64);
    }
    count_squares(b)
}

/// The number of knights among `att_k_occupancy` that attack `index`.
pub fn get_knight_threat_count(index: u8, att_k_occupancy: u64) -> (r: u8)
    requires
        index < 64,
    ensures
        r == count_where(knight_attackers(index as int, att_k_occupancy)),
{
    let moves = knight_attacks(index);
    let b = att_k_occupancy & moves;
    let ghost p = knight_attackers(index as int, att_k_occupancy);
    proof {
        assert forall|t: int| 0 <= t < 64 implies (#[trigger] on_sq(b, t) <==> p(t)) by {
            lemma_on_sq_and(att_k_occupancy, moves, t as u64);
            assert(on_sq(moves, t) <==> knight_step(index as int, t));
        }
        lemma_popcount_where(b, p, 64);
    }
    count_squares(b)
}

/// The number of rooks among `att_r_occupancy` that attack `index`, looking through the rooks
/// themselves (stacked rooks all count).
pub fn get_rook_threat_count(index: u8, att_r_occupancy: u64, occupancy: u64) -> (r: u8)
    requires
        index < 64,
    ensures
        r == count_where(rook_attackers(index as int, att_r_occupancy, occupancy ^ att_r_occupancy)),
{
    let occ_without_rooks = occupancy ^ att_r_occupancy;
    let moveboard = rook_attacks(index, occ_without_rooks);
    let b = moveboard & att_r_occupancy;
    let ghost p = rook_attackers(index as int, att_r_occupancy, occupancy ^ att_r_occupancy);
    proof {
        assert forall|t: int| 0 <= t < 64 implies (#[trigger] on_sq(b, t) <==> p(t)) by {
            lemma_on_sq_and(moveboard, att_r_occupancy, t as u64);
        }
        lemma_popcount_where(b, p, 64);
    }
    count_squares(b)
}

/// Whether a bishop among `att_b_occ` attacks `index`.
pub fn has_bishop_threat(index: u8, att_b_occ: u64, occupancy: u64) -> (r: bool)
    requires
        index < 64,
    ensures
        r == bishop_attacks_from(index as int, att_b_occ, occupancy),
{
    let moveboard = bishop_attacks(index, occupancy);
    let b = moveboard & att_b_occ;
    proof {
        lemma_zero_iff_no_square(b);
        assert forall|t: int| 0 <= t < 64 implies (#[trigger] on_sq(b, t) <==> (on_sq(att_b_occ, t) && bishop_attack(index as int, occupancy, t))) by {
            lemma_on_sq_and(moveboard, att_b_occ, t as u64);
        }
        if b != 0 {
            let i = choose|i: u64| i < 64 && on_sq(b, i as int);
            assert(on_sq(b, i as int));
        } else {
            assert forall|t: int| 0 <= t < 64 && on_sq(att_b_occ, t) implies !#[trigger] bishop_attack(index as int, occupancy, t) by {
                assert(!on_sq(b, (t as u64) as int));
            }
        }
    }
    b != 0
}

/// Whether a queen among `att_q_occ` attacks `index`, looking through the attacker's own
/// bishops and rooks.
pub fn has_queen_threat(index: u8, att_q_occ: u64, occupancy: u64, b_occupancy: u64, r_occupancy: u64) -> (r: bool)
    requires
        index < 64,
    ensures
        r == queen_attacks_from(index as int, att_q_occ, occupancy & !b_occupancy & !r_occupancy),
{
    let occ = occupancy & !b_occupancy & !r_occupancy;
    let bm = bishop_attacks(index, occ);
    let rm = rook_attacks(index, occ);
    let b = (bm | rm) & att_q_occ;
    proof {
        lemma_zero_iff_no_square(b);
        assert forall|t: int| 0 <= t < 64 implies (#[trigger] on_sq(b, t) <==> (on_sq(att_q_occ, t) && (bishop_attack(index as int, occ, t) || rook_attack(index as int, occ, t)))) by {
            lemma_on_sq_and(bm | rm, att_q_occ, t as u64);
            lemma_on_sq_or(bm, rm, t as u64);
        }
        if b != 0 {
            let i = choose|i: u64| i < 64 && on_sq(b, i as int);
            assert(on_sq(b, i as int));
        } else {
            assert forall|t: int| 0 <= t < 64 && on_sq(att_q_occ, t) implies !(#[trigger] bishop_attack(index as int, occ, t) || rook_attack(index as int, occ, t)) by {
                assert(!on_sq(b, (t as u64) as int));
            }
        }
    }
    b != 0
}

/// Whether the king on `a_king_pos` attacks `index`.
pub fn has_king_threat(index: u8, a_king_pos: u8) -> (r: bool)
    requires
        index < 64,
        a_king_pos < 64,
    ensures
        r == king_step(a_king_pos as int, index as int),
{
    let moveboard = king_attacks(a_king_pos);
    let r = (moveboard >> (index as u64)) & 1 == 1;
    assert(r == on_sq(moveboard, index as int));
    r
}

/// The attackers of a square by one side, as `get_attacked_by` counts them.
pub open spec fn attacked_by_spec(b: BoardRep, index: int, attacker_is_black: bool) -> AttackedBy {
    let att = if attacker_is_black { b.black_occupancy } else { b.white_occupancy };
    let king = if attacker_is_black { b.black_king_position } else { b.white_king_position };
    AttackedBy {
        pawns: count_where(pawn_attackers(index, att & b.pawn_bitboard, !attacker_is_black)) as u8,
        knights: count_where(knight_attackers(index, att & b.knight_bitboard)) as u8,
        bishop: bishop_attacks_from(index, att & b.bishop_bitboard, b.occupancy),
        rooks: count_where(rook_attackers(index, att & b.rook_bitboard, b.occupancy ^ (att & b.rook_bitboard))) as u8,
        queen: queen_attacks_from(index, att & b.queen_bitboard, b.occupancy & !(att & b.bishop_bitboard) & !(att & b.rook_bitboard)),
        king: king_step(king as int, index),
    }
}

pub proof fn lemma_count_where_bound(p: spec_fn(int) -> bool, n: nat)
    requires
        n <= 64,
    ensures
        count_where_upto(p, n) <= n,
    decreases n,
{
    if n > 0 {
        lemma_count_where_bound(p, (n - 1) as nat);
    }
}

/// The attacker counts of `attacked_by_spec` are at most 64.
pub proof fn lemma_attacked_by_wf(b: BoardRep, index: int, attacker_is_black: bool)
    ensures
        attacked_by_spec(b, index, attacker_is_black).wf(),
{
    let att = if attacker_is_black { b.black_occupancy } else { b.white_occupancy };
    lemma_count_where_bound(pawn_attackers(index, att & b.pawn_bitboard, !attacker_is_black), 64);
    lemma_count_where_bound(knight_attackers(index, att & b.knight_bitboard), 64);
    lemma_count_where_bound(rook_attackers(index, att & b.rook_bitboard, b.occupancy ^ (att & b.rook_bitboard)), 64);
}

impl BoardRep {
    /// The pieces of one side that attack a square.
    pub fn get_attacked_by(&self, index: u8, attacker_is_black: bool) -> (r: AttackedBy)
        requires
            index < 64,
            self.wf(),
        ensures
            r == attacked_by_spec(*self, index as int, attacker_is_black),
            r.wf(),
    {
        proof {
            lemma_attacked_by_wf(*self, index as int, attacker_is_black);
        }
        let attacker_occupancy = if attacker_is_black {
            self.black_occupancy
        } else {
            self.white_occupancy
        };
        let pawns = get_pawn_threats(index, attacker_occupancy & self.pawn_bitboard, !attacker_is_black);
        let knights = get_knight_threat_count(index, attacker_occupancy & self.knight_bitboard);
        let bishop = has_bishop_threat(index, attacker_occupancy & self.bishop_bitboard, self.occupancy);
        let rooks = get_rook_threat_count(index, attacker_occupancy & self.rook_bitboard, self.occupancy);
        let queen = has_queen_threat(
            index,
            attacker_occupancy & self.queen_bitboard,
            self.occupancy,
            attacker_occupancy & self.bishop_bitboard,
            attacker_occupancy & self.rook_bitboard,
        );
        let king = has_king_threat(
            index,
            if attacker_is_black {
                self.black_king_position
            } else {
                self.white_king_position
            },
        );
        let r = AttackedBy { pawns, knights, bishop, rooks, queen, king };
        let ghost sp = attacked_by_spec(*self, index as int, attacker_is_black);
        assert(r.pawns == sp.pawns);
        assert(r.knights == sp.knights);
        assert(r.bishop == sp.bishop);
        assert(r.rooks == sp.rooks);
        assert(r.queen == sp.queen);
        assert(r.king == sp.king);
        r
    }

    /// Whether one side attacks a square; with `exclude_king`, the defending king is taken off
    /// the board first, so that squares behind it along a slider's line count as attacked.
    pub fn has_at_least_one_attacker(&self, index: u8, attacker_is_black: bool, exclude_king: bool) -> (r: bool)
        requires
            index < 64,
            self.wf(),
        ensures
            r == any_spec(attacked_by_spec(
                if exclude_king {
                    BoardRep {
                        occupancy: self.occupancy ^ (1u64 << (if attacker_is_black {
                            self.white_king_position
                        } else {
                            self.black_king_position
                        })),
                        ..*self
                    }
                } else {
                    *self
                },
                index as int,
                attacker_is_black,
            )),
    {
        let mut b = *self;
        if exclude_king {
            let k = if attacker_is_black { self.white_king_position } else { self.black_king_position };
            b.occupancy = self.occupancy ^ (1u64 << k);
        }
        proof {
            lemma_attacked_by_wf(b, index as int, attacker_is_black);
        }
        let attacker_occupancy = if attacker_is_black {
            b.black_occupancy
        } else {
            b.white_occupancy
        };
        get_pawn_threats(index, attacker_occupancy & b.pawn_bitboard, !attacker_is_black) > 0
            || get_knight_threat_count(index, attacker_occupancy & b.knight_bitboard) > 0
            || has_bishop_threat(index, attacker_occupancy & b.bishop_bitboard, b.occupancy)
            || get_rook_threat_count(index, attacker_occupancy & b.rook_bitboard, b.occupancy) > 0
            || has_queen_threat(
            index,
            attacker_occupancy & b.queen_bitboard,
            b.occupancy,
            attacker_occupancy & b.bishop_bitboard,
            attacker_occupancy & b.rook_bitboard,
        ) || has_king_threat(
            index,
            if attacker_is_black {
                b.black_king_position
            } else {
                b.white_king_position
            },
        )
    }
}

/// A cache of the attackers of each square by each side, for one board.
#[derive(Clone, Debug)]
pub struct AttackAndDefendTable {
    pub white: Vec<Option<AttackedBy>>,
    pub black: Vec<Option<AttackedBy>>,
}

impl AttackAndDefendTable {
    /// Both tables have an entry per square.
    pub open spec fn wf(&self) -> bool {
        self.white@.len() == 64 && self.black@.len() == 64
    }

    /// Every cached entry holds the attackers that the board has.
    pub open spec fn valid_for(&self, b: BoardRep) -> bool {
        &&& self.wf()
        &&& forall|i: int| 0 <= i < 64 ==> (#[trigger] self.white@[i] matches Some(e) ==> e == attacked_by_spec(b, i, false))
        &&& forall|i: int| 0 <= i < 64 ==> (#[trigger] self.black@[i] matches Some(e) ==> e == attacked_by_spec(b, i, true))
    }

    /// An empty cache.
    pub fn new() -> (r: AttackAndDefendTable)
        ensures
            r.wf(),
            forall|i: int| 0 <= i < 64 ==> #[trigger] r.white@[i] is None && r.black@[i] is None,
            forall|b: BoardRep| r.valid_for(b),
    {
        let mut white: Vec<Option<AttackedBy>> = Vec::new();
        let mut black: Vec<Option<AttackedBy>> = Vec::new();
        let mut i: usize = 0;
        while i < 64
            invariant
                i <= 64,
                white@.len() == i,
                black@.len() == i,
                forall|j: int| 0 <= j < i ==> #[trigger] white@[j] is None && black@[j] is None,
            decreases 64 - i,
        {
            white.push(None);
            black.push(None);
            i += 1;
        }
        let r = AttackAndDefendTable { white, black };
        assert forall|b: BoardRep| r.valid_for(b) by {
            assert forall|i: int| 0 <= i < 64 implies (#[trigger] r.white@[i] matches Some(e) ==> e == attacked_by_spec(b, i, false)) by {
                assert(r.white@[i] is None);
            }
            assert forall|i: int| 0 <= i < 64 implies (#[trigger] r.black@[i] matches Some(e) ==> e == attacked_by_spec(b, i, true)) by {
                assert(r.white@[i] is None);
                assert(r.black@[i] is None);
            }
        }
        r
    }

    /// The attackers of a square by one side, from the cache or computed and cached.
    pub fn get_attacked_by(&mut self, index: u8, board: BoardRep, attacker_is_black: bool) -> (r: AttackedBy)
        requires
            index < 64,
            board.wf(),
            old(self).valid_for(board),
        ensures
            final(self).valid_for(board),
            r == attacked_by_spec(board, index as int, attacker_is_black),
            r.wf(),
    {
        proof {
            lemma_attacked_by_wf(board, index as int, attacker_is_black);
        }
        let existing = if attacker_is_black {
            self.black[index as usize]
        } else {
            self.white[index as usize]
        };
        match existing {
            Some(e) => e,
            None => {
                let e = board.get_attacked_by(index, attacker_is_black);
                if attacker_is_black {
                    self.black.set(index as usize, Some(e));
                } else {
                    self.white.set(index as usize, Some(e));
                }
                e
            },
        }
    }

    /// Whether one side attacks a square as `has_at_least_one_attacker` tells it: from the
    /// cached attackers when there are some, else from the board (with the defending king taken
    /// off when `exclude_king`).
    pub open spec fn attacked_spec(&self, index: int, attacker_is_black: bool, exclude_king: bool, board: BoardRep) -> bool {
        match (if attacker_is_black { self.black@[index] } else { self.white@[index] }) {
            Some(e) => any_spec(e),
            None => any_spec(attacked_by_spec(
                if exclude_king {
                    BoardRep {
                        occupancy: board.occupancy ^ (1u64 << (if attacker_is_black {
                            board.white_king_position
                        } else {
                            board.black_king_position
                        })),
                        ..board
                    }
                } else {
                    board
                },
                index,
                attacker_is_black,
            )),
        }
    }

    /// Whether one side attacks a square: from the cached attackers when there are some
    /// (which count the king and do not exclude it), else computed from the board.
    pub fn has_at_least_one_attacker(&self, index: u8, attacker_is_black: bool, exclude_king: bool, board: BoardRep) -> (r: bool)
        requires
            index < 64,
            board.wf(),
            self.wf(),
        ensures
            r == self.attacked_spec(index as int, attacker_is_black, exclude_king, board),
            (if attacker_is_black { self.black@[index as int] } else { self.white@[index as int] }) matches Some(e)
                ==> r == any_spec(e),
            (if attacker_is_black { self.black@[index as int] } else { self.white@[index as int] }) is None ==> r
                == any_spec(attacked_by_spec(
                if exclude_king {
                    BoardRep {
                        occupancy: board.occupancy ^ (1u64 << (if attacker_is_black {
                            board.white_king_position
                        } else {
                            board.black_king_position
                        })),
                        ..board
                    }
                } else {
                    board
                },
                index as int,
                attacker_is_black,
            )),
    {
        let existing = if attacker_is_black {
            self.black[index as usize]
        } else {
            self.white[index as usize]
        };
        match existing {
            None => board.has_at_least_one_attacker(index, attacker_is_black, exclude_king),
            Some(e) => e.any(),
        }
    }
}

/// A cached attacker count is the board's: looking a square up twice, or after other lookups,
/// gives the same attackers as computing them afresh.
pub proof fn law_cache_agrees(t: AttackAndDefendTable, b: BoardRep, index: int, black: bool)
    requires
        t.valid_for(b),
        0 <= index < 64,
    ensures
        (if black { t.black@[index] } else { t.white@[index] }) matches Some(e) ==> e == attacked_by_spec(b, index, black),
{
}

} // verus!

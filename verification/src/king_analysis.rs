use vstd::prelude::*;
use crate::attacks::{bishop_attack, knight_attacks, knight_step, pawn_threat_sources, pawn_attack_step, ray_on_board, ray_square, rook_attack, slide_reaches};
use crate::bitboard::{on_sq, popcount, count_squares};
use crate::board_rep::BoardRep;

verus! {

/// How a piece threatens the king.
#[derive(Clone, Copy, PartialEq, Eq, Debug, Structural)]
pub enum ThreatType {
    NoThreat,
    DiagonalSlide,
    OrthogonalSlide,
    Knight,
    Pawn,
}

/// A slider `from` that would attack the king but for the single piece on `at`; when that piece
/// is not the king's own (`reveal_attack`), moving it reveals an attack on the king.
#[derive(Clone, Copy, PartialEq, Eq, Debug, Structural)]
pub struct ThreatRaycastCollision {
    pub from: u8,
    pub at: u8,
    pub reveal_attack: bool,
    pub threat_type: ThreatType,
}

/// A piece that gives check.
#[derive(Clone, Copy, PartialEq, Eq, Debug, Structural)]
pub struct ThreatSource {
    pub from: u8,
    pub threat_type: ThreatType,
}

/// What threatens a king: whether it is in check, in double check, the checking piece (one
/// of them), and the pins along the king's lines.
#[derive(Debug, Clone, PartialEq)]
pub struct KingPositionAnalysis {
    pub check: bool,
    pub double_check: bool,
    pub threat_source: Option<ThreatSource>,
    pub pins: Vec<ThreatRaycastCollision>,
}

/// The first pin among `pins` of the piece on square `at`.
pub open spec fn first_pin(pins: Seq<ThreatRaycastCollision>, at: int) -> Option<ThreatRaycastCollision>
    decreases pins.len(),
{
    if pins.len() == 0 {
        None
    } else if pins[0].at == at {
        Some(pins[0])
    } else {
        first_pin(pins.drop_first(), at)
    }
}

/// The squares on a king line or diagonal strictly between two squares (none when the squares
/// are not on one line).
pub open spec fn line_between(a: int, b: int, t: int) -> bool {
    let (ra, ca, rb, cb, rt, ct) = (a / 8, a % 8, b / 8, b % 8, t / 8, t % 8);
    &&& 0 <= t < 64
    &&& (ra == rb && rt == ra && ((ca < ct < cb) || (cb < ct < ca))) || (ca == cb && ct == ca && ((ra < rt < rb)
        || (rb < rt < ra))) || ((ra - rb == ca - cb || ra - rb == cb - ca) && ra != rb && ((ra < rt < rb) || (rb < rt
        < ra)) && (rt - ra == ct - ca || rt - ra == ca - ct) && (if ra - rb == ca - cb {
        rt - ra == ct - ca
    } else {
        rt - ra == ca - ct
    }))
}

/// Whether `t` lies strictly between `a` and `b` on a line or diagonal.
pub fn is_between(a: u8, b: u8, t: u8) -> (r: bool)
    requires
        a < 64,
        b < 64,
        t < 64,
    ensures
        r == line_between(a as int, b as int, t as int),
{
    let (ra, ca, rb, cb, rt, ct) = ((a / 8) as i8, (a % 8) as i8, (b / 8) as i8, (b % 8) as i8, (t / 8) as i8, (t % 8) as i8);
    (ra == rb && rt == ra && ((ca < ct && ct < cb) || (cb < ct && ct < ca))) || (ca == cb && ct == ca && ((ra < rt
        && rt < rb) || (rb < rt && rt < ra))) || ((ra - rb == ca - cb || ra - rb == cb - ca) && ra != rb && ((ra < rt
        && rt < rb) || (rb < rt && rt < ra)) && (rt - ra == ct - ca || rt - ra == ca - ct) && (if ra - rb == ca - cb {
        rt - ra == ct - ca
    } else {
        rt - ra == ca - ct
    }))
}

/// The squares strictly between two squares on a line or diagonal (0 when they are not).
pub fn squares_between(a: u8, b: u8) -> (r: u64)
    requires
        a < 64,
        b < 64,
    ensures
        forall|t: int| 0 <= t < 64 ==> (#[trigger] on_sq(r, t) <==> line_between(a as int, b as int, t)),
{
    let mut r: u64 = 0;
    let mut t: u8 = 0;
    proof {
        assert forall|u: int| 0 <= u < 64 implies !#[trigger] on_sq(0u64, u) by {
            crate::bitboard::lemma_zero_has_nothing(u as u64);
        }
    }
    while t < 64
        invariant
            t <= 64,
            a < 64,
            b < 64,
            forall|u: int| 0 <= u < 64 ==> (#[trigger] on_sq(r, u) <==> (u < t && line_between(a as int, b as int, u))),
        decreases 64 - t,
    {
        if is_between(a, b, t) {
            r = crate::attacks::with_square(r, t);
        }
        t = t + 1;
    }
    r
}

/// Whether square `t` is attacked by a pawn of the given colour among `pawns`.
pub open spec fn pawn_checks(king_pos: int, black_turn: bool, pawns: u64, t: int) -> bool {
    on_sq(pawns, t) && pawn_attack_step(t, !black_turn, king_pos)
}

/// The pawns among `pawns` that attack the king.
pub open spec fn pawn_checkers(king_pos: int, black_turn: bool, pawns: u64) -> spec_fn(int) -> bool {
    |t: int| pawn_checks(king_pos, black_turn, pawns, t)
}

/// Whether exactly one pawn among `pawns` attacks the king, which is what counts as a check
/// by a pawn.
pub open spec fn pawn_single_check(king_pos: int, black_turn: bool, pawns: u64) -> bool {
    crate::attack_and_defend_lookups::count_where(pawn_checkers(king_pos, black_turn, pawns)) == 1
}

/// Whether a pawn among `pawn_threats` gives check to the king: exactly one attacking pawn
/// counts as a check by a pawn; none or two count as none.
pub fn is_pawn_check(king_pos: u8, black_turn: bool, pawn_threats: u64, check: bool) -> (r: (
    bool,
    bool,
    Option<ThreatSource>,
))
    requires
        king_pos < 64,
    ensures
        r.1 ==> r.0,
        check ==> r.0,
        !r.0 ==> !check,
        r.1 == (check && r.2 is Some),
        r.2 matches Some(ts) ==> ts.from < 64 && ts.threat_type == ThreatType::Pawn && pawn_checks(
            king_pos as int,
            black_turn,
            pawn_threats,
            ts.from as int,
        ),
        r.0 == (check || r.2 is Some),
        r.2 is Some <==> pawn_single_check(king_pos as int, black_turn, pawn_threats),
{
    let sources = pawn_threat_sources(king_pos, black_turn);
    let actual_threat_positions = pawn_threats & sources;
    proof {
        assert forall|t: int| 0 <= t < 64 implies (#[trigger] on_sq(actual_threat_positions, t) <==> pawn_checkers(
            king_pos as int,
            black_turn,
            pawn_threats,
        )(t)) by {
            crate::bitboard::lemma_on_sq_and(pawn_threats, sources, t as u64);
        }
        crate::attack_and_defend_lookups::lemma_popcount_where(actual_threat_positions, pawn_checkers(king_pos as int, black_turn, pawn_threats), 64);
    }
    if count_squares(actual_threat_positions) != 1 {
        return (check, false, None);
    }
    proof {
        crate::bitboard::lemma_zero_iff_no_square(actual_threat_positions);
        if actual_threat_positions == 0 {
            crate::bitboard::lemma_zero_popcount_upto(64);
        }
    }
    let double_check = check;
    let mut lsb: u8 = 0;
    let mut found = false;
    while lsb < 64 && !found
        invariant
            lsb <= 64,
            found ==> lsb < 64 && on_sq(actual_threat_positions, lsb as int),
            !found ==> forall|i: int| 0 <= i < lsb ==> !#[trigger] on_sq(actual_threat_positions, i),
        decreases 64 - lsb + if found { 0int } else { 1 },
    {
        if (actual_threat_positions >> (lsb as u64)) & 1 == 1 {
            found = true;
        } else {
            lsb = lsb + 1;
        }
    }
    if !found || lsb >= 64 {
        proof {
            assert forall|i: u64| i < 64 implies !#[trigger] on_sq(actual_threat_positions, i as int) by {}
        }
        return (check, false, None);
    }
    proof {
        crate::bitboard::lemma_on_sq_and(pawn_threats, sources, lsb as u64);
        assert(on_sq(sources, lsb as int));
    }
    let threat = ThreatSource { from: lsb, threat_type: ThreatType::Pawn };
    (true, double_check, Some(threat))
}

/// Whether a knight among `knights` attacks the king.
pub open spec fn knight_check(king_pos: int, knights: u64) -> bool {
    exists|t: int| 0 <= t < 64 && #[trigger] on_sq(knights, t) && knight_step(t, king_pos)
}

/// Whether two knights among `knights` attack the king.
pub open spec fn knight_double(king_pos: int, knights: u64) -> bool {
    exists|t1: int, t2: int|
        0 <= t1 < t2 < 64 && #[trigger] on_sq(knights, t1) && knight_step(t1, king_pos) && #[trigger] on_sq(knights, t2)
            && knight_step(t2, king_pos)
}

/// Whether a knight among `knights` gives check: the first checking knight is reported, and a
/// second check (from an earlier check or another knight) is a double check.
pub fn in_check_from_knights(king_pos: u8, knights: u64, check: bool) -> (r: (bool, bool, Option<ThreatSource>))
    requires
        king_pos < 64,
    ensures
        r.1 == ((check && knight_check(king_pos as int, knights)) || knight_double(king_pos as int, knights)),
        r.1 ==> r.0,
        check ==> r.0,
        r.2 matches Some(ts) ==> ts.from < 64 && ts.threat_type == ThreatType::Knight && on_sq(knights, ts.from as int)
            && knight_step(ts.from as int, king_pos as int),
        r.0 == (check || r.2 is Some),
        r.2 is Some <==> knight_check(king_pos as int, knights),
{
    let mut check = check;
    let ghost check0 = check;
    let mut double_check = false;
    let mut threat: Option<ThreatSource> = None;
    let mut knight_pos: u8 = 0;
    while knight_pos < 64 && !double_check
        invariant
            knight_pos <= 64,
            king_pos < 64,
            double_check ==> check,
            check0 ==> check,
            threat matches Some(ts) ==> ts.from < 64 && ts.threat_type == ThreatType::Knight && on_sq(knights, ts.from as int)
                && knight_step(ts.from as int, king_pos as int),
            check == (check0 || threat is Some),
            !double_check ==> (threat is Some <==> exists|t: int| 0 <= t < knight_pos && #[trigger] on_sq(knights, t) && knight_step(t, king_pos as int)),
            double_check ==> threat is Some,
            threat matches Some(ts) ==> ts.from < knight_pos,
            !double_check ==> forall|t: int|
                0 <= t < knight_pos && #[trigger] on_sq(knights, t) && knight_step(t, king_pos as int) ==> (threat matches Some(ts)
                    && ts.from == t),
            !double_check && check0 ==> threat is None,
            double_check ==> (check0 && knight_check(king_pos as int, knights)) || knight_double(king_pos as int, knights),
        decreases 64 - knight_pos,
    {
        let ghost before = threat;
        let ghost check_before = check;
        if (knights >> (knight_pos as u64)) & 1 == 1 {
            let knight_threat_board = knight_attacks(knight_pos);
            if (knight_threat_board >> (king_pos as u64)) & 1 == 1 {
                assert(on_sq(knight_threat_board, king_pos as int));
                assert(on_sq(knights, knight_pos as int));
                assert(knight_step(knight_pos as int, king_pos as int));
                double_check = check;
                check = true;
                threat = Some(ThreatSource { from: knight_pos, threat_type: ThreatType::Knight });
                proof {
                    if double_check {
                        if check0 {
                            assert(knight_check(king_pos as int, knights));
                        } else {
                            let t0 = before.unwrap().from as int;
                            assert(on_sq(knights, t0) && knight_step(t0, king_pos as int));
                            assert(knight_double(king_pos as int, knights));
                        }
                    }
                }
            } else {
                assert(!on_sq(knight_threat_board, king_pos as int));
                assert(!knight_step(knight_pos as int, king_pos as int));
            }
        } else {
            assert(!on_sq(knights, knight_pos as int));
        }
        proof {
            if !double_check {
                if threat is Some {
                    if before is Some {
                        let t = choose|t: int| 0 <= t < knight_pos && #[trigger] on_sq(knights, t) && knight_step(t, king_pos as int);
                    } else {
                        assert(on_sq(knights, knight_pos as int) && knight_step(knight_pos as int, king_pos as int));
                    }
                }
            }
        }
        knight_pos = knight_pos + 1;
    }
    proof {
        if let Some(ts) = threat {
            assert(on_sq(knights, ts.from as int) && knight_step(ts.from as int, king_pos as int));
            assert(knight_check(king_pos as int, knights));
        } else {
            assert(!double_check);
            assert(knight_pos == 64);
            if knight_check(king_pos as int, knights) {
                let t = choose|t: int| 0 <= t < 64 && #[trigger] on_sq(knights, t) && knight_step(t, king_pos as int);
                assert(0 <= t < knight_pos);
            }
        }
        if !double_check {
            assert(knight_pos == 64);
            if knight_double(king_pos as int, knights) {
                let (t1, t2) = choose|t1: int, t2: int|
                    0 <= t1 < t2 < 64 && #[trigger] on_sq(knights, t1) && knight_step(t1, king_pos as int) && #[trigger] on_sq(knights, t2)
                        && knight_step(t2, king_pos as int);
                assert(threat.unwrap().from == t1);
                assert(threat.unwrap().from == t2);
            }
            if check0 && knight_check(king_pos as int, knights) {
                let t = choose|t: int| 0 <= t < 64 && #[trigger] on_sq(knights, t) && knight_step(t, king_pos as int);
                assert(threat is Some && threat.unwrap().from == t);
            }
        }
    }
    (check, double_check, threat)
}

/// Whether the piece on `t` is a threat that a slide from `pos` in direction (`dr` ranks,
/// `dc` bit columns) meets first.
pub open spec fn slide_threat(pos: int, dr: int, dc: int, threats: u64, occupancy: u64, t: int) -> bool {
    0 <= t < 64 && on_sq(threats, t) && on_sq(occupancy, t) && slide_reaches(pos, dr, dc, occupancy, t)
}

/// Whether, going from `pos` in direction (`dr` ranks, `dc` bit columns), the square `at` is
/// the first occupied square and `from` the second.
pub open spec fn pin_on_ray(pos: int, dr: int, dc: int, occupancy: u64, at: int, from: int) -> bool {
    exists|k1: int, k2: int|
        #![trigger ray_square(pos, dr, dc, k1), ray_square(pos, dr, dc, k2)]
        1 <= k1 < k2 < 8 && ray_on_board(pos, dr, dc, k2) && ray_square(pos, dr, dc, k1) == at && ray_square(pos, dr, dc, k2) == from
            && forall|j: int| 1 <= j < k2 && j != k1 ==> !on_sq(occupancy, #[trigger] ray_square(pos, dr, dc, j))
}

/// Whether a reported pin is one along the king's diagonals (or lines): a threat among
/// `threats` is the second piece met from the king in one direction, the pinned piece the first.
pub open spec fn slider_pin(king: int, diagonal: bool, threats: u64, occupancy: u64, p: ThreatRaycastCollision) -> bool {
    &&& on_sq(threats, p.from as int)
    &&& exists|d: int|
        0 <= d < 4 && #[trigger] pin_on_ray(
            king,
            slide_direction(diagonal, d).0,
            slide_direction(diagonal, d).1,
            occupancy,
            p.at as int,
            p.from as int,
        )
}

proof fn lemma_off_board_stays_off(s: int, dr: int, dc: int, k: int, kk: int)
    requires
        !ray_on_board(s, dr, dc, k),
        ray_on_board(s, dr, dc, 1) || k == 1,
        kk >= k,
        k >= 1,
        -1 <= dr <= 1,
        -1 <= dc <= 1,
        0 <= s < 64,
    ensures
        !ray_on_board(s, dr, dc, kk),
{
    assert(!ray_on_board(s, dr, dc, kk)) by (nonlinear_arith)
        requires
            !ray_on_board(s, dr, dc, k),
            ray_on_board(s, dr, dc, 1) || k == 1,
            kk >= k,
            k >= 1,
            -1 <= dr <= 1,
            -1 <= dc <= 1,
            0 <= s < 64,
    {
    }
}

/// Whether `at` and `from` are the first two pieces met from `pos` in direction (`dr` ranks,
/// `dc` bit columns), the second among `threats` and the first not: a pin.
pub open spec fn pin_candidate(pos: int, dr: int, dc: int, threats: u64, occupancy: u64, at: int, from: int) -> bool {
    &&& pin_on_ray(pos, dr, dc, occupancy, at, from)
    &&& on_sq(occupancy, at)
    &&& on_sq(occupancy, from)
    &&& on_sq(threats, from)
    &&& !on_sq(threats, at)
}

/// Walking a ray up to the occupied `k`-th square, with no other piece before it but the one on
/// the `pin_k`-th (none when `pin_k` is 0), the first two pieces met are those two.
proof fn lemma_first_two_met(s: int, dr: int, dc: int, occupancy: u64, at: int, from: int, k: int, pin_k: int)
    requires
        1 <= k,
        0 <= pin_k < k,
        pin_k >= 1 ==> on_sq(occupancy, ray_square(s, dr, dc, pin_k)),
        forall|j: int| 1 <= j < k && j != pin_k ==> !on_sq(occupancy, #[trigger] ray_square(s, dr, dc, j)),
        on_sq(occupancy, ray_square(s, dr, dc, k)),
        pin_on_ray(s, dr, dc, occupancy, at, from),
        on_sq(occupancy, at),
        on_sq(occupancy, from),
    ensures
        pin_k >= 1 ==> at == ray_square(s, dr, dc, pin_k) && from == ray_square(s, dr, dc, k),
        pin_k == 0 ==> at == ray_square(s, dr, dc, k),
{
    let (k1, k2) = choose|k1: int, k2: int|
        #![trigger ray_square(s, dr, dc, k1), ray_square(s, dr, dc, k2)]
        1 <= k1 < k2 < 8 && ray_on_board(s, dr, dc, k2) && ray_square(s, dr, dc, k1) == at && ray_square(s, dr, dc, k2) == from
            && forall|j: int| 1 <= j < k2 && j != k1 ==> !on_sq(occupancy, #[trigger] ray_square(s, dr, dc, j));
    if pin_k >= 1 {
        if k2 < k {
            if k1 != pin_k {
                assert(!on_sq(occupancy, ray_square(s, dr, dc, k1)));
            } else {
                assert(!on_sq(occupancy, ray_square(s, dr, dc, k2)));
            }
        } else if k2 > k {
            if k != k1 {
                assert(!on_sq(occupancy, ray_square(s, dr, dc, k)));
            } else {
                assert(!on_sq(occupancy, ray_square(s, dr, dc, pin_k)));
            }
        } else if k1 != pin_k {
            assert(!on_sq(occupancy, ray_square(s, dr, dc, k1)));
        }
    } else {
        if k1 < k {
            assert(!on_sq(occupancy, ray_square(s, dr, dc, k1)));
        } else if k1 > k {
            assert(!on_sq(occupancy, ray_square(s, dr, dc, k)));
        }
    }
}

/// A ray walked off the board with at most one piece on it holds no pin.
proof fn lemma_no_pin_off_board(s: int, dr: int, dc: int, occupancy: u64, at: int, from: int, k: int, pin_k: int)
    requires
        1 <= k,
        0 <= pin_k < k,
        !ray_on_board(s, dr, dc, k),
        ray_on_board(s, dr, dc, 1) || k == 1,
        -1 <= dr <= 1,
        -1 <= dc <= 1,
        0 <= s < 64,
        forall|j: int| 1 <= j < k && j != pin_k ==> !on_sq(occupancy, #[trigger] ray_square(s, dr, dc, j)),
    ensures
        !(pin_on_ray(s, dr, dc, occupancy, at, from) && on_sq(occupancy, at) && on_sq(occupancy, from)),
{
    if pin_on_ray(s, dr, dc, occupancy, at, from) && on_sq(occupancy, at) && on_sq(occupancy, from) {
        let (k1, k2) = choose|k1: int, k2: int|
            #![trigger ray_square(s, dr, dc, k1), ray_square(s, dr, dc, k2)]
            1 <= k1 < k2 < 8 && ray_on_board(s, dr, dc, k2) && ray_square(s, dr, dc, k1) == at && ray_square(s, dr, dc, k2) == from
                && forall|j: int| 1 <= j < k2 && j != k1 ==> !on_sq(occupancy, #[trigger] ray_square(s, dr, dc, j));
        if k2 >= k {
            lemma_off_board_stays_off(s, dr, dc, k, k2);
        } else if k1 != pin_k {
            assert(!on_sq(occupancy, ray_square(s, dr, dc, k1)));
        } else {
            assert(!on_sq(occupancy, ray_square(s, dr, dc, k2)));
        }
    }
}

/// The first piece met from `pos` in one direction (file step `file_delta`, a-file to h-file
/// positive; rank step `rank_delta`): a threat when it is among `threats` and nothing stands
/// between; a pin (reveal attack when the piece between is not among `friendlies`) when
/// exactly one piece stands between the king and the threat.
pub fn walk_slide(
    pos: u8,
    file_delta: i8,
    rank_delta: i8,
    threats: u64,
    occupancy: u64,
    friendlies: u64,
) -> (r: (Option<ThreatSource>, Option<ThreatRaycastCollision>))
    requires
        pos < 64,
        -1 <= file_delta <= 1,
        -1 <= rank_delta <= 1,
        file_delta != 0 || rank_delta != 0,
    ensures
        r.0 matches Some(ts) ==> ts.from < 64 && on_sq(threats, ts.from as int) && on_sq(occupancy, ts.from as int)
            && slide_threat(pos as int, rank_delta as int, -file_delta, threats, occupancy, ts.from as int),
        r.0 is Some <==> exists|t: int| #[trigger] slide_threat(pos as int, rank_delta as int, -file_delta, threats, occupancy, t),
        r.1 matches Some(p) ==> p.from < 64 && p.at < 64 && on_sq(threats, p.from as int) && on_sq(occupancy, p.at as int)
            && p.reveal_attack == !on_sq(friendlies, p.at as int),
        r.0 is Some ==> r.1 is None,
        r.1 matches Some(p) ==> pin_on_ray(pos as int, rank_delta as int, -file_delta, occupancy, p.at as int, p.from as int),
        forall|at: int, from: int|
            #[trigger] pin_candidate(pos as int, rank_delta as int, -file_delta, threats, occupancy, at, from) ==> (r.1 matches Some(p)
                && p.at == at && p.from == from),
        r.0 matches Some(ts) ==> ts.threat_type == if file_delta == 0 || rank_delta == 0 {
            ThreatType::OrthogonalSlide
        } else {
            ThreatType::DiagonalSlide
        },
{
    let threat_type = if file_delta == 0 || rank_delta == 0 {
        ThreatType::OrthogonalSlide
    } else {
        ThreatType::DiagonalSlide
    };
    let ghost s = pos as int;
    let ghost dr = rank_delta as int;
    let ghost dc = -file_delta as int;
    let mut rank: i8 = (pos / 8) as i8 + rank_delta;
    let mut file: i8 = (7 - pos % 8) as i8 + file_delta;
    let mut potential_pin: u8 = u8::MAX;
    let ghost mut k: int = 1;
    let ghost mut pin_k: int = 0;
    while 0 <= rank && rank < 8 && 0 <= file && file < 8
        invariant
            threat_type == if file_delta == 0 || rank_delta == 0 {
                ThreatType::OrthogonalSlide
            } else {
                ThreatType::DiagonalSlide
            },
            -1 <= file_delta <= 1,
            -1 <= rank_delta <= 1,
            file_delta != 0 || rank_delta != 0,
            s == pos as int,
            0 <= s < 64,
            dr == rank_delta as int,
            dc == -file_delta as int,
            1 <= k <= 8,
            rank == s / 8 + k * dr,
            7 - file == s % 8 + k * dc,
            forall|j: int| 1 <= j < k ==> ray_on_board(s, dr, dc, j),
            potential_pin == u8::MAX ==> forall|j: int| 1 <= j < k ==> !on_sq(occupancy, #[trigger] ray_square(s, dr, dc, j)),
            potential_pin != u8::MAX ==> {
                &&& potential_pin < 64
                &&& 1 <= pin_k < k
                &&& ray_square(s, dr, dc, pin_k) == potential_pin
                &&& on_sq(occupancy, potential_pin as int)
                &&& !on_sq(threats, potential_pin as int)
                &&& forall|j: int| 1 <= j < k && j != pin_k ==> !on_sq(occupancy, #[trigger] ray_square(s, dr, dc, j))
            },
        decreases 8 - k,
    {
        assert(ray_on_board(s, dr, dc, k));
        let check_pos: u8 = (rank * 8 + (7 - file)) as u8;
        assert(check_pos as int == ray_square(s, dr, dc, k));
        let collision = (occupancy >> (check_pos as u64)) & 1 == 1;
        if collision {
            let threat_collision = (threats >> (check_pos as u64)) & 1 == 1;
            if threat_collision {
                if potential_pin == u8::MAX {
                    assert(slide_reaches(s, dr, dc, occupancy, check_pos as int));
                    assert(slide_threat(s, dr, dc, threats, occupancy, check_pos as int));
                    proof {
                        assert forall|at: int, from: int| !#[trigger] pin_candidate(s, dr, dc, threats, occupancy, at, from) by {
                            if pin_candidate(s, dr, dc, threats, occupancy, at, from) {
                                lemma_first_two_met(s, dr, dc, occupancy, at, from, k, 0);
                            }
                        }
                    }
                    return (Some(ThreatSource { from: check_pos, threat_type }), None);
                } else {
                    let pin = ThreatRaycastCollision {
                        from: check_pos,
                        at: potential_pin,
                        reveal_attack: !((friendlies >> (potential_pin as u64)) & 1 == 1),
                        threat_type,
                    };
                    proof {
                        lemma_no_threat_past_pin(s, dr, dc, threats, occupancy, pin_k, potential_pin as int, k);
                        assert(ray_square(s, dr, dc, pin_k) == potential_pin as int && ray_square(s, dr, dc, k) == check_pos as int);
                        assert(pin_on_ray(s, dr, dc, occupancy, potential_pin as int, check_pos as int));
                        assert forall|at: int, from: int| #[trigger] pin_candidate(s, dr, dc, threats, occupancy, at, from) implies at
                            == pin.at && from == pin.from by {
                            lemma_first_two_met(s, dr, dc, occupancy, at, from, k, pin_k);
                        }
                    }
                    return (None, Some(pin));
                }
            }
            if potential_pin != u8::MAX {
                proof {
                    lemma_no_threat_past_pin(s, dr, dc, threats, occupancy, pin_k, potential_pin as int, k);
                    assert forall|at: int, from: int| !#[trigger] pin_candidate(s, dr, dc, threats, occupancy, at, from) by {
                        if pin_candidate(s, dr, dc, threats, occupancy, at, from) {
                            lemma_first_two_met(s, dr, dc, occupancy, at, from, k, pin_k);
                        }
                    }
                }
                return (None, None);
            }
            potential_pin = check_pos;
            proof {
                pin_k = k;
            }
        }
        assert((k + 1) * dr == k * dr + dr) by (nonlinear_arith);
        assert((k + 1) * dc == k * dc + dc) by (nonlinear_arith);
        rank = rank + rank_delta;
        file = file + file_delta;
        proof {
            k = k + 1;
        }
    }
    proof {
        assert(!ray_on_board(s, dr, dc, k));
        assert forall|at: int, from: int| !#[trigger] pin_candidate(s, dr, dc, threats, occupancy, at, from) by {
            if pin_candidate(s, dr, dc, threats, occupancy, at, from) {
                lemma_no_pin_off_board(s, dr, dc, occupancy, at, from, k, if potential_pin != u8::MAX { pin_k } else { 0 });
            }
        }
        if potential_pin != u8::MAX {
            lemma_no_threat_past_pin(s, dr, dc, threats, occupancy, pin_k, potential_pin as int, k);
        } else {
            assert forall|t: int| !#[trigger] slide_threat(s, dr, dc, threats, occupancy, t) by {
                if slide_threat(s, dr, dc, threats, occupancy, t) {
                    let kk = choose|kk: int| 1 <= kk < 8 && ray_on_board(s, dr, dc, kk) && #[trigger] ray_square(s, dr, dc, kk) == t && forall|j: int|
                        1 <= j < kk ==> !on_sq(occupancy, #[trigger] ray_square(s, dr, dc, j));
                    if kk >= k {
                        lemma_off_board_stays_off(s, dr, dc, k, kk);
                    }
                    assert(!on_sq(occupancy, ray_square(s, dr, dc, kk)));
                }
            }
        }
    }
    (None, None)
}

proof fn lemma_no_threat_past_pin(s: int, dr: int, dc: int, threats: u64, occupancy: u64, pin_k: int, pin: int, k: int)
    requires
        1 <= pin_k < k,
        ray_square(s, dr, dc, pin_k) == pin,
        on_sq(occupancy, pin),
        !on_sq(threats, pin),
        forall|j: int| 1 <= j < k && j != pin_k ==> !on_sq(occupancy, #[trigger] ray_square(s, dr, dc, j)),
    ensures
        forall|t: int| !#[trigger] slide_threat(s, dr, dc, threats, occupancy, t),
{
    assert forall|t: int| !#[trigger] slide_threat(s, dr, dc, threats, occupancy, t) by {
        if slide_threat(s, dr, dc, threats, occupancy, t) {
            let kk = choose|kk: int| 1 <= kk < 8 && ray_on_board(s, dr, dc, kk) && #[trigger] ray_square(s, dr, dc, kk) == t && forall|j: int|
                1 <= j < kk ==> !on_sq(occupancy, #[trigger] ray_square(s, dr, dc, j));
            if kk > pin_k {
                assert(!on_sq(occupancy, ray_square(s, dr, dc, pin_k)));
            } else if kk < pin_k {
                assert(!on_sq(occupancy, ray_square(s, dr, dc, kk)));
            }
        }
    }
}

/// The direction (ranks, bit columns) that `in_sliding_check` walks `d`-th.
pub open spec fn slide_direction(diagonal: bool, d: int) -> (int, int) {
    if diagonal {
        if d == 0 { (1, -1) } else if d == 1 { (1, 1) } else if d == 2 { (-1, 1) } else { (-1, -1) }
    } else {
        if d == 0 { (0, -1) } else if d == 1 { (1, 0) } else if d == 2 { (-1, 0) } else { (0, 1) }
    }
}

/// Whether a threat is met first in the `d`-th direction from the king.
pub open spec fn direction_threat(king_pos: int, diagonal: bool, threats: u64, occupancy: u64, d: int) -> bool {
    exists|t: int| #[trigger] slide_threat(king_pos, slide_direction(diagonal, d).0, slide_direction(diagonal, d).1, threats, occupancy, t)
}

/// Whether a bishop (`diagonal`) or a rook on `king_pos` attacks `t`.
pub open spec fn slider_attack(king_pos: int, diagonal: bool, occupancy: u64, t: int) -> bool {
    if diagonal { bishop_attack(king_pos, occupancy, t) } else { rook_attack(king_pos, occupancy, t) }
}

/// Whether a slider among `threats` attacks the king along its diagonals (or its rank and
/// file), nothing standing between.
pub open spec fn slider_check(king_pos: int, diagonal: bool, threats: u64, occupancy: u64) -> bool {
    exists|t: int| 0 <= t < 64 && on_sq(threats, t) && on_sq(occupancy, t) && #[trigger] slider_attack(king_pos, diagonal, occupancy, t)
}

proof fn lemma_directions_cover(king_pos: int, diagonal: bool, threats: u64, occupancy: u64)
    ensures
        slider_check(king_pos, diagonal, threats, occupancy) <==> (direction_threat(king_pos, diagonal, threats, occupancy, 0)
            || direction_threat(king_pos, diagonal, threats, occupancy, 1) || direction_threat(king_pos, diagonal, threats, occupancy, 2)
            || direction_threat(king_pos, diagonal, threats, occupancy, 3)),
{
    if slider_check(king_pos, diagonal, threats, occupancy) {
        let t = choose|t: int| 0 <= t < 64 && on_sq(threats, t) && on_sq(occupancy, t) && #[trigger] slider_attack(king_pos, diagonal, occupancy, t);
        assert(slide_threat(king_pos, slide_direction(diagonal, 0).0, slide_direction(diagonal, 0).1, threats, occupancy, t)
            || slide_threat(king_pos, slide_direction(diagonal, 1).0, slide_direction(diagonal, 1).1, threats, occupancy, t)
            || slide_threat(king_pos, slide_direction(diagonal, 2).0, slide_direction(diagonal, 2).1, threats, occupancy, t)
            || slide_threat(king_pos, slide_direction(diagonal, 3).0, slide_direction(diagonal, 3).1, threats, occupancy, t));
    }
    assert forall|d: int| 0 <= d < 4 && #[trigger] direction_threat(king_pos, diagonal, threats, occupancy, d) implies slider_check(king_pos, diagonal, threats, occupancy) by {
        let t = choose|t: int| #[trigger] slide_threat(king_pos, slide_direction(diagonal, d).0, slide_direction(diagonal, d).1, threats, occupancy, t);
        assert(0 <= t < 64 && on_sq(threats, t) && on_sq(occupancy, t) && slider_attack(king_pos, diagonal, occupancy, t));
    }
}

/// Whether a slider among `threats` gives check along the king's diagonals (or lines), and the
/// pins along them; a second check gives a double check with no threat reported.
#[verifier::rlimit(60)]
pub fn in_sliding_check(
    king_pos: u8,
    diagonal: bool,
    threats: u64,
    occupancy: u64,
    friendlies: u64,
    check_in: bool,
) -> (r: (bool, bool, Option<ThreatSource>, Vec<ThreatRaycastCollision>))
    requires
        king_pos < 64,
    ensures
        r.1 ==> r.0,
        check_in ==> r.0,
        r.1 ==> r.2 is None && r.3@.len() == 0,
        !r.1 ==> r.0 == (check_in || r.2 is Some),
        r.2 matches Some(ts) ==> ts.from < 64 && on_sq(threats, ts.from as int),
        r.2 matches Some(ts) ==> on_sq(occupancy, ts.from as int) && slider_attack(king_pos as int, diagonal, occupancy, ts.from as int)
            && ts.threat_type == if diagonal { ThreatType::DiagonalSlide } else { ThreatType::OrthogonalSlide },
        forall|i: int| 0 <= i < r.3@.len() ==> (#[trigger] r.3@[i]).from < 64 && r.3@[i].at < 64,
        forall|i: int| 0 <= i < r.3@.len() ==> slider_pin(king_pos as int, diagonal, threats, occupancy, #[trigger] r.3@[i]),
        r.0 == (check_in || slider_check(king_pos as int, diagonal, threats, occupancy)),
        r.1 == ((check_in && slider_check(king_pos as int, diagonal, threats, occupancy)) || slider_double(
            king_pos as int,
            diagonal,
            threats,
            occupancy,
        )),
        !r.1 ==> pins_listed_before(king_pos as int, diagonal, threats, occupancy, r.3@, 4),
{
    let mut check = check_in;
    let ghost check0 = check;
    let mut threat: Option<ThreatSource> = None;
    let mut pins: Vec<ThreatRaycastCollision> = Vec::new();
    let mut d: u8 = 0;
    proof {
        reveal(directions_clear_before);
        reveal(directions_single_before);
        reveal(pins_listed_before);
    }
    while d < 4
        invariant
            d <= 4,
            king_pos < 64,
            check0 ==> check,
            check == (check0 || threat is Some),
            threat matches Some(ts) ==> ts.from < 64 && on_sq(threats, ts.from as int),
            threat matches Some(ts) ==> on_sq(occupancy, ts.from as int) && slider_attack(king_pos as int, diagonal, occupancy, ts.from as int)
                && ts.threat_type == if diagonal { ThreatType::DiagonalSlide } else { ThreatType::OrthogonalSlide },
            forall|i: int| 0 <= i < pins@.len() ==> (#[trigger] pins@[i]).from < 64 && pins@[i].at < 64,
            forall|i: int| 0 <= i < pins@.len() ==> slider_pin(king_pos as int, diagonal, threats, occupancy, #[trigger] pins@[i]),
            check == (check0 || exists|e: int| 0 <= e < d && #[trigger] direction_threat(king_pos as int, diagonal, threats, occupancy, e)),
            check0 == check_in,
            check0 ==> directions_clear_before(king_pos as int, diagonal, threats, occupancy, d as int),
            directions_single_before(king_pos as int, diagonal, threats, occupancy, d as int),
            pins_listed_before(king_pos as int, diagonal, threats, occupancy, pins@, d as int),
        decreases 4 - d,
    {
        let (fd, rd): (i8, i8) = if diagonal {
            if d == 0 { (1, 1) } else if d == 1 { (-1, 1) } else if d == 2 { (-1, -1) } else { (1, -1) }
        } else {
            if d == 0 { (1, 0) } else if d == 1 { (0, 1) } else if d == 2 { (0, -1) } else { (-1, 0) }
        };
        let r = walk_slide(king_pos, fd, rd, threats, occupancy, friendlies);
        assert(slide_direction(diagonal, d as int) == (rd as int, -fd as int));
        assert(slide_direction(diagonal, d as int).0 == rd as int);
        assert(slide_direction(diagonal, d as int).1 == -fd as int);
        assert(r.0 is Some <==> direction_threat(king_pos as int, diagonal, threats, occupancy, d as int)) by {
            if r.0 is Some {
                let t = choose|t: int| #[trigger] slide_threat(king_pos as int, rd as int, -fd, threats, occupancy, t);
                assert(slide_threat(king_pos as int, slide_direction(diagonal, d as int).0, slide_direction(diagonal, d as int).1, threats, occupancy, t));
            }
            if direction_threat(king_pos as int, diagonal, threats, occupancy, d as int) {
                let t = choose|t: int| #[trigger] slide_threat(king_pos as int, slide_direction(diagonal, d as int).0, slide_direction(diagonal, d as int).1, threats, occupancy, t);
                assert(slide_threat(king_pos as int, rd as int, -fd, threats, occupancy, t));
            }
        }
        proof {
            lemma_directions_cover(king_pos as int, diagonal, threats, occupancy);
        }
        match r.0 {
            Some(found_threat) => {
                if check {
                    proof {
                        lemma_second_direction_doubles(king_pos as int, diagonal, threats, occupancy, d as int, check0);
                    }
                    return (true, true, None, Vec::new());
                }
                proof {
                    let t = found_threat.from as int;
                    assert(slide_threat(king_pos as int, slide_direction(diagonal, d as int).0, slide_direction(diagonal, d as int).1, threats, occupancy, t));
                    assert(slider_attack(king_pos as int, diagonal, occupancy, t));
                }
                check = true;
                threat = Some(found_threat);
            },
            None => {},
        }
        let ghost pins0 = pins@;
        match r.1 {
            Some(found_pin) => {
                proof {
                    assert(pin_on_ray(
                        king_pos as int,
                        slide_direction(diagonal, d as int).0,
                        slide_direction(diagonal, d as int).1,
                        occupancy,
                        found_pin.at as int,
                        found_pin.from as int,
                    ));
                    assert(slider_pin(king_pos as int, diagonal, threats, occupancy, found_pin));
                }
                pins.push(found_pin);
                proof {
                    assert forall|i: int| 0 <= i < pins@.len() implies slider_pin(king_pos as int, diagonal, threats, occupancy, #[trigger] pins@[i]) by {
                        if i == pins@.len() - 1 {
                            assert(pins@[i] == found_pin);
                        }
                    }
                }
            },
            None => {},
        }
        proof {
            assert(check == (check0 || exists|e: int| 0 <= e < d + 1 && #[trigger] direction_threat(king_pos as int, diagonal, threats, occupancy, e))) by {
                if exists|e: int| 0 <= e < d + 1 && #[trigger] direction_threat(king_pos as int, diagonal, threats, occupancy, e) {
                    let e = choose|e: int| 0 <= e < d + 1 && #[trigger] direction_threat(king_pos as int, diagonal, threats, occupancy, e);
                    if e < d {
                        assert(exists|e2: int| 0 <= e2 < d && #[trigger] direction_threat(king_pos as int, diagonal, threats, occupancy, e2));
                    }
                }
            }
        }
        proof {
            lemma_directions_step(king_pos as int, diagonal, threats, occupancy, d as int, check0);
            lemma_pins_step(king_pos as int, diagonal, threats, occupancy, pins0, pins@, d as int, r.1);
        }
        d = d + 1;
    }
    proof {
        lemma_directions_end(king_pos as int, diagonal, threats, occupancy, check0);
        lemma_directions_cover(king_pos as int, diagonal, threats, occupancy);
        if direction_threat(king_pos as int, diagonal, threats, occupancy, 0) {
            assert(exists|e: int| 0 <= e < 4 && #[trigger] direction_threat(king_pos as int, diagonal, threats, occupancy, e));
        }
        if direction_threat(king_pos as int, diagonal, threats, occupancy, 1) {
            assert(exists|e: int| 0 <= e < 4 && #[trigger] direction_threat(king_pos as int, diagonal, threats, occupancy, e));
        }
        if direction_threat(king_pos as int, diagonal, threats, occupancy, 2) {
            assert(exists|e: int| 0 <= e < 4 && #[trigger] direction_threat(king_pos as int, diagonal, threats, occupancy, e));
        }
        if direction_threat(king_pos as int, diagonal, threats, occupancy, 3) {
            assert(exists|e: int| 0 <= e < 4 && #[trigger] direction_threat(king_pos as int, diagonal, threats, occupancy, e));
        }
    }
    (check, false, threat, pins)
}

/// Whether a pin from `at` to `from` is in a list of pins.
pub open spec fn pin_listed(pins: Seq<ThreatRaycastCollision>, at: int, from: int) -> bool {
    exists|i: int| 0 <= i < pins.len() && (#[trigger] pins[i]).at == at && pins[i].from == from
}

/// Every pin in the directions before the `d`-th is in the list.
#[verifier::opaque]
pub open spec fn pins_listed_before(
    king_pos: int,
    diagonal: bool,
    threats: u64,
    occupancy: u64,
    pins: Seq<ThreatRaycastCollision>,
    d: int,
) -> bool {
    forall|e: int, at: int, from: int|
        0 <= e < d && #[trigger] pin_candidate(
            king_pos,
            slide_direction(diagonal, e).0,
            slide_direction(diagonal, e).1,
            threats,
            occupancy,
            at,
            from,
        ) ==> pin_listed(pins, at, from)
}

/// Appending pins to a list keeps those listed, in either part.
proof fn lemma_pins_append(
    king_pos: int,
    diagonal: bool,
    threats: u64,
    occupancy: u64,
    a: Seq<ThreatRaycastCollision>,
    b: Seq<ThreatRaycastCollision>,
)
    requires
        pins_listed_before(king_pos, diagonal, threats, occupancy, a, 4) || pins_listed_before(
            king_pos,
            diagonal,
            threats,
            occupancy,
            b,
            4,
        ),
    ensures
        pins_listed_before(king_pos, diagonal, threats, occupancy, a + b, 4),
{
    reveal(pins_listed_before);
    assert forall|e: int, at: int, from: int|
        0 <= e < 4 && #[trigger] pin_candidate(
            king_pos,
            slide_direction(diagonal, e).0,
            slide_direction(diagonal, e).1,
            threats,
            occupancy,
            at,
            from,
        ) implies pin_listed(a + b, at, from) by {
        if pin_listed(a, at, from) {
            let i = choose|i: int| 0 <= i < a.len() && (#[trigger] a[i]).at == at && a[i].from == from;
            assert((a + b)[i] == a[i]);
        } else {
            let i = choose|i: int| 0 <= i < b.len() && (#[trigger] b[i]).at == at && b[i].from == from;
            assert((a + b)[a.len() + i] == b[i]);
        }
    }
}

/// With no threats there is no pin to list.
proof fn lemma_pins_none(king_pos: int, diagonal: bool, occupancy: u64, pins: Seq<ThreatRaycastCollision>)
    ensures
        pins_listed_before(king_pos, diagonal, 0, occupancy, pins, 4),
{
    reveal(pins_listed_before);
    assert forall|e: int, at: int, from: int|
        0 <= e < 4 && #[trigger] pin_candidate(
            king_pos,
            slide_direction(diagonal, e).0,
            slide_direction(diagonal, e).1,
            0,
            occupancy,
            at,
            from,
        ) implies pin_listed(pins, at, from) by {
        crate::bitboard::lemma_zero_has_nothing(from as u64);
    }
}

/// Whether every pin along the king's lines is in the list: for a bishop or queen of the
/// opponent on a king diagonal, and a rook or queen on a king rank or file, with exactly one
/// piece (not itself such a threat) between it and the king.
pub open spec fn pins_complete(
    pins: Seq<ThreatRaycastCollision>,
    king_pos: int,
    occupancy: u64,
    opponent_occupancy: u64,
    bishop_bitboard: u64,
    rook_bitboard: u64,
    queen_bitboard: u64,
) -> bool {
    &&& pins_listed_before(king_pos, true, (bishop_bitboard | queen_bitboard) & opponent_occupancy, occupancy, pins, 4)
    &&& pins_listed_before(king_pos, false, (rook_bitboard | queen_bitboard) & opponent_occupancy, occupancy, pins, 4)
}

proof fn lemma_pins_step(
    king_pos: int,
    diagonal: bool,
    threats: u64,
    occupancy: u64,
    pins0: Seq<ThreatRaycastCollision>,
    pins1: Seq<ThreatRaycastCollision>,
    d: int,
    found: Option<ThreatRaycastCollision>,
)
    requires
        0 <= d < 4,
        pins_listed_before(king_pos, diagonal, threats, occupancy, pins0, d),
        forall|at: int, from: int|
            #[trigger] pin_candidate(
                king_pos,
                slide_direction(diagonal, d).0,
                slide_direction(diagonal, d).1,
                threats,
                occupancy,
                at,
                from,
            ) ==> (found matches Some(p) && p.at == at && p.from == from),
        pins1 == (match found {
            Some(p) => pins0.push(p),
            None => pins0,
        }),
    ensures
        pins_listed_before(king_pos, diagonal, threats, occupancy, pins1, d + 1),
{
    reveal(pins_listed_before);
    assert forall|e: int, at: int, from: int|
        0 <= e < d + 1 && #[trigger] pin_candidate(
            king_pos,
            slide_direction(diagonal, e).0,
            slide_direction(diagonal, e).1,
            threats,
            occupancy,
            at,
            from,
        ) implies pin_listed(pins1, at, from) by {
        if e < d {
            let i = choose|i: int| 0 <= i < pins0.len() && (#[trigger] pins0[i]).at == at && pins0[i].from == from;
            assert(pins1[i] == pins0[i]);
        } else {
            let p = found.unwrap();
            assert(pins1[pins0.len() as int] == p);
        }
    }
}

/// No threat is met first in the directions before the `d`-th.
#[verifier::opaque]
pub open spec fn directions_clear_before(king_pos: int, diagonal: bool, threats: u64, occupancy: u64, d: int) -> bool {
    forall|e: int| 0 <= e < d ==> !#[trigger] direction_threat(king_pos, diagonal, threats, occupancy, e)
}

/// At most one of the directions before the `d`-th meets a threat first.
#[verifier::opaque]
pub open spec fn directions_single_before(king_pos: int, diagonal: bool, threats: u64, occupancy: u64, d: int) -> bool {
    forall|e1: int, e2: int|
        0 <= e1 < e2 < d ==> !(#[trigger] direction_threat(king_pos, diagonal, threats, occupancy, e1) && #[trigger] direction_threat(
            king_pos,
            diagonal,
            threats,
            occupancy,
            e2,
        ))
}

proof fn lemma_second_direction_doubles(king_pos: int, diagonal: bool, threats: u64, occupancy: u64, d: int, check0: bool)
    requires
        0 <= d < 4,
        direction_threat(king_pos, diagonal, threats, occupancy, d),
        check0 || exists|e: int| 0 <= e < d && #[trigger] direction_threat(king_pos, diagonal, threats, occupancy, e),
    ensures
        (check0 && slider_check(king_pos, diagonal, threats, occupancy)) || slider_double(king_pos, diagonal, threats, occupancy),
{
    lemma_directions_cover(king_pos, diagonal, threats, occupancy);
    if !check0 {
        let e = choose|e: int| 0 <= e < d && #[trigger] direction_threat(king_pos, diagonal, threats, occupancy, e);
        assert(slider_double(king_pos, diagonal, threats, occupancy));
    }
}

proof fn lemma_directions_step(king_pos: int, diagonal: bool, threats: u64, occupancy: u64, d: int, check0: bool)
    requires
        0 <= d < 4,
        check0 ==> directions_clear_before(king_pos, diagonal, threats, occupancy, d),
        directions_single_before(king_pos, diagonal, threats, occupancy, d),
        direction_threat(king_pos, diagonal, threats, occupancy, d) ==> !check0 && !exists|e: int|
            0 <= e < d && #[trigger] direction_threat(king_pos, diagonal, threats, occupancy, e),
    ensures
        check0 ==> directions_clear_before(king_pos, diagonal, threats, occupancy, d + 1),
        directions_single_before(king_pos, diagonal, threats, occupancy, d + 1),
{
    reveal(directions_clear_before);
    reveal(directions_single_before);
    assert forall|e1: int, e2: int|
        0 <= e1 < e2 < d + 1 implies !(#[trigger] direction_threat(king_pos, diagonal, threats, occupancy, e1) && #[trigger] direction_threat(
            king_pos,
            diagonal,
            threats,
            occupancy,
            e2,
        )) by {
        if e2 == d && direction_threat(king_pos, diagonal, threats, occupancy, e1) && direction_threat(king_pos, diagonal, threats, occupancy, e2) {
            assert(exists|e: int| 0 <= e < d && #[trigger] direction_threat(king_pos, diagonal, threats, occupancy, e));
        }
    }
}

proof fn lemma_directions_end(king_pos: int, diagonal: bool, threats: u64, occupancy: u64, check0: bool)
    requires
        check0 ==> directions_clear_before(king_pos, diagonal, threats, occupancy, 4),
        directions_single_before(king_pos, diagonal, threats, occupancy, 4),
    ensures
        !((check0 && slider_check(king_pos, diagonal, threats, occupancy)) || slider_double(king_pos, diagonal, threats, occupancy)),
{
    reveal(directions_clear_before);
    reveal(directions_single_before);
    lemma_directions_cover(king_pos, diagonal, threats, occupancy);
    if slider_double(king_pos, diagonal, threats, occupancy) {
        let (e1, e2) = choose|e1: int, e2: int|
            0 <= e1 < e2 < 4 && #[trigger] direction_threat(king_pos, diagonal, threats, occupancy, e1) && #[trigger] direction_threat(
                king_pos,
                diagonal,
                threats,
                occupancy,
                e2,
            );
        assert(false);
    }
    if check0 && slider_check(king_pos, diagonal, threats, occupancy) {
        assert(!direction_threat(king_pos, diagonal, threats, occupancy, 0));
        assert(!direction_threat(king_pos, diagonal, threats, occupancy, 1));
        assert(!direction_threat(king_pos, diagonal, threats, occupancy, 2));
        assert(!direction_threat(king_pos, diagonal, threats, occupancy, 3));
    }
}

/// Whether threats are met first in two of the king's directions (diagonals or lines).
pub open spec fn slider_double(king_pos: int, diagonal: bool, threats: u64, occupancy: u64) -> bool {
    exists|e1: int, e2: int|
        0 <= e1 < e2 < 4 && #[trigger] direction_threat(king_pos, diagonal, threats, occupancy, e1) && #[trigger] direction_threat(
            king_pos,
            diagonal,
            threats,
            occupancy,
            e2,
        )
}

/// Whether the king on `king_pos` is in check: a knight of the opponent attacks it, a
/// bishop or queen along a clear diagonal, a rook or queen along a clear rank or file, or
/// exactly one pawn.
pub open spec fn king_check_spec(
    king_pos: int,
    black_turn: bool,
    occupancy: u64,
    opponent_occupancy: u64,
    pawn_bitboard: u64,
    knight_bitboard: u64,
    bishop_bitboard: u64,
    rook_bitboard: u64,
    queen_bitboard: u64,
) -> bool {
    ||| knight_check(king_pos, knight_bitboard & opponent_occupancy)
    ||| slider_check(king_pos, true, (bishop_bitboard | queen_bitboard) & opponent_occupancy, occupancy)
    ||| slider_check(king_pos, false, (rook_bitboard | queen_bitboard) & opponent_occupancy, occupancy)
    ||| pawn_single_check(king_pos, black_turn, pawn_bitboard & opponent_occupancy)
}

/// Whether the king on `king_pos` is in double check: two checks among those that
/// `king_check_spec` counts (two knights, sliders in two of the king's directions, or checks
/// of two kinds; two attacking pawns count as no check).
pub open spec fn double_check_spec(
    king_pos: int,
    black_turn: bool,
    occupancy: u64,
    opponent_occupancy: u64,
    pawn_bitboard: u64,
    knight_bitboard: u64,
    bishop_bitboard: u64,
    rook_bitboard: u64,
    queen_bitboard: u64,
) -> bool {
    let knights = knight_bitboard & opponent_occupancy;
    let diagonal = (bishop_bitboard | queen_bitboard) & opponent_occupancy;
    let orthogonal = (rook_bitboard | queen_bitboard) & opponent_occupancy;
    let a = knight_check(king_pos, knights);
    let b = slider_check(king_pos, true, diagonal, occupancy);
    let c = slider_check(king_pos, false, orthogonal, occupancy);
    let d = pawn_single_check(king_pos, black_turn, pawn_bitboard & opponent_occupancy);
    ||| knight_double(king_pos, knights)
    ||| slider_double(king_pos, true, diagonal, occupancy)
    ||| slider_double(king_pos, false, orthogonal, occupancy)
    ||| a && (b || c || d)
    ||| b && (c || d)
    ||| c && d
}

proof fn lemma_no_threats(king_pos: int, black_turn: bool, occupancy: u64)
    ensures
        !knight_double(king_pos, 0),
        !slider_double(king_pos, true, 0, occupancy),
        !slider_double(king_pos, false, 0, occupancy),
        !knight_check(king_pos, 0),
        !slider_check(king_pos, true, 0, occupancy),
        !slider_check(king_pos, false, 0, occupancy),
        !pawn_single_check(king_pos, black_turn, 0),
{
    assert forall|t: int| 0 <= t < 64 implies !#[trigger] on_sq(0u64, t) by {
        crate::bitboard::lemma_zero_has_nothing(t as u64);
    }
    assert forall|t: int| 0 <= t < 64 implies (#[trigger] on_sq(0u64, t) <==> pawn_checkers(king_pos, black_turn, 0)(t)) by {}
    crate::attack_and_defend_lookups::lemma_popcount_where(0, pawn_checkers(king_pos, black_turn, 0), 64);
    crate::bitboard::lemma_zero_popcount_upto(64);
}

/// Whether a reported threat gives check to the king on `king_pos`: a knight of the opponent
/// a knight's step away, a bishop or queen on a clear diagonal, a rook or queen on a clear rank
/// or file, or a pawn attacking the king's square.
pub open spec fn threat_checks(
    ts: ThreatSource,
    king_pos: int,
    black_turn: bool,
    occupancy: u64,
    opponent_occupancy: u64,
    pawn_bitboard: u64,
    knight_bitboard: u64,
    bishop_bitboard: u64,
    rook_bitboard: u64,
    queen_bitboard: u64,
) -> bool {
    let t = ts.from as int;
    match ts.threat_type {
        ThreatType::Knight => on_sq(knight_bitboard & opponent_occupancy, t) && knight_step(t, king_pos),
        ThreatType::DiagonalSlide => on_sq((bishop_bitboard | queen_bitboard) & opponent_occupancy, t) && on_sq(occupancy, t)
            && bishop_attack(king_pos, occupancy, t),
        ThreatType::OrthogonalSlide => on_sq((rook_bitboard | queen_bitboard) & opponent_occupancy, t) && on_sq(occupancy, t)
            && rook_attack(king_pos, occupancy, t),
        ThreatType::Pawn => pawn_checks(king_pos, black_turn, pawn_bitboard & opponent_occupancy, t),
        ThreatType::NoThreat => false,
    }
}

/// Whether a reported pin is a real one: a bishop or queen of the opponent behind exactly one
/// piece on a king diagonal, or a rook or queen on a king rank or file.
pub open spec fn pin_real(
    p: ThreatRaycastCollision,
    king_pos: int,
    occupancy: u64,
    opponent_occupancy: u64,
    bishop_bitboard: u64,
    rook_bitboard: u64,
    queen_bitboard: u64,
) -> bool {
    slider_pin(king_pos, true, (bishop_bitboard | queen_bitboard) & opponent_occupancy, occupancy, p) || slider_pin(
        king_pos,
        false,
        (rook_bitboard | queen_bitboard) & opponent_occupancy,
        occupancy,
        p,
    )
}

/// What threatens the king on `king_pos`: checks by knights, diagonal sliders, orthogonal
/// sliders and pawns of the opponent (in that order, stopping at a double check), and the pins
/// along the king's lines.
pub fn analyze_king_position(
    king_pos: u8,
    black_turn: bool,
    occupancy: u64,
    friendly_occupancy: u64,
    opponent_occupancy: u64,
    pawn_bitboard: u64,
    knight_bitboard: u64,
    bishop_bitboard: u64,
    rook_bitboard: u64,
    queen_bitboard: u64,
) -> (r: KingPositionAnalysis)
    requires
        king_pos < 64,
    ensures
        r.double_check ==> r.check,
        r.threat_source matches Some(ts) ==> ts.from < 64 && r.check,
        r.threat_source matches Some(ts) ==> threat_checks(
            ts,
            king_pos as int,
            black_turn,
            occupancy,
            opponent_occupancy,
            pawn_bitboard,
            knight_bitboard,
            bishop_bitboard,
            rook_bitboard,
            queen_bitboard,
        ),
        forall|i: int| 0 <= i < r.pins@.len() ==> (#[trigger] r.pins@[i]).from < 64 && r.pins@[i].at < 64,
        forall|i: int| 0 <= i < r.pins@.len() ==> pin_real(
            #[trigger] r.pins@[i],
            king_pos as int,
            occupancy,
            opponent_occupancy,
            bishop_bitboard,
            rook_bitboard,
            queen_bitboard,
        ),
        !r.check ==> r.threat_source is None,
        r.check == king_check_spec(
            king_pos as int,
            black_turn,
            occupancy,
            opponent_occupancy,
            pawn_bitboard,
            knight_bitboard,
            bishop_bitboard,
            rook_bitboard,
            queen_bitboard,
        ),
        r.double_check == double_check_spec(
            king_pos as int,
            black_turn,
            occupancy,
            opponent_occupancy,
            pawn_bitboard,
            knight_bitboard,
            bishop_bitboard,
            rook_bitboard,
            queen_bitboard,
        ),
        !r.double_check ==> pins_complete(r.pins@, king_pos as int, occupancy, opponent_occupancy, bishop_bitboard, rook_bitboard, queen_bitboard),
        r.check && !r.double_check ==> r.threat_source is Some,
{
    proof {
        lemma_no_threats(king_pos as int, black_turn, occupancy);
    }
    let ghost kn = knight_bitboard & opponent_occupancy;
    let ghost di = (bishop_bitboard | queen_bitboard) & opponent_occupancy;
    let ghost ort = (rook_bitboard | queen_bitboard) & opponent_occupancy;
    let ghost ca = knight_check(king_pos as int, kn);
    let ghost cb = slider_check(king_pos as int, true, di, occupancy);
    let ghost cc = slider_check(king_pos as int, false, ort, occupancy);
    let ghost cd = pawn_single_check(king_pos as int, black_turn, pawn_bitboard & opponent_occupancy);
    let ghost da = knight_double(king_pos as int, kn);
    let ghost db = slider_double(king_pos as int, true, di, occupancy);
    let ghost dc2 = slider_double(king_pos as int, false, ort, occupancy);
    let mut check = false;
    let mut double_check = false;
    let mut threat_source: Option<ThreatSource> = None;
    let mut pins: Vec<ThreatRaycastCollision> = Vec::new();

    let knights: u64 = knight_bitboard & opponent_occupancy;
    if knights != 0 {
        let (c, dc, ts) = in_check_from_knights(king_pos, knights, check);
        double_check = double_check || dc;
        check = check || c;
        if ts.is_some() {
            threat_source = ts;
        }
        if double_check {
            return KingPositionAnalysis { check: true, double_check: true, threat_source, pins };
        }
    }
    assert(check == ca && double_check == da);
    assert(check ==> threat_source is Some);
    let diagonal_threats = (bishop_bitboard | queen_bitboard) & opponent_occupancy;
    proof {
        lemma_pins_none(king_pos as int, true, occupancy, pins@);
    }
    if diagonal_threats != 0 {
        let (c, dc, ts, p) = in_sliding_check(king_pos, true, diagonal_threats, occupancy, friendly_occupancy, check);
        double_check = double_check || dc;
        check = check || c;
        if ts.is_some() {
            threat_source = ts;
        }
        let mut p = p;
        let ghost before = pins@;
        let ghost added = p@;
        pins.append(&mut p);
        proof {
            if !dc {
                lemma_pins_append(king_pos as int, true, di, occupancy, before, added);
            }
            assert forall|i: int| 0 <= i < pins@.len() implies pin_real(
                #[trigger] pins@[i],
                king_pos as int,
                occupancy,
                opponent_occupancy,
                bishop_bitboard,
                rook_bitboard,
                queen_bitboard,
            ) by {
                if i >= before.len() {
                    assert(pins@[i] == added[i - before.len()]);
                } else {
                    assert(pins@[i] == before[i]);
                }
            }
        }
        if double_check {
            return KingPositionAnalysis { check: true, double_check: true, threat_source, pins };
        }
    }
    assert(check == (ca || cb) && double_check == (da || db || (ca && cb)));
    assert(check ==> threat_source is Some);
    assert(pins_listed_before(king_pos as int, true, di, occupancy, pins@, 4));
    let orthogonal_threats = (rook_bitboard | queen_bitboard) & opponent_occupancy;
    let ghost pins_diag = pins@;
    proof {
        lemma_pins_none(king_pos as int, false, occupancy, pins@);
    }
    if orthogonal_threats != 0 {
        let (c, dc, ts, p) = in_sliding_check(king_pos, false, orthogonal_threats, occupancy, friendly_occupancy, check);
        double_check = double_check || dc;
        check = check || c;
        if ts.is_some() {
            threat_source = ts;
        }
        let mut p = p;
        let ghost before = pins@;
        let ghost added = p@;
        pins.append(&mut p);
        proof {
            if !dc {
                lemma_pins_append(king_pos as int, false, ort, occupancy, before, added);
            }
            assert forall|i: int| 0 <= i < pins@.len() implies pin_real(
                #[trigger] pins@[i],
                king_pos as int,
                occupancy,
                opponent_occupancy,
                bishop_bitboard,
                rook_bitboard,
                queen_bitboard,
            ) by {
                if i >= before.len() {
                    assert(pins@[i] == added[i - before.len()]);
                } else {
                    assert(pins@[i] == before[i]);
                }
            }
        }
        if double_check {
            return KingPositionAnalysis { check: true, double_check: true, threat_source, pins };
        }
    }
    assert(check == (ca || cb || cc) && double_check == (da || db || dc2 || (ca && cb) || ((ca || cb) && cc)));
    assert(check ==> threat_source is Some);
    proof {
        if pins@ != pins_diag {
            lemma_pins_append(king_pos as int, true, di, occupancy, pins_diag, pins@.subrange(pins_diag.len() as int, pins@.len() as int));
            assert(pins_diag + pins@.subrange(pins_diag.len() as int, pins@.len() as int) =~= pins@);
        }
    }
    assert(pins_complete(pins@, king_pos as int, occupancy, opponent_occupancy, bishop_bitboard, rook_bitboard, queen_bitboard));
    let pawn_threats: u64 = pawn_bitboard & opponent_occupancy;
    if pawn_threats != 0 {
        let (c, dc, ts) = is_pawn_check(king_pos, black_turn, pawn_threats, check);
        double_check = double_check || dc;
        check = check || c;
        if ts.is_some() {
            threat_source = ts;
        }
        if double_check {
            return KingPositionAnalysis { check: true, double_check: true, threat_source, pins };
        }
    }
    KingPositionAnalysis { check, double_check, threat_source, pins }
}

/// An analysis that reports no threats.
pub fn analyze_king_position_shallow(
    king_pos: u8,
    black_turn: bool,
    opponent_occupancy: u64,
    pawn_bitboard: u64,
    knight_bitboard: u64,
    bishop_bitboard: u64,
    rook_bitboard: u64,
    queen_bitboard: u64,
) -> (r: KingPositionAnalysis)
    ensures
        !r.check,
        !r.double_check,
        r.threat_source is None,
        r.pins@.len() == 0,
{
    KingPositionAnalysis { check: false, double_check: false, threat_source: None, pins: Vec::new() }
}

impl BoardRep {
    /// The analysis of the white king's position.
    pub fn get_white_king_analysis(&self) -> (r: KingPositionAnalysis)
        requires
            self.white_king_position < 64,
        ensures
            r.double_check ==> r.check,
            r.threat_source matches Some(ts) ==> ts.from < 64 && r.check,
            r.check && !r.double_check ==> r.threat_source is Some,
            forall|i: int| 0 <= i < r.pins@.len() ==> (#[trigger] r.pins@[i]).from < 64 && r.pins@[i].at < 64,
            !r.check ==> r.threat_source is None,
            forall|i: int| 0 <= i < r.pins@.len() ==> pin_real(
                #[trigger] r.pins@[i],
                self.white_king_position as int,
                self.occupancy,
                self.black_occupancy,
                self.bishop_bitboard,
                self.rook_bitboard,
                self.queen_bitboard,
            ),
            r.threat_source matches Some(ts) ==> threat_checks(
                ts,
                self.white_king_position as int,
                false,
                self.occupancy,
                self.black_occupancy,
                self.pawn_bitboard,
                self.knight_bitboard,
                self.bishop_bitboard,
                self.rook_bitboard,
                self.queen_bitboard,
            ),
            r.check == king_check_spec(
                self.white_king_position as int,
                false,
                self.occupancy,
                self.black_occupancy,
                self.pawn_bitboard,
                self.knight_bitboard,
                self.bishop_bitboard,
                self.rook_bitboard,
                self.queen_bitboard,
            ),            r.double_check == double_check_spec(
                self.white_king_position as int,
                false,
                self.occupancy,
                self.black_occupancy,
                self.pawn_bitboard,
                self.knight_bitboard,
                self.bishop_bitboard,
                self.rook_bitboard,
                self.queen_bitboard,
            ),            !r.double_check ==> pins_complete(
                r.pins@,
                self.white_king_position as int,
                self.occupancy,
                self.black_occupancy,
                self.bishop_bitboard,
                self.rook_bitboard,
                self.queen_bitboard,
            ),
    {
        analyze_king_position(
            self.white_king_position,
            false,
            self.occupancy,
            self.white_occupancy,
            self.black_occupancy,
            self.pawn_bitboard,
            self.knight_bitboard,
            self.bishop_bitboard,
            self.rook_bitboard,
            self.queen_bitboard,
        )
    }

    /// The analysis of the black king's position.
    pub fn get_black_king_analysis(&self) -> (r: KingPositionAnalysis)
        requires
            self.black_king_position < 64,
        ensures
            r.double_check ==> r.check,
            r.threat_source matches Some(ts) ==> ts.from < 64 && r.check,
            r.check && !r.double_check ==> r.threat_source is Some,
            forall|i: int| 0 <= i < r.pins@.len() ==> (#[trigger] r.pins@[i]).from < 64 && r.pins@[i].at < 64,
            !r.check ==> r.threat_source is None,
            forall|i: int| 0 <= i < r.pins@.len() ==> pin_real(
                #[trigger] r.pins@[i],
                self.black_king_position as int,
                self.occupancy,
                self.white_occupancy,
                self.bishop_bitboard,
                self.rook_bitboard,
                self.queen_bitboard,
            ),
            r.threat_source matches Some(ts) ==> threat_checks(
                ts,
                self.black_king_position as int,
                true,
                self.occupancy,
                self.white_occupancy,
                self.pawn_bitboard,
                self.knight_bitboard,
                self.bishop_bitboard,
                self.rook_bitboard,
                self.queen_bitboard,
            ),
            r.check == king_check_spec(
                self.black_king_position as int,
                true,
                self.occupancy,
                self.white_occupancy,
                self.pawn_bitboard,
                self.knight_bitboard,
                self.bishop_bitboard,
                self.rook_bitboard,
                self.queen_bitboard,
            ),            r.double_check == double_check_spec(
                self.black_king_position as int,
                true,
                self.occupancy,
                self.white_occupancy,
                self.pawn_bitboard,
                self.knight_bitboard,
                self.bishop_bitboard,
                self.rook_bitboard,
                self.queen_bitboard,
            ),            !r.double_check ==> pins_complete(
                r.pins@,
                self.black_king_position as int,
                self.occupancy,
                self.white_occupancy,
                self.bishop_bitboard,
                self.rook_bitboard,
                self.queen_bitboard,
            ),
    {
        analyze_king_position(
            self.black_king_position,
            true,
            self.occupancy,
            self.black_occupancy,
            self.white_occupancy,
            self.pawn_bitboard,
            self.knight_bitboard,
            self.bishop_bitboard,
            self.rook_bitboard,
            self.queen_bitboard,
        )
    }
}

} // verus!

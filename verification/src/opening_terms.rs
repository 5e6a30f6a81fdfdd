use vstd::prelude::*;
use crate::attack_and_defend_lookups::{AttackAndDefendTable, attacked_by_spec};
use crate::attacked_by::AttackedBy;
use crate::attacks::{bishop_attack, bishop_attacks, king_attacks, king_step, rook_attack, rook_attacks, with_square};
use crate::attack_and_defend_lookups::{count_where, lemma_count_where_bound, lemma_popcount_where};
use crate::bitboard::{count_squares, lemma_on_sq_and, lemma_on_sq_not, lemma_on_sq_or};
use crate::bitboard::on_sq;
use crate::board_rep::{BoardRep, piece_at};
use crate::board_utils::{file_of, get_file, get_rank, rank_of};
use crate::eval_terms::{get_mobility, mobility_upto};
use crate::king_analysis::ThreatRaycastCollision;
use crate::move_generation::bit_at;
use crate::piece_type::PieceType;
use crate::eval_terms::{count_knight_outposts, detect_fork, fork_spec, forked_board, is_outpost};
use crate::evaluation::{piece_square_score, square_sum, OPENING_MATERIAL_VALUES};
use crate::pawn_files::count_rooks_on_open_file;
use crate::bitboard::{popcount, rotated_180, Bitboard};
use crate::bitboard::lemma_same_squares_equal;
use crate::see::{piece_safety, piece_safety_spec, square_control, square_control_spec};

verus! {

/// Who controls a square: a side whose piece stands on it controls it while the piece is
/// safe (else the other side does); an empty square goes by `square_control_spec`, from
/// white's side (1 white, -1 black, 0 neither).
pub open spec fn square_control_value(b: BoardRep, index: int) -> int {
    let white = attacked_by_spec(b, index, false);
    let black = attacked_by_spec(b, index, true);
    if on_sq(b.white_occupancy, index) {
        if piece_safety_spec(piece_at(b, index), false, black, white) == 0 { 1 } else { -1 }
    } else if on_sq(b.black_occupancy, index) {
        if piece_safety_spec(piece_at(b, index), false, white, black) == 0 { -1 } else { 1 }
    } else {
        square_control_spec(white, black)
    }
}

/// Who controls a square (see `square_control_value`).
pub fn get_square_control(index: u8, ad_table: &mut AttackAndDefendTable, board: BoardRep) -> (r: i16)
    requires
        index < 64,
        board.wf(),
        old(ad_table).valid_for(board),
    ensures
        final(ad_table).valid_for(board),
        r == square_control_value(board, index as int),
        -1 <= r <= 1,
{
    let white = ad_table.get_attacked_by(index, board, false);
    let black = ad_table.get_attacked_by(index, board, true);
    if bit_at(board.white_occupancy, index) {
        let piece_type = board.get_piece_type_at_index(index);
        let safety = piece_safety(piece_type, false, black, white);
        return if safety == 0 { 1 } else { -1 };
    }
    if bit_at(board.black_occupancy, index) {
        let piece_type = board.get_piece_type_at_index(index);
        let safety = -1 * piece_safety(piece_type, false, white, black);
        return if safety == 0 { -1 } else { 1 };
    }
    square_control(white, black) as i16
}

/// The weight of a rank or of a bit column in the centre: 1 for the second and fifth, 2 for
/// the third and fourth, else 0.
pub open spec fn center_weight(k: int) -> int {
    if k == 2 || k == 5 { 1 } else if k == 3 || k == 4 { 2 } else { 0 }
}

/// The reward for controlling a square of the centre: 4 on the four centre squares, 2 or 1
/// on the ring around them, 0 elsewhere.
pub open spec fn center_reward(i: int) -> int {
    center_weight(i / 8) * center_weight(i % 8)
}

fn center_weight_of(k: usize) -> (r: i16)
    ensures
        r == center_weight(k as int),
        0 <= r <= 2,
{
    if k == 2 || k == 5 { 1 } else if k == 3 || k == 4 { 2 } else { 0 }
}

/// The scale of the centre control score.
pub const CENTER_SCALE_FACTOR: i16 = 15;

/// The rewarded control of the squares from 18 up to (not including) `n`.
pub open spec fn center_control_upto(b: BoardRep, n: int) -> int
    decreases n - 18,
{
    if n <= 18 {
        0
    } else {
        center_control_upto(b, n - 1) + if center_reward(n - 1) != 0 {
            square_control_value(b, n - 1) * center_reward(n - 1)
        } else {
            0
        }
    }
}

/// The centre control of white over black: the control of each square from f3 up to (not
/// including) c6, weighted by the square's reward, times the scale factor.
pub fn get_center_control_score(ad_table: &mut AttackAndDefendTable, board: BoardRep) -> (r: i16)
    requires
        board.wf(),
        old(ad_table).valid_for(board),
    ensures
        final(ad_table).valid_for(board),
        r == center_control_upto(board, 46) * CENTER_SCALE_FACTOR,
{
    let mut r: i16 = 0;
    let mut i: usize = 18;
    while i < 46
        invariant
            18 <= i <= 46,
            board.wf(),
            ad_table.valid_for(board),
            r == center_control_upto(board, i as int),
            -4 * (i - 18) <= r <= 4 * (i - 18),
        decreases 46 - i,
    {
        let wr = center_weight_of(i / 8);
        let wf = center_weight_of(i % 8);
        let reward = wr * wf;
        assert(0 <= reward <= 4) by (nonlinear_arith)
            requires
                reward == wr * wf,
                0 <= wr <= 2,
                0 <= wf <= 2,
        ;
        if reward != 0 {
            let control = get_square_control(i as u8, ad_table, board);
            if control == 1 {
                r = r + reward;
            } else if control == -1 {
                r = r - reward;
            }
        }
        i = i + 1;
    }
    r * CENTER_SCALE_FACTOR
}

/// The weight of the attackers of a square near a king: two for each pawn, knight or
/// bishop, three for each rook and five for a queen.
pub open spec fn threat_score_spec(a: AttackedBy) -> int {
    2 * (a.pawns + a.knights + if a.bishop { 1int } else { 0 }) + 3 * a.rooks + if a.queen { 5int } else { 0 }
}

/// The weight of the attackers of a square near a king (see `threat_score_spec`).
pub fn get_score(attacked_by: AttackedBy) -> (r: usize)
    ensures
        r == threat_score_spec(attacked_by),
        r <= 1792,
{
    ((2 * (attacked_by.pawns as usize + attacked_by.knights as usize + if attacked_by.bishop { 1 } else { 0 }))
        + (3 * attacked_by.rooks as usize) + if attacked_by.queen { 5 } else { 0 }) as usize
}

/// Whether the neighbourhood of a king reaches beyond its own squares: for a king that
/// stands on its own half of the board.
pub open spec fn neighbourhood_extended(king: int, is_black: bool) -> bool {
    !((is_black && rank_of(king) <= 4) || (!is_black && rank_of(king) >= 5))
}

/// The first of the squares that the neighbourhood of a king adds two ranks towards the
/// opponent.
pub open spec fn neighbourhood_offset(king: int, is_black: bool) -> int {
    king + if is_black { -17int } else { 15 }
}

/// How many squares the neighbourhood adds: two on an edge file, else three.
pub open spec fn neighbourhood_width(king: int) -> int {
    if file_of(king) == 0 || file_of(king) == 7 { 2 } else { 3 }
}

/// The squares around a king: those next to it, and for a king on its own half the squares
/// starting `neighbourhood_offset` on the rank two ahead of it.
pub open spec fn in_neighbourhood(king: int, is_black: bool, t: int) -> bool {
    ||| king_step(king, t)
    ||| neighbourhood_extended(king, is_black) && neighbourhood_offset(king, is_black) <= t
        < neighbourhood_offset(king, is_black) + neighbourhood_width(king)
}

/// The squares around a king (see `in_neighbourhood`).
pub fn get_neighbourhood_mask(king_pos: u8, is_black: bool) -> (r: u64)
    requires
        king_pos < 64,
    ensures
        forall|t: int| 0 <= t < 64 ==> (#[trigger] on_sq(r, t) <==> in_neighbourhood(king_pos as int, is_black, t)),
{
    let neighbourhood = king_attacks(king_pos);
    let rank = get_rank(king_pos);
    if (is_black && rank <= 4) || (!is_black && rank >= 5) {
        return neighbourhood;
    }
    let offset: u8 = if is_black { king_pos - 17 } else { king_pos + 15 };
    let file = get_file(king_pos);
    let mut r = with_square(neighbourhood, offset);
    r = with_square(r, offset + 1);
    if file != 0 && file != 7 {
        r = with_square(r, offset + 2);
    }
    r
}

/// The penalty for the weight of the attacks on a king's neighbourhood, by weight (0 to 99).
pub open spec fn safety_table() -> Seq<i16> {
    seq![0i16, 0i16, 1i16, 2i16, 3i16, 5i16, 7i16, 9i16, 12i16, 15i16, 18i16, 22i16, 26i16, 30i16, 35i16, 39i16,
        44i16, 50i16, 56i16, 62i16, 68i16, 75i16, 82i16, 85i16, 89i16, 97i16, 105i16, 113i16, 122i16, 131i16,
        140i16, 150i16, 169i16, 180i16, 191i16, 202i16, 213i16, 225i16, 237i16, 248i16, 260i16, 272i16, 283i16,
        295i16, 307i16, 319i16, 330i16, 342i16, 354i16, 366i16, 377i16, 389i16, 401i16, 412i16, 424i16, 436i16,
        448i16, 459i16, 471i16, 483i16, 494i16, 500i16, 500i16, 500i16, 500i16, 500i16, 500i16, 500i16, 500i16,
        500i16, 500i16, 500i16, 500i16, 500i16, 500i16, 500i16, 500i16, 500i16, 500i16, 500i16, 500i16, 500i16,
        500i16, 500i16, 500i16, 500i16, 500i16, 500i16, 500i16, 500i16, 500i16, 500i16, 500i16, 500i16, 500i16,
        500i16, 500i16, 500i16, 500i16, 500i16]
}

/// The weight of the opponent's attacks on the squares of a king's neighbourhood below `n`.
pub open spec fn neighbourhood_threat_upto(b: BoardRep, king: int, is_black: bool, n: nat) -> int
    decreases n,
{
    if n == 0 {
        0
    } else {
        neighbourhood_threat_upto(b, king, is_black, (n - 1) as nat) + if in_neighbourhood(king, is_black, n - 1) {
            threat_score_spec(attacked_by_spec(b, n - 1, !is_black))
        } else {
            0
        }
    }
}

/// The penalty for the opponent's attacks on a king's neighbourhood: the safety table at
/// their weight (see `neighbourhood_threat_upto`). The weight must stay below 100, the
/// length of the table.
pub fn king_neighbourhood_treat_level(king_pos: u8, is_black: bool, board: BoardRep) -> (r: i16)
    requires
        king_pos < 64,
        board.wf(),
        neighbourhood_threat_upto(board, king_pos as int, is_black, 64) < 100,
    ensures
        r == safety_table()[neighbourhood_threat_upto(board, king_pos as int, is_black, 64)],
{
    let neighbourhood = get_neighbourhood_mask(king_pos, is_black);
    let mut score: usize = 0;
    let mut i: u8 = 0;
    while i < 64
        invariant
            i <= 64,
            board.wf(),
            forall|t: int| 0 <= t < 64 ==> (#[trigger] on_sq(neighbourhood, t) <==> in_neighbourhood(king_pos as int, is_black, t)),
            score == neighbourhood_threat_upto(board, king_pos as int, is_black, i as nat),
            score <= 1792 * i,
        decreases 64 - i,
    {
        if bit_at(neighbourhood, i) {
            let attacked_by = board.get_attacked_by(i, !is_black);
            score = score + get_score(attacked_by);
        }
        i = i + 1;
    }
    if score > 100 {
        score = 100;
    }
    let table: [i16; 100] = [
        0, 0, 1, 2, 3, 5, 7, 9, 12, 15, 18, 22, 26, 30, 35, 39, 44, 50, 56, 62, 68, 75, 82, 85, 89, 97,
        105, 113, 122, 131, 140, 150, 169, 180, 191, 202, 213, 225, 237, 248, 260, 272, 283, 295, 307,
        319, 330, 342, 354, 366, 377, 389, 401, 412, 424, 436, 448, 459, 471, 483, 494, 500, 500, 500,
        500, 500, 500, 500, 500, 500, 500, 500, 500, 500, 500, 500, 500, 500, 500, 500, 500, 500, 500,
        500, 500, 500, 500, 500, 500, 500, 500, 500, 500, 500, 500, 500, 500, 500, 500, 500,
    ];
    assert(table@ =~= safety_table());
    table[score]
}

/// The squares and pieces whose standing on their home square counts as under-development:
/// knights on squares 1 and 6, bishops on squares 2 and 5.
pub open spec fn undeveloped_count(b: BoardRep, occ: u64) -> int {
    (if on_sq(occ, 1) && piece_at(b, 1) == PieceType::Knight { 1int } else { 0 })
        + (if on_sq(occ, 2) && piece_at(b, 2) == PieceType::Bishop { 1int } else { 0 })
        + (if on_sq(occ, 5) && piece_at(b, 5) == PieceType::Bishop { 1int } else { 0 })
        + (if on_sq(occ, 6) && piece_at(b, 6) == PieceType::Knight { 1int } else { 0 })
}

/// The penalty factor for each piece not yet developed.
pub const UNDER_DEVELOPED_PENALTY_FACTOR: i16 = 25;

/// The under-development of a side whose pieces `orientated_side_occupancy` holds as seen
/// from white's side: 25 for each knight or bishop on its home square, the piece types read
/// off the board's own squares.
pub fn under_developed_penalty(board: BoardRep, orientated_side_occupancy: u64) -> (r: i16)
    ensures
        r == undeveloped_count(board, orientated_side_occupancy) * UNDER_DEVELOPED_PENALTY_FACTOR,
{
    let mut score: i16 = 0;
    if bit_at(orientated_side_occupancy, 1) && board.get_piece_type_at_index(1) == PieceType::Knight {
        score = score + 1;
    }
    if bit_at(orientated_side_occupancy, 2) && board.get_piece_type_at_index(2) == PieceType::Bishop {
        score = score + 1;
    }
    if bit_at(orientated_side_occupancy, 5) && board.get_piece_type_at_index(5) == PieceType::Bishop {
        score = score + 1;
    }
    if bit_at(orientated_side_occupancy, 6) && board.get_piece_type_at_index(6) == PieceType::Knight {
        score = score + 1;
    }
    score * UNDER_DEVELOPED_PENALTY_FACTOR
}

/// What a pin or a possible reveal attack against a side costs it: half the opening value
/// of the pinned piece, or 25 for a reveal attack.
pub open spec fn pin_cost(b: BoardRep, pin: ThreatRaycastCollision) -> int {
    if !pin.reveal_attack {
        crate::evaluation::material_value(piece_at(b, pin.at as int), true) / 2
    } else {
        25
    }
}

/// What the pins of a list cost.
pub open spec fn pins_cost(b: BoardRep, pins: Seq<ThreatRaycastCollision>) -> int
    decreases pins.len(),
{
    if pins.len() == 0 {
        0
    } else {
        pins_cost(b, pins.drop_last()) + pin_cost(b, pins.last())
    }
}

/// Whether each pin of a list names a square, with a piece on it unless it is a reveal
/// attack.
pub open spec fn pins_ok(b: BoardRep, pins: Seq<ThreatRaycastCollision>) -> bool {
    forall|i: int| 0 <= i < pins.len() ==> (#[trigger] pins[i]).at < 64 && (!pins[i].reveal_attack
        ==> piece_at(b, pins[i].at as int) != PieceType::NoPiece)
}

fn pins_total(board: BoardRep, pins: &Vec<ThreatRaycastCollision>) -> (r: i32)
    requires
        pins_ok(board, pins@),
        pins@.len() <= 1000000,
    ensures
        r == pins_cost(board, pins@),
        0 <= r <= 900 * pins@.len(),
{
    let values: [i16; 6] = [110, 400, 450, 1000, 1800, 0];
    let mut total: i32 = 0;
    let mut i: usize = 0;
    while i < pins.len()
        invariant
            i <= pins@.len(),
            pins@.len() <= 1000000,
            pins_ok(board, pins@),
            values@ == seq![110i16, 400i16, 450i16, 1000i16, 1800i16, 0i16],
            total == pins_cost(board, pins@.subrange(0, i as int)),
            0 <= total <= 900 * i,
        decreases pins@.len() - i,
    {
        let pin = pins[i];
        assert(pins@.subrange(0, i + 1).drop_last() =~= pins@.subrange(0, i as int));
        assert(pins@[i as int] == pin);
        let cost: i32 = if !pin.reveal_attack {
            let piece = board.get_piece_type_at_index(pin.at);
            let n = piece.to_index();
            (values[n - 1] / 2) as i32
        } else {
            25
        };
        total = total + cost;
        i = i + 1;
    }
    assert(pins@.subrange(0, pins@.len() as int) =~= pins@);
    total
}

/// The advantage from pins: what black's pins and reveal attacks cost black less what
/// white's cost white (see `pin_cost`).
pub fn turn_order_advantage(
    board: BoardRep,
    white_pinned: &Vec<ThreatRaycastCollision>,
    black_pinned: &Vec<ThreatRaycastCollision>,
) -> (r: i32)
    requires
        pins_ok(board, white_pinned@),
        pins_ok(board, black_pinned@),
        white_pinned@.len() <= 1000000,
        black_pinned@.len() <= 1000000,
    ensures
        r == pins_cost(board, black_pinned@) - pins_cost(board, white_pinned@),
{
    let w = pins_total(board, white_pinned);
    let b = pins_total(board, black_pinned);
    b - w
}

/// The mobility of white over black, doubled (see `get_mobility`).
pub fn mobility_score(board: BoardRep) -> (r: i16)
    requires
        board.wf(),
    ensures
        r == 2 * (mobility_upto(board, false, 64) - mobility_upto(board, true, 64)),
{
    let w = get_mobility(false, board) as i16 - 50;
    let b = get_mobility(true, board) as i16 - 50;
    (w - b) * 2
}


/// The empty squares that a queen on a king's square would reach.
pub open spec fn open_to_king(b: BoardRep, king: int) -> spec_fn(int) -> bool {
    |t: int| (rook_attack(king, b.occupancy, t) || bishop_attack(king, b.occupancy, t)) && !on_sq(b.occupancy, t)
}

/// How open a king stands: the number of moves a queen on its square would have to empty
/// squares.
pub fn king_openness(king_pos: u8, board: BoardRep) -> (r: i16)
    requires
        king_pos < 64,
    ensures
        r == count_where(open_to_king(board, king_pos as int)),
        0 <= r <= 64,
{
    let rk = rook_attacks(king_pos, board.occupancy);
    let bs = bishop_attacks(king_pos, board.occupancy);
    let reach = rk | bs;
    let empty = !board.occupancy;
    let moves = reach & empty;
    proof {
        assert forall|t: int| 0 <= t < 64 implies (#[trigger] on_sq(moves, t) <==> open_to_king(board, king_pos as int)(t)) by {
            lemma_on_sq_and(reach, empty, t as u64);
            lemma_on_sq_or(rk, bs, t as u64);
            lemma_on_sq_not(board.occupancy, t as u64);
        }
        lemma_popcount_where(moves, open_to_king(board, king_pos as int), 64);
        lemma_count_where_bound(open_to_king(board, king_pos as int), 64);
    }
    count_squares(moves) as i16
}

/// The penalty for losing a castling right.
pub const CAN_NOT_CASTLE_PENALTY: i16 = 25;

/// What the castling rights a side has lost cost it.
pub open spec fn lost_castling(king_side: bool, queen_side: bool) -> int {
    (if !king_side { CAN_NOT_CASTLE_PENALTY as int } else { 0 }) + (if !queen_side { CAN_NOT_CASTLE_PENALTY as int } else { 0 })
}

/// The king safety of white over black: the openness of black's king less white's, the
/// threat level around black's king less white's, and the castling rights that black has
/// lost less those that white has lost.
pub open spec fn king_safety_spec(b: BoardRep) -> int {
    let w = b.white_king_position as int;
    let k = b.black_king_position as int;
    count_where(open_to_king(b, k)) - count_where(open_to_king(b, w))
        + safety_table()[neighbourhood_threat_upto(b, k, true, 64)] - safety_table()[neighbourhood_threat_upto(b, w, false, 64)]
        + lost_castling(b.black_king_side_castling, b.black_queen_side_castling)
        - lost_castling(b.white_king_side_castling, b.white_queen_side_castling)
}

/// The king safety of white over black (see `king_safety_spec`); the attacks around each
/// king must weigh below 100.
pub fn king_safety(board: BoardRep) -> (r: i32)
    requires
        board.wf(),
        neighbourhood_threat_upto(board, board.white_king_position as int, false, 64) < 100,
        neighbourhood_threat_upto(board, board.black_king_position as int, true, 64) < 100,
    ensures
        r == king_safety_spec(board),
{
    let mut score: i32 = 0;
    score = score - king_openness(board.white_king_position, board) as i32;
    score = score + king_openness(board.black_king_position, board) as i32;
    score = score - king_neighbourhood_treat_level(board.white_king_position, false, board) as i32;
    score = score + king_neighbourhood_treat_level(board.black_king_position, true, board) as i32;
    if !board.white_king_side_castling {
        score = score - CAN_NOT_CASTLE_PENALTY as i32;
    }
    if !board.white_queen_side_castling {
        score = score - CAN_NOT_CASTLE_PENALTY as i32;
    }
    if !board.black_king_side_castling {
        score = score + CAN_NOT_CASTLE_PENALTY as i32;
    }
    if !board.black_queen_side_castling {
        score = score + CAN_NOT_CASTLE_PENALTY as i32;
    }
    score
}


/// What a fork by the piece on `index` wins, by a table of six values counted from the
/// pawn's entry by the piece's number: three quarters of the value of the entry after the
/// least valuable piece forked (none for the king).
pub open spec fn fork_win(b: BoardRep, index: int, values: Seq<i16>, white_check: bool, black_check: bool) -> int {
    match fork_spec(b, index, white_check, black_check, forked_board(b, index)) {
        Some(p) => if crate::piece_type::piece_index(p) < 6 { values[crate::piece_type::piece_index(p)] / 4 * 3 } else { 0 },
        None => 0,
    }
}

/// The pawns and knights of one side.
pub open spec fn fork_pieces(b: BoardRep, is_black: bool) -> u64 {
    (if is_black { b.black_occupancy } else { b.white_occupancy }) & (b.pawn_bitboard | b.knight_bitboard)
}

/// What the forks of one side's pawns and knights on squares below `n` win.
pub open spec fn fork_wins_upto(b: BoardRep, is_black: bool, values: Seq<i16>, white_check: bool, black_check: bool, n: nat) -> int
    decreases n,
{
    if n == 0 {
        0
    } else {
        fork_wins_upto(b, is_black, values, white_check, black_check, (n - 1) as nat) + if on_sq(fork_pieces(b, is_black), n - 1) {
            fork_win(b, n - 1, values, white_check, black_check)
        } else {
            0
        }
    }
}

/// What the forks of one side's pawns and knights win (see `fork_win`); the values are
/// those of the material table, not negative.
pub fn get_fork_wins(
    is_black: bool,
    board: BoardRep,
    material_values: [i16; 6],
    white_king_check: bool,
    black_king_check: bool,
    ad_table: &mut AttackAndDefendTable,
) -> (r: i32)
    requires
        board.wf(),
        old(ad_table).valid_for(board),
        forall|i: int| 0 <= i < 6 ==> 0 <= #[trigger] material_values@[i] <= 10000,
    ensures
        final(ad_table).valid_for(board),
        r == fork_wins_upto(board, is_black, material_values@, white_king_check, black_king_check, 64),
        0 <= r <= 480000,
{
    let occupancy = (if is_black { board.black_occupancy } else { board.white_occupancy }) & (board.pawn_bitboard
        | board.knight_bitboard);
    let mut r: i32 = 0;
    let mut sq: u8 = 0;
    while sq < 64
        invariant
            sq <= 64,
            board.wf(),
            ad_table.valid_for(board),
            occupancy == fork_pieces(board, is_black),
            forall|i: int| 0 <= i < 6 ==> 0 <= #[trigger] material_values@[i] <= 10000,
            r == fork_wins_upto(board, is_black, material_values@, white_king_check, black_king_check, sq as nat),
            0 <= r <= 7500 * sq,
        decreases 64 - sq,
    {
        if bit_at(occupancy, sq) {
            let found = detect_fork(sq, board, white_king_check, black_king_check, ad_table);
            let won: i32 = match found {
                Some(p) => {
                    let n = p.to_index();
                    if n < 6 {
                        (material_values[n] / 4 * 3) as i32
                    } else {
                        0
                    }
                },
                None => 0,
            };
            r = r + won;
        }
        sq = sq + 1;
    }
    r
}


/// The under-development of black as `under_developed_penalty` finds it on black's
/// occupancy turned by 180 degrees: black's knights and bishops on its home squares
/// (62, 61, 58, 57), the piece types read off white's home squares (1, 2, 5, 6).
pub open spec fn black_undeveloped_count(b: BoardRep) -> int {
    (if on_sq(b.black_occupancy, 62) && piece_at(b, 1) == PieceType::Knight { 1int } else { 0 })
        + (if on_sq(b.black_occupancy, 61) && piece_at(b, 2) == PieceType::Bishop { 1int } else { 0 })
        + (if on_sq(b.black_occupancy, 58) && piece_at(b, 5) == PieceType::Bishop { 1int } else { 0 })
        + (if on_sq(b.black_occupancy, 57) && piece_at(b, 6) == PieceType::Knight { 1int } else { 0 })
}

/// The opening material values as a sequence.
pub open spec fn opening_material_values() -> Seq<i16> {
    seq![110i16, 400i16, 450i16, 1000i16, 1800i16, 0i16]
}

/// The knight outposts of white as `piece_positioning_score` counts them.
pub open spec fn white_outposts(b: BoardRep) -> int {
    count_where(|s: int| is_outpost(false, b.white_occupancy & b.knight_bitboard, b.white_occupancy & b.pawn_bitboard,
        b.black_occupancy & b.pawn_bitboard, s)) as int
}

/// The opening positioning of white over black: the square scores of pawns, knights and
/// bishops; the under-development; the knight outposts (counted for white on both sides, so
/// that they cancel); 100 for each rook on an open file; and what forks win.
pub open spec fn piece_positioning_spec(b: BoardRep, white_in_check: bool, black_in_check: bool, open_files: u64) -> int {
    square_sum(b.white_occupancy & b.pawn_bitboard, PieceType::Pawn, false, true, 64)
        - square_sum(b.black_occupancy & b.pawn_bitboard, PieceType::Pawn, true, true, 64)
        + square_sum(b.white_occupancy & b.knight_bitboard, PieceType::Knight, false, true, 64)
        - square_sum(b.black_occupancy & b.knight_bitboard, PieceType::Knight, true, true, 64)
        + square_sum(b.white_occupancy & b.bishop_bitboard, PieceType::Bishop, false, true, 64)
        - square_sum(b.black_occupancy & b.bishop_bitboard, PieceType::Bishop, true, true, 64)
        + undeveloped_count(b, b.white_occupancy) * 25 - black_undeveloped_count(b) * 25
        + white_outposts(b) * 75 - white_outposts(b) * 75
        + popcount(b.rook_bitboard & b.white_occupancy & open_files) * 100
        - popcount(b.rook_bitboard & b.black_occupancy & open_files) * 100
        + fork_wins_upto(b, false, opening_material_values(), white_in_check, black_in_check, 64)
        - fork_wins_upto(b, true, opening_material_values(), white_in_check, black_in_check, 64)
}

/// The opening positioning of white over black (see `piece_positioning_spec`).
pub fn piece_positioning_score(
    board: BoardRep,
    white_in_check: bool,
    black_in_check: bool,
    open_files: u64,
    ad_table: &mut AttackAndDefendTable,
) -> (r: i32)
    requires
        board.wf(),
        old(ad_table).valid_for(board),
    ensures
        final(ad_table).valid_for(board),
        r == piece_positioning_spec(board, white_in_check, black_in_check, open_files),
{
    let mut eval: i32 = 0;
    eval = eval + piece_square_score(board.white_occupancy & board.pawn_bitboard, PieceType::Pawn, false, true);
    eval = eval - piece_square_score(board.black_occupancy & board.pawn_bitboard, PieceType::Pawn, true, true);
    eval = eval + piece_square_score(board.white_occupancy & board.knight_bitboard, PieceType::Knight, false, true);
    eval = eval - piece_square_score(board.black_occupancy & board.knight_bitboard, PieceType::Knight, true, true);
    eval = eval + piece_square_score(board.white_occupancy & board.bishop_bitboard, PieceType::Bishop, false, true);
    eval = eval - piece_square_score(board.black_occupancy & board.bishop_bitboard, PieceType::Bishop, true, true);
    eval = eval + under_developed_penalty(board, board.white_occupancy) as i32;
    let turned = board.black_occupancy.rotate_180();
    proof {
        assert(((turned >> 1u64) & 1u64) == (board.black_occupancy >> 62u64) & 1u64);
        assert(((turned >> 2u64) & 1u64) == (board.black_occupancy >> 61u64) & 1u64);
        assert(((turned >> 5u64) & 1u64) == (board.black_occupancy >> 58u64) & 1u64);
        assert(((turned >> 6u64) & 1u64) == (board.black_occupancy >> 57u64) & 1u64);
    }
    eval = eval - under_developed_penalty(board, turned) as i32;
    let outposts = count_knight_outposts(
        false,
        board.white_occupancy & board.knight_bitboard,
        board.white_occupancy & board.pawn_bitboard,
        board.black_occupancy & board.pawn_bitboard,
    );
    proof {
        crate::attack_and_defend_lookups::lemma_count_where_bound(|s: int| is_outpost(false, board.white_occupancy & board.knight_bitboard,
            board.white_occupancy & board.pawn_bitboard, board.black_occupancy & board.pawn_bitboard, s), 64);
    }
    eval = eval + outposts as i32 * 75;
    let outposts_again = count_knight_outposts(
        false,
        board.white_occupancy & board.knight_bitboard,
        board.white_occupancy & board.pawn_bitboard,
        board.black_occupancy & board.pawn_bitboard,
    );
    eval = eval - outposts_again as i32 * 75;
    eval = eval + count_rooks_on_open_file(board.rook_bitboard & board.white_occupancy, open_files) as i32 * 100;
    eval = eval - count_rooks_on_open_file(board.rook_bitboard & board.black_occupancy, open_files) as i32 * 100;
    let values = OPENING_MATERIAL_VALUES;
    assert(values@ =~= opening_material_values());
    eval = eval + get_fork_wins(false, board, values, white_in_check, black_in_check, ad_table);
    eval = eval - get_fork_wins(true, board, values, white_in_check, black_in_check, ad_table);
    eval
}

} // verus!

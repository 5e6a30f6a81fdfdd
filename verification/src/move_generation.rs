use vstd::prelude::*;
use crate::attack_and_defend_lookups::AttackAndDefendTable;
use crate::attacked_by::AttackedBy;
use crate::attacks::{knight_attacks, king_attacks, rook_attacks, bishop_attacks, pawn_attacks, king_step, knight_step, rook_attack, bishop_attack, pawn_attack_step};
use crate::bitboard::{on_sq, count_squares, lemma_on_sq_and, lemma_on_sq_or, lemma_on_sq_xor, lemma_on_sq_bit};
use crate::board_rep::{BoardRep, piece_at};
use crate::chess_move::{Move, sort_moves};
use crate::constants::{
    MF_BISHOP_CAPTURE_PROMOTION, MF_BISHOP_PROMOTION, MF_CAPTURE, MF_DOUBLE_PAWN_PUSH, MF_EP_CAPTURE,
    MF_KING_CASTLING, MF_KNIGHT_CAPTURE_PROMOTION, MF_KNIGHT_PROMOTION, MF_QUEEN_CAPTURE_PROMOTION,
    MF_QUEEN_CASTLING, MF_QUEEN_PROMOTION, MF_ROOK_CAPTURE_PROMOTION, MF_ROOK_PROMOTION,
};
use crate::king_analysis::{KingPositionAnalysis, ThreatRaycastCollision, ThreatSource, ThreatType, squares_between};
use crate::piece_type::{PieceType, exchange_value};
use crate::see::{see, see_from_capture, piece_safety};
use crate::square_scores::{square_delta, trunc_div, opening_spec, endgame_spec};

verus! {

/// Whether every move of `s` is a move of `piece` of the given colour from `from` to a square
/// of the board.
pub open spec fn moves_of(s: Seq<Move>, from: int, piece: PieceType, black: bool) -> bool {
    forall|i: int|
        0 <= i < s.len() ==> (#[trigger] s[i]).from_spec() == from && s[i].piece_spec() == piece
            && s[i].black_spec() == black && s[i].to_spec() < 64
}

/// Whether every move of `s` is made by the given colour between squares of the board.
pub open spec fn moves_by(s: Seq<Move>, black: bool) -> bool {
    forall|i: int| 0 <= i < s.len() ==> (#[trigger] s[i]).black_spec() == black && s[i].from_spec() < 64 && s[i].to_spec() < 64
}

/// Whether a move is made by a piece of the side to move from where it stands: the king
/// from the king's square, any other piece from a square of its side holding that piece.
pub open spec fn from_own_piece(m: Move, board: BoardRep) -> bool {
    ||| m.from_spec() == friendly_king(board) && m.piece_spec() == PieceType::King
    ||| on_sq(if board.black_turn { board.black_occupancy } else { board.white_occupancy }, m.from_spec() as int)
        && m.piece_spec() == piece_at(board, m.from_spec() as int)
}

/// Whether every move of a list is made by a piece of the side to move from where it stands.
pub open spec fn all_from_own_pieces(s: Seq<Move>, board: BoardRep) -> bool {
    forall|i: int| 0 <= i < s.len() ==> #[trigger] from_own_piece(s[i], board)
}

/// The squares and piece numbers that a king analysis reports all lie on the board.
pub open spec fn analysis_ok(a: KingPositionAnalysis) -> bool {
    &&& (a.threat_source matches Some(ts) ==> ts.from < 64)
    &&& forall|i: int| 0 <= i < a.pins@.len() ==> (#[trigger] a.pins@[i]).from < 64 && a.pins@[i].at < 64
}

/// Whether square `i` is set in `b`.
pub fn bit_at(b: u64, i: u8) -> (r: bool)
    requires
        i < 64,
    ensures
        r == on_sq(b, i as int),
{
    (b >> (i as u64)) & 1 == 1
}

/// The exchange value a capture is rated with before it is made: the captured piece's value
/// less the capturing piece's.
pub fn calculate_see(attacker: PieceType, attacked: PieceType) -> (r: i8)
    ensures
        r == exchange_value(attacked) - exchange_value(attacker),
{
    attacked.exchange_value() - attacker.exchange_value()
}

/// The game phase of a board: 0 with all minor and major pieces on it, 256 with none.
pub fn calculate_game_phase(board: &BoardRep) -> (r: i16)
    ensures
        r as int == crate::square_scores::phase_spec(
            (crate::bitboard::popcount(board.knight_bitboard & board.occupancy) + crate::bitboard::popcount(board.bishop_bitboard & board.occupancy)) as int,
            crate::bitboard::popcount(board.rook_bitboard & board.occupancy) as int,
            crate::bitboard::popcount(board.queen_bitboard & board.occupancy) as int,
        ),
{
    let n = count_squares(board.knight_bitboard & board.occupancy) as i32;
    let b = count_squares(board.bishop_bitboard & board.occupancy) as i32;
    let r = count_squares(board.rook_bitboard & board.occupancy) as i32;
    let q = count_squares(board.queen_bitboard & board.occupancy) as i32;
    let material = 24 - (n + b + 2 * r + 4 * q);
    let x = material * 256 + 12;
    let v = x / 24;
    assert(v as int == crate::square_scores::trunc_div(x as int, 24));
    v as i16
}

/// The exchange value of a capture (see `capture_see`).
pub open spec fn capture_see_spec(piece: PieceType, friendly: AttackedBy, attacked: PieceType, opponent: AttackedBy) -> int {
    if crate::attacked_by::can_remove(friendly, piece) {
        crate::see::see_from_capture_spec(piece, friendly, attacked, opponent) as int
    } else {
        exchange_value(attacked) - exchange_value(piece)
    }
}

/// What a piece moving to a square stands to lose (see `move_safety`).
pub open spec fn move_safety_spec(piece: PieceType, opponent: AttackedBy, friendly: AttackedBy) -> int {
    if piece == PieceType::Pawn || crate::attacked_by::can_remove(friendly, piece) {
        crate::see::piece_safety_spec(piece, true, opponent, friendly) as int
    } else {
        crate::see::piece_safety_spec(piece, false, opponent, friendly) as int
    }
}

/// The exchange value of a capture; when the capturing piece is not among the attackers of
/// the square (which a consistent board never gives), the plain difference of the values.
pub fn capture_see(piece: PieceType, friendly: AttackedBy, attacked: PieceType, opponent: AttackedBy) -> (r: i8)
    ensures
        crate::attacked_by::can_remove(friendly, piece) ==> r == crate::see::see_from_capture_spec(piece, friendly, attacked, opponent),
        r == capture_see_spec(piece, friendly, attacked, opponent),
{
    if friendly.can_remove(piece) {
        see_from_capture(piece, friendly, attacked, opponent)
    } else {
        attacked.exchange_value() - piece.exchange_value()
    }
}

/// How much a piece moving to a square stands to lose; when the moving piece is not among the
/// defenders of the square (which a consistent board never gives), nothing is taken out.
pub fn move_safety(piece: PieceType, opponent: AttackedBy, friendly: AttackedBy) -> (r: i8)
    ensures
        (piece == PieceType::Pawn || crate::attacked_by::can_remove(friendly, piece)) ==> r == crate::see::piece_safety_spec(piece, true, opponent, friendly),
        r == move_safety_spec(piece, opponent, friendly),
        r <= 0,
{
    if piece == PieceType::Pawn || friendly.can_remove(piece) {
        piece_safety(piece, true, opponent, friendly)
    } else {
        piece_safety(piece, false, opponent, friendly)
    }
}

/// The king square of the side to move.
pub open spec fn friendly_king(b: BoardRep) -> u8 {
    if b.black_turn { b.black_king_position } else { b.white_king_position }
}

/// The king square of the side not to move.
pub open spec fn opponent_king(b: BoardRep) -> u8 {
    if b.black_turn { b.white_king_position } else { b.black_king_position }
}

/// The attackers of a square by the opponent; none when the moving piece reveals an attack on
/// the opponent king and the square is off the line between that king and the revealing piece.
pub open spec fn opponent_attackers_spec(board: BoardRep, index: int, reveal_attack: Option<ThreatRaycastCollision>) -> AttackedBy {
    match reveal_attack {
        Some(ra) => if crate::king_analysis::line_between(opponent_king(board) as int, ra.from as int, index) {
            crate::attack_and_defend_lookups::attacked_by_spec(board, index, !board.black_turn)
        } else {
            AttackedBy { pawns: 0, knights: 0, bishop: false, rooks: 0, queen: false, king: false }
        },
        None => crate::attack_and_defend_lookups::attacked_by_spec(board, index, !board.black_turn),
    }
}

/// The attackers of a square by the opponent, taken as none when the moving piece reveals
/// an attack on the opponent king and the square is off the revealed line.
fn opponent_attackers(
    board: BoardRep,
    ad_table: &mut AttackAndDefendTable,
    index: u8,
    reveal_attack: Option<ThreatRaycastCollision>,
) -> (r: AttackedBy)
    requires
        index < 64,
        board.wf(),
        old(ad_table).valid_for(board),
        reveal_attack matches Some(ra) ==> ra.from < 64,
    ensures
        final(ad_table).valid_for(board),
        r.wf(),
        r == opponent_attackers_spec(board, index as int, reveal_attack),
{
    match reveal_attack {
        None => ad_table.get_attacked_by(index, board, !board.black_turn),
        Some(ra) => {
            let king = if board.black_turn { board.white_king_position } else { board.black_king_position };
            let mask = squares_between(king, ra.from);
            if !bit_at(mask, index) {
                AttackedBy::empty()
            } else {
                ad_table.get_attacked_by(index, board, !board.black_turn)
            }
        },
    }
}

/// The moves of a piece from `from_index` to the squares of `moveboard`: captures (flag
/// `MF_CAPTURE`) to the opponent's squares and quiet moves (flag 0) to empty squares, in
/// increasing order of the to square. Squares of the mover's own side give no move.
/// The exchange value and square delta that a move to a square of a moveboard gets: for a
/// capture the exchange value of the capture (see `capture_see_spec`), else the safety of
/// the target square (see `move_safety_spec`), with the attackers of the target square on
/// both sides; and the change of the piece's blended square score (see `square_delta`).
pub open spec fn board_move_values(
    m: Move,
    from: int,
    piece_type: PieceType,
    opponent_occupancy: u64,
    board: BoardRep,
    reveal_attack: Option<ThreatRaycastCollision>,
    phase: i16,
) -> bool {
    let t = m.to_spec() as int;
    let friendly = crate::attack_and_defend_lookups::attacked_by_spec(board, t, board.black_turn);
    let opponent = opponent_attackers_spec(board, t, reveal_attack);
    &&& m.see_spec() == if on_sq(opponent_occupancy, t) {
        capture_see_spec(piece_type, friendly, piece_at(board, t), opponent)
    } else {
        move_safety_spec(piece_type, opponent, friendly)
    }
    &&& m.delta_spec() as int == trunc_div(
        ((opening_spec(piece_type, board.black_turn, t) - opening_spec(piece_type, board.black_turn, from)) * (256 - phase))
            + ((endgame_spec(piece_type, board.black_turn, t) - endgame_spec(piece_type, board.black_turn, from)) * phase),
        256,
    )
}

pub fn moveboard_to_moves(
    from_index: u8,
    piece_type: PieceType,
    moveboard: u64,
    opponent_occupancy: u64,
    occupancy: u64,
    board: BoardRep,
    ad_table: &mut AttackAndDefendTable,
    reveal_attack: Option<ThreatRaycastCollision>,
    phase: i16,
) -> (r: Vec<Move>)
    requires
        from_index < 64,
        board.wf(),
        old(ad_table).valid_for(board),
        reveal_attack matches Some(ra) ==> ra.from < 64,
    ensures
        final(ad_table).valid_for(board),
        moves_of(r@, from_index as int, piece_type, board.black_turn),
        forall|i: int| 0 <= i < r@.len() ==> {
            let m = #[trigger] r@[i];
            &&& on_sq(moveboard, m.to_spec() as int)
            &&& on_sq(opponent_occupancy, m.to_spec() as int) ==> m.flags_spec() == MF_CAPTURE
            &&& !on_sq(opponent_occupancy, m.to_spec() as int) ==> m.flags_spec() == 0 && !on_sq(occupancy, m.to_spec() as int)
        },
        forall|t: int|
            0 <= t < 64 && on_sq(moveboard, t) && (on_sq(opponent_occupancy, t) || !on_sq(occupancy, t)) ==> exists|i: int|
                0 <= i < r@.len() && (#[trigger] r@[i]).to_spec() == t,
        forall|i: int, j: int| 0 <= i < j < r@.len() ==> (#[trigger] r@[i]).to_spec() < (#[trigger] r@[j]).to_spec(),
        forall|i: int| 0 <= i < r@.len() && (#[trigger] r@[i]).flags_spec() == 0 ==> r@[i].see_spec() <= 0,
        forall|i: int| 0 <= i < r@.len() ==> board_move_values(#[trigger] r@[i], from_index as int, piece_type, opponent_occupancy, board, reveal_attack, phase),
{
    let mut generated_moves: Vec<Move> = Vec::new();
    let mut lsb: u8 = 0;
    while lsb < 64
        invariant
            lsb <= 64,
            from_index < 64,
            board.wf(),
            ad_table.valid_for(board),
            reveal_attack matches Some(ra) ==> ra.from < 64,
            moves_of(generated_moves@, from_index as int, piece_type, board.black_turn),
            forall|i: int| 0 <= i < generated_moves@.len() ==> {
                let m = #[trigger] generated_moves@[i];
                &&& on_sq(moveboard, m.to_spec() as int)
                &&& m.to_spec() < lsb
                &&& on_sq(opponent_occupancy, m.to_spec() as int) ==> m.flags_spec() == MF_CAPTURE
                &&& !on_sq(opponent_occupancy, m.to_spec() as int) ==> m.flags_spec() == 0 && !on_sq(occupancy, m.to_spec() as int)
            },
            forall|t: int|
                0 <= t < lsb && on_sq(moveboard, t) && (on_sq(opponent_occupancy, t) || !on_sq(occupancy, t)) ==> exists|i: int|
                    0 <= i < generated_moves@.len() && (#[trigger] generated_moves@[i]).to_spec() == t,
            forall|i: int, j: int| 0 <= i < j < generated_moves@.len() ==> (#[trigger] generated_moves@[i]).to_spec() < (#[trigger] generated_moves@[j]).to_spec(),
            forall|i: int| 0 <= i < generated_moves@.len() && (#[trigger] generated_moves@[i]).flags_spec() == 0 ==> generated_moves@[i].see_spec() <= 0,
            forall|i: int| 0 <= i < generated_moves@.len() ==> board_move_values(#[trigger] generated_moves@[i], from_index as int, piece_type, opponent_occupancy, board, reveal_attack, phase),
        decreases 64 - lsb,
    {
        if bit_at(moveboard, lsb) {
            let opp = bit_at(opponent_occupancy, lsb);
            let occ = bit_at(occupancy, lsb);
            if opp || !occ {
                let friendly = ad_table.get_attacked_by(lsb, board, board.black_turn);
                let opponent = opponent_attackers(board, ad_table, lsb, reveal_attack);
                let delta = square_delta(from_index as usize, lsb as usize, board.black_turn, piece_type, phase);
                let m = if opp {
                    let attacked_piece_type = board.get_piece_type_at_index(lsb);
                    let see_value = capture_see(piece_type, friendly, attacked_piece_type, opponent);
                    Move::new(from_index, lsb, MF_CAPTURE, piece_type, board.black_turn, see_value, delta)
                } else {
                    let safety = move_safety(piece_type, opponent, friendly);
                    Move::new(from_index, lsb, 0, piece_type, board.black_turn, safety, delta)
                };
                let ghost before = generated_moves@;
                generated_moves.push(m);
                proof {
                    assert(generated_moves@[before.len() as int] == m);
                    assert forall|t: int|
                        0 <= t < lsb + 1 && on_sq(moveboard, t) && (on_sq(opponent_occupancy, t) || !on_sq(occupancy, t)) implies exists|i: int|
                            0 <= i < generated_moves@.len() && (#[trigger] generated_moves@[i]).to_spec() == t by {
                        if t < lsb {
                            let i = choose|i: int| 0 <= i < before.len() && (#[trigger] before[i]).to_spec() == t;
                            assert(generated_moves@[i] == before[i]);
                        } else {
                            assert(generated_moves@[before.len() as int].to_spec() == t);
                        }
                    }
                }
            }
        }
        lsb = lsb + 1;
    }
    generated_moves
}

/// The squares a king on `index` can step to without being attacked there (with the king taken
/// off the board when attacks are computed afresh).
pub fn get_legal_moveboard(index: u8, ad_table: &AttackAndDefendTable, board: BoardRep, is_black: bool) -> (r: u64)
    requires
        index < 64,
        board.wf(),
        ad_table.wf(),
    ensures
        forall|t: int| 0 <= t < 64 && #[trigger] on_sq(r, t) ==> king_step(index as int, t),
        forall|t: int| 0 <= t < 64 ==> (#[trigger] on_sq(r, t) <==> king_step(index as int, t) && !ad_table.attacked_spec(t, !is_black, true, board)),
{
    let moveboard = king_attacks(index);
    let mut r = moveboard;
    let mut lsb: u8 = 0;
    while lsb < 64
        invariant
            lsb <= 64,
            index < 64,
            board.wf(),
            ad_table.wf(),
            forall|t: int| 0 <= t < 64 ==> (#[trigger] on_sq(r, t) <==> on_sq(moveboard, t) && !(t < lsb && ad_table.attacked_spec(t, !is_black, true, board))),
            forall|t: int| 0 <= t < 64 ==> (#[trigger] on_sq(moveboard, t) <==> king_step(index as int, t)),
        decreases 64 - lsb,
    {
        if bit_at(r, lsb) {
            if ad_table.has_at_least_one_attacker(lsb, !is_black, true, board) {
                let old_r = r;
                r = r ^ (1u64 << lsb);
                proof {
                    assert forall|t: int| 0 <= t < 64 implies (#[trigger] on_sq(r, t) <==> on_sq(moveboard, t) && !(t < lsb + 1 && ad_table.attacked_spec(t, !is_black, true, board))) by {
                        lemma_on_sq_xor(old_r, 1u64 << lsb, t as u64);
                        lemma_on_sq_bit(t as u64, lsb as u64);
                    }
                }
            }
        }
        lsb = lsb + 1;
    }
    r
}

/// A castling move, when the squares the king and rook cross are empty and the squares the
/// king crosses are not attacked.
pub fn generate_king_castling_move(
    from_index: u8,
    to_index: u8,
    castling_flag: u16,
    is_black: bool,
    castling_clearance_board: u64,
    castling_check_board: u64,
    board: BoardRep,
    ad_table: &AttackAndDefendTable,
    phase: i16,
) -> (r: Option<Move>)
    requires
        from_index < 64,
        to_index < 64,
        castling_flag < 16,
        board.wf(),
        ad_table.wf(),
    ensures
        r matches Some(m) ==> m.from_spec() == from_index && m.to_spec() == to_index && m.flags_spec() == castling_flag
            && m.piece_spec() == PieceType::King && m.black_spec() == is_black,
        r is Some ==> castling_clearance_board & board.occupancy == 0,
        r is Some <==> castling_clearance_board & board.occupancy == 0 && forall|t: int|
            0 <= t < 64 && #[trigger] on_sq(castling_check_board, t) ==> !ad_table.attacked_spec(t, !is_black, true, board),
{
    if castling_clearance_board & board.occupancy != 0 {
        return None;
    }
    let mut lsb: u8 = 0;
    while lsb < 64
        invariant
            lsb <= 64,
            board.wf(),
            ad_table.wf(),
            forall|t: int| 0 <= t < lsb && #[trigger] on_sq(castling_check_board, t) ==> !ad_table.attacked_spec(t, !is_black, true, board),
        decreases 64 - lsb,
    {
        if bit_at(castling_check_board, lsb) {
            if ad_table.has_at_least_one_attacker(lsb, !is_black, true, board) {
                return None;
            }
        }
        lsb = lsb + 1;
    }
    let m = Move::new(
        from_index,
        to_index,
        castling_flag,
        PieceType::King,
        is_black,
        0,
        square_delta(from_index as usize, to_index as usize, is_black, PieceType::King, phase),
    );
    Some(m)
}

/// The king's moves: steps to squares that are not attacked, and castling when the king is not
/// in check and the right is held.
pub fn generate_king_moves(
    index: u8,
    opponent_occupancy: u64,
    occupancy: u64,
    king_analysis: &KingPositionAnalysis,
    is_black: bool,
    king_side_castling: bool,
    queen_side_castling: bool,
    board: BoardRep,
    ad_table: &mut AttackAndDefendTable,
    phase: i16,
) -> (r: Vec<Move>)
    requires
        index < 64,
        board.wf(),
        old(ad_table).valid_for(board),
        is_black == board.black_turn,
    ensures
        final(ad_table).valid_for(board),
        moves_of(r@, index as int, PieceType::King, is_black),
        forall|i: int| 0 <= i < r@.len() && (#[trigger] r@[i]).flags_spec() != MF_KING_CASTLING && r@[i].flags_spec() != MF_QUEEN_CASTLING
            ==> king_step(index as int, r@[i].to_spec() as int) && lands_ok(r@[i], opponent_occupancy, occupancy)
                && !old(ad_table).attacked_spec(r@[i].to_spec() as int, !is_black, true, board),
        forall|i: int| 0 <= i < r@.len() && (#[trigger] r@[i]).flags_spec() == MF_KING_CASTLING ==> !king_analysis.check
            && king_side_castling && r@[i].to_spec() == index - 2,
        forall|i: int| 0 <= i < r@.len() && (#[trigger] r@[i]).flags_spec() == MF_QUEEN_CASTLING ==> !king_analysis.check
            && queen_side_castling && r@[i].to_spec() == index + 2,
        forall|t: int|
            0 <= t < 64 && #[trigger] king_step(index as int, t) && !old(ad_table).attacked_spec(t, !is_black, true, board)
                && open_target(opponent_occupancy, occupancy, t) ==> exists|i: int| 0 <= i < r@.len() && (#[trigger] r@[i]).to_spec() == t,
        distinct_targets(r@),
{
    let moveboard = get_legal_moveboard(index, ad_table, board, is_black);
    let mut moves = moveboard_to_moves(index, PieceType::King, moveboard, opponent_occupancy, occupancy, board, ad_table, None, phase);
    let ghost stepped = moves@;
    proof {
        assert forall|t: int|
            0 <= t < 64 && #[trigger] king_step(index as int, t) && !old(ad_table).attacked_spec(t, !is_black, true, board)
                && open_target(opponent_occupancy, occupancy, t) implies exists|i: int| 0 <= i < stepped.len() && (#[trigger] stepped[i]).to_spec() == t by {
            assert(on_sq(moveboard, t));
        }
    }
    if !king_analysis.check {
        if king_side_castling && index >= 3 {
            match generate_king_castling_move(
                index,
                index - 2,
                MF_KING_CASTLING,
                is_black,
                0b110u64 << (index - 3),
                0b110u64 << (index - 3),
                board,
                ad_table,
                phase,
            ) {
                Some(generated_move) => {
                    moves.push(generated_move);
                },
                None => {},
            }
        }
        if queen_side_castling && index >= 3 && index + 2 < 64 {
            match generate_king_castling_move(
                index,
                index + 2,
                MF_QUEEN_CASTLING,
                is_black,
                0b1110000u64 << (index - 3),
                0b110000u64 << (index - 3),
                board,
                ad_table,
                phase,
            ) {
                Some(generated_move) => {
                    moves.push(generated_move);
                },
                None => {},
            }
        }
    }
    proof {
        assert forall|i: int| 0 <= i < stepped.len() implies moves@[i] == stepped[i] by {}
        assert forall|t: int|
            0 <= t < 64 && #[trigger] king_step(index as int, t) && !old(ad_table).attacked_spec(t, !is_black, true, board)
                && open_target(opponent_occupancy, occupancy, t) implies exists|i: int| 0 <= i < moves@.len() && (#[trigger] moves@[i]).to_spec() == t by {
            let i = choose|i: int| 0 <= i < stepped.len() && (#[trigger] stepped[i]).to_spec() == t;
            assert(moves@[i] == stepped[i]);
        }
    }
    moves
}

/// Whether `m` holds the squares strictly between the king of the side to move and `from`.
pub open spec fn is_ray_mask(board: BoardRep, from: int, m: u64) -> bool {
    forall|t: int| 0 <= t < 64 ==> (#[trigger] on_sq(m, t) <==> crate::king_analysis::line_between(friendly_king(board) as int, from, t))
}

/// The squares strictly between the king of the side to move and `from`, as a bitboard.
pub open spec fn ray_mask_spec(board: BoardRep, from: int) -> u64 {
    choose|m: u64| #[trigger] is_ray_mask(board, from, m)
}

/// The squares strictly between the king of the side to move and `from`.
pub fn ray_to_king(board: &BoardRep, from: u8) -> (r: u64)
    requires
        board.wf(),
        from < 64,
    ensures
        forall|t: int| 0 <= t < 64 ==> (#[trigger] on_sq(r, t) <==> crate::king_analysis::line_between(friendly_king(*board) as int, from as int, t)),
        r == ray_mask_spec(*board, from as int),
{
    let king = if board.black_turn { board.black_king_position } else { board.white_king_position };
    let r = squares_between(king, from);
    proof {
        assert(is_ray_mask(*board, from as int, r));
        let m = ray_mask_spec(*board, from as int);
        assert(is_ray_mask(*board, from as int, m));
        assert forall|t: int| 0 <= t < 64 implies (#[trigger] on_sq(m, t) <==> on_sq(r, t)) by {
            assert(on_sq(m, t) <==> crate::king_analysis::line_between(friendly_king(*board) as int, from as int, t));
        }
        crate::bitboard::lemma_same_squares_equal(m, r);
    }
    r
}

/// Whether a square answers a check: any square when the king is not in check, else the
/// checking piece's square or a square between it and the king.
pub open spec fn answers_check(board: BoardRep, threat: Option<ThreatSource>, t: int) -> bool {
    match threat {
        None => true,
        Some(th) => t == th.from || crate::king_analysis::line_between(friendly_king(board) as int, th.from as int, t),
    }
}

/// Whether a square lies on a pin's line: the pinning piece's square or a square between it
/// and the king.
pub open spec fn on_pin_line(board: BoardRep, p: ThreatRaycastCollision, t: int) -> bool {
    t == p.from || crate::king_analysis::line_between(friendly_king(board) as int, p.from as int, t)
}

/// Whether a move can land on a square: it holds an opponent piece or nothing.
pub open spec fn open_target(opponent_occupancy: u64, occupancy: u64, t: int) -> bool {
    on_sq(opponent_occupancy, t) || !on_sq(occupancy, t)
}

/// Whether a move lands as a generated move does: a capture (flag `MF_CAPTURE`) on an opponent
/// piece, else a quiet move (flag 0) to an empty square.
pub open spec fn lands_ok(m: Move, opponent_occupancy: u64, occupancy: u64) -> bool {
    &&& on_sq(opponent_occupancy, m.to_spec() as int) ==> m.flags_spec() == MF_CAPTURE
    &&& !on_sq(opponent_occupancy, m.to_spec() as int) ==> m.flags_spec() == 0 && !on_sq(occupancy, m.to_spec() as int)
}

/// The squares a slider on `index` may move to before checks are answered: along its pin when
/// pinned, else the squares it attacks (as a rook, a bishop, or either for a queen).
pub open spec fn slider_reach(kind: PieceType, board: BoardRep, index: int, pin: Option<ThreatRaycastCollision>, t: int) -> bool {
    match pin {
        Some(p) => on_pin_line(board, p, t),
        None => if kind == PieceType::Rook {
            rook_attack(index, board.occupancy, t)
        } else if kind == PieceType::Bishop {
            bishop_attack(index, board.occupancy, t)
        } else {
            rook_attack(index, board.occupancy, t) || bishop_attack(index, board.occupancy, t)
        },
    }
}

/// Whether a list of moves of a piece on `index` holds exactly one move to each square that
/// `reach` allows and that answers the check and can be landed on, each landing as
/// `lands_ok` says.
pub open spec fn targets_exactly(
    r: Seq<Move>,
    board: BoardRep,
    reach: spec_fn(int) -> bool,
    threat: Option<ThreatSource>,
    opponent_occupancy: u64,
    occupancy: u64,
) -> bool {
    &&& forall|i: int| 0 <= i < r.len() ==> {
        let t = (#[trigger] r[i]).to_spec() as int;
        reach(t) && answers_check(board, threat, t) && lands_ok(r[i], opponent_occupancy, occupancy)
    }
    &&& forall|t: int| 0 <= t < 64 && reach(t) && answers_check(board, threat, t) && open_target(opponent_occupancy, occupancy, t)
        ==> exists|i: int| 0 <= i < r.len() && (#[trigger] r[i]).to_spec() == t
}

/// Limits a moveboard to the squares that answer a check: the checking piece's square and the
/// squares between it and the king.
fn restrict_to_threat(board: &BoardRep, moveboard: u64, king_threat: Option<ThreatSource>) -> (r: u64)
    requires
        board.wf(),
        king_threat matches Some(t) ==> t.from < 64,
    ensures
        forall|t: int| 0 <= t < 64 ==> (#[trigger] on_sq(r, t) <==> on_sq(moveboard, t) && answers_check(*board, king_threat, t)),
{
    match king_threat {
        None => moveboard,
        Some(threat) => {
            let ray = ray_to_king(board, threat.from);
            let mask = ray | (1u64 << threat.from);
            let r = moveboard & mask;
            proof {
                assert forall|t: int| 0 <= t < 64 implies (#[trigger] on_sq(r, t) <==> on_sq(moveboard, t) && answers_check(*board, king_threat, t)) by {
                    lemma_on_sq_and(moveboard, mask, t as u64);
                    lemma_on_sq_or(ray, 1u64 << threat.from, t as u64);
                    lemma_on_sq_bit(t as u64, threat.from as u64);
                }
            }
            r
        },
    }
}

/// The knight's moves, limited to answers to a check when the king is in check.
pub fn generate_knight_moves(
    index: u8,
    opponent_occupancy: u64,
    occupancy: u64,
    king_threat: Option<ThreatSource>,
    board: BoardRep,
    ad_table: &mut AttackAndDefendTable,
    reveal_attack: Option<ThreatRaycastCollision>,
    phase: i16,
) -> (r: Vec<Move>)
    requires
        index < 64,
        board.wf(),
        old(ad_table).valid_for(board),
        king_threat matches Some(t) ==> t.from < 64,
        reveal_attack matches Some(ra) ==> ra.from < 64,
    ensures
        final(ad_table).valid_for(board),
        moves_of(r@, index as int, PieceType::Knight, board.black_turn),
        forall|i: int| 0 <= i < r@.len() ==> knight_step(index as int, (#[trigger] r@[i]).to_spec() as int),
        targets_exactly(r@, board, (|t: int| knight_step(index as int, t)), king_threat, opponent_occupancy, occupancy),
        distinct_targets(r@),
{
    let attacks = knight_attacks(index);
    let moveboard = restrict_to_threat(&board, attacks, king_threat);
    let r = moveboard_to_moves(index, PieceType::Knight, moveboard, opponent_occupancy, occupancy, board, ad_table, reveal_attack, phase);
    proof {
        assert forall|t: int| 0 <= t < 64 implies (#[trigger] on_sq(moveboard, t) <==> knight_step(index as int, t) && answers_check(board, king_threat, t)) by {
            assert(on_sq(attacks, t) <==> knight_step(index as int, t));
        }
    }
    r
}

/// The squares a pinned slider may move to: along the pin, up to and including the pinning
/// piece.
fn pin_moveboard(board: &BoardRep, p: ThreatRaycastCollision) -> (r: u64)
    requires
        board.wf(),
        p.from < 64,
    ensures
        forall|t: int| 0 <= t < 64 ==> (#[trigger] on_sq(r, t) <==> on_pin_line(*board, p, t)),
{
    let ray = ray_to_king(board, p.from);
    let r = ray | (1u64 << p.from);
    proof {
        assert forall|t: int| 0 <= t < 64 implies (#[trigger] on_sq(r, t) <==> on_pin_line(*board, p, t)) by {
            lemma_on_sq_or(ray, 1u64 << p.from, t as u64);
            lemma_on_sq_bit(t as u64, p.from as u64);
        }
    }
    r
}

/// The bishop's moves: along the pin when pinned, limited to answers to a check when the king
/// is in check.
pub fn generate_bishop_moves(
    index: u8,
    board: BoardRep,
    ad_table: &mut AttackAndDefendTable,
    opponent_occupancy: u64,
    occupancy: u64,
    king_threat: Option<ThreatSource>,
    pin: Option<ThreatRaycastCollision>,
    reveal_attack: Option<ThreatRaycastCollision>,
    phase: i16,
) -> (r: Vec<Move>)
    requires
        index < 64,
        board.wf(),
        old(ad_table).valid_for(board),
        king_threat matches Some(t) ==> t.from < 64,
        pin matches Some(p) ==> p.from < 64,
        reveal_attack matches Some(ra) ==> ra.from < 64,
    ensures
        final(ad_table).valid_for(board),
        moves_of(r@, index as int, PieceType::Bishop, board.black_turn),
        pin is None ==> forall|i: int| 0 <= i < r@.len() ==> bishop_attack(index as int, board.occupancy, (#[trigger] r@[i]).to_spec() as int),        targets_exactly(
            r@,
            board,
            (|t: int| slider_reach(PieceType::Bishop, board, index as int, pin, t)),
            king_threat,
            opponent_occupancy,
            occupancy,
        ),
        distinct_targets(r@),
{
    let moveboard = match pin {
        Some(p) => pin_moveboard(&board, p),
        None => bishop_attacks(index, board.occupancy),
    };
    let restricted = restrict_to_threat(&board, moveboard, king_threat);
    let r = moveboard_to_moves(index, PieceType::Bishop, restricted, opponent_occupancy, occupancy, board, ad_table, reveal_attack, phase);
    proof {
        assert forall|t: int| 0 <= t < 64 implies (#[trigger] on_sq(restricted, t) <==> slider_reach(PieceType::Bishop, board, index as int, pin, t) && answers_check(board, king_threat, t)) by {
            assert(on_sq(moveboard, t) <==> slider_reach(PieceType::Bishop, board, index as int, pin, t));
        }
    }
    r
}

/// The rook's moves: along the pin when pinned, limited to answers to a check when the king
/// is in check.
pub fn generate_rook_moves(
    index: u8,
    board: BoardRep,
    ad_table: &mut AttackAndDefendTable,
    opponent_occupancy: u64,
    occupancy: u64,
    king_threat: Option<ThreatSource>,
    pin: Option<ThreatRaycastCollision>,
    reveal_attack: Option<ThreatRaycastCollision>,
    phase: i16,
) -> (r: Vec<Move>)
    requires
        index < 64,
        board.wf(),
        old(ad_table).valid_for(board),
        king_threat matches Some(t) ==> t.from < 64,
        pin matches Some(p) ==> p.from < 64,
        reveal_attack matches Some(ra) ==> ra.from < 64,
    ensures
        final(ad_table).valid_for(board),
        moves_of(r@, index as int, PieceType::Rook, board.black_turn),
        pin is None ==> forall|i: int| 0 <= i < r@.len() ==> rook_attack(index as int, board.occupancy, (#[trigger] r@[i]).to_spec() as int),        targets_exactly(
            r@,
            board,
            (|t: int| slider_reach(PieceType::Rook, board, index as int, pin, t)),
            king_threat,
            opponent_occupancy,
            occupancy,
        ),
        distinct_targets(r@),
{
    let moveboard = match pin {
        Some(p) => pin_moveboard(&board, p),
        None => rook_attacks(index, board.occupancy),
    };
    let restricted = restrict_to_threat(&board, moveboard, king_threat);
    let r = moveboard_to_moves(index, PieceType::Rook, restricted, opponent_occupancy, occupancy, board, ad_table, reveal_attack, phase);
    proof {
        assert forall|t: int| 0 <= t < 64 implies (#[trigger] on_sq(restricted, t) <==> slider_reach(PieceType::Rook, board, index as int, pin, t) && answers_check(board, king_threat, t)) by {
            assert(on_sq(moveboard, t) <==> slider_reach(PieceType::Rook, board, index as int, pin, t));
        }
    }
    r
}

/// The queen's moves: along the pin when pinned, limited to answers to a check when the king
/// is in check.
pub fn generate_queen_moves(
    index: u8,
    board: BoardRep,
    ad_table: &mut AttackAndDefendTable,
    opponent_occupancy: u64,
    occupancy: u64,
    king_threat: Option<ThreatSource>,
    pin: Option<ThreatRaycastCollision>,
    reveal_attack: Option<ThreatRaycastCollision>,
    phase: i16,
) -> (r: Vec<Move>)
    requires
        index < 64,
        board.wf(),
        old(ad_table).valid_for(board),
        king_threat matches Some(t) ==> t.from < 64,
        pin matches Some(p) ==> p.from < 64,
        reveal_attack matches Some(ra) ==> ra.from < 64,
    ensures
        final(ad_table).valid_for(board),
        moves_of(r@, index as int, PieceType::Queen, board.black_turn),
        pin is None ==> forall|i: int|
            0 <= i < r@.len() ==> rook_attack(index as int, board.occupancy, (#[trigger] r@[i]).to_spec() as int)
                || bishop_attack(index as int, board.occupancy, r@[i].to_spec() as int),        targets_exactly(
            r@,
            board,
            (|t: int| slider_reach(PieceType::Queen, board, index as int, pin, t)),
            king_threat,
            opponent_occupancy,
            occupancy,
        ),
        distinct_targets(r@),
{
    let moveboard = match pin {
        Some(p) => pin_moveboard(&board, p),
        None => {
            let b = bishop_attacks(index, board.occupancy);
            let rk = rook_attacks(index, board.occupancy);
            let m = b | rk;
            proof {
                assert forall|t: int| 0 <= t < 64 implies (#[trigger] on_sq(m, t) <==> (on_sq(b, t) || on_sq(rk, t))) by {
                    lemma_on_sq_or(b, rk, t as u64);
                }
            }
            m
        },
    };
    let restricted = restrict_to_threat(&board, moveboard, king_threat);
    let r = moveboard_to_moves(index, PieceType::Queen, restricted, opponent_occupancy, occupancy, board, ad_table, reveal_attack, phase);
    proof {
        assert forall|t: int| 0 <= t < 64 implies (#[trigger] on_sq(restricted, t) <==> slider_reach(PieceType::Queen, board, index as int, pin, t) && answers_check(board, king_threat, t)) by {
            assert(on_sq(moveboard, t) <==> slider_reach(PieceType::Queen, board, index as int, pin, t));
        }
    }
    r
}


/// The rank of a square.
pub open spec fn rank_spec(i: int) -> int {
    i / 8
}

/// The four promotions of a pawn move (knight, bishop, rook, queen), captures or not.
pub fn generate_pawn_promotion_moves(
    from_index: u8,
    to_index: u8,
    is_capture: bool,
    is_black: bool,
    see: i8,
    phase: i16,
) -> (r: Vec<Move>)
    requires
        from_index < 64,
        to_index < 64,
    ensures
        r@.len() == 4,
        moves_of(r@, from_index as int, PieceType::Pawn, is_black),
        forall|i: int| 0 <= i < 4 ==> (#[trigger] r@[i]).to_spec() == to_index,
        r@[0].flags_spec() == if is_capture { MF_KNIGHT_CAPTURE_PROMOTION } else { MF_KNIGHT_PROMOTION },
        r@[1].flags_spec() == if is_capture { MF_BISHOP_CAPTURE_PROMOTION } else { MF_BISHOP_PROMOTION },
        r@[2].flags_spec() == if is_capture { MF_ROOK_CAPTURE_PROMOTION } else { MF_ROOK_PROMOTION },
        r@[3].flags_spec() == if is_capture { MF_QUEEN_CAPTURE_PROMOTION } else { MF_QUEEN_PROMOTION },
        forall|i: int| 0 <= i < 4 ==> (#[trigger] r@[i]).see_spec() == see && r@[i].delta_spec() as int == crate::square_scores::trunc_div(
            ((crate::square_scores::opening_spec(PieceType::Pawn, is_black, to_index as int) - crate::square_scores::opening_spec(
                PieceType::Pawn,
                is_black,
                from_index as int,
            )) * (256 - phase)) + ((crate::square_scores::endgame_spec(PieceType::Pawn, is_black, to_index as int)
                - crate::square_scores::endgame_spec(PieceType::Pawn, is_black, from_index as int)) * phase),
            256,
        ),
{
    let delta = square_delta(from_index as usize, to_index as usize, is_black, PieceType::Pawn, phase);
    let m0 = Move::new(from_index, to_index, if !is_capture { MF_KNIGHT_PROMOTION } else { MF_KNIGHT_CAPTURE_PROMOTION }, PieceType::Pawn, is_black, see, delta);
    let m1 = Move::new(from_index, to_index, if !is_capture { MF_BISHOP_PROMOTION } else { MF_BISHOP_CAPTURE_PROMOTION }, PieceType::Pawn, is_black, see, delta);
    let m2 = Move::new(from_index, to_index, if !is_capture { MF_ROOK_PROMOTION } else { MF_ROOK_CAPTURE_PROMOTION }, PieceType::Pawn, is_black, see, delta);
    let m3 = Move::new(from_index, to_index, if !is_capture { MF_QUEEN_PROMOTION } else { MF_QUEEN_CAPTURE_PROMOTION }, PieceType::Pawn, is_black, see, delta);
    let mut v: Vec<Move> = Vec::new();
    v.push(m0);
    v.push(m1);
    v.push(m2);
    v.push(m3);
    v
}

/// Whether taking en passant would open the king's rank (or file) to an opponent rook or
/// queen: with both pawns off the board, a rook on the king's square would reach one.
pub fn ep_leads_to_orthogonal_check(board: BoardRep, pawn_position: u8, captured_pawn_position: u8, opponent_occupancy: u64) -> (r: bool)
    requires
        board.wf(),
        pawn_position < 64,
        captured_pawn_position < 64,
    ensures
        r == exists|t: int|
            0 <= t < 64 && on_sq((board.rook_bitboard | board.queen_bitboard) & opponent_occupancy, t) && #[trigger] rook_attack(
                friendly_king(board) as int,
                board.occupancy ^ (1u64 << pawn_position) ^ (1u64 << captured_pawn_position),
                t,
            ),
{
    let threat_sources = (board.rook_bitboard | board.queen_bitboard) & opponent_occupancy;
    let king_index = if board.black_turn { board.black_king_position } else { board.white_king_position };
    let occupancy_without_pawns = board.occupancy ^ (1u64 << pawn_position) ^ (1u64 << captured_pawn_position);
    let move_board = rook_attacks(king_index, occupancy_without_pawns);
    let b = move_board & threat_sources;
    proof {
        crate::bitboard::lemma_zero_iff_no_square(b);
        assert forall|t: int| 0 <= t < 64 implies (#[trigger] on_sq(b, t) <==> (on_sq(threat_sources, t) && rook_attack(king_index as int, occupancy_without_pawns, t))) by {
            lemma_on_sq_and(move_board, threat_sources, t as u64);
        }
        assert(friendly_king(board) == king_index);
        if b != 0 {
            let i = choose|i: u64| i < 64 && on_sq(b, i as int);
            assert(on_sq(b, i as int));
            assert(rook_attack(friendly_king(board) as int, occupancy_without_pawns, i as int));
        } else {
            assert forall|t: int| 0 <= t < 64 && on_sq(threat_sources, t) implies !#[trigger] rook_attack(friendly_king(board) as int, occupancy_without_pawns, t) by {
                assert(!on_sq(b, (t as u64) as int));
            }
        }
    }
    b != 0
}

/// The exchange value of a pawn moving to (or capturing on) a square, from the attackers of
/// the square of both sides (see `opponent_attackers_spec`).
pub open spec fn get_see_spec(board: BoardRep, index: int, is_capture: bool, reveal_attack: Option<ThreatRaycastCollision>) -> int {
    let friendly = crate::attack_and_defend_lookups::attacked_by_spec(board, index, board.black_turn);
    let opponent = opponent_attackers_spec(board, index, reveal_attack);
    if is_capture {
        capture_see_spec(PieceType::Pawn, friendly, piece_at(board, index), opponent)
    } else {
        move_safety_spec(PieceType::Pawn, opponent, friendly)
    }
}

/// The exchange value of a pawn moving to (or capturing on) a square.
pub fn get_see(
    ad_table: &mut AttackAndDefendTable,
    board: BoardRep,
    index: u8,
    is_capture: bool,
    reveal_attack: Option<ThreatRaycastCollision>,
) -> (r: i8)
    requires
        index < 64,
        board.wf(),
        old(ad_table).valid_for(board),
        reveal_attack matches Some(ra) ==> ra.from < 64,
    ensures
        final(ad_table).valid_for(board),
        r == get_see_spec(board, index as int, is_capture, reveal_attack),
{
    let attacked_piece_type = board.get_piece_type_at_index(index);
    let friendly = ad_table.get_attacked_by(index, board, board.black_turn);
    let opponent = opponent_attackers(board, ad_table, index, reveal_attack);
    if is_capture {
        capture_see(PieceType::Pawn, friendly, attacked_piece_type, opponent)
    } else {
        move_safety(PieceType::Pawn, opponent, friendly)
    }
}

/// Whether a flag word names a promotion without a capture.
pub open spec fn quiet_promotion_flags(f: u16) -> bool {
    f == MF_KNIGHT_PROMOTION || f == MF_BISHOP_PROMOTION || f == MF_ROOK_PROMOTION || f == MF_QUEEN_PROMOTION
}

/// Whether a flag word names a promotion with a capture.
pub open spec fn capture_promotion_flags(f: u16) -> bool {
    f == MF_KNIGHT_CAPTURE_PROMOTION || f == MF_BISHOP_CAPTURE_PROMOTION || f == MF_ROOK_CAPTURE_PROMOTION || f
        == MF_QUEEN_CAPTURE_PROMOTION
}

/// The square one step forward from `from` for a pawn of a colour.
pub open spec fn pawn_step(from: int, black: bool) -> int {
    from + if black { -8int } else { 8 }
}

/// Whether `to` is beside the square one step forward from `from`, on its rank.
pub open spec fn pawn_diagonal(from: int, black: bool, to: int) -> bool {
    let p = pawn_step(from, black);
    (to == p + 1 || to == p - 1) && 0 <= to < 64 && to / 8 == p / 8
}

/// Whether a square is on the first or the last rank.
pub open spec fn last_rank(t: int) -> bool {
    t / 8 == 0 || t / 8 == 7
}

/// Whether a pawn move of the side to move has one of the shapes the generator makes: a
/// push onto an empty square, a double push from the starting rank over two empty squares,
/// a promotion onto an empty square of the last rank, a capture of an opponent piece (on the
/// last rank a promotion), or an en passant capture onto the en passant square that opens no
/// line to the king (see `ep_safe`).
pub open spec fn pawn_move_shape(m: Move, board: BoardRep, opponent_occupancy: u64) -> bool {
    let from = m.from_spec() as int;
    let to = m.to_spec() as int;
    let f = m.flags_spec();
    let black = board.black_turn;
    let p = pawn_step(from, black);
    ||| f == 0 && to == p && !last_rank(to) && !on_sq(board.occupancy, to)
    ||| f == MF_DOUBLE_PAWN_PUSH && to == pawn_step(p, black) && from / 8 == (if black { 6int } else { 1 })
        && !on_sq(board.occupancy, p) && !on_sq(board.occupancy, to)
    ||| quiet_promotion_flags(f) && to == p && last_rank(to) && !on_sq(board.occupancy, to)
    ||| f == MF_CAPTURE && pawn_diagonal(from, black, to) && !last_rank(to) && on_sq(opponent_occupancy, to)
        && to != board.ep_index
    ||| f == MF_EP_CAPTURE && pawn_diagonal(from, black, to) && !last_rank(to) && to == board.ep_index && ep_safe(
        board,
        from,
        to,
        opponent_occupancy,
    )
    ||| capture_promotion_flags(f) && pawn_diagonal(from, black, to) && last_rank(to) && (on_sq(opponent_occupancy, to)
        || to == board.ep_index) && ep_safe(board, from, to, opponent_occupancy)
}

/// Whether a pawn capture from `from` onto `to` keeps the king safe as far as en passant goes:
/// when `to` is the en passant square, taking both pawns off their rank opens no line from
/// the king to an opponent rook or queen (see `ep_check_spec`).
pub open spec fn ep_safe(board: BoardRep, from: int, to: int, opponent_occupancy: u64) -> bool {
    to == board.ep_index ==> !ep_check_spec(
        board,
        from,
        if to > pawn_step(from, board.black_turn) { from + 1 } else { from - 1 },
        opponent_occupancy,
    )
}

/// Whether every move of a list has a generated pawn move's shape.
pub open spec fn pawn_moves_shaped(s: Seq<Move>, board: BoardRep, opponent_occupancy: u64) -> bool {
    forall|i: int| 0 <= i < s.len() ==> #[trigger] pawn_move_shape(s[i], board, opponent_occupancy)
}

/// The pawn that an en passant capture takes, standing beside the capturing pawn; none
/// (`u8::MAX`) without an en passant square.
pub open spec fn ep_source_spec(board: BoardRep) -> int {
    if board.ep_index < 64 {
        if board.black_turn {
            if board.ep_index < 56 { board.ep_index + 8 } else { u8::MAX as int }
        } else {
            if board.ep_index >= 8 { board.ep_index - 8 } else { u8::MAX as int }
        }
    } else {
        u8::MAX as int
    }
}

/// Whether a pawn move of the side to move has a shape the generator makes under a check or
/// a pin: a push (or promotion) onto a square of `mask`, a double push over an empty square
/// onto a square of `mask`, or a capture of the piece on `threat` (en passant when that
/// piece is the pawn the en passant square was passed by).
pub open spec fn pawn_answer_shape(m: Move, board: BoardRep, threat: int, mask: u64) -> bool {
    let from = m.from_spec() as int;
    let to = m.to_spec() as int;
    let f = m.flags_spec();
    let black = board.black_turn;
    let p = pawn_step(from, black);
    ||| f == 0 && to == p && !last_rank(to) && on_sq(mask, to)
    ||| quiet_promotion_flags(f) && to == p && last_rank(to) && on_sq(mask, to)
    ||| f == MF_DOUBLE_PAWN_PUSH && to == pawn_step(p, black) && from / 8 == (if black { 6int } else { 1 })
        && !on_sq(board.occupancy, p) && on_sq(mask, to)
    ||| pawn_diagonal(from, black, to) && (to == threat || (to == board.ep_index && threat == ep_source_spec(board))) && (
    if last_rank(to) {
        capture_promotion_flags(f)
    } else {
        f == (if to == board.ep_index { MF_EP_CAPTURE } else { MF_CAPTURE })
    })
}

/// Whether every move of a list has a generated answer's shape.
pub open spec fn pawn_answers_shaped(s: Seq<Move>, board: BoardRep, threat: int, mask: u64) -> bool {
    forall|i: int| 0 <= i < s.len() ==> #[trigger] pawn_answer_shape(s[i], board, threat, mask)
}

/// The squares a pawn of the given colour on `index` attacks.
pub fn get_pawn_threat_positions(index: u8, is_black: bool) -> (r: u64)
    requires
        if is_black { 8 <= index < 64 } else { index < 56 },
    ensures
        forall|t: int| 0 <= t < 64 ==> (#[trigger] on_sq(r, t) <==> pawn_attack_step(index as int, is_black, t)),
{
    pawn_attacks(index, is_black)
}

/// The squares a pawn of the given colour on `piece_position` attacks (none from the last rank).
pub fn get_pawn_threatboard(piece_position: u8, is_black: bool) -> (r: u64)
    requires
        piece_position < 64,
    ensures
        forall|t: int| 0 <= t < 64 ==> (#[trigger] on_sq(r, t) <==> pawn_attack_step(piece_position as int, is_black, t)),
{
    pawn_attacks(piece_position, is_black)
}

/// Whether a list holds a move to `t`.
pub open spec fn has_move_to(r: Seq<Move>, t: int) -> bool {
    exists|i: int| 0 <= i < r.len() && (#[trigger] r[i]).to_spec() == t
}

proof fn lemma_has_move_to_append(a: Seq<Move>, b: Seq<Move>)
    ensures
        forall|t: int| has_move_to(a, t) || has_move_to(b, t) ==> #[trigger] has_move_to(a + b, t),
{
    assert forall|t: int| has_move_to(a, t) || has_move_to(b, t) implies #[trigger] has_move_to(a + b, t) by {
        if has_move_to(a, t) {
            let i = choose|i: int| 0 <= i < a.len() && (#[trigger] a[i]).to_spec() == t;
            assert((a + b)[i] == a[i]);
        } else {
            let i = choose|i: int| 0 <= i < b.len() && (#[trigger] b[i]).to_spec() == t;
            assert((a + b)[a.len() + i] == b[i]);
        }
    }
}

/// Whether a pawn on `index` stands on the last rank it moves towards (and has no moves).
pub open spec fn pawn_at_edge(index: int, black: bool) -> bool {
    (black && index < 8) || (!black && index >= 56)
}

/// Whether `t` is a square beside the pawn's step square (to the left only when the pawn is
/// above square 8, as the generator checks), on the same rank.
pub open spec fn pawn_capture_square(index: int, black: bool, t: int) -> bool {
    let p = pawn_step(index, black);
    ((t == p + 1 && p + 1 < 64) || (t == p - 1 && index > 8 && p >= 1)) && t / 8 == p / 8
}

/// Whether an en passant capture from `pawn` of the pawn on `captured` would open the king's
/// rank or file to an opponent rook or queen.
pub open spec fn ep_check_spec(board: BoardRep, pawn: int, captured: int, opponent_occupancy: u64) -> bool {
    exists|t: int|
        0 <= t < 64 && on_sq((board.rook_bitboard | board.queen_bitboard) & opponent_occupancy, t) && #[trigger] rook_attack(
            friendly_king(board) as int,
            board.occupancy ^ (1u64 << (pawn as u8)) ^ (1u64 << (captured as u8)),
            t,
        )
}

/// The squares that a pawn whose king is in check (or that is pinned) moves to: its step
/// square on the threat's line, its double step square from the starting rank over an empty
/// step square onto the line, or a capture square holding the threatening piece (or the en
/// passant square when the threat is the pawn that passed it).
pub open spec fn pawn_answer_target(index: int, board: BoardRep, threat: int, mask: u64, t: int) -> bool {
    let black = board.black_turn;
    let p = pawn_step(index, black);
    &&& !pawn_at_edge(index, black)
    &&& {
        ||| t == p && on_sq(mask, t)
        ||| t == pawn_step(p, black) && index / 8 == (if black { 6int } else { 1 }) && !on_sq(board.occupancy, p) && on_sq(mask, t)
        ||| pawn_capture_square(index, black, t) && (t == threat || (t == board.ep_index && threat == ep_source_spec(board)))
    }
}

/// The squares that a free pawn moves to: its empty step square, its double step square from
/// the starting rank over empty squares (not onto the last rank), or a capture square holding an
/// opponent piece or being the en passant square (unless that capture opens the king's line).
pub open spec fn pawn_free_target(index: int, board: BoardRep, opponent_occupancy: u64, t: int) -> bool {
    let black = board.black_turn;
    let p = pawn_step(index, black);
    &&& !pawn_at_edge(index, black)
    &&& {
        ||| t == p && !on_sq(board.occupancy, p)
        ||| t == pawn_step(p, black) && index / 8 == (if black { 6int } else { 1 }) && !on_sq(board.occupancy, p) && !last_rank(p)
            && !on_sq(board.occupancy, t)
        ||| pawn_capture_square(index, black, t) && (t == board.ep_index || on_sq(opponent_occupancy, t)) && (t == board.ep_index
            ==> !ep_check_spec(board, index, if t > p { index + 1 } else { index - 1 }, opponent_occupancy))
    }
}

/// Whether no two moves of a list go to the same square with the same flags.
pub open spec fn distinct_targets(r: Seq<Move>) -> bool {
    forall|i: int, j: int|
        0 <= i < j < r.len() ==> !((#[trigger] r[i]).to_spec() == (#[trigger] r[j]).to_spec() && r[i].flags_spec() == r[j].flags_spec())
}

/// Whether a list holds a move to `t` with flags `f`.
pub open spec fn has_move_flag(r: Seq<Move>, t: int, f: u16) -> bool {
    exists|i: int| 0 <= i < r.len() && (#[trigger] r[i]).to_spec() == t && r[i].flags_spec() == f
}

/// Whether a list holds the four promotions to `t` (with a capture or without).
pub open spec fn promotions_at(r: Seq<Move>, t: int, capture: bool) -> bool {
    &&& has_move_flag(r, t, if capture { MF_KNIGHT_CAPTURE_PROMOTION } else { MF_KNIGHT_PROMOTION })
    &&& has_move_flag(r, t, if capture { MF_BISHOP_CAPTURE_PROMOTION } else { MF_BISHOP_PROMOTION })
    &&& has_move_flag(r, t, if capture { MF_ROOK_CAPTURE_PROMOTION } else { MF_ROOK_PROMOTION })
    &&& has_move_flag(r, t, if capture { MF_QUEEN_CAPTURE_PROMOTION } else { MF_QUEEN_PROMOTION })
}

proof fn lemma_promotion_list(r: Seq<Move>, t: int, capture: bool)
    requires
        r.len() == 4,
        forall|i: int| 0 <= i < 4 ==> (#[trigger] r[i]).to_spec() == t,
        r[0].flags_spec() == if capture { MF_KNIGHT_CAPTURE_PROMOTION } else { MF_KNIGHT_PROMOTION },
        r[1].flags_spec() == if capture { MF_BISHOP_CAPTURE_PROMOTION } else { MF_BISHOP_PROMOTION },
        r[2].flags_spec() == if capture { MF_ROOK_CAPTURE_PROMOTION } else { MF_ROOK_PROMOTION },
        r[3].flags_spec() == if capture { MF_QUEEN_CAPTURE_PROMOTION } else { MF_QUEEN_PROMOTION },
    ensures
        promotions_at(r, t, capture),
        distinct_targets(r),
{
    assert(r[0].to_spec() == t && r[1].to_spec() == t && r[2].to_spec() == t && r[3].to_spec() == t);
}

proof fn lemma_targets_append(a: Seq<Move>, b: Seq<Move>)
    requires
        distinct_targets(a),
        distinct_targets(b),
        forall|i: int, j: int| 0 <= i < a.len() && 0 <= j < b.len() ==> (#[trigger] a[i]).to_spec() != (#[trigger] b[j]).to_spec(),
    ensures
        distinct_targets(a + b),
        forall|t: int, f: u16| has_move_flag(a, t, f) || has_move_flag(b, t, f) ==> #[trigger] has_move_flag(a + b, t, f),
{
    assert forall|i: int, j: int| 0 <= i < j < (a + b).len() implies !((#[trigger] (a + b)[i]).to_spec() == (#[trigger] (a + b)[j]).to_spec()
        && (a + b)[i].flags_spec() == (a + b)[j].flags_spec()) by {
        if j < a.len() {
            assert((a + b)[i] == a[i] && (a + b)[j] == a[j]);
        } else if i >= a.len() {
            assert((a + b)[i] == b[i - a.len()] && (a + b)[j] == b[j - a.len()]);
        } else {
            assert((a + b)[i] == a[i] && (a + b)[j] == b[j - a.len()]);
        }
    }
    assert forall|t: int, f: u16| has_move_flag(a, t, f) || has_move_flag(b, t, f) implies #[trigger] has_move_flag(a + b, t, f) by {
        if has_move_flag(a, t, f) {
            let i = choose|i: int| 0 <= i < a.len() && (#[trigger] a[i]).to_spec() == t && a[i].flags_spec() == f;
            assert((a + b)[i] == a[i]);
        } else {
            let i = choose|i: int| 0 <= i < b.len() && (#[trigger] b[i]).to_spec() == t && b[i].flags_spec() == f;
            assert((a + b)[a.len() + i] == b[i]);
        }
    }
}

fn threatened_pushes(
    index: u8,
    threat_source: u8,
    threat_ray_mask: u64,
    board: BoardRep,
    ad_table: &mut AttackAndDefendTable,
    reveal_attack: Option<ThreatRaycastCollision>,
    phase: i16,
) -> (r: Vec<Move>)
    requires
        index < 64,
        board.wf(),
        old(ad_table).valid_for(board),
        reveal_attack matches Some(ra) ==> ra.from < 64,
        !((board.black_turn && index < 8) || (!board.black_turn && index >= 56)),
    ensures
        final(ad_table).valid_for(board),
        moves_of(r@, index as int, PieceType::Pawn, board.black_turn),
        pawn_answers_shaped(r@, board, threat_source as int, threat_ray_mask),
        forall|t: int| 0 <= t < 64 && !pawn_capture_square(index as int, board.black_turn, t)
            && #[trigger] pawn_answer_target(index as int, board, threat_source as int, threat_ray_mask, t) ==> has_move_to(r@, t),
        distinct_targets(r@),
        forall|i: int| 0 <= i < r@.len() ==> (#[trigger] r@[i]).to_spec() == pawn_step(index as int, board.black_turn)
            || r@[i].to_spec() == pawn_step(pawn_step(index as int, board.black_turn), board.black_turn),
        on_sq(threat_ray_mask, pawn_step(index as int, board.black_turn)) && last_rank(pawn_step(index as int, board.black_turn))
            ==> promotions_at(r@, pawn_step(index as int, board.black_turn), false),
{
    proof {
        crate::bitboard::lemma_zero_iff_no_square(threat_ray_mask);
    }
    let mut moves: Vec<Move> = Vec::new();
    let black = board.black_turn;
    let rank = index / 8;
    let to: u8 = if black { index - 8 } else { index + 8 };
    if threat_ray_mask != 0 {
        if bit_at(threat_ray_mask, to) {
            if to / 8 != 0 && to / 8 != 7 {
                let m = Move::new(index, to, 0, PieceType::Pawn, black, 0, square_delta(index as usize, to as usize, black, PieceType::Pawn, phase));
                assert(pawn_answer_shape(m, board, threat_source as int, threat_ray_mask));
                moves.push(m);
                assert(moves@[0].to_spec() == to);
            } else {
                let mut p = generate_pawn_promotion_moves(index, to, false, black, 0, phase);
                assert(pawn_answers_shaped(p@, board, threat_source as int, threat_ray_mask));
                let ghost pv = p@;
                moves.append(&mut p);
                assert(moves@ =~= pv);
                proof {
                    lemma_promotion_list(pv, to as int, false);
                }
                assert(moves@[0].to_spec() == to);
            }
            assert(has_move_to(moves@, to as int));
        }
        let ghost pushed = moves@;
        if !bit_at(board.occupancy, to) && ((black && rank == 6) || (!black && rank == 1)) {
            let dpp: u8 = if black { to - 8 } else { to + 8 };
            if bit_at(threat_ray_mask, dpp) {
                let see = get_see(ad_table, board, dpp, false, reveal_attack);
                let m = Move::new(index, dpp, MF_DOUBLE_PAWN_PUSH, PieceType::Pawn, black, see, square_delta(index as usize, to as usize, black, PieceType::Pawn, phase));
                assert(pawn_answer_shape(m, board, threat_source as int, threat_ray_mask));
                let ghost before = moves@;
                moves.push(m);
                assert(moves@ == before.push(m));
                assert(moves@[before.len() as int].to_spec() == dpp);
                assert(before.len() <= 1);
                assert(distinct_targets(moves@));
                assert(has_move_to(moves@, dpp as int));
                assert(forall|t: int| has_move_to(before, t) ==> #[trigger] has_move_to(moves@, t)) by {
                    assert forall|t: int| has_move_to(before, t) implies #[trigger] has_move_to(moves@, t) by {
                        let i = choose|i: int| 0 <= i < before.len() && (#[trigger] before[i]).to_spec() == t;
                        assert(moves@[i] == before[i]);
                    }
                }
            }
        }
        proof {
            assert forall|t: int| 0 <= t < 64 && !pawn_capture_square(index as int, board.black_turn, t)
                && #[trigger] pawn_answer_target(index as int, board, threat_source as int, threat_ray_mask, t) implies has_move_to(moves@, t) by {
                if t == to as int && on_sq(threat_ray_mask, t) {
                    assert(has_move_to(pushed, t));
                }
            }
        }
    } else {
        proof {
            assert forall|t: int| 0 <= t < 64 && !pawn_capture_square(index as int, board.black_turn, t)
                && #[trigger] pawn_answer_target(index as int, board, threat_source as int, threat_ray_mask, t) implies has_move_to(moves@, t) by {
                assert(!on_sq(threat_ray_mask, (t as u64) as int));
            }
        }
    }
    moves
}

fn threatened_capture(
    index: u8,
    to: u8,
    capture: u8,
    threat_source: u8,
    threat_ray_mask: u64,
    ep_source: u8,
    board: BoardRep,
    ad_table: &mut AttackAndDefendTable,
    reveal_attack: Option<ThreatRaycastCollision>,
    phase: i16,
) -> (r: Vec<Move>)
    requires
        index < 64,
        capture < 64,
        board.wf(),
        old(ad_table).valid_for(board),
        reveal_attack matches Some(ra) ==> ra.from < 64,
        to as int == pawn_step(index as int, board.black_turn),
        capture == to + 1 || capture + 1 == to,
        ep_source == ep_source_spec(board),
    ensures
        final(ad_table).valid_for(board),
        moves_of(r@, index as int, PieceType::Pawn, board.black_turn),
        pawn_answers_shaped(r@, board, threat_source as int, threat_ray_mask),
        (threat_source == capture || (capture == board.ep_index && threat_source == ep_source)) && to / 8 == capture / 8
            ==> has_move_to(r@, capture as int),
        distinct_targets(r@),
        forall|i: int| 0 <= i < r@.len() ==> (#[trigger] r@[i]).to_spec() == capture,
        (threat_source == capture || (capture == board.ep_index && threat_source == ep_source)) && to / 8 == capture / 8
            && last_rank(capture as int) ==> promotions_at(r@, capture as int, true),
{
    let black = board.black_turn;
    let mut moves: Vec<Move> = Vec::new();
    if (threat_source == capture || (capture == board.ep_index && threat_source == ep_source)) && to / 8 == capture / 8 {
        let see = get_see(ad_table, board, capture, true, reveal_attack);
        if capture / 8 == 0 || capture / 8 == 7 {
            let mut p = generate_pawn_promotion_moves(index, capture, true, black, see, phase);
            assert(pawn_answers_shaped(p@, board, threat_source as int, threat_ray_mask));
            let ghost pv = p@;
            moves.append(&mut p);
            assert(moves@ =~= pv);
            proof {
                lemma_promotion_list(pv, capture as int, true);
            }
            assert(moves@[0].to_spec() == capture);
        } else {
            let m = Move::new(index, capture, if capture == board.ep_index { MF_EP_CAPTURE } else { MF_CAPTURE }, PieceType::Pawn, black, see, square_delta(index as usize, capture as usize, black, PieceType::Pawn, phase));
            assert(pawn_answer_shape(m, board, threat_source as int, threat_ray_mask));
            moves.push(m);
            assert(moves@[0].to_spec() == capture);
        }
    }
    moves
}

/// The moves of a pawn whose king is in check (or that is pinned): a push onto the threat's
/// line, a double step onto it, or a capture of the threatening piece (en passant too).
pub fn generate_pawn_moves_when_threatened(
    index: u8,
    threat_source: u8,
    threat_ray_mask: u64,
    board: BoardRep,
    ad_table: &mut AttackAndDefendTable,
    reveal_attack: Option<ThreatRaycastCollision>,
    phase: i16,
) -> (r: Vec<Move>)
    requires
        index < 64,
        board.wf(),
        old(ad_table).valid_for(board),
        reveal_attack matches Some(ra) ==> ra.from < 64,
    ensures
        final(ad_table).valid_for(board),
        moves_of(r@, index as int, PieceType::Pawn, board.black_turn),
        pawn_answers_shaped(r@, board, threat_source as int, threat_ray_mask),
        forall|t: int| 0 <= t < 64 && #[trigger] pawn_answer_target(index as int, board, threat_source as int, threat_ray_mask, t)
            ==> has_move_to(r@, t),
        distinct_targets(r@),
        forall|t: int|
            0 <= t < 64 && #[trigger] pawn_answer_target(index as int, board, threat_source as int, threat_ray_mask, t) && last_rank(t)
                ==> promotions_at(r@, t, pawn_capture_square(index as int, board.black_turn, t)),
{
    let black = board.black_turn;
    if (black && index < 8) || (!black && index >= 56) {
        return Vec::new();
    }
    let to: u8 = if black { index - 8 } else { index + 8 };
    let mut moves = threatened_pushes(index, threat_source, threat_ray_mask, board, ad_table, reveal_attack, phase);
    let ghost pushed = moves@;
    let ep_source: u8 = if board.ep_index < 64 {
        if black {
            if board.ep_index < 56 { board.ep_index + 8 } else { u8::MAX }
        } else {
            if board.ep_index >= 8 { board.ep_index - 8 } else { u8::MAX }
        }
    } else {
        u8::MAX
    };
    if to + 1 < 64 {
        let mut a = threatened_capture(index, to, to + 1, threat_source, threat_ray_mask, ep_source, board, ad_table, reveal_attack, phase);
        let ghost before = moves@;
        let ghost added = a@;
        moves.append(&mut a);
        proof {
            lemma_has_move_to_append(before, added);
            assert forall|x: int, y: int| 0 <= x < before.len() && 0 <= y < added.len() implies (#[trigger] before[x]).to_spec() != (#[trigger] added[y]).to_spec() by {
            }
            lemma_targets_append(before, added);
        }
        assert forall|i: int| 0 <= i < moves@.len() implies #[trigger] pawn_answer_shape(moves@[i], board, threat_source as int, threat_ray_mask) by {
            if i >= before.len() {
                assert(moves@[i] == added[i - before.len()]);
            }
        }
    }
    if index > 8 && to >= 1 {
        let mut b = threatened_capture(index, to, to - 1, threat_source, threat_ray_mask, ep_source, board, ad_table, reveal_attack, phase);
        let ghost before = moves@;
        let ghost added = b@;
        moves.append(&mut b);
        proof {
            lemma_has_move_to_append(before, added);
            assert forall|x: int, y: int| 0 <= x < before.len() && 0 <= y < added.len() implies (#[trigger] before[x]).to_spec() != (#[trigger] added[y]).to_spec() by {
            }
            lemma_targets_append(before, added);
        }
        assert forall|i: int| 0 <= i < moves@.len() implies #[trigger] pawn_answer_shape(moves@[i], board, threat_source as int, threat_ray_mask) by {
            if i >= before.len() {
                assert(moves@[i] == added[i - before.len()]);
            }
        }
    }
    proof {
        assert forall|t: int| 0 <= t < 64 && #[trigger] pawn_answer_target(index as int, board, threat_source as int, threat_ray_mask, t)
            implies has_move_to(moves@, t) by {
            if pawn_capture_square(index as int, black, t) {
            } else {
                assert(has_move_to(pushed, t));
            }
        }
    }
    moves
}

/// The pawn's moves: a push, a double step from the starting rank, diagonal captures
/// (en passant unless it exposes the king along its rank), promotions on the last rank; when
/// the king is in check or the pawn pinned, only the moves that keep the king safe.
pub fn generate_pawn_moves(
    board: BoardRep,
    ad_table: &mut AttackAndDefendTable,
    index: u8,
    opponent_occupancy: u64,
    king_threat: Option<ThreatSource>,
    pin: Option<ThreatRaycastCollision>,
    reveal_attack: Option<ThreatRaycastCollision>,
    phase: i16,
) -> (r: Vec<Move>)
    requires
        index < 64,
        board.wf(),
        old(ad_table).valid_for(board),
        king_threat matches Some(t) ==> t.from < 64,
        pin matches Some(p) ==> p.from < 64,
        reveal_attack matches Some(ra) ==> ra.from < 64,
    ensures
        final(ad_table).valid_for(board),
        moves_of(r@, index as int, PieceType::Pawn, board.black_turn),
        king_threat matches Some(kt) ==> pawn_answers_shaped(r@, board, kt.from as int, ray_mask_spec(board, kt.from as int)),
        king_threat is None && (pin matches Some(p) && !p.reveal_attack) ==> pawn_answers_shaped(
            r@,
            board,
            pin->0.from as int,
            ray_mask_spec(board, pin->0.from as int),
        ),
        king_threat is None && !(pin matches Some(p) && !p.reveal_attack) ==> pawn_moves_shaped(r@, board, opponent_occupancy),
        king_threat matches Some(kt) ==> forall|t: int| 0 <= t < 64 && #[trigger] pawn_answer_target(
            index as int,
            board,
            kt.from as int,
            ray_mask_spec(board, kt.from as int),
            t,
        ) ==> has_move_to(r@, t),
        king_threat is None && (pin matches Some(p) && !p.reveal_attack) ==> forall|t: int| 0 <= t < 64 && #[trigger] pawn_answer_target(
            index as int,
            board,
            pin->0.from as int,
            ray_mask_spec(board, pin->0.from as int),
            t,
        ) ==> has_move_to(r@, t),
        king_threat is None && !(pin matches Some(p) && !p.reveal_attack) ==> forall|t: int| 0 <= t < 64 && #[trigger] pawn_free_target(
            index as int,
            board,
            opponent_occupancy,
            t,
        ) ==> has_move_to(r@, t),        distinct_targets(r@),
        forall|t: int|
            0 <= t < 64 && #[trigger] pawn_target(board, index as int, king_threat, pin, opponent_occupancy, t) && last_rank(t)
                ==> promotions_at(r@, t, pawn_capture_square(index as int, board.black_turn, t)),
{
    match king_threat {
        Some(kt) => {
            let mask = ray_to_king(&board, kt.from);
            return generate_pawn_moves_when_threatened(index, kt.from, mask, board, ad_table, reveal_attack, phase);
        },
        None => {},
    }
    match pin {
        Some(p) => {
            if !p.reveal_attack {
                let mask = ray_to_king(&board, p.from);
                return generate_pawn_moves_when_threatened(index, p.from, mask, board, ad_table, reveal_attack, phase);
            }
        },
        None => {},
    }
    let black = board.black_turn;
    if (black && index < 8) || (!black && index >= 56) {
        return Vec::new();
    }
    let to: u8 = if black { index - 8 } else { index + 8 };
    let mut moves = free_pushes(board, ad_table, index, reveal_attack, phase);
    let ghost pushed = moves@;
    if to + 1 < 64 {
        let mut a = free_capture(board, ad_table, index, to, to + 1, opponent_occupancy, reveal_attack, phase);
        let ghost before = moves@;
        let ghost added = a@;
        moves.append(&mut a);
        proof {
            lemma_has_move_to_append(before, added);
            assert forall|x: int, y: int| 0 <= x < before.len() && 0 <= y < added.len() implies (#[trigger] before[x]).to_spec() != (#[trigger] added[y]).to_spec() by {
            }
            lemma_targets_append(before, added);
        }
        assert forall|i: int| 0 <= i < moves@.len() implies #[trigger] pawn_move_shape(moves@[i], board, opponent_occupancy) by {
            if i >= before.len() {
                assert(moves@[i] == added[i - before.len()]);
            }
        }
    }
    if index > 8 && to >= 1 {
        let mut b = free_capture(board, ad_table, index, to, to - 1, opponent_occupancy, reveal_attack, phase);
        let ghost before = moves@;
        let ghost added = b@;
        moves.append(&mut b);
        proof {
            lemma_has_move_to_append(before, added);
            assert forall|x: int, y: int| 0 <= x < before.len() && 0 <= y < added.len() implies (#[trigger] before[x]).to_spec() != (#[trigger] added[y]).to_spec() by {
            }
            lemma_targets_append(before, added);
        }
        assert forall|i: int| 0 <= i < moves@.len() implies #[trigger] pawn_move_shape(moves@[i], board, opponent_occupancy) by {
            if i >= before.len() {
                assert(moves@[i] == added[i - before.len()]);
            }
        }
    }
    proof {
        assert forall|t: int| 0 <= t < 64 && #[trigger] pawn_free_target(index as int, board, opponent_occupancy, t)
            implies has_move_to(moves@, t) by {
            if !pawn_capture_square(index as int, black, t) {
                assert(has_move_to(pushed, t));
            }
        }
    }
    moves
}

fn free_pushes(
    board: BoardRep,
    ad_table: &mut AttackAndDefendTable,
    index: u8,
    reveal_attack: Option<ThreatRaycastCollision>,
    phase: i16,
) -> (r: Vec<Move>)
    requires
        index < 64,
        board.wf(),
        old(ad_table).valid_for(board),
        reveal_attack matches Some(ra) ==> ra.from < 64,
        !((board.black_turn && index < 8) || (!board.black_turn && index >= 56)),
    ensures
        final(ad_table).valid_for(board),
        moves_of(r@, index as int, PieceType::Pawn, board.black_turn),
        forall|i: int, o: u64| 0 <= i < r@.len() ==> #[trigger] pawn_move_shape(r@[i], board, o),
        forall|t: int, o: u64| 0 <= t < 64 && !pawn_capture_square(index as int, board.black_turn, t)
            && #[trigger] pawn_free_target(index as int, board, o, t) ==> has_move_to(r@, t),        distinct_targets(r@),
        forall|i: int| 0 <= i < r@.len() ==> (#[trigger] r@[i]).to_spec() == pawn_step(index as int, board.black_turn)
            || r@[i].to_spec() == pawn_step(pawn_step(index as int, board.black_turn), board.black_turn),
        !on_sq(board.occupancy, pawn_step(index as int, board.black_turn)) && last_rank(pawn_step(index as int, board.black_turn))
            ==> promotions_at(r@, pawn_step(index as int, board.black_turn), false),
{
    let mut moves: Vec<Move> = Vec::new();
    let black = board.black_turn;
    let rank = index / 8;
    let to: u8 = if black { index - 8 } else { index + 8 };
    if !bit_at(board.occupancy, to) {
        if to / 8 != 0 && to / 8 != 7 {
            let see = get_see(ad_table, board, to, false, reveal_attack);
            let m = Move::new(index, to, 0, PieceType::Pawn, black, see, square_delta(index as usize, to as usize, black, PieceType::Pawn, phase));
            moves.push(m);
            assert(moves@[0].to_spec() == to);
            if (black && rank == 6) || (!black && rank == 1) {
                let dpp: u8 = if black { to - 8 } else { to + 8 };
                if !bit_at(board.occupancy, dpp) {
                    let see = get_see(ad_table, board, dpp, false, reveal_attack);
                    let m2 = Move::new(index, dpp, MF_DOUBLE_PAWN_PUSH, PieceType::Pawn, black, see, square_delta(index as usize, to as usize, black, PieceType::Pawn, phase));
                    let ghost before = moves@;
                    moves.push(m2);
                    assert(moves@ == before.push(m2));
                    assert(moves@[0].to_spec() == to);
                    assert(moves@[1].to_spec() == dpp);
                }
            }
        } else {
            let see = get_see(ad_table, board, to, false, reveal_attack);
            let mut p = generate_pawn_promotion_moves(index, to, false, black, see, phase);
            let ghost pv = p@;
            moves.append(&mut p);
            assert(moves@ =~= pv);
            proof {
                lemma_promotion_list(pv, to as int, false);
            }
            assert(moves@[0].to_spec() == to);
        }
        assert(has_move_to(moves@, to as int));
    }
    proof {
        assert forall|t: int, o: u64| 0 <= t < 64 && !pawn_capture_square(index as int, board.black_turn, t)
            && #[trigger] pawn_free_target(index as int, board, o, t) implies has_move_to(moves@, t) by {
            if t != to as int {
                assert(moves@[1].to_spec() == t);
            }
        }
    }
    moves
}

fn free_capture(
    board: BoardRep,
    ad_table: &mut AttackAndDefendTable,
    index: u8,
    to: u8,
    capture: u8,
    opponent_occupancy: u64,
    reveal_attack: Option<ThreatRaycastCollision>,
    phase: i16,
) -> (r: Vec<Move>)
    requires
        index < 64,
        capture < 64,
        board.wf(),
        old(ad_table).valid_for(board),
        reveal_attack matches Some(ra) ==> ra.from < 64,
        to as int == pawn_step(index as int, board.black_turn),
        capture == to + 1 || capture + 1 == to,
    ensures
        final(ad_table).valid_for(board),
        moves_of(r@, index as int, PieceType::Pawn, board.black_turn),
        forall|i: int| 0 <= i < r@.len() ==> #[trigger] pawn_move_shape(r@[i], board, opponent_occupancy),
        to / 8 == capture / 8 && (capture == board.ep_index || on_sq(opponent_occupancy, capture as int)) && (capture
            == board.ep_index ==> !ep_check_spec(
            board,
            index as int,
            if capture > to { index + 1 } else { index - 1 },
            opponent_occupancy,
        )) ==> has_move_to(r@, capture as int),
        distinct_targets(r@),
        forall|i: int| 0 <= i < r@.len() ==> (#[trigger] r@[i]).to_spec() == capture,
        to / 8 == capture / 8 && (capture == board.ep_index || on_sq(opponent_occupancy, capture as int)) && (capture
            == board.ep_index ==> !ep_check_spec(
            board,
            index as int,
            if capture > to { index + 1 } else { index - 1 },
            opponent_occupancy,
        )) && last_rank(capture as int) ==> promotions_at(r@, capture as int, true),
{
    let black = board.black_turn;
    let mut moves: Vec<Move> = Vec::new();
    if to / 8 == capture / 8 && (capture == board.ep_index || bit_at(opponent_occupancy, capture)) {
        let is_ep_capture = capture == board.ep_index;
        let beside = if capture > to { index + 1 } else { index - 1 };
        let leads_to_ep_check = ep_leads_to_orthogonal_check(board, index, beside, opponent_occupancy);
        assert(beside as int == if capture > to { index + 1 } else { index - 1 });
        assert(leads_to_ep_check == ep_check_spec(board, index as int, beside as int, opponent_occupancy)) by {
            assert(((index as int) as u8) == index && ((beside as int) as u8) == beside);
        }
        if !is_ep_capture || !leads_to_ep_check {
            let see = get_see(ad_table, board, capture, true, reveal_attack);
            if capture / 8 == 0 || capture / 8 == 7 {
                let mut p = generate_pawn_promotion_moves(index, capture, true, black, see, phase);
                let ghost pv = p@;
                moves.append(&mut p);
                assert(moves@ =~= pv);
                proof {
                    lemma_promotion_list(pv, capture as int, true);
                }
                assert(moves@[0].to_spec() == capture);
            } else {
                let m = Move::new(index, capture, if is_ep_capture { MF_EP_CAPTURE } else { MF_CAPTURE }, PieceType::Pawn, black, see, square_delta(index as usize, capture as usize, black, PieceType::Pawn, phase));
                moves.push(m);
                assert(moves@[0].to_spec() == capture);
            }
        }
    }
    moves
}

/// The first pin of the piece on `index`.
pub fn find_pin(pins: &Vec<ThreatRaycastCollision>, index: u8) -> (r: Option<ThreatRaycastCollision>)
    ensures
        r == crate::king_analysis::first_pin(pins@, index as int),
        r matches Some(p) ==> p.at == index && pins@.contains(p),
        r is None ==> forall|i: int| 0 <= i < pins@.len() ==> (#[trigger] pins@[i]).at != index,
{
    let mut i: usize = 0;
    assert(pins@.subrange(0, pins@.len() as int) =~= pins@);
    while i < pins.len()
        invariant
            i <= pins@.len(),
            forall|j: int| 0 <= j < i ==> (#[trigger] pins@[j]).at != index,
            crate::king_analysis::first_pin(pins@, index as int) == crate::king_analysis::first_pin(
                pins@.subrange(i as int, pins@.len() as int),
                index as int,
            ),
        decreases pins@.len() - i,
    {
        let ghost rest = pins@.subrange(i as int, pins@.len() as int);
        assert(rest[0] == pins@[i as int]);
        if pins[i].at == index {
            let p = pins[i];
            assert(pins@[i as int] == p);
            return Some(p);
        }
        assert(rest.drop_first() =~= pins@.subrange(i as int + 1, pins@.len() as int));
        i += 1;
    }
    assert(pins@.subrange(i as int, pins@.len() as int) =~= Seq::<ThreatRaycastCollision>::empty());
    None
}

/// The first revealed attack among `pins` whose moving piece stands on `index`.
pub fn find_reveal(pins: &Vec<ThreatRaycastCollision>, index: u8) -> (r: Option<ThreatRaycastCollision>)
    ensures
        r matches Some(p) ==> p.at == index && p.reveal_attack && pins@.contains(p),
        r == first_reveal(pins@, index as int),
{
    let mut i: usize = 0;
    assert(pins@.subrange(0, pins@.len() as int) =~= pins@);
    while i < pins.len()
        invariant
            i <= pins@.len(),
            first_reveal(pins@, index as int) == first_reveal(pins@.subrange(i as int, pins@.len() as int), index as int),
        decreases pins@.len() - i,
    {
        let ghost rest = pins@.subrange(i as int, pins@.len() as int);
        assert(rest[0] == pins@[i as int]);
        if pins[i].at == index && pins[i].reveal_attack {
            let p = pins[i];
            assert(pins@[i as int] == p);
            return Some(p);
        }
        assert(rest.drop_first() =~= pins@.subrange(i as int + 1, pins@.len() as int));
        i += 1;
    }
    assert(pins@.subrange(i as int, pins@.len() as int) =~= Seq::<ThreatRaycastCollision>::empty());
    None
}

/// The first revealed attack of a list whose moving piece stands on `at`.
pub open spec fn first_reveal(pins: Seq<ThreatRaycastCollision>, at: int) -> Option<ThreatRaycastCollision>
    decreases pins.len(),
{
    if pins.len() == 0 {
        None
    } else if pins[0].at == at && pins[0].reveal_attack {
        Some(pins[0])
    } else {
        first_reveal(pins.drop_first(), at)
    }
}

/// The revealed attacks of a list, in order.
pub open spec fn reveals_of(pins: Seq<ThreatRaycastCollision>) -> Seq<ThreatRaycastCollision>
    decreases pins.len(),
{
    if pins.len() == 0 {
        seq![]
    } else {
        reveals_of(pins.drop_last()) + if pins.last().reveal_attack { seq![pins.last()] } else { seq![] }
    }
}

/// Whether every collision of a list lies on the board.
pub open spec fn collisions_ok(s: Seq<ThreatRaycastCollision>) -> bool {
    forall|i: int| 0 <= i < s.len() ==> (#[trigger] s[i]).from < 64 && s[i].at < 64
}

/// What the pawn moves from a square are, given the check on the king and the pawn's pin:
/// answers to the check or moves along the pin (see `pawn_answer_shape`), else moves of the
/// shapes of `pawn_move_shape`.
pub open spec fn pawn_shapes_ok(
    r: Seq<Move>,
    board: BoardRep,
    threat: Option<ThreatSource>,
    pin: Option<ThreatRaycastCollision>,
    opponent_occupancy: u64,
) -> bool {
    &&& threat matches Some(kt) ==> pawn_answers_shaped(r, board, kt.from as int, ray_mask_spec(board, kt.from as int))
    &&& threat is None && (pin matches Some(p) && !p.reveal_attack) ==> pawn_answers_shaped(
        r,
        board,
        pin->0.from as int,
        ray_mask_spec(board, pin->0.from as int),
    )
    &&& threat is None && !(pin matches Some(p) && !p.reveal_attack) ==> pawn_moves_shaped(r, board, opponent_occupancy)
}

/// Whether a pawn's moves reach every square the generator allows it (see
/// `pawn_answer_target` and `pawn_free_target`).
pub open spec fn pawn_targets_reached(
    r: Seq<Move>,
    board: BoardRep,
    index: int,
    threat: Option<ThreatSource>,
    pin: Option<ThreatRaycastCollision>,
    opponent_occupancy: u64,
) -> bool {
    &&& forall|t: int| 0 <= t < 64 && #[trigger] pawn_target(board, index, threat, pin, opponent_occupancy, t) ==> has_move_to(r, t)
    &&& forall|t: int|
        0 <= t < 64 && #[trigger] pawn_target(board, index, threat, pin, opponent_occupancy, t) && last_rank(t) ==> promotions_at(
            r,
            t,
            pawn_capture_square(index, board.black_turn, t),
        )
}

/// The squares a pawn on `index` moves to, given the check and its pin.
pub open spec fn pawn_target(
    board: BoardRep,
    index: int,
    threat: Option<ThreatSource>,
    pin: Option<ThreatRaycastCollision>,
    opponent_occupancy: u64,
    t: int,
) -> bool {
    match threat {
        Some(kt) => pawn_answer_target(index, board, kt.from as int, ray_mask_spec(board, kt.from as int), t),
        None => if pin matches Some(p) && !p.reveal_attack {
            pawn_answer_target(index, board, pin->0.from as int, ray_mask_spec(board, pin->0.from as int), t)
        } else {
            pawn_free_target(index, board, opponent_occupancy, t)
        },
    }
}

/// The squares the piece on `index` moves to, given the check on the king and the piece's pin
/// (see `index_moves_ok`); none for a king or an empty square.
pub open spec fn square_target(
    board: BoardRep,
    index: int,
    threat: Option<ThreatSource>,
    pin: Option<ThreatRaycastCollision>,
    t: int,
) -> bool {
    let opp = if board.black_turn { board.white_occupancy } else { board.black_occupancy };
    let open = answers_check(board, threat, t) && open_target(opp, board.occupancy, t);
    &&& !(pin is Some && threat is Some)
    &&& match piece_at(board, index) {
        PieceType::Knight => pin is None && knight_step(index, t) && open,
        PieceType::Bishop => !(pin matches Some(p) && p.threat_type != ThreatType::DiagonalSlide) && slider_reach(
            PieceType::Bishop,
            board,
            index,
            pin,
            t,
        ) && open,
        PieceType::Rook => !(pin matches Some(p) && p.threat_type != ThreatType::OrthogonalSlide) && slider_reach(
            PieceType::Rook,
            board,
            index,
            pin,
            t,
        ) && open,
        PieceType::Queen => slider_reach(PieceType::Queen, board, index, pin, t) && open,
        PieceType::Pawn => pawn_target(board, index, threat, pin, opp, t),
        _ => false,
    }
}

/// What the moves of the piece on `index` are, given the check on the king and the piece's
/// pin: none when pinned while the king is in check; for a knight, none when pinned, else
/// exactly its steps that answer the check; for a bishop or rook, none when pinned along a
/// line it cannot move on, else exactly the squares it reaches (see `slider_reach`) that
/// answer the check, and likewise for a queen; for a pawn, moves of the shapes of
/// `pawn_shapes_ok`; none for a king or an empty square.
pub open spec fn index_moves_ok(
    r: Seq<Move>,
    board: BoardRep,
    index: int,
    threat: Option<ThreatSource>,
    pin: Option<ThreatRaycastCollision>,
) -> bool {
    let opp = if board.black_turn { board.white_occupancy } else { board.black_occupancy };
    distinct_targets(r) && if pin is Some && threat is Some {
        r.len() == 0
    } else {
        match piece_at(board, index) {
            PieceType::Knight => if pin is Some {
                r.len() == 0
            } else {
                targets_exactly(r, board, (|t: int| knight_step(index, t)), threat, opp, board.occupancy)
            },
            PieceType::Bishop => if pin matches Some(p) && p.threat_type != ThreatType::DiagonalSlide {
                r.len() == 0
            } else {
                targets_exactly(r, board, (|t: int| slider_reach(PieceType::Bishop, board, index, pin, t)), threat, opp, board.occupancy)
            },
            PieceType::Rook => if pin matches Some(p) && p.threat_type != ThreatType::OrthogonalSlide {
                r.len() == 0
            } else {
                targets_exactly(r, board, (|t: int| slider_reach(PieceType::Rook, board, index, pin, t)), threat, opp, board.occupancy)
            },
            PieceType::Queen => targets_exactly(
                r,
                board,
                (|t: int| slider_reach(PieceType::Queen, board, index, pin, t)),
                threat,
                opp,
                board.occupancy,
            ),
            PieceType::Pawn => pawn_shapes_ok(r, board, threat, pin, opp) && pawn_targets_reached(r, board, index, threat, pin, opp),
            _ => r.len() == 0,
        }
    }
}

/// The moves of the piece on `index`, given the king's analysis, the attacks it would reveal on
/// the opponent king, and the game phase. A pinned piece has no moves when the king is also in
/// check; a pinned knight has none; a bishop (rook) pinned along a line it cannot move on has
/// none; the king's moves are generated apart.
pub fn generate_index_moves_with(
    board: BoardRep,
    ad_table: &mut AttackAndDefendTable,
    index: u8,
    king_analysis: &KingPositionAnalysis,
    reveal_attacks: &Vec<ThreatRaycastCollision>,
    phase: i16,
) -> (r: Vec<Move>)
    requires
        index < 64,
        board.wf(),
        old(ad_table).valid_for(board),
        analysis_ok(*king_analysis),
        collisions_ok(reveal_attacks@),
    ensures
        final(ad_table).valid_for(board),
        moves_of(r@, index as int, piece_at(board, index as int), board.black_turn),
        index_moves_ok(
            r@,
            board,
            index as int,
            king_analysis.threat_source,
            crate::king_analysis::first_pin(king_analysis.pins@, index as int),
        ),
{
    let piece_type = board.get_piece_type_at_index(index);
    let opponent_occupancy = if board.black_turn { board.white_occupancy } else { board.black_occupancy };
    let pin = find_pin(&king_analysis.pins, index);
    if pin.is_some() && king_analysis.threat_source.is_some() {
        return Vec::new();
    }
    let reveal_attack = find_reveal(reveal_attacks, index);
    proof {
        if let Some(p) = pin {
            let j = choose|j: int| 0 <= j < king_analysis.pins@.len() && king_analysis.pins@[j] == p;
            assert(king_analysis.pins@[j].from < 64);
        }
        if let Some(p) = reveal_attack {
            let j = choose|j: int| 0 <= j < reveal_attacks@.len() && reveal_attacks@[j] == p;
            assert(reveal_attacks@[j].from < 64);
        }
    }
    match piece_type {
        PieceType::Pawn => generate_pawn_moves(board, ad_table, index, opponent_occupancy, king_analysis.threat_source, pin, reveal_attack, phase),
        PieceType::Knight => match pin {
            Some(_) => Vec::new(),
            None => generate_knight_moves(index, opponent_occupancy, board.occupancy, king_analysis.threat_source, board, ad_table, reveal_attack, phase),
        },
        PieceType::Bishop => {
            match pin {
                Some(p) => {
                    if p.threat_type != ThreatType::DiagonalSlide {
                        return Vec::new();
                    }
                },
                None => {},
            }
            generate_bishop_moves(index, board, ad_table, opponent_occupancy, board.occupancy, king_analysis.threat_source, pin, reveal_attack, phase)
        },
        PieceType::Rook => {
            match pin {
                Some(p) => {
                    if p.threat_type != ThreatType::OrthogonalSlide {
                        return Vec::new();
                    }
                },
                None => {},
            }
            generate_rook_moves(index, board, ad_table, opponent_occupancy, board.occupancy, king_analysis.threat_source, pin, reveal_attack, phase)
        },
        PieceType::Queen => generate_queen_moves(index, board, ad_table, opponent_occupancy, board.occupancy, king_analysis.threat_source, pin, reveal_attack, phase),
        _ => Vec::new(),
    }
}

/// The moves of the piece on `index` with a fresh attack cache, no revealed attacks considered,
/// and the board's game phase.
pub fn generate_index_moves(board: BoardRep, index: u8, king_analysis: &KingPositionAnalysis) -> (r: Vec<Move>)
    requires
        index < 64,
        board.wf(),
        analysis_ok(*king_analysis),
    ensures
        moves_of(r@, index as int, piece_at(board, index as int), board.black_turn),
        index_moves_ok(
            r@,
            board,
            index as int,
            king_analysis.threat_source,
            crate::king_analysis::first_pin(king_analysis.pins@, index as int),
        ),
{
    let mut ad_table = AttackAndDefendTable::new();
    let reveal: Vec<ThreatRaycastCollision> = Vec::new();
    let phase = calculate_game_phase(&board);
    generate_index_moves_with(board, &mut ad_table, index, king_analysis, &reveal, phase)
}

/// Whether one pawn move fits the shapes of `pawn_shapes_ok`.
pub open spec fn pawn_move_ok(
    m: Move,
    board: BoardRep,
    threat: Option<ThreatSource>,
    pin: Option<ThreatRaycastCollision>,
    opponent_occupancy: u64,
) -> bool {
    &&& threat matches Some(kt) ==> pawn_answer_shape(m, board, kt.from as int, ray_mask_spec(board, kt.from as int))
    &&& threat is None && (pin matches Some(p) && !p.reveal_attack) ==> pawn_answer_shape(
        m,
        board,
        pin->0.from as int,
        ray_mask_spec(board, pin->0.from as int),
    )
    &&& threat is None && !(pin matches Some(p) && !p.reveal_attack) ==> pawn_move_shape(m, board, opponent_occupancy)
}

/// Whether one move of a piece other than the king is among the moves that `index_moves_ok`
/// allows for its square, given the check on the king and the pins of the king analysis.
pub open spec fn piece_move_ok(m: Move, board: BoardRep, threat: Option<ThreatSource>, pins: Seq<ThreatRaycastCollision>) -> bool {
    let index = m.from_spec() as int;
    let t = m.to_spec() as int;
    let pin = crate::king_analysis::first_pin(pins, index);
    let opp = if board.black_turn { board.white_occupancy } else { board.black_occupancy };
    let lands = answers_check(board, threat, t) && lands_ok(m, opp, board.occupancy);
    &&& m.piece_spec() == piece_at(board, index)
    &&& !(pin is Some && threat is Some)
    &&& match piece_at(board, index) {
        PieceType::Knight => pin is None && knight_step(index, t) && lands,
        PieceType::Bishop => !(pin matches Some(p) && p.threat_type != ThreatType::DiagonalSlide) && slider_reach(
            PieceType::Bishop,
            board,
            index,
            pin,
            t,
        ) && lands,
        PieceType::Rook => !(pin matches Some(p) && p.threat_type != ThreatType::OrthogonalSlide) && slider_reach(
            PieceType::Rook,
            board,
            index,
            pin,
            t,
        ) && lands,
        PieceType::Queen => slider_reach(PieceType::Queen, board, index, pin, t) && lands,
        PieceType::Pawn => pawn_move_ok(m, board, threat, pin, opp),
        _ => false,
    }
}

/// Every move of a square's list that `index_moves_ok` describes is allowed by
/// `piece_move_ok`.
proof fn lemma_index_moves_each(
    r: Seq<Move>,
    board: BoardRep,
    index: int,
    threat: Option<ThreatSource>,
    pins: Seq<ThreatRaycastCollision>,
)
    requires
        index_moves_ok(r, board, index, threat, crate::king_analysis::first_pin(pins, index)),
        moves_of(r, index, piece_at(board, index), board.black_turn),
    ensures
        forall|k: int| 0 <= k < r.len() ==> #[trigger] piece_move_ok(r[k], board, threat, pins),
{
    assert forall|k: int| 0 <= k < r.len() implies #[trigger] piece_move_ok(r[k], board, threat, pins) by {
        let m = r[k];
        assert(m.from_spec() == index);
        if piece_at(board, index) == PieceType::Pawn {
            let pin = crate::king_analysis::first_pin(pins, index);
            let opp = if board.black_turn { board.white_occupancy } else { board.black_occupancy };
            if threat is Some {
                assert(pawn_answer_shape(r[k], board, threat->0.from as int, ray_mask_spec(board, threat->0.from as int)));
            } else if pin matches Some(p) && !p.reveal_attack {
                assert(pawn_answer_shape(r[k], board, pin->0.from as int, ray_mask_spec(board, pin->0.from as int)));
            } else {
                assert(pawn_move_shape(r[k], board, opp));
            }
        }
    }
}

/// A square's list that `index_moves_ok` describes reaches every square of `square_target`.
proof fn lemma_index_moves_reach(
    r: Seq<Move>,
    board: BoardRep,
    index: int,
    threat: Option<ThreatSource>,
    pin: Option<ThreatRaycastCollision>,
)
    requires
        index_moves_ok(r, board, index, threat, pin),
    ensures
        forall|t: int| 0 <= t < 64 && #[trigger] square_target(board, index, threat, pin, t) ==> has_move_to(r, t),
{
    let opp = if board.black_turn { board.white_occupancy } else { board.black_occupancy };
    assert forall|t: int| 0 <= t < 64 && #[trigger] square_target(board, index, threat, pin, t) implies has_move_to(r, t) by {
        let pc = piece_at(board, index);
        if pc == PieceType::Knight {
            let f = |u: int| knight_step(index, u);
            assert(f(t));
            assert(answers_check(board, threat, t));
        } else if pc == PieceType::Bishop {
            let f = |u: int| slider_reach(PieceType::Bishop, board, index, pin, u);
            assert(f(t));
            assert(answers_check(board, threat, t));
        } else if pc == PieceType::Rook {
            let f = |u: int| slider_reach(PieceType::Rook, board, index, pin, u);
            assert(f(t));
            assert(answers_check(board, threat, t));
        } else if pc == PieceType::Queen {
            let f = |u: int| slider_reach(PieceType::Queen, board, index, pin, u);
            assert(f(t));
            assert(answers_check(board, threat, t));
        } else if pc == PieceType::Pawn {
            assert(pawn_target(board, index, threat, pin, opp, t));
        }
    }
}

/// Whether a list holds a move from `s` to `t`.
pub open spec fn has_move(r: Seq<Move>, s: int, t: int) -> bool {
    exists|i: int| 0 <= i < r.len() && (#[trigger] r[i]).from_spec() == s && r[i].to_spec() == t
}

/// Whether the opponent attacks a square with the king of the side to move taken off the
/// board, as an empty attack cache tells it.
pub open spec fn king_square_attacked(board: BoardRep, t: int) -> bool {
    crate::attacked_by::any_spec(crate::attack_and_defend_lookups::attacked_by_spec(
        BoardRep {
            occupancy: board.occupancy ^ (1u64 << (if !board.black_turn {
                board.white_king_position
            } else {
                board.black_king_position
            })),
            ..board
        },
        t,
        !board.black_turn,
    ))
}

proof fn lemma_has_move_append(a: Seq<Move>, b: Seq<Move>)
    ensures
        forall|s: int, t: int| has_move(a, s, t) ==> #[trigger] has_move(a + b, s, t),
        forall|s: int, t: int| has_move(b, s, t) ==> #[trigger] has_move(a + b, s, t),
{
    assert forall|s: int, t: int| has_move(a, s, t) implies #[trigger] has_move(a + b, s, t) by {
        let i = choose|i: int| 0 <= i < a.len() && (#[trigger] a[i]).from_spec() == s && a[i].to_spec() == t;
        assert((a + b)[i] == a[i]);
    }
    assert forall|s: int, t: int| has_move(b, s, t) implies #[trigger] has_move(a + b, s, t) by {
        let i = choose|i: int| 0 <= i < b.len() && (#[trigger] b[i]).from_spec() == s && b[i].to_spec() == t;
        assert((a + b)[a.len() + i] == b[i]);
    }
}

proof fn lemma_has_move_perm(a: Seq<Move>, b: Seq<Move>)
    requires
        a.to_multiset() == b.to_multiset(),
    ensures
        forall|s: int, t: int| has_move(a, s, t) ==> #[trigger] has_move(b, s, t),
{
    assert forall|s: int, t: int| has_move(a, s, t) implies #[trigger] has_move(b, s, t) by {
        let i = choose|i: int| 0 <= i < a.len() && (#[trigger] a[i]).from_spec() == s && a[i].to_spec() == t;
        let m = a[i];
        vstd::seq_lib::to_multiset_contains(a, m);
        assert(a.to_multiset().count(m) > 0);
        assert(b.to_multiset().count(m) > 0);
        vstd::seq_lib::to_multiset_contains(b, m);
        let j = choose|j: int| 0 <= j < b.len() && b[j] == m;
        assert(b[j].from_spec() == s && b[j].to_spec() == t);
    }
}

/// Whether no two moves of a list share their squares, flags and piece.
pub open spec fn distinct_moves(r: Seq<Move>) -> bool {
    forall|i: int, j: int|
        0 <= i < j < r.len() ==> !((#[trigger] r[i]).from_spec() == (#[trigger] r[j]).from_spec() && r[i].to_spec() == r[j].to_spec()
            && r[i].flags_spec() == r[j].flags_spec() && r[i].piece_spec() == r[j].piece_spec())
}

proof fn lemma_distinct_perm(a: Seq<Move>, b: Seq<Move>)
    requires
        a.to_multiset() == b.to_multiset(),
        distinct_moves(a),
    ensures
        distinct_moves(b),
{
    assert(a.no_duplicates()) by {
        assert forall|i: int, j: int| 0 <= i < a.len() && 0 <= j < a.len() && i != j implies a[i] != a[j] by {
            if i < j {
                assert(!(a[i].from_spec() == a[j].from_spec() && a[i].to_spec() == a[j].to_spec() && a[i].flags_spec() == a[j].flags_spec() && a[i].piece_spec() == a[j].piece_spec()));
            } else {
                assert(!(a[j].from_spec() == a[i].from_spec() && a[j].to_spec() == a[i].to_spec() && a[j].flags_spec() == a[i].flags_spec() && a[j].piece_spec() == a[i].piece_spec()));
            }
        }
    }
    a.lemma_multiset_has_no_duplicates();
    assert forall|x: Move| b.to_multiset().contains(x) implies b.to_multiset().count(x) == 1 by {
        assert(a.to_multiset().contains(x));
    }
    b.lemma_multiset_has_no_duplicates_conv();
    assert forall|i: int, j: int| 0 <= i < j < b.len() implies !((#[trigger] b[i]).from_spec() == (#[trigger] b[j]).from_spec()
        && b[i].to_spec() == b[j].to_spec() && b[i].flags_spec() == b[j].flags_spec() && b[i].piece_spec() == b[j].piece_spec()) by {
        let x = b[i];
        let y = b[j];
        assert(x != y);
        vstd::seq_lib::to_multiset_contains(b, x);
        vstd::seq_lib::to_multiset_contains(b, y);
        assert(b.contains(x));
        assert(b.contains(y));
        assert(b.to_multiset().count(x) > 0);
        assert(b.to_multiset().count(y) > 0);
        vstd::seq_lib::to_multiset_contains(a, x);
        vstd::seq_lib::to_multiset_contains(a, y);
        let k = choose|k: int| 0 <= k < a.len() && a[k] == x;
        let l = choose|l: int| 0 <= l < a.len() && a[l] == y;
        assert(k != l);
        if k < l {
            assert(!(a[k].from_spec() == a[l].from_spec() && a[k].to_spec() == a[l].to_spec() && a[k].flags_spec() == a[l].flags_spec() && a[k].piece_spec() == a[l].piece_spec()));
        } else {
            assert(!(a[l].from_spec() == a[k].from_spec() && a[l].to_spec() == a[k].to_spec() && a[l].flags_spec() == a[k].flags_spec() && a[l].piece_spec() == a[k].piece_spec()));
        }
    }
}

/// Whether a generated move is one the generator allows: a king move from the king's square
/// (unless it castles, a step that lands as `lands_ok` says), or a move of another piece that
/// `piece_move_ok` allows.
pub open spec fn generated_move_ok(m: Move, board: BoardRep, threat: Option<ThreatSource>, pins: Seq<ThreatRaycastCollision>) -> bool {
    if m.piece_spec() == PieceType::King {
        &&& m.from_spec() == friendly_king(board)
        &&& m.flags_spec() != MF_KING_CASTLING && m.flags_spec() != MF_QUEEN_CASTLING ==> king_step(
            m.from_spec() as int,
            m.to_spec() as int,
        ) && lands_ok(m, if board.black_turn { board.white_occupancy } else { board.black_occupancy }, board.occupancy)
    } else {
        piece_move_ok(m, board, threat, pins)
    }
}

/// The revealed attacks among an analysis's pins.
fn reveal_attacks_of(pins: &Vec<ThreatRaycastCollision>) -> (r: Vec<ThreatRaycastCollision>)
    requires
        collisions_ok(pins@),
    ensures
        collisions_ok(r@),
        forall|i: int| 0 <= i < r@.len() ==> (#[trigger] r@[i]).reveal_attack && pins@.contains(r@[i]),
        r@ == reveals_of(pins@),
{
    let mut r: Vec<ThreatRaycastCollision> = Vec::new();
    let mut i: usize = 0;
    while i < pins.len()
        invariant
            i <= pins@.len(),
            collisions_ok(pins@),
            collisions_ok(r@),
            forall|k: int| 0 <= k < r@.len() ==> (#[trigger] r@[k]).reveal_attack && pins@.contains(r@[k]),
            r@ == reveals_of(pins@.take(i as int)),
        decreases pins@.len() - i,
    {
        assert(pins@.take(i + 1).drop_last() =~= pins@.take(i as int));
        let p = pins[i];
        if p.reveal_attack {
            assert(pins@[i as int] == p);
            r.push(p);
        }
        assert(r@ =~= reveals_of(pins@.take(i + 1)));
        i += 1;
    }
    assert(pins@.take(i as int) =~= pins@);
    r
}

/// All moves of the side to move, given both kings' analyses, sorted into search order; in
/// double check, only the king's moves (unsorted).
pub fn generate_moves(
    king_analysis: &KingPositionAnalysis,
    opponent_king_analysis: &KingPositionAnalysis,
    board: BoardRep,
) -> (r: Vec<Move>)
    requires
        board.wf(),
        analysis_ok(*king_analysis),
        analysis_ok(*opponent_king_analysis),
    ensures
        moves_by(r@, board.black_turn),
        all_from_own_pieces(r@, board),
        !king_analysis.double_check ==> crate::chess_move::sorted_moves(r@),
        forall|i: int| 0 <= i < r@.len() ==> #[trigger] generated_move_ok(r@[i], board, king_analysis.threat_source, king_analysis.pins@),
        forall|i: int| 0 <= i < r@.len() ==> #[trigger] move_safe_ok(r@[i], board, king_analysis.check, king_analysis.double_check),
        distinct_moves(r@),
        forall|t: int|
            0 <= t < 64 && #[trigger] king_step(friendly_king(board) as int, t) && !king_square_attacked(board, t) && open_target(
                if board.black_turn { board.white_occupancy } else { board.black_occupancy },
                board.occupancy,
                t,
            ) ==> has_move(r@, friendly_king(board) as int, t),
        !king_analysis.double_check ==> forall|sq: int, t: int|
            0 <= sq < 64 && 0 <= t < 64 && on_sq(if board.black_turn { board.black_occupancy } else { board.white_occupancy }, sq)
                && #[trigger] square_target(
                board,
                sq,
                king_analysis.threat_source,
                crate::king_analysis::first_pin(king_analysis.pins@, sq),
                t,
            ) ==> has_move(r@, sq, t),
{
    let friendly_occupancy = if board.black_turn { board.black_occupancy } else { board.white_occupancy };
    let opponent_occupancy = if board.black_turn { board.white_occupancy } else { board.black_occupancy };
    let (king_pos, king_side_castling, queen_side_castling) = if board.black_turn {
        (board.black_king_position, board.black_king_side_castling, board.black_queen_side_castling)
    } else {
        (board.white_king_position, board.white_king_side_castling, board.white_queen_side_castling)
    };
    let phase = calculate_game_phase(&board);
    let mut ad_table = AttackAndDefendTable::new();
    let ghost table0 = ad_table;
    let mut moves = generate_king_moves(king_pos, opponent_occupancy, board.occupancy, king_analysis, board.black_turn, king_side_castling, queen_side_castling, board, &mut ad_table, phase);
    proof {
        assert(distinct_moves(moves@));
        assert forall|t: int|
            0 <= t < 64 && #[trigger] king_step(friendly_king(board) as int, t) && !king_square_attacked(board, t) && open_target(
                opponent_occupancy,
                board.occupancy,
                t,
            ) implies has_move(moves@, friendly_king(board) as int, t) by {
            assert(table0.white@[t] is None && table0.black@[t] is None);
            assert(table0.attacked_spec(t, !board.black_turn, true, board) == king_square_attacked(board, t));
            let i = choose|i: int| 0 <= i < moves@.len() && (#[trigger] moves@[i]).to_spec() == t;
            assert(moves@[i].from_spec() == king_pos);
        }
        assert forall|i: int| 0 <= i < moves@.len() implies #[trigger] move_safe_ok(moves@[i], board, king_analysis.check, king_analysis.double_check) by {
            let t = moves@[i].to_spec() as int;
            assert(moves@[i].piece_spec() == PieceType::King);
            if moves@[i].flags_spec() != MF_KING_CASTLING && moves@[i].flags_spec() != MF_QUEEN_CASTLING {
                assert(0 <= t < 64);
                assert(table0.white@[t] is None && table0.black@[t] is None);
                assert(table0.attacked_spec(t, !board.black_turn, true, board) == king_square_attacked(board, t));
            }
        }
    }
    if king_analysis.double_check {
        return moves;
    }
    let reveal_attacks = reveal_attacks_of(&opponent_king_analysis.pins);
    let mut piece_position: u8 = 0;
    while piece_position < 64
        invariant
            piece_position <= 64,
            board.wf(),
            ad_table.valid_for(board),
            analysis_ok(*king_analysis),
            collisions_ok(reveal_attacks@),
            moves_by(moves@, board.black_turn),
            all_from_own_pieces(moves@, board),
            forall|i: int| 0 <= i < moves@.len() ==> #[trigger] generated_move_ok(moves@[i], board, king_analysis.threat_source, king_analysis.pins@),
            forall|i: int| 0 <= i < moves@.len() ==> #[trigger] move_safe_ok(moves@[i], board, king_analysis.check, king_analysis.double_check),
            !king_analysis.double_check,
            distinct_moves(moves@),
            forall|i: int| 0 <= i < moves@.len() && (#[trigger] moves@[i]).piece_spec() != PieceType::King ==> moves@[i].from_spec() < piece_position,
            friendly_occupancy == if board.black_turn { board.black_occupancy } else { board.white_occupancy },
            opponent_occupancy == if board.black_turn { board.white_occupancy } else { board.black_occupancy },
            king_pos == friendly_king(board),
            forall|t: int|
                0 <= t < 64 && #[trigger] king_step(friendly_king(board) as int, t) && !king_square_attacked(board, t) && open_target(
                    opponent_occupancy,
                    board.occupancy,
                    t,
                ) ==> has_move(moves@, friendly_king(board) as int, t),
            forall|sq: int, t: int|
                0 <= sq < piece_position && 0 <= t < 64 && on_sq(friendly_occupancy, sq) && #[trigger] square_target(
                    board,
                    sq,
                    king_analysis.threat_source,
                    crate::king_analysis::first_pin(king_analysis.pins@, sq),
                    t,
                ) ==> has_move(moves@, sq, t),
        decreases 64 - piece_position,
    {
        if bit_at(friendly_occupancy, piece_position) {
            let mut m = generate_index_moves_with(board, &mut ad_table, piece_position, king_analysis, &reveal_attacks, phase);
            let ghost before = moves@;
            let ghost added = m@;
            moves.append(&mut m);
            proof {
                assert forall|i: int| 0 <= i < moves@.len() implies (#[trigger] moves@[i]).black_spec() == board.black_turn && moves@[i].from_spec() < 64 && moves@[i].to_spec() < 64 by {
                    if i < before.len() {
                        assert(moves@[i] == before[i]);
                    } else {
                        assert(moves@[i] == added[i - before.len()]);
                    }
                }
                assert forall|i: int| 0 <= i < moves@.len() implies #[trigger] from_own_piece(moves@[i], board) by {
                    if i < before.len() {
                        assert(moves@[i] == before[i]);
                    } else {
                        assert(moves@[i] == added[i - before.len()]);
                    }
                }
                lemma_index_moves_each(added, board, piece_position as int, king_analysis.threat_source, king_analysis.pins@);
                lemma_has_move_append(before, added);
                assert forall|i: int, j: int| 0 <= i < j < moves@.len() implies !((#[trigger] moves@[i]).from_spec() == (#[trigger] moves@[j]).from_spec()
                    && moves@[i].to_spec() == moves@[j].to_spec() && moves@[i].flags_spec() == moves@[j].flags_spec()
                    && moves@[i].piece_spec() == moves@[j].piece_spec()) by {
                    if j < before.len() {
                        assert(moves@[i] == before[i] && moves@[j] == before[j]);
                    } else if i >= before.len() {
                        assert(moves@[i] == added[i - before.len()] && moves@[j] == added[j - before.len()]);
                    } else {
                        assert(moves@[i] == before[i] && moves@[j] == added[j - before.len()]);
                    }
                }
                lemma_index_moves_reach(added, board, piece_position as int, king_analysis.threat_source, crate::king_analysis::first_pin(king_analysis.pins@, piece_position as int));
                assert forall|t: int| 0 <= t < 64 && #[trigger] square_target(
                    board,
                    piece_position as int,
                    king_analysis.threat_source,
                    crate::king_analysis::first_pin(king_analysis.pins@, piece_position as int),
                    t,
                ) implies has_move(moves@, piece_position as int, t) by {
                    let i = choose|i: int| 0 <= i < added.len() && (#[trigger] added[i]).to_spec() == t;
                    assert(added[i].from_spec() == piece_position);
                    assert(has_move(added, piece_position as int, t));
                }
                assert forall|i: int| 0 <= i < moves@.len() implies #[trigger] generated_move_ok(moves@[i], board, king_analysis.threat_source, king_analysis.pins@) by {
                    if i < before.len() {
                        assert(moves@[i] == before[i]);
                    } else {
                        let k = i - before.len();
                        assert(moves@[i] == added[k]);
                        assert(piece_move_ok(added[k], board, king_analysis.threat_source, king_analysis.pins@));
                    }
                }
                assert forall|i: int| 0 <= i < moves@.len() implies #[trigger] move_safe_ok(moves@[i], board, king_analysis.check, king_analysis.double_check) by {
                    if i < before.len() {
                        assert(moves@[i] == before[i]);
                    } else {
                        let k = i - before.len();
                        assert(moves@[i] == added[k]);
                        assert(added[k].piece_spec() == piece_at(board, piece_position as int));
                        assert(piece_at(board, piece_position as int) != PieceType::King);
                    }
                }
            }
        }
        piece_position = piece_position + 1;
    }
    let ghost unsorted = moves@;
    sort_moves(&mut moves);
    proof {
        lemma_has_move_perm(unsorted, moves@);
        lemma_distinct_perm(unsorted, moves@);
        assert forall|i: int| 0 <= i < moves@.len() implies (#[trigger] moves@[i]).black_spec() == board.black_turn && moves@[i].from_spec() < 64 && moves@[i].to_spec() < 64 by {
            let m = moves@[i];
            assert(moves@.to_multiset().count(m) > 0) by {
                vstd::seq_lib::to_multiset_contains(moves@, m);
            }
            vstd::seq_lib::to_multiset_contains(unsorted, m);
            let j = choose|j: int| 0 <= j < unsorted.len() && unsorted[j] == m;
        }
        assert forall|i: int| 0 <= i < moves@.len() implies #[trigger] from_own_piece(moves@[i], board) by {
            let m = moves@[i];
            assert(moves@.to_multiset().count(m) > 0) by {
                vstd::seq_lib::to_multiset_contains(moves@, m);
            }
            vstd::seq_lib::to_multiset_contains(unsorted, m);
            let j = choose|j: int| 0 <= j < unsorted.len() && unsorted[j] == m;
            assert(from_own_piece(unsorted[j], board));
        }
        assert forall|i: int| 0 <= i < moves@.len() implies #[trigger] generated_move_ok(moves@[i], board, king_analysis.threat_source, king_analysis.pins@) by {
            let m = moves@[i];
            assert(moves@.to_multiset().count(m) > 0) by {
                vstd::seq_lib::to_multiset_contains(moves@, m);
            }
            vstd::seq_lib::to_multiset_contains(unsorted, m);
            let j = choose|j: int| 0 <= j < unsorted.len() && unsorted[j] == m;
            assert(generated_move_ok(unsorted[j], board, king_analysis.threat_source, king_analysis.pins@));
        }
        assert forall|i: int| 0 <= i < moves@.len() implies #[trigger] move_safe_ok(moves@[i], board, king_analysis.check, king_analysis.double_check) by {
            let m = moves@[i];
            assert(moves@.to_multiset().count(m) > 0) by {
                vstd::seq_lib::to_multiset_contains(moves@, m);
            }
            vstd::seq_lib::to_multiset_contains(unsorted, m);
            let j = choose|j: int| 0 <= j < unsorted.len() && unsorted[j] == m;
            assert(move_safe_ok(unsorted[j], board, king_analysis.check, king_analysis.double_check));
        }
    }
    moves
}

/// What the analysis of the king of the side to move reports: whether the king is in check
/// (see `king_check_spec`), whether it is in double check (see `double_check_spec`) and, as the
/// threat, a piece that gives the check (see `threat_checks`), always given in single check;
/// no threat when the king is not in check; only real pins (see `pin_real`), and, out of double check, every pin (see
/// `pins_complete`).
pub open spec fn friendly_analysis_ok(a: KingPositionAnalysis, board: BoardRep) -> bool {
    let opp = if board.black_turn { board.white_occupancy } else { board.black_occupancy };
    let king = friendly_king(board) as int;
    &&& a.check == crate::king_analysis::king_check_spec(
        king,
        board.black_turn,
        board.occupancy,
        opp,
        board.pawn_bitboard,
        board.knight_bitboard,
        board.bishop_bitboard,
        board.rook_bitboard,
        board.queen_bitboard,
    )
    &&& !a.check ==> a.threat_source is None
    &&& a.double_check ==> a.check
    &&& a.check && !a.double_check ==> a.threat_source is Some
    &&& a.double_check == crate::king_analysis::double_check_spec(
        king,
        board.black_turn,
        board.occupancy,
        opp,
        board.pawn_bitboard,
        board.knight_bitboard,
        board.bishop_bitboard,
        board.rook_bitboard,
        board.queen_bitboard,
    )
    &&& !a.double_check ==> crate::king_analysis::pins_complete(
        a.pins@,
        king,
        board.occupancy,
        opp,
        board.bishop_bitboard,
        board.rook_bitboard,
        board.queen_bitboard,
    )
    &&& forall|i: int| 0 <= i < a.pins@.len() ==> crate::king_analysis::pin_real(
        #[trigger] a.pins@[i],
        king,
        board.occupancy,
        opp,
        board.bishop_bitboard,
        board.rook_bitboard,
        board.queen_bitboard,
    )
    &&& a.threat_source matches Some(ts) ==> crate::king_analysis::threat_checks(
        ts,
        king,
        board.black_turn,
        board.occupancy,
        opp,
        board.pawn_bitboard,
        board.knight_bitboard,
        board.bishop_bitboard,
        board.rook_bitboard,
        board.queen_bitboard,
    )
}

/// What a generated move owes the king's safety, beyond its shape: a king step lands on a
/// square that the opponent does not attack with the king taken off the board, a castling is
/// made only out of check, and in double check only the king moves.
pub open spec fn move_safe_ok(m: Move, board: BoardRep, check: bool, double_check: bool) -> bool {
    &&& m.piece_spec() == PieceType::King && m.flags_spec() != MF_KING_CASTLING && m.flags_spec() != MF_QUEEN_CASTLING
        ==> !king_square_attacked(board, m.to_spec() as int)
    &&& (m.flags_spec() == MF_KING_CASTLING || m.flags_spec() == MF_QUEEN_CASTLING) && m.piece_spec() == PieceType::King ==> !check
    &&& m.piece_spec() != PieceType::King ==> !double_check
}

/// Whether a move list is sound and complete for an analysis of the king of the side to move:
/// each move is allowed by `generated_move_ok` and keeps the king safe (`move_safe_ok`), no move is there twice; every king step to an open square that is not
/// attacked with the king taken off the board is there; and, unless the king is in double check,
/// a move from every own square to every square that `square_target` allows.
pub open spec fn moves_for_analysis(r: Seq<Move>, board: BoardRep, a: KingPositionAnalysis) -> bool {
    let opp = if board.black_turn { board.white_occupancy } else { board.black_occupancy };
    let own = if board.black_turn { board.black_occupancy } else { board.white_occupancy };
    &&& forall|i: int| 0 <= i < r.len() ==> #[trigger] generated_move_ok(r[i], board, a.threat_source, a.pins@)
    &&& forall|i: int| 0 <= i < r.len() ==> #[trigger] move_safe_ok(r[i], board, a.check, a.double_check)
    &&& distinct_moves(r)
    &&& forall|t: int|
        0 <= t < 64 && #[trigger] king_step(friendly_king(board) as int, t) && !king_square_attacked(board, t) && open_target(
            opp,
            board.occupancy,
            t,
        ) ==> has_move(r, friendly_king(board) as int, t)
    &&& !a.double_check ==> forall|sq: int, t: int|
        0 <= sq < 64 && 0 <= t < 64 && on_sq(own, sq) && #[trigger] square_target(
            board,
            sq,
            a.threat_source,
            crate::king_analysis::first_pin(a.pins@, sq),
            t,
        ) ==> has_move(r, sq, t)
}

/// All moves of the side to move on a board, sorted into search order; each is allowed by
/// `generated_move_ok` for the analysis of the side's king.
pub fn generate_moves_for_board(board: BoardRep) -> (r: Vec<Move>)
    requires
        board.wf(),
    ensures
        moves_by(r@, board.black_turn),
        all_from_own_pieces(r@, board),
        exists|a: KingPositionAnalysis|
            #[trigger] friendly_analysis_ok(a, board) && forall|i: int|
                0 <= i < r@.len() ==> #[trigger] generated_move_ok(r@[i], board, a.threat_source, a.pins@),
        exists|a: KingPositionAnalysis| #[trigger] friendly_analysis_ok(a, board) && moves_for_analysis(r@, board, a),
{
    let (king_analysis, opponent_king_analysis) = if board.black_turn {
        (board.get_black_king_analysis(), board.get_white_king_analysis())
    } else {
        (board.get_white_king_analysis(), board.get_black_king_analysis())
    };
    let r = generate_moves(&king_analysis, &opponent_king_analysis, board);
    assert(friendly_analysis_ok(king_analysis, board));
    assert(moves_for_analysis(r@, board, king_analysis));
    r
}

} // verus!

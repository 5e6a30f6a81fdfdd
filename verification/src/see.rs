use vstd::prelude::*;
use crate::piece_type::{PieceType, exchange_value};
use crate::attacked_by::{AttackedBy, least_valuable_spec, popped_spec, removed_spec, can_remove, any_spec, total};

verus! {

/// Static exchange evaluation: `attacking_piece` takes `attacked_piece`; the defenders
/// answer with their least valuable piece, and so on. `None` when the capture loses
/// material (or the recapture would be made by a more valuable piece than the one it takes).
pub open spec fn see_spec(
    attacking_piece: PieceType,
    attacked_by: AttackedBy,
    attacked_piece: PieceType,
    defended_by: AttackedBy,
) -> Option<i8>
    decreases total(attacked_by) + total(defended_by),
{
    let lvd = least_valuable_spec(defended_by);
    let rest = popped_spec(defended_by);
    let value = exchange_value(attacked_piece) as int;
    if lvd != PieceType::NoPiece && exchange_value(attacking_piece) > exchange_value(lvd) {
        None
    } else {
        let capture_value = if lvd != PieceType::NoPiece {
            match see_spec(lvd, rest, attacking_piece, attacked_by) {
                Some(v) => value - v,
                None => value,
            }
        } else {
            value
        };
        if capture_value < 0 {
            None
        } else {
            Some(capture_value as i8)
        }
    }
}

proof fn lemma_pop_total(a: AttackedBy)
    ensures
        least_valuable_spec(a) != PieceType::NoPiece ==> total(popped_spec(a)) + 1 == total(a),
        least_valuable_spec(a) == PieceType::NoPiece <==> !any_spec(a),
{
}

proof fn lemma_see_range(
    attacking_piece: PieceType,
    attacked_by: AttackedBy,
    attacked_piece: PieceType,
    defended_by: AttackedBy,
)
    ensures
        see_spec(attacking_piece, attacked_by, attacked_piece, defended_by) matches Some(v) ==> 0 <= v <= 25,
    decreases total(attacked_by) + total(defended_by),
{
    let lvd = least_valuable_spec(defended_by);
    lemma_pop_total(defended_by);
    if lvd != PieceType::NoPiece {
        lemma_see_range(lvd, popped_spec(defended_by), attacking_piece, attacked_by);
    }
}

/// The exchange evaluation of a capture.
pub fn see(
    attacking_piece: PieceType,
    attacked_by: AttackedBy,
    attacked_piece: PieceType,
    defended_by: AttackedBy,
) -> (r: Option<i8>)
    ensures
        r == see_spec(attacking_piece, attacked_by, attacked_piece, defended_by),
        r matches Some(v) ==> 0 <= v <= 25,
    decreases total(attacked_by) + total(defended_by),
{
    proof {
        lemma_see_range(attacking_piece, attacked_by, attacked_piece, defended_by);
    }
    let mut defended_by = defended_by;
    let mut capture_value: i8 = attacked_piece.exchange_value();
    let lvd = defended_by.pop_least_valuable();
    if lvd != PieceType::NoPiece {
        let attacking_piece_value = attacking_piece.exchange_value();
        let defending_piece_value = lvd.exchange_value();
        if attacking_piece_value > defending_piece_value {
            return None;
        }
        let continued_exchange_see = see(lvd, defended_by, attacking_piece, attacked_by);
        match continued_exchange_see {
            Some(v) => capture_value = capture_value - v,
            None => {},
        }
    }
    if capture_value < 0 {
        return None;
    }
    Some(capture_value)
}

/// The exchange value of a capture by `attacking_piece`, which is taken out of the attackers
/// first: the exchange evaluation, or the plain difference of the two pieces' values when the
/// exchange evaluation gives none.
pub open spec fn see_from_capture_spec(
    attacking_piece: PieceType,
    attacked_by: AttackedBy,
    attacked_piece: PieceType,
    defended_by: AttackedBy,
) -> i8 {
    match see_spec(attacking_piece, removed_spec(attacked_by, attacking_piece), attacked_piece, defended_by) {
        Some(v) => v,
        None => (exchange_value(attacked_piece) - exchange_value(attacking_piece)) as i8,
    }
}

/// The exchange value of a capture by `attacking_piece`.
pub fn see_from_capture(
    attacking_piece: PieceType,
    attacked_by: AttackedBy,
    attacked_piece: PieceType,
    defended_by: AttackedBy,
) -> (r: i8)
    requires
        can_remove(attacked_by, attacking_piece),
    ensures
        r == see_from_capture_spec(attacking_piece, attacked_by, attacked_piece, defended_by),
{
    let mut attacked_by = attacked_by;
    attacked_by.remove(attacking_piece);
    let exchange = see(attacking_piece, attacked_by, attacked_piece, defended_by);
    match exchange {
        Some(v) => v,
        None => attacked_piece.exchange_value() - attacking_piece.exchange_value(),
    }
}

/// How much a piece standing (or moving) on a square stands to lose: 0 when no attacker
/// but the king attacks, else the negated exchange evaluation of the least valuable attacker
/// taking it (0 when that gives none). For a move by a piece other than a pawn, the moving
/// piece is first taken out of the defenders.
pub open spec fn piece_safety_spec(
    piece_type: PieceType,
    is_move: bool,
    attacked_by: AttackedBy,
    defended_by: AttackedBy,
) -> int {
    let defenders = if is_move && piece_type != PieceType::Pawn {
        removed_spec(defended_by, piece_type)
    } else {
        defended_by
    };
    let attacking_piece = least_valuable_spec(attacked_by);
    if attacking_piece == PieceType::NoPiece || attacking_piece == PieceType::King {
        0
    } else {
        match see_spec(attacking_piece, popped_spec(attacked_by), piece_type, defenders) {
            Some(i) => -(i as int),
            None => 0,
        }
    }
}

/// How much a piece on a square stands to lose to the opponent's capture.
pub fn piece_safety(
    piece_type: PieceType,
    is_move: bool,
    attacked_by: AttackedBy,
    defended_by: AttackedBy,
) -> (r: i8)
    requires
        is_move && piece_type != PieceType::Pawn ==> can_remove(defended_by, piece_type),
    ensures
        r == piece_safety_spec(piece_type, is_move, attacked_by, defended_by),
        -25 <= r <= 0,
{
    let mut attacked_by = attacked_by;
    let mut defended_by = defended_by;
    if is_move && piece_type != PieceType::Pawn {
        defended_by.remove(piece_type);
    }
    let attacking_piece = attacked_by.pop_least_valuable();
    match attacking_piece {
        PieceType::NoPiece | PieceType::King => 0,
        _ => match see(attacking_piece, attacked_by, piece_type, defended_by) {
            Some(i) => -i,
            None => 0,
        },
    }
}

/// Who controls a square, going by the least valuable pieces: 1 for the friendly side,
/// -1 for the opponent, 0 for neither.
pub open spec fn square_control_spec(friendly: AttackedBy, opponent: AttackedBy) -> int {
    let pawn_diff = friendly.pawns as int - opponent.pawns as int;
    let minor_diff = friendly.knights as int - opponent.knights as int + (if friendly.bishop { 1int } else { 0 })
        - (if opponent.bishop { 1int } else { 0 });
    let rook_diff = friendly.rooks as int - opponent.rooks as int;
    if !any_spec(friendly) && !any_spec(opponent) {
        0
    } else if any_spec(friendly) && !any_spec(opponent) {
        1
    } else if !any_spec(friendly) && any_spec(opponent) {
        -1
    } else if pawn_diff == -2 || pawn_diff == -1 {
        -1
    } else if pawn_diff == 1 || pawn_diff == 2 {
        1
    } else if -3 <= minor_diff <= -1 {
        -1
    } else if 1 <= minor_diff <= 3 {
        1
    } else if rook_diff == -2 || rook_diff == -1 {
        -1
    } else if rook_diff == 1 || rook_diff == 2 {
        1
    } else if friendly.queen && !opponent.queen {
        1
    } else if !friendly.queen && opponent.queen {
        -1
    } else {
        0
    }
}

/// Who controls an empty square with the least valuable pieces: 1 friendly, -1 opponent, 0 neither.
pub fn square_control(friendly: AttackedBy, opponent: AttackedBy) -> (r: i8)
    requires
        friendly.wf(),
        opponent.wf(),
    ensures
        r == square_control_spec(friendly, opponent),
{
    if !friendly.any() && !opponent.any() {
        return 0;
    }
    if friendly.any() && !opponent.any() {
        return 1;
    }
    if !friendly.any() && opponent.any() {
        return -1;
    }
    let pawn_diff = friendly.pawns as i8 - opponent.pawns as i8;
    if pawn_diff == -2 || pawn_diff == -1 {
        return -1;
    }
    if pawn_diff == 1 || pawn_diff == 2 {
        return 1;
    }
    let knight_and_bishop_dif = friendly.knights as i8 - opponent.knights as i8 + if friendly.bishop {
        1
    } else {
        0
    } - if opponent.bishop {
        1
    } else {
        0
    };
    if -3 <= knight_and_bishop_dif && knight_and_bishop_dif <= -1 {
        return -1;
    }
    if 1 <= knight_and_bishop_dif && knight_and_bishop_dif <= 3 {
        return 1;
    }
    let rook_dif = friendly.rooks as i8 - opponent.rooks as i8;
    if rook_dif == -2 || rook_dif == -1 {
        return -1;
    }
    if rook_dif == 1 || rook_dif == 2 {
        return 1;
    }
    if friendly.queen && !opponent.queen {
        return 1;
    }
    if !friendly.queen && opponent.queen {
        return -1;
    }
    0
}

/// Square control is antisymmetric: swapping the sides negates it.
pub proof fn law_square_control_antisymmetric(friendly: AttackedBy, opponent: AttackedBy)
    ensures
        square_control_spec(friendly, opponent) == -square_control_spec(opponent, friendly),
{
}

/// An exchange evaluation, when there is one, lies between 0 and the value of a king.
pub proof fn law_see_range(
    attacking_piece: PieceType,
    attacked_by: AttackedBy,
    attacked_piece: PieceType,
    defended_by: AttackedBy,
)
    ensures
        see_spec(attacking_piece, attacked_by, attacked_piece, defended_by) matches Some(v) ==> 0 <= v <= 25,
{
    lemma_see_range(attacking_piece, attacked_by, attacked_piece, defended_by);
}

/// With no defenders, a capture gains the whole value of the captured piece.
pub proof fn law_see_undefended(attacking_piece: PieceType, attacked_by: AttackedBy, attacked_piece: PieceType, defended_by: AttackedBy)
    requires
        !any_spec(defended_by),
    ensures
        see_spec(attacking_piece, attacked_by, attacked_piece, defended_by) == Some(exchange_value(attacked_piece)),
{
}

} // verus!

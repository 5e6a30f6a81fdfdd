use ch_imp::attack_and_defend_lookups::AttackAndDefendTable;
use ch_imp::board_rep::BoardRep;
use ch_imp::board_utils::index_from_coords;
use ch_imp::opening_terms::{
    get_center_control_score, get_neighbourhood_mask, get_score, get_square_control, king_openness, king_safety,
    mobility_score, turn_order_advantage, under_developed_penalty,
};
use ch_imp::attacked_by::AttackedBy;

#[test]
fn get_square_control_center_square_controlled_by_pawn_due_to_threat() {
    let board = BoardRep::from_fen("rnbqkbnr/pppppppp/8/8/4P3/8/PPPP1PPP/RNBQKBNR w KQkq - 0 1".into());

    let control = get_square_control(index_from_coords("d5"), &mut AttackAndDefendTable::new(), board);

    assert_eq!(control, 1)
}

#[test]
fn get_square_control_center_square_controlled_by_white_because_threatening_unoccupied_with_lower_value_piece() {
    let board = BoardRep::from_fen("rnbqkb1r/pppppppp/5n2/8/4P3/8/PPPP1PPP/RNBQKBNR w KQkq - 0 1".into());

    let control = get_square_control(index_from_coords("d5"), &mut AttackAndDefendTable::new(), board);

    assert_eq!(control, 1)
}

#[test]
fn get_square_control_center_square_controlled_by_neither_because_threatening_unoccupied_with_same_value_pieces() {
    let board = BoardRep::from_fen("rnbqkbnr/pp1ppppp/2p5/8/4P3/8/PPPP1PPP/RNBQKBNR w KQkq - 0 1".into());

    let control = get_square_control(index_from_coords("d5"), &mut AttackAndDefendTable::new(), board);

    assert_eq!(control, 0)
}

#[test]
fn get_square_control_center_square_controlled_by_black_due_to_multiple_threats() {
    let board = BoardRep::from_fen("rnbqkb1r/pp1ppppp/2p2n2/8/4P3/8/PPPP1PPP/RNBQKBNR w KQkq - 0 1".into());

    let control = get_square_control(index_from_coords("d5"), &mut AttackAndDefendTable::new(), board);

    assert_eq!(control, -1)
}

#[test]
fn get_square_control_center_square_controlled_by_white_due_to_occupied_plus_winning_see() {
    let board = BoardRep::from_fen("r1bqkbnr/pppppppp/2n5/8/3P4/8/PPP1PPPP/RNBQKBNR w KQkq - 0 1".into());

    let control = get_square_control(index_from_coords("d4"), &mut AttackAndDefendTable::new(), board);

    assert_eq!(control, 1)
}

#[test]
fn get_square_control_center_square_controlled_by_black_because_capturing_white_piece_is_winning() {
    let board = BoardRep::from_fen("r1bqkbnr/pppp1ppp/2n5/4p3/3P4/8/PPP1PPPP/RNBQKBNR w KQkq - 0 1".into());

    let control = get_square_control(index_from_coords("d4"), &mut AttackAndDefendTable::new(), board);

    assert_eq!(control, -1)
}

#[test]
fn center_control_is_even_at_the_start() {
    let board = BoardRep::from_fen("rnbqkbnr/pppppppp/8/8/8/8/PPPPPPPP/RNBQKBNR w KQkq - 0 1".into());
    assert_eq!(get_center_control_score(&mut AttackAndDefendTable::new(), board), 0);
}

#[test]
fn threat_score_weights_attackers() {
    let a = AttackedBy { pawns: 1, knights: 1, bishop: true, rooks: 2, queen: true, king: false };
    assert_eq!(get_score(a), 2 * 3 + 6 + 5);
    assert_eq!(get_score(AttackedBy::empty()), 0);
}

#[test]
fn neighbourhood_of_white_king_on_home_rank_reaches_two_ranks_ahead() {
    let king = index_from_coords("g1");
    let mask = get_neighbourhood_mask(king, false);
    let expected = (1u64 << index_from_coords("f1"))
        | (1u64 << index_from_coords("h1"))
        | (1u64 << index_from_coords("f2"))
        | (1u64 << index_from_coords("g2"))
        | (1u64 << index_from_coords("h2"))
        | (1u64 << index_from_coords("f3"))
        | (1u64 << index_from_coords("g3"))
        | (1u64 << index_from_coords("h3"));
    assert_eq!(mask, expected);
}

#[test]
fn neighbourhood_of_advanced_king_is_its_neighbours() {
    let king = index_from_coords("e6");
    let mask = get_neighbourhood_mask(king, false);
    assert_eq!(mask.count_ones(), 8);
}

#[test]
fn king_openness_counts_empty_queen_squares() {
    let board = BoardRep::from_fen("4k3/8/8/8/8/8/8/4K3 w - - 0 1".into());
    // six up to the black king, four and three along the rank, four and three diagonally
    assert_eq!(king_openness(index_from_coords("e1"), board), 20);
}

#[test]
fn king_safety_is_even_at_the_start() {
    let board = BoardRep::from_fen("rnbqkbnr/pppppppp/8/8/8/8/PPPPPPPP/RNBQKBNR w KQkq - 0 1".into());
    assert_eq!(king_safety(board), 0);
}

#[test]
fn king_safety_penalises_lost_castling_rights() {
    let board = BoardRep::from_fen("rnbqkbnr/pppppppp/8/8/8/8/PPPPPPPP/RNBQKBNR w kq - 0 1".into());
    assert_eq!(king_safety(board), -50);
}

#[test]
fn under_development_counts_home_minor_pieces() {
    let board = BoardRep::from_fen("rnbqkbnr/pppppppp/8/8/8/8/PPPPPPPP/RNBQKBNR w KQkq - 0 1".into());
    assert_eq!(under_developed_penalty(board, board.white_occupancy), 100);
}

#[test]
fn turn_order_advantage_without_pins_is_zero() {
    let board = BoardRep::from_fen("rnbqkbnr/pppppppp/8/8/8/8/PPPPPPPP/RNBQKBNR w KQkq - 0 1".into());
    assert_eq!(turn_order_advantage(board, &Vec::new(), &Vec::new()), 0);
}

#[test]
fn mobility_is_even_at_the_start() {
    let board = BoardRep::from_fen("rnbqkbnr/pppppppp/8/8/8/8/PPPPPPPP/RNBQKBNR w KQkq - 0 1".into());
    assert_eq!(mobility_score(board), 0);
}

use ch_imp::attack_and_defend_lookups::AttackAndDefendTable;
use ch_imp::bitboard::Bitboard;
use ch_imp::board_rep::BoardRep;
use ch_imp::board_utils::index_from_coords;
use ch_imp::eval_terms::{
    calculate_controlled_space_area_for_player, count_knight_outposts, detect_fork, get_forts, get_mobility,
    get_pawn_distance_penalty, is_on_pawnless_file, KING_PAWN_DISTANCE_PENALTY,
};
use ch_imp::pawn_files::{board_open_files, file_fill, get_forts_on_rook_open_file, half_open_files, north_file_fill, open_files, south_file_fill};
use ch_imp::pawn_structure::{calculate_frontspan, get_doubled};
use ch_imp::piece_type::PieceType;
use ch_imp::eval_utils::{distance_to_center, manhattan_distance_to_center};
use ch_imp::eval_utils::manhattan_distance;
use ch_imp::eval_utils::{board_occupancy_score, half_board_occupancy_score, orthogonal_piece_difference, piece_aggregate_score, piece_positional_reward};
use ch_imp::eval_terms::get_piece_mobility;
use ch_imp::evaluation::{get_piece_safety_penalty, PieceSafetyInfo};

#[test]
pub fn white_knight_with_no_pawn_support() {
    let board =
        BoardRep::from_fen("r4rk1/ppp2ppp/3p2n1/3N4/8/8/PPP2PPP/2KRR3 w - - 0 1".into());

    let r = count_knight_outposts(
        false,
        board.knight_bitboard & board.white_occupancy,
        board.white_occupancy & board.pawn_bitboard,
        board.black_occupancy & board.pawn_bitboard,
    );

    assert_eq!(r, 0);
}

#[test]
pub fn white_knight_with_pawn_support_attackable_by_enemy_pawn() {
    let board =
        BoardRep::from_fen("r4rk1/ppp2ppp/3p2n1/3N4/4P3/8/PPP2PPP/2KRR3 b - - 1 1".into());

    let r = count_knight_outposts(
        false,
        board.knight_bitboard & board.white_occupancy,
        board.white_occupancy & board.pawn_bitboard,
        board.black_occupancy & board.pawn_bitboard,
    );

    assert_eq!(r, 0);
}

#[test]
pub fn white_knight_with_pawn_support_no_longer_attackable_by_enemy_pawns() {
    let board =
        BoardRep::from_fen("r4rk1/pp3ppp/3p2n1/2pN4/2P5/8/PPP2PPP/2KRR3 b - - 1 1".into());

    let r = count_knight_outposts(
        false,
        board.knight_bitboard & board.white_occupancy,
        board.white_occupancy & board.pawn_bitboard,
        board.black_occupancy & board.pawn_bitboard,
    );

    assert_eq!(r, 1);
}

#[test]
pub fn black_knight_with_pawn_support_no_longer_attackable_by_enemy_pawns() {
    let board =
        BoardRep::from_fen("r4rk1/pp4pp/3p4/2pNp3/5n2/8/PPP2P1P/2KRR3 b - - 1 1".into());

    let r = count_knight_outposts(
        true,
        board.knight_bitboard & board.black_occupancy,
        board.black_occupancy & board.pawn_bitboard,
        board.white_occupancy & board.pawn_bitboard,
    );

    assert_eq!(r, 1);
}

#[test]
pub fn detect_fork_pawn_undefended_on_opponent_turn() {
    let board = BoardRep::from_fen("k7/8/8/2r1b3/3P4/8/8/K7 b - - 0 1".into());

    let r = detect_fork(
        index_from_coords("d4"),
        board,
        false,
        false,
        &mut AttackAndDefendTable::new(),
    );

    assert_eq!(r, None);
}

#[test]
pub fn detect_fork_pawn_undefended_on_friendly_turn() {
    let board = BoardRep::from_fen("k7/8/8/2r1b3/3P4/8/8/K7 w - - 0 1".into());

    let r = detect_fork(
        index_from_coords("d4"),
        board,
        false,
        false,
        &mut AttackAndDefendTable::new(),
    );

    assert_ne!(r, None);
}

#[test]
pub fn detect_fork_pawn_undefended_on_opponent_turn_but_opponent_in_check() {
    let board = BoardRep::from_fen("k7/8/8/2r1b3/3P4/8/R7/1K6 b - - 0 1".into());

    let r = detect_fork(
        index_from_coords("d4"),
        board,
        false,
        true,
        &mut AttackAndDefendTable::new(),
    );

    assert_ne!(r, None);
}

#[test]
pub fn detect_fork_pawn_forking_bishop_and_rook() {
    let board = BoardRep::from_fen("k7/8/8/2r1b3/3P4/4P3/8/K7 w - - 0 1".into());

    let r = detect_fork(
        index_from_coords("d4"),
        board,
        false,
        false,
        &mut AttackAndDefendTable::new(),
    );

    assert_eq!(r, Some(PieceType::Bishop))
}

#[test]
pub fn detect_knight_forking_bishop_and_queen() {
    let board =
        BoardRep::from_fen("rnb2knr/ppN2ppp/4q2b/8/8/8/PPPPPPPP/RNBQKB1R w KQkq - 0 1".into());

    let r = detect_fork(
        index_from_coords("c7"),
        board,
        false,
        false,
        &mut AttackAndDefendTable::new(),
    );

    assert_eq!(r, Some(PieceType::Rook))
}

#[test]
pub fn detect_knight_forking_bishop_and_king() {
    let board =
        BoardRep::from_fen("rnb1k1nr/ppN2ppp/7b/7q/8/8/PPPPPPPP/RNBQKB1R b KQkq - 0 1".into());

    let r = detect_fork(
        index_from_coords("c7"),
        board,
        false,
        true,
        &mut AttackAndDefendTable::new(),
    );

    assert_eq!(r, Some(PieceType::Rook))
}

#[test]
pub fn detect_fork_case_0() {
    let board = BoardRep::from_fen(
        "1rq2rk1/1b3p1p/p2b1np1/3pP3/Q2P4/P1N5/3BB1PP/1R3RK1 b - - 0 3".into(),
    );

    let r = detect_fork(
        index_from_coords("e5"),
        board,
        false,
        false,
        &mut AttackAndDefendTable::new(),
    );

    assert_eq!(r, Some(PieceType::Knight))
}

#[test]
pub fn detect_fork_case_1() {
    let board = BoardRep::from_fen(
        "1rq2rk1/1b3p1p/p2b1np1/3pP3/Q2P4/P1N5/3BB1PP/1R3RK1 b - - 0 3".into(),
    );

    let r = detect_fork(
        index_from_coords("c3"),
        board,
        false,
        false,
        &mut AttackAndDefendTable::new(),
    );

    assert_eq!(r, None)
}

#[test]
pub fn calculate_controlled_space_case_0() {
    let board = BoardRep::from_fen(
        "rn1qk2r/pp5p/1b1bP1p1/1Pp2pn1/1QP2P2/P7/7P/RNB1K2R w KQkq - 1 9
    "
        .into(),
    );

    let white: i16 = calculate_controlled_space_area_for_player(
        false,
        board,
        &mut AttackAndDefendTable::new(),
    );
    let black: i16 = calculate_controlled_space_area_for_player(
        true,
        board,
        &mut AttackAndDefendTable::new(),
    );

    assert_eq!(white, 12);
    assert_eq!(black, 7);
}

#[test]
pub fn calculate_frontspan_single_pawn() {
    let pawn_occupancy = 0u64.set(8);
    let r = calculate_frontspan(pawn_occupancy);

    let expected = 0u64.set(16).set(24).set(32).set(40).set(48).set(56);

    println!("r:\n{}", r.to_board_format());
    println!("e:\n{}", expected.to_board_format());
    assert_eq!(r, expected);
}

#[test]
pub fn calculate_frontspan_three_pawns_two_doubles() {
    let pawn_occupancy = 0u64.set(12).set(28).set(18);
    let r = calculate_frontspan(pawn_occupancy);

    let expected = 0u64
        .set_file(2)
        .flip(2)
        .flip(10)
        .flip(18)
        .set_file(4)
        .flip(index_from_coords("d1"))
        .flip(index_from_coords("d2"));

    println!("r:\n{}", r.to_board_format());
    println!("e:\n{}", expected.to_board_format());
    assert_eq!(r, expected);
}

#[test]
pub fn get_doubled_one_double_in_d_file() {
    let pawn_occupancy = 0u64.set(12).set(28).set(18);
    let span = calculate_frontspan(pawn_occupancy);

    let doubles = get_doubled(pawn_occupancy, span);
    assert_eq!(doubles, 1);
}

#[test]
pub fn get_doubled_two_doubles_in_d_file() {
    let pawn_occupancy = 0u64.set(12).set(28).set(18).set(20);
    let span = calculate_frontspan(pawn_occupancy);

    let doubles = get_doubled(pawn_occupancy, span);
    assert_eq!(doubles, 2);
}

#[test]
pub fn pawn_adjacent_to_king_no_penalty() {
    let board = BoardRep::from_fen("rnbq1rk1/1ppp1pp1/5n2/p1b1p3/P2P2P1/2NQBN2/1PP1PP1P/3R1BKR w - a6 0 4".into());
    let r = get_pawn_distance_penalty(board.white_king_position, board.pawn_bitboard & board.white_occupancy);
    assert_eq!(r,0);
}

#[test]
pub fn no_pawns_max_penalty() {
    let board = BoardRep::from_fen("k7/8/8/8/8/8/8/4K3 w - - 0 1".into());
    let r = get_pawn_distance_penalty(board.white_king_position, board.pawn_bitboard & board.white_occupancy);
    assert_eq!(r,7*KING_PAWN_DISTANCE_PENALTY);
}

#[test]
pub fn starting_position_white() {
    let board = BoardRep::default();
    let w_filefill = file_fill(board.pawn_bitboard & board.white_occupancy);
    let b_filefill = file_fill(board.pawn_bitboard & board.black_occupancy);
    assert_eq!(
        is_on_pawnless_file(
            board.white_king_position,
            open_files(w_filefill, b_filefill)
        ),
        false
    );
}

#[test]
pub fn pawnless_files_case_0() {
    let board =
        BoardRep::from_fen("rnbq1r2/1p3k2/5n2/p1b5/8/2NQBN2/6K1/3R1B1R b - - 1 4".into());
    let w_filefill = file_fill(board.pawn_bitboard & board.white_occupancy);
    let b_filefill = file_fill(board.pawn_bitboard & board.black_occupancy);
    assert_eq!(
        is_on_pawnless_file(
            board.white_king_position,
            open_files(w_filefill, b_filefill)
        ),
        true
    );
}

#[test]
pub fn pawnless_files_case_1() {
    let board =
        BoardRep::from_fen("rnbq1r2/1p6/k4n2/p1b5/8/2NQBN2/6K1/3R1B1R b - - 1 4".into());
    let w_filefill = file_fill(board.pawn_bitboard & board.white_occupancy);
    let b_filefill = file_fill(board.pawn_bitboard & board.black_occupancy);
    assert_eq!(
        is_on_pawnless_file(
            board.black_king_position,
            open_files(w_filefill, b_filefill)
        ),
        false
    );
}

#[test]
pub fn get_mobility_area_white_starting_position() {
    let board =
        BoardRep::from_fen("rnbqkbnr/pppppppp/8/8/8/8/PPPPPPPP/RNBQKBNR w KQkq - 0 1".into());

    let r = get_mobility(false, board);

    assert_eq!(r, 18)
}

#[test]
pub fn black_half_open_file() {
    let board = BoardRep::from_fen("rnbqkbnr/ppp1pppp/8/8/8/8/PPPPPPPP/RNBQKBNR w KQkq - 0 1".into());

    let w_filefill = file_fill(board.pawn_bitboard & board.white_occupancy);
    let b_filefill = file_fill(board.pawn_bitboard & board.black_occupancy);

    let w_half_open = half_open_files(w_filefill, b_filefill);
    println!("{}", w_half_open.to_board_format());
    assert_eq!(w_half_open, 0);


    let b_half_open = half_open_files(b_filefill, w_filefill);
    assert_eq!(b_half_open, 0u64.set_file(4));
}

#[test]
pub fn files_case_0() {
    let board = BoardRep::from_fen("k7/1p3pp1/p1p4p/3p4/P4P2/2P5/1PP3PP/4K3 w - - 0 1".into());

    let w_filefill = file_fill(board.pawn_bitboard & board.white_occupancy);
    let b_filefill = file_fill(board.pawn_bitboard & board.black_occupancy);

    let w_half_open = half_open_files(w_filefill, b_filefill);
    println!("{}", w_half_open.to_board_format());
    assert_eq!(w_half_open, 0u64.set_file(4));


    let b_half_open = half_open_files(b_filefill, w_filefill);
    assert_eq!(b_half_open, 0);
}

#[test]
pub fn fort_at_f3() {
    let board = BoardRep::from_fen("rnbqkbnr/pppppppp/8/8/8/5N2/PPPPPPPP/RNBQKB1R w KQkq - 0 1".into());

    let r = get_forts(false, board.knight_bitboard & board.white_occupancy, board.pawn_bitboard & board.white_occupancy);

    assert_eq!(r.count_ones(), 1);
    assert!(r.occupied(index_from_coords("f3")))
}

#[test]
pub fn south_file_fill_pawns_on_a_b() {
    let pawns = 0u64.flip(index_from_coords("a2")).flip(index_from_coords("b3"));
    let r = south_file_fill(pawns);
    println!("{}", r.to_board_format());
    assert_eq!(r, (1u64<<index_from_coords("a1")).flip(index_from_coords("a2")).flip(index_from_coords("b1")).flip(index_from_coords("b2")).flip(index_from_coords("b3")));
}

#[test]
pub fn north_file_fill_starting_white_pos() {
    let pawns = 0u64.set_rank(1);
    let r = north_file_fill(pawns);
    println!("{}", r.to_board_format());
    assert_eq!(r, !0u64.set_rank(0));
}

#[test]
pub fn undefended_minor_piece_on_rook_file_not_considered_blocking() {
    let board = BoardRep::from_fen("k3r3/8/8/8/4NP2/8/PPPP2PP/K7 w - - 0 1".into());

    let blocking_outposts = get_forts_on_rook_open_file(
        get_forts(false, (board.knight_bitboard | board.bishop_bitboard) & board.white_occupancy, board.pawn_bitboard & board.white_occupancy),
        board.rook_bitboard & board.black_occupancy,
        board_open_files(board),
    );

    assert_eq!(blocking_outposts, 0);
}

#[test]
pub fn pawn_defended_minor_piece_on_rook_file_considered_blocking() {
    let board = BoardRep::from_fen("k3r3/8/8/4N3/5P2/8/PPPP2PP/K7 w - - 0 1".into());

    let blocking_outposts = get_forts_on_rook_open_file(
        get_forts(false, (board.knight_bitboard | board.bishop_bitboard) & board.white_occupancy, board.pawn_bitboard & board.white_occupancy),
        board.rook_bitboard & board.black_occupancy,
        board_open_files(board),
    );

    assert_eq!(blocking_outposts, 1);
}

#[test]
fn center_distances_of_corners_and_centre() {
    assert_eq!(distance_to_center(0), 3);
    assert_eq!(distance_to_center(63), 3);
    assert_eq!(distance_to_center(27), 0);
    assert_eq!(distance_to_center(36), 0);
    assert_eq!(distance_to_center(18), 1);
    assert_eq!(distance_to_center(9), 2);
    assert_eq!(manhattan_distance_to_center(0), 6);
    assert_eq!(manhattan_distance_to_center(27), 0);
    assert_eq!(manhattan_distance_to_center(7), 6);
    assert_eq!(manhattan_distance_to_center(19), 1);
    assert_eq!(manhattan_distance_to_center(8), 5);
}

#[test]
fn manhattan_distances_between_squares() {
    assert_eq!(manhattan_distance(0, 63), 14);
    assert_eq!(manhattan_distance(0, 0), 0);
    assert_eq!(manhattan_distance(9, 18), 2);
    assert_eq!(manhattan_distance(7, 56), 14);
    assert_eq!(manhattan_distance(-1, 0), 8);
}

#[test]
fn occupancy_scores_count_pieces() {
    assert_eq!(board_occupancy_score(0xFF, 0x0F, 3), 12);
    assert_eq!(half_board_occupancy_score(0xFF00_0000_00FF, 0xF0, -2), -8);
    assert_eq!(piece_positional_reward(0b100, 2, 7), 7);
    assert_eq!(piece_positional_reward(0b100, 3, 7), 0);
    let board = BoardRep::from_fen("rnbqkbnr/pppppppp/8/8/8/8/PPPPPPPP/RNBQKBNR w KQkq - 0 1".into());
    assert_eq!(piece_aggregate_score(board, board.white_occupancy, [100, 300, 300, 500, 900, 0]), 3900);
    assert_eq!(piece_aggregate_score(board, board.occupancy, [0, 1, 1, 2, 4, 0]), 24);
    assert_eq!(orthogonal_piece_difference(board), 0);
    let board = BoardRep::from_fen("4k3/8/8/8/8/8/8/R2QK3 w - - 0 1".into());
    assert_eq!(orthogonal_piece_difference(board), 2);
}

#[test]
fn piece_mobility_of_a_central_knight() {
    let board = BoardRep::from_fen("4k3/8/8/8/3N4/8/8/4K3 w - - 0 1".into());
    let knight = board.knight_bitboard.trailing_zeros() as u8;
    assert_eq!(get_piece_mobility(knight, board, u64::MAX), 8);
    assert_eq!(get_piece_mobility(knight, board, 0), 0);
    assert_eq!(get_piece_mobility(board.white_king_position, board, u64::MAX), 0);
}

#[test]
fn inactive_side_pays_three_quarters_of_its_most_valuable_unsafe_piece() {
    let results = vec![PieceSafetyInfo { index: 0, score: -1, is_black: true, piece_type: PieceType::Queen }];
    assert_eq!(get_piece_safety_penalty(&results, [100, 300, 300, 500, 900, 0], false), 675);
}

#[test]
fn active_side_pays_for_its_second_least_valuable_unsafe_piece() {
    let results = vec![
        PieceSafetyInfo { index: 0, score: -1, is_black: false, piece_type: PieceType::Queen },
        PieceSafetyInfo { index: 1, score: -1, is_black: false, piece_type: PieceType::Pawn },
        PieceSafetyInfo { index: 2, score: -1, is_black: false, piece_type: PieceType::Knight },
    ];
    assert_eq!(get_piece_safety_penalty(&results, [100, 300, 300, 500, 900, 0], false), -(300 / 4 * 3 + 5));
}

#[test]
fn own_king_square_is_not_a_mobility_square() {
    let b = BoardRep::from_fen("k7/8/8/8/8/8/3p4/4K2R w - - 0 1".into());
    assert_eq!(get_mobility(false, b), 9);
}

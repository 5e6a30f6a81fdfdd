use ch_imp::attack_and_defend_lookups::AttackAndDefendTable;
use ch_imp::board_rep::BoardRep;
use ch_imp::board_utils::index_from_coords;
use ch_imp::chess_move::{sort_moves, Move};
use ch_imp::constants::{MF_CAPTURE, MF_QUEEN_CASTLING, MF_ROOK_CAPTURE_PROMOTION};
use ch_imp::legal_move::{is_legal_bishop_move, is_legal_king_move, is_legal_pawn_move, is_legal_queen_move, is_legal_rook_move};
use ch_imp::move_generation::{
    ep_leads_to_orthogonal_check, generate_bishop_moves, generate_king_moves, generate_pawn_moves, generate_rook_moves,
    get_pawn_threat_positions,
};
use ch_imp::piece_type::PieceType;

#[test]
pub fn is_legal_bishop_move_not_diagonal() {
    let board = BoardRep::from_fen("8/2p5/3p2b1/KP5r/1R2Pp1k/8/6P1/8 b - e3 0 1".into());
    let m = Move::new(
        index_from_coords("g6"),
        index_from_coords("g2"),
        MF_CAPTURE,
        PieceType::Bishop,
        true,
        0,
        0,
    );

    assert!(!is_legal_bishop_move(m, board))
}

#[test]
pub fn is_legal_bishop_move_is_diagonal_and_legal() {
    let board = BoardRep::from_fen("8/2p5/3p2b1/KP5r/1R2Pp1k/8/6P1/8 b - e3 0 1".into());
    let m = Move::new(
        index_from_coords("g6"),
        index_from_coords("e4"),
        MF_CAPTURE,
        PieceType::Bishop,
        true,
        0,
        0,
    );

    assert!(is_legal_bishop_move(m, board))
}

#[test]
pub fn generate_bishop_moves_should_have_two_moves_with_see_of_zero_as_they_are_unthreatened() {
    let board = BoardRep::from_fen(
        "1r1n1rk1/3qp2p/P2p2p1/1p6/5pP1/1p3P1P/5PB1/R1QR2K1 w - - 0 1".into(),
    );

    let mut ad_table = AttackAndDefendTable::new();

    let moves = generate_bishop_moves(
        index_from_coords("g2"),
        board,
        &mut ad_table,
        board.get_opponent_occupancy(),
        board.occupancy,
        None,
        None,
        None,
        0,
    );

    assert_eq!(moves[0].see(), 0, "{:?}", moves[0]);
    assert_eq!(moves[1].see(), 0, "{:?}", moves[0]);
}

#[test]
pub fn is_legal_queen_move_not_diagonal_or_orthog() {
    let board = BoardRep::from_fen(
        "r1bqkbnr/pp1npppp/2p5/8/3PN3/8/PPP2PPP/R1BQKBNR w KQkq - 0 1".into(),
    );
    let m = Move::new(
        index_from_coords("d1"),
        index_from_coords("c3"),
        0b0,
        PieceType::Queen,
        false,
        0,
        0,
    );

    assert!(!is_legal_queen_move(m, board))
}

#[test]
pub fn is_legal_queen_move_is_diagonal_and_legal() {
    let board = BoardRep::from_fen(
        "r1bqkbnr/pp1npppp/2p5/8/3PN3/8/PPP2PPP/R1BQKBNR w KQkq - 0 1".into(),
    );
    let m = Move::new(
        index_from_coords("d1"),
        index_from_coords("f3"),
        0b0,
        PieceType::Queen,
        true,
        0,
        0,
    );

    assert!(is_legal_queen_move(m, board))
}

#[test]
pub fn generate_rook_moves_ignore_opponent_when_calculating_see_when_reveal_check_move() {
    let board = BoardRep::from_fen("8/3p3k/3pb3/8/4R3/8/2B5/1K6 w - - 0 1".into());
    let reveal_attack = board.get_black_king_analysis().pins[0];

    let mut moves = generate_rook_moves(
        index_from_coords("e4"),
        board,
        &mut AttackAndDefendTable::new(),
        board.black_occupancy,
        board.occupancy,
        None,
        None,
        Some(reveal_attack),0
    );

    sort_moves(&mut moves);

    println!("{moves:?}");

    assert_eq!(moves[0].to(), index_from_coords("e6"));
    assert_eq!(moves[0].see(), 3);
}

#[test]
pub fn is_legal_rook_move_not_orthog() {
    let board = BoardRep::from_fen(
        "rnbqk2r/pppp1ppp/4pn2/8/2PP4/P1P5/4PPPP/R1BQKBNR b KQkq - 0 1".into(),
    );
    let m = Move::new(
        index_from_coords("a1"),
        index_from_coords("b2"),
        0b0,
        PieceType::Rook,
        false,
        0,
        0,
    );

    assert!(!is_legal_rook_move(m, board))
}

#[test]
pub fn is_legal_rook_move_is_orthog_and_legal() {
    let board = BoardRep::from_fen(
        "rnbqk2r/pppp1ppp/4pn2/8/2PP4/P1P5/4PPPP/R1BQKBNR b KQkq - 0 1".into(),
    );
    let m = Move::new(
        index_from_coords("a1"),
        index_from_coords("b1"),
        0b0,
        PieceType::Rook,
        false,
        0,
        0,
    );

    assert!(is_legal_rook_move(m, board))
}

#[test]
pub fn is_legal_rook_move_scenario_0() {
    let board =
        BoardRep::from_fen("rn3b1r/ppp2kpp/3p4/8/P3P1nP/4q3/4K3/4R1NR w - - 6 21".into());
    let m = Move::new(
        index_from_coords("e1"),
        index_from_coords("e3"),
        MF_CAPTURE,
        PieceType::Rook,
        false,
        0,
        0,
    );

    assert!(!is_legal_rook_move(m, board))
}

#[test]
pub fn tests_pawn_moves_scenario_0() {
    let board = BoardRep::from_fen(
        "r3k2r/p1ppqpb1/bn2pnp1/3PN3/1p2P3/2N2Q1p/PPPBBPPP/R3K2R w KQkq - 0 1".into(),
    );
    let moves = generate_pawn_moves(board, &mut AttackAndDefendTable::new(), 9, board.black_occupancy, None, None, None, 0);
    assert_eq!(moves.len(), 3);
}

#[test]
pub fn tests_pawn_moves_scenario_1() {
    let board = BoardRep::from_fen(
        "r3k2r/p1ppqpb1/bn2pnp1/1N1PN3/1p2P3/5Q2/PPPBBPpP/R3K2R b KQkq - 0 2".into(),
    );
    let moves = generate_pawn_moves(board, &mut AttackAndDefendTable::new(), 9, board.white_occupancy, None, None, None, 0);
    assert_eq!(moves.len(), 8);
}

#[test]
pub fn tests_ep_leads_to_orthogonal_check_right_true() {
    let board = BoardRep::from_fen("8/2p5/3p4/KP5r/1R3pPk/8/4P3/8 b - g3 0 1".into());
    let leads_to_check = ep_leads_to_orthogonal_check(
        board,
        index_from_coords("f4"),
        index_from_coords("f4") - 1,
        board.white_occupancy,
    );
    assert!(leads_to_check);
}

#[test]
pub fn tests_ep_leads_to_orthogonal_check_left_true() {
    let board = BoardRep::from_fen("8/2p5/3p4/KP5r/1R2Pp1k/8/6P1/8 b - e3 0 1".into());
    let leads_to_check = ep_leads_to_orthogonal_check(
        board,
        index_from_coords("f4"),
        index_from_coords("f4") + 1,
        board.white_occupancy,
    );
    assert!(leads_to_check);
}

#[test]
pub fn is_legal_capture_promotion_scenario_0() {
    let board = BoardRep::from_fen("3n2k1/P4r1p/3qp1p1/1r1p4/1p3pP1/1Q3P1P/R4P2/2R2BK1 w - - 1 1".into());
    let m = Move::new(index_from_coords("a7"), index_from_coords("b8"), MF_ROOK_CAPTURE_PROMOTION, PieceType::Pawn, false, 3, 0);
    assert!(!is_legal_pawn_move(m, board));
}

#[test]
pub fn get_pawn_threat_positions_a_file() {
    assert_eq!(get_pawn_threat_positions(index_from_coords("a3"), false), 1 << index_from_coords("b4"));
    assert_eq!(get_pawn_threat_positions(index_from_coords("a6"), true), 1 << index_from_coords("b5"));
}

#[test]
pub fn get_pawn_threat_positions_h_file() {
    assert_eq!(get_pawn_threat_positions(index_from_coords("h6"), false), 1 << index_from_coords("g7"));
    assert_eq!(get_pawn_threat_positions(index_from_coords("h4"), true), 1 << index_from_coords("g3"));
}
#[test]
pub fn is_legal_king_move_scenario_0() {
    let board = BoardRep::from_fen(
        "r1b1k1nr/pp1p1pp1/n2Bp3/7p/1PpPP3/2N5/PP3PPP/R3K1NR b KQkq - 3 10".into(),
    );

    let m = Move::new(
        index_from_coords("e8"),
        index_from_coords("f8"),
        0b0,
        PieceType::King,
        true,
        0,
        0,
    );

    assert!(!is_legal_king_move(
        m,
        board,
        &board.get_black_king_analysis()
    ))
}

#[test]
pub fn is_legal_castling_scenario_0() {
    let board =
        BoardRep::from_fen("rn3bnr/ppp3k1/1q1p4/1b4Pp/3PPB2/P4N2/2P3P1/R2NK2R w KQ h6 0 16".into());

    let m = Move::new(
        index_from_coords("e1"),
        index_from_coords("c1"),
        MF_QUEEN_CASTLING,
        PieceType::King,
        false,
        0,
        0,
    );

    assert!(!is_legal_king_move(
        m,
        board,
        &board.get_white_king_analysis()
    ))
}

#[test]
pub fn is_legal_castling_scenario_1() {
    let board =
        BoardRep::from_fen("r3k1nr/1p5p/2n1p3/p5B1/2NP2PP/6b1/PP6/R2K2NR b kq - 0 17".into());

    let m = Move::new(
        index_from_coords("e8"),
        index_from_coords("c8"),
        MF_QUEEN_CASTLING,
        PieceType::King,
        true,
        0,
        0,
    );

    assert!(!is_legal_king_move(
        m,
        board,
        &board.get_black_king_analysis()
    ))
}

#[test]
pub fn generate_moves_illegal_move_scenario_0() {
    let board = BoardRep::from_fen("8/P1k5/1p1pr1p1/4p2p/2r4P/5P1B/3R3K/8 b - - 0 3".into());

    let king_analysis = board.get_black_king_analysis();

    let mut ad_table = AttackAndDefendTable::new();

    let moves = generate_king_moves(
        board.black_king_position,
        board.white_occupancy,
        board.occupancy,
        &king_analysis,
        board.black_turn,
        board.black_king_side_castling,
        board.black_queen_side_castling,
        board,
        &mut ad_table,
        0
    );

    let illegal_move = Move::new(
        board.black_king_position,
        index_from_coords("b8"),
        0b0,
        PieceType::King,
        true,
        0,
        0,
    );

    assert!(!moves.contains(&illegal_move))
}


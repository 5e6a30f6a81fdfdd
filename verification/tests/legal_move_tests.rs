use ch_imp::board_utils::index_from_coords;
use ch_imp::chess_move::Move;
use ch_imp::constants::{MF_CAPTURE, MF_EP_CAPTURE};
use ch_imp::legal_move::{is_legal_pinned_piece_move, move_removes_check};
use ch_imp::piece_type::PieceType;
use ch_imp::position::Position;

#[test]
pub fn is_not_king_move_in_double_check() {
    let position = Position::from_fen("k7/8/8/8/8/1b2n3/3P4/3K4 w - - 0 1".into()).unwrap();
    let m = Move::new(
        index_from_coords("d2"),
        index_from_coords("e3"),
        MF_CAPTURE,
        PieceType::Pawn,
        false,
        2,
        0,
    );
    assert!(!position.is_legal_move(m));
}

#[test]
pub fn is_not_white_move_during_white_turn() {
    let position = Position::from_fen("k7/8/8/8/b7/5n2/2PP4/3K4 w - - 0 1".into()).unwrap();
    let m = Move::new(
        index_from_coords("a8"),
        index_from_coords("a7"),
        0b0,
        PieceType::King,
        true,
        0,
        0,
    );
    assert!(!position.is_legal_move(m));
}

#[test]
pub fn in_check_moving_piece_but_does_not_block_threat() {
    let position = Position::from_fen("k7/8/8/8/b7/5n2/1N1P4/3K4 w - - 0 1".into()).unwrap();
    let m = Move::new(
        index_from_coords("b2"),
        index_from_coords("d3"),
        0b0,
        PieceType::Knight,
        false,
        0,
        0,
    );
    assert!(!move_removes_check(
        m,
        &position.board.get_white_king_analysis(),
            position.board.white_king_position
    ));
}

#[test]
pub fn in_check_moving_piece_captures_threat() {
    let position = Position::from_fen("k7/8/8/8/3r4/8/2N5/3K4 w - - 0 1".into()).unwrap();
    let m = Move::new(
        index_from_coords("c2"),
        index_from_coords("d4"),
        MF_CAPTURE,
        PieceType::Knight,
        false,
        0,
        0,
    );
    assert!(move_removes_check(
        m,
        &position.board.get_white_king_analysis(),
            position.board.white_king_position
    ));
}

#[test]
pub fn in_check_piece_moving_to_block_threat_is_pinned() {
    let position = Position::from_fen("k2r4/8/8/8/b7/8/2N5/3K4 w - - 0 1".into()).unwrap();
    let m = Move::new(
        index_from_coords("c2"),
        index_from_coords("d4"),
        0b0,
        PieceType::Knight,
        false,
        0,
        0,
    );
    assert!(!move_removes_check(
        m,
        &position.board.get_white_king_analysis(),
            position.board.white_king_position
    ));
}

#[test]
pub fn in_check_piece_capturing_threat_is_pinned() {
    let position = Position::from_fen("k7/8/8/8/b2r4/8/2N5/3K4 w - - 0 1".into()).unwrap();
    let m = Move::new(
        index_from_coords("c2"),
        index_from_coords("d4"),
        MF_CAPTURE,
        PieceType::Knight,
        false,
        0,
        0,
    );
    assert!(!move_removes_check(
        m,
        &position.board.get_white_king_analysis(),
            position.board.white_king_position
    ));
}

#[test]
pub fn not_in_check_but_piece_is_pinned_and_moving_off_threat_ray() {
    let position = Position::from_fen("k7/8/2b5/8/8/8/6B1/5K2 b - - 0 1".into()).unwrap();
    let m = Move::new(
        index_from_coords("c6"),
        index_from_coords("b5"),
        0b0,
        PieceType::Bishop,
        true,
        0,
        0,
    );
    assert!(!position.is_legal_move(m));
}

#[test]
pub fn not_in_check_but_ep_capture_would_result_in_check() {
    let position = Position::from_fen("8/8/8/8/R4pPk/8/8/K7 b - g3 0 1".into()).unwrap();
    let m = Move::new(
        index_from_coords("f4"),
        index_from_coords("g3"),
        MF_EP_CAPTURE,
        PieceType::Pawn,
        true,
        0,
        0,
    );
    assert!(!position.is_legal_move(m));
}

#[test]
pub fn is_legal_pinned_piece_move_stays_inside_threat_ray() {
    let position = Position::from_fen("k7/8/2b5/8/8/8/6B1/5K2 b - - 0 1".into()).unwrap();
    let m = Move::new(
        index_from_coords("c6"),
        index_from_coords("d5"),
        0b0,
        PieceType::Bishop,
        true,
        0,
        0,
    );
    assert!(is_legal_pinned_piece_move(
        m,
        &position.board.get_black_king_analysis(),
            position.board.black_king_position
    ));
}

#[test]
pub fn is_legal_pinned_piece_move_captures_pinning_piece() {
    let position = Position::from_fen("k7/8/2b5/8/8/8/6B1/5K2 b - - 0 1".into()).unwrap();
    let m = Move::new(
        index_from_coords("c6"),
        index_from_coords("g2"),
        MF_CAPTURE,
        PieceType::Bishop,
        true,
        0,
        0,
    );
    assert!(is_legal_pinned_piece_move(
        m,
        &position.board.get_black_king_analysis(),
            position.board.black_king_position
    ));
}

#[test]
pub fn is_legal_scenario_0() {
    let position = Position::from_fen(
        "rnbqkbnr/ppp1p1p1/8/3p1p1p/2B1P2P/8/PPPP1PP1/RNBQK1NR w KQkq d6 0 4".into(),
    )
    .unwrap();
    let m = Move::new(
        index_from_coords("c4"),
        index_from_coords("d5"),
        MF_CAPTURE,
        PieceType::Pawn,
        false,
        0,
        0,
    );
    assert!(!position.is_legal_move(m));
}

#[test]
pub fn is_legal_scenario_1() {
    let position = Position::from_fen(
        "rnbqkbnr/ppppppp1/8/7p/7P/8/PPPPPPP1/RNBQKBNR w KQkq h6 0 ".into(),
    )
    .unwrap();
    let m = Move::new(index_from_coords("f1"), index_from_coords("e2"), 0b0, PieceType::Bishop, false, 0, 0);
    assert!(!position.is_legal_move(m));
}

#[test]
pub fn is_legal_scenario_2() {
    let position = Position::from_fen(
        "r1bq1bnr/ppp1kppp/2np4/1B2Q3/4PP2/8/PPPP2PP/RNB1K1NR b KQ - 0 5".into(),
    )
    .unwrap();
    let m = Move::new(index_from_coords("e7"), index_from_coords("e6"), 0b0, PieceType::King, true, 0, 0);
    assert!(!position.is_legal_move(m));
}

#[test]
pub fn is_legal_scenario_3() {
    let position = Position::from_fen(
        "rn3b1r/ppp2kpp/3p4/8/P3P1nP/4q3/4K3/4R1NR w - - 6 21".into(),
    )
    .unwrap();
    let m = Move::new(index_from_coords("e1"), index_from_coords("e3"), MF_CAPTURE, PieceType::Rook, false, 0, 0);
    assert!(!position.is_legal_move(m));
}

#[test]
pub fn is_legal_scenario_4() {
    let position = Position::from_fen(
        "rn3b1r/ppp2kpp/3p1n2/8/P3P1bP/5P2/1BP5/R2Kq1NR w - - 1 15".into(),
    )
    .unwrap();
    let m = Move::new(index_from_coords("f3"), index_from_coords("g4"), MF_CAPTURE, PieceType::Pawn, false, 0, 0);
    assert!(!position.is_legal_move(m));
}

#[test]
pub fn startpos_pawn_push_and_knight_jump_are_legal() {
    let position = Position::default();
    let push = Move::new(index_from_coords("e2"), index_from_coords("e4"), ch_imp::constants::MF_DOUBLE_PAWN_PUSH, PieceType::Pawn, false, 0, 0);
    assert!(position.is_legal_move(push));
    let jump = Move::new(index_from_coords("g1"), index_from_coords("f3"), 0, PieceType::Knight, false, 0, 0);
    assert!(position.is_legal_move(jump));
    let blocked = Move::new(index_from_coords("f1"), index_from_coords("c4"), 0, PieceType::Bishop, false, 0, 0);
    assert!(!position.is_legal_move(blocked));
}

#[test]
pub fn position_check_flags_and_legality() {
    let position = Position::from_fen("k7/8/8/8/8/8/8/r3K3 w - - 0 1".into()).unwrap();
    assert!(position.white_in_check);
    assert!(!position.black_in_check);
    assert!(position.current_in_check());
    assert!(position.legal());
    assert!(Position::from_fen("8/8/8/8/8/8/8/4K3 w - - 0 1".into()).is_none());
}

#[test]
pub fn evaluation_counts_tempo_and_material() {
    let white = Position::from_fen("rnbqkbnr/pppppppp/8/8/8/8/PPPPPPPP/RNBQKBNR w KQkq - 0 1".into()).unwrap();
    let black = Position::from_fen("rnbqkbnr/pppppppp/8/8/8/8/PPPPPPPP/RNBQKBNR b KQkq - 0 1".into()).unwrap();
    assert_eq!(white.eval - black.eval, 100);
    let up_a_queen = Position::from_fen("rnb1kbnr/pppppppp/8/8/8/8/PPPPPPPP/RNBQKBNR w KQkq - 0 1".into()).unwrap();
    assert!(up_a_queen.eval > white.eval + 1000);
}

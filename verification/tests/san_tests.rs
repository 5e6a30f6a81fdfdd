use ch_imp::board_utils::index_from_coords;
use ch_imp::chess_move::Move;
use ch_imp::constants::{MF_CAPTURE, MF_DOUBLE_PAWN_PUSH, MF_KING_CASTLING, MF_QUEEN_PROMOTION};
use ch_imp::game_state::GameState;
use ch_imp::piece_type::PieceType;
use ch_imp::san::build_san;

#[test]
pub fn simple_situation_startpos_e4() {
    let game_state = GameState::default();
    let m = Move::new(
        index_from_coords("e2"),
        index_from_coords("e4"),
        MF_DOUBLE_PAWN_PUSH,
        PieceType::Pawn,
        false,
        0,
        0
    );

    assert_eq!(game_state.to_san(m), "e4");
}

#[test]
pub fn simple_situation_startpos_knight_to_f3() {
    let game_state = GameState::default();
    let m = Move::new(
        index_from_coords("g1"),
        index_from_coords("f3"),
        0b0,
        PieceType::Knight,
        false,
        0,
        0
    );

    assert_eq!(game_state.to_san(m), "Nf3");
}

#[test]
pub fn capture_with_multiple_possible_attack_pieces() {
    let game_state =
        GameState::new("3r2k1/p2r1p1p/1p2p1p1/q4n2/3P4/PQ5P/1P1RNPP1/3R2K1 b - -".into()).unwrap();
    let m = Move::new(
        index_from_coords("f5"),
        index_from_coords("d4"),
        MF_CAPTURE,
        PieceType::Knight,
        true,
        0,
        0
    );
    assert_eq!(game_state.to_san(m), "Nxd4");
}

#[test]
pub fn show_the_move_is_check() {
    let game_state =
        GameState::new("1k1r4/pp1b1R2/3q2pp/4p3/2B5/4Q3/PPP2B2/2K5 b - - 0 1".into()).unwrap();
    let m = Move::new(
        index_from_coords("d6"),
        index_from_coords("d1"),
        0b0,
        PieceType::Queen,
        true,
        0,
        0
    );
    assert_eq!(game_state.to_san(m), "Qd1+");
}

#[test]
pub fn do_not_include_from_rank_if_piece_is_pawn() {
    let game_state =
        GameState::new("2q1rr1k/3bbnnp/p2p1pp1/2pPp3/PpP1P1P1/1P2BNNP/2BQ1PRK/7R b - -".into()).unwrap();
    let m = Move::new(
        index_from_coords("f6"),
        index_from_coords("f5"),
        0b0,
        PieceType::Pawn,
        true,
        0,
        0
    );
    assert_eq!(game_state.to_san(m), "f5");
}

#[test]
pub fn san_case_0() {
    let game_state =
        GameState::new("1k1r1r2/p1p5/Bpnbb3/3p2pp/3P4/P1N1NPP1/1PP4P/2KR1R2 w - - 0 1".into()).unwrap();
    let m = Move::new(
        index_from_coords("c3"),
        index_from_coords("d5"),
        MF_CAPTURE,
        PieceType::Knight,
        false,
        0,
        0
    );
    assert_eq!(game_state.to_san(m), "Ncxd5");
}

#[test]
pub fn san_case_1() {
    let game_state =
        GameState::new("1qrr3k/6p1/1p1pp2p/pNn5/Pn1bP1PP/5Q2/1PP1N3/1K1R2R1 w - -".into()).unwrap();
    let m = Move::new(
        index_from_coords("e2"),
        index_from_coords("d4"),
        MF_CAPTURE,
        PieceType::Knight,
        false,
        0,
        0
    );
    assert_eq!(game_state.to_san(m), "Nexd4");
}

#[test]
pub fn case_2() {
    let game_state =
        GameState::new("r3r1k1/pp2q3/2b1pp2/6pN/Pn1P4/6R1/1P3PP1/3QRBK1 w - -".into()).unwrap();
    let m = Move::new(
        index_from_coords("f2"),
        index_from_coords("f4"),
        MF_DOUBLE_PAWN_PUSH,
        PieceType::Pawn,
        false,
        0,
        0
    );
    assert_eq!(game_state.to_san(m), "f4");
}

#[test]
pub fn castling_and_promotion_notation() {
    let game_state = GameState::new("r3k2r/1P6/8/8/8/8/8/R3K2R w KQkq - 0 1".into()).unwrap();
    let castle = Move::new(3, 1, MF_KING_CASTLING, PieceType::King, false, 0, 0);
    assert_eq!(game_state.to_san(castle), "O-O");
    assert_eq!(game_state.to_san_lichess(castle), "O-O");
    let promotion = Move::new(index_from_coords("b7"), index_from_coords("b8"), MF_QUEEN_PROMOTION, PieceType::Pawn, false, 0, 0);
    assert_eq!(game_state.to_san(promotion), "b7b8q");
}

#[test]
pub fn build_san_of_an_opening() {
    let e4 = Move::new(index_from_coords("e2"), index_from_coords("e4"), MF_DOUBLE_PAWN_PUSH, PieceType::Pawn, false, 0, 0);
    let e5 = Move::new(index_from_coords("e7"), index_from_coords("e5"), MF_DOUBLE_PAWN_PUSH, PieceType::Pawn, true, 0, 0);
    let nf3 = Move::new(index_from_coords("g1"), index_from_coords("f3"), 0, PieceType::Knight, false, 0, 0);
    let r = build_san(vec![e4, e5, nf3], "rnbqkbnr/pppppppp/8/8/8/8/PPPPPPPP/RNBQKBNR w KQkq - 0 1".into());
    assert_eq!(r, " ee4 ee5 Ngf3");
    assert_eq!(build_san(vec![e4], "8/8/8/8/8/8/8/8 w - - 0 1".into()), "");
}

#[test]
fn build_san_stops_after_a_refused_move() {
    let start = "4k3/8/8/8/8/8/4r3/4K3 w - - 0 1";
    let into_check = Move::new(index_from_coords("e1"), index_from_coords("f2"), 0, PieceType::King, false, 0, 0);
    let capture = Move::new(index_from_coords("e1"), index_from_coords("e2"), MF_CAPTURE, PieceType::King, false, 0, 0);
    let r = build_san(vec![into_check, capture], start.into());
    assert_eq!(r.chars().filter(|c| *c == ' ').count(), 1);
}

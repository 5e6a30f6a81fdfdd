use ch_imp::chess_move::Move;
use ch_imp::constants::{MF_DOUBLE_PAWN_PUSH, MF_KING_CASTLING};
use ch_imp::game_state::{result_state_with, GameState, MatchResultState};
use ch_imp::piece_type::PieceType;
use ch_imp::position::Position;

#[test]
pub fn new_start_pos() {
    let result = GameState::new("rnbqkbnr/pppppppp/8/8/8/8/PPPPPPPP/RNBQKBNR w KQkq - 0 1".into()).unwrap();
    assert_eq!(result.position, Position::default());
    assert_eq!(result.half_moves, 0);
    assert_eq!(result.full_moves, 1);
}

#[test]
pub fn new_case_king_only_end_game() {
    let result = GameState::new("k7/8/8/8/8/8/8/7K b - - 5 25".into()).unwrap();

    assert_eq!(result.half_moves, 5);
    assert_eq!(result.full_moves, 25);
}

#[test]
pub fn new_case_white_can_ep_capture() {
    let result =
        GameState::new("rnbqkbnr/pppp3p/6p1/4ppP1/4P3/8/PPPP1P1P/RNBQKBNR w KQkq f6 0 4".into()).unwrap();
    assert_eq!(result.half_moves, 0);
    assert_eq!(result.full_moves, 4);
}

#[test]
pub fn to_fen_startpos() {
    let game_state = GameState::default();
    assert_eq!(game_state.to_fen(), "rnbqkbnr/pppppppp/8/8/8/8/PPPPPPPP/RNBQKBNR w KQkq - 0 1");
}

#[test]
pub fn to_fen_startpos_kings_indian_defense() {
    let game_state =
        GameState::new("rnbq1rk1/ppp1ppbp/3p1np1/8/2PPP3/2N2N2/PP2BPPP/R1BQK2R b KQ - 0 1".into()).unwrap();
    assert_eq!(game_state.to_fen(), "rnbq1rk1/ppp1ppbp/3p1np1/8/2PPP3/2N2N2/PP2BPPP/R1BQK2R b KQ - 0 1");
}

#[test]
pub fn make_pawn_e4_opening() {
    let mut game_state = GameState::default();
    game_state = game_state.make(Move::new(11, 27, MF_DOUBLE_PAWN_PUSH, PieceType::Pawn, true, 0, 0)).unwrap();
    assert_eq!(game_state.to_fen(), "rnbqkbnr/pppppppp/8/8/4P3/8/PPPP1PPP/RNBQKBNR b KQkq e3 0 1");
}

#[test]
pub fn make_white_king_side_castling_during_indian_defense() {
    let mut game_state =
        GameState::new("rnbq1rk1/ppp2pbp/3p1np1/4p3/2PPP3/2N2N2/PP2BPPP/R1BQK2R w KQ - 0 2".into()).unwrap();
    game_state = game_state.make(Move::new(3, 1, MF_KING_CASTLING, PieceType::King, true, 0, 0)).unwrap();
    assert_eq!(game_state.to_fen(), "rnbq1rk1/ppp2pbp/3p1np1/4p3/2PPP3/2N2N2/PP2BPPP/R1BQ1RK1 b - - 1 2");
}

#[test]
pub fn king_move_into_check() {
    let game_state = GameState::new("rnbqkbnr/pppp1ppp/8/3Np3/8/8/PPPPPPPP/R1BQKBNR b KQkq - 1 2".into()).unwrap();

    let m = game_state.move_from_uci("e8e7");

    let new_state = game_state.make(m);
    assert!(new_state.is_none());
}

#[test]
pub fn new_refuses_a_board_without_kings_or_counters() {
    assert!(GameState::new("8/8/8/8/8/8/8/8 w - - 0 1".into()).is_none());
    assert!(GameState::new("k7/8/8/8/8/8/8/7K b - - x 1".into()).is_none());
    let defaults = GameState::new("k7/8/8/8/8/8/8/7K b - -".into()).unwrap();
    assert_eq!(defaults.half_moves, 0);
    assert_eq!(defaults.full_moves, 1);
    assert!(GameState::new("k7/8/8/8/8/8/8/7K b - - 300 1".into()).is_none());
}

#[test]
pub fn make_updates_the_hash_as_a_fresh_board_would() {
    let game_state = GameState::default();
    let m = game_state.move_from_uci("g1f3");
    let next = game_state.make(m).unwrap();
    let expected = GameState::new("rnbqkbnr/pppppppp/8/8/8/5N2/PPPPPPPP/RNBQKB1R b KQkq - 1 1".into()).unwrap();
    assert_eq!(next.position.board, expected.position.board);
    assert_eq!(next.half_moves, 1);
    assert_eq!(next.full_moves, 1);
}

#[test]
pub fn move_from_uci_reads_flags() {
    let game_state = GameState::default();
    let m = game_state.move_from_uci("e2e4");
    assert_eq!(m.flags(), MF_DOUBLE_PAWN_PUSH);
    assert_eq!(m.piece_type(), PieceType::Pawn);
    assert!(!m.is_black());
    let castle = GameState::new("r3k2r/8/8/8/8/8/8/R3K2R w KQkq - 0 1".into()).unwrap().move_from_uci("e1g1");
    assert_eq!(castle.flags(), MF_KING_CASTLING);
}

#[test]
pub fn repeated_moves_draw() {
    let a = Move::new(0, 8, 0, PieceType::Rook, false, 0, 0);
    let b = Move::new(63, 62, 0, PieceType::King, true, 0, 0);
    let position = Position::default();
    assert_eq!(result_state_with(0, [a, b, a, b, a, b], position, true), MatchResultState::Draw);
    assert_eq!(result_state_with(0, [a, b, a, b, a, a], position, true), MatchResultState::Active);
    assert_eq!(result_state_with(0, [a, b, a, b, a, b], position, true), MatchResultState::Draw);
    assert_eq!(result_state_with(49, [a, b, b, a, a, b], position, false), MatchResultState::Draw);
}

#[test]
pub fn fifty_half_moves_draw() {
    let g = GameState::new("k7/8/8/8/8/8/8/K6R w - - 50 80".into()).unwrap();
    assert_eq!(g.result_state, MatchResultState::Draw);
}

use ch_imp::chess_move::{sort_moves, Move};
use ch_imp::constants::{MF_CAPTURE, MF_DOUBLE_PAWN_PUSH, MF_QUEEN_PROMOTION, MF_KING_CASTLING, MF_EP_CAPTURE};
use ch_imp::piece_type::PieceType;

#[test]
pub fn order_will_prioritize_greater_valued_flags() {
    let m1 = Move::new(2, 4, MF_DOUBLE_PAWN_PUSH, PieceType::Queen, false, 0, 0);
    let m2 = Move::new(2, 4, MF_QUEEN_PROMOTION, PieceType::Queen, false, 0, 0);

    let mut vec = vec![m1, m2];
    sort_moves(&mut vec);
    assert_eq!(vec[0], m2);
    assert_eq!(vec[1], m1);
}

#[test]
pub fn order_moves_case_capture_over_quiet() {
    let capture = Move::new(0, 1, MF_CAPTURE, PieceType::Pawn, true, 2, 0);
    let quiet = Move::new(0, 1, 0b0, PieceType::Pawn, true, 0, 0);
    let mut moves = vec![quiet, capture];

    sort_moves(&mut moves);
    assert_eq!(moves[0], capture);
    assert_eq!(moves[1], quiet);
}

#[test]
pub fn order_moves_case_capture_with_higher_see_over_lower() {
    let major_capture = Move::new(0, 1, MF_CAPTURE, PieceType::Pawn, true, 4, 0);
    let minor_capture = Move::new(0, 1, MF_CAPTURE, PieceType::Queen, true, 1, 0);
    let mut moves = vec![minor_capture, major_capture];

    sort_moves(&mut moves);
    assert_eq!(moves[0], major_capture);
    assert_eq!(moves[1], minor_capture);
}

#[test]
pub fn order_moves_case_equal_see_captures_check_least_valuable_piece_first() {
    let rook_capture = Move::new(0, 1, MF_CAPTURE, PieceType::Rook, true, 4, 0);
    let queen_capture = Move::new(0, 1, MF_CAPTURE, PieceType::Queen, true, 4, 0);
    let mut moves = vec![queen_capture, rook_capture];

    sort_moves(&mut moves);
    assert_eq!(moves[0], rook_capture);
    assert_eq!(moves[1], queen_capture);
}

#[test]
pub fn order_equal_see_capture_over_dpp() {
    let pawn_capture = Move::new(0, 1, MF_CAPTURE, PieceType::Pawn, true, 0, 0);
    let dpp = Move::new(0, 1, MF_DOUBLE_PAWN_PUSH, PieceType::Pawn, true, 0, 0);
    let mut moves = vec![dpp, pawn_capture];

    sort_moves(&mut moves);
    assert_eq!(moves[0], pawn_capture);
    assert_eq!(moves[1], dpp);
}

#[test]
pub fn order_better_square_delta_when_moves_quiet() {
    let better_move = Move::new(0, 1, 0b0, PieceType::Pawn, true, 0, 23);
    let worse_move = Move::new(0, 1, 0b0, PieceType::Queen, true, 0, 11);
    let mut moves = vec![worse_move, better_move];

    sort_moves(&mut moves);
    assert_eq!(moves[0], better_move);
    assert_eq!(moves[1], worse_move);
}



#[test]
pub fn move_parts_round_trip() {
    let m = Move::new(12, 28, MF_DOUBLE_PAWN_PUSH, PieceType::Pawn, false, 3, -7);
    assert_eq!(m.from(), 12);
    assert_eq!(m.to(), 28);
    assert_eq!(m.flags(), MF_DOUBLE_PAWN_PUSH);
    assert_eq!(m.piece_type(), PieceType::Pawn);
    assert!(!m.is_black());
    assert_eq!(m.see(), 3);
    assert_eq!(m.square_delta(), -7);
    assert!(m.is_double_pawn_push());
    assert!(!m.is_capture());
    assert!(!m.is_empty());
    assert!(Move::empty().is_empty());
}

#[test]
pub fn move_flag_queries() {
    let castle = Move::new(3, 1, MF_KING_CASTLING, PieceType::King, false, 0, 0);
    assert!(castle.is_castling());
    assert!(castle.is_king_castling());
    assert!(castle.is_quiet());
    let ep = Move::new(36, 43, MF_EP_CAPTURE, PieceType::Pawn, false, 0, 0);
    assert!(ep.is_capture());
    assert!(ep.is_ep_capture());
    let promo = Move::new(52, 60, MF_QUEEN_PROMOTION, PieceType::Pawn, false, 0, 0);
    assert!(promo.is_promotion());
    assert_eq!(promo.uci(), "d7d8q");
}

#[test]
pub fn sort_keeps_every_move() {
    let a = Move::new(0, 1, 0, PieceType::Pawn, true, 0, 5);
    let b = Move::new(0, 2, MF_CAPTURE, PieceType::Knight, true, 2, 0);
    let c = Move::new(0, 3, MF_QUEEN_PROMOTION, PieceType::Pawn, true, 0, 0);
    let mut moves = vec![a, b, c];
    sort_moves(&mut moves);
    assert_eq!(moves.len(), 3);
    assert!(moves.contains(&a) && moves.contains(&b) && moves.contains(&c));
}

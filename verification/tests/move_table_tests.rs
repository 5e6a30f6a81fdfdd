use ch_imp::game_state::{GameState, Match};
use ch_imp::perft::{deepen, root_lines};
use ch_imp::attacks::{bishop_attacks, rook_attacks};
use ch_imp::board_rep::BoardRep;
use ch_imp::board_utils::index_from_coords;
use ch_imp::chess_move::Move;
use ch_imp::magic::{
    bishop_mask_generation, find_bishop_magics, find_rook_magics, generate_blocker_patterns, generate_legal_bishop_moves,
    magic_fits, rook_mask_generation, MagicTable, BISHOP_LEFT_SHIFT_BITS, BISHOP_MAGIC, ROOK_LEFT_SHIFT_BITS, ROOK_MAGIC,
};
use ch_imp::move_data::{diagonal_mask_generation, horizontal_mask_generation, MoveData};
use ch_imp::move_orderer::priority_cmp;
use ch_imp::piece_type::PieceType;
use ch_imp::threat_board::{build_move_generation_eval_metrics, generate_threat_board, MoveGenerationEvalMetrics};
use ch_imp::king_analysis::KingPositionAnalysis;

#[test]
pub fn order_priority_move_to_top() {
    let priority_move = Move::new(2, 4, 1, PieceType::Queen, false, 0, 0);
    let mut moves = vec![Move::new(0, 1, 0, PieceType::Pawn, false, 0, 0), priority_move];
    moves.sort_by(|a, b| priority_cmp(a, b, &vec![priority_move]));
    assert_eq!(moves[0], priority_move);
}

#[test]
fn rook_mask_of_a_corner_has_twelve_squares() {
    assert_eq!(rook_mask_generation(0).count_ones(), 12);
    assert_eq!(rook_mask_generation(27).count_ones(), 10);
    assert_eq!(rook_mask_generation(0), 0x000101010101017e);
}

#[test]
fn bishop_mask_sizes() {
    assert_eq!(bishop_mask_generation(0).count_ones(), 6);
    assert_eq!(bishop_mask_generation(27).count_ones(), 9);
}

#[test]
fn shifts_leave_one_bit_per_mask_square() {
    for i in 0..64usize {
        assert_eq!(64 - ROOK_LEFT_SHIFT_BITS[i], rook_mask_generation(i as i64).count_ones() as usize);
        assert_eq!(64 - BISHOP_LEFT_SHIFT_BITS[i], bishop_mask_generation(i as i64).count_ones() as usize);
    }
}

#[test]
fn blocker_patterns_enumerate_the_mask() {
    let mask = 0b1010u64;
    let patterns = generate_blocker_patterns(mask);
    assert_eq!(patterns, vec![0, 0b10, 0b1000, 0b1010]);
}

#[test]
fn legal_bishop_moves_stop_at_blockers() {
    let d4 = index_from_coords("d4") as i64;
    let blocker = 1u64 << index_from_coords("f6");
    let moves = generate_legal_bishop_moves(d4, blocker);
    assert!(moves & (1u64 << index_from_coords("f6")) != 0);
    assert!(moves & (1u64 << index_from_coords("g7")) == 0);
    assert_eq!(moves, bishop_attacks(d4 as u8, blocker));
}

#[test]
fn magic_lookups_match_ray_attacks() {
    let table = MagicTable::new();
    let mut seed: u64 = 0x9e3779b97f4a7c15;
    for i in 0..64usize {
        for _ in 0..40 {
            seed ^= seed << 13;
            seed ^= seed >> 7;
            seed ^= seed << 17;
            let occupancy = seed & (seed >> 3);
            assert_eq!(table.get_rook_attacks(i, occupancy), rook_attacks(i as u8, occupancy), "rook on {i}");
            assert_eq!(table.get_bishop_attacks(i, occupancy), bishop_attacks(i as u8, occupancy), "bishop on {i}");
        }
    }
}

#[test]
fn magic_lookups_match_ray_attacks_for_every_blocker_pattern() {
    let table = MagicTable::new();
    for i in 0..64usize {
        let rook_mask = rook_mask_generation(i as i64);
        let bishop_mask = bishop_mask_generation(i as i64);
        assert!(rook_mask.count_ones() <= 12);
        assert!(bishop_mask.count_ones() <= 9);
        for pattern in generate_blocker_patterns(rook_mask) {
            assert_eq!(table.get_rook_attacks(i, pattern), rook_attacks(i as u8, pattern), "rook on {i}");
        }
        for pattern in generate_blocker_patterns(bishop_mask) {
            assert_eq!(table.get_bishop_attacks(i, pattern), bishop_attacks(i as u8, pattern), "bishop on {i}");
        }
    }
}

#[test]
fn line_masks_hold_the_lines() {
    let orth = horizontal_mask_generation();
    let diag = diagonal_mask_generation();
    assert_eq!(orth[0].count_ones(), 14);
    assert_eq!(diag[0].count_ones(), 7);
    assert_eq!(diag[27].count_ones(), 13);
}

#[test]
fn move_data_slides() {
    let data = MoveData::new();
    let a1 = index_from_coords("a1");
    let a8 = index_from_coords("a8");
    let h8 = index_from_coords("h8");
    let b3 = index_from_coords("b3");
    assert_eq!(data.is_slide_legal(a1, a8), (true, false));
    assert_eq!(data.is_slide_legal(h8, a1), (false, true));
    assert_eq!(data.is_slide_legal(a1, b3), (false, false));
    assert_eq!(data.get_slide_inbetween(a1, a8).count_ones(), 6);
    assert_eq!(data.get_slide_inbetween(a8, a1), data.get_slide_inbetween(a1, a8));
    assert_eq!(data.get_slide_inbetween(a1, b3), 0);
    assert_eq!(data.knight_moves[0].count_ones(), 2);
    assert_eq!(data.king_moves[0].count_ones(), 3);
    assert_eq!(data.white_pawn_moves[index_from_coords("e2") as usize].count_ones(), 2);
    assert_eq!(data.black_pawn_captures[index_from_coords("a7") as usize].count_ones(), 1);
}

#[test]
fn threat_board_of_the_start_position() {
    let board = BoardRep::from_fen("rnbqkbnr/pppppppp/8/8/8/8/PPPPPPPP/RNBQKBNR w KQkq - 0 1".into());
    let white = generate_threat_board(false, board.white_occupancy, board);
    // every square of the second and third ranks, and the first rank but the corners
    assert_eq!(white, 0x0000000000ffff7e);
}

#[test]
fn eval_metrics_follow_the_colour() {
    let friendly = KingPositionAnalysis { check: false, double_check: false, threat_source: None, pins: Vec::new() };
    let opponent = KingPositionAnalysis { check: false, double_check: false, threat_source: None, pins: Vec::new() };
    let m = build_move_generation_eval_metrics(true, &friendly, &opponent, 5, 9);
    assert_eq!(m.black_threatboard, 5);
    assert_eq!(m.white_threatboard, 9);
    let d = MoveGenerationEvalMetrics::default();
    assert_eq!(d.white_threatboard, 0);
}

#[test]
fn perft_of_the_start_position() {
    let origin = GameState::new("rnbqkbnr/pppppppp/8/8/8/8/PPPPPPPP/RNBQKBNR w KQkq - 0 1".into()).unwrap();
    let mut lines = root_lines(&origin);
    assert_eq!(lines.len(), 20);
    assert_eq!(deepen(&mut lines), 400);
    assert_eq!(deepen(&mut lines), 8902);
    assert!(lines.iter().all(|l| l.count == l.states.len()));
}

#[test]
fn match_starts_at_the_start() {
    let m = Match::default();
    assert_eq!(m.current_game_state.full_moves, 1);
}

fn bishop_patterns_and_attacks(square: i64) -> (Vec<u64>, Vec<u64>) {
    let patterns = generate_blocker_patterns(bishop_mask_generation(square));
    let attacks = patterns.iter().map(|p| generate_legal_bishop_moves(square, *p)).collect();
    (patterns, attacks)
}

fn rook_patterns_and_attacks(square: i64) -> (Vec<u64>, Vec<u64>) {
    let patterns = generate_blocker_patterns(rook_mask_generation(square));
    let attacks = patterns.iter().map(|p| rook_attacks(square as u8, *p)).collect();
    (patterns, attacks)
}

#[test]
fn stored_magics_fit_their_squares() {
    for square in [0i64, 9, 27, 36, 63] {
        let (patterns, attacks) = bishop_patterns_and_attacks(square);
        assert!(magic_fits(&patterns, &attacks, BISHOP_MAGIC[square as usize], BISHOP_LEFT_SHIFT_BITS[square as usize]));
        let (patterns, attacks) = rook_patterns_and_attacks(square);
        assert!(magic_fits(&patterns, &attacks, ROOK_MAGIC[square as usize], ROOK_LEFT_SHIFT_BITS[square as usize]));
    }
}

#[test]
fn a_zero_multiplier_puts_every_pattern_in_one_slot() {
    let (patterns, attacks) = bishop_patterns_and_attacks(27);
    assert!(!magic_fits(&patterns, &attacks, 0, BISHOP_LEFT_SHIFT_BITS[27]));
    assert!(magic_fits(&patterns[..1].to_vec(), &attacks[..1].to_vec(), 0, BISHOP_LEFT_SHIFT_BITS[27]));
}

#[test]
fn found_bishop_magic_fits() {
    let square = 0i64;
    let bits = BISHOP_LEFT_SHIFT_BITS[0];
    let magic = find_bishop_magics(square, bits);
    assert_ne!(magic, 0);
    let (patterns, attacks) = bishop_patterns_and_attacks(square);
    assert!(magic_fits(&patterns, &attacks, magic, bits));
    let mask = bishop_mask_generation(square);
    assert!((mask.wrapping_mul(magic) & 0xFF00000000000000).count_ones() >= 6);
}

#[test]
fn found_rook_magic_fits() {
    let square = 35i64;
    let bits = ROOK_LEFT_SHIFT_BITS[35];
    let magic = find_rook_magics(square, bits);
    assert_ne!(magic, 0);
    let (patterns, attacks) = rook_patterns_and_attacks(square);
    assert!(magic_fits(&patterns, &attacks, magic, bits));
}

use ch_imp::board_rep::BoardRep;
use ch_imp::move_segment::{MoveSegment, MoveSegmentType};
use ch_imp::piece_type::PieceType;
use ch_imp::zorb_set::ZorbSet;
use ch_imp::pawn_structure::PawnZorb;

#[test]
pub fn hash_should_differ_based_on_ep_position() {
    let board_rep = BoardRep::default();
    let board_rep_ep_0 =
    BoardRep::from_fen("rnbqkbnr/pppppppp/8/8/8/8/PPPPPPPP/RNBQKBNR w KQkq h3".into());
    let board_rep_ep_5 =
    BoardRep::from_fen("rnbqkbnr/pppppppp/8/8/8/8/PPPPPPPP/RNBQKBNR w KQkq c3".into());

    assert_ne!(
        board_rep.zorb_key, board_rep_ep_0.zorb_key,
        "No ep and ep=0 should not match"
    );
    assert_ne!(
        board_rep_ep_5.zorb_key, board_rep_ep_0.zorb_key,
        "Ep=5 and ep=0 should not match"
    );
    assert_ne!(
        board_rep.zorb_key, board_rep_ep_5.zorb_key,
        "No ep and ep=5 should not match"
    );
}

#[test]
pub fn shift_by_move_segment() {
    let zorb_set = ZorbSet::new();
    let origin_board_rep = BoardRep::from_fen(
        "rnbq1rk1/ppp2pbp/3p1np1/4p3/2PPP3/2N2N2/PP2BPPP/R1BQ1RK1 b KQkq -".into(),
    );
    let origin_hash = zorb_set.hash(&origin_board_rep);

    // Pickup
    let mut result_hash = zorb_set.shift(
        origin_hash,
        MoveSegment {
            segment_type: MoveSegmentType::Pickup,
            index: 48,
            piece_type: PieceType::Pawn,
            black_piece: true,
        },
    );
    // Place
    result_hash = zorb_set.shift(
        result_hash,
        MoveSegment {
            segment_type: MoveSegmentType::Place,
            index: 40,
            piece_type: PieceType::Pawn,
            black_piece: true,
        },
    );
    // Switch active player
    result_hash = zorb_set.colour_shift(result_hash);

    let expected_board_rep = BoardRep::from_fen(
        "rnbq1rk1/ppp2pb1/3p1npp/4p3/2PPP3/2N2N2/PP2BPPP/R1BQ1RK1 w KQkq -".into(),
    );
    let expected_hash = zorb_set.hash(&expected_board_rep);

    assert_eq!(result_hash, expected_hash);
}

#[test]
pub fn shift_by_move_segment_opening_and_retreating_knights() {
    let zorb_set = ZorbSet::new();
    let origin_board_rep = BoardRep::default();
    let origin_hash = zorb_set.hash(&origin_board_rep);

    // Pickup Knight
    let mut result_hash = zorb_set.shift(
        origin_hash,
        MoveSegment {
            segment_type: MoveSegmentType::Pickup,
            index: 1,
            piece_type: PieceType::Knight,
            black_piece: false,
        },
    );
    // Place
    result_hash = zorb_set.shift(
        result_hash,
        MoveSegment {
            segment_type: MoveSegmentType::Place,
            index: 16,
            piece_type: PieceType::Knight,
            black_piece: false,
        },
    );
    // Switch active player
    result_hash = zorb_set.colour_shift(result_hash);
    // Pickup Knight
    let mut result_hash = zorb_set.shift(
        result_hash,
        MoveSegment {
            segment_type: MoveSegmentType::Pickup,
            index: 62,
            piece_type: PieceType::Knight,
            black_piece: true,
        },
    );
    // Place
    result_hash = zorb_set.shift(
        result_hash,
        MoveSegment {
            segment_type: MoveSegmentType::Place,
            index: 47,
            piece_type: PieceType::Knight,
            black_piece: true,
        },
    );
    // Switch active player
    result_hash = zorb_set.colour_shift(result_hash);
    // Pickup Knight
    let mut result_hash = zorb_set.shift(
        result_hash,
        MoveSegment {
            segment_type: MoveSegmentType::Pickup,
            index: 16,
            piece_type: PieceType::Knight,
            black_piece: false,
        },
    );
    // Place
    result_hash = zorb_set.shift(
        result_hash,
        MoveSegment {
            segment_type: MoveSegmentType::Place,
            index: 1,
            piece_type: PieceType::Knight,
            black_piece: false,
        },
    );
    // Switch active player
    result_hash = zorb_set.colour_shift(result_hash);
    // Pickup Knight
    let mut result_hash = zorb_set.shift(
        result_hash,
        MoveSegment {
            segment_type: MoveSegmentType::Pickup,
            index: 47,
            piece_type: PieceType::Knight,
            black_piece: true,
        },
    );
    // Place
    result_hash = zorb_set.shift(
        result_hash,
        MoveSegment {
            segment_type: MoveSegmentType::Place,
            index: 62,
            piece_type: PieceType::Knight,
            black_piece: true,
        },
    );
    // Switch active player
    result_hash = zorb_set.colour_shift(result_hash);

    let expected_hash = zorb_set.hash(&origin_board_rep);

    assert_eq!(result_hash, expected_hash);
}

// #[test]
// pub fn zorb_sequence_test_case_0() {
//     // In this black will move their king-side rook out and then back in - this should result in two different codes
//     let original_position =
//         Position::from_fen("rnbqkbnr/ppppppp1/8/7p/4P3/8/PPPP1PPP/RNBQKBNR w KQkq -".into());
//     let moves = [
//         Move::new(
//             index_from_coords("f1"),
//             index_from_coords("e2"),
//             0b0,
//             PieceType::Bishop,
//             false,
//         ),
//         Move::new(
//             index_from_coords("h8"),
//             index_from_coords("h7"),
//             0b0,
//             PieceType::Rook,
//             true,
//         ),
//         Move::new(
//             index_from_coords("e2"),
//             index_from_coords("f1"),
//             0b0,
//             PieceType::Bishop,
//             false,
//         ),
//         Move::new(
//             index_from_coords("h7"),
//             index_from_coords("h8"),
//             0b0,
//             PieceType::Rook,
//             true,
//         ),
//     ];
//     let mut position = original_position;
//     for m in moves {
//         position = position.make(m);
//     }
//     assert_ne!(
//         position.zorb_key, original_position.zorb_key,
//         "New zorb should not match original"
//     );

//     let new_position =
//         Position::from_fen("rnbqkbnr/ppppppp1/8/7p/4P3/8/PPPP1PPP/RNBQKBNR w KQq -".into());
//     assert_eq!(position.zorb_key, new_position.zorb_key)
// }

// #[test]
// pub fn zorb_sequence_test_case_1() {
//     // In this white has double pawn pushed leaving themself open to a EP capture, black does not capture, instead pushing forward a knight, white pushes their own knight, then both retreat

//     let original_position = Position::from_fen("1k6/8/8/5n2/6pP/8/8/1K2N3 b - h3".into());
//     let moves = [
//         Move::new(
//             index_from_coords("f5"),
//             index_from_coords("e3"),
//             0b0,
//             PieceType::Knight,
//             true,
//         ),
//         Move::new(
//             index_from_coords("e1"),
//             index_from_coords("c2"),
//             0b0,
//             PieceType::Knight,
//             false,
//         ),
//         Move::new(
//             index_from_coords("e3"),
//             index_from_coords("f5"),
//             0b0,
//             PieceType::Knight,
//             true,
//         ),
//         Move::new(
//             index_from_coords("c2"),
//             index_from_coords("e1"),
//             0b0,
//             PieceType::Knight,
//             false,
//         ),
//     ];

//     let mut position = original_position;
//     for m in moves {
//         position = position.make(m);
//     }
//     assert_ne!(position, original_position);
//     assert_ne!(
//         position.zorb_key, original_position.zorb_key,
//         "New zorb should not match original"
//     );
//     let new_position = Position::from_fen("1k6/8/8/5n2/6pP/8/8/1K2N3 b - -".into());
//     assert_eq!(position.zorb_key, new_position.zorb_key)
// }

#[test]
pub fn shifting_a_segment_twice_gives_the_hash_back() {
    let zorb_set = ZorbSet::new();
    let seg = MoveSegment { segment_type: MoveSegmentType::Place, index: 12, piece_type: PieceType::Rook, black_piece: true };
    let h = 0x1234_5678_9abc_def0u64;
    assert_ne!(zorb_set.shift(h, seg), h);
    assert_eq!(zorb_set.shift(zorb_set.shift(h, seg), seg), h);
    assert_eq!(zorb_set.colour_shift(zorb_set.colour_shift(h)), h);
}

#[test]
pub fn precomputed_keys_are_fixed() {
    let a = ZorbSet::precomputed();
    let b = ZorbSet::precomputed();
    let board = BoardRep::default();
    assert_eq!(a.hash(&board), b.hash(&board));
    assert_eq!(a.hash(&board), board.zorb_key);
}

#[test]
pub fn apply_segments_matches_single_shifts() {
    let zorb_set = ZorbSet::new();
    let board = BoardRep::default();
    let h = zorb_set.hash(&board);
    let pickup = MoveSegment { segment_type: MoveSegmentType::Pickup, index: 1, piece_type: PieceType::Knight, black_piece: false };
    let place = MoveSegment { segment_type: MoveSegmentType::Place, index: 16, piece_type: PieceType::Knight, black_piece: false };
    let segments = vec![pickup, place, MoveSegment::empty(), pickup];
    let expected = zorb_set.colour_shift(zorb_set.shift(zorb_set.shift(h, pickup), place));
    assert_eq!(zorb_set.apply_segments(h, &segments), expected);
}

#[test]
fn pawn_hash_shift_matches_the_toggled_pawns() {
    let z = PawnZorb::new();
    let pawns: u64 = 0x0000_0000_0000_FF00;
    let h = z.hash(pawns, 3);
    let moved = z.shift(z.shift(h, 12), 28);
    assert_eq!(moved, z.hash(pawns ^ (1u64 << 12) ^ (1u64 << 28), 3));
    assert_eq!(z.shift(moved, 28), z.hash(pawns ^ (1u64 << 12), 3));
}

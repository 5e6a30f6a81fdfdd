use ch_imp::attacked_by::AttackedBy;
use ch_imp::board_rep::BoardRep;
use ch_imp::board_utils::index_from_coords;
use ch_imp::piece_type::PieceType;
use ch_imp::see::{piece_safety, see_from_capture};

#[test]
pub fn see_from_capture_pawn_capture_with_no_en_prise() {
    // k7/8/8/4p3/3P4/8/8/K7 w - - 0 1
    // Attacking e5
    let friendly = AttackedBy {
        pawns: 1,
        knights: 0,
        rooks: 0,
        bishop: false,
        queen: false,
        king: false,
    };

    let opponent = AttackedBy {
        pawns: 0,
        knights: 0,
        rooks: 0,
        bishop: false,
        queen: false,
        king: false,
    };

    assert_eq!(
        see_from_capture(PieceType::Pawn, friendly, PieceType::Pawn, opponent),
        1
    )
}

#[test]
pub fn see_from_capture_pawn_equal_exchange() {
    // k7/8/3p4/4p3/3P4/8/8/K7 w - - 0 1
    // Attacking e5
    let friendly = AttackedBy {
        pawns: 1,
        knights: 0,
        rooks: 0,
        bishop: false,
        queen: false,
        king: false,
    };

    let opponent = AttackedBy {
        pawns: 1,
        knights: 0,
        rooks: 0,
        bishop: false,
        queen: false,
        king: false,
    };

    assert_eq!(
        see_from_capture(PieceType::Pawn, friendly, PieceType::Pawn, opponent),
        0
    )
}

#[test]
pub fn see_from_capture_pawn_winning_exchange() {
    // k7/8/3p4/4p3/3P4/8/4Q3/K7 w - - 0 1
    // Attacking e5
    let friendly = AttackedBy {
        pawns: 1,
        knights: 0,
        rooks: 0,
        bishop: false,
        queen: true,
        king: false,
    };

    let opponent = AttackedBy {
        pawns: 1,
        knights: 0,
        rooks: 0,
        bishop: false,
        queen: false,
        king: false,
    };

    assert_eq!(
        see_from_capture(PieceType::Pawn, friendly, PieceType::Pawn, opponent),
        1
    )
}

#[test]
pub fn see_from_capture_knight_for_pawn_exchange() {
    // k7/8/3p4/4p3/8/3N4/8/K7 w - - 0 1
    // Attacking e5
    let friendly = AttackedBy {
        pawns: 0,
        knights: 1,
        rooks: 0,
        bishop: false,
        queen: false,
        king: false,
    };

    let opponent = AttackedBy {
        pawns: 1,
        knights: 0,
        rooks: 0,
        bishop: false,
        queen: false,
        king: false,
    };

    assert_eq!(
        see_from_capture(PieceType::Knight, friendly, PieceType::Pawn, opponent),
        -2
    )
}

#[test]
pub fn see_from_capture_scenario_0() {
    // k3r3/6b1/3p4/4p3/3P2N1/8/4Q3/K7 w - - 0 1
    // attacking e5
    // after pawn exchange should stop as full exchange is losing
    let friendly = AttackedBy {
        pawns: 1,
        knights: 1,
        rooks: 0,
        bishop: false,
        queen: true,
        king: false,
    };

    let opponent = AttackedBy {
        pawns: 1,
        knights: 0,
        rooks: 1,
        bishop: true,
        queen: false,
        king: false,
    };

    assert_eq!(
        see_from_capture(PieceType::Pawn, friendly, PieceType::Pawn, opponent),
        0
    )
}

#[test]
pub fn see_from_capture_scenario_1() {
    // k3r3/6b1/8/4p3/6N1/8/4Q3/K7 w - - 0 1
    // attacking e5
    // knight capturing pawn but becoming en prise is a losing exchange
    let friendly = AttackedBy {
        pawns: 0,
        knights: 1,
        rooks: 0,
        bishop: false,
        queen: true,
        king: false,
    };

    let opponent = AttackedBy {
        pawns: 0,
        knights: 0,
        rooks: 1,
        bishop: true,
        queen: false,
        king: false,
    };

    assert_eq!(
        see_from_capture(PieceType::Knight, friendly, PieceType::Pawn, opponent),
        -2
    )
}

#[test]
pub fn see_from_capture_scenario_2() {
    // k3r3/8/8/4p3/6N1/8/4Q3/K7 w - - 0 1
    // attacking e5
    // knight capturing pawn is defended by queen and thus is winning
    let friendly = AttackedBy {
        pawns: 0,
        knights: 1,
        rooks: 0,
        bishop: false,
        queen: true,
        king: false,
    };

    let opponent = AttackedBy {
        pawns: 0,
        knights: 0,
        rooks: 1,
        bishop: false,
        queen: false,
        king: false,
    };

    assert_eq!(
        see_from_capture(PieceType::Knight, friendly, PieceType::Pawn, opponent),
        1
    )
}

#[test]
pub fn see_from_capture_scenario_3() {
    // k3r3/4r3/8/4p3/8/5N2/4Q3/K7 w - - 0 1
    // attacking e5
    // knight capturing pawn is defended by queen but queen taking leaves it en prise
    let friendly = AttackedBy {
        pawns: 0,
        knights: 1,
        rooks: 0,
        bishop: false,
        queen: true,
        king: false,
    };

    let opponent = AttackedBy {
        pawns: 0,
        knights: 0,
        rooks: 2,
        bishop: false,
        queen: false,
        king: false,
    };

    assert_eq!(
        see_from_capture(PieceType::Knight, friendly, PieceType::Pawn, opponent),
        -2
    )
}

#[test]
pub fn see_from_capture_scenario_4() {
    // 1r1q1rk1/1b1n1p1p/p2b1np1/3pN3/3P1P2/P1N5/3BB1PP/1R1Q1RK1 b - - 0 1
    // attacking e5
    // pawns defending knight attacked by knight and bishop should be equal terminating after pawn count take
    let friendly = AttackedBy {
        pawns: 0,
        knights: 1,
        rooks: 0,
        bishop: true,
        queen: true,
        king: false,
    };

    let opponent = AttackedBy {
        pawns: 2,
        knights: 0,
        rooks: 0,
        bishop: false,
        queen: false,
        king: false,
    };

    assert_eq!(
        see_from_capture(PieceType::Knight, friendly, PieceType::Bishop, opponent),
        0
    )
}


#[test]
pub fn piece_safety_bishop_safe_move() {
    // 1r1n1rk1/3qp2p/P2p2p1/1p6/5pP1/1p3P1P/5PB1/R1QR2K1 w - - 0 1
    // retreating to h1
    let board = BoardRep::from_fen("1r1n1rk1/3qp2p/P2p2p1/1p6/5pP1/1p3P1P/5PB1/R1QR2K1 w - - 0 1".into());

    let friendly = board.get_attacked_by(0, false);
    let opponent = board.get_attacked_by(0, true);

    assert_eq!(
        piece_safety(PieceType::Bishop, true, opponent, friendly),
        0
    )
}

#[test]
pub fn piece_safety_queen_unsafe_move() {
    // 1r1n1rk1/3qp2p/P2p2p1/1p6/5pP1/1p3P1P/5PB1/R1QR2K1 w - - 0 1
    // queen moving to unsafe c2 where a pawn can capture
    let board = BoardRep::from_fen("1r1n1rk1/3qp2p/P2p2p1/1p6/5pP1/1p3P1P/5PB1/R1QR2K1 w - - 0 1".into());

    let friendly = board.get_attacked_by(index_from_coords("c2"), false);
    let opponent = board.get_attacked_by(index_from_coords("c2"), true);

    assert_eq!(
        piece_safety(PieceType::Queen, true, opponent, friendly),
        -PieceType::Queen.exchange_value()
    )
}

#[test]
pub fn piece_safety_scenario_0() {
    // 1r1q1rk1/1b1n1p1p/p4np1/3pN3/Q2P1P2/b1N5/3BB1PP/1R3RK1 b - - 1
    // pawn threatened by queen and bishop but defended by bishop would be a negative exchange of a single pawn
    let board = BoardRep::from_fen("1r1q1rk1/1b1n1p1p/p4np1/3pN3/Q2P1P2/b1N5/3BB1PP/1R3RK1 b - - 1 2 ".into());

    let friendly: AttackedBy = board.get_attacked_by(index_from_coords("a6"), true);
    let opponent = board.get_attacked_by(index_from_coords("a6"), false);

    assert_eq!(
        piece_safety(PieceType::Pawn, false, opponent, friendly),
        -PieceType::Pawn.exchange_value()
    )
}

use ch_imp::attack_and_defend_lookups::AttackAndDefendTable;
use ch_imp::board_rep::BoardRep;
use ch_imp::board_utils::index_from_coords;

#[test]
pub fn double_pawn_attack() {
    let board = BoardRep::from_fen("k7/8/3p1pb1/4P3/8/2N5/8/K7 w - - 0 1".into());
    let r = board.get_attacked_by(index_from_coords("e5"), true);
    assert_eq!(r.pawns, 2);
    assert_eq!(r.knights, 0);
    assert_eq!(r.bishop, false);
    assert_eq!(r.rooks, 0);
    assert_eq!(r.queen, false);
}

#[test]
pub fn one_knight_defender() {
    let board = BoardRep::from_fen("k7/8/3p1pb1/4P3/8/3N4/8/K7 w - - 0 1".into());
    let r = board.get_attacked_by(index_from_coords("e5"), false);
    assert_eq!(r.pawns, 0);
    assert_eq!(r.knights, 1);
    assert_eq!(r.bishop, false);
    assert_eq!(r.rooks, 0);
    assert_eq!(r.queen, false);
}

#[test]
pub fn one_bishop_attacker() {
    let board = BoardRep::from_fen("k7/8/3p1pb1/4P3/8/3N4/8/K7 w - - 0 1".into());
    let r = board.get_attacked_by(index_from_coords("d3"), true);
    assert_eq!(r.pawns, 0);
    assert_eq!(r.knights, 0);
    assert_eq!(r.bishop, true);
    assert_eq!(r.rooks, 0);
    assert_eq!(r.queen, false);
}

#[test]
pub fn one_queen_defender() {
    let board = BoardRep::from_fen("k7/8/3p1pb1/4P3/8/3N4/8/K4Q2 w - - 0 1".into());
    let r = board.get_attacked_by(index_from_coords("d3"), false);
    assert_eq!(r.pawns, 0);
    assert_eq!(r.knights, 0);
    assert_eq!(r.bishop, false);
    assert_eq!(r.rooks, 0);
    assert_eq!(r.queen, true);
}

#[test]
pub fn stacked_rook_attackers() {
    let board = BoardRep::from_fen("k7/8/3p1pb1/4P3/4N3/8/3R4/K2R1Q2 w - - 0 1".into());
    let r = board.get_attacked_by(index_from_coords("d6"), false);
    assert_eq!(r.pawns, 1);
    assert_eq!(r.knights, 1);
    assert_eq!(r.bishop, false);
    assert_eq!(r.rooks, 2);
    assert_eq!(r.queen, false);
}

#[test]
pub fn unthreatened_square() {
    let board = BoardRep::from_fen("1nb1kbnr/pp1rpppp/8/2p5/4PP2/8/PPPqK1PP/R4BNR w k - 0 1".into());
    let r = board.get_attacked_by(index_from_coords("f3"), true);
    assert_eq!(r.pawns, 0);
    assert_eq!(r.knights, 0);
    assert_eq!(r.bishop, false);
    assert_eq!(r.rooks, 0);
    assert_eq!(r.queen, false);
    assert_eq!(r.king, false);
    assert!(!board.has_at_least_one_attacker(index_from_coords("f3"), true, true));
}

#[test]
pub fn queen_behind_bishop_counts_as_attacker() {
    let board = BoardRep::from_fen("1rq2rk1/4bp2/2np2p1/p1p1p3/P1PNP1P1/1PB2P2/1Q4P1/R2R1NK1 b - - 0 1".into());
    let r = board.get_attacked_by(index_from_coords("d4"), false);
    assert_eq!(r.pawns, 0);
    assert_eq!(r.knights, 0);
    assert_eq!(r.bishop, true);
    assert_eq!(r.rooks, 1);
    assert_eq!(r.queen, true);
    assert_eq!(r.king, false);
}

#[test]
pub fn queen_behind_rook_counts_as_attacker() {
    let board = BoardRep::from_fen("1rq2rk1/4bp2/2np2p1/p1p1p3/P1PNP1P1/1PB2P2/3R2P1/R2Q1NK1 b - - 0 1".into());
    let r = board.get_attacked_by(index_from_coords("d4"), false);
    assert_eq!(r.pawns, 0);
    assert_eq!(r.knights, 0);
    assert_eq!(r.bishop, true);
    assert_eq!(r.rooks, 1);
    assert_eq!(r.queen, true);
    assert_eq!(r.king, false);
}

#[test]
pub fn cached_attackers_agree_with_the_board() {
    let board = BoardRep::from_fen("k7/8/3p1pb1/4P3/4N3/8/3R4/K2R1Q2 w - - 0 1".into());
    let mut table = AttackAndDefendTable::new();
    let first = table.get_attacked_by(index_from_coords("d6"), board, false);
    let second = table.get_attacked_by(index_from_coords("d6"), board, false);
    assert_eq!(first, second);
    assert_eq!(first, board.get_attacked_by(index_from_coords("d6"), false));
    assert!(table.has_at_least_one_attacker(index_from_coords("d6"), false, false, board));
}

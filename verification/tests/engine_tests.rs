use ch_imp::board_rep::BoardRep;
use ch_imp::chess_move::Move;
use ch_imp::constants::MF_DOUBLE_PAWN_PUSH;
use ch_imp::engine::{ChimpEngine, AB_MAX, AB_MIN};
use ch_imp::move_generation::generate_moves_for_board;
use ch_imp::move_orderer::MoveOrderer;
use ch_imp::game_state::GameState;
use ch_imp::piece_type::PieceType;
use ch_imp::position::Position;
use ch_imp::search_tables::{KillerStore, NodeType, PositionCache, TranspositionTable};
use ch_imp::test_suite::{find_text, get_command_pos, test_passes, trim_command, trim_id, CommandType};
use ch_imp::text::{eq_ignore_ascii_case, same_text};
use ch_imp::zorb_set::ZorbSet;

#[test]
fn move_hash_matches_the_hash_of_the_new_board() {
    let board = BoardRep::from_fen("rnbqkbnr/pppppppp/8/8/8/8/PPPPPPPP/RNBQKBNR w KQkq - 0 1".into());
    let m = Move::new(11, 27, MF_DOUBLE_PAWN_PUSH, PieceType::Pawn, false, 0, 0);
    let (key, segments) = board.zorb_key_after_move(m);
    let after = board.apply_segments(&segments, key);
    let zorb = ZorbSet::precomputed();
    assert_eq!(zorb.hash(&after), after.zorb_key);
    let expected = BoardRep::from_fen("rnbqkbnr/pppppppp/8/8/4P3/8/PPPP1PPP/RNBQKBNR b KQkq e3 0 1".into());
    assert_eq!(after.zorb_key, expected.zorb_key);
}

#[test]
fn position_cache_reads_back_what_it_recorded() {
    let mut cache = PositionCache::new();
    let p = Position::default();
    let key = p.board.zorb_key;
    assert!(cache.lookup(key).is_none());
    cache.record(key, p);
    assert_eq!(cache.lookup(key), Some(p));
    assert_eq!(cache.hits, 1);
    assert_eq!(cache.misses, 1);
    assert!(cache.lookup(key ^ 1).is_none());
}

#[test]
fn transposition_table_answers_exact_entries() {
    let mut table = TranspositionTable::new();
    let m = Move::new(11, 27, MF_DOUBLE_PAWN_PUSH, PieceType::Pawn, false, 0, 0);
    table.record(42, 3, 17, NodeType::PVNode, Some(m));
    assert_eq!(table.lookup(42, 3, -100, 100), Some((17, m)));
    assert_eq!(table.lookup(42, 4, -100, 100), None);
    assert_eq!(table.get_move(42), Some(m));
}

#[test]
fn killer_store_keeps_moves_by_ply() {
    let mut store = KillerStore::new();
    let m = Move::new(1, 18, 0, PieceType::Knight, false, 0, 0);
    store.set(2, m);
    assert_eq!(store.get_ply(2).get(0), Some(m));
    assert_eq!(store.get_ply(3).get(0), None);
}

#[test]
fn engine_move_time_follows_the_clock() {
    let engine = ChimpEngine::new();
    assert_eq!(engine.move_time(5000, 0, -1, -1), 5000);
    assert_eq!(engine.move_time(100, 100, 300, 300), 200);
    assert_eq!(engine.move_time(60000, 60000, 1000, 1000), 6000);
}

#[test]
fn engine_position_plays_the_listed_moves() {
    let mut engine = ChimpEngine::new();
    let words: Vec<String> = vec!["startpos".into(), "moves".into(), "e2e4".into(), "e7e5".into()];
    engine.position(&words);
    assert_eq!(engine.moves.len(), 2);
    assert!(!engine.black_turn());
    let again: Vec<String> = vec!["STARTPOS".into()];
    engine.position(&again);
    assert_eq!(engine.current_game_state.full_moves, 1);
}

#[test]
fn engine_position_skips_a_move_into_check() {
    let mut engine = ChimpEngine::new();
    let words: Vec<String> =
        vec!["startpos".into(), "moves".into(), "e2e4".into(), "f7f6".into(), "d1h5".into(), "e8f7".into()];
    engine.position(&words);
    assert_eq!(engine.moves.len(), 3);
    assert!(engine.black_turn());
    assert!(engine.current_game_state.position.black_in_check);
}

#[test]
fn engine_finds_a_move_quickly() {
    let mut engine = ChimpEngine::from_position("4k3/8/8/8/8/8/4Q3/4K3 w - - 0 1".into()).unwrap();
    let (best, _ponder) = engine.go(200, 200, -1, -1);
    assert!(!best.is_empty());
}

#[test]
fn suite_lines_are_read() {
    let line = "2k4r/1pr1n3/p1p1q2p/5pp1/3P1P2/P1P1P3/1R2Q1PP/1RB3K1 w - - bm Rxb7; id \"position 11\";";
    assert_eq!(find_text(line, "xx"), None);
    let (command, pos) = get_command_pos(line);
    assert_eq!(command, CommandType::Bm);
    assert_eq!(pos, 59);
    assert_eq!(trim_command("bm Rxb7; ".to_string()), "Rxb7");
    assert_eq!(trim_id("id \"position 11\";".to_string()), "position 11");
    assert!(test_passes(CommandType::Bm, "Rxb7", "Rxb7"));
    assert!(test_passes(CommandType::Am, "Qe4", "Rxb7"));
}

#[test]
fn text_comparisons() {
    assert!(eq_ignore_ascii_case("StartPos", "startpos"));
    assert!(!eq_ignore_ascii_case("start", "startpos"));
    assert!(same_text("abc", "abc"));
    assert!(!same_text("abc", "abd"));
}

#[test]
fn game_state_default_is_the_start() {
    let g = GameState::default();
    assert_eq!(g.half_moves, 0);
    assert_eq!(g.full_moves, 1);
}


#[test]
fn orderer_offers_pv_then_hash_move_then_the_rest() {
    let position = Position::from_fen("rnbqkbnr/pppppppp/8/8/8/8/PPPPPPPP/RNBQKBNR w KQkq - 0 1".into()).unwrap();
    let generated = generate_moves_for_board(position.board);
    let pv = generated[5];
    let hm = generated[2];
    let mut orderer = MoveOrderer::new(Some(&pv), Some(hm), position);
    assert_eq!(orderer.next_move(), Some(pv));
    assert_eq!(orderer.next_move(), Some(hm));
    let mut rest = Vec::new();
    while let Some(m) = orderer.next_move() {
        rest.push(m);
    }
    let expected: Vec<Move> = generated.iter().copied().filter(|m| *m != pv && *m != hm).collect();
    assert_eq!(rest, expected);
    assert_eq!(orderer.next_move(), None);
}

#[test]
fn orderer_skips_an_illegal_pv() {
    let position = Position::from_fen("rnbqkbnr/pppppppp/8/8/8/8/PPPPPPPP/RNBQKBNR w KQkq - 0 1".into()).unwrap();
    let generated = generate_moves_for_board(position.board);
    let illegal = Move::new(8, 40, 0, PieceType::Pawn, false, 0, 0);
    let mut orderer = MoveOrderer::new(Some(&illegal), None, position);
    assert_eq!(orderer.next_move(), Some(generated[0]));
}

#[test]
fn search_scores_checkmate_lowest() {
    let mut engine =
        ChimpEngine::from_position("rnb1kbnr/pppp1ppp/8/4p3/6Pq/5P2/PPPPP2P/RNBQKBNR w KQkq - 1 3".into()).unwrap();
    let game = engine.current_game_state;
    let (value, line) = engine.alpha_beta_search(&game, &|| false, 2, 0, AB_MIN, AB_MAX, &Vec::new(), 0);
    assert_eq!(value, AB_MIN);
    assert!(line.is_empty());
}

#[test]
fn search_scores_stalemate_zero() {
    let mut engine = ChimpEngine::from_position("7k/5Q2/6K1/8/8/8/8/8 b - - 0 1".into()).unwrap();
    let game = engine.current_game_state;
    let (value, line) = engine.alpha_beta_search(&game, &|| false, 2, 0, AB_MIN, AB_MAX, &Vec::new(), 0);
    assert_eq!(value, 0);
    assert!(line.is_empty());
}

#[test]
fn capture_search_stands_pat_without_captures() {
    let mut engine = ChimpEngine::new();
    let game = engine.current_game_state;
    let (value, line) = engine.quiescence_search(&game, &|| false, AB_MIN, AB_MAX);
    assert!(line.is_empty());
    assert!(value > AB_MIN && value < AB_MAX);
}

pub mod text;
pub mod board_utils;
pub mod piece_type;
pub mod constants;
pub mod bitboard;
pub mod attacked_by;
pub mod see;
pub mod chess_move;
pub mod move_segment;
pub mod attacks;
pub mod zorb_set;
pub mod board_rep;
pub mod king_analysis;
pub mod attack_and_defend_lookups;
pub mod square_scores;
pub mod move_generation;
pub mod evaluation;
pub mod legal_move;
pub mod position;
pub mod make_move;
pub mod game_state;
pub mod san;
pub mod pawn_files;
pub mod eval_terms;
pub mod pawn_structure;
pub mod search_tables;
pub mod move_orderer;
pub mod engine;
pub mod opening_terms;
pub mod magic;
pub mod move_data;
pub mod threat_board;
pub mod perft;
pub mod incremental_hash;
pub mod test_suite;
pub mod eval_utils;

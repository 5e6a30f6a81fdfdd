use vstd::prelude::*;
use crate::board_utils::{get_rank, rank_of};
use crate::chess_move::Move;
use crate::game_state::{GameState, leaves_king_in_check, result_state};
use crate::make_move::{after_segments_spec, move_segments_spec};
use crate::move_generation::{all_from_own_pieces, generate_moves_for_board, moves_by};
use crate::move_orderer::MoveOrderer;
use crate::piece_type::PieceType;
use crate::position::Position;
use crate::search_tables::{KillerStore, MovesCache, NodeType, PositionCache, TranspositionTable};
use crate::text::{chars_of, eq_ignore_ascii_case, eq_ignoring_ascii_case, same_text};
use crate::game_state::{coords_ok, coords_index};
use crate::piece_type::piece_from_char_spec;
use std::time::{Duration, Instant};

verus! {

/// The lowest search value.
pub const AB_MIN: i16 = -32767;

/// The highest search value.
pub const AB_MAX: i16 = 32767;

/// The most plies that a line may be extended by.
pub const MAX_EXTENSIONS: u8 = 12;

/// The most plies that the capture search goes below the main search.
pub const MAX_QUIESCENCE_PLY: u8 = 64;

/// A chess engine: the game so far, the moves played, the best line of the last search, and
/// its tables.
pub struct ChimpEngine {
    pub current_game_state: GameState,
    pub moves: Vec<Move>,
    pub previous_best_line: Vec<Move>,
    pub transposition_table: TranspositionTable,
    pub position_cache: PositionCache,
    pub moves_cache: MovesCache,
    pub killer_store: KillerStore,
}

/// Whether a value lies in the search range.
pub open spec fn in_range(v: i16) -> bool {
    AB_MIN <= v <= AB_MAX
}

/// The evaluation of a position from the side to move, in the search range.
pub open spec fn subjective_eval_spec(p: Position) -> int {
    let e: int = if p.board.black_turn { -(p.eval as int) } else { p.eval as int };
    if e < AB_MIN { AB_MIN as int } else if e > AB_MAX { AB_MAX as int } else { e }
}

/// The evaluation from the side to move is the position's evaluation (from white's side) when
/// white is to move and its negation when black is, whenever it lies in the search range; and
/// handing the move to the other side negates it.
pub proof fn law_subjective_eval_sides(p: Position)
    ensures
        AB_MIN <= p.eval <= AB_MAX ==> subjective_eval_spec(p) == if p.board.black_turn { -(p.eval as int) } else { p.eval as int },
        subjective_eval_spec(
            (Position { board: (crate::board_rep::BoardRep { black_turn: !p.board.black_turn, ..p.board }), ..p }),
        ) == -subjective_eval_spec(p),
{
}

/// The evaluation of a position from the side to move (see `subjective_eval_spec`).
pub fn subjective_eval(p: &Position) -> (r: i16)
    ensures
        r == subjective_eval_spec(*p),
        in_range(r),
{
    let e: i64 = if p.board.black_turn { -(p.eval as i64) } else { p.eval as i64 };
    if e < AB_MIN as i64 {
        AB_MIN
    } else if e > AB_MAX as i64 {
        AB_MAX
    } else {
        e as i16
    }
}

/// How many plies a move extends the search by: one for a check, a promotion or a pawn
/// reaching the second or seventh rank, while the line has fewer than the most extensions.
pub open spec fn extension_spec(new_state: GameState, m: Move, total_extensions: u8) -> u8 {
    if total_extensions >= MAX_EXTENSIONS {
        0
    } else if new_state.position.black_in_check || new_state.position.white_in_check {
        1
    } else if m.flags_spec() & 8 == 8 {
        1
    } else if m.piece_spec() == PieceType::Pawn && (rank_of(m.to_spec() as int) == 1 || rank_of(m.to_spec() as int) == 6) {
        1
    } else {
        0
    }
}

/// How many plies a move extends the search by (see `extension_spec`).
pub fn get_extensions(new_state: &GameState, test_move: Move, total_extensions: u8) -> (r: u8)
    ensures
        r == extension_spec(*new_state, test_move, total_extensions),
        r <= 1,
{
    if total_extensions >= MAX_EXTENSIONS {
        return 0;
    }
    if new_state.position.black_in_check || new_state.position.white_in_check {
        return 1;
    }
    if test_move.is_promotion() {
        return 1;
    }
    let m_rank = get_rank(test_move.to());
    if test_move.piece_type() == PieceType::Pawn && (m_rank == 1 || m_rank == 6) {
        return 1;
    }
    0
}

impl GameState {
    /// The game after a move whose resulting position is given: none when that position
    /// leaves the mover in check; else the counters and recent moves updated as by `make`.
    pub fn after_position(&self, position: Position, m: Move) -> (r: Option<GameState>)
        requires
            position.wf(),
            self.half_moves < 255,
            self.full_moves < u32::MAX,
        ensures
            r is Some <==> position.legal_spec(),
            r matches Some(g) ==> {
                &&& g.wf()
                &&& g.result_ok()
                &&& g.position == position
                &&& g.half_moves == if m.capture_spec() || m.piece_spec() == PieceType::Pawn { 0 } else { self.half_moves + 1 }
                &&& g.full_moves == if self.position.board.black_turn { self.full_moves + 1 } else { self.full_moves as int }
            },
    {
        if !position.legal() {
            return None;
        }
        let half_moves: u8 = if m.is_capture() || m.piece_type() == PieceType::Pawn { 0 } else { self.half_moves + 1 };
        let full_moves: u32 = if self.position.board.black_turn { self.full_moves + 1 } else { self.full_moves };
        let recent_moves = [
            m,
            self.recent_moves[0],
            self.recent_moves[1],
            self.recent_moves[2],
            self.recent_moves[3],
            self.recent_moves[4],
        ];
        let result_state = result_state(half_moves, recent_moves, position);
        Some(GameState { position, half_moves, full_moves, recent_moves, result_state })
    }
}

/// Whether every value stored in a transposition table lies in the search range.
pub open spec fn tt_values_in_range(t: TranspositionTable) -> bool {
    forall|i: int| 0 <= i < t.table@.len() ==> (#[trigger] t.table@[i] matches Some(e) ==> in_range(e.value))
}

impl ChimpEngine {
    /// The engine's game and tables are well formed.
    pub open spec fn wf(&self) -> bool {
        &&& self.current_game_state.wf()
        &&& self.transposition_table.wf()
        &&& self.position_cache.wf()
        &&& self.moves_cache.wf()
        &&& self.killer_store.wf()
        &&& tt_values_in_range(self.transposition_table)
    }

    /// An engine at the starting position with empty tables.
    pub fn new() -> (r: ChimpEngine)
        ensures
            r.wf(),
            r.moves@.len() == 0,
            cache_holds_no_legal(r.position_cache),
            forall|b: crate::board_rep::BoardRep| #[trigger] moves_cache_fits(r.moves_cache, b),
    {
        let position_cache = PositionCache::new();
        let moves_cache = MovesCache::new();
        proof {
            assert forall|b: crate::board_rep::BoardRep| #[trigger] moves_cache_fits(moves_cache, b) by {
                let k = crate::search_tables::slot_of(b.zorb_key, crate::search_tables::MOVES_CACHE_SIZE);
                assert(moves_cache.slots()[k] is None);
            }
        }
        ChimpEngine {
            current_game_state: GameState::default(),
            moves: Vec::new(),
            previous_best_line: Vec::new(),
            transposition_table: TranspositionTable::new(),
            position_cache,
            moves_cache,
            killer_store: KillerStore::new(),
        }
    }

    /// An engine at the game of a FEN with empty tables; none when the FEN gives no game.
    pub fn from_position(fen: String) -> (r: Option<ChimpEngine>)
        ensures
            r matches Some(e) ==> e.wf() && e.moves@.len() == 0,
            r is Some <==> crate::game_state::fen_game_ok(fen@),
            r matches Some(e) ==> (crate::board_rep::BoardRep { zorb_key: 0, ..e.current_game_state.position.board })
                == crate::board_rep::fen_board_spec(fen@),
            r matches Some(e) ==> crate::game_state::counter_spec(crate::text::fields_of(fen@), 4, 0) == Some(
                e.current_game_state.half_moves as u32,
            ) && crate::game_state::counter_spec(crate::text::fields_of(fen@), 5, 1) == Some(e.current_game_state.full_moves),
    {
        match GameState::new(fen) {
            Some(current_game_state) => Some(
                ChimpEngine {
                    current_game_state,
                    moves: Vec::new(),
                    previous_best_line: Vec::new(),
                    transposition_table: TranspositionTable::new(),
                    position_cache: PositionCache::new(),
                    moves_cache: MovesCache::new(),
                    killer_store: KillerStore::new(),
                },
            ),
            None => None,
        }
    }

    /// Whether black is to move.
    pub fn black_turn(&self) -> (r: bool)
        ensures
            r == self.current_game_state.position.board.black_turn,
    {
        self.current_game_state.position.board.black_turn
    }
}

impl ChimpEngine {
    /// The moves of the side to move on a board, from the move cache when it holds them.
    pub fn get_moves(&mut self, board: crate::board_rep::BoardRep) -> (r: Vec<Move>)
        requires
            old(self).wf(),
            board.wf(),
        ensures
            final(self).wf(),
            final(self).current_game_state == old(self).current_game_state,
            final(self).moves == old(self).moves,
            final(self).previous_best_line == old(self).previous_best_line,
            ({
                let counted = old(self).moves_cache.hits < usize::MAX && old(self).moves_cache.misses < usize::MAX;
                if counted && old(self).moves_cache.lookup_spec(board.zorb_key) is Some {
                    r@ == old(self).moves_cache.lookup_spec(board.zorb_key)->0
                } else {
                    &&& moves_by(r@, board.black_turn)
                    &&& all_from_own_pieces(r@, board)
                    &&& exists|a: crate::king_analysis::KingPositionAnalysis|
                        #[trigger] crate::move_generation::friendly_analysis_ok(a, board) && forall|i: int|
                            0 <= i < r@.len() ==> #[trigger] crate::move_generation::generated_move_ok(
                                r@[i],
                                board,
                                a.threat_source,
                                a.pins@,
                            )
                    &&& final(self).moves_cache.lookup_spec(board.zorb_key) == Some(r@)
                }
            }),
            final(self).position_cache == old(self).position_cache,
            moves_cache_fits(old(self).moves_cache, board) ==> exists|a: crate::king_analysis::KingPositionAnalysis|
                #[trigger] crate::move_generation::friendly_analysis_ok(a, board) && forall|i: int|
                    0 <= i < r@.len() ==> crate::move_generation::generated_move_ok(r@[i], board, a.threat_source, a.pins@),
    {
        if self.moves_cache.hits < usize::MAX && self.moves_cache.misses < usize::MAX {
            match self.moves_cache.lookup(board.zorb_key) {
                Some(moves) => {
                    return moves;
                },
                None => {},
            }
        }
        let moves = generate_moves_for_board(board);
        let mut copy: Vec<Move> = Vec::new();
        let mut i: usize = 0;
        while i < moves.len()
            invariant
                i <= moves@.len(),
                copy@ == moves@.subrange(0, i as int),
            decreases moves@.len() - i,
        {
            copy.push(moves[i]);
            i = i + 1;
        }
        assert(copy@ =~= moves@);
        let ghost before = self.moves_cache;
        self.moves_cache.record(board.zorb_key, copy);
        proof {
            crate::search_tables::law_moves_cache_read_after_write(before, self.moves_cache, board.zorb_key, moves@);
        }
        moves
    }

    /// The game after a move, with the resulting position taken from the position cache when
    /// it holds one for the new hash; none when the move leaves the mover in check or the
    /// game's counters are full.
    pub fn make(&mut self, game_state: &GameState, m: Move) -> (r: Option<GameState>)
        requires
            old(self).wf(),
            game_state.wf(),
        ensures
            final(self).wf(),
            final(self).current_game_state == old(self).current_game_state,
            final(self).moves == old(self).moves,
            final(self).previous_best_line == old(self).previous_best_line,
            r matches Some(g) ==> g.wf() && g.result_ok(),
            game_state.half_moves >= 255 || game_state.full_moves >= u32::MAX ==> r is None,
            r matches Some(g) ==> {
                let b = game_state.position.board;
                &&& g.position.legal_spec()
                &&& g.half_moves == if m.capture_spec() || m.piece_spec() == PieceType::Pawn {
                    0
                } else {
                    game_state.half_moves + 1
                }
                &&& g.full_moves == if b.black_turn { game_state.full_moves + 1 } else { game_state.full_moves as int }
                &&& g.position.board == after_segments_spec(b, move_segments_spec(b, m), g.position.board.zorb_key)
                    || exists|i: int| 0 <= i < old(self).position_cache.slots().len() && #[trigger] old(self).position_cache.slots()[i] == Some(g.position)
            },
            ({
                let b = game_state.position.board;
                let key = key_after_move(b, m);
                let c = old(self).position_cache;
                let cached = if c.hits < usize::MAX && c.misses < usize::MAX { c.lookup_spec(key) } else { None };
                game_state.half_moves < 255 && game_state.full_moves < u32::MAX ==> match cached {
                    Some(p) => if p.board.wf() {
                        &&& r is None <==> !p.legal_spec()
                        &&& r matches Some(g) ==> g.position == p
                    } else {
                        &&& r is None <==> leaves_king_in_check(b, m)
                        &&& r matches Some(g) ==> g.position.board == after_segments_spec(b, move_segments_spec(b, m), key)
                            && g.position == crate::position::position_of(g.position.board)
                    },
                    None => {
                        &&& r is None <==> leaves_king_in_check(b, m)
                        &&& r matches Some(g) ==> g.position.board == after_segments_spec(b, move_segments_spec(b, m), key)
                            && g.position == crate::position::position_of(g.position.board)
                    },
                }
            }),
            cache_holds_no_legal(old(self).position_cache) && leaves_king_in_check(game_state.position.board, m) ==> r is None,
            r is None && cache_holds_no_legal(old(self).position_cache) ==> cache_holds_no_legal(final(self).position_cache),
            game_state.half_moves < 255 && game_state.full_moves < u32::MAX && !holds_valid_position(old(self).position_cache) ==> {
                &&& r is None <==> leaves_king_in_check(game_state.position.board, m)
                &&& r matches Some(g) ==> g.position.board == after_segments_spec(
                    game_state.position.board,
                    move_segments_spec(game_state.position.board, m),
                    g.position.board.zorb_key,
                )
            },
    {
        if game_state.half_moves >= 255 || game_state.full_moves >= u32::MAX {
            return None;
        }
        let (new_zorb, move_segments) = game_state.position.board.zorb_key_after_move(m);
        proof {
            let z = choose|z: crate::zorb_set::ZorbSet| z.is_fixed() && new_zorb == z.shift_all(game_state.position.board.zorb_key, move_segments@) ^ z.black_turn;
            lemma_fixed_keys_agree(z, game_state.position.board.zorb_key, move_segments@);
            assert(new_zorb == key_after_move(game_state.position.board, m));
        }
        let cached = if self.position_cache.hits < usize::MAX && self.position_cache.misses < usize::MAX {
            self.position_cache.lookup(new_zorb)
        } else {
            None
        };
        proof {
            crate::make_move::law_move_switches_turn(game_state.position.board, m, new_zorb);
        }
        let ghost cache0 = old(self).position_cache;
        let position = match cached {
            Some(p) => {
                if p.board.is_valid() {
                    proof {
                        let k = crate::search_tables::slot_of(new_zorb, crate::search_tables::POSITION_CACHE_SIZE);
                        assert(cache0.slots()[k] == Some(p));
                    }
                    p
                } else {
                    let board = game_state.position.board.apply_segments(&move_segments, new_zorb);
                    Position::build(board)
                }
            },
            None => {
                let board = game_state.position.board.apply_segments(&move_segments, new_zorb);
                let new_pos = Position::build(board);
                self.position_cache.record(new_zorb, new_pos);
                new_pos
            },
        };
        game_state.after_position(position, m)
    }
}

/// The fixed hash keys.
pub open spec fn fixed_keys() -> crate::zorb_set::ZorbSet {
    choose|z: crate::zorb_set::ZorbSet| z.is_fixed()
}

/// The hash of the board after a move, by the fixed keys.
pub open spec fn key_after_move(b: crate::board_rep::BoardRep, m: Move) -> u64 {
    fixed_keys().shift_all(b.zorb_key, move_segments_spec(b, m)) ^ fixed_keys().black_turn
}

/// Any set of fixed keys shifts a hash as the chosen one does.
proof fn lemma_fixed_keys_agree(z: crate::zorb_set::ZorbSet, key: u64, segs: Seq<crate::move_segment::MoveSegment>)
    requires
        z.is_fixed(),
    ensures
        z.shift_all(key, segs) == fixed_keys().shift_all(key, segs),
        z.black_turn == fixed_keys().black_turn,
    decreases segs.len(),
{
    let f = fixed_keys();
    assert(f.is_fixed());
    assert(z.table@ == f.table@);
    assert(z.ep_table@ == f.ep_table@);
    if segs.len() > 0 && segs[0].segment_type != crate::move_segment::MoveSegmentType::NoSegment {
        assert(z.shift_spec(key, segs[0]) == f.shift_spec(key, segs[0]));
        lemma_fixed_keys_agree(z, z.shift_spec(key, segs[0]), segs.drop_first());
    }
}

/// Whether a position cache holds a well-formed position in some slot.
pub open spec fn holds_valid_position(c: PositionCache) -> bool {
    exists|i: int| 0 <= i < c.slots().len() && (#[trigger] c.slots()[i] matches Some(p) && p.board.wf())
}

/// The line that a search starts from: the rest of the previous best line when the last move
/// played was its first move, else nothing.
pub open spec fn go_seed(e: ChimpEngine) -> Seq<Move> {
    if e.previous_best_line@.len() > 0 && e.moves@.len() > 0 && crate::game_state::same_move(
        e.moves@.last(),
        e.previous_best_line@[0],
    ) {
        e.previous_best_line@.drop_first()
    } else {
        seq![]
    }
}

/// Whether a cutoff test always says to stop.
pub open spec fn always_cuts_off<CutoffFunc: Fn() -> bool>(cutoff: &CutoffFunc) -> bool {
    forall|b: bool| #[trigger] cutoff.ensures((), b) ==> b
}

/// Whether a cutoff test can never say to stop.
pub open spec fn never_cuts_off<CutoffFunc: Fn() -> bool>(cutoff: &CutoffFunc) -> bool {
    forall|b: bool| #[trigger] cutoff.ensures((), b) ==> !b
}

/// Whether every move that the generator may give on a board (with a true analysis of the
/// king of the side to move) leaves that king in check; with `exchanges_only`, every such move
/// with a non-zero exchange value.
pub open spec fn no_playable_move(b: crate::board_rep::BoardRep, exchanges_only: bool) -> bool {
    forall|a: crate::king_analysis::KingPositionAnalysis, m: Move|
        #![trigger crate::move_generation::friendly_analysis_ok(a, b), crate::move_generation::generated_move_ok(m, b, a.threat_source, a.pins@)]
        crate::move_generation::friendly_analysis_ok(a, b) && crate::move_generation::generated_move_ok(
            m,
            b,
            a.threat_source,
            a.pins@,
        ) && (!exchanges_only || m.see_spec() != 0) ==> leaves_king_in_check(b, m)
}

/// Whether the position cache holds no well-formed position in which the side that has just
/// moved left its king out of check.
pub open spec fn cache_holds_no_legal(c: PositionCache) -> bool {
    forall|i: int|
        0 <= i < c.slots().len() && (#[trigger] c.slots()[i]) is Some && c.slots()[i]->0.board.wf() ==> !c.slots()[i]->0.legal_spec()
}

/// Whether the moves that the move cache would give for a board's hash (when its counters let
/// it answer and it holds some) are moves the generator may give on that board.
pub open spec fn moves_cache_fits(c: MovesCache, b: crate::board_rep::BoardRep) -> bool {
    c.hits < usize::MAX && c.misses < usize::MAX && c.lookup_spec(b.zorb_key) is Some ==> exists|a: crate::king_analysis::KingPositionAnalysis|
        #[trigger] crate::move_generation::friendly_analysis_ok(a, b) && forall|i: int|
            0 <= i < c.lookup_spec(b.zorb_key)->0.len() ==> crate::move_generation::generated_move_ok(
                c.lookup_spec(b.zorb_key)->0[i],
                b,
                a.threat_source,
                a.pins@,
            )
}

/// Whether a search on a board can find no move to play: no generated move (with
/// `exchanges_only`, no generated exchange) keeps the king out of check, and neither cache
/// can answer otherwise.
pub open spec fn search_finds_no_move(e: ChimpEngine, b: crate::board_rep::BoardRep, exchanges_only: bool) -> bool {
    &&& no_playable_move(b, exchanges_only)
    &&& cache_holds_no_legal(e.position_cache)
    &&& moves_cache_fits(e.moves_cache, b)
}

/// Moves equal as `==` compares them leave the king in check alike.
proof fn lemma_same_move_leaves(b: crate::board_rep::BoardRep, x: Move, m: Move)
    requires
        crate::game_state::same_move(x, m),
    ensures
        leaves_king_in_check(b, x) == leaves_king_in_check(b, m),
{
    crate::chess_move::lemma_same_code_same_fields(x, m);
    assert(move_segments_spec(b, x) =~= move_segments_spec(b, m));
}

/// What a capture search that is not cut off gives: a value within the window, at least the
/// side to move's evaluation when that is below beta (it may stand on it), and beta when the
/// evaluation reaches beta.
pub open spec fn quiescence_bounds(p: Position, alpha: i16, beta: i16, v: i16) -> bool {
    let e = subjective_eval_spec(p);
    &&& alpha <= v <= beta
    &&& e >= beta ==> v == beta
    &&& e < beta ==> v >= e
}

/// What the main search promises of its value `v` and line from the engine `e` on a game, to
/// a depth within the window alpha to beta (`never_cut`: the cutoff never fires): the
/// transposition table's answer when it has one; else at depth 0 the capture search's bounds;
/// else a value within the window, or the lowest value in check (0 out of check) with no line,
/// which is owed when no move can be found (see `search_finds_no_move`).
pub open spec fn search_outcome(
    e: ChimpEngine,
    game_state: GameState,
    never_cut: bool,
    depth: u8,
    alpha: i16,
    beta: i16,
    v: i16,
    line: Seq<Move>,
) -> bool {
    let key = game_state.position.board.zorb_key;
    let answer = crate::search_tables::tt_answer(e.transposition_table.entry_of(key), key, depth, alpha, beta);
    let mate = if game_state.position.black_in_check || game_state.position.white_in_check { AB_MIN as int } else { 0 };
    &&& in_range(v)
    &&& answer matches Some((eval, m)) ==> v == eval && line == seq![m]
    &&& answer is None && depth == 0 && never_cut ==> quiescence_bounds(game_state.position, alpha, beta, v)
    &&& answer is None && depth > 0 && never_cut ==> (alpha <= v <= beta) || (line.len() == 0 && v == mate)
    &&& answer is None && depth > 0 && never_cut && search_finds_no_move(e, game_state.position.board, false) ==> line.len() == 0
        && v == mate
}

/// A line: a move followed by the line that answers it.
fn prepend(m: Move, rest: Vec<Move>) -> (r: Vec<Move>)
    ensures
        r@ == seq![m] + rest@,
{
    let mut line: Vec<Move> = Vec::new();
    line.push(m);
    let mut rest = rest;
    line.append(&mut rest);
    line
}

impl ChimpEngine {
    /// The capture search: the side to move may stand on its evaluation or try each move with
    /// a non-zero exchange value, answered in turn, within the window alpha to beta (a value
    /// at or above beta gives beta); it stops with 0 once `cutoff` says so, and goes at most
    /// `ply_budget` plies deep.
    pub fn quiescence_search_limited<CutoffFunc: Fn() -> bool>(
        &mut self,
        game_state: &GameState,
        cutoff: &CutoffFunc,
        alpha: i16,
        beta: i16,
        ply_budget: u8,
    ) -> (r: (i16, Vec<Move>))
        requires
            old(self).wf(),
            game_state.wf(),
            in_range(alpha),
            in_range(beta),
            alpha < beta,
            forall|| #[trigger] cutoff.requires(()),
        ensures
            final(self).wf(),
            final(self).current_game_state == old(self).current_game_state,
            final(self).moves == old(self).moves,
            final(self).previous_best_line == old(self).previous_best_line,
            in_range(r.0),
            r.0 == 0 || (alpha <= r.0 <= beta),
            never_cuts_off(cutoff) ==> quiescence_bounds(game_state.position, alpha, beta, r.0),
            r.1@.len() > 0 ==> alpha < r.0 < beta && r.1@[0].see_spec() != 0,
            ply_budget == 0 ==> r.1@.len() == 0,
            never_cuts_off(cutoff) && subjective_eval_spec(game_state.position) < beta && search_finds_no_move(
                *old(self),
                game_state.position.board,
                true,
            ) ==> r.1@.len() == 0 && r.0 == if subjective_eval_spec(game_state.position) > alpha {
                subjective_eval_spec(game_state.position)
            } else {
                alpha as int
            },
            never_cuts_off(cutoff) && ply_budget == 0 ==> r.0 == if subjective_eval_spec(game_state.position) >= beta {
                beta as int
            } else if subjective_eval_spec(game_state.position) > alpha {
                subjective_eval_spec(game_state.position)
            } else {
                alpha as int
            },
        decreases ply_budget,
    {
        if cutoff() {
            return (0, Vec::new());
        }
        let stand_pat = subjective_eval(&game_state.position);
        if stand_pat >= beta {
            return (beta, Vec::new());
        }
        let mut a = alpha;
        if stand_pat > a {
            a = stand_pat;
        }
        let mut line: Vec<Move> = Vec::new();
        if ply_budget == 0 {
            return (a, line);
        }
        let ghost quiet_only = never_cuts_off(cutoff) && search_finds_no_move(*old(self), game_state.position.board, true);
        let moves = self.get_moves(game_state.position.board);
        proof {
            if quiet_only {
                let b = game_state.position.board;
                let wa = choose|wa: crate::king_analysis::KingPositionAnalysis|
                    #[trigger] crate::move_generation::friendly_analysis_ok(wa, b) && forall|j: int|
                        0 <= j < moves@.len() ==> crate::move_generation::generated_move_ok(moves@[j], b, wa.threat_source, wa.pins@);
                assert forall|j: int| 0 <= j < moves@.len() && moves@[j].see_spec() != 0 implies leaves_king_in_check(b, #[trigger] moves@[j]) by {
                    assert(crate::move_generation::generated_move_ok(moves@[j], b, wa.threat_source, wa.pins@));
                }
            }
        }
        let mut i: usize = 0;
        while i < moves.len()
            invariant
                quiet_only == (never_cuts_off(cutoff) && search_finds_no_move(*old(self), game_state.position.board, true)),
                quiet_only ==> line@.len() == 0 && a == (if stand_pat > alpha { stand_pat } else { alpha })
                    && cache_holds_no_legal(self.position_cache)
                    && forall|j: int| 0 <= j < moves@.len() && moves@[j].see_spec() != 0 ==> leaves_king_in_check(game_state.position.board, #[trigger] moves@[j]),
                i <= moves@.len(),
                self.wf(),
                self.current_game_state == old(self).current_game_state,
                self.moves == old(self).moves,
                self.previous_best_line == old(self).previous_best_line,
                game_state.wf(),
                in_range(a),
                in_range(beta),
                alpha <= a < beta,
                ply_budget > 0,
                forall|| #[trigger] cutoff.requires(()),
                stand_pat == subjective_eval_spec(game_state.position),
                stand_pat < beta,
                a >= stand_pat,
                line@.len() > 0 ==> alpha < a && line@[0].see_spec() != 0,
            decreases moves@.len() - i,
        {
            let m = moves[i];
            i = i + 1;
            if m.is_quiet() {
                continue;
            }
            proof {
                if quiet_only {
                    assert(leaves_king_in_check(game_state.position.board, m));
                }
            }
            let new_game_state = match self.make(game_state, m) {
                Some(gs) => gs,
                None => {
                    continue;
                },
            };
            assert(!quiet_only);
            let (opponent_val, search_line) = self.quiescence_search_limited(&new_game_state, cutoff, -beta, -a, ply_budget - 1);
            let val = -opponent_val;
            if val >= beta {
                return (beta, Vec::new());
            }
            if val > a {
                a = val;
                line = prepend(m, search_line);
            }
        }
        (a, line)
    }

    /// The capture search (see `quiescence_search_limited`), at most `MAX_QUIESCENCE_PLY`
    /// plies deep.
    pub fn quiescence_search<CutoffFunc: Fn() -> bool>(
        &mut self,
        game_state: &GameState,
        cutoff: &CutoffFunc,
        alpha: i16,
        beta: i16,
    ) -> (r: (i16, Vec<Move>))
        requires
            old(self).wf(),
            game_state.wf(),
            in_range(alpha),
            in_range(beta),
            alpha < beta,
            forall|| #[trigger] cutoff.requires(()),
        ensures
            final(self).wf(),
            final(self).current_game_state == old(self).current_game_state,
            final(self).moves == old(self).moves,
            final(self).previous_best_line == old(self).previous_best_line,
            in_range(r.0),
            r.0 == 0 || (alpha <= r.0 <= beta),
            never_cuts_off(cutoff) ==> quiescence_bounds(game_state.position, alpha, beta, r.0),
            r.1@.len() > 0 ==> alpha < r.0 < beta && r.1@[0].see_spec() != 0,
            never_cuts_off(cutoff) && subjective_eval_spec(game_state.position) < beta && search_finds_no_move(
                *old(self),
                game_state.position.board,
                true,
            ) ==> r.1@.len() == 0 && r.0 == if subjective_eval_spec(game_state.position) > alpha {
                subjective_eval_spec(game_state.position)
            } else {
                alpha as int
            },
    {
        self.quiescence_search_limited(game_state, cutoff, alpha, beta, MAX_QUIESCENCE_PLY)
    }
}

fn move_in(moves: &Vec<Move>, m: Move) -> (r: bool)
    ensures
        r == crate::move_orderer::contains_move(moves@, m),
{
    let mut i: usize = 0;
    while i < moves.len()
        invariant
            i <= moves@.len(),
            forall|j: int| 0 <= j < i ==> !crate::game_state::same_move(#[trigger] moves@[j], m),
        decreases moves@.len() - i,
    {
        if moves[i] == m {
            return true;
        }
        i = i + 1;
    }
    false
}

impl ChimpEngine {
    /// The main search, by negamax with alpha-beta pruning: a stored result of the
    /// transposition table answers at once; at depth 0 the capture search answers (and is
    /// stored); otherwise the moves, in the orderer's order, are searched with their
    /// extensions (late quiet moves first at reduced depth), a move at or above beta cuts off
    /// (stored, and kept as a killer when quiet), and the best move's value and line are
    /// returned and stored. With no legal move the value is the lowest in check, else 0. Once
    /// `cutoff` says so the search gives up with the lowest value.
    #[verifier::rlimit(40)]
    pub fn alpha_beta_search<CutoffFunc: Fn() -> bool>(
        &mut self,
        game_state: &GameState,
        cutoff: &CutoffFunc,
        depth: u8,
        ply: u8,
        alpha: i16,
        beta: i16,
        priority_line: &Vec<Move>,
        total_extensions: u8,
    ) -> (r: (i16, Vec<Move>))
        requires
            old(self).wf(),
            game_state.wf(),
            in_range(alpha),
            in_range(beta),
            alpha < beta,
            total_extensions <= MAX_EXTENSIONS,
            ply + depth + (MAX_EXTENSIONS - total_extensions) <= 240,
            forall|| #[trigger] cutoff.requires(()),
        ensures
            final(self).wf(),
            final(self).current_game_state == old(self).current_game_state,
            final(self).moves == old(self).moves,
            final(self).previous_best_line == old(self).previous_best_line,
            in_range(r.0),
            search_outcome(*old(self), *game_state, never_cuts_off(cutoff), depth, alpha, beta, r.0, r.1@),
        decreases depth + (MAX_EXTENSIONS - total_extensions),
    {
        let key = game_state.position.board.zorb_key;
        match self.transposition_table.lookup(key, depth, alpha, beta) {
            Some((eval, m)) => {
                proof {
                    let k = crate::search_tables::slot_of(key, crate::search_tables::TRANSPOSITION_TABLE_SIZE);
                    assert(self.transposition_table.table@[k] matches Some(e) ==> in_range(e.value));
                }
                let mut line: Vec<Move> = Vec::new();
                line.push(m);
                return (eval, line);
            },
            None => {},
        }
        if depth == 0 {
            let q_result = self.quiescence_search(game_state, cutoff, alpha, beta);
            let ghost before = self.transposition_table;
            self.transposition_table.record(key, depth, q_result.0, NodeType::PVNode, Some(game_state.recent_moves[0]));
            proof {
                assert(tt_values_in_range(self.transposition_table)) by {
                    let k = crate::search_tables::slot_of(key, crate::search_tables::TRANSPOSITION_TABLE_SIZE);
                    assert forall|i: int| 0 <= i < self.transposition_table.table@.len() implies (#[trigger] self.transposition_table.table@[i]
                        matches Some(e) ==> in_range(e.value)) by {
                        if i != k {
                            assert(self.transposition_table.table@[i] == before.table@[i]);
                        }
                    }
                }
            }
            return q_result;
        }
        if cutoff() {
            return (AB_MIN, Vec::new());
        }
        let mut node_type = NodeType::AllNode;
        let mut line: Vec<Move> = Vec::new();
        let mut has_legal_move = false;
        let mut a = alpha;
        let pv = if (ply as usize) < priority_line.len() {
            Some(&priority_line[ply as usize])
        } else {
            None
        };
        let hm = self.transposition_table.get_move(key);
        let board = game_state.position.board;
        let mut move_orderer = MoveOrderer::new(pv, hm, game_state.position);
        let ghost no_move = never_cuts_off(cutoff) && search_finds_no_move(*old(self), board, false);
        let legal_moves = self.get_moves(board);
        proof {
            if no_move {
                let wa = choose|wa: crate::king_analysis::KingPositionAnalysis|
                    #[trigger] crate::move_generation::friendly_analysis_ok(wa, board) && forall|j: int|
                        0 <= j < legal_moves@.len() ==> crate::move_generation::generated_move_ok(legal_moves@[j], board, wa.threat_source, wa.pins@);
                assert forall|j: int| 0 <= j < legal_moves@.len() implies leaves_king_in_check(board, #[trigger] legal_moves@[j]) by {
                    assert(crate::move_generation::generated_move_ok(legal_moves@[j], board, wa.threat_source, wa.pins@));
                }
            }
        }
        let mut move_index: usize = 0;
        let mut done = false;
        let mut steps: usize = 0;
        let bound = if legal_moves.len() < usize::MAX - 3 { legal_moves.len() + 3 } else { usize::MAX };
        while !done && steps < bound
            invariant
                self.wf(),
                self.current_game_state == old(self).current_game_state,
                self.moves == old(self).moves,
                self.previous_best_line == old(self).previous_best_line,
                game_state.wf(),
                move_orderer.wf(),
                in_range(a),
                in_range(beta),
                alpha <= a < beta,
                depth > 0,
                ply + depth + (MAX_EXTENSIONS - total_extensions) <= 240,
                total_extensions <= MAX_EXTENSIONS,
                line@.len() == 0 ==> node_type == NodeType::AllNode,
                node_type != NodeType::AllNode ==> line@.len() > 0,
                forall|| #[trigger] cutoff.requires(()),
                key == game_state.position.board.zorb_key,
                crate::search_tables::tt_answer(old(self).transposition_table.entry_of(key), key, depth, alpha, beta) is None,
                !has_legal_move ==> line@.len() == 0,
                board == game_state.position.board,
                no_move == (never_cuts_off(cutoff) && search_finds_no_move(*old(self), board, false)),
                no_move ==> !has_legal_move && cache_holds_no_legal(self.position_cache) && forall|j: int|
                    0 <= j < legal_moves@.len() ==> leaves_king_in_check(board, #[trigger] legal_moves@[j]),
            decreases bound - steps,
        {
            steps = steps + 1;
            let next = move_orderer.next_move();
            let m = match next {
                Some(m) => m,
                None => {
                    done = true;
                    break;
                },
            };
            if !move_in(&legal_moves, m) {
                continue;
            }
            proof {
                if no_move {
                    let j = choose|j: int| 0 <= j < legal_moves@.len() && crate::game_state::same_move(#[trigger] legal_moves@[j], m);
                    lemma_same_move_leaves(board, legal_moves@[j], m);
                }
            }
            proof {
                if no_move {
                    assert(leaves_king_in_check(game_state.position.board, m));
                    assert(cache_holds_no_legal(self.position_cache));
                }
            }
            let new_game_state = match self.make(game_state, m) {
                Some(s) => s,
                None => {
                    continue;
                },
            };
            assert(!no_move);
            has_legal_move = true;
            let extension = get_extensions(&new_game_state, m, total_extensions);
            let shallow = if extension == 0 && depth > 2 && move_index > 3 && m.is_quiet() {
                let (opponent_val, moves) = self.alpha_beta_search(
                    &new_game_state,
                    cutoff,
                    depth - 2,
                    ply + 1,
                    -beta,
                    -a,
                    priority_line,
                    total_extensions + extension,
                );
                let val = -opponent_val;
                if val > a {
                    None
                } else {
                    Some((val, moves))
                }
            } else {
                None
            };
            let (val, moves) = match shallow {
                Some(pair) => pair,
                None => {
                    let (opponent_val, moves) = self.alpha_beta_search(
                        &new_game_state,
                        cutoff,
                        depth - 1 + extension,
                        ply + 1,
                        -beta,
                        -a,
                        priority_line,
                        total_extensions + extension,
                    );
                    (-opponent_val, moves)
                },
            };
            move_index = if move_index < usize::MAX { move_index + 1 } else { move_index };
            if line.len() != 0 && cutoff() {
                done = true;
                break;
            }
            if val >= beta {
                let new_key = new_game_state.position.board.zorb_key;
                let ghost before = self.transposition_table;
                self.transposition_table.record(new_key, depth, beta, NodeType::CutNode, Some(m));
                proof {
                    let k = crate::search_tables::slot_of(new_key, crate::search_tables::TRANSPOSITION_TABLE_SIZE);
                    assert forall|i: int| 0 <= i < self.transposition_table.table@.len() implies (#[trigger] self.transposition_table.table@[i]
                        matches Some(e) ==> in_range(e.value)) by {
                        if i != k {
                            assert(self.transposition_table.table@[i] == before.table@[i]);
                        }
                    }
                }
                if !m.is_capture() {
                    self.killer_store.set(ply as usize, m);
                }
                return (beta, Vec::new());
            }
            if val > a {
                node_type = NodeType::PVNode;
                a = val;
                line = prepend(m, moves);
            }
        }
        if !has_legal_move {
            let v = if game_state.position.black_in_check || game_state.position.white_in_check { AB_MIN } else { 0 };
            return (v, line);
        }
        let best = if node_type == NodeType::AllNode { None } else { Some(line[0]) };
        let ghost before = self.transposition_table;
        self.transposition_table.record(key, depth, a, node_type, best);
        proof {
            let k = crate::search_tables::slot_of(key, crate::search_tables::TRANSPOSITION_TABLE_SIZE);
            assert forall|i: int| 0 <= i < self.transposition_table.table@.len() implies (#[trigger] self.transposition_table.table@[i]
                matches Some(e) ==> in_range(e.value)) by {
                if i != k {
                    assert(self.transposition_table.table@[i] == before.table@[i]);
                }
            }
        }
        (a, line)
    }
}

#[verifier::external_type_specification]
#[verifier::external_body]
pub struct ExInstant(std::time::Instant);

/// The current time.
/// Trusted: `std::time::Instant::now`; nothing is claimed of the result, which depends on the
/// clock.
#[verifier::external_body]
fn instant_now() -> Instant {
    Instant::now()
}

/// A time some milliseconds after another.
/// Trusted: `Instant::checked_add` with a duration of `ms` milliseconds; nothing is claimed of
/// the result, which depends on the platform's time representation.
#[verifier::external_body]
fn add_millis(t: &Instant, ms: u64) -> Option<Instant> {
    t.checked_add(Duration::from_millis(ms))
}

/// Whether one time comes after another.
/// Trusted: `Instant`'s `>` (`PartialOrd::gt`); nothing is claimed of the result, since the
/// library cannot see inside an `Instant`.
#[verifier::external_body]
fn is_after(a: &Instant, b: &Instant) -> bool {
    *a > *b
}

/// Whether the current time is past a deadline.
fn past(deadline: &Instant) -> bool {
    let now = instant_now();
    is_after(&now, deadline)
}

/// The time to think about a move: the given time when an increment is -1; otherwise for
/// the side to move two thirds of its increment when its time is below the increment, else
/// the larger of the increment less 50 and the smaller of a tenth of its time and the
/// increment plus a twelfth of its time.
pub open spec fn move_time_spec(black_turn: bool, wtime: int, btime: int, winc: int, binc: int) -> int {
    if winc == -1 || binc == -1 {
        wtime
    } else {
        let (time, inc) = if black_turn { (btime, binc) } else { (wtime, winc) };
        if time < inc {
            inc / 3 * 2
        } else {
            let a = inc - 50;
            let b = if time / 10 < inc + time / 12 { time / 10 } else { inc + time / 12 };
            if a > b { a } else { b }
        }
    }
}

impl ChimpEngine {
    /// The time to think about a move (see `move_time_spec`; times and increments are taken
    /// as non-negative where they are not -1).
    pub fn move_time(&self, wtime: i32, btime: i32, winc: i32, binc: i32) -> (r: i32)
        requires
            wtime >= 0,
            btime >= 0,
            winc >= -1,
            binc >= -1,
        ensures
            r == move_time_spec(self.current_game_state.position.board.black_turn, wtime as int, btime as int, winc as int, binc as int),
    {
        if winc == -1 || binc == -1 {
            wtime
        } else {
            let (time, inc) = if self.current_game_state.position.board.black_turn { (btime, binc) } else { (wtime, winc) };
            if time < inc {
                inc / 3 * 2
            } else {
                let a = inc - 50;
                let spread: i64 = inc as i64 + (time / 12) as i64;
                let b = if (time / 10) as i64 <= spread { time / 10 } else { spread as i32 };
                if a > b { a } else { b }
            }
        }
    }

    /// Deepening search: from one ply beyond the given line's length, the main search at each
    /// depth in turn until `cutoff` says so or depth 12, keeping the line of the last search
    /// that gave one (a line the main search's contract allows, see `search_outcome`); the
    /// given line when no search gave one.
    pub fn iterative_deepening<CutoffFunc: Fn() -> bool>(&mut self, cutoff: &CutoffFunc, priority_line: Vec<Move>) -> (r: Vec<Move>)
        requires
            old(self).wf(),
            forall|| #[trigger] cutoff.requires(()),
        ensures
            final(self).wf(),
            final(self).current_game_state == old(self).current_game_state,
            final(self).moves == old(self).moves,
            final(self).previous_best_line == old(self).previous_best_line,
            priority_line@.len() >= 12 ==> r@ == priority_line@,
            r@ == priority_line@ || r@.len() > 0,
            always_cuts_off(cutoff) ==> r@ == priority_line@ && *final(self) == *old(self),
            r@ != priority_line@ ==> exists|d: u8, e: ChimpEngine, v: i16|
                priority_line@.len() < d <= 12 && #[trigger] search_outcome(
                    e,
                    old(self).current_game_state,
                    never_cuts_off(cutoff),
                    d,
                    AB_MIN,
                    AB_MAX,
                    v,
                    r@,
                ),
            never_cuts_off(cutoff) && priority_line@.len() < 12 ==> (exists|d: u8, e: ChimpEngine, v: i16|
                priority_line@.len() < d <= 12 && #[trigger] search_outcome(
                    e,
                    old(self).current_game_state,
                    true,
                    d,
                    AB_MIN,
                    AB_MAX,
                    v,
                    r@,
                )) || (r@ == priority_line@ && exists|e: ChimpEngine, v: i16|
                #[trigger] search_outcome(
                    e,
                    old(self).current_game_state,
                    true,
                    (priority_line@.len() + 1) as u8,
                    AB_MIN,
                    AB_MAX,
                    v,
                    Seq::empty(),
                )),
    {
        let ghost given = priority_line@;
        let ghost g0 = self.current_game_state;
        let ghost nc = never_cuts_off(cutoff);
        let mut depth: u8 = if priority_line.len() < 12 { priority_line.len() as u8 } else { 12 };
        let ghost start = depth;
        let ghost mut from_search = false;
        let mut line = priority_line;
        let mut stop = false;
        while !stop && depth < 12
            invariant
                self.wf(),
                self.current_game_state == old(self).current_game_state,
                g0 == old(self).current_game_state,
                nc == never_cuts_off(cutoff),
                self.moves == old(self).moves,
                self.previous_best_line == old(self).previous_best_line,
                depth <= 12,
                start <= depth,
                given.len() < 12 ==> start == given.len(),
                forall|| #[trigger] cutoff.requires(()),
                given.len() >= 12 ==> depth == 12 && line@ == given,
                line@ == given || line@.len() > 0,
                always_cuts_off(cutoff) ==> line@ == given && *self == *old(self),
                !from_search ==> line@ == given,
                from_search ==> line@.len() > 0 && exists|d: u8, e: ChimpEngine, v: i16|
                    given.len() < d <= 12 && #[trigger] search_outcome(e, g0, nc, d, AB_MIN, AB_MAX, v, line@),
                nc && stop ==> depth > start,
                nc && !from_search && depth > start ==> exists|e: ChimpEngine, v: i16|
                    #[trigger] search_outcome(e, g0, true, (start + 1) as u8, AB_MIN, AB_MAX, v, Seq::empty()),
            decreases 12 - depth + if stop { 0int } else { 1 },
        {
            if cutoff() {
                stop = true;
            } else {
                depth = depth + 1;
                let game_state = self.current_game_state;
                let ghost e0 = *self;
                let result = self.alpha_beta_search(&game_state, cutoff, depth, 0, AB_MIN, AB_MAX, &line, 0);
                proof {
                    assert(search_outcome(e0, g0, nc, depth, AB_MIN, AB_MAX, result.0, result.1@));
                }
                if result.1.len() == 0 {
                    proof {
                        if nc && !from_search && depth == start + 1 {
                            assert(result.1@ =~= Seq::<Move>::empty());
                            assert(search_outcome(e0, g0, true, (start + 1) as u8, AB_MIN, AB_MAX, result.0, Seq::empty()));
                        }
                    }
                    stop = true;
                } else {
                    line = result.1;
                    proof {
                        from_search = true;
                    }
                }
            }
        }
        proof {
            if nc && given.len() < 12 {
                if from_search {
                    let (d, e, v) = choose|d: u8, e: ChimpEngine, v: i16|
                        given.len() < d <= 12 && #[trigger] search_outcome(e, g0, nc, d, AB_MIN, AB_MAX, v, line@);
                    assert(search_outcome(e, g0, true, d, AB_MIN, AB_MAX, v, line@));
                } else {
                    assert(depth > start);
                    let (e, v) = choose|e: ChimpEngine, v: i16| #[trigger] search_outcome(e, g0, true, (start + 1) as u8, AB_MIN, AB_MAX, v, Seq::empty());
                    assert((start + 1) as u8 == (given.len() + 1) as u8);
                    assert(search_outcome(e, g0, true, (given.len() + 1) as u8, AB_MIN, AB_MAX, v, Seq::empty()));
                }
            }
        }
        line
    }

    /// The best move and the expected reply after thinking for the time given by the clocks
    /// (see `move_time`), searching first the continuation of the last best line when the
    /// last move played followed it; the empty move when the search finds none.
    pub fn go(&mut self, wtime: i32, btime: i32, winc: i32, binc: i32) -> (r: (Move, Option<Move>))
        requires
            old(self).wf(),
            wtime >= 0,
            btime >= 0,
            winc >= -1,
            binc >= -1,
        ensures
            final(self).wf(),
            final(self).current_game_state == old(self).current_game_state,
            final(self).moves == old(self).moves,
            exists|line: Seq<Move>|
                {
                    &&& line == go_seed(*old(self)) || (line.len() > 0 && exists|d: u8, e: ChimpEngine, nc: bool, v: i16|
                        go_seed(*old(self)).len() < d <= 12 && #[trigger] search_outcome(
                            e,
                            old(self).current_game_state,
                            nc,
                            d,
                            AB_MIN,
                            AB_MAX,
                            v,
                            line,
                        ))
                    &&& #[trigger] line.len() == 0 ==> r.0.code() == 0 && r.1 is None && final(self).previous_best_line
                        == old(self).previous_best_line
                    &&& line.len() > 0 ==> r.0 == line[0] && r.1 == (if line.len() > 1 { Some(line[1]) } else { None::<Move> })
                        && final(self).previous_best_line@ == line.drop_first()
                },
    {
        let ms = self.move_time(wtime, btime, winc, binc);
        let now = instant_now();
        let deadline = match add_millis(&now, if ms > 0 { ms as u64 } else { 0 }) {
            Some(t) => t,
            None => now,
        };
        let previous_line = if self.previous_best_line.len() > 0 && self.moves.len() > 0 && self.moves[self.moves.len() - 1]
            == self.previous_best_line[0] {
            let mut rest: Vec<Move> = Vec::new();
            let mut i: usize = 1;
            while i < self.previous_best_line.len()
                invariant
                    1 <= i <= self.previous_best_line@.len(),
                    rest@ == self.previous_best_line@.subrange(1, i as int),
                decreases self.previous_best_line@.len() - i,
            {
                rest.push(self.previous_best_line[i]);
                i = i + 1;
            }
            assert(rest@ =~= self.previous_best_line@.drop_first());
            rest
        } else {
            Vec::new()
        };
        assert(previous_line@ =~= go_seed(*old(self)));
        let cutoff = || past(&deadline);
        let eval_result = self.iterative_deepening(&cutoff, previous_line);
        if eval_result.len() == 0 {
            assert(eval_result@.len() == 0);
            return (Move::empty(), None);
        }
        let mut rest: Vec<Move> = Vec::new();
        let mut i: usize = 1;
        while i < eval_result.len()
            invariant
                1 <= i <= eval_result@.len(),
                rest@ == eval_result@.subrange(1, i as int),
            decreases eval_result@.len() - i,
        {
            rest.push(eval_result[i]);
            i = i + 1;
        }
        self.previous_best_line = rest;
        let ponder = if eval_result.len() > 1 { Some(eval_result[1]) } else { None };
        assert(self.previous_best_line@ =~= eval_result@.drop_first());
        (eval_result[0], ponder)
    }
}


/// The board after a move, its hash moved on by the fixed keys.
pub open spec fn board_after(b: crate::board_rep::BoardRep, m: Move) -> crate::board_rep::BoardRep {
    after_segments_spec(b, move_segments_spec(b, m), key_after_move(b, m))
}

/// The board after a sequence of moves played in turn.
pub open spec fn board_after_moves(b: crate::board_rep::BoardRep, ms: Seq<Move>) -> crate::board_rep::BoardRep
    decreases ms.len(),
{
    if ms.len() == 0 {
        b
    } else {
        board_after(board_after_moves(b, ms.drop_last()), ms.last())
    }
}

/// Whether the moves `played`, from the board `b` on, are those that the words at the
/// increasing places `idx` name, each one legal on the board it was played on.
pub open spec fn words_played(words: Seq<String>, idx: Seq<int>, b: crate::board_rep::BoardRep, played: Seq<Move>) -> bool {
    &&& idx.len() == played.len()
    &&& forall|k: int| 0 <= k < idx.len() ==> 2 <= #[trigger] idx[k] < words.len()
    &&& forall|k1: int, k2: int| 0 <= k1 < k2 < idx.len() ==> #[trigger] idx[k1] < #[trigger] idx[k2]
    &&& forall|k: int|
        0 <= k < played.len() ==> crate::game_state::names_move(board_after_moves(b, played.take(k)), words[idx[k]]@, #[trigger] played[k])
            && !leaves_king_in_check(board_after_moves(b, played.take(k)), played[k])
}

/// Whether the move that a text names on a board leaves the mover's king in check.
pub open spec fn named_move_illegal(b: crate::board_rep::BoardRep, text: Seq<char>) -> bool {
    exists|mm: Move| crate::game_state::names_move(b, text, mm) && #[trigger] leaves_king_in_check(b, mm)
}

/// Whether the word at `j` came when `n` of the moves had been played (between the places
/// `idx[n - 1]` and `idx[n]`) and was refused: the move it names leaves the king in check on
/// the board then, or the game's counters are full.
pub open spec fn refused_at(
    words: Seq<String>,
    idx: Seq<int>,
    b: crate::board_rep::BoardRep,
    played: Seq<Move>,
    counters_full: bool,
    j: int,
    n: int,
) -> bool {
    &&& 0 <= n <= played.len()
    &&& n > 0 ==> idx[n - 1] < j
    &&& n < idx.len() ==> j < idx[n]
    &&& counters_full || named_move_illegal(board_after_moves(b, played.take(n)), words[j]@)
}

/// Whether each word (after the first two) before `upto` and not at a place of `idx` was
/// refused (see `refused_at`).
pub open spec fn words_refused(
    words: Seq<String>,
    idx: Seq<int>,
    b: crate::board_rep::BoardRep,
    played: Seq<Move>,
    counters_full: bool,
    upto: int,
) -> bool {
    forall|j: int| 2 <= j < upto && !idx.contains(j) ==> exists|n: int| #[trigger] refused_at(words, idx, b, played, counters_full, j, n)
}

#[verifier::rlimit(60)]
#[verifier::spinoff_prover]
proof fn lemma_words_step_played(
    words: Seq<String>,
    idx: Seq<int>,
    b0: crate::board_rep::BoardRep,
    played: Seq<Move>,
    m: Move,
    i: int,
)
    requires
        words_played(words, idx, b0, played),
        forall|k: int| 0 <= k < idx.len() ==> #[trigger] idx[k] < i,
        2 <= i < words.len(),
        crate::game_state::names_move(board_after_moves(b0, played), words[i]@, m),
        !leaves_king_in_check(board_after_moves(b0, played), m),
    ensures
        words_played(words, idx.push(i), b0, played.push(m)),
        board_after_moves(b0, played.push(m)) == board_after(board_after_moves(b0, played), m),
        forall|k: int| 0 <= k < idx.push(i).len() ==> #[trigger] idx.push(i)[k] < i + 1,
{
    let p2 = played.push(m);
    let i2 = idx.push(i);
    assert(p2.drop_last() =~= played);
    assert(p2.take(played.len() as int) =~= played);
    assert forall|k: int| 0 <= k < p2.len() implies crate::game_state::names_move(
        board_after_moves(b0, p2.take(k)),
        words[i2[k]]@,
        #[trigger] p2[k],
    ) && !leaves_king_in_check(board_after_moves(b0, p2.take(k)), p2[k]) by {
        if k < played.len() {
            assert(p2.take(k) =~= played.take(k));
            assert(p2[k] == played[k]);
            assert(i2[k] == idx[k]);
        }
    }
    assert forall|k1: int, k2: int| 0 <= k1 < k2 < i2.len() implies #[trigger] i2[k1] < #[trigger] i2[k2] by {
        if k2 < idx.len() {
            assert(i2[k1] == idx[k1] && i2[k2] == idx[k2]);
        } else {
            assert(i2[k1] == idx[k1]);
        }
    }
    assert forall|k: int| 0 <= k < i2.len() implies 2 <= #[trigger] i2[k] < words.len() by {
        if k < idx.len() {
            assert(i2[k] == idx[k]);
        }
    }
    assert forall|k: int| 0 <= k < i2.len() implies #[trigger] i2[k] < i + 1 by {
        if k < idx.len() {
            assert(i2[k] == idx[k]);
        }
    }
}

proof fn lemma_refused_step_played(
    words: Seq<String>,
    idx: Seq<int>,
    b0: crate::board_rep::BoardRep,
    played: Seq<Move>,
    m: Move,
    i: int,
    full_new: bool,
)
    requires
        words_refused(words, idx, b0, played, false, i),
        idx.len() == played.len(),
        forall|k: int| 0 <= k < idx.len() ==> #[trigger] idx[k] < i,
    ensures
        words_refused(words, idx.push(i), b0, played.push(m), full_new, i + 1),
{
    let p2 = played.push(m);
    let i2 = idx.push(i);
    assert forall|j: int| 2 <= j < i + 1 && !i2.contains(j) implies exists|n: int| #[trigger] refused_at(words, i2, b0, p2, full_new, j, n) by {
        assert(i2[idx.len() as int] == i);
        assert(j != i);
        assert(!idx.contains(j)) by {
            if idx.contains(j) {
                let k = choose|k: int| 0 <= k < idx.len() && idx[k] == j;
                assert(i2[k] == j);
            }
        }
        let n = choose|n: int| #[trigger] refused_at(words, idx, b0, played, false, j, n);
        assert(p2.take(n) =~= played.take(n));
        if n > 0 {
            assert(i2[n - 1] == idx[n - 1]);
        }
        if n < idx.len() {
            assert(i2[n] == idx[n]);
        }
        assert(refused_at(words, i2, b0, p2, full_new, j, n));
    }
}

proof fn lemma_refused_step_refused(
    words: Seq<String>,
    idx: Seq<int>,
    b0: crate::board_rep::BoardRep,
    played: Seq<Move>,
    full: bool,
    i: int,
)
    requires
        words_refused(words, idx, b0, played, full, i),
        idx.len() == played.len(),
        2 <= i,
        forall|k: int| 0 <= k < idx.len() ==> #[trigger] idx[k] < i,
        full || named_move_illegal(board_after_moves(b0, played), words[i]@),
    ensures
        words_refused(words, idx, b0, played, full, i + 1),
{
    assert forall|j: int| 2 <= j < i + 1 && !idx.contains(j) implies exists|n: int| #[trigger] refused_at(words, idx, b0, played, full, j, n) by {
        if j == i {
            let n = played.len() as int;
            assert(played.take(n) =~= played);
            if n > 0 {
                assert(idx[n - 1] < i);
            }
            assert(refused_at(words, idx, b0, played, full, j, n));
        }
    }
}

/// Whether a text names a move in UCI form: two squares, then a promotion letter or nothing.
pub open spec fn uci_text_ok(t: Seq<char>) -> bool {
    &&& t.len() >= 4
    &&& coords_ok(t, 0)
    &&& coords_ok(t, 2)
    &&& t.len() == 5 ==> piece_from_char_spec(t[4]) != PieceType::NoPiece
}

/// Whether the words of a UCI `position` command (after the word `position`) are ones this
/// engine reads: `startpos`, then optionally `moves` and moves in UCI form, the words
/// compared without regard to ASCII case.
pub open spec fn position_words_ok(words: Seq<String>) -> bool {
    &&& words.len() >= 1
    &&& eq_ignoring_ascii_case(words[0]@, "startpos"@)
    &&& words.len() >= 2 ==> eq_ignoring_ascii_case(words[1]@, "moves"@)
    &&& forall|i: int| 2 <= i < words.len() ==> #[trigger] uci_text_ok(words[i]@)
}

impl ChimpEngine {
    /// Puts the game back at the starting position; the moves played and the tables stay.
    fn reset_state(&mut self)
        requires
            old(self).wf(),
        ensures
            final(self).wf(),
            final(self).current_game_state.half_moves == 0,
            final(self).current_game_state.full_moves == 1,
            !final(self).current_game_state.position.board.black_turn,
            final(self).moves == old(self).moves,
            final(self).previous_best_line == old(self).previous_best_line,
    {
        self.current_game_state = GameState::default();
    }

    /// Plays the move that UCI text names in the current game and records it; refused (false,
    /// nothing changed) when the move would leave the mover's king in check or the game's
    /// counters are full.
    fn add_move(&mut self, move_uci: &str) -> (r: bool)
        requires
            old(self).wf(),
            uci_text_ok(move_uci@),
        ensures
            final(self).wf(),
            final(self).previous_best_line == old(self).previous_best_line,
            r ==> final(self).moves@.len() == old(self).moves@.len() + 1,
            r ==> final(self).moves@.subrange(0, old(self).moves@.len() as int) == old(self).moves@,
            r ==> {
                let m = final(self).moves@.last();
                &&& m.from_spec() == coords_index(move_uci@, 0)
                &&& m.to_spec() == coords_index(move_uci@, 2)
                &&& m.black_spec() == old(self).current_game_state.position.board.black_turn
                &&& final(self).current_game_state.position.board.black_turn
                    != old(self).current_game_state.position.board.black_turn
            },
            !r ==> final(self).moves == old(self).moves,
            !r ==> final(self).current_game_state == old(self).current_game_state,
            r ==> crate::game_state::names_move(old(self).current_game_state.position.board, move_uci@, final(self).moves@.last())
                && !leaves_king_in_check(old(self).current_game_state.position.board, final(self).moves@.last()),
            r ==> final(self).current_game_state.position.board == board_after(
                old(self).current_game_state.position.board,
                final(self).moves@.last(),
            ),
            r ==> final(self).current_game_state.position == crate::position::position_of(final(self).current_game_state.position.board),
            r ==> old(self).current_game_state.half_moves < 255 && old(self).current_game_state.full_moves < u32::MAX,
            !r ==> (old(self).current_game_state.half_moves == 255 || old(self).current_game_state.full_moves == u32::MAX
                || exists|m: Move|
                #![trigger crate::game_state::names_move(old(self).current_game_state.position.board, move_uci@, m)]
                crate::game_state::names_move(old(self).current_game_state.position.board, move_uci@, m)
                    && leaves_king_in_check(old(self).current_game_state.position.board, m)),
    {
        let m = self.current_game_state.move_from_uci(move_uci);
        if self.current_game_state.half_moves == 255 || self.current_game_state.full_moves == u32::MAX {
            return false;
        }
        match self.current_game_state.make(m) {
            Some(g) => {
                proof {
                    crate::make_move::law_move_switches_turn(self.current_game_state.position.board, m, g.position.board.zorb_key);
                    let b = self.current_game_state.position.board;
                    let segs = move_segments_spec(b, m);
                    let z = choose|z: crate::zorb_set::ZorbSet| z.is_fixed() && g.position.board.zorb_key == z.shift_all(b.zorb_key, segs) ^ z.black_turn;
                    lemma_fixed_keys_agree(z, b.zorb_key, segs);
                    assert(g.position.board.zorb_key == key_after_move(b, m));
                }
                self.current_game_state = g;
                self.moves.push(m);
                true
            },
            None => {
                assert(crate::game_state::names_move(self.current_game_state.position.board, move_uci@, m));
                false
            },
        }
    }

    /// Follows a UCI `position` command, given its words after `position`: with `startpos`
    /// alone the game goes back to the starting position; with `startpos moves ...` each
    /// listed move that differs from the move recorded at its place (or that lies beyond
    /// them) is played on the current game, and one that would leave the mover's king in
    /// check (or any, once the game's counters are full) is skipped.
    #[verifier::rlimit(100)]
    #[verifier::spinoff_prover]
    pub fn position(&mut self, words: &Vec<String>)
        requires
            old(self).wf(),
            position_words_ok(words@),
        ensures
            final(self).wf(),
            words@.len() == 1 ==> {
                &&& final(self).current_game_state.half_moves == 0
                &&& final(self).current_game_state.full_moves == 1
                &&& !final(self).current_game_state.position.board.black_turn
                &&& final(self).moves == old(self).moves
            },
            final(self).moves@.len() >= old(self).moves@.len(),
            final(self).moves@.subrange(0, old(self).moves@.len() as int) == old(self).moves@,
            final(self).moves@.len() <= old(self).moves@.len() + words@.len(),
            final(self).previous_best_line == old(self).previous_best_line,
            ({
                let b0 = old(self).current_game_state.position.board;
                let played = final(self).moves@.subrange(old(self).moves@.len() as int, final(self).moves@.len() as int);
                let g = final(self).current_game_state;
                words@.len() >= 2 ==> {
                    &&& g.position.board == board_after_moves(b0, played)
                    &&& played.len() > 0 ==> g.position == crate::position::position_of(g.position.board)
                    &&& played.len() == 0 ==> g == old(self).current_game_state
                    &&& exists|idx: Seq<int>|
                        #[trigger] words_played(words@, idx, b0, played) && (old(self).moves@.len() == 0 ==> words_refused(
                            words@,
                            idx,
                            b0,
                            played,
                            g.half_moves == 255 || g.full_moves == u32::MAX,
                            words@.len() as int,
                        ))
                }
            }),
    {
        if words.len() == 1 {
            self.reset_state();
            return;
        }
        let ghost start = self.moves@;
        let ghost b0 = self.current_game_state.position.board;
        let ghost mut idx: Seq<int> = Seq::empty();
        let mut move_index: usize = 0;
        let mut i: usize = 2;
        proof {
            assert(self.moves@.subrange(start.len() as int, self.moves@.len() as int) =~= Seq::<Move>::empty());
        }
        while i < words.len()
            invariant
                self.wf(),
                position_words_ok(words@),
                2 <= i <= words@.len(),
                move_index == i - 2,
                start == old(self).moves@,
                b0 == old(self).current_game_state.position.board,
                self.previous_best_line == old(self).previous_best_line,
                self.moves@.len() >= start.len(),
                self.moves@.len() <= start.len() + (i - 2),
                self.moves@.subrange(0, start.len() as int) == start,
                ({
                    let played = self.moves@.subrange(start.len() as int, self.moves@.len() as int);
                    let g = self.current_game_state;
                    &&& g.position.board == board_after_moves(b0, played)
                    &&& played.len() > 0 ==> g.position == crate::position::position_of(g.position.board)
                    &&& played.len() == 0 ==> g == old(self).current_game_state
                    &&& words_played(words@, idx, b0, played)
                    &&& forall|k: int| 0 <= k < idx.len() ==> #[trigger] idx[k] < i
                    &&& start.len() == 0 ==> words_refused(words@, idx, b0, played, g.half_moves == 255 || g.full_moves == u32::MAX, i as int)
                }),
            decreases words@.len() - i,
        {
            let word = words[i].as_str();
            assert(uci_text_ok(words@[i as int]@));
            let differs = if move_index >= self.moves.len() {
                true
            } else {
                let recorded = self.moves[move_index].uci();
                !same_text(recorded.as_str(), word)
            };
            let ghost played0 = self.moves@.subrange(start.len() as int, self.moves@.len() as int);
            let ghost g0 = self.current_game_state;
            if differs {
                let ghost before = self.moves@;
                let ok = self.add_move(word);
                proof {
                    if ok {
                        assert(self.moves@.subrange(0, start.len() as int) =~= before.subrange(0, start.len() as int));
                        let m = self.moves@.last();
                        assert(self.moves@.subrange(start.len() as int, self.moves@.len() as int) =~= played0.push(m));
                        lemma_words_step_played(words@, idx, b0, played0, m, i as int);
                        if start.len() == 0 {
                            lemma_refused_step_played(
                                words@,
                                idx,
                                b0,
                                played0,
                                m,
                                i as int,
                                self.current_game_state.half_moves == 255 || self.current_game_state.full_moves == u32::MAX,
                            );
                        }
                        idx = idx.push(i as int);
                    } else {
                        if start.len() == 0 {
                            if !(g0.half_moves == 255 || g0.full_moves == u32::MAX) {
                                let mm = choose|mm: Move|
                                    #![trigger crate::game_state::names_move(g0.position.board, words@[i as int]@, mm)]
                                    crate::game_state::names_move(g0.position.board, words@[i as int]@, mm)
                                        && leaves_king_in_check(g0.position.board, mm);
                                assert(named_move_illegal(board_after_moves(b0, played0), words@[i as int]@));
                            }
                            lemma_refused_step_refused(
                                words@,
                                idx,
                                b0,
                                played0,
                                g0.half_moves == 255 || g0.full_moves == u32::MAX,
                                i as int,
                            );
                        }
                        assert forall|k: int| 0 <= k < idx.len() implies #[trigger] idx[k] < i + 1 by {}
                    }
                }
            } else {
                proof {
                    assert forall|k: int| 0 <= k < idx.len() implies #[trigger] idx[k] < i + 1 by {}
                }
            }
            move_index = move_index + 1;
            i = i + 1;
        }
    }
}

} // verus!

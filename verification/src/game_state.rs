use vstd::prelude::*;
use crate::board_rep::{BoardRep, piece_at};
use crate::board_utils::{file_from_char, file_from_char_spec, get_index_from_file_and_rank, get_file, file_of};
use crate::chess_move::Move;
use crate::constants::{
    MF_BISHOP_CAPTURE_PROMOTION, MF_BISHOP_PROMOTION, MF_CAPTURE, MF_DOUBLE_PAWN_PUSH, MF_EP_CAPTURE,
    MF_KING_CASTLING, MF_KNIGHT_CAPTURE_PROMOTION, MF_KNIGHT_PROMOTION, MF_QUEEN_CAPTURE_PROMOTION,
    MF_QUEEN_CASTLING, MF_QUEEN_PROMOTION, MF_ROOK_CAPTURE_PROMOTION, MF_ROOK_PROMOTION,
};
use crate::make_move::{after_segments_spec, move_segments_spec};
use crate::move_generation::generate_moves_for_board;
use crate::piece_type::{PieceType, piece_from_char_spec, piece_type_from_char_or_none};
use crate::position::Position;
use crate::text::{chars_of, field_at, fields_of, number_spec, parse_number, push_char, push_str};
use crate::zorb_set::ZorbSet;
use crate::bitboard::on_sq;

verus! {

/// The state of a game: still going, drawn, or won by one side.
#[derive(PartialEq, Eq, Debug, Copy, Clone, Structural)]
pub enum MatchResultState {
    Active,
    Draw,
    WhiteVictory,
    BlackVictory,
}

/// A game in progress: the position, the half moves since a capture or pawn move, the full
/// move number, the result so far, and the last six moves (latest first).
#[derive(Clone, Copy, Debug)]
pub struct GameState {
    pub position: Position,
    pub half_moves: u8,
    pub full_moves: u32,
    pub result_state: MatchResultState,
    pub recent_moves: [Move; 6],
}

/// Whether a move of the side to move leaves its own king in check (see `king_check_spec`).
pub open spec fn leaves_king_in_check(b: BoardRep, m: Move) -> bool {
    let a = after_segments_spec(b, move_segments_spec(b, m), 0);
    if b.black_turn {
        crate::position::black_check_spec(a)
    } else {
        crate::position::white_check_spec(a)
    }
}

/// Whether two moves are equal as `==` compares them: squares, flags, piece and colour.
pub open spec fn same_move(a: Move, b: Move) -> bool {
    a.code() == b.code() && a.piece_spec() == b.piece_spec() && a.black_spec() == b.black_spec()
}

/// Whether the last six moves repeat: two moves, made three times over.
pub open spec fn repeated_spec(recent: Seq<Move>) -> bool {
    &&& recent[0].code() != 0
    &&& recent[1].code() != 0
    &&& same_move(recent[0], recent[2])
    &&& same_move(recent[0], recent[4])
    &&& same_move(recent[1], recent[3])
    &&& same_move(recent[1], recent[5])
}

/// The result of a position: a draw after 50 half moves or a threefold repetition of the
/// last moves; with no moves left, a win for the side giving check, else a draw; otherwise
/// still going.
pub open spec fn result_spec(half_moves: u8, recent: Seq<Move>, position: Position, has_moves: bool) -> MatchResultState {
    if half_moves >= 50 {
        MatchResultState::Draw
    } else if repeated_spec(recent) {
        MatchResultState::Draw
    } else if !has_moves {
        if position.board.black_turn && position.black_in_check {
            MatchResultState::WhiteVictory
        } else if !position.board.black_turn && position.white_in_check {
            MatchResultState::BlackVictory
        } else {
            MatchResultState::Draw
        }
    } else {
        MatchResultState::Active
    }
}

/// The result of a position, given whether the side to move has a move (see `result_spec`).
pub fn result_state_with(half_moves: u8, recent_moves: [Move; 6], position: Position, has_moves: bool) -> (r: MatchResultState)
    ensures
        r == result_spec(half_moves, recent_moves@, position, has_moves),
{
    if half_moves >= 50 {
        return MatchResultState::Draw;
    }
    if !recent_moves[0].is_empty() && !recent_moves[1].is_empty() && recent_moves[0] == recent_moves[2]
        && recent_moves[0] == recent_moves[4] && recent_moves[1] == recent_moves[3] && recent_moves[1]
        == recent_moves[5] {
        return MatchResultState::Draw;
    }
    if !has_moves {
        if position.board.black_turn && position.black_in_check {
            return MatchResultState::WhiteVictory;
        }
        if !position.board.black_turn && position.white_in_check {
            return MatchResultState::BlackVictory;
        }
        return MatchResultState::Draw;
    }
    MatchResultState::Active
}

/// Whether a move is one the move generator may give on a board: of a kind it makes (see
/// `generated_move_ok`) and keeping the king safe (see `move_safe_ok`), for a true analysis of
/// the king of the side to move.
pub open spec fn move_candidate(b: BoardRep, m: Move) -> bool {
    exists|a: crate::king_analysis::KingPositionAnalysis|
        #[trigger] crate::move_generation::friendly_analysis_ok(a, b) && crate::move_generation::generated_move_ok(
            m,
            b,
            a.threat_source,
            a.pins@,
        ) && crate::move_generation::move_safe_ok(m, b, a.check, a.double_check)
}

/// Whether the side to move has a move the generator may give (see `move_candidate`).
pub open spec fn has_candidate(b: BoardRep) -> bool {
    exists|m: Move| #[trigger] move_candidate(b, m)
}

/// Whether the side to move surely has a move: its king can step to an open square that is
/// not attacked with the king taken off the board, or (out of double check) one of its pieces
/// can move to a square that its rules and the check allow (see `square_target`).
pub open spec fn sure_move(b: BoardRep) -> bool {
    let opp = if b.black_turn { b.white_occupancy } else { b.black_occupancy };
    let own = if b.black_turn { b.black_occupancy } else { b.white_occupancy };
    ||| exists|t: int|
        0 <= t < 64 && #[trigger] crate::attacks::king_step(crate::move_generation::friendly_king(b) as int, t)
            && !crate::move_generation::king_square_attacked(b, t) && crate::move_generation::open_target(opp, b.occupancy, t)
    ||| forall|a: crate::king_analysis::KingPositionAnalysis|
        #[trigger] crate::move_generation::friendly_analysis_ok(a, b) ==> !a.double_check && exists|sq: int, t: int|
            0 <= sq < 64 && 0 <= t < 64 && on_sq(own, sq) && #[trigger] crate::move_generation::square_target(
                b,
                sq,
                a.threat_source,
                crate::king_analysis::first_pin(a.pins@, sq),
                t,
            )
}

/// Whether `r` is the result of a game (see `result_spec`) decided by whether the side to move
/// has a move: it has one only if some move is a candidate (see `move_candidate`), and it has
/// one whenever it surely has (see `sure_move`).
pub open spec fn result_fits(r: MatchResultState, half_moves: u8, recent: Seq<Move>, position: Position) -> bool {
    exists|has_moves: bool|
        #[trigger] result_spec(half_moves, recent, position, has_moves) == r && (has_moves ==> has_candidate(position.board))
            && (sure_move(position.board) ==> has_moves)
}

/// A game not drawn by its counters or by repetition, whose side to move has no move the
/// generator may give, is over: the opponent wins when the side to move is in check, else it
/// is a draw (stalemate).
pub proof fn law_no_move_ends_game(r: MatchResultState, half_moves: u8, recent: Seq<Move>, position: Position)
    requires
        result_fits(r, half_moves, recent, position),
        half_moves < 50,
        !repeated_spec(recent),
        !has_candidate(position.board),
    ensures
        r == if position.board.black_turn && position.black_in_check {
            MatchResultState::WhiteVictory
        } else if !position.board.black_turn && position.white_in_check {
            MatchResultState::BlackVictory
        } else {
            MatchResultState::Draw
        },
{
}

/// A game not drawn by its counters or by repetition, whose side to move surely has a move,
/// goes on.
pub proof fn law_move_keeps_game_active(r: MatchResultState, half_moves: u8, recent: Seq<Move>, position: Position)
    requires
        result_fits(r, half_moves, recent, position),
        half_moves < 50,
        !repeated_spec(recent),
        sure_move(position.board),
    ensures
        r == MatchResultState::Active,
{
}

/// The result of a position, with the moves of the side to move generated afresh.
pub fn result_state(half_moves: u8, recent_moves: [Move; 6], position: Position) -> (r: MatchResultState)
    requires
        position.wf(),
    ensures
        exists|has_moves: bool| r == result_spec(half_moves, recent_moves@, position, has_moves),
        result_fits(r, half_moves, recent_moves@, position),
{
    let moves = generate_moves_for_board(position.board);
    let has = moves.len() > 0;
    let r = result_state_with(half_moves, recent_moves, position, has);
    proof {
        let b = position.board;
        let a = choose|a: crate::king_analysis::KingPositionAnalysis|
            #[trigger] crate::move_generation::friendly_analysis_ok(a, b) && crate::move_generation::moves_for_analysis(moves@, b, a);
        if has {
            assert(crate::move_generation::generated_move_ok(moves@[0], b, a.threat_source, a.pins@));
            assert(crate::move_generation::move_safe_ok(moves@[0], b, a.check, a.double_check));
            assert(move_candidate(b, moves@[0]));
        }
        if sure_move(b) {
            let opp = if b.black_turn { b.white_occupancy } else { b.black_occupancy };
            let own = if b.black_turn { b.black_occupancy } else { b.white_occupancy };
            if exists|t: int|
                0 <= t < 64 && #[trigger] crate::attacks::king_step(crate::move_generation::friendly_king(b) as int, t)
                    && !crate::move_generation::king_square_attacked(b, t) && crate::move_generation::open_target(opp, b.occupancy, t) {
                let t = choose|t: int|
                    0 <= t < 64 && #[trigger] crate::attacks::king_step(crate::move_generation::friendly_king(b) as int, t)
                        && !crate::move_generation::king_square_attacked(b, t) && crate::move_generation::open_target(opp, b.occupancy, t);
                assert(crate::move_generation::has_move(moves@, crate::move_generation::friendly_king(b) as int, t));
            } else {
                assert(!a.double_check);
                let (sq, t) = choose|sq: int, t: int|
                    0 <= sq < 64 && 0 <= t < 64 && on_sq(own, sq) && #[trigger] crate::move_generation::square_target(
                        b,
                        sq,
                        a.threat_source,
                        crate::king_analysis::first_pin(a.pins@, sq),
                        t,
                    );
                assert(crate::move_generation::has_move(moves@, sq, t));
            }
        }
        assert(result_spec(half_moves, recent_moves@, position, has) == r);
    }
    r
}

/// Whether a list of moves holds a move of the given side.
pub fn has_player_moves(moves: &Vec<Move>, is_black: bool) -> (r: bool)
    ensures
        r == exists|i: int| 0 <= i < moves@.len() && (#[trigger] moves@[i]).black_spec() == is_black,
{
    let mut i: usize = 0;
    while i < moves.len()
        invariant
            i <= moves@.len(),
            forall|j: int| 0 <= j < i ==> (#[trigger] moves@[j]).black_spec() != is_black,
        decreases moves@.len() - i,
    {
        if moves[i].is_black() == is_black {
            return true;
        }
        i = i + 1;
    }
    false
}

/// The decimal digit character of `d`.
pub open spec fn digit_char(d: int) -> char {
    ((d + 48) as u8) as char
}

/// The decimal text of a number.
pub open spec fn decimal_text(n: nat) -> Seq<char>
    decreases n,
{
    if n < 10 {
        seq![digit_char(n as int)]
    } else {
        decimal_text(n / 10) + seq![digit_char((n % 10) as int)]
    }
}

/// Appends the decimal text of a number.
pub fn push_decimal(s: &mut String, n: u32)
    ensures
        final(s)@ == old(s)@ + decimal_text(n as nat),
    decreases n,
{
    if n >= 10 {
        push_decimal(s, n / 10);
    }
    let d: u8 = (n % 10) as u8 + 48;
    push_char(s, d as char);
    assert(final(s)@ =~= old(s)@ + decimal_text(n as nat));
}

/// The flags that a UCI move gets on a position: a capture onto an opponent piece; for a
/// pawn a double push (16 squares), an en passant capture onto the en passant square, or a
/// promotion (capturing or not) to the named piece; for a king two files either way a
/// castling.
pub open spec fn uci_flags_spec(b: BoardRep, from: int, to: int, promotion: PieceType) -> u16 {
    let is_capture = on_sq(if b.black_turn { b.white_occupancy } else { b.black_occupancy }, to);
    let base: u16 = if is_capture { MF_CAPTURE } else { 0 };
    match piece_at(b, from) {
        PieceType::Pawn => if from - to == 16 || to - from == 16 {
            MF_DOUBLE_PAWN_PUSH
        } else if b.ep_index == to {
            MF_EP_CAPTURE
        } else if promotion != PieceType::NoPiece {
            match promotion {
                PieceType::Knight => if is_capture { MF_KNIGHT_CAPTURE_PROMOTION } else { MF_KNIGHT_PROMOTION },
                PieceType::Bishop => if is_capture { MF_BISHOP_CAPTURE_PROMOTION } else { MF_BISHOP_PROMOTION },
                PieceType::Rook => if is_capture { MF_ROOK_CAPTURE_PROMOTION } else { MF_ROOK_PROMOTION },
                _ => if is_capture { MF_QUEEN_CAPTURE_PROMOTION } else { MF_QUEEN_PROMOTION },
            }
        } else {
            base
        },
        PieceType::King => if file_of(from) - file_of(to) == -2 {
            MF_KING_CASTLING
        } else if file_of(from) - file_of(to) == 2 {
            MF_QUEEN_CASTLING
        } else {
            base
        },
        _ => base,
    }
}

/// A move counter of a FEN: the number of its field `i`, or `default` when the FEN has no such
/// field.
pub open spec fn counter_spec(fields: Seq<Seq<char>>, i: int, default: u32) -> Option<u32> {
    if i < fields.len() { number_spec(fields[i]) } else { Some(default) }
}

/// Whether a text names a square: a file letter and a rank digit at `i`.
pub open spec fn coords_ok(s: Seq<char>, i: int) -> bool {
    file_from_char_spec(s[i]) < 8 && '1' <= s[i + 1] <= '8'
}

/// The square that the file letter and rank digit at `i` name.
pub open spec fn coords_index(s: Seq<char>, i: int) -> int {
    (s[i + 1] as int - '1' as int) * 8 + (7 - file_from_char_spec(s[i]))
}

fn square_of(c0: char, c1: char) -> (r: u8)
    requires
        file_from_char_spec(c0) < 8,
        '1' <= c1 <= '8',
    ensures
        r == (c1 as int - '1' as int) * 8 + (7 - file_from_char_spec(c0)),
        r < 64,
{
    let file = file_from_char(c0);
    let rank = (c1 as u32 - '1' as u32) as u8;
    get_index_from_file_and_rank(file, rank)
}

/// The text of a square reads back as that square.
proof fn lemma_coords_read_back(x: int, text: Seq<char>, i: int)
    requires
        0 <= x < 64,
        0 <= i,
        i + 2 <= text.len(),
        text[i] == crate::board_utils::coords_spec(x)[0],
        text[i + 1] == crate::board_utils::coords_spec(x)[1],
    ensures
        coords_ok(text, i),
        coords_index(text, i) == x,
{
    let f = crate::board_utils::file_of(x);
    assert(0 <= f < 8);
    assert(file_from_char_spec(crate::board_utils::file_char_spec(f)) == f);
    let r = crate::board_utils::rank_of(x);
    assert(0 <= r < 8);
    assert(((r + 1 + '0' as int) as char) as int == r + 49);
    assert(x == r * 8 + (7 - f));
}

/// A castling in UCI text reads back as the same castling: the text of a king move two files
/// toward the a-file from a square where the king stands names a queen-side castling, and two
/// files toward the h-file a king-side castling, with the same squares.
pub proof fn law_castling_reads_back(b: BoardRep, m: Move, m2: Move)
    requires
        m.from_spec() < 64,
        m.to_spec() < 64,
        piece_at(b, m.from_spec() as int) == PieceType::King,
        (m.flags_spec() == MF_QUEEN_CASTLING && m.to_spec() == m.from_spec() + 2 && m.from_spec() % 8 <= 5) || (m.flags_spec()
            == MF_KING_CASTLING && m.to_spec() + 2 == m.from_spec() && m.from_spec() % 8 >= 2),
        names_move(
            b,
            crate::board_utils::coords_spec(m.from_spec() as int) + crate::board_utils::coords_spec(m.to_spec() as int)
                + crate::chess_move::promotion_suffix(m.flags_spec()),
            m2,
        ),
    ensures
        m2.flags_spec() == m.flags_spec(),
        m2.from_spec() == m.from_spec(),
        m2.to_spec() == m.to_spec(),
        m2.piece_spec() == PieceType::King,
{
    let text = crate::board_utils::coords_spec(m.from_spec() as int) + crate::board_utils::coords_spec(m.to_spec() as int)
        + crate::chess_move::promotion_suffix(m.flags_spec());
    assert(crate::chess_move::promotion_suffix(m.flags_spec()) =~= Seq::<char>::empty());
    assert(text.len() == 4);
    lemma_coords_read_back(m.from_spec() as int, text, 0);
    lemma_coords_read_back(m.to_spec() as int, text, 2);
}

/// Whether a move is the one that UCI text names on a board: its squares, the piece on its
/// from square, the side to move and the flags that `uci_flags_spec` gives.
pub open spec fn names_move(b: BoardRep, text: Seq<char>, m: Move) -> bool {
    &&& m.from_spec() == coords_index(text, 0)
    &&& m.to_spec() == coords_index(text, 2)
    &&& m.piece_spec() == piece_at(b, coords_index(text, 0))
    &&& m.black_spec() == b.black_turn
    &&& m.flags_spec() == uci_flags_spec(
        b,
        coords_index(text, 0),
        coords_index(text, 2),
        if text.len() == 5 { piece_from_char_spec(text[4]) } else { PieceType::NoPiece },
    )
}

/// Whether a FEN gives a game: its board is well formed (both kings are on it) and its move
/// counters, where it has them, are numbers that fit (the half moves at most 255).
pub open spec fn fen_game_ok(fen: Seq<char>) -> bool {
    &&& crate::board_rep::fen_board_spec(fen).wf()
    &&& counter_spec(fields_of(fen), 4, 0) matches Some(h) && h <= 255
    &&& counter_spec(fields_of(fen), 5, 1) is Some
}

impl GameState {
    /// A game state is well formed when its position is.
    pub open spec fn wf(&self) -> bool {
        self.position.wf()
    }

    /// The last six moves, latest first.
    pub open spec fn recent_spec(&self) -> Seq<Move> {
        self.recent_moves@
    }

    /// Whether the game's result is the one its position, counters and recent moves decide
    /// (see `result_fits`).
    pub open spec fn result_ok(&self) -> bool {
        result_fits(self.result_state, self.half_moves, self.recent_spec(), self.position)
    }

    /// The game state of a FEN: its position and its two move counters (0 half moves and move
    /// 1 where the FEN stops before them); none when a king is missing, or a counter is not a
    /// number or does not fit (the half moves in 8 bits).
    pub fn new(fen: String) -> (r: Option<GameState>)
        ensures
            r is Some <==> fen_game_ok(fen@),
            r matches Some(g) ==> (crate::board_rep::BoardRep { zorb_key: 0, ..g.position.board })
                == crate::board_rep::fen_board_spec(fen@),
            r matches Some(g) ==> {
                &&& g.wf()
                &&& counter_spec(fields_of(fen@), 4, 0) == Some(g.half_moves as u32)
                &&& counter_spec(fields_of(fen@), 5, 1) == Some(g.full_moves)
                &&& (forall|i: int| 0 <= i < 6 ==> (#[trigger] g.recent_spec()[i]).code() == 0)
                &&& g.result_ok()
            },
    {
        let cs = chars_of(fen.as_str());
        let half_field = field_at(&cs, 4);
        let full_field = field_at(&cs, 5);
        let position = Position::from_fen(fen);
        let half = match half_field {
            Some(hf) => parse_number(&hf),
            None => Some(0),
        };
        let full = match full_field {
            Some(ff) => parse_number(&ff),
            None => Some(1),
        };
        match (position, half, full) {
            (Some(position), Some(h), Some(f)) => {
                if h > 255 {
                    return None;
                }
                let e = Move::empty();
                let recent_moves = [e, e, e, e, e, e];
                let half_moves = h as u8;
                let result_state = result_state(half_moves, recent_moves, position);
                Some(GameState { position, half_moves, full_moves: f, result_state, recent_moves })
            },
            _ => None,
        }
    }

    /// Whether the side that has just moved left its king out of check.
    pub fn legal(&self) -> (r: bool)
        ensures
            r == self.position.legal_spec(),
    {
        self.position.legal()
    }

    /// The game after a move by the side to move, or none when the move leaves the mover's
    /// king in check: the move's segments applied to the board with the hash updated by them,
    /// the half moves reset by a capture or a pawn move (else counted up), the full moves
    /// counted up after black's move, and the move recorded.
    pub fn make(&self, m: Move) -> (r: Option<GameState>)
        requires
            self.wf(),
            self.half_moves < 255,
            self.full_moves < u32::MAX,
        ensures
            r is None <==> leaves_king_in_check(self.position.board, m),
            r matches Some(g) ==> {
                &&& g.wf()
                &&& g.result_ok()
                &&& g.position.legal_spec()
                &&& g.position == crate::position::position_of(g.position.board)
                &&& g.position.white_in_check == crate::position::white_check_spec(g.position.board)
                &&& g.position.black_in_check == crate::position::black_check_spec(g.position.board)
                &&& g.position.board == after_segments_spec(
                    self.position.board,
                    move_segments_spec(self.position.board, m),
                    g.position.board.zorb_key,
                )
                &&& exists|z: ZorbSet| z.is_fixed() && g.position.board.zorb_key == z.shift_all(
                    self.position.board.zorb_key,
                    move_segments_spec(self.position.board, m),
                ) ^ z.black_turn
                &&& g.half_moves == if m.capture_spec() || m.piece_spec() == PieceType::Pawn { 0 } else { self.half_moves + 1 }
                &&& g.full_moves == if self.position.board.black_turn { self.full_moves + 1 } else { self.full_moves as int }
                &&& g.recent_spec() == seq![m].add(self.recent_spec().subrange(0, 5))
            },
    {
        let (new_zorb, move_segments) = self.position.board.zorb_key_after_move(m);
        let board = self.position.board.apply_segments(&move_segments, new_zorb);
        let new_position = Position::build(board);
        proof {
            crate::make_move::law_move_switches_turn(self.position.board, m, new_zorb);
        }
        if !new_position.legal() {
            return None;
        }
        let half_moves: u8 = if m.is_capture() || m.piece_type() == PieceType::Pawn { 0 } else { self.half_moves + 1 };
        let full_moves: u32 = if self.position.board.black_turn { self.full_moves + 1 } else { self.full_moves };
        let recent_moves = [
            m,
            self.recent_moves[0],
            self.recent_moves[1],
            self.recent_moves[2],
            self.recent_moves[3],
            self.recent_moves[4],
        ];
        assert(recent_moves@ =~= seq![m].add(self.recent_moves@.subrange(0, 5)));
        let result_state = result_state(half_moves, recent_moves, new_position);
        Some(GameState { position: new_position, half_moves, full_moves, recent_moves, result_state })
    }

    /// The FEN of the game: the board's four fields, then the half moves and the full moves.
    pub fn to_fen(&self) -> (r: String)
        requires
            self.wf(),
        ensures
            r@ == crate::board_rep::fen_fields_text(self.position.board) + seq![' '] + decimal_text(self.half_moves as nat)
                + seq![' '] + decimal_text(self.full_moves as nat),
    {
        let mut result = self.position.board.to_fen();
        let ghost b = result@;
        push_char(&mut result, ' ');
        push_decimal(&mut result, self.half_moves as u32);
        push_char(&mut result, ' ');
        push_decimal(&mut result, self.full_moves);
        result
    }

    /// The move that UCI text (such as "e2e4" or "e7e8q") names in this game: from and to
    /// squares, the piece on the from square, the side to move, and flags read off the
    /// position (see `uci_flags_spec`).
    pub fn move_from_uci(&self, move_uci: &str) -> (r: Move)
        requires
            move_uci@.len() >= 4,
            coords_ok(move_uci@, 0),
            coords_ok(move_uci@, 2),
            move_uci@.len() == 5 ==> piece_from_char_spec(move_uci@[4]) != PieceType::NoPiece,
        ensures
            r.from_spec() == coords_index(move_uci@, 0),
            r.to_spec() == coords_index(move_uci@, 2),
            r.piece_spec() == piece_at(self.position.board, coords_index(move_uci@, 0)),
            r.black_spec() == self.position.board.black_turn,
            r.flags_spec() == uci_flags_spec(
                self.position.board,
                coords_index(move_uci@, 0),
                coords_index(move_uci@, 2),
                if move_uci@.len() == 5 { piece_from_char_spec(move_uci@[4]) } else { PieceType::NoPiece },
            ),
    {
        let from = square_of(move_uci.get_char(0), move_uci.get_char(1));
        let to = square_of(move_uci.get_char(2), move_uci.get_char(3));
        let promotion = if move_uci.unicode_len() == 5 {
            piece_type_from_char_or_none(move_uci.get_char(4))
        } else {
            PieceType::NoPiece
        };
        let board = self.position.board;
        let opponent_occupancy = if board.black_turn { board.white_occupancy } else { board.black_occupancy };
        let piece_type = board.get_piece_type_at_index(from);
        let is_capture = (opponent_occupancy >> (to as u64)) & 1 == 1;
        let mut flags: u16 = if is_capture { MF_CAPTURE } else { 0 };
        match piece_type {
            PieceType::Pawn => {
                if from as i16 - to as i16 == 16 || to as i16 - from as i16 == 16 {
                    flags = MF_DOUBLE_PAWN_PUSH;
                } else if board.ep_index == to {
                    flags = MF_EP_CAPTURE;
                } else if promotion != PieceType::NoPiece {
                    flags = match promotion {
                        PieceType::Knight => if is_capture { MF_KNIGHT_CAPTURE_PROMOTION } else { MF_KNIGHT_PROMOTION },
                        PieceType::Bishop => if is_capture { MF_BISHOP_CAPTURE_PROMOTION } else { MF_BISHOP_PROMOTION },
                        PieceType::Rook => if is_capture { MF_ROOK_CAPTURE_PROMOTION } else { MF_ROOK_PROMOTION },
                        _ => if is_capture { MF_QUEEN_CAPTURE_PROMOTION } else { MF_QUEEN_PROMOTION },
                    };
                }
            },
            PieceType::King => {
                let dif = get_file(from) as i8 - get_file(to) as i8;
                if dif == -2 {
                    flags = MF_KING_CASTLING;
                } else if dif == 2 {
                    flags = MF_QUEEN_CASTLING;
                }
            },
            _ => {},
        }
        Move::new(from, to, flags, piece_type, board.black_turn, 0, 0)
    }
}

impl Default for GameState {
    /// The game at the starting position.
    fn default() -> (r: GameState)
        ensures
            r.wf(),
            r.half_moves == 0,
            r.full_moves == 1,
            !r.position.board.black_turn,
            r.result_ok(),
    {
        let position = Position::default();
        let e = Move::empty();
        let recent_moves = [e, e, e, e, e, e];
        let result_state = result_state(0, recent_moves, position);
        GameState { position, half_moves: 0, full_moves: 1, result_state, recent_moves }
    }
}


/// A match: the game being played.
pub struct Match {
    pub current_game_state: GameState,
}

impl Default for Match {
    /// A match at the starting position.
    fn default() -> (r: Match)
        ensures
            r.current_game_state.wf(),
            r.current_game_state.half_moves == 0,
            r.current_game_state.full_moves == 1,
            !r.current_game_state.position.board.black_turn,
    {
        Match { current_game_state: GameState::default() }
    }
}

} // verus!

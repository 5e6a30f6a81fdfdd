use vstd::prelude::*;
use crate::board_rep::BoardRep;
use crate::evaluation::{calculate, evaluation_spec};
use crate::text::push_str;

verus! {

/// Four FEN fields joined by spaces.
pub open spec fn joined_fen(a: Seq<char>, b: Seq<char>, c: Seq<char>, d: Seq<char>) -> Seq<char> {
    a + seq![' '] + b + seq![' '] + c + seq![' '] + d
}


/// A board together with what follows from it: whether each king is in check, whether the side
/// to move is in double check, and the evaluation from white's side.
#[derive(Clone, Copy, Debug, PartialEq, Eq, Structural)]
pub struct Position {
    pub board: BoardRep,
    pub white_in_check: bool,
    pub black_in_check: bool,
    pub double_check: bool,
    pub eval: i32,
}

/// Whether the white king is in check on a board (see `king_check_spec`).
pub open spec fn white_check_spec(b: BoardRep) -> bool {
    crate::king_analysis::king_check_spec(
        b.white_king_position as int,
        false,
        b.occupancy,
        b.black_occupancy,
        b.pawn_bitboard,
        b.knight_bitboard,
        b.bishop_bitboard,
        b.rook_bitboard,
        b.queen_bitboard,
    )
}

/// Whether the black king is in check on a board (see `king_check_spec`).
pub open spec fn black_check_spec(b: BoardRep) -> bool {
    crate::king_analysis::king_check_spec(
        b.black_king_position as int,
        true,
        b.occupancy,
        b.white_occupancy,
        b.pawn_bitboard,
        b.knight_bitboard,
        b.bishop_bitboard,
        b.rook_bitboard,
        b.queen_bitboard,
    )
}

/// Whether the king of the side to move is in double check on a board (see `double_check_spec`).
pub open spec fn side_double_check_spec(b: BoardRep) -> bool {
    if b.black_turn {
        crate::king_analysis::double_check_spec(
            b.black_king_position as int,
            true,
            b.occupancy,
            b.white_occupancy,
            b.pawn_bitboard,
            b.knight_bitboard,
            b.bishop_bitboard,
            b.rook_bitboard,
            b.queen_bitboard,
        )
    } else {
        crate::king_analysis::double_check_spec(
            b.white_king_position as int,
            false,
            b.occupancy,
            b.black_occupancy,
            b.pawn_bitboard,
            b.knight_bitboard,
            b.bishop_bitboard,
            b.rook_bitboard,
            b.queen_bitboard,
        )
    }
}

/// The position of a board: its checks, the double check of the side to move and its
/// evaluation.
pub open spec fn position_of(b: BoardRep) -> Position {
    Position {
        board: b,
        white_in_check: white_check_spec(b),
        black_in_check: black_check_spec(b),
        double_check: side_double_check_spec(b),
        eval: evaluation_spec(b) as i32,
    }
}

impl Position {
    /// A position is well formed when its board is.
    pub open spec fn wf(&self) -> bool {
        self.board.wf()
    }

    /// Whether the side to move is in check.
    pub open spec fn in_check_spec(&self) -> bool {
        (self.board.black_turn && self.black_in_check) || (!self.board.black_turn && self.white_in_check)
    }

    /// Whether the side that has just moved left its king out of check.
    pub open spec fn legal_spec(&self) -> bool {
        if self.board.black_turn { !self.white_in_check } else { !self.black_in_check }
    }

    /// The position of a board: the checks from both kings' analyses, the double check of the
    /// side to move, and the board's evaluation.
    pub fn build(board: BoardRep) -> (r: Position)
        requires
            board.wf(),
        ensures
            r.board == board,
            r.white_in_check == white_check_spec(board),
            r.black_in_check == black_check_spec(board),
            r.eval == evaluation_spec(board),
            r.double_check ==> r.in_check_spec(),
            r == position_of(board),
    {
        let white_king_analysis = board.get_white_king_analysis();
        let black_king_analysis = board.get_black_king_analysis();
        let eval = calculate(board);
        Position {
            board,
            white_in_check: white_king_analysis.check,
            black_in_check: black_king_analysis.check,
            double_check: if board.black_turn {
                black_king_analysis.double_check
            } else {
                white_king_analysis.double_check
            },
            eval,
        }
    }

    /// The position of a board, when the board is well formed (both kings on it).
    pub fn from_board(board: BoardRep) -> (r: Option<Position>)
        ensures
            r is Some <==> board.wf(),
            r matches Some(p) ==> p.board == board && p.eval == evaluation_spec(board) && (p.double_check
                ==> p.in_check_spec()),
            r matches Some(p) ==> p == position_of(board),
    {
        if board.is_valid() {
            Some(Position::build(board))
        } else {
            None
        }
    }

    /// The position of a FEN's first four fields; none when a king is missing.
    pub fn from_fen(fen: String) -> (r: Option<Position>)
        ensures
            r matches Some(p) ==> p.wf() && p.eval == evaluation_spec(p.board) && (p.double_check ==> p.in_check_spec()),
            r is Some <==> crate::board_rep::fen_board_spec(fen@).wf(),
            r matches Some(p) ==> (BoardRep { zorb_key: 0, ..p.board }) == crate::board_rep::fen_board_spec(fen@),
            r matches Some(p) ==> p == position_of(p.board),
    {
        Position::from_board(BoardRep::from_fen(fen))
    }

    /// The position of the four FEN fields given apart.
    pub fn new(position_segment: String, turn_segment: String, castling_segment: String, ep_segment: String) -> (r:
        Option<Position>)
        ensures
            r matches Some(p) ==> p.wf() && p.eval == evaluation_spec(p.board) && (p.double_check ==> p.in_check_spec()),
            r is Some <==> crate::board_rep::fen_board_spec(joined_fen(position_segment@, turn_segment@, castling_segment@, ep_segment@)).wf(),
            r matches Some(p) ==> (BoardRep { zorb_key: 0, ..p.board }) == crate::board_rep::fen_board_spec(
                joined_fen(position_segment@, turn_segment@, castling_segment@, ep_segment@),
            ),
            r matches Some(p) ==> p == position_of(p.board),
    {
        proof {
            reveal_strlit(" ");
        }
        let mut fen = position_segment;
        push_str(&mut fen, " ");
        push_str(&mut fen, turn_segment.as_str());
        push_str(&mut fen, " ");
        push_str(&mut fen, castling_segment.as_str());
        push_str(&mut fen, " ");
        push_str(&mut fen, ep_segment.as_str());
        assert(fen@ =~= joined_fen(position_segment@, turn_segment@, castling_segment@, ep_segment@));
        Position::from_fen(fen)
    }

    /// Whether the side to move is in check.
    pub fn current_in_check(&self) -> (r: bool)
        ensures
            r == self.in_check_spec(),
    {
        (self.board.black_turn && self.black_in_check) || (!self.board.black_turn && self.white_in_check)
    }

    /// Whether the side that has just moved left its king out of check.
    pub fn legal(&self) -> (r: bool)
        ensures
            r == self.legal_spec(),
    {
        if self.board.black_turn { !self.white_in_check } else { !self.black_in_check }
    }
}

impl Default for Position {
    /// The starting position.
    fn default() -> (r: Position)
        ensures
            r.wf(),
            !r.board.black_turn,
            r.board.white_king_position == 3,
            r.board.black_king_position == 59,
            r.board.white_occupancy == 0xFFFFu64,
            r.board.black_occupancy == 0xFFFF000000000000u64,
            !r.white_in_check && !r.black_in_check && !r.double_check,
            r.eval == evaluation_spec(r.board),
    {
        let board = BoardRep::default_board();
        Position { board, white_in_check: false, black_in_check: false, double_check: false, eval: calculate(board) }
    }
}

} // verus!

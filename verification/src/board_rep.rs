use vstd::prelude::*;
use crate::bitboard::on_sq;
use crate::board_utils::{file_from_char, char_from_file, get_coords_from_index, coords_spec};
use crate::piece_type::{PieceType, piece_type_from_char_or_none, get_piece_char, piece_char_spec, piece_from_char_spec};
use crate::text::{push_char, push_str, chars_of};
use crate::zorb_set::ZorbSet;

verus! {

/// A chess position as bitboards: the squares of each kind of piece (kings apart), the
/// squares of each colour, the kings' squares, the side to move, the castling rights, the
/// en passant square (`u8::MAX` for none) and the Zobrist hash.
#[derive(Clone, Copy, Debug, PartialEq, Eq, Structural)]
pub struct BoardRep {
    pub pawn_bitboard: u64,
    pub knight_bitboard: u64,
    pub bishop_bitboard: u64,
    pub rook_bitboard: u64,
    pub queen_bitboard: u64,
    pub white_occupancy: u64,
    pub black_occupancy: u64,
    pub occupancy: u64,
    pub white_king_position: u8,
    pub black_king_position: u8,
    pub black_turn: bool,
    pub white_king_side_castling: bool,
    pub white_queen_side_castling: bool,
    pub black_king_side_castling: bool,
    pub black_queen_side_castling: bool,
    pub ep_index: u8,
    pub zorb_key: u64,
}

/// The type of the piece on a square: the first bitboard holding it among pawns, knights,
/// bishops, rooks and queens, else a king when it is a king's square, else `NoPiece`.
pub open spec fn piece_at(b: BoardRep, i: int) -> PieceType {
    if on_sq(b.pawn_bitboard, i) {
        PieceType::Pawn
    } else if on_sq(b.knight_bitboard, i) {
        PieceType::Knight
    } else if on_sq(b.bishop_bitboard, i) {
        PieceType::Bishop
    } else if on_sq(b.rook_bitboard, i) {
        PieceType::Rook
    } else if on_sq(b.queen_bitboard, i) {
        PieceType::Queen
    } else if i == b.white_king_position || i == b.black_king_position {
        PieceType::King
    } else {
        PieceType::NoPiece
    }
}

/// The castling field of a FEN: "KQkq" for the rights held, "-" for none.
pub open spec fn castling_text(b: BoardRep) -> Seq<char> {
    let s = (if b.white_king_side_castling { seq!['K'] } else { seq![] }) + (if b.white_queen_side_castling {
        seq!['Q']
    } else {
        seq![]
    }) + (if b.black_king_side_castling { seq!['k'] } else { seq![] }) + (if b.black_queen_side_castling {
        seq!['q']
    } else {
        seq![]
    });
    if s.len() == 0 { seq!['-'] } else { s }
}

/// The digit that counts a run of empty squares.
pub open spec fn run_digit(e: int) -> char {
    (e + '0' as int) as char
}

/// The piece on a square as the FEN names it, none for an empty square.
pub open spec fn fen_square(b: BoardRep, index: int) -> Option<char> {
    if on_sq(b.occupancy, index) && piece_at(b, index) != PieceType::NoPiece {
        Some(piece_char_spec(piece_at(b, index), on_sq(b.black_occupancy, index)))
    } else {
        None
    }
}

/// The FEN text of a rank from file `file` on (a-file first), after a run of `empty` empty
/// squares: pieces by their letters, runs of empty squares by their length.
pub open spec fn rank_text(b: BoardRep, rank: int, file: int, empty: int) -> Seq<char>
    decreases 8 - file,
{
    if file >= 8 {
        if empty > 0 { seq![run_digit(empty)] } else { seq![] }
    } else {
        match fen_square(b, rank * 8 + (7 - file)) {
            None => rank_text(b, rank, file + 1, empty + 1),
            Some(c) => (if empty > 0 { seq![run_digit(empty)] } else { seq![] }) + seq![c] + rank_text(b, rank, file + 1, 0),
        }
    }
}

/// The FEN piece placement of the ranks from `rank` down to the first, separated by '/'.
pub open spec fn placement_text(b: BoardRep, rank: int) -> Seq<char>
    decreases rank,
{
    if rank <= 0 {
        rank_text(b, 0, 0, 0)
    } else {
        rank_text(b, rank, 0, 0) + seq!['/'] + placement_text(b, rank - 1)
    }
}

/// The side to move, castling rights and en passant square of a FEN, each after a space.
pub open spec fn fen_tail_text(b: BoardRep) -> Seq<char> {
    seq![' ', if b.black_turn { 'b' } else { 'w' }, ' '] + castling_text(b) + seq![' ']
        + if b.ep_index == u8::MAX { seq!['-'] } else { coords_spec(b.ep_index as int) }
}

/// The first four fields of a board's FEN: piece placement, side to move, castling rights
/// and en passant square.
pub open spec fn fen_fields_text(b: BoardRep) -> Seq<char> {
    placement_text(b, 7) + fen_tail_text(b)
}

/// A board with a piece of a colour put on square `index`: its bit set in its piece's
/// bitboard (a king's square recorded instead) and in its colour's squares.
pub open spec fn put_piece(b: BoardRep, index: int, p: PieceType, black: bool) -> BoardRep {
    let bit = 1u64 << (index as u64);
    let b1 = match p {
        PieceType::Pawn => BoardRep { pawn_bitboard: b.pawn_bitboard | bit, ..b },
        PieceType::Knight => BoardRep { knight_bitboard: b.knight_bitboard | bit, ..b },
        PieceType::Bishop => BoardRep { bishop_bitboard: b.bishop_bitboard | bit, ..b },
        PieceType::Rook => BoardRep { rook_bitboard: b.rook_bitboard | bit, ..b },
        PieceType::Queen => BoardRep { queen_bitboard: b.queen_bitboard | bit, ..b },
        _ => if black { BoardRep { black_king_position: index as u8, ..b } } else { BoardRep { white_king_position: index as u8, ..b } },
    };
    if black {
        BoardRep { black_occupancy: b1.black_occupancy | bit, ..b1 }
    } else {
        BoardRep { white_occupancy: b1.white_occupancy | bit, ..b1 }
    }
}

/// Where the reading of a FEN's piece placement stands: the rank and file next to fill,
/// whether a '/' came after the first rank, and the board so far.
pub struct PlacementScan {
    pub rank: int,
    pub file: int,
    pub past_first_rank: bool,
    pub board: BoardRep,
}

/// One character of the piece placement: '/' starts the next rank down (none below the
/// first), a digit skips that many files (up to 64), a piece letter puts the piece on the
/// next file of the rank (while the file and rank are on the board) and any other character
/// takes a file.
pub open spec fn placement_step(st: PlacementScan, c: char) -> PlacementScan {
    if c == '/' {
        if st.rank == 0 {
            PlacementScan { file: 0, past_first_rank: true, ..st }
        } else {
            PlacementScan { rank: st.rank - 1, file: 0, ..st }
        }
    } else if '1' <= c <= '8' {
        let d = c as int - '0' as int;
        PlacementScan { file: if st.file + d <= 64 { st.file + d } else { 64 }, ..st }
    } else {
        let p = piece_from_char_spec(c);
        let board = if p != PieceType::NoPiece && st.file < 8 && !st.past_first_rank {
            put_piece(st.board, st.rank * 8 + (7 - st.file), p, 'a' <= c <= 'z')
        } else {
            st.board
        };
        PlacementScan { board, file: if st.file < 64 { st.file + 1 } else { st.file }, ..st }
    }
}

/// The reading of the first `n` characters of a piece placement, from the eighth rank's
/// first file on `b`.
pub open spec fn placement_scan(cs: Seq<char>, n: nat, b: BoardRep) -> PlacementScan
    decreases n,
{
    if n == 0 {
        PlacementScan { rank: 7, file: 0, past_first_rank: false, board: b }
    } else {
        placement_step(placement_scan(cs, (n - 1) as nat, b), cs[n - 1])
    }
}

/// The first position from `i` on that is not a space (or the end).
pub open spec fn skip_spaces_spec(cs: Seq<char>, i: int) -> int
    decreases cs.len() - i,
{
    if 0 <= i < cs.len() && cs[i] == ' ' { skip_spaces_spec(cs, i + 1) } else { i }
}

/// The first position from `i` on that is a space (or the end).
pub open spec fn skip_word_spec(cs: Seq<char>, i: int) -> int
    decreases cs.len() - i,
{
    if 0 <= i < cs.len() && cs[i] != ' ' { skip_word_spec(cs, i + 1) } else { i }
}

/// Whether character `c` occurs at a position from `a` up to (not including) `b`.
pub open spec fn char_between(cs: Seq<char>, a: int, b: int, c: char) -> bool {
    exists|j: int| a <= j < b && #[trigger] cs[j] == c
}

/// A board with the side to move, castling rights and en passant square read from the
/// fields after position `i`: black to move when the next field starts with 'b'; each of
/// "KQkq" in the field after it gives its right; the field after that names the en passant
/// square when its first two characters are a file letter and a rank digit.
pub open spec fn fen_state_spec(b: BoardRep, cs: Seq<char>, i: int) -> BoardRep {
    let n = cs.len() as int;
    let t = skip_spaces_spec(cs, i);
    let c0 = skip_spaces_spec(cs, skip_word_spec(cs, t));
    let c1 = skip_word_spec(cs, c0);
    let e = skip_spaces_spec(cs, c1);
    let ep_ok = n > 0 && e < n - 1 && crate::board_utils::file_from_char_spec(cs[e]) < 8 && '1' <= cs[e + 1] <= '8';
    BoardRep {
        black_turn: b.black_turn || (t < n && cs[t] == 'b'),
        white_king_side_castling: b.white_king_side_castling || char_between(cs, c0, c1, 'K'),
        white_queen_side_castling: b.white_queen_side_castling || char_between(cs, c0, c1, 'Q'),
        black_king_side_castling: b.black_king_side_castling || char_between(cs, c0, c1, 'k'),
        black_queen_side_castling: b.black_queen_side_castling || char_between(cs, c0, c1, 'q'),
        ep_index: if ep_ok {
            ((cs[e + 1] as int - '1' as int) * 8 + (7 - crate::board_utils::file_from_char_spec(cs[e]))) as u8
        } else {
            b.ep_index
        },
        ..b
    }
}

/// The empty board that reading a FEN starts from: no pieces, no kings, white to move, no
/// castling rights and no en passant square.
pub open spec fn fen_start_board() -> BoardRep {
    BoardRep {
        pawn_bitboard: 0,
        knight_bitboard: 0,
        bishop_bitboard: 0,
        rook_bitboard: 0,
        queen_bitboard: 0,
        white_occupancy: 0,
        black_occupancy: 0,
        occupancy: 0,
        white_king_position: u8::MAX,
        black_king_position: u8::MAX,
        black_turn: false,
        white_king_side_castling: false,
        white_queen_side_castling: false,
        black_king_side_castling: false,
        black_queen_side_castling: false,
        ep_index: u8::MAX,
        zorb_key: 0,
    }
}

/// The board a FEN describes (with no hash): the piece placement up to the first space read
/// by `placement_scan`, the other fields by `fen_state_spec`, the occupied squares the union
/// of the two colours.
pub open spec fn fen_board_spec(cs: Seq<char>) -> BoardRep {
    let i = skip_word_spec(cs, 0);
    let b = fen_state_spec(placement_scan(cs, i as nat, fen_start_board()).board, cs, i);
    BoardRep { occupancy: b.white_occupancy | b.black_occupancy, ..b }
}

impl BoardRep {
    /// Both kings on the board, the en passant square on the board or `u8::MAX`, and the
    /// occupancy the union of the two colours.
    pub open spec fn wf(&self) -> bool {
        &&& self.white_king_position < 64
        &&& self.black_king_position < 64
        &&& (self.ep_index == u8::MAX || self.ep_index < 64)
        &&& self.occupancy == self.white_occupancy | self.black_occupancy
    }

    /// Whether the board is well formed (see `wf`).
    pub fn is_valid(&self) -> (r: bool)
        ensures
            r == self.wf(),
    {
        self.white_king_position < 64 && self.black_king_position < 64 && (self.ep_index == u8::MAX
            || self.ep_index < 64) && self.occupancy == self.white_occupancy | self.black_occupancy
    }

    /// The type of the piece on a square (`NoPiece` for an empty square).
    pub fn get_piece_type_at_index(&self, index: u8) -> (r: PieceType)
        requires
            index < 64,
        ensures
            r == piece_at(*self, index as int),
    {
        if (self.pawn_bitboard >> (index as u64)) & 1 == 1 {
            PieceType::Pawn
        } else if (self.knight_bitboard >> (index as u64)) & 1 == 1 {
            PieceType::Knight
        } else if (self.bishop_bitboard >> (index as u64)) & 1 == 1 {
            PieceType::Bishop
        } else if (self.rook_bitboard >> (index as u64)) & 1 == 1 {
            PieceType::Rook
        } else if (self.queen_bitboard >> (index as u64)) & 1 == 1 {
            PieceType::Queen
        } else if index == self.white_king_position || index == self.black_king_position {
            PieceType::King
        } else {
            PieceType::NoPiece
        }
    }

    /// The squares of the side not to move.
    pub fn get_opponent_occupancy(&self) -> (r: u64)
        ensures
            r == if self.black_turn { self.white_occupancy } else { self.black_occupancy },
    {
        if self.black_turn {
            self.white_occupancy
        } else {
            self.black_occupancy
        }
    }

    /// The squares of the side to move.
    pub fn get_friendly_occupancy(&self) -> (r: u64)
        ensures
            r == if self.black_turn { self.black_occupancy } else { self.white_occupancy },
    {
        if self.black_turn {
            self.black_occupancy
        } else {
            self.white_occupancy
        }
    }

    /// The board with its hash computed with the fixed keys.
    pub fn with_hash(self) -> (r: BoardRep)
        requires
            self.ep_index == u8::MAX || self.ep_index < 64,
        ensures
            exists|z: ZorbSet| z.is_fixed() && r == (BoardRep { zorb_key: z.hash_spec(self), ..self }),
    {
        let z = ZorbSet::precomputed();
        let key = z.hash(&self);
        BoardRep { zorb_key: key, ..self }
    }

    /// The starting position, white to move with all castling rights.
    pub fn default_board() -> (r: BoardRep)
        ensures
            r.wf(),
            !r.black_turn,
            r.white_king_position == 3,
            r.black_king_position == 59,
            r.white_occupancy == 0xFFFFu64,
            r.black_occupancy == 0xFFFF000000000000u64,
            r.pawn_bitboard == 0x00FF00000000FF00u64,
            r.white_king_side_castling && r.white_queen_side_castling,
            r.black_king_side_castling && r.black_queen_side_castling,
            r.ep_index == u8::MAX,
    {
        let b = BoardRep {
            pawn_bitboard: 0x00FF00000000FF00u64,
            knight_bitboard: 0x4200000000000042u64,
            bishop_bitboard: 0x2400000000000024u64,
            rook_bitboard: 0x8100000000000081u64,
            queen_bitboard: 0x1000000000000010u64,
            white_occupancy: 0xFFFFu64,
            black_occupancy: 0xFFFF000000000000u64,
            occupancy: 0xFFFF00000000FFFFu64,
            white_king_position: 3,
            black_king_position: 59,
            black_turn: false,
            white_king_side_castling: true,
            white_queen_side_castling: true,
            black_king_side_castling: true,
            black_queen_side_castling: true,
            ep_index: u8::MAX,
            zorb_key: 0,
        };
        assert(0xFFFF00000000FFFFu64 == 0xFFFFu64 | 0xFFFF000000000000u64) by (bit_vector);
        b.with_hash()
    }

    /// Reads the first four fields of a FEN: piece placement, side to move, castling rights and
    /// en passant square. Unknown characters and squares beyond the board are skipped; a
    /// missing king is reported by a king square of `u8::MAX`.
    pub fn from_fen(fen: String) -> (r: BoardRep)
        ensures
            r.ep_index == u8::MAX || r.ep_index < 64,
            r.white_king_position < 64 || r.white_king_position == u8::MAX,
            r.black_king_position < 64 || r.black_king_position == u8::MAX,
            r.occupancy == r.white_occupancy | r.black_occupancy,
            (r.white_king_position < 64 && r.black_king_position < 64) ==> r.wf(),
            (BoardRep { zorb_key: 0, ..r }) == fen_board_spec(fen@),
            exists|z: ZorbSet| z.is_fixed() && r.zorb_key == z.hash_spec(BoardRep { zorb_key: 0, ..r }),
    {
        let cs = chars_of(fen.as_str());
        let mut b = BoardRep {
            pawn_bitboard: 0,
            knight_bitboard: 0,
            bishop_bitboard: 0,
            rook_bitboard: 0,
            queen_bitboard: 0,
            white_occupancy: 0,
            black_occupancy: 0,
            occupancy: 0,
            white_king_position: u8::MAX,
            black_king_position: u8::MAX,
            black_turn: false,
            white_king_side_castling: false,
            white_queen_side_castling: false,
            black_king_side_castling: false,
            black_queen_side_castling: false,
            ep_index: u8::MAX,
            zorb_key: 0,
        };
        let ghost b0 = b;
        let i = parse_placement(&cs, &mut b);
        proof {
            lemma_skip_word_end(cs@, 0, i as int);
            assert(b0 == fen_start_board());
        }
        parse_state(&cs, i, &mut b);
        b.occupancy = b.white_occupancy | b.black_occupancy;
        assert(b == fen_board_spec(fen@));
        let z = ZorbSet::precomputed();
        let key = z.hash(&b);
        let r = BoardRep { zorb_key: key, ..b };
        assert(BoardRep { zorb_key: 0, ..r } == b);
        r
    }

    fn push_castling(&self, s: &mut String)
        ensures
            final(s)@ == old(s)@ + castling_text(*self),
    {
        let ghost start = s@;
        let ghost k = if self.white_king_side_castling { seq!['K'] } else { seq![] };
        let ghost q = if self.white_queen_side_castling { seq!['Q'] } else { seq![] };
        let ghost bk = if self.black_king_side_castling { seq!['k'] } else { seq![] };
        let ghost bq = if self.black_queen_side_castling { seq!['q'] } else { seq![] };
        let mut any_castling = false;
        if self.white_king_side_castling {
            push_char(s, 'K');
            any_castling = true;
        }
        assert(s@ =~= start + k);
        if self.white_queen_side_castling {
            push_char(s, 'Q');
            any_castling = true;
        }
        assert(s@ =~= start + k + q);
        if self.black_king_side_castling {
            push_char(s, 'k');
            any_castling = true;
        }
        assert(s@ =~= start + k + q + bk);
        if self.black_queen_side_castling {
            push_char(s, 'q');
            any_castling = true;
        }
        assert(s@ =~= start + (k + q + bk + bq));
        assert(any_castling == ((k + q + bk + bq).len() > 0));
        if !any_castling {
            push_char(s, '-');
        }
    }

    /// Appends the side to move, castling rights and en passant square.
    fn push_fen_tail(&self, s: &mut String)
        requires
            self.ep_index == u8::MAX || self.ep_index < 64,
        ensures
            final(s)@ == old(s)@ + fen_tail_text(*self),
    {
        let ghost start = s@;
        push_char(s, ' ');
        push_char(s, if self.black_turn { 'b' } else { 'w' });
        push_char(s, ' ');
        self.push_castling(s);
        push_char(s, ' ');
        if self.ep_index == u8::MAX {
            push_char(s, '-');
        } else {
            let c = get_coords_from_index(self.ep_index);
            push_str(s, c.as_str());
        }
        assert(s@ =~= start + fen_tail_text(*self));
    }

    /// Appends the FEN text of a rank.
    fn push_rank_text(&self, s: &mut String, rank: u8)
        requires
            rank < 8,
        ensures
            final(s)@ == old(s)@ + rank_text(*self, rank as int, 0, 0),
    {
        let ghost start = s@;
        let mut empty: u8 = 0;
        let mut file: u8 = 0;
        while file < 8
            invariant
                file <= 8,
                rank < 8,
                empty <= file,
                s@ + rank_text(*self, rank as int, file as int, empty as int) == start + rank_text(*self, rank as int, 0, 0),
            decreases 8 - file,
        {
            let index = rank * 8 + (7 - file);
            let is_black = (self.black_occupancy >> (index as u64)) & 1 == 1;
            let piece = if (self.occupancy >> (index as u64)) & 1 == 1 {
                self.get_piece_type_at_index(index)
            } else {
                PieceType::NoPiece
            };
            if piece == PieceType::NoPiece {
                assert(fen_square(*self, index as int) is None);
                empty = empty + 1;
            } else {
                let ghost before = s@;
                let ghost e0 = empty as int;
                if empty > 0 {
                    push_char(s, ('0' as u8 + empty) as char);
                    empty = 0;
                }
                let c = get_piece_char(piece, is_black);
                push_char(s, c);
                assert(fen_square(*self, index as int) == Some(c));
                assert(s@ =~= before + (if e0 > 0 { seq![run_digit(e0)] } else { seq![] }) + seq![c]);
            }
            file = file + 1;
        }
        if empty > 0 {
            push_char(s, ('0' as u8 + empty) as char);
        }
        assert(s@ =~= start + rank_text(*self, rank as int, 0, 0));
    }

    /// The first four fields of the board's FEN: piece placement, side to move, castling
    /// rights and en passant square.
    pub fn to_fen(&self) -> (r: String)
        requires
            self.ep_index == u8::MAX || self.ep_index < 64,
        ensures
            r@ == fen_fields_text(*self),
            r@.len() > 0,
    {
        let mut s = String::new();
        let mut rank: u8 = 8;
        while rank > 0
            invariant
                rank <= 8,
                rank == 8 ==> s@.len() == 0,
                0 < rank < 8 ==> s@ + placement_text(*self, rank - 1) == placement_text(*self, 7),
                rank == 0 ==> s@ == placement_text(*self, 7),
            decreases rank,
        {
            rank = rank - 1;
            let ghost before = s@;
            self.push_rank_text(&mut s, rank);
            if rank > 0 {
                push_char(&mut s, '/');
                assert(placement_text(*self, rank as int) == rank_text(*self, rank as int, 0, 0) + seq!['/'] + placement_text(*self, rank - 1));
                assert(s@ =~= before + rank_text(*self, rank as int, 0, 0) + seq!['/']);
                if rank < 7 {
                    assert(before + placement_text(*self, rank as int) == placement_text(*self, 7));
                }
            } else {
                assert(placement_text(*self, 0) == rank_text(*self, 0, 0, 0));
            }
        }
        self.push_fen_tail(&mut s);
        assert(s@ =~= fen_fields_text(*self));
        s
    }
}

/// Reads the piece placement field; returns the position just after it.
fn parse_placement(cs: &Vec<char>, b: &mut BoardRep) -> (i: usize)
    requires
        old(b).white_king_position == u8::MAX,
        old(b).black_king_position == u8::MAX,
        old(b).ep_index == u8::MAX,
        old(b).zorb_key == 0,
    ensures
        i <= cs@.len(),
        i == cs@.len() || cs@[i as int] == ' ',
        forall|j: int| 0 <= j < i ==> cs@[j] != ' ',
        *final(b) == placement_scan(cs@, i as nat, *old(b)).board,
        final(b).white_king_position < 64 || final(b).white_king_position == u8::MAX,
        final(b).black_king_position < 64 || final(b).black_king_position == u8::MAX,
        final(b).ep_index == u8::MAX,
        final(b).zorb_key == 0,
{
    let n = cs.len();
    let mut i: usize = 0;
    let mut rank: u8 = 7;
    let mut file: u8 = 0;
    let mut past_first_rank = false;
    while i < n && cs[i] != ' '
        invariant
            n == cs@.len(),
            i <= n,
            rank < 8,
            file <= 64,
            b.white_king_position < 64 || b.white_king_position == u8::MAX,
            b.black_king_position < 64 || b.black_king_position == u8::MAX,
            b.ep_index == u8::MAX,
            b.zorb_key == 0,
            forall|j: int| 0 <= j < i ==> cs@[j] != ' ',
            placement_scan(cs@, i as nat, *old(b)) == (PlacementScan { rank: rank as int, file: file as int, past_first_rank, board: *b }),
        decreases n - i,
    {
        let c = cs[i];
        if c == '/' {
            if rank == 0 {
                past_first_rank = true;
            } else {
                rank = rank - 1;
            }
            file = 0;
        } else if '1' <= c && c <= '8' {
            let d = (c as u32 - '0' as u32) as u8;
            if file + d <= 64 {
                file = file + d;
            } else {
                file = 64;
            }
        } else {
            let piece = piece_type_from_char_or_none(c);
            if piece != PieceType::NoPiece && file < 8 && !past_first_rank {
                let index: u8 = rank * 8 + (7 - file);
                let black = 'a' <= c && c <= 'z';
                let bit: u64 = 1u64 << index;
                match piece {
                    PieceType::Pawn => b.pawn_bitboard = b.pawn_bitboard | bit,
                    PieceType::Knight => b.knight_bitboard = b.knight_bitboard | bit,
                    PieceType::Bishop => b.bishop_bitboard = b.bishop_bitboard | bit,
                    PieceType::Rook => b.rook_bitboard = b.rook_bitboard | bit,
                    PieceType::Queen => b.queen_bitboard = b.queen_bitboard | bit,
                    _ => {
                        if black {
                            b.black_king_position = index;
                        } else {
                            b.white_king_position = index;
                        }
                    },
                }
                if black {
                    b.black_occupancy = b.black_occupancy | bit;
                } else {
                    b.white_occupancy = b.white_occupancy | bit;
                }
            }
            if file < 64 {
                file = file + 1;
            }
        }
        i += 1;
    }
    i
}

/// The position of the next character that is not a space, from `i` on.
fn skip_spaces(cs: &Vec<char>, i: usize) -> (r: usize)
    requires
        i <= cs@.len(),
    ensures
        i <= r <= cs@.len(),
        r == skip_spaces_spec(cs@, i as int),
{
    let mut j = i;
    while j < cs.len() && cs[j] == ' '
        invariant
            i <= j <= cs@.len(),
            skip_spaces_spec(cs@, j as int) == skip_spaces_spec(cs@, i as int),
        decreases cs@.len() - j,
    {
        j += 1;
    }
    j
}

/// The position of the next space, from `i` on.
fn skip_word(cs: &Vec<char>, i: usize) -> (r: usize)
    requires
        i <= cs@.len(),
    ensures
        i <= r <= cs@.len(),
        r == skip_word_spec(cs@, i as int),
{
    let mut j = i;
    while j < cs.len() && cs[j] != ' '
        invariant
            i <= j <= cs@.len(),
            skip_word_spec(cs@, j as int) == skip_word_spec(cs@, i as int),
        decreases cs@.len() - j,
    {
        j += 1;
    }
    j
}

proof fn lemma_skip_word_bound(cs: Seq<char>, i: int)
    requires
        0 <= i <= cs.len(),
    ensures
        i <= skip_word_spec(cs, i) <= cs.len(),
    decreases cs.len() - i,
{
    if i < cs.len() && cs[i] != ' ' {
        lemma_skip_word_bound(cs, i + 1);
    }
}

proof fn lemma_skip_word_end(cs: Seq<char>, a: int, i: int)
    requires
        0 <= a <= i <= cs.len(),
        forall|j: int| a <= j < i ==> cs[j] != ' ',
        i == cs.len() || cs[i] == ' ',
    ensures
        skip_word_spec(cs, a) == i,
    decreases i - a,
{
    if a < i {
        lemma_skip_word_end(cs, a + 1, i);
    }
}

/// Reads the side to move, the castling rights and the en passant square from position `i` on.
fn parse_state(cs: &Vec<char>, i: usize, b: &mut BoardRep)
    requires
        i <= cs@.len(),
        old(b).ep_index == u8::MAX,
    ensures
        *final(b) == fen_state_spec(*old(b), cs@, i as int),
        final(b).ep_index == u8::MAX || final(b).ep_index < 64,
        final(b).white_king_position == old(b).white_king_position,
        final(b).black_king_position == old(b).black_king_position,
        final(b).white_occupancy == old(b).white_occupancy,
        final(b).black_occupancy == old(b).black_occupancy,
        final(b).zorb_key == old(b).zorb_key,
{
    let n = cs.len();
    let ghost b0 = *b;
    let ghost i0 = i as int;
    let mut i = skip_spaces(cs, i);
    if i < n && cs[i] == 'b' {
        b.black_turn = true;
    }
    i = skip_word(cs, i);
    i = skip_spaces(cs, i);
    let ghost c0 = i as int;
    let ghost c1 = skip_word_spec(cs@, c0);
    proof {
        lemma_skip_word_bound(cs@, c0);
    }
    while i < n && cs[i] != ' '
        invariant
            n == cs@.len(),
            c0 <= i <= n,
            c1 == skip_word_spec(cs@, c0),
            skip_word_spec(cs@, i as int) == c1,
            forall|j: int| c0 <= j < i ==> cs@[j] != ' ',
            b.black_turn == fen_state_spec(b0, cs@, i0).black_turn,
            b.pawn_bitboard == b0.pawn_bitboard,
            b.knight_bitboard == b0.knight_bitboard,
            b.bishop_bitboard == b0.bishop_bitboard,
            b.rook_bitboard == b0.rook_bitboard,
            b.queen_bitboard == b0.queen_bitboard,
            b.occupancy == b0.occupancy,
            b.white_king_side_castling == (b0.white_king_side_castling || char_between(cs@, c0, i as int, 'K')),
            b.white_queen_side_castling == (b0.white_queen_side_castling || char_between(cs@, c0, i as int, 'Q')),
            b.black_king_side_castling == (b0.black_king_side_castling || char_between(cs@, c0, i as int, 'k')),
            b.black_queen_side_castling == (b0.black_queen_side_castling || char_between(cs@, c0, i as int, 'q')),
            b.ep_index == u8::MAX,
            b.white_king_position == old(b).white_king_position,
            b.black_king_position == old(b).black_king_position,
            b.white_occupancy == old(b).white_occupancy,
            b.black_occupancy == old(b).black_occupancy,
            b.zorb_key == old(b).zorb_key,
        decreases n - i,
    {
        let c = cs[i];
        let ghost ii = i as int;
        if c == 'K' {
            b.white_king_side_castling = true;
        } else if c == 'Q' {
            b.white_queen_side_castling = true;
        } else if c == 'k' {
            b.black_king_side_castling = true;
        } else if c == 'q' {
            b.black_queen_side_castling = true;
        }
        i += 1;
        proof {
            assert forall|ch: char| char_between(cs@, c0, i as int, ch) <==> (char_between(cs@, c0, ii, ch) || cs@[ii] == ch) by {
                if char_between(cs@, c0, i as int, ch) {
                    let j = choose|j: int| c0 <= j < i && #[trigger] cs@[j] == ch;
                    if j < ii {
                        assert(char_between(cs@, c0, ii, ch));
                    }
                }
            }
        }
    }
    assert(i as int == c1);
    i = skip_spaces(cs, i);
    if n > 0 && i < n - 1 {
        let f = file_from_char(cs[i]);
        let rc = cs[i + 1];
        if f < 8 && '1' <= rc && rc <= '8' {
            let r = (rc as u32 - '1' as u32) as u8;
            b.ep_index = r * 8 + (7 - f);
        }
    }
}

impl Default for BoardRep {
    fn default() -> (r: BoardRep)
        ensures
            r.wf(),
            !r.black_turn,
            r.white_king_position == 3,
            r.black_king_position == 59,
    {
        BoardRep::default_board()
    }
}

} // verus!

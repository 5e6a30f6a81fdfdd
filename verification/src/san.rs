use vstd::prelude::*;
use crate::board_utils::{char_from_file, coords_spec, file_char_spec, file_of, get_coords_from_index, get_file, get_rank, rank_of};
use crate::chess_move::{Move, promotion_suffix};
use crate::constants::{MF_KING_CASTLING, MF_QUEEN_CASTLING};
use crate::board_rep::{BoardRep, piece_at};
use crate::game_state::{GameState, leaves_king_in_check};
use crate::make_move::{after_segments_spec, move_segments_spec};
use crate::position::{black_check_spec, white_check_spec};
use crate::move_generation::{all_from_own_pieces, generate_moves_for_board, moves_by};
use crate::piece_type::{PieceType, get_piece_char, piece_char_spec};
use crate::text::{push_char, push_str};

verus! {

/// The notation of a castling move.
pub open spec fn castling_san(m: Move) -> Seq<char> {
    if m.flags_spec() == MF_KING_CASTLING { seq!['O', '-', 'O'] } else { seq!['O', '-', 'O', '-', 'O'] }
}

/// The UCI text of a move.
pub open spec fn uci_spec(m: Move) -> Seq<char> {
    coords_spec(m.from_spec() as int) + coords_spec(m.to_spec() as int) + promotion_suffix(m.flags_spec())
}

/// The letter that starts a piece's move in algebraic notation (none for a pawn).
pub open spec fn piece_prefix(p: PieceType) -> Seq<char> {
    if piece_char_spec(p, false) != 'P' { seq![piece_char_spec(p, false)] } else { seq![] }
}

/// The tail of a move's notation: the capture mark, the target square and the check mark.
pub open spec fn san_tail(m: Move, check: bool) -> Seq<char> {
    (if m.capture_spec() { seq!['x'] } else { seq![] }) + coords_spec(m.to_spec() as int) + (if check {
        seq!['+']
    } else {
        seq![]
    })
}

fn castling_text(m: &Move) -> (r: String)
    requires
        m.is_castling_spec(),
    ensures
        r@ == castling_san(*m),
{
    let mut r = String::new();
    if m.is_king_castling() {
        push_str(&mut r, "O-O");
        proof {
            reveal_strlit("O-O");
        }
    } else {
        push_str(&mut r, "O-O-O");
        proof {
            reveal_strlit("O-O-O");
        }
    }
    assert(r@ =~= castling_san(*m));
    r
}

/// Whether a move gives check: the game takes it (it leaves the mover's king out of check)
/// and the opponent's king stands in check after it.
pub open spec fn gives_check_spec(b: BoardRep, m: Move) -> bool {
    let a = after_segments_spec(b, move_segments_spec(b, m), 0);
    !leaves_king_in_check(b, m) && if m.black_spec() { white_check_spec(a) } else { black_check_spec(a) }
}

/// Whether the side that made a move gave check with it: the move is made in the game and
/// the opponent's king stands in check; a move the game refuses gives none.
fn gives_check(game: &GameState, m: Move) -> (r: bool)
    requires
        game.wf(),
        game.half_moves < 255,
        game.full_moves < u32::MAX,
    ensures
        r == gives_check_spec(game.position.board, m),
{
    match game.make(m) {
        Some(next) => (m.is_black() && next.position.white_in_check) || (!m.is_black()
            && next.position.black_in_check),
        None => false,
    }
}

impl Move {
    /// Whether the move castles.
    pub open spec fn is_castling_spec(self) -> bool {
        self.flags_spec() == MF_KING_CASTLING || self.flags_spec() == MF_QUEEN_CASTLING
    }
}

/// Whether a candidate move reaches a move's target square from another square.
pub open spec fn rival_of(c: Move, m: Move) -> bool {
    c.to_spec() == m.to_spec() && c.from_spec() != m.from_spec()
}

/// Whether a rival of a move is made by a piece of the move's type.
pub open spec fn same_type_rival(c: Move, m: Move, b: BoardRep) -> bool {
    rival_of(c, m) && piece_at(b, c.from_spec() as int) == m.piece_spec()
}

/// Whether a rival of a move starts on the square whose index equals the number of the move's
/// from file (the test that the notation makes of files).
pub open spec fn file_index_rival(c: Move, m: Move) -> bool {
    rival_of(c, m) && c.from_spec() as int == file_of(m.from_spec() as int)
}

/// Whether the standard notation of a move names its from file, given the moves of the position.
pub open spec fn san_shows_file(cands: Seq<Move>, m: Move, b: BoardRep) -> bool {
    let same_type = exists|j: int| 0 <= j < cands.len() && #[trigger] same_type_rival(cands[j], m, b);
    let file_index = exists|j: int| 0 <= j < cands.len() && #[trigger] file_index_rival(cands[j], m);
    same_type && !(file_index && m.piece_spec() == PieceType::Pawn)
}

/// The standard notation of a move that neither castles nor promotes, given the moves of the
/// position and whether the move gives check.
pub open spec fn san_text(cands: Seq<Move>, m: Move, b: BoardRep, check: bool) -> Seq<char> {
    piece_prefix(m.piece_spec()) + (if san_shows_file(cands, m, b) {
        seq![file_char_spec(file_of(m.from_spec() as int))]
    } else {
        seq![]
    }) + san_tail(m, check)
}

/// Whether a candidate move counts toward naming the from rank: it reaches the target square and
/// is made by a piece of the move's type, or the move is a pawn's.
pub open spec fn targets_square(c: Move, m: Move, b: BoardRep) -> bool {
    c.to_spec() == m.to_spec() && (piece_at(b, c.from_spec() as int) == m.piece_spec()
        || m.piece_spec() == PieceType::Pawn)
}

/// How many moves of a list count toward naming the from rank.
pub open spec fn targeting_count(cands: Seq<Move>, m: Move, b: BoardRep) -> nat
    decreases cands.len(),
{
    if cands.len() == 0 {
        0
    } else {
        targeting_count(cands.drop_last(), m, b) + if targets_square(cands.last(), m, b) {
            1nat
        } else {
            0nat
        }
    }
}

/// The notation of a move that neither castles nor promotes as one site writes it, given the
/// moves of the position and whether the move gives check.
pub open spec fn lichess_text(cands: Seq<Move>, m: Move, b: BoardRep, check: bool) -> Seq<char> {
    piece_prefix(m.piece_spec()) + seq![file_char_spec(file_of(m.from_spec() as int))] + (if targeting_count(
        cands,
        m,
        b,
    ) > 1 && m.piece_spec() != PieceType::Pawn {
        seq![(rank_of(m.from_spec() as int) + 49) as char]
    } else {
        seq![]
    }) + san_tail(m, check)
}

/// Whether a list is one the move generator may give for the position (see
/// `generate_moves_for_board`): moves of the side to move by its own pieces, sound and
/// complete for an analysis of its king.
pub open spec fn position_moves(cands: Seq<Move>, b: BoardRep) -> bool {
    &&& moves_by(cands, b.black_turn)
    &&& all_from_own_pieces(cands, b)
    &&& exists|a: crate::king_analysis::KingPositionAnalysis|
        #[trigger] crate::move_generation::friendly_analysis_ok(a, b) && crate::move_generation::moves_for_analysis(cands, b, a)
}

impl GameState {
    /// The standard algebraic notation of a move: castling as "O-O" or "O-O-O", a promotion
    /// as its UCI text; otherwise the piece letter, the from file where another move of the
    /// same piece type reaches the target square, "x" for a capture, the target square, and
    /// "+" when the move gives check.
    pub fn to_san(&self, m: Move) -> (r: String)
        requires
            self.wf(),
            self.half_moves < 255,
            self.full_moves < u32::MAX,
        ensures
            m.is_castling_spec() ==> r@ == castling_san(m),
            !m.is_castling_spec() && m.flags_spec() & 8 == 8 ==> r@ == uci_spec(m),
            !m.is_castling_spec() && m.flags_spec() & 8 != 8 ==> exists|cands: Seq<Move>|
                #[trigger] position_moves(cands, self.position.board) && r@ == san_text(
                    cands,
                    m,
                    self.position.board,
                    gives_check_spec(self.position.board, m),
                ),
    {
        let piece_type = m.piece_type();
        let piece_letter = get_piece_char(piece_type, false);
        let from_file = get_file(m.from());
        if m.is_castling() {
            return castling_text(&m);
        }
        let mut r = String::new();
        if piece_letter != 'P' {
            push_char(&mut r, piece_letter);
        }
        let ghost prefix = r@;
        let ghost b = self.position.board;
        let mut duplicate_piece_type = false;
        let mut duplicate_files = false;
        let mut duplicate_pawns = false;
        let candidates = generate_moves_for_board(self.position.board);
        let mut i: usize = 0;
        while i < candidates.len()
            invariant
                i <= candidates@.len(),
                moves_by(candidates@, b.black_turn),
                b == self.position.board,
                piece_type == m.piece_spec(),
                from_file as int == file_of(m.from_spec() as int),
                duplicate_piece_type == exists|j: int| 0 <= j < i && #[trigger] same_type_rival(candidates@[j], m, b),
                duplicate_files == exists|j: int| 0 <= j < i && #[trigger] file_index_rival(candidates@[j], m),
                duplicate_pawns == (duplicate_piece_type && piece_type == PieceType::Pawn),
            decreases candidates@.len() - i,
        {
            let c_m = candidates[i];
            let ghost old_type = duplicate_piece_type;
            let ghost old_files = duplicate_files;
            if c_m.to() == m.to() {
                let cm_from = c_m.from();
                if cm_from != m.from() {
                    if cm_from == from_file {
                        duplicate_files = true;
                    }
                    let cm_piece = self.position.board.get_piece_type_at_index(cm_from);
                    if cm_piece == piece_type {
                        duplicate_piece_type = true;
                        if piece_type == PieceType::Pawn {
                            duplicate_pawns = true;
                        }
                    }
                }
            }
            assert(duplicate_piece_type == (old_type || same_type_rival(candidates@[i as int], m, b)));
            assert(duplicate_files == (old_files || file_index_rival(candidates@[i as int], m)));
            i = i + 1;
        }
        let add_file = duplicate_piece_type && !(duplicate_files && duplicate_pawns);
        assert(add_file == san_shows_file(candidates@, m, b));
        if add_file {
            push_char(&mut r, char_from_file(from_file));
        }
        if m.is_promotion() {
            return m.uci();
        }
        if m.is_capture() {
            push_char(&mut r, 'x');
        }
        let to_coords = get_coords_from_index(m.to());
        push_str(&mut r, to_coords.as_str());
        let check = gives_check(self, m);
        if check {
            push_char(&mut r, '+');
        }
        assert(r@ =~= san_text(candidates@, m, b, check));
        assert(position_moves(candidates@, b));
        r
    }

    /// The algebraic notation of a move as one site writes it: castling as "O-O" or "O-O-O",
    /// a promotion as its UCI text; otherwise the piece letter, the from file, the from rank
    /// where another move of the same piece type (any move, for a pawn) reaches the target
    /// square and the piece is not a pawn, "x" for a capture, the target square, and "+" when
    /// the move gives check.
    pub fn to_san_lichess(&self, m: Move) -> (r: String)
        requires
            self.wf(),
            self.half_moves < 255,
            self.full_moves < u32::MAX,
        ensures
            m.is_castling_spec() ==> r@ == castling_san(m),
            !m.is_castling_spec() && m.flags_spec() & 8 == 8 ==> r@ == uci_spec(m),
            !m.is_castling_spec() && m.flags_spec() & 8 != 8 ==> exists|cands: Seq<Move>|
                #[trigger] position_moves(cands, self.position.board) && r@ == lichess_text(
                    cands,
                    m,
                    self.position.board,
                    gives_check_spec(self.position.board, m),
                ),
    {
        let piece_type = m.piece_type();
        let piece_letter = get_piece_char(piece_type, false);
        if m.is_castling() {
            return castling_text(&m);
        }
        let mut r = String::new();
        if piece_letter != 'P' {
            push_char(&mut r, piece_letter);
        }
        let ghost b = self.position.board;
        let mut targeting: usize = 0;
        let candidates = generate_moves_for_board(self.position.board);
        let mut i: usize = 0;
        while i < candidates.len()
            invariant
                i <= candidates@.len(),
                moves_by(candidates@, b.black_turn),
                b == self.position.board,
                piece_type == m.piece_spec(),
                targeting == targeting_count(candidates@.take(i as int), m, b),
                targeting <= i,
            decreases candidates@.len() - i,
        {
            let c_m = candidates[i];
            assert(candidates@.take(i + 1).drop_last() =~= candidates@.take(i as int));
            let cm_piece = self.position.board.get_piece_type_at_index(c_m.from());
            if c_m.to() == m.to() && (cm_piece == piece_type || piece_type == PieceType::Pawn) {
                targeting = targeting + 1;
            }
            i = i + 1;
        }
        assert(candidates@.take(i as int) =~= candidates@);
        let ghost prefix = r@;
        assert(prefix =~= piece_prefix(piece_type));
        push_char(&mut r, char_from_file(get_file(m.from())));
        let ghost head = r@;
        if targeting > 1 && piece_type != PieceType::Pawn {
            let from_rank = get_rank(m.from()) + 1;
            push_char(&mut r, ((from_rank + 48) as u8) as char);
        }
        if m.is_promotion() {
            return m.uci();
        }
        if m.is_capture() {
            push_char(&mut r, 'x');
        }
        let to_coords = get_coords_from_index(m.to());
        push_str(&mut r, to_coords.as_str());
        let check = gives_check(self, m);
        if check {
            push_char(&mut r, '+');
        }
        assert(r@ =~= lichess_text(candidates@, m, b, check));
        assert(position_moves(candidates@, b));
        r
    }
}

/// What `GameState::to_san_lichess` promises of the text of a move in a game.
#[verifier::opaque]
pub open spec fn lichess_ok(g: GameState, m: Move, t: Seq<char>) -> bool {
    &&& m.is_castling_spec() ==> t == castling_san(m)
    &&& !m.is_castling_spec() && m.flags_spec() & 8 == 8 ==> t == uci_spec(m)
    &&& !m.is_castling_spec() && m.flags_spec() & 8 != 8 ==> exists|cands: Seq<Move>|
        #[trigger] position_moves(cands, g.position.board) && t == lichess_text(
            cands,
            m,
            g.position.board,
            gives_check_spec(g.position.board, m),
        )
}

/// Texts each preceded by a space.
pub open spec fn spaced(texts: Seq<Seq<char>>) -> Seq<char>
    decreases texts.len(),
{
    if texts.len() == 0 {
        seq![]
    } else {
        spaced(texts.drop_last()) + seq![' '] + texts.last()
    }
}

/// Whether `g` is the game after `m` in `g0`: the move's segments applied to the board.
#[verifier::opaque]
pub open spec fn played(g0: GameState, m: Move, g: GameState) -> bool {
    &&& g.wf()
    &&& g.position.board == after_segments_spec(g0.position.board, move_segments_spec(g0.position.board, m), g.position.board.zorb_key)
}

/// The notation of a move in a game (see `GameState::to_san_lichess`).
fn lichess_of(g: &GameState, m: Move) -> (r: String)
    requires
        g.wf(),
        g.half_moves < 255,
        g.full_moves < u32::MAX,
    ensures
        lichess_ok(*g, m, r@),
{
    let r = g.to_san_lichess(m);
    proof {
        reveal(lichess_ok);
    }
    r
}

/// The game after a move (see `GameState::make`).
fn play(g: &GameState, m: Move) -> (r: Option<GameState>)
    requires
        g.wf(),
        g.half_moves < 255,
        g.full_moves < u32::MAX,
    ensures
        r is None ==> leaves_king_in_check(g.position.board, m),
        r matches Some(n) ==> played(*g, m, n) && n.wf(),
{
    let r = g.make(m);
    proof {
        reveal(played);
    }
    r
}

/// Whether a game's counters are full, so that it makes no move.
pub open spec fn san_counters_full(g: GameState) -> bool {
    g.half_moves >= 255 || g.full_moves >= u32::MAX
}

/// The notation of a sequence of moves played from a FEN, each preceded by a space; it stops
/// at a move that the game refuses, and is empty for a FEN that gives no game.
#[verifier::rlimit(60)]
pub fn build_san(moves: Vec<Move>, starting_fen: String) -> (r: String)
    ensures
        !crate::game_state::fen_game_ok(starting_fen@) ==> r@ == Seq::<char>::empty(),
        crate::game_state::fen_game_ok(starting_fen@) ==> exists|games: Seq<GameState>, texts: Seq<Seq<char>>|
            #![trigger spaced(texts), games.len()]
            {
                &&& spaced(texts) == r@
                &&& texts.len() <= moves@.len()
                &&& games.len() == texts.len() || games.len() == texts.len() + 1
                &&& games.len() > 0
                &&& (BoardRep { zorb_key: 0, ..games[0].position.board }) == crate::board_rep::fen_board_spec(starting_fen@)
                &&& forall|k: int| 0 <= k < texts.len() ==> lichess_ok(games[k], moves@[k], #[trigger] texts[k])
                &&& forall|k: int| 0 <= k && k + 1 < games.len() ==> played(#[trigger] games[k], moves@[k], games[k + 1])
                &&& texts.len() < moves@.len() && games.len() == texts.len() + 1 ==> san_counters_full(games.last())
                &&& games.len() == texts.len() ==> leaves_king_in_check(
                    games.last().position.board,
                    moves@[texts.len() - 1],
                )
            },
{
    let mut r = String::new();
    let mut game_state = match GameState::new(starting_fen) {
        Some(g) => g,
        None => {
            return r;
        },
    };
    let ghost mut games: Seq<GameState> = seq![game_state];
    let ghost mut texts: Seq<Seq<char>> = seq![];
    let mut i: usize = 0;
    let mut stopped = false;
    while i < moves.len() && !stopped
        invariant
            i <= moves@.len(),
            game_state.wf(),
            r@ == spaced(texts),
            games.len() > 0,
            (BoardRep { zorb_key: 0, ..games[0].position.board }) == crate::board_rep::fen_board_spec(starting_fen@),
            forall|k: int| 0 <= k < texts.len() ==> lichess_ok(games[k], moves@[k], #[trigger] texts[k]),
            forall|k: int| 0 <= k && k + 1 < games.len() ==> played(#[trigger] games[k], moves@[k], games[k + 1]),
            !stopped ==> texts.len() == i && games.len() == i + 1 && games.last() == game_state,
            stopped ==> texts.len() <= moves@.len() && (games.len() == texts.len() || games.len() == texts.len() + 1),
            stopped && games.len() == texts.len() + 1 ==> san_counters_full(games.last()) && texts.len() == i,
            stopped && games.len() == texts.len() ==> texts.len() > 0 && leaves_king_in_check(
                games.last().position.board,
                moves@[texts.len() - 1],
            ),
        decreases moves@.len() - i + if stopped { 0int } else { 1 },
    {
        let m = moves[i];
        if game_state.half_moves >= 255 || game_state.full_moves >= u32::MAX {
            stopped = true;
        } else {
            let san = lichess_of(&game_state, m);
            push_char(&mut r, ' ');
            push_str(&mut r, san.as_str());
            proof {
                let old_texts = texts;
                texts = texts.push(san@);
                assert(texts.drop_last() =~= old_texts);
                assert(r@ =~= spaced(texts));
                assert(lichess_ok(games[i as int], m, san@));
                assert forall|k: int| 0 <= k < texts.len() implies lichess_ok(games[k], moves@[k], #[trigger] texts[k]) by {
                    if k < old_texts.len() {
                        assert(texts[k] == old_texts[k]);
                    }
                }
            }
            match play(&game_state, m) {
                Some(next) => {
                    proof {
                        let old_games = games;
                        games = games.push(next);
                        assert(played(old_games[i as int], m, next));
                        assert forall|k: int| 0 <= k && k + 1 < games.len() implies played(#[trigger] games[k], moves@[k], games[k + 1]) by {
                            if k + 1 < old_games.len() {
                                assert(games[k] == old_games[k] && games[k + 1] == old_games[k + 1]);
                            }
                        }
                    }
                    game_state = next;
                    i = i + 1;
                },
                None => {
                    stopped = true;
                },
            }
        }
    }
    proof {
        if !stopped {
            assert(texts.len() == moves@.len());
        }
    }
    r
}

} // verus!

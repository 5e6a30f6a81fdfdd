use vstd::prelude::*;
use crate::chess_move::Move;
use crate::game_state::GameState;
use crate::make_move::{after_segments_spec, move_segments_spec};
use crate::game_state::leaves_king_in_check;
use crate::king_analysis::KingPositionAnalysis;
use crate::move_generation::{all_from_own_pieces, friendly_analysis_ok, generate_moves_for_board, moves_by, moves_for_analysis};

verus! {

/// Whether `g` is the game after the side to move of `g0` plays `m` without leaving its king
/// in check, as `GameState::make` gives it.
pub open spec fn made_from(g0: GameState, m: Move, g: GameState) -> bool {
    &&& g.wf()
    &&& g.position.legal_spec()
    &&& m.black_spec() == g0.position.board.black_turn
    &&& g.position.board == after_segments_spec(
        g0.position.board,
        move_segments_spec(g0.position.board, m),
        g.position.board.zorb_key,
    )
}

/// Whether `g` is the game after a legal move in one of the games `states`.
pub open spec fn reached_from(states: Seq<GameState>, g: GameState) -> bool {
    exists|j: int, m: Move| 0 <= j < states.len() && #[trigger] made_from(states[j], m, g)
}

/// Whether a list of moves is one the move generator may give for a board (see
/// `generate_moves_for_board`): sound and complete for an analysis of the side's king.
pub open spec fn board_moves(ms: Seq<Move>, b: crate::board_rep::BoardRep) -> bool {
    &&& moves_by(ms, b.black_turn)
    &&& all_from_own_pieces(ms, b)
    &&& exists|a: KingPositionAnalysis| #[trigger] friendly_analysis_ok(a, b) && moves_for_analysis(ms, b, a)
}

/// The moves of a list, up to its first empty move, that are made by the side to move and do
/// not leave its king in check.
pub open spec fn successor_moves(ms: Seq<Move>, b: crate::board_rep::BoardRep) -> Seq<Move>
    decreases ms.len(),
{
    if ms.len() == 0 || ms[0].code() == 0 {
        seq![]
    } else {
        (if ms[0].black_spec() == b.black_turn && !leaves_king_in_check(b, ms[0]) { seq![ms[0]] } else { seq![] })
            + successor_moves(ms.drop_first(), b)
    }
}

/// The moves a game's successors are counted by are exactly its legal moves: every move of the
/// list before the first empty one that is the side to move's and does not leave its king in
/// check is among them, and each of them is such a move.
pub proof fn law_successors_are_the_legal_moves(ms: Seq<Move>, b: crate::board_rep::BoardRep, i: int)
    requires
        0 <= i < ms.len(),
        forall|j: int| 0 <= j <= i ==> (#[trigger] ms[j]).code() != 0,
    ensures
        ms[i].black_spec() == b.black_turn && !leaves_king_in_check(b, ms[i]) ==> successor_moves(ms, b).contains(ms[i]),
        forall|k: int| 0 <= k < successor_moves(ms, b).len() ==> (#[trigger] successor_moves(ms, b)[k]).black_spec() == b.black_turn
            && !leaves_king_in_check(b, successor_moves(ms, b)[k]),
    decreases ms.len(),
{
    let rest = ms.drop_first();
    let head: Seq<Move> = if ms[0].black_spec() == b.black_turn && !leaves_king_in_check(b, ms[0]) { seq![ms[0]] } else { seq![] };
    assert(successor_moves(ms, b) == head + successor_moves(rest, b));
    if i > 0 {
        assert forall|j: int| 0 <= j <= i - 1 implies (#[trigger] rest[j]).code() != 0 by {
            assert(rest[j] == ms[j + 1]);
        }
        law_successors_are_the_legal_moves(rest, b, i - 1);
        assert(rest[i - 1] == ms[i]);
        if successor_moves(rest, b).contains(ms[i]) {
            let k = choose|k: int| 0 <= k < successor_moves(rest, b).len() && successor_moves(rest, b)[k] == ms[i];
            assert((head + successor_moves(rest, b))[head.len() + k] == ms[i]);
        }
    } else {
        if ms[0].black_spec() == b.black_turn && !leaves_king_in_check(b, ms[0]) {
            assert((head + successor_moves(rest, b))[0] == ms[0]);
        }
        lemma_successor_moves_legal(rest, b);
    }
    lemma_successor_moves_legal(ms, b);
}

proof fn lemma_successor_moves_legal(ms: Seq<Move>, b: crate::board_rep::BoardRep)
    ensures
        forall|k: int| 0 <= k < successor_moves(ms, b).len() ==> (#[trigger] successor_moves(ms, b)[k]).black_spec() == b.black_turn
            && !leaves_king_in_check(b, successor_moves(ms, b)[k]),
    decreases ms.len(),
{
    if ms.len() > 0 && ms[0].code() != 0 {
        let rest = ms.drop_first();
        lemma_successor_moves_legal(rest, b);
        let head: Seq<Move> = if ms[0].black_spec() == b.black_turn && !leaves_king_in_check(b, ms[0]) { seq![ms[0]] } else { seq![] };
        assert(successor_moves(ms, b) == head + successor_moves(rest, b));
        assert forall|k: int| 0 <= k < successor_moves(ms, b).len() implies (#[trigger] successor_moves(ms, b)[k]).black_spec() == b.black_turn
            && !leaves_king_in_check(b, successor_moves(ms, b)[k]) by {
            if k >= head.len() {
                assert(successor_moves(ms, b)[k] == successor_moves(rest, b)[k - head.len()]);
            }
        }
    }
}

/// Whether a game's move counters are full, so that it makes no move.
pub open spec fn counters_full(g: GameState) -> bool {
    g.half_moves == 255 || g.full_moves == u32::MAX
}

/// The moves that a game's successors are reached by, for a list of its generated moves.
pub open spec fn successor_moves_of(g: GameState, ms: Seq<Move>) -> Seq<Move> {
    if counters_full(g) { seq![] } else { successor_moves(ms, g.position.board) }
}

/// The games after each legal move of a game: the generated moves of the side to move, up to
/// the first empty one, that do not leave the mover's king in check. A game whose move
/// counters are full has none.
pub fn successors(game_state: &GameState) -> (r: Vec<(Move, GameState)>)
    requires
        game_state.wf(),
    ensures
        forall|i: int| 0 <= i < r@.len() ==> made_from(*game_state, (#[trigger] r@[i]).0, r@[i].1),
        exists|ms: Seq<Move>|
            #[trigger] board_moves(ms, game_state.position.board) && r@.len() == successor_moves_of(*game_state, ms).len()
                && forall|i: int| 0 <= i < r@.len() ==> (#[trigger] r@[i]).0 == successor_moves_of(*game_state, ms)[i],
{
    let mut result: Vec<(Move, GameState)> = Vec::new();
    let moves = generate_moves_for_board(game_state.position.board);
    let ghost b = game_state.position.board;
    if game_state.half_moves == 255 || game_state.full_moves == u32::MAX {
        assert(board_moves(moves@, b));
        return result;
    }
    let ghost ms = moves@;
    let ghost mut taken: Seq<Move> = seq![];
    assert(ms.skip(0) =~= ms);
    let mut i: usize = 0;
    let mut done = false;
    while i < moves.len() && !done
        invariant
            i <= moves@.len(),
            ms == moves@,
            b == game_state.position.board,
            game_state.wf(),
            game_state.half_moves < 255,
            game_state.full_moves < u32::MAX,
            forall|j: int| 0 <= j < result@.len() ==> made_from(*game_state, (#[trigger] result@[j]).0, result@[j].1),
            result@.len() == taken.len(),
            forall|j: int| 0 <= j < result@.len() ==> (#[trigger] result@[j]).0 == taken[j],
            !done ==> successor_moves(ms, b) == taken + successor_moves(ms.skip(i as int), b),
            done ==> successor_moves(ms, b) == taken,
        decreases moves@.len() - i + if done { 0int } else { 1 },
    {
        let m = moves[i];
        let ghost rest = ms.skip(i as int);
        assert(rest[0] == m);
        assert(rest.drop_first() =~= ms.skip(i + 1));
        if m.is_empty() {
            done = true;
            assert(taken + seq![] =~= taken);
        } else {
            let ghost kept = m.black_spec() == b.black_turn && !leaves_king_in_check(b, m);
            if m.is_black() == game_state.position.board.black_turn {
                match game_state.make(m) {
                    Some(new_state) => {
                        result.push((m, new_state));
                        proof {
                            taken = taken.push(m);
                            assert(result@[result@.len() - 1].0 == m);
                        }
                    },
                    None => {},
                }
            }
            proof {
                if kept {
                    assert(taken =~= taken.drop_last() + seq![m]);
                }
                assert(successor_moves(rest, b) == (if kept { seq![m] } else { seq![] }) + successor_moves(ms.skip(i + 1), b));
            }
            i = i + 1;
            proof {
                if kept {
                    assert(successor_moves(ms, b) =~= taken + successor_moves(ms.skip(i as int), b));
                } else {
                    assert(successor_moves(ms, b) =~= taken + successor_moves(ms.skip(i as int), b));
                }
            }
        }
    }
    proof {
        if !done {
            assert(ms.skip(i as int).len() == 0);
            assert(taken + seq![] =~= taken);
        }
        assert(board_moves(ms, b));
    }
    result
}


/// One first move of a node count: the move, the number of games it led to at the last
/// depth counted, and those games.
pub struct PerftLine {
    pub first_move: Move,
    pub count: usize,
    pub states: Vec<GameState>,
}

/// Whether every game of a line is well formed.
pub open spec fn line_ok(l: PerftLine) -> bool {
    forall|j: int| 0 <= j < l.states@.len() ==> (#[trigger] l.states@[j]).wf()
}

/// The lines of a node count from a game: one for each legal move (see `successors`), with
/// the game after it.
pub fn root_lines(origin: &GameState) -> (r: Vec<PerftLine>)
    requires
        origin.wf(),
    ensures
        forall|i: int| 0 <= i < r@.len() ==> {
            let l = #[trigger] r@[i];
            &&& l.count == 0
            &&& l.states@.len() == 1
            &&& made_from(*origin, l.first_move, l.states@[0])
            &&& line_ok(l)
        },
        exists|ms: Seq<Move>|
            #[trigger] board_moves(ms, origin.position.board) && r@.len() == successor_moves_of(*origin, ms).len() && forall|i: int|
                0 <= i < r@.len() ==> (#[trigger] r@[i]).first_move == successor_moves_of(*origin, ms)[i],
{
    let next = successors(origin);
    let mut lines: Vec<PerftLine> = Vec::new();
    let mut i: usize = 0;
    while i < next.len()
        invariant
            i <= next@.len(),
            origin.wf(),
            forall|j: int| 0 <= j < next@.len() ==> made_from(*origin, (#[trigger] next@[j]).0, next@[j].1),
            forall|j: int| 0 <= j < lines@.len() ==> {
                let l = #[trigger] lines@[j];
                &&& l.count == 0
                &&& l.states@.len() == 1
                &&& made_from(*origin, l.first_move, l.states@[0])
                &&& line_ok(l)
            },
            lines@.len() == i,
            forall|j: int| 0 <= j < i ==> (#[trigger] lines@[j]).first_move == next@[j].0,
        decreases next@.len() - i,
    {
        let (m, g) = next[i];
        assert(made_from(*origin, next@[i as int].0, next@[i as int].1));
        let mut states: Vec<GameState> = Vec::new();
        states.push(g);
        lines.push(PerftLine { first_move: m, count: 0, states });
        i = i + 1;
    }
    proof {
        let ms = choose|ms: Seq<Move>|
            #[trigger] board_moves(ms, origin.position.board) && next@.len() == successor_moves_of(*origin, ms).len()
                && forall|i: int| 0 <= i < next@.len() ==> (#[trigger] next@[i]).0 == successor_moves_of(*origin, ms)[i];
        assert forall|k: int| 0 <= k < lines@.len() implies (#[trigger] lines@[k]).first_move == successor_moves_of(*origin, ms)[k] by {
            assert(next@[k].0 == successor_moves_of(*origin, ms)[k]);
        }
    }
    lines
}

/// The sum of the counts of lines, at most the largest `usize`.
pub open spec fn counted(lines: Seq<PerftLine>) -> int
    decreases lines.len(),
{
    if lines.len() == 0 {
        0
    } else {
        let s = counted(lines.drop_last()) + lines.last().count;
        if s > usize::MAX { usize::MAX as int } else { s }
    }
}

/// How many successors the first `n` games have, each for its list of generated moves.
pub open spec fn successor_count(states: Seq<GameState>, mss: Seq<Seq<Move>>, n: int) -> int
    decreases n,
{
    if n <= 0 {
        0
    } else {
        successor_count(states, mss, n - 1) + successor_moves_of(states[n - 1], mss[n - 1]).len()
    }
}

/// Whether `count` is the number of games after the legal moves of the games `states`, each
/// with the moves `mss` that the generator gives it (see `successor_count`).
pub open spec fn counts_by(states: Seq<GameState>, mss: Seq<Seq<Move>>, count: int) -> bool {
    &&& mss.len() == states.len()
    &&& forall|w: int| 0 <= w < mss.len() ==> #[trigger] board_moves(mss[w], states[w].position.board)
    &&& count == successor_count(states, mss, states.len() as int)
}

/// Whether `count` is the number of games after the legal moves of the games `states`, for
/// some lists of moves the generator may give them.
pub open spec fn count_fits(states: Seq<GameState>, count: int) -> bool {
    exists|mss: Seq<Seq<Move>>| #[trigger] counts_by(states, mss, count)
}

/// The games after the legal moves of each of a list of games, in order.
fn next_states(states: &Vec<GameState>) -> (r: Vec<GameState>)
    requires
        forall|j: int| 0 <= j < states@.len() ==> (#[trigger] states@[j]).wf(),
    ensures
        forall|k: int| 0 <= k < r@.len() ==> #[trigger] reached_from(states@, r@[k]),
        exists|mss: Seq<Seq<Move>>|
            {
                &&& mss.len() == states@.len()
                &&& forall|q: int| 0 <= q < mss.len() ==> #[trigger] board_moves(mss[q], states@[q].position.board)
                &&& r@.len() == #[trigger] successor_count(states@, mss, states@.len() as int)
            },
{
    let mut result: Vec<GameState> = Vec::new();
    let ghost mut mss: Seq<Seq<Move>> = seq![];
    let mut j: usize = 0;
    while j < states.len()
        invariant
            j <= states@.len(),
            forall|q: int| 0 <= q < states@.len() ==> (#[trigger] states@[q]).wf(),
            forall|k: int| 0 <= k < result@.len() ==> #[trigger] reached_from(states@, result@[k]),
            mss.len() == j,
            forall|q: int| 0 <= q < mss.len() ==> #[trigger] board_moves(mss[q], states@[q].position.board),
            result@.len() == successor_count(states@, mss, j as int),
        decreases states@.len() - j,
    {
        let game_state = &states[j];
        let next = successors(game_state);
        let ghost start = result@.len();
        let ghost ms = choose|ms: Seq<Move>|
            #[trigger] board_moves(ms, game_state.position.board) && next@.len() == successor_moves_of(*game_state, ms).len()
                && forall|i: int| 0 <= i < next@.len() ==> (#[trigger] next@[i]).0 == successor_moves_of(*game_state, ms)[i];
        let mut i: usize = 0;
        while i < next.len()
            invariant
                i <= next@.len(),
                j < states@.len(),
                *game_state == states@[j as int],
                result@.len() == start + i,
                forall|q: int| 0 <= q < next@.len() ==> made_from(*game_state, (#[trigger] next@[q]).0, next@[q].1),
                forall|k: int| 0 <= k < result@.len() ==> #[trigger] reached_from(states@, result@[k]),
            decreases next@.len() - i,
        {
            let (m, g) = next[i];
            assert(made_from(states@[j as int], m, g));
            result.push(g);
            proof {
                assert forall|k: int| 0 <= k < result@.len() implies #[trigger] reached_from(states@, result@[k]) by {
                    if k == result@.len() - 1 {
                        assert(made_from(states@[j as int], m, result@[k]));
                    }
                }
            }
            i = i + 1;
        }
        proof {
            let old_mss = mss;
            mss = mss.push(ms);
            assert(successor_count(states@, mss, j as int) == successor_count(states@, old_mss, j as int)) by {
                lemma_successor_count_prefix(states@, old_mss, mss, j as int);
            }
        }
        j = j + 1;
    }
    result
}

proof fn lemma_successor_count_prefix(states: Seq<GameState>, a: Seq<Seq<Move>>, b: Seq<Seq<Move>>, n: int)
    requires
        0 <= n <= a.len(),
        n <= b.len(),
        forall|q: int| 0 <= q < n ==> a[q] == b[q],
    ensures
        successor_count(states, a, n) == successor_count(states, b, n),
    decreases n,
{
    if n > 0 {
        lemma_successor_count_prefix(states, a, b, n - 1);
    }
}

/// Counts one depth further: each line's games are replaced by the games after their legal
/// moves, and its count by their number; the result is the total over the lines (at most the
/// largest `usize`).
pub fn deepen(lines: &mut Vec<PerftLine>) -> (total: usize)
    requires
        forall|i: int| 0 <= i < old(lines)@.len() ==> line_ok(#[trigger] old(lines)@[i]),
    ensures
        final(lines)@.len() == old(lines)@.len(),
        forall|i: int| 0 <= i < final(lines)@.len() ==> {
            let l = #[trigger] final(lines)@[i];
            &&& l.first_move == old(lines)@[i].first_move
            &&& l.count == l.states@.len()
            &&& line_ok(l)
            &&& forall|k: int| 0 <= k < l.states@.len() ==> #[trigger] reached_from(old(lines)@[i].states@, l.states@[k])
        },
        forall|i: int| 0 <= i < final(lines)@.len() ==> count_fits(old(lines)@[i].states@, (#[trigger] final(lines)@[i]).count as int),
        total == counted(final(lines)@),
{
    let ghost before = lines@;
    let mut total: usize = 0;
    let mut i: usize = 0;
    while i < lines.len()
        invariant
            i <= lines@.len(),
            lines@.len() == before.len(),
            forall|q: int| i <= q < lines@.len() ==> #[trigger] lines@[q] == before[q],
            forall|q: int| 0 <= q < before.len() ==> line_ok(#[trigger] before[q]),
            forall|q: int| 0 <= q < i ==> {
                let l = #[trigger] lines@[q];
                &&& l.first_move == before[q].first_move
                &&& l.count == l.states@.len()
                &&& line_ok(l)
                &&& forall|k: int| 0 <= k < l.states@.len() ==> #[trigger] reached_from(before[q].states@, l.states@[k])
            },
            total == counted(lines@.subrange(0, i as int)),
            forall|q: int| 0 <= q < i ==> count_fits(before[q].states@, (#[trigger] lines@[q]).count as int),
        decreases before.len() - i,
    {
        assert(lines@[i as int] == before[i as int]);
        let first_move = lines[i].first_move;
        let states = next_states(&lines[i].states);
        let count = states.len();
        proof {
            assert forall|k: int| 0 <= k < states@.len() implies (#[trigger] states@[k]).wf() by {
                assert(reached_from(before[i as int].states@, states@[k]));
                let (j, m) = choose|j: int, m: Move| 0 <= j < before[i as int].states@.len() && #[trigger] made_from(before[i as int].states@[j], m, states@[k]);
            }
        }
        let ghost old_prefix = lines@.subrange(0, i as int);
        let ghost lines0 = lines@;
        lines.set(i, PerftLine { first_move, count, states });
        proof {
            let st = before[i as int].states@;
            let mss = choose|mss: Seq<Seq<Move>>|
                {
                    &&& mss.len() == st.len()
                    &&& forall|w: int| 0 <= w < mss.len() ==> #[trigger] board_moves(mss[w], st[w].position.board)
                    &&& states@.len() == #[trigger] successor_count(st, mss, st.len() as int)
                };
            assert(counts_by(st, mss, count as int));
            assert forall|q: int| 0 <= q < i + 1 implies count_fits(before[q].states@, (#[trigger] lines@[q]).count as int) by {
                if q < i {
                    assert(lines@[q] == lines0[q]);
                }
            }
        }
        total = if total <= usize::MAX - count { total + count } else { usize::MAX };
        proof {
            assert(lines@.subrange(0, i as int) =~= old_prefix);
            assert(lines@.subrange(0, i + 1).drop_last() =~= lines@.subrange(0, i as int));
        }
        i = i + 1;
    }
    assert(lines@.subrange(0, lines@.len() as int) =~= lines@);
    total
}

} // verus!

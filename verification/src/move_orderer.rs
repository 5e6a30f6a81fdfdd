use vstd::prelude::*;
use std::cmp::Ordering;
use crate::chess_move::Move;
use crate::game_state::same_move;
use crate::legal_move::legal_move_spec;
use crate::king_analysis::KingPositionAnalysis;
use crate::move_generation::{generate_moves_for_board, moves_by};
use crate::position::Position;

verus! {

/// Whether a list holds a move equal (as `==` compares) to `m`.
pub open spec fn contains_move(s: Seq<Move>, m: Move) -> bool {
    exists|i: int| 0 <= i < s.len() && same_move(#[trigger] s[i], m)
}

fn contains(moves: &Vec<Move>, m: &Move) -> (r: bool)
    ensures
        r == contains_move(moves@, *m),
{
    let mut i: usize = 0;
    while i < moves.len()
        invariant
            i <= moves@.len(),
            forall|j: int| 0 <= j < i ==> !same_move(#[trigger] moves@[j], *m),
        decreases moves@.len() - i,
    {
        if moves[i] == *m {
            return true;
        }
        i = i + 1;
    }
    false
}

/// Orders moves of a priority list before the others: `Less` when `a` is among them,
/// `Greater` when only `b` is, `Equal` otherwise.
pub fn priority_cmp(a: &Move, b: &Move, priority_moves: &Vec<Move>) -> (r: Ordering)
    ensures
        contains_move(priority_moves@, *a) ==> r == Ordering::Less,
        !contains_move(priority_moves@, *a) && contains_move(priority_moves@, *b) ==> r == Ordering::Greater,
        !contains_move(priority_moves@, *a) && !contains_move(priority_moves@, *b) ==> r == Ordering::Equal,
{
    if contains(priority_moves, a) {
        return Ordering::Less;
    }
    if contains(priority_moves, b) {
        return Ordering::Greater;
    }
    Ordering::Equal
}

/// Orders one move before all others: `Less` when `a` is it, `Greater` when only `b` is,
/// `Equal` otherwise.
pub fn top_priority(a: &Move, b: &Move, m: &Move) -> (r: Ordering)
    ensures
        same_move(*m, *a) ==> r == Ordering::Less,
        !same_move(*m, *a) && same_move(*m, *b) ==> r == Ordering::Greater,
        !same_move(*m, *a) && !same_move(*m, *b) ==> r == Ordering::Equal,
{
    if *m == *a {
        return Ordering::Less;
    }
    if *m == *b {
        return Ordering::Greater;
    }
    Ordering::Equal
}

/// Whether a move is the principal variation move or the hash move, which the orderer offers
/// before the generated moves and skips among them.
pub open spec fn offered_first(pv: Option<Move>, hm: Option<Move>, m: Move) -> bool {
    (pv matches Some(p) && same_move(p, m)) || (hm matches Some(h) && same_move(h, m))
}

/// The place of the first move at or after `start` that is neither the principal variation
/// move nor the hash move (the length of the list when there is none).
pub open spec fn first_other(v: Seq<Move>, start: int, pv: Option<Move>, hm: Option<Move>) -> int
    decreases v.len() - start,
{
    if start >= v.len() || start < 0 {
        v.len() as int
    } else if !offered_first(pv, hm, v[start]) {
        start
    } else {
        first_other(v, start + 1, pv, hm)
    }
}

/// Whether the orderer hands out the principal variation move or the hash move.
pub open spec fn returns_offered(r: Option<Move>, pv: Option<Move>, hm: Option<Move>) -> bool {
    r matches Some(m) && offered_first(pv, hm, m)
}

proof fn lemma_first_other_range(v: Seq<Move>, start: int, pv: Option<Move>, hm: Option<Move>)
    requires
        0 <= start <= v.len(),
    ensures
        start <= first_other(v, start, pv, hm) <= v.len(),
        first_other(v, start, pv, hm) < v.len() ==> !offered_first(pv, hm, v[first_other(v, start, pv, hm)]),
    decreases v.len() - start,
{
    if start < v.len() && offered_first(pv, hm, v[start]) {
        lemma_first_other_range(v, start + 1, pv, hm);
    }
}

/// The moves of a position in search order: the principal variation move when it is legal,
/// then the hash move when it is legal, then the generated moves other than those two.
pub struct MoveOrderer {
    pub index: usize,
    pub principal_variation: Option<Move>,
    pub hash_move: Option<Move>,
    pub position: Position,
    pub moves: Option<Vec<Move>>,
}

impl MoveOrderer {
    /// The orderer's position is well formed.
    pub open spec fn wf(&self) -> bool {
        self.position.wf()
    }

    /// An orderer at its first move.
    pub fn new(pv: Option<&Move>, hm: Option<Move>, position: Position) -> (r: MoveOrderer)
        requires
            position.wf(),
        ensures
            r.wf(),
            r.index == 0,
            r.principal_variation == match pv {
                Some(m) => Some(*m),
                None => None::<Move>,
            },
            r.hash_move == hm,
            r.position == position,
            r.moves is None,
    {
        MoveOrderer {
            index: 0,
            principal_variation: match pv {
                Some(m) => Some(*m),
                None => None,
            },
            hash_move: hm,
            position,
            moves: None,
        }
    }

    /// The next move: at the start the principal variation move if the position allows it,
    /// then the hash move if it allows it, then the generated moves in order, skipping the
    /// two; none once the generated moves run out.
    pub fn next_move(&mut self) -> (r: Option<Move>)
        requires
            old(self).wf(),
        ensures
            final(self).wf(),
            final(self).position == old(self).position,
            final(self).principal_variation == old(self).principal_variation,
            final(self).hash_move == old(self).hash_move,
            returns_offered(r, old(self).principal_variation, old(self).hash_move) ==> {
                &&& (old(self).index == 0 && r == old(self).principal_variation) || (old(self).index <= 1 && r
                    == old(self).hash_move)
                &&& final(self).moves == old(self).moves
                &&& r->0.black_spec() == old(self).position.board.black_turn
                &&& crate::board_rep::piece_at(old(self).position.board, r->0.from_spec() as int) == r->0.piece_spec()
                &&& exists|a: KingPositionAnalysis|
                    #[trigger] crate::move_generation::friendly_analysis_ok(a, old(self).position.board) && legal_move_spec(
                        old(self).position,
                        r->0,
                        a.threat_source,
                        a.pins@,
                    )
            },
            !returns_offered(r, old(self).principal_variation, old(self).hash_move) ==> {
                let v = final(self).moves->0@;
                let start = if old(self).index < 2 {
                    0
                } else if old(self).index - 2 > v.len() {
                    v.len() as int
                } else {
                    old(self).index - 2
                };
                let k = first_other(v, start, old(self).principal_variation, old(self).hash_move);
                &&& final(self).moves is Some
                &&& old(self).moves matches Some(ov) ==> final(self).moves->0 == ov
                &&& old(self).moves is None ==> moves_by(v, old(self).position.board.black_turn)
                &&& r == if k < v.len() { Some(v[k]) } else { None::<Move> }
                &&& k < v.len() && k + 3 < usize::MAX ==> final(self).index == k + 3
                &&& k >= v.len() && v.len() + 2 < usize::MAX ==> final(self).index == v.len() + 2
            },
    {
        if self.index == 0 {
            self.index = 1;
            match self.principal_variation {
                Some(pv) => {
                    if self.position.is_legal_move(pv) {
                        return Some(pv);
                    }
                },
                None => {},
            }
        }
        if self.index == 1 {
            self.index = 2;
            match self.hash_move {
                Some(hm) => {
                    if self.position.is_legal_move(hm) {
                        return Some(hm);
                    }
                },
                None => {},
            }
        }
        if self.moves.is_none() {
            self.moves = Some(generate_moves_for_board(self.position.board));
        }
        let moves = match &self.moves {
            Some(v) => v,
            None => {
                return None;
            },
        };
        let mut arr_pos: usize = if self.index >= 2 { self.index - 2 } else { 0 };
        if arr_pos > moves.len() {
            arr_pos = moves.len();
        }
        let ghost start = arr_pos as int;
        let ghost v = moves@;
        let ghost pv = self.principal_variation;
        let ghost hm = self.hash_move;
        proof {
            lemma_first_other_range(v, start, pv, hm);
        }
        let mut result: Option<Move> = None;
        while arr_pos < moves.len() && result.is_none()
            invariant
                arr_pos <= moves@.len(),
                v == moves@,
                pv == self.principal_variation,
                hm == self.hash_move,
                0 <= start <= v.len(),
                result is None ==> start <= arr_pos && first_other(v, start, pv, hm) == first_other(v, arr_pos as int, pv, hm),
                result matches Some(m) ==> arr_pos >= 1 && first_other(v, start, pv, hm) == arr_pos - 1 && m == v[arr_pos - 1],
            decreases moves@.len() - arr_pos + if result is Some { 0int } else { 1 },
        {
            let m = moves[arr_pos];
            let is_pv = match self.principal_variation {
                Some(p) => p == m,
                None => false,
            };
            let is_hm = match self.hash_move {
                Some(h) => h == m,
                None => false,
            };
            assert(v[arr_pos as int] == m);
            if !is_pv && !is_hm {
                result = Some(m);
            }
            arr_pos = arr_pos + 1;
        }
        if arr_pos < usize::MAX - 2 {
            self.index = arr_pos + 2;
        }
        result
    }
}

} // verus!

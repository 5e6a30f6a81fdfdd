use vstd::prelude::*;
use vstd::array::ArrayAdditionalExecFns;
use std::collections::HashMap;
use crate::chess_move::Move;
use crate::game_state::same_move;
use crate::position::Position;

verus! {

broadcast use vstd::std_specs::hash::group_hash_axioms;

/// The number of slots of a position cache.
pub const POSITION_CACHE_SIZE: usize = 65536;

/// The number of slots of a move cache.
pub const MOVES_CACHE_SIZE: usize = 16384;

/// The number of slots of a transposition table.
pub const TRANSPOSITION_TABLE_SIZE: usize = 65536;

/// The slot of a key in a table of `size` slots.
pub open spec fn slot_of(key: u64, size: usize) -> int {
    (key % (size as u64)) as int
}

fn slot(key: u64, size: usize) -> (r: usize)
    requires
        0 < size <= u32::MAX,
    ensures
        r == slot_of(key, size),
        r < size,
{
    (key % (size as u64)) as usize
}

/// A cache of positions by hash, one position per slot.
pub struct PositionCache {
    pub table: Vec<Option<Position>>,
    pub hits: usize,
    pub misses: usize,
}

impl PositionCache {
    /// The slots.
    pub open spec fn slots(&self) -> Seq<Option<Position>> {
        self.table@
    }

    /// A cache has all its slots.
    pub open spec fn wf(&self) -> bool {
        self.slots().len() == POSITION_CACHE_SIZE
    }

    /// What a lookup of `key` finds: the position in its slot when that position has the key.
    pub open spec fn lookup_spec(&self, key: u64) -> Option<Position> {
        match self.slots()[slot_of(key, POSITION_CACHE_SIZE)] {
            Some(p) => if p.board.zorb_key == key { Some(p) } else { None },
            None => None,
        }
    }

    /// An empty cache.
    pub fn new() -> (r: PositionCache)
        ensures
            r.wf(),
            forall|i: int| 0 <= i < POSITION_CACHE_SIZE ==> (#[trigger] r.slots()[i]) is None,
            r.hits == 0 && r.misses == 0,
    {
        let mut table: Vec<Option<Position>> = Vec::new();
        let mut i: usize = 0;
        while i < POSITION_CACHE_SIZE
            invariant
                i <= POSITION_CACHE_SIZE,
                table@.len() == i,
                forall|j: int| 0 <= j < i ==> (#[trigger] table@[j]) is None,
            decreases POSITION_CACHE_SIZE - i,
        {
            table.push(None);
            i = i + 1;
        }
        PositionCache { table, hits: 0, misses: 0 }
    }

    /// The cached position of a hash, counting the hit or the miss.
    pub fn lookup(&mut self, zorb_key: u64) -> (r: Option<Position>)
        requires
            old(self).wf(),
            old(self).hits < usize::MAX,
            old(self).misses < usize::MAX,
        ensures
            r == old(self).lookup_spec(zorb_key),
            final(self).slots() == old(self).slots(),
            final(self).hits == old(self).hits + if r is Some { 1int } else { 0 },
            final(self).misses == old(self).misses + if r is None { 1int } else { 0 },
    {
        let index = slot(zorb_key, POSITION_CACHE_SIZE);
        let e = self.table[index];
        match e {
            Some(p) => {
                if p.board.zorb_key == zorb_key {
                    self.hits = self.hits + 1;
                    return Some(p);
                }
            },
            None => {},
        }
        self.misses = self.misses + 1;
        None
    }

    /// Stores a position in the slot of a hash.
    pub fn record(&mut self, zorb_key: u64, e: Position)
        requires
            old(self).wf(),
        ensures
            final(self).wf(),
            final(self).slots() == old(self).slots().update(slot_of(zorb_key, POSITION_CACHE_SIZE), Some(e)),
            final(self).hits == old(self).hits,
            final(self).misses == old(self).misses,
    {
        let index = slot(zorb_key, POSITION_CACHE_SIZE);
        self.table.set(index, Some(e));
    }
}

/// A read after a write finds what was written: a position recorded under its own hash is
/// what a lookup of that hash then gives.
pub proof fn law_position_cache_read_after_write(before: PositionCache, after: PositionCache, key: u64, p: Position)
    requires
        before.wf(),
        after.slots() == before.slots().update(slot_of(key, POSITION_CACHE_SIZE), Some(p)),
        p.board.zorb_key == key,
    ensures
        after.lookup_spec(key) == Some(p),
{
}

/// Recording a position leaves the lookups of hashes of other slots as they were.
pub proof fn law_position_cache_other_slots(before: PositionCache, after: PositionCache, key: u64, p: Position, other: u64)
    requires
        before.wf(),
        after.slots() == before.slots().update(slot_of(key, POSITION_CACHE_SIZE), Some(p)),
        slot_of(other, POSITION_CACHE_SIZE) != slot_of(key, POSITION_CACHE_SIZE),
    ensures
        after.lookup_spec(other) == before.lookup_spec(other),
{
}

/// The moves of a position, with the hash they belong to.
#[derive(Clone)]
pub struct MoveCacheEntry {
    pub zorb_key: u64,
    pub moves: Vec<Move>,
}

/// A cache of move lists by hash, one list per slot.
pub struct MovesCache {
    pub table: Vec<Option<MoveCacheEntry>>,
    pub hits: usize,
    pub misses: usize,
}

/// A copy of a move list.
fn copy_moves(moves: &Vec<Move>) -> (r: Vec<Move>)
    ensures
        r@ == moves@,
{
    let mut r: Vec<Move> = Vec::new();
    let mut i: usize = 0;
    while i < moves.len()
        invariant
            i <= moves@.len(),
            r@ == moves@.subrange(0, i as int),
        decreases moves@.len() - i,
    {
        r.push(moves[i]);
        i = i + 1;
    }
    assert(r@ =~= moves@);
    r
}

impl MovesCache {
    /// The slots: the hash and moves of each filled slot.
    pub open spec fn slots(&self) -> Seq<Option<(u64, Seq<Move>)>> {
        self.table@.map_values(|e: Option<MoveCacheEntry>| match e {
            Some(entry) => Some((entry.zorb_key, entry.moves@)),
            None => None,
        })
    }

    /// A cache has all its slots.
    pub open spec fn wf(&self) -> bool {
        self.slots().len() == MOVES_CACHE_SIZE
    }

    /// What a lookup of `key` finds: the moves in its slot when they belong to that hash.
    pub open spec fn lookup_spec(&self, key: u64) -> Option<Seq<Move>> {
        match self.slots()[slot_of(key, MOVES_CACHE_SIZE)] {
            Some((k, moves)) => if k == key { Some(moves) } else { None },
            None => None,
        }
    }

    /// An empty cache.
    pub fn new() -> (r: MovesCache)
        ensures
            r.wf(),
            forall|i: int| 0 <= i < MOVES_CACHE_SIZE ==> (#[trigger] r.slots()[i]) is None,
            r.hits == 0 && r.misses == 0,
    {
        let mut table: Vec<Option<MoveCacheEntry>> = Vec::new();
        let mut i: usize = 0;
        while i < MOVES_CACHE_SIZE
            invariant
                i <= MOVES_CACHE_SIZE,
                table@.len() == i,
                forall|j: int| 0 <= j < i ==> (#[trigger] table@[j]) is None,
            decreases MOVES_CACHE_SIZE - i,
        {
            table.push(None);
            i = i + 1;
        }
        MovesCache { table, hits: 0, misses: 0 }
    }

    /// The cached moves of a hash (a copy), counting the hit or the miss.
    pub fn lookup(&mut self, zorb_key: u64) -> (r: Option<Vec<Move>>)
        requires
            old(self).wf(),
            old(self).hits < usize::MAX,
            old(self).misses < usize::MAX,
        ensures
            match (r, old(self).lookup_spec(zorb_key)) {
                (Some(v), Some(s)) => v@ == s,
                (None, None) => true,
                _ => false,
            },
            final(self).slots() == old(self).slots(),
            final(self).hits == old(self).hits + if r is Some { 1int } else { 0 },
            final(self).misses == old(self).misses + if r is None { 1int } else { 0 },
    {
        let index = slot(zorb_key, MOVES_CACHE_SIZE);
        match &self.table[index] {
            Some(cache_entry) => {
                if cache_entry.zorb_key == zorb_key {
                    let moves = copy_moves(&cache_entry.moves);
                    self.hits = self.hits + 1;
                    return Some(moves);
                }
            },
            None => {},
        }
        self.misses = self.misses + 1;
        None
    }

    /// Stores a move list in the slot of a hash.
    pub fn record(&mut self, zorb_key: u64, e: Vec<Move>)
        requires
            old(self).wf(),
        ensures
            final(self).wf(),
            final(self).slots() == old(self).slots().update(slot_of(zorb_key, MOVES_CACHE_SIZE), Some((zorb_key, e@))),
            final(self).hits == old(self).hits,
            final(self).misses == old(self).misses,
    {
        let index = slot(zorb_key, MOVES_CACHE_SIZE);
        let ghost e_view = e@;
        self.table.set(index, Some(MoveCacheEntry { zorb_key, moves: e }));
        assert(self.slots() =~= old(self).slots().update(slot_of(zorb_key, MOVES_CACHE_SIZE), Some((zorb_key, e_view))));
    }
}

/// A read after a write finds what was written: the moves recorded under a hash are what a
/// lookup of that hash then gives.
pub proof fn law_moves_cache_read_after_write(before: MovesCache, after: MovesCache, key: u64, moves: Seq<Move>)
    requires
        before.wf(),
        after.slots() == before.slots().update(slot_of(key, MOVES_CACHE_SIZE), Some((key, moves))),
    ensures
        after.lookup_spec(key) == Some(moves),
{
}

/// What a stored search value means: exact (a principal variation node), an upper bound
/// (no move reached alpha) or a lower bound (a move reached beta).
#[derive(Clone, Copy, Debug, PartialEq, Eq, Structural)]
pub enum NodeType {
    PVNode,
    CutNode,
    AllNode,
}

/// A stored search result: the hash, the depth searched, the value, its kind and the best
/// move found.
#[derive(Clone, Copy, Debug)]
pub struct TransTableEntry {
    pub zorb_key: u64,
    pub depth: u8,
    pub value: i16,
    pub t: NodeType,
    pub m: Option<Move>,
}

/// Search results by hash, one per slot.
pub struct TranspositionTable {
    pub table: Vec<Option<TransTableEntry>>,
}

/// What a transposition table answers for an entry, a depth and a window: for an entry of
/// the hash searched at least as deep, an exact value with its move (the empty move when none
/// was kept), alpha for an upper bound at or below alpha, beta for a lower bound at or above
/// beta; otherwise nothing.
pub open spec fn tt_answer(entry: Option<TransTableEntry>, key: u64, depth: u8, alpha: i16, beta: i16) -> Option<(i16, Move)> {
    match entry {
        Some(e) => if e.zorb_key == key && e.depth >= depth {
            match e.t {
                NodeType::PVNode => Some((e.value, match e.m { Some(m) => m, None => Move::empty_spec() })),
                NodeType::AllNode => if e.value <= alpha { Some((alpha, Move::empty_spec())) } else { None },
                NodeType::CutNode => if e.value >= beta { Some((beta, Move::empty_spec())) } else { None },
            }
        } else {
            None
        },
        None => None,
    }
}

impl TranspositionTable {
    /// A table has all its slots.
    pub open spec fn wf(&self) -> bool {
        self.table@.len() == TRANSPOSITION_TABLE_SIZE
    }

    /// The entry in the slot of a hash.
    pub open spec fn entry_of(&self, key: u64) -> Option<TransTableEntry> {
        self.table@[slot_of(key, TRANSPOSITION_TABLE_SIZE)]
    }

    /// An empty table.
    pub fn new() -> (r: TranspositionTable)
        ensures
            r.wf(),
            forall|i: int| 0 <= i < TRANSPOSITION_TABLE_SIZE ==> (#[trigger] r.table@[i]) is None,
    {
        let mut table: Vec<Option<TransTableEntry>> = Vec::new();
        let mut i: usize = 0;
        while i < TRANSPOSITION_TABLE_SIZE
            invariant
                i <= TRANSPOSITION_TABLE_SIZE,
                table@.len() == i,
                forall|j: int| 0 <= j < i ==> (#[trigger] table@[j]) is None,
            decreases TRANSPOSITION_TABLE_SIZE - i,
        {
            table.push(None);
            i = i + 1;
        }
        TranspositionTable { table }
    }

    /// The stored answer for a hash, a depth and a window (see `tt_answer`).
    pub fn lookup(&self, zorb_key: u64, depth: u8, alpha: i16, beta: i16) -> (r: Option<(i16, Move)>)
        requires
            self.wf(),
        ensures
            r == tt_answer(self.entry_of(zorb_key), zorb_key, depth, alpha, beta),
    {
        let index = slot(zorb_key, TRANSPOSITION_TABLE_SIZE);
        match self.table[index] {
            Some(entry) => {
                if entry.zorb_key == zorb_key && entry.depth >= depth {
                    match entry.t {
                        NodeType::PVNode => Some((entry.value, match entry.m {
                            Some(m) => m,
                            None => Move::empty(),
                        })),
                        NodeType::AllNode => if entry.value <= alpha {
                            Some((alpha, Move::empty()))
                        } else {
                            None
                        },
                        NodeType::CutNode => if entry.value >= beta {
                            Some((beta, Move::empty()))
                        } else {
                            None
                        },
                    }
                } else {
                    None
                }
            },
            None => None,
        }
    }

    /// The best move stored for a hash.
    pub fn get_move(&self, zorb_key: u64) -> (r: Option<Move>)
        requires
            self.wf(),
        ensures
            r == match self.entry_of(zorb_key) {
                Some(e) => if e.zorb_key == zorb_key { e.m } else { None },
                None => None,
            },
    {
        let index = slot(zorb_key, TRANSPOSITION_TABLE_SIZE);
        match self.table[index] {
            Some(entry) => if entry.zorb_key == zorb_key { entry.m } else { None },
            None => None,
        }
    }

    /// Stores a search result in the slot of its hash.
    pub fn record(&mut self, zorb_key: u64, depth: u8, value: i16, t: NodeType, m: Option<Move>)
        requires
            old(self).wf(),
        ensures
            final(self).wf(),
            final(self).table@ == old(self).table@.update(
                slot_of(zorb_key, TRANSPOSITION_TABLE_SIZE),
                Some(TransTableEntry { zorb_key, depth, value, t, m }),
            ),
    {
        let index = slot(zorb_key, TRANSPOSITION_TABLE_SIZE);
        self.table.set(index, Some(TransTableEntry { zorb_key, depth, value, t, m }));
    }
}

/// An exact value recorded with its move is what a lookup of the same hash at a depth no
/// deeper gives back, whatever the window.
pub proof fn law_tt_exact_read_after_write(
    before: TranspositionTable,
    after: TranspositionTable,
    key: u64,
    depth: u8,
    value: i16,
    m: Move,
    lookup_depth: u8,
    alpha: i16,
    beta: i16,
)
    requires
        before.wf(),
        after.table@ == before.table@.update(
            slot_of(key, TRANSPOSITION_TABLE_SIZE),
            Some(TransTableEntry { zorb_key: key, depth, value, t: NodeType::PVNode, m: Some(m) }),
        ),
        lookup_depth <= depth,
    ensures
        tt_answer(after.entry_of(key), key, lookup_depth, alpha, beta) == Some((value, m)),
{
}

/// The killer moves of one ply: three slots filled in turn, the next one to fill at `index`.
#[derive(Copy, Clone, Debug)]
pub struct PlyKillers {
    pub index: u8,
    pub moves: [Option<Move>; 3],
}

/// Whether a slot holds a move equal (as `==` compares) to `m`.
pub open spec fn holds_move(o: Option<Move>, m: Move) -> bool {
    o matches Some(x) && same_move(x, m)
}

impl PlyKillers {
    /// The next slot to fill is one of the three.
    pub open spec fn wf(&self) -> bool {
        self.index < 3
    }

    /// No killers.
    pub fn empty() -> (r: PlyKillers)
        ensures
            r.wf(),
            r.index == 0,
            r.moves@ == seq![None::<Move>, None, None],
    {
        let r = PlyKillers { index: 0, moves: [None, None, None] };
        assert(r.moves@ =~= seq![None::<Move>, None, None]);
        r
    }

    /// Records a killer move, unless one of the two slots other than the next one holds it;
    /// it goes into the next slot, and the slot after that becomes the next.
    pub fn set(&mut self, m: Move)
        requires
            old(self).wf(),
        ensures
            final(self).wf(),
            if holds_move(old(self).moves@[(old(self).index + 1) % 3], m) || holds_move(
                old(self).moves@[(old(self).index + 2) % 3],
                m,
            ) {
                *final(self) == *old(self)
            } else {
                &&& final(self).moves@ == old(self).moves@.update(old(self).index as int, Some(m))
                &&& final(self).index == (old(self).index + 1) % 3
            },
    {
        let i = self.index as usize;
        let a = self.moves[(i + 1) % 3];
        let b = self.moves[(i + 2) % 3];
        let in_a = match a {
            Some(x) => x == m,
            None => false,
        };
        let in_b = match b {
            Some(x) => x == m,
            None => false,
        };
        if in_a || in_b {
            return;
        }
        self.moves.set(i, Some(m));
        self.index = (self.index + 1) % 3;
    }

    /// The killer `pos` places back from the latest (0 the latest recorded).
    pub fn get(self, pos: usize) -> (r: Option<Move>)
        requires
            self.wf(),
            pos <= usize::MAX - 8,
        ensures
            r == self.moves@[((self.index + 5 + pos) % 3) as int],
    {
        let i = (self.index as usize + 5 + pos) % 3;
        self.moves[i]
    }
}

impl Default for PlyKillers {
    /// No killers.
    fn default() -> (r: PlyKillers)
        ensures
            r.wf(),
            r.index == 0,
            r.moves@ == seq![None::<Move>, None, None],
    {
        PlyKillers::empty()
    }
}

/// The number of plies that keep killer moves.
pub const KILLER_STORE_MAX_PLY: usize = 12;

/// The killer moves of the first plies of a search.
#[derive(Copy, Clone)]
pub struct KillerStore {
    pub plys: [PlyKillers; 12],
}

impl KillerStore {
    /// Every ply's killers are well formed.
    pub open spec fn wf(&self) -> bool {
        forall|i: int| 0 <= i < 12 ==> (#[trigger] self.plys@[i]).wf()
    }

    /// No killers at any ply.
    pub fn new() -> (r: KillerStore)
        ensures
            r.wf(),
    {
        let e = PlyKillers::empty();
        let r = KillerStore { plys: [e, e, e, e, e, e, e, e, e, e, e, e] };
        assert forall|i: int| 0 <= i < 12 implies (#[trigger] r.plys@[i]).wf() by {
            assert(r.plys@[i] == e);
        }
        r
    }

    /// Records a killer move at a ply (see `PlyKillers::set`); plies beyond the store's are
    /// ignored.
    pub fn set(&mut self, ply: usize, m: Move)
        requires
            old(self).wf(),
        ensures
            final(self).wf(),
            ply >= 12 ==> *final(self) == *old(self),
            forall|i: int| 0 <= i < 12 && i != ply ==> (#[trigger] final(self).plys@[i]) == old(self).plys@[i],
            ply < 12 ==> {
                let o = old(self).plys@[ply as int];
                let n = final(self).plys@[ply as int];
                if holds_move(o.moves@[(o.index + 1) % 3], m) || holds_move(o.moves@[(o.index + 2) % 3], m) {
                    n == o
                } else {
                    &&& n.moves@ == o.moves@.update(o.index as int, Some(m))
                    &&& n.index == (o.index + 1) % 3
                }
            },
    {
        if ply < KILLER_STORE_MAX_PLY {
            let mut k = self.plys[ply];
            k.set(m);
            self.plys.set(ply, k);
        }
    }

    /// The killers of a ply; none beyond the store's plies.
    pub fn get_ply(self, ply: usize) -> (r: PlyKillers)
        requires
            self.wf(),
        ensures
            r.wf(),
            ply < 12 ==> r == self.plys@[ply as int],
            ply >= 12 ==> r.moves@ == seq![None::<Move>, None, None],
    {
        if ply >= KILLER_STORE_MAX_PLY {
            PlyKillers::empty()
        } else {
            self.plys[ply]
        }
    }
}

impl Default for KillerStore {
    /// No killers at any ply.
    fn default() -> (r: KillerStore)
        ensures
            r.wf(),
    {
        KillerStore::new()
    }
}

/// Positions by hash.
pub struct PositionTranspositionTable(pub HashMap<u64, Position>);

/// A table of positions that can be stored and found by hash.
pub trait MoveTableLookup {
    /// The positions held, by hash.
    spec fn positions(&self) -> Map<u64, Position>;

    /// Stores a position under its hash.
    fn set(&mut self, position: Position)
        ensures
            final(self).positions() == old(self).positions().insert(position.board.zorb_key, position),
    ;

    /// The position stored under a hash.
    fn find(&self, key: u64) -> (r: Option<&Position>)
        ensures
            match r {
                Some(p) => self.positions().contains_key(key) && *p == self.positions()[key],
                None => !self.positions().contains_key(key),
            },
    ;
}

impl PositionTranspositionTable {
    /// An empty table.
    pub fn new() -> (r: PositionTranspositionTable)
        ensures
            r.0@ == Map::<u64, Position>::empty(),
    {
        PositionTranspositionTable(HashMap::new())
    }
}

impl MoveTableLookup for PositionTranspositionTable {
    open spec fn positions(&self) -> Map<u64, Position> {
        self.0@
    }

    fn set(&mut self, position: Position) {
        self.0.insert(position.board.zorb_key, position);
    }

    fn find(&self, key: u64) -> (r: Option<&Position>) {
        self.0.get(&key)
    }
}

} // verus!

use vstd::prelude::*;
use crate::piece_type::{PieceType, exchange_value};

verus! {

/// The pieces of one side that attack a square.
#[derive(Clone, Copy, Debug, PartialEq, Eq, Structural)]
pub struct AttackedBy {
    pub pawns: u8,
    pub knights: u8,
    pub bishop: bool,
    pub rooks: u8,
    pub queen: bool,
    pub king: bool,
}

/// The piece that `pop_least_valuable` takes: the first present of pawn, knight, bishop,
/// rook, queen and king, or `NoPiece`.
pub open spec fn least_valuable_spec(a: AttackedBy) -> PieceType {
    if a.pawns > 0 {
        PieceType::Pawn
    } else if a.knights > 0 {
        PieceType::Knight
    } else if a.bishop {
        PieceType::Bishop
    } else if a.rooks > 0 {
        PieceType::Rook
    } else if a.queen {
        PieceType::Queen
    } else if a.king {
        PieceType::King
    } else {
        PieceType::NoPiece
    }
}

/// The attackers with one piece of type `p` taken away (a queen or a missing piece leaves
/// nothing to take).
pub open spec fn removed_spec(a: AttackedBy, p: PieceType) -> AttackedBy {
    match p {
        PieceType::Pawn => AttackedBy { pawns: (a.pawns - 1) as u8, ..a },
        PieceType::Knight => AttackedBy { knights: (a.knights - 1) as u8, ..a },
        PieceType::Bishop => AttackedBy { bishop: false, ..a },
        PieceType::Rook => AttackedBy { rooks: (a.rooks - 1) as u8, ..a },
        PieceType::Queen => AttackedBy { queen: false, ..a },
        PieceType::King => AttackedBy { king: false, ..a },
        PieceType::NoPiece => a,
    }
}

/// The attackers after `pop_least_valuable`.
pub open spec fn popped_spec(a: AttackedBy) -> AttackedBy {
    removed_spec(a, least_valuable_spec(a))
}

/// Whether a piece of type `p` can be taken from the attackers (a queen always can).
pub open spec fn can_remove(a: AttackedBy, p: PieceType) -> bool {
    match p {
        PieceType::Pawn => a.pawns > 0,
        PieceType::Knight => a.knights > 0,
        PieceType::Bishop => a.bishop,
        PieceType::Rook => a.rooks > 0,
        PieceType::Queen => true,
        PieceType::King => a.king,
        PieceType::NoPiece => false,
    }
}

/// Whether any piece attacks.
pub open spec fn any_spec(a: AttackedBy) -> bool {
    a.queen || a.bishop || a.king || a.rooks > 0 || a.knights > 0 || a.pawns > 0
}

/// The number of attacking pieces.
pub open spec fn total(a: AttackedBy) -> nat {
    a.pawns as nat + a.knights as nat + (if a.bishop { 1nat } else { 0nat }) + a.rooks as nat
        + (if a.queen { 1nat } else { 0nat }) + (if a.king { 1nat } else { 0nat })
}

impl AttackedBy {
    /// No counts above 64 (a board has 64 squares).
    pub open spec fn wf(self) -> bool {
        self.pawns <= 64 && self.knights <= 64 && self.rooks <= 64
    }

    /// No attackers.
    pub fn empty() -> (r: AttackedBy)
        ensures
            !any_spec(r),
            r.wf(),
            total(r) == 0,
            r == (AttackedBy { pawns: 0, knights: 0, bishop: false, rooks: 0, queen: false, king: false }),
    {
        AttackedBy { pawns: 0, knights: 0, bishop: false, rooks: 0, queen: false, king: false }
    }

    /// Takes the least valuable attacker away and returns its type (`NoPiece` when none is left).
    pub fn pop_least_valuable(&mut self) -> (r: PieceType)
        ensures
            r == least_valuable_spec(*old(self)),
            *final(self) == popped_spec(*old(self)),
            r == PieceType::NoPiece <==> !any_spec(*old(self)),
            r != PieceType::NoPiece ==> total(*final(self)) + 1 == total(*old(self)),
            r == PieceType::NoPiece ==> *final(self) == *old(self),
    {
        if self.pawns > 0 {
            self.pawns -= 1;
            return PieceType::Pawn;
        }
        if self.knights > 0 {
            self.knights -= 1;
            return PieceType::Knight;
        }
        if self.bishop {
            self.bishop = false;
            return PieceType::Bishop;
        }
        if self.rooks > 0 {
            self.rooks -= 1;
            return PieceType::Rook;
        }
        if self.queen {
            self.queen = false;
            return PieceType::Queen;
        }
        if self.king {
            self.king = false;
            return PieceType::King;
        }
        PieceType::NoPiece
    }

    /// Takes one attacker of type `piece_type` away.
    pub fn remove(&mut self, piece_type: PieceType)
        requires
            can_remove(*old(self), piece_type),
        ensures
            *final(self) == removed_spec(*old(self), piece_type),
    {
        match piece_type {
            PieceType::Pawn => {
                self.pawns -= 1;
            },
            PieceType::Knight => {
                self.knights -= 1;
            },
            PieceType::Rook => {
                self.rooks -= 1;
            },
            PieceType::Bishop => {
                self.bishop = false;
            },
            PieceType::Queen => {
                self.queen = false;
            },
            _ => {
                self.king = false;
            },
        }
    }

    /// Whether a piece of type `piece_type` can be taken away.
    pub fn can_remove(&self, piece_type: PieceType) -> (r: bool)
        ensures
            r == can_remove(*self, piece_type),
    {
        match piece_type {
            PieceType::Pawn => self.pawns > 0,
            PieceType::Knight => self.knights > 0,
            PieceType::Bishop => self.bishop,
            PieceType::Rook => self.rooks > 0,
            PieceType::Queen => true,
            PieceType::King => self.king,
            PieceType::NoPiece => false,
        }
    }

    /// Whether any piece attacks.
    pub fn any(&self) -> (r: bool)
        ensures
            r == any_spec(*self),
    {
        self.queen || self.bishop || self.king || self.rooks > 0 || self.knights > 0 || self.pawns > 0
    }
}

} // verus!

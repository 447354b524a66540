use vstd::prelude::*;

verus! {

/// A seat at the table; seats are numbered from 0 up to the player count.
#[derive(Clone, Copy, Debug, PartialEq, Eq, Structural, Hash)]
pub struct Player(pub usize);

/// One of the two mirrored triangular halves of a player's territory.
#[derive(Clone, Copy, Debug, PartialEq, Eq, Structural, Hash)]
pub enum Half {
    Left,
    Right,
}

/// A cell of a 4x4 half-grid: `(file, rank)`.
#[derive(Clone, Copy, Debug, PartialEq, Eq, Structural, Hash)]
pub struct Coord(pub i8, pub i8);

/// The address of a board square.
#[derive(Clone, Copy, Debug, PartialEq, Eq, Structural, Hash)]
pub struct Location(pub Player, pub Half, pub Coord);

/// The kinds of piece; they carry no movement rules here.
#[derive(Clone, Copy, Debug, PartialEq, Eq, Structural, Hash)]
pub enum Piece {
    Pawn,
    Knight,
    Bishop,
    Rook,
    Queen,
    King,
}

/// A piece together with the player who owns it.
#[derive(Clone, Copy, Debug, PartialEq, Eq, Structural, Hash)]
pub struct OwnedPiece(pub Player, pub Piece);

/// A unit step, relative to the orientation of the territory it starts in.
#[derive(Clone, Copy, Debug, PartialEq, Eq, Structural, Hash)]
pub enum Dir {
    U,
    D,
    L,
    R,
}

/// Largest file or rank of a half-grid.
pub const EDGE: i8 = 3;

impl Coord {
    /// Both components lie in `[0, 3]`.
    pub open spec fn wf(self) -> bool {
        0 <= self.0 <= EDGE && 0 <= self.1 <= EDGE
    }

    /// A cell, or `None` when a component lies outside `[0, 3]`.
    pub fn new(file: i8, rank: i8) -> (r: Option<Coord>)
        ensures
            r == (if 0 <= file <= EDGE && 0 <= rank <= EDGE {
                Some(Coord(file, rank))
            } else {
                None
            }),
            r matches Some(c) ==> c.wf(),
    {
        if 0 <= file && file <= EDGE && 0 <= rank && rank <= EDGE {
            Some(Coord(file, rank))
        } else {
            None
        }
    }
}

impl Location {
    /// The player is seated at a table of `num_players` and the cell lies in
    /// its half-grid.
    pub open spec fn wf(self, num_players: nat) -> bool {
        self.0.0 < num_players && self.2.wf()
    }
}

} // verus!

use vstd::prelude::*;
use crate::location::{Coord, Half, Location, OwnedPiece, Piece, Player, EDGE};

verus! {

/// The occupancy map: bevy's hash map from a square to the piece on it.
#[verifier::external_body]
pub struct Grid {
    map: bevy::utils::HashMap<Location, OwnedPiece>,
}

/// What the occupancy map holds.
pub uninterp spec fn grid_contents(g: Grid) -> Map<Location, OwnedPiece>;

/// Relies on hashbrown's `HashMap::default` (bevy's `HashMap`): a new map
/// holds nothing.
#[verifier::external_body]
fn grid_new() -> (r: Grid)
    ensures
        grid_contents(r).is_empty(),
{
    Grid { map: bevy::utils::HashMap::default() }
}

/// Relies on hashbrown's `HashMap::insert`: afterwards `k` maps to `v` and
/// every other key keeps its value.
#[verifier::external_body]
fn grid_insert(g: &mut Grid, k: Location, v: OwnedPiece)
    ensures
        grid_contents(*final(g)) == grid_contents(*old(g)).insert(k, v),
{
    g.map.insert(k, v);
}

/// Relies on hashbrown's `HashMap::len`: the number of keys in the map.
#[verifier::external_body]
fn grid_len(g: &Grid) -> (r: usize)
    ensures
        r == grid_contents(*g).len(),
{
    g.map.len()
}

/// Relies on hashbrown's `HashMap::get`: the value stored under `k`, if any.
#[verifier::external_body]
fn grid_get(g: &Grid, k: &Location) -> (r: Option<OwnedPiece>)
    ensures
        r == (if grid_contents(*g).contains_key(*k) {
            Some(grid_contents(*g)[*k])
        } else {
            None
        }),
{
    g.map.get(k).copied()
}

/// The piece that starts on file `f` of rank 1 of half `h`; the two halves
/// mirror each other, with the queen opposite the king.
pub open spec fn home_piece(h: Half, f: i8) -> Piece {
    match h {
        Half::Left => if f == 0 {
            Piece::Rook
        } else if f == 1 {
            Piece::Knight
        } else if f == 2 {
            Piece::Bishop
        } else {
            Piece::Queen
        },
        Half::Right => if f == 0 {
            Piece::King
        } else if f == 1 {
            Piece::Bishop
        } else if f == 2 {
            Piece::Knight
        } else {
            Piece::Rook
        },
    }
}

/// Rank of the back pieces in each half.
pub const BACK_RANK: i8 = 1;

/// Rank of the pawns in each half, in front of the back pieces.
pub const PAWN_RANK: i8 = 2;

/// The piece of its own seat that starts on `l`, when `l` is on the back
/// rank or the pawn rank.
pub open spec fn start_piece(l: Location) -> OwnedPiece {
    if l.2.1 == PAWN_RANK {
        OwnedPiece(l.0, Piece::Pawn)
    } else {
        OwnedPiece(l.0, home_piece(l.1, l.2.0))
    }
}

/// `l` is a starting square of one of the seats below `seats`, or of seat
/// `seats` itself on a file below `files`.
pub open spec fn placed(l: Location, seats: nat, files: int) -> bool {
    (l.2.1 == BACK_RANK || l.2.1 == PAWN_RANK) && 0 <= l.2.0 <= EDGE && (l.0.0 < seats || (
    l.0.0 == seats && l.2.0 < files))
}

/// The starting squares counted by `placed`, each holding its seat's piece.
pub open spec fn placement(seats: nat, files: int) -> Map<Location, OwnedPiece> {
    Map::new(|l: Location| placed(l, seats, files), |l: Location| start_piece(l))
}

/// The initial placement at a table of `count`: in both halves of every
/// seat, that seat's back pieces on rank 1 (as `home_piece` gives them) and
/// its pawns on all four files of rank 2; nothing anywhere else.
pub open spec fn initial_squares(count: nat) -> Map<Location, OwnedPiece> {
    placement(count, 0)
}

/// In the initial placement the two halves of every seat mirror each other:
/// file `f` of the left half and file `3 - f` of the right half both hold a
/// piece of that seat, of the same kind except that the queen faces the
/// king; in particular a rook stands on file 0 of the left half and on file
/// 3 of the right half. Every file of rank 2 of both halves holds a pawn of
/// that seat.
pub proof fn lemma_initial_mirrored(count: nat, p: usize, f: i8)
    requires
        p < count,
        0 <= f <= EDGE,
    ensures
        ({
            let m = initial_squares(count);
            let l = Location(Player(p), Half::Left, Coord(f, 1));
            let r = Location(Player(p), Half::Right, Coord((EDGE - f) as i8, 1));
            &&& m.contains_key(l)
            &&& m.contains_key(r)
            &&& m[l].0 == Player(p)
            &&& m[r].0 == Player(p)
            &&& (m[l].1 == m[r].1 || (m[l].1 == Piece::Queen && m[r].1 == Piece::King))
        }),
        initial_squares(count)[Location(Player(p), Half::Left, Coord(f, PAWN_RANK))] == OwnedPiece(
            Player(p),
            Piece::Pawn,
        ),
        initial_squares(count)[Location(Player(p), Half::Right, Coord(f, PAWN_RANK))] == OwnedPiece(
            Player(p),
            Piece::Pawn,
        ),
        initial_squares(count)[Location(Player(p), Half::Left, Coord(0, 1))].1 == Piece::Rook,
        initial_squares(count)[Location(Player(p), Half::Right, Coord(EDGE, 1))].1 == Piece::Rook,
{
}

/// The piece that starts on `file` of rank 1 of `half`.
pub fn home_piece_at(half: Half, file: i8) -> (r: Piece)
    requires
        0 <= file <= EDGE,
    ensures
        r == home_piece(half, file),
{
    match half {
        Half::Left => if file == 0 {
            Piece::Rook
        } else if file == 1 {
            Piece::Knight
        } else if file == 2 {
            Piece::Bishop
        } else {
            Piece::Queen
        },
        Half::Right => if file == 0 {
            Piece::King
        } else if file == 1 {
            Piece::Bishop
        } else if file == 2 {
            Piece::Knight
        } else {
            Piece::Rook
        },
    }
}

/// The seats, in seating order, and the occupied squares of one game.
pub struct Board {
    players: Vec<Player>,
    grid: Grid,
}

impl Board {
    /// The seats, in seating order.
    pub closed spec fn seats(&self) -> Seq<Player> {
        self.players@
    }

    /// The occupied squares and the piece on each.
    pub closed spec fn squares(&self) -> Map<Location, OwnedPiece> {
        grid_contents(self.grid)
    }

    /// A board for `count` players, seated in order `0 .. count`, with every
    /// seat's back pieces on rank 1 and its pawns on rank 2 of both of its
    /// halves: sixteen squares per seat.
    pub fn new(count: usize) -> (r: Board)
        ensures
            r.seats() == Seq::new(count as nat, |i: int| Player(i as usize)),
            r.squares() == initial_squares(count as nat),
            r.squares().dom().finite(),
            r.squares().len() == 16 * count,
    {
        let mut players: Vec<Player> = Vec::new();
        let mut grid = grid_new();
        proof {
            assert(grid_contents(grid) =~= placement(0, 0));
        }
        let mut p: usize = 0;
        while p < count
            invariant
                p <= count,
                players@ == Seq::new(p as nat, |i: int| Player(i as usize)),
                grid_contents(grid) == placement(p as nat, 0),
                grid_contents(grid).dom().finite(),
                grid_contents(grid).len() == 16 * p,
            decreases count - p,
        {
            players.push(Player(p));
            proof {
                assert(players@ =~= Seq::new((p + 1) as nat, |i: int| Player(i as usize)));
            }
            let mut x: i8 = 0;
            while x <= EDGE
                invariant
                    p < count,
                    0 <= x <= EDGE + 1,
                    grid_contents(grid) == placement(p as nat, x as int),
                    grid_contents(grid).dom().finite(),
                    grid_contents(grid).len() == 16 * p + 4 * x,
                decreases EDGE + 1 - x,
            {
                let left = Location(Player(p), Half::Left, Coord(x, BACK_RANK));
                let right = Location(Player(p), Half::Right, Coord(x, BACK_RANK));
                let left_pawn = Location(Player(p), Half::Left, Coord(x, PAWN_RANK));
                let right_pawn = Location(Player(p), Half::Right, Coord(x, PAWN_RANK));
                proof {
                    assert(!grid_contents(grid).contains_key(left));
                }
                grid_insert(&mut grid, left, OwnedPiece(Player(p), home_piece_at(Half::Left, x)));
                proof {
                    assert(!grid_contents(grid).contains_key(right));
                }
                grid_insert(&mut grid, right, OwnedPiece(Player(p), home_piece_at(Half::Right, x)));
                proof {
                    assert(!grid_contents(grid).contains_key(left_pawn));
                }
                grid_insert(&mut grid, left_pawn, OwnedPiece(Player(p), Piece::Pawn));
                proof {
                    assert(!grid_contents(grid).contains_key(right_pawn));
                }
                grid_insert(&mut grid, right_pawn, OwnedPiece(Player(p), Piece::Pawn));
                proof {
                    assert(grid_contents(grid) =~= placement(p as nat, x + 1));
                }
                x = x + 1;
            }
            proof {
                assert(placement(p as nat, EDGE + 1) =~= placement((p + 1) as nat, 0));
            }
            p = p + 1;
        }
        Board { players, grid }
    }

    /// The seats, in seating order.
    pub fn players(&self) -> (r: &Vec<Player>)
        ensures
            r@ == self.seats(),
    {
        &self.players
    }

    /// The piece on `l`, or `None` when the square is empty.
    pub fn piece_at(&self, l: &Location) -> (r: Option<OwnedPiece>)
        ensures
            r == (if self.squares().contains_key(*l) {
                Some(self.squares()[*l])
            } else {
                None
            }),
    {
        grid_get(&self.grid, l)
    }

    /// The number of occupied squares.
    pub fn occupied(&self) -> (r: usize)
        ensures
            r == self.squares().len(),
    {
        grid_len(&self.grid)
    }
}

/// The game as a whole, for a table of `number` players.
pub struct Chess {
    pub number: usize,
}

impl Chess {
    /// The board this game starts from.
    pub fn board(&self) -> (r: Board)
        ensures
            r.seats() == Seq::new(self.number as nat, |i: int| Player(i as usize)),
            r.squares() == initial_squares(self.number as nat),
            r.squares().len() == 16 * self.number,
    {
        Board::new(self.number)
    }
}

} // verus!

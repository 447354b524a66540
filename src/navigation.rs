use vstd::prelude::*;
use vstd::arithmetic::div_mod::{
    lemma_add_mod_noop, lemma_fundamental_div_mod, lemma_fundamental_div_mod_converse_mod,
    lemma_small_mod,
};
use crate::location::{Coord, Dir, Half, Location, Player, EDGE};

verus! {

/// The seat after `p` at a table of `n`, going round.
pub open spec fn next_seat(p: usize, n: nat) -> usize {
    ((p + 1) % (n as int)) as usize
}

/// The seat before `p` at a table of `n`, going round.
pub open spec fn prev_seat(p: usize, n: nat) -> usize {
    ((p - 1) % (n as int)) as usize
}

/// Where one step `d` from `l` leads at a table of `n`, or `None` when it
/// leaves the board.
pub open spec fn moved(l: Location, d: Dir, n: nat) -> Option<Location> {
    let Location(p, h, c) = l;
    let Coord(x, y) = c;
    match d {
        Dir::U => if y == EDGE {
            match h {
                Half::Left => Some(Location(Player(next_seat(p.0, n)), Half::Right, c)),
                Half::Right => Some(Location(Player(prev_seat(p.0, n)), Half::Left, c)),
            }
        } else {
            Some(Location(p, h, Coord(x, (y + 1) as i8)))
        },
        Dir::D => if y == 0 {
            None
        } else {
            Some(Location(p, h, Coord(x, (y - 1) as i8)))
        },
        Dir::R => match h {
            Half::Left => if x == 0 {
                Some(Location(p, Half::Right, c))
            } else {
                Some(Location(p, h, Coord((x - 1) as i8, y)))
            },
            Half::Right => if x == EDGE {
                None
            } else {
                Some(Location(p, h, Coord((x + 1) as i8, y)))
            },
        },
        Dir::L => match h {
            Half::Left => if x == EDGE {
                None
            } else {
                Some(Location(p, h, Coord((x + 1) as i8, y)))
            },
            Half::Right => if x == 0 {
                Some(Location(p, Half::Left, c))
            } else {
                Some(Location(p, h, Coord((x - 1) as i8, y)))
            },
        },
    }
}

/// Where the steps of `path`, taken in order, lead from `l`; `None` as soon
/// as one of them leaves the board.
pub open spec fn walked(l: Location, path: Seq<Dir>, n: nat) -> Option<Location>
    decreases path.len(),
{
    if path.len() == 0 {
        Some(l)
    } else {
        match moved(l, path[0], n) {
            None => None,
            Some(next) => walked(next, path.drop_first(), n),
        }
    }
}

/// A path of one step goes where that step goes.
pub proof fn lemma_walked_one(l: Location, d: Dir, n: nat)
    ensures
        walked(l, seq![d], n) == moved(l, d, n),
{
    assert(seq![d].drop_first() =~= Seq::<Dir>::empty());
    reveal_with_fuel(walked, 2);
}

/// A path of two steps takes the second from where the first leads.
pub proof fn lemma_walked_two(l: Location, d1: Dir, d2: Dir, n: nat)
    ensures
        walked(l, seq![d1, d2], n) == match moved(l, d1, n) {
            None => None,
            Some(m) => moved(m, d2, n),
        },
{
    assert(seq![d1, d2].drop_first() =~= seq![d2]);
    assert(seq![d2].drop_first() =~= Seq::<Dir>::empty());
    reveal_with_fuel(walked, 3);
}

/// On any table of three or more, a step down from rank 0 leaves the board,
/// and from any higher rank it lowers the rank by one and keeps the rest.
pub proof fn lemma_down_step(l: Location, n: nat)
    requires
        n >= 3,
        l.wf(n),
    ensures
        walked(l, seq![Dir::D], n) == (if l.2.1 == 0 {
            None
        } else {
            Some(Location(l.0, l.1, Coord(l.2.0, (l.2.1 - 1) as i8)))
        }),
{
    lemma_walked_one(l, Dir::D, n);
}

/// A step up from the far rank of a left half enters the right half of the
/// next seat, same cell; a second step up comes back to the start.
pub proof fn lemma_up_across_and_back(l: Location, n: nat)
    requires
        n <= usize::MAX,
        l.wf(n),
        l.1 == Half::Left,
        l.2.1 == EDGE,
    ensures
        walked(l, seq![Dir::U], n) == Some(
            Location(Player(((l.0.0 + 1) % (n as int)) as usize), Half::Right, l.2),
        ),
        walked(l, seq![Dir::U, Dir::U], n) == Some(l),
{
    lemma_walked_one(l, Dir::U, n);
    lemma_walked_two(l, Dir::U, Dir::U, n);
    let p = l.0.0 as int;
    let m = n as int;
    if p + 1 < m {
        lemma_small_mod((p + 1) as nat, n);
        lemma_small_mod(p as nat, n);
        assert(next_seat(l.0.0, n) == p + 1);
    } else {
        lemma_fundamental_div_mod_converse_mod(p + 1, m, 1, 0);
        lemma_fundamental_div_mod_converse_mod(-1, m, -1, m - 1);
        assert(next_seat(l.0.0, n) == 0);
        assert(prev_seat(0, n) == p);
    }
}

/// Below the far rank, a step up followed by a step down comes back to the
/// start.
pub proof fn lemma_up_then_down(l: Location, n: nat)
    requires
        l.2.wf(),
        l.2.1 < EDGE,
    ensures
        walked(l, seq![Dir::U, Dir::D], n) == Some(l),
{
    lemma_walked_two(l, Dir::U, Dir::D, n);
}

/// Away from the first and last file, a step right followed by a step left
/// comes back to the start, on either half.
pub proof fn lemma_right_then_left(l: Location, n: nat)
    requires
        l.2.wf(),
        0 < l.2.0 < EDGE,
    ensures
        walked(l, seq![Dir::R, Dir::L], n) == Some(l),
{
    lemma_walked_two(l, Dir::R, Dir::L, n);
}

/// On file 0, a step right from the left half and a step left from the right
/// half cross the bisector into the other half of the same seat, same cell;
/// each undoes the other.
pub proof fn lemma_cross_bisector(p: Player, c: Coord, n: nat)
    requires
        c.wf(),
        c.0 == 0,
    ensures
        walked(Location(p, Half::Left, c), seq![Dir::R], n) == Some(Location(p, Half::Right, c)),
        walked(Location(p, Half::Right, c), seq![Dir::L], n) == Some(Location(p, Half::Left, c)),
        walked(Location(p, Half::Left, c), seq![Dir::R, Dir::L], n) == Some(
            Location(p, Half::Left, c),
        ),
        walked(Location(p, Half::Right, c), seq![Dir::L, Dir::R], n) == Some(
            Location(p, Half::Right, c),
        ),
{
    lemma_walked_one(Location(p, Half::Left, c), Dir::R, n);
    lemma_walked_one(Location(p, Half::Right, c), Dir::L, n);
    lemma_walked_two(Location(p, Half::Left, c), Dir::R, Dir::L, n);
    lemma_walked_two(Location(p, Half::Right, c), Dir::L, Dir::R, n);
}

impl Location {
    /// Takes the single step `d`.
    pub fn step(&self, d: Dir, num_players: usize) -> (r: Option<Location>)
        requires
            num_players > 0,
            self.2.wf(),
        ensures
            r == moved(*self, d, num_players as nat),
            r matches Some(m) ==> m.2.wf(),
    {
        let Location(p, h, c) = *self;
        let Coord(x, y) = c;
        match d {
            Dir::U => if y == EDGE {
                match h {
                    Half::Left => {
                        let seat = (p.0 % num_players + 1) % num_players;
                        proof {
                            lemma_add_mod_noop(p.0 as int, 1, num_players as int);
                            if num_players > 1 {
                                lemma_small_mod(1, num_players as nat);
                            } else {
                                lemma_fundamental_div_mod_converse_mod(p.0 + 1, 1, p.0 + 1, 0);
                                lemma_fundamental_div_mod_converse_mod(
                                    (p.0 % num_players) + 1, 1, (p.0 % num_players) + 1, 0);
                            }
                        }
                        Some(Location(Player(seat), Half::Right, c))
                    },
                    Half::Right => {
                        let r = p.0 % num_players;
                        let seat = if r == 0 { num_players - 1 } else { r - 1 };
                        proof {
                            let n = num_players as int;
                            let q = p.0 as int / n;
                            lemma_fundamental_div_mod(p.0 as int, n);
                            assert(p.0 as int == q * n + r) by (nonlinear_arith)
                                requires p.0 as int == n * q + r;
                            if r == 0 {
                                assert(p.0 - 1 == (q - 1) * n + (n - 1)) by (nonlinear_arith)
                                    requires p.0 as int == q * n;
                                lemma_fundamental_div_mod_converse_mod(
                                    p.0 - 1, n, q - 1, n - 1);
                            } else {
                                lemma_fundamental_div_mod_converse_mod(
                                    p.0 - 1, n, q, r - 1);
                            }
                        }
                        Some(Location(Player(seat), Half::Left, c))
                    },
                }
            } else {
                Some(Location(p, h, Coord(x, y + 1)))
            },
            Dir::D => if y == 0 {
                None
            } else {
                Some(Location(p, h, Coord(x, y - 1)))
            },
            Dir::R => match h {
                Half::Left => if x == 0 {
                    Some(Location(p, Half::Right, c))
                } else {
                    Some(Location(p, h, Coord(x - 1, y)))
                },
                Half::Right => if x == EDGE {
                    None
                } else {
                    Some(Location(p, h, Coord(x + 1, y)))
                },
            },
            Dir::L => match h {
                Half::Left => if x == EDGE {
                    None
                } else {
                    Some(Location(p, h, Coord(x + 1, y)))
                },
                Half::Right => if x == 0 {
                    Some(Location(p, Half::Left, c))
                } else {
                    Some(Location(p, h, Coord(x - 1, y)))
                },
            },
        }
    }

    /// Follows `path` one step at a time from this square. The result is
    /// `None` exactly when some step leaves the board; the steps after it are
    /// not taken.
    pub fn go(&self, path: &[Dir], num_players: usize) -> (r: Option<Location>)
        requires
            num_players > 0,
            self.2.wf(),
        ensures
            r == walked(*self, path@, num_players as nat),
    {
        let n = Ghost(num_players as nat);
        let mut ret = *self;
        let mut i: usize = 0;
        assert(path@.subrange(0, path@.len() as int) =~= path@);
        while i < path.len()
            invariant
                i <= path@.len(),
                num_players > 0,
                n@ == num_players as nat,
                ret.2.wf(),
                walked(ret, path@.subrange(i as int, path@.len() as int), n@)
                    == walked(*self, path@, n@),
            decreases path@.len() - i,
        {
            let d = path[i];
            let stepped = ret.step(d, num_players);
            proof {
                let rest = path@.subrange(i as int, path@.len() as int);
                assert(rest[0] == d);
                assert(rest.drop_first() =~= path@.subrange(i + 1, path@.len() as int));
                assert(walked(ret, rest, n@) == match moved(ret, d, n@) {
                    None => None,
                    Some(m) => walked(m, rest.drop_first(), n@),
                });
            }
            match stepped {
                None => return None,
                Some(next) => ret = next,
            }
            i = i + 1;
        }
        proof {
            assert(path@.subrange(i as int, path@.len() as int) =~= Seq::<Dir>::empty());
        }
        Some(ret)
    }
}

} // verus!

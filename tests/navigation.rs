use round_chess::location::{Coord, Dir, Half, Location, Player};

fn at(p: usize, h: Half, x: i8, y: i8) -> Location {
    Location(Player(p), h, Coord(x, y))
}

#[test]
fn up_from_far_rank_enters_next_seat() {
    let start = at(0, Half::Left, 0, 3);
    assert_eq!(start.go(&[Dir::U], 3), Some(at(1, Half::Right, 0, 3)));
}

#[test]
fn right_from_right_edge_leaves_board() {
    let start = at(0, Half::Right, 3, 2);
    assert_eq!(start.go(&[Dir::R], 3), None);
}

#[test]
fn down_from_near_rank_leaves_board() {
    for p in 0..3 {
        for x in 0..4 {
            assert_eq!(at(p, Half::Left, x, 0).go(&[Dir::D], 3), None);
            assert_eq!(at(p, Half::Right, x, 0).go(&[Dir::D], 3), None);
        }
    }
}

#[test]
fn down_lowers_rank_by_one() {
    assert_eq!(at(1, Half::Right, 2, 3).go(&[Dir::D], 4), Some(at(1, Half::Right, 2, 2)));
    assert_eq!(at(2, Half::Left, 0, 1).go(&[Dir::D], 3), Some(at(2, Half::Left, 0, 0)));
}

#[test]
fn up_from_last_seat_wraps_to_first() {
    assert_eq!(at(2, Half::Left, 1, 3).go(&[Dir::U], 3), Some(at(0, Half::Right, 1, 3)));
    assert_eq!(at(4, Half::Left, 3, 3).go(&[Dir::U], 5), Some(at(0, Half::Right, 3, 3)));
}

#[test]
fn up_from_right_half_of_first_seat_wraps_to_last() {
    assert_eq!(at(0, Half::Right, 2, 3).go(&[Dir::U], 3), Some(at(2, Half::Left, 2, 3)));
    assert_eq!(at(1, Half::Right, 2, 3).go(&[Dir::U], 3), Some(at(0, Half::Left, 2, 3)));
}

#[test]
fn up_twice_across_far_edge_returns() {
    for p in 0..3 {
        let start = at(p, Half::Left, 2, 3);
        assert_eq!(start.go(&[Dir::U, Dir::U], 3), Some(start));
    }
}

#[test]
fn up_then_down_returns_below_far_rank() {
    let start = at(1, Half::Right, 1, 2);
    assert_eq!(start.go(&[Dir::U], 3), Some(at(1, Half::Right, 1, 3)));
    assert_eq!(start.go(&[Dir::U, Dir::D], 3), Some(start));
}

#[test]
fn right_then_left_returns_in_interior() {
    for x in 1..3 {
        for y in 0..4 {
            let l = at(0, Half::Left, x, y);
            let r = at(0, Half::Right, x, y);
            assert_eq!(l.go(&[Dir::R, Dir::L], 3), Some(l));
            assert_eq!(r.go(&[Dir::R, Dir::L], 3), Some(r));
        }
    }
    assert_eq!(at(0, Half::Left, 2, 1).go(&[Dir::R], 3), Some(at(0, Half::Left, 1, 1)));
    assert_eq!(at(0, Half::Right, 2, 1).go(&[Dir::R], 3), Some(at(0, Half::Right, 3, 1)));
}

#[test]
fn bisector_crossings_are_inverse() {
    let left = at(1, Half::Left, 0, 2);
    let right = at(1, Half::Right, 0, 2);
    assert_eq!(left.go(&[Dir::R], 3), Some(right));
    assert_eq!(right.go(&[Dir::L], 3), Some(left));
    assert_eq!(left.go(&[Dir::R, Dir::L], 3), Some(left));
    assert_eq!(right.go(&[Dir::L, Dir::R], 3), Some(right));
}

#[test]
fn left_from_left_edge_leaves_board() {
    assert_eq!(at(0, Half::Left, 3, 0).go(&[Dir::L], 3), None);
}

#[test]
fn off_board_step_stops_the_path() {
    assert_eq!(at(0, Half::Left, 0, 0).go(&[Dir::D, Dir::U], 3), None);
}

#[test]
fn empty_path_stays() {
    let start = at(2, Half::Right, 3, 3);
    assert_eq!(start.go(&[], 3), Some(start));
}

#[test]
fn long_path_crosses_several_boundaries() {
    let start = at(0, Half::Left, 1, 2);
    let path = [Dir::R, Dir::R, Dir::U, Dir::U, Dir::D, Dir::L];
    // R: (0,L,(0,2)); R: (0,R,(0,2)); U: (0,R,(0,3)); U: (2,L,(0,3));
    // D: (2,L,(0,2)); L: (2,L,(1,2)).
    assert_eq!(start.go(&path, 3), Some(at(2, Half::Left, 1, 2)));
}

#[test]
fn single_step_matches_path_of_one() {
    let start = at(1, Half::Left, 0, 3);
    assert_eq!(start.step(Dir::U, 3), start.go(&[Dir::U], 3));
    assert_eq!(start.step(Dir::R, 3), Some(at(1, Half::Right, 0, 3)));
}

#[test]
fn coord_rejects_out_of_range() {
    assert_eq!(Coord::new(0, 3), Some(Coord(0, 3)));
    assert_eq!(Coord::new(3, 0), Some(Coord(3, 0)));
    assert_eq!(Coord::new(4, 0), None);
    assert_eq!(Coord::new(0, -1), None);
}

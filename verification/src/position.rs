use vstd::prelude::*;

use crate::rng::random_index;

verus! {

/// The four directions a player can face on the torus.
#[derive(Debug, Clone, Copy, PartialEq, Eq, Structural)]
pub enum Direction {
    North,
    East,
    South,
    West,
}

/// The side a player turns to.
#[derive(Debug, Clone, Copy, PartialEq, Eq, Structural)]
pub enum Side {
    Left,
    Right,
}

/// A cell of the field together with the direction a player faces in it.
#[derive(Debug, Clone, Copy, PartialEq, Eq, Structural)]
pub struct Position {
    pub x: usize,
    pub y: usize,
    pub dir: Direction,
}

/// The direction reached by a quarter turn to the given side.
pub open spec fn spec_turn(d: Direction, side: Side) -> Direction {
    match (d, side) {
        (Direction::North, Side::Left) => Direction::West,
        (Direction::West, Side::Left) => Direction::South,
        (Direction::South, Side::Left) => Direction::East,
        (Direction::East, Side::Left) => Direction::North,
        (Direction::North, Side::Right) => Direction::East,
        (Direction::East, Side::Right) => Direction::South,
        (Direction::South, Side::Right) => Direction::West,
        (Direction::West, Side::Right) => Direction::North,
    }
}

/// The direction facing the other way.
pub open spec fn spec_opposite(d: Direction) -> Direction {
    match d {
        Direction::North => Direction::South,
        Direction::South => Direction::North,
        Direction::East => Direction::West,
        Direction::West => Direction::East,
    }
}

/// One step in the direction: north decreases `y`, east increases `x`.
pub open spec fn spec_dx_dy(d: Direction) -> (int, int) {
    match d {
        Direction::North => (0, -1),
        Direction::East => (1, 0),
        Direction::South => (0, 1),
        Direction::West => (-1, 0),
    }
}

/// The direction with the given clockwise index from north.
pub open spec fn spec_direction_from_index(i: nat) -> Direction {
    if i % 4 == 0 {
        Direction::North
    } else if i % 4 == 1 {
        Direction::East
    } else if i % 4 == 2 {
        Direction::South
    } else {
        Direction::West
    }
}

impl Direction {
    pub fn turn(self, side: Side) -> (r: Direction)
        ensures
            r == spec_turn(self, side),
    {
        match (self, side) {
            (Direction::North, Side::Left) => Direction::West,
            (Direction::West, Side::Left) => Direction::South,
            (Direction::South, Side::Left) => Direction::East,
            (Direction::East, Side::Left) => Direction::North,
            (Direction::North, Side::Right) => Direction::East,
            (Direction::East, Side::Right) => Direction::South,
            (Direction::South, Side::Right) => Direction::West,
            (Direction::West, Side::Right) => Direction::North,
        }
    }

    pub fn opposite(self) -> (r: Direction)
        ensures
            r == spec_opposite(self),
    {
        match self {
            Direction::North => Direction::South,
            Direction::South => Direction::North,
            Direction::East => Direction::West,
            Direction::West => Direction::East,
        }
    }

    pub fn dx_dy(self) -> (r: (isize, isize))
        ensures
            (r.0 as int, r.1 as int) == spec_dx_dy(self),
    {
        match self {
            Direction::North => (0, -1),
            Direction::East => (1, 0),
            Direction::South => (0, 1),
            Direction::West => (-1, 0),
        }
    }

    /// The direction with the given clockwise index from north, taken modulo 4.
    pub fn from_index(i: usize) -> (r: Direction)
        ensures
            r == spec_direction_from_index(i as nat),
    {
        if i % 4 == 0 {
            Direction::North
        } else if i % 4 == 1 {
            Direction::East
        } else if i % 4 == 2 {
            Direction::South
        } else {
            Direction::West
        }
    }

    /// The name of the direction, as sent to clients.
    pub fn name(&self) -> (s: &'static str)
        ensures
            s@ == spec_direction_name(*self),
    {
        proof {
            reveal_strlit("North");
            reveal_strlit("East");
            reveal_strlit("South");
            reveal_strlit("West");
        }
        match self {
            Direction::North => "North",
            Direction::East => "East",
            Direction::South => "South",
            Direction::West => "West",
        }
    }

    /// A direction drawn at random: the direction of a clockwise index from north drawn in
    /// `0..4`. Which index comes out rests on chance.
    pub fn random() -> (r: Direction)
        ensures
            exists|k: nat| k < 4 && r == spec_direction_from_index(k),
    {
        let k = random_index(4);
        let r = Direction::from_index(k);
        assert(k < 4 && r == spec_direction_from_index(k as nat));
        r
    }
}

/// The name of a direction.
pub open spec fn spec_direction_name(d: Direction) -> Seq<char> {
    match d {
        Direction::North => seq!['N', 'o', 'r', 't', 'h'],
        Direction::East => seq!['E', 'a', 's', 't'],
        Direction::South => seq!['S', 'o', 'u', 't', 'h'],
        Direction::West => seq!['W', 'e', 's', 't'],
    }
}

/// Four quarter turns to one side bring a player back to where it faced.
pub proof fn lemma_four_turns_identity(d: Direction, side: Side)
    ensures
        spec_turn(spec_turn(spec_turn(spec_turn(d, side), side), side), side) == d,
{
}

/// A turn to the left undoes a turn to the right, and the other way round.
pub proof fn lemma_turns_cancel(d: Direction)
    ensures
        spec_turn(spec_turn(d, Side::Left), Side::Right) == d,
        spec_turn(spec_turn(d, Side::Right), Side::Left) == d,
{
}

/// Two right turns face the opposite direction; so do two left turns.
pub proof fn lemma_half_turn_is_opposite(d: Direction)
    ensures
        spec_turn(spec_turn(d, Side::Right), Side::Right) == spec_opposite(d),
        spec_turn(spec_turn(d, Side::Left), Side::Left) == spec_opposite(d),
        spec_opposite(spec_opposite(d)) == d,
{
}

} // verus!

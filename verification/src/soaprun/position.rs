use vstd::prelude::*;

verus! {

/// A point of the world grid.
#[derive(PartialEq, Eq, Structural, Hash, Clone, Copy, Debug)]
pub struct Position {
    pub x: i16,
    pub y: i16,
}

/// `v` held to the range of `i16`.
pub open spec fn saturate(v: int) -> i16 {
    if v < i16::MIN {
        i16::MIN
    } else if v > i16::MAX {
        i16::MAX
    } else {
        v as i16
    }
}

/// `v` folded into the range of `i16` as two's complement arithmetic does,
/// for `v` at most one range away.
pub open spec fn wrap(v: int) -> i16 {
    if v < i16::MIN {
        (v + 0x1_0000) as i16
    } else if v > i16::MAX {
        (v - 0x1_0000) as i16
    } else {
        v as i16
    }
}

/// The distance between two coordinates.
pub open spec fn gap(a: int, b: int) -> int {
    if a <= b {
        b - a
    } else {
        a - b
    }
}

pub(crate) fn saturating(v: i32) -> (r: i16)
    ensures
        r == saturate(v as int),
{
    if v < -32768 {
        -32768
    } else if v > 32767 {
        32767
    } else {
        v as i16
    }
}

fn before(v: i16) -> (r: i16)
    ensures
        r == wrap(v - 1),
{
    if v == i16::MIN {
        i16::MAX
    } else {
        v - 1
    }
}

fn after(v: i16) -> (r: i16)
    ensures
        r == wrap(v + 1),
{
    if v == i16::MAX {
        i16::MIN
    } else {
        v + 1
    }
}

fn coordinate_gap(a: i16, b: i16) -> (r: usize)
    ensures
        r == gap(a as int, b as int),
{
    let d: i32 = if a <= b {
        b as i32 - a as i32
    } else {
        a as i32 - b as i32
    };
    d as usize
}

/// A copy of a list of positions.
pub fn copy_positions(positions: &Vec<Position>) -> (r: Vec<Position>)
    ensures
        r@ == positions@,
{
    let mut copy: Vec<Position> = Vec::new();
    let mut i: usize = 0;
    while i < positions.len()
        invariant
            i <= positions.len(),
            copy@ =~= positions@.subrange(0, i as int),
        decreases positions.len() - i,
    {
        copy.push(positions[i]);
        i = i + 1;
    }
    assert(positions@.subrange(0, positions@.len() as int) =~= positions@);
    copy
}

impl Position {
    /// Whether the two positions share a row or a column.
    pub open spec fn spec_in_line(self, other: Position) -> bool {
        self.x == other.x || self.y == other.y
    }

    /// Whether `other` is this position or one of its four neighbours, the
    /// neighbouring coordinates taken with wrap-around.
    pub open spec fn spec_adjacent_inclusive(self, other: Position) -> bool {
        ||| self.x == other.x && wrap(self.y - 1) <= other.y && other.y <= wrap(self.y + 1)
        ||| self.y == other.y && wrap(self.x - 1) <= other.x && other.x <= wrap(self.x + 1)
    }

    /// Whether `other` is one of the four neighbours of this position, the
    /// neighbouring coordinates taken with wrap-around.
    pub open spec fn spec_adjacent_exclusive(self, other: Position) -> bool {
        ||| self.x == other.x && (wrap(self.y - 1) == other.y || other.y == wrap(self.y + 1))
        ||| self.y == other.y && (wrap(self.x - 1) == other.x || other.x == wrap(self.x + 1))
    }

    pub open spec fn spec_north(self, amount: int) -> Position {
        Position { x: self.x, y: saturate(self.y - amount) }
    }

    pub open spec fn spec_south(self, amount: int) -> Position {
        Position { x: self.x, y: saturate(self.y + amount) }
    }

    pub open spec fn spec_west(self, amount: int) -> Position {
        Position { x: saturate(self.x - amount), y: self.y }
    }

    pub open spec fn spec_east(self, amount: int) -> Position {
        Position { x: saturate(self.x + amount), y: self.y }
    }

    /// The number of unit steps along the axes from one position to the other.
    pub open spec fn spec_taxicab_distance(self, other: Position) -> int {
        gap(self.x as int, other.x as int) + gap(self.y as int, other.y as int)
    }

    pub fn in_line(&self, other: &Position) -> (r: bool)
        ensures
            r == self.spec_in_line(*other),
    {
        self.x == other.x || self.y == other.y
    }

    pub fn adjacent_inclusive(&self, other: &Position) -> (r: bool)
        ensures
            r == self.spec_adjacent_inclusive(*other),
    {
        (self.x == other.x && (before(self.y) <= other.y && other.y <= after(self.y))) || (self.y
            == other.y && (before(self.x) <= other.x && other.x <= after(self.x)))
    }

    pub fn adjacent_exclusive(&self, other: &Position) -> (r: bool)
        ensures
            r == self.spec_adjacent_exclusive(*other),
    {
        (self.x == other.x && (before(self.y) == other.y || other.y == after(self.y))) || (self.y
            == other.y && (before(self.x) == other.x || other.x == after(self.x)))
    }

    /// The position `amount` steps up, stopping at the edge of the coordinate range.
    pub fn north(&self, amount: i16) -> (r: Position)
        ensures
            r == self.spec_north(amount as int),
    {
        Position { x: self.x, y: saturating(self.y as i32 - amount as i32) }
    }

    /// The position `amount` steps down, stopping at the edge of the coordinate range.
    pub fn south(&self, amount: i16) -> (r: Position)
        ensures
            r == self.spec_south(amount as int),
    {
        Position { x: self.x, y: saturating(self.y as i32 + amount as i32) }
    }

    /// The position `amount` steps to the left, stopping at the edge of the coordinate range.
    pub fn west(&self, amount: i16) -> (r: Position)
        ensures
            r == self.spec_west(amount as int),
    {
        Position { x: saturating(self.x as i32 - amount as i32), y: self.y }
    }

    /// The position `amount` steps to the right, stopping at the edge of the coordinate range.
    pub fn east(&self, amount: i16) -> (r: Position)
        ensures
            r == self.spec_east(amount as int),
    {
        Position { x: saturating(self.x as i32 + amount as i32), y: self.y }
    }

    pub fn taxicab_distance(&self, other: &Position) -> (r: usize)
        ensures
            r == self.spec_taxicab_distance(*other),
    {
        coordinate_gap(self.x, other.x) + coordinate_gap(self.y, other.y)
    }
}

} // verus!

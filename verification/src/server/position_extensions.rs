use vstd::prelude::*;

use crate::soaprun::position::Position;

verus! {

/// A set of the four directions of the grid.
#[derive(PartialEq, Eq, Structural, Clone, Copy, Debug)]
pub struct DirectionFlags {
    pub has_north: bool,
    pub has_south: bool,
    pub has_west: bool,
    pub has_east: bool,
}

impl DirectionFlags {
    pub open spec fn spec_empty() -> DirectionFlags {
        DirectionFlags { has_north: false, has_south: false, has_west: false, has_east: false }
    }

    pub open spec fn spec_union(self, other: DirectionFlags) -> DirectionFlags {
        DirectionFlags {
            has_north: self.has_north || other.has_north,
            has_south: self.has_south || other.has_south,
            has_west: self.has_west || other.has_west,
            has_east: self.has_east || other.has_east,
        }
    }

    pub open spec fn spec_intersection(self, other: DirectionFlags) -> DirectionFlags {
        DirectionFlags {
            has_north: self.has_north && other.has_north,
            has_south: self.has_south && other.has_south,
            has_west: self.has_west && other.has_west,
            has_east: self.has_east && other.has_east,
        }
    }

    pub open spec fn spec_complement(self) -> DirectionFlags {
        DirectionFlags {
            has_north: !self.has_north,
            has_south: !self.has_south,
            has_west: !self.has_west,
            has_east: !self.has_east,
        }
    }

    /// The set with north and south exchanged, and west and east.
    pub open spec fn opposite(self) -> DirectionFlags {
        DirectionFlags {
            has_north: self.has_south,
            has_south: self.has_north,
            has_west: self.has_east,
            has_east: self.has_west,
        }
    }

    /// Whether every direction of `other` is in the set.
    pub open spec fn spec_contains(self, other: DirectionFlags) -> bool {
        self.spec_intersection(other) == other
    }

    pub open spec fn spec_is_empty(self) -> bool {
        self == Self::spec_empty()
    }

    pub open spec fn spec_is_all(self) -> bool {
        self.has_north && self.has_south && self.has_west && self.has_east
    }

    /// The number of directions in the set.
    pub open spec fn count(self) -> int {
        (if self.has_north { 1int } else { 0 }) + (if self.has_south { 1int } else { 0 }) + (if self.has_west {
            1int
        } else {
            0
        }) + (if self.has_east { 1int } else { 0 })
    }

    /// The neighbours of `pos` in the directions of the set, in the order
    /// north, south, west, east.
    pub open spec fn spec_to_positions(self, pos: Position) -> Seq<Position> {
        let s0 = Seq::<Position>::empty();
        let s1 = if self.has_north { s0.push(pos.spec_north(1)) } else { s0 };
        let s2 = if self.has_south { s1.push(pos.spec_south(1)) } else { s1 };
        let s3 = if self.has_west { s2.push(pos.spec_west(1)) } else { s2 };
        if self.has_east { s3.push(pos.spec_east(1)) } else { s3 }
    }

    pub fn empty() -> (r: DirectionFlags)
        ensures
            r == Self::spec_empty(),
    {
        DirectionFlags { has_north: false, has_south: false, has_west: false, has_east: false }
    }

    pub fn all() -> (r: DirectionFlags)
        ensures
            r == Self::spec_empty().spec_complement(),
    {
        DirectionFlags { has_north: true, has_south: true, has_west: true, has_east: true }
    }

    pub fn north() -> (r: DirectionFlags)
        ensures
            r == (DirectionFlags { has_north: true, ..Self::spec_empty() }),
    {
        DirectionFlags { has_north: true, has_south: false, has_west: false, has_east: false }
    }

    pub fn south() -> (r: DirectionFlags)
        ensures
            r == (DirectionFlags { has_south: true, ..Self::spec_empty() }),
    {
        DirectionFlags { has_north: false, has_south: true, has_west: false, has_east: false }
    }

    pub fn west() -> (r: DirectionFlags)
        ensures
            r == (DirectionFlags { has_west: true, ..Self::spec_empty() }),
    {
        DirectionFlags { has_north: false, has_south: false, has_west: true, has_east: false }
    }

    pub fn east() -> (r: DirectionFlags)
        ensures
            r == (DirectionFlags { has_east: true, ..Self::spec_empty() }),
    {
        DirectionFlags { has_north: false, has_south: false, has_west: false, has_east: true }
    }

    /// North and south.
    pub fn vertical() -> (r: DirectionFlags)
        ensures
            r == (DirectionFlags { has_north: true, has_south: true, ..Self::spec_empty() }),
    {
        DirectionFlags { has_north: true, has_south: true, has_west: false, has_east: false }
    }

    /// West and east.
    pub fn horizontal() -> (r: DirectionFlags)
        ensures
            r == (DirectionFlags { has_west: true, has_east: true, ..Self::spec_empty() }),
    {
        DirectionFlags { has_north: false, has_south: false, has_west: true, has_east: true }
    }

    pub fn union(self, other: DirectionFlags) -> (r: DirectionFlags)
        ensures
            r == self.spec_union(other),
    {
        DirectionFlags {
            has_north: self.has_north || other.has_north,
            has_south: self.has_south || other.has_south,
            has_west: self.has_west || other.has_west,
            has_east: self.has_east || other.has_east,
        }
    }

    pub fn intersection(self, other: DirectionFlags) -> (r: DirectionFlags)
        ensures
            r == self.spec_intersection(other),
    {
        DirectionFlags {
            has_north: self.has_north && other.has_north,
            has_south: self.has_south && other.has_south,
            has_west: self.has_west && other.has_west,
            has_east: self.has_east && other.has_east,
        }
    }

    pub fn complement(self) -> (r: DirectionFlags)
        ensures
            r == self.spec_complement(),
    {
        DirectionFlags {
            has_north: !self.has_north,
            has_south: !self.has_south,
            has_west: !self.has_west,
            has_east: !self.has_east,
        }
    }

    pub fn insert(&mut self, other: DirectionFlags)
        ensures
            *final(self) == old(self).spec_union(other),
    {
        *self = self.union(other);
    }

    pub fn contains(&self, other: DirectionFlags) -> (r: bool)
        ensures
            r == self.spec_contains(other),
    {
        self.intersection(other) == other
    }

    pub fn is_empty(&self) -> (r: bool)
        ensures
            r == self.spec_is_empty(),
    {
        !self.has_north && !self.has_south && !self.has_west && !self.has_east
    }

    pub fn is_all(&self) -> (r: bool)
        ensures
            r == self.spec_is_all(),
    {
        self.has_north && self.has_south && self.has_west && self.has_east
    }

    /// The neighbours of `pos` in the directions of the set.
    pub fn to_positions(&self, pos: &Position) -> (r: Vec<Position>)
        ensures
            r@ == self.spec_to_positions(*pos),
            r@.len() == self.count(),
    {
        let mut positions: Vec<Position> = Vec::with_capacity(4);
        if self.has_north {
            positions.push(pos.north(1));
        }
        if self.has_south {
            positions.push(pos.south(1));
        }
        if self.has_west {
            positions.push(pos.west(1));
        }
        if self.has_east {
            positions.push(pos.east(1));
        }
        positions
    }
}

impl vstd::std_specs::ops::BitOrSpecImpl for DirectionFlags {
    open spec fn obeys_bitor_spec() -> bool {
        true
    }

    open spec fn bitor_req(self, rhs: DirectionFlags) -> bool {
        true
    }

    open spec fn bitor_spec(self, rhs: DirectionFlags) -> DirectionFlags {
        self.spec_union(rhs)
    }
}

impl std::ops::BitOr for DirectionFlags {
    type Output = DirectionFlags;

    fn bitor(self, rhs: DirectionFlags) -> (r: DirectionFlags) {
        self.union(rhs)
    }
}

impl vstd::std_specs::ops::BitAndSpecImpl for DirectionFlags {
    open spec fn obeys_bitand_spec() -> bool {
        true
    }

    open spec fn bitand_req(self, rhs: DirectionFlags) -> bool {
        true
    }

    open spec fn bitand_spec(self, rhs: DirectionFlags) -> DirectionFlags {
        self.spec_intersection(rhs)
    }
}

impl std::ops::BitAnd for DirectionFlags {
    type Output = DirectionFlags;

    fn bitand(self, rhs: DirectionFlags) -> (r: DirectionFlags) {
        self.intersection(rhs)
    }
}

impl Position {
    /// The directions in which `other` lies from this position: west or east
    /// where it lies in another column, north or south where it lies in
    /// another row.
    pub open spec fn spec_relative_direction(self, other: Position) -> DirectionFlags {
        DirectionFlags {
            has_north: other.y < self.y,
            has_south: self.y < other.y,
            has_west: other.x < self.x,
            has_east: self.x < other.x,
        }
    }

    pub fn relative_direction(&self, other: &Position) -> (r: DirectionFlags)
        ensures
            r == self.spec_relative_direction(*other),
    {
        let mut flags = DirectionFlags::empty();
        if other.x < self.x {
            flags.insert(DirectionFlags::west());
        } else if self.x < other.x {
            flags.insert(DirectionFlags::east());
        }
        if other.y < self.y {
            flags.insert(DirectionFlags::north());
        } else if self.y < other.y {
            flags.insert(DirectionFlags::south());
        }
        flags
    }
}

/// Seen from the other end, every direction turns into its opposite: where
/// the two positions differ along an axis, one sees the other in one
/// direction of that axis and is seen from it in the other.
pub proof fn lemma_relative_direction_opposite(from: Position, to: Position)
    ensures
        to.spec_relative_direction(from) == from.spec_relative_direction(to).opposite(),
        from.x != to.x ==> (from.spec_relative_direction(to).has_west != from.spec_relative_direction(
            to,
        ).has_east),
        from.y != to.y ==> (from.spec_relative_direction(to).has_north != from.spec_relative_direction(
            to,
        ).has_south),
        from.x == to.x ==> !from.spec_relative_direction(to).has_west && !from.spec_relative_direction(
            to,
        ).has_east,
        from.y == to.y ==> !from.spec_relative_direction(to).has_north && !from.spec_relative_direction(
            to,
        ).has_south,
{
}

} // verus!

use vstd::prelude::*;

use super::position::Position;

verus! {

pub const CLIENT_ROOM_WIDTH: usize = 21;

pub const CLIENT_ROOM_HEIGHT: usize = 16;

/// The number of tiles of a room.
pub const CLIENT_ROOM_SIZE: usize = 336;

pub const MIN_X_COORD: i16 = -2560;

pub const MIN_Y_COORD: i16 = -1920;

pub const MAX_X_COORD: i16 = 2560;

pub const MAX_Y_COORD: i16 = 1920;

/// The place of a room in the grid of rooms. Neighbouring rooms share the
/// row or column of tiles between them, so a room covers 20 columns and 15
/// rows of its own and one more of each.
#[derive(PartialEq, Eq, Structural, Hash, Clone, Copy, Debug)]
pub struct RoomCoordinates {
    pub x: i8,
    pub y: i8,
}

/// `v` held to the range of `i8`.
pub open spec fn saturate_room(v: int) -> i8 {
    if v < i8::MIN {
        i8::MIN
    } else if v > i8::MAX {
        i8::MAX
    } else {
        v as i8
    }
}

pub(crate) fn saturating_room(v: i16) -> (r: i8)
    ensures
        r == saturate_room(v as int),
{
    if v < -128 {
        -128
    } else if v > 127 {
        127
    } else {
        v as i8
    }
}

/// The quotient of `a` by a room's stride `b`, rounded down.
fn floor_div(a: i16, b: i16) -> (r: i16)
    requires
        b == 20 || b == 15,
    ensures
        r == a as int / b as int,
{
    let q = a / b;
    let m = a % b;
    if m < 0 {
        q - 1
    } else {
        q
    }
}

impl RoomCoordinates {
    pub open spec fn spec_west(self) -> RoomCoordinates {
        RoomCoordinates { x: saturate_room(self.x - 1), y: self.y }
    }

    pub open spec fn spec_north(self) -> RoomCoordinates {
        RoomCoordinates { x: self.x, y: saturate_room(self.y - 1) }
    }

    pub open spec fn spec_north_west(self) -> RoomCoordinates {
        RoomCoordinates { x: saturate_room(self.x - 1), y: saturate_room(self.y - 1) }
    }
}

impl Position {
    /// Whether the position lies between the outermost tiles of the world.
    pub open spec fn in_world(self) -> bool {
        MIN_X_COORD <= self.x <= MAX_X_COORD && MIN_Y_COORD <= self.y <= MAX_Y_COORD
    }

    /// The column of the position inside `room`, counted from the room's west edge.
    pub open spec fn column_in(self, room: RoomCoordinates) -> int {
        self.x - room.x * 20
    }

    /// The row of the position inside `room`, counted from the room's north edge.
    pub open spec fn row_in(self, room: RoomCoordinates) -> int {
        self.y - room.y * 15
    }

    /// Whether the position is one of the 21 by 16 tiles of `room`.
    pub open spec fn is_in_room(self, room: RoomCoordinates) -> bool {
        0 <= self.column_in(room) < 21 && 0 <= self.row_in(room) < 16
    }

    /// The index of the position among the tiles of `room`, row by row.
    pub open spec fn spec_to_index(self, room: RoomCoordinates) -> int {
        self.row_in(room) * 21 + self.column_in(room)
    }

    pub open spec fn spec_on_horizontal_edge(self) -> bool {
        self.x as int % 20 == 0
    }

    pub open spec fn spec_on_vertical_edge(self) -> bool {
        self.y as int % 15 == 0
    }

    pub open spec fn spec_on_edge(self) -> bool {
        self.spec_on_horizontal_edge() || self.spec_on_vertical_edge()
    }

    /// The room that holds the position and lies furthest to the south east.
    pub open spec fn base_room(self) -> RoomCoordinates {
        RoomCoordinates {
            x: saturate_room(self.x as int / 20),
            y: saturate_room(self.y as int / 15),
        }
    }

    /// Whether the position lies on a column that its base room shares with
    /// the room to the west.
    pub open spec fn shares_west(self) -> bool {
        self.x < MAX_X_COORD && self.spec_on_horizontal_edge()
    }

    /// Whether the position lies on a row that its base room shares with the
    /// room to the north.
    pub open spec fn shares_north(self) -> bool {
        self.y < MAX_Y_COORD && self.spec_on_vertical_edge()
    }

    /// The rooms that hold the position: the base room first, then its
    /// western, northern and north-western neighbour as far as they share the
    /// position, each room once.
    pub open spec fn affected_rooms(self) -> Seq<RoomCoordinates> {
        let base = self.base_room();
        let s0 = seq![base];
        let s1 = if self.shares_west() && !s0.contains(base.spec_west()) {
            s0.push(base.spec_west())
        } else {
            s0
        };
        let s2 = if self.shares_north() && !s1.contains(base.spec_north()) {
            s1.push(base.spec_north())
        } else {
            s1
        };
        if self.shares_west() && self.shares_north() && !s2.contains(base.spec_north_west()) {
            s2.push(base.spec_north_west())
        } else {
            s2
        }
    }

    /// The index of the position among the tiles of `room`, or an error where
    /// the room does not hold the position.
    pub fn to_index(&self, room: &RoomCoordinates) -> (r: Result<usize, ()>)
        ensures
            r is Ok <==> self.is_in_room(*room),
            r is Ok ==> r.unwrap() == self.spec_to_index(*room) && r.unwrap() < CLIENT_ROOM_SIZE,
    {
        let x: i32 = self.x as i32 - room.x as i32 * 20;
        let y: i32 = self.y as i32 - room.y as i32 * 15;
        if 0 <= x && x < 21 && 0 <= y && y < 16 {
            Ok((y * 21 + x) as usize)
        } else {
            Err(())
        }
    }

    pub fn on_horizontal_edge(&self) -> (r: bool)
        ensures
            r == self.spec_on_horizontal_edge(),
    {
        self.x % 20 == 0
    }

    pub fn on_vertical_edge(&self) -> (r: bool)
        ensures
            r == self.spec_on_vertical_edge(),
    {
        self.y % 15 == 0
    }

    pub fn on_edge(&self) -> (r: bool)
        ensures
            r == self.spec_on_edge(),
    {
        self.on_horizontal_edge() || self.on_vertical_edge()
    }

    pub fn get_affected_rooms(&self) -> (r: Vec<RoomCoordinates>)
        ensures
            r@ == self.affected_rooms(),
    {
        let base = RoomCoordinates {
            x: saturating_room(floor_div(self.x, 20)),
            y: saturating_room(floor_div(self.y, 15)),
        };
        let west = RoomCoordinates { x: saturating_room(base.x as i16 - 1), y: base.y };
        let north = RoomCoordinates { x: base.x, y: saturating_room(base.y as i16 - 1) };
        let north_west = RoomCoordinates { x: west.x, y: north.y };
        let on_horizontal_edge = self.x < MAX_X_COORD && self.on_horizontal_edge();
        let on_vertical_edge = self.y < MAX_Y_COORD && self.on_vertical_edge();

        let mut result: Vec<RoomCoordinates> = Vec::new();
        result.push(base);
        let ghost s0 = result@;
        assert(s0 =~= seq![base]);
        assert(s0.contains(west) <==> west == base) by {
            if west == base {
                assert(s0[0] == west);
            }
        }
        if on_horizontal_edge && west != base {
            result.push(west);
        }
        let ghost s1 = result@;
        assert(s1.contains(north) <==> north == base || (on_horizontal_edge && north == west)) by {
            if north == base {
                assert(s1[0] == north);
            } else if on_horizontal_edge && north == west {
                assert(s1[1] == north);
            }
        }
        if on_vertical_edge && north != base {
            result.push(north);
        }
        let ghost s2 = result@;
        assert(on_horizontal_edge && on_vertical_edge ==> (s2.contains(north_west) <==> north_west
            == base || north_west == west || north_west == north)) by {
            if on_horizontal_edge && on_vertical_edge {
                if north_west == base {
                    assert(s2[0] == north_west);
                } else if north_west == west {
                    assert(s2[1] == north_west);
                } else if north_west == north {
                    assert(s2[s2.len() - 1] == north_west);
                }
            }
        }
        if on_horizontal_edge && on_vertical_edge && north_west != base && north_west != west
            && north_west != north {
            result.push(north_west);
        }
        result
    }
}

/// Every room that holds a position of the world holds it at an index of its
/// tile block.
pub proof fn lemma_affected_rooms_hold_position(p: Position, i: int)
    requires
        p.in_world(),
        0 <= i < p.affected_rooms().len(),
    ensures
        p.is_in_room(p.affected_rooms()[i]),
        0 <= p.spec_to_index(p.affected_rooms()[i]) < 336,
{
}

/// A position is held by at least one and at most four rooms, none of them
/// listed twice.
pub proof fn lemma_affected_rooms_distinct(p: Position)
    ensures
        1 <= p.affected_rooms().len() <= 4,
        p.affected_rooms().no_duplicates(),
        p.affected_rooms()[0] == p.base_room(),
{
}

/// One block of 21 by 16 tiles, row by row.
#[derive(Clone, Copy)]
pub struct Room {
    pub data: [u8; 336],
}

impl Room {
    /// The column of the room at `x`, from north to south.
    pub open spec fn column(self, x: int) -> Seq<u8> {
        Seq::new(16, |i: int| self.data@[i * 21 + x])
    }

    /// The row of the room at `y`, from west to east.
    pub open spec fn row(self, y: int) -> Seq<u8> {
        Seq::new(21, |i: int| self.data@[y * 21 + i])
    }

    /// A room of the given tiles, where there are as many as a room holds.
    pub fn new(data: &Vec<u8>) -> (r: Option<Room>)
        ensures
            r is Some <==> data@.len() == CLIENT_ROOM_SIZE,
            r is Some ==> r.unwrap().data@ == data@,
    {
        if data.len() != CLIENT_ROOM_SIZE {
            return None;
        }
        let mut room = Room { data: [0u8; 336] };
        let mut i: usize = 0;
        while i < CLIENT_ROOM_SIZE
            invariant
                i <= CLIENT_ROOM_SIZE,
                data@.len() == CLIENT_ROOM_SIZE,
                forall|j: int| 0 <= j < i ==> room.data@[j] == data@[j],
            decreases CLIENT_ROOM_SIZE - i,
        {
            room.data[i] = data[i];
            i = i + 1;
        }
        assert(room.data@ =~= data@);
        Some(room)
    }

    pub fn north_west_corner(&self) -> (r: u8)
        ensures
            r == self.data@[0],
    {
        self.data[0]
    }

    pub fn north_east_corner(&self) -> (r: u8)
        ensures
            r == self.data@[20],
    {
        self.data[CLIENT_ROOM_WIDTH - 1]
    }

    pub fn south_west_corner(&self) -> (r: u8)
        ensures
            r == self.data@[315],
    {
        self.data[CLIENT_ROOM_WIDTH * (CLIENT_ROOM_HEIGHT - 1)]
    }

    pub fn south_east_corner(&self) -> (r: u8)
        ensures
            r == self.data@[335],
    {
        self.data[CLIENT_ROOM_SIZE - 1]
    }

    fn copy_row(&self, y: usize) -> (r: Vec<u8>)
        requires
            y < CLIENT_ROOM_HEIGHT,
        ensures
            r@ == self.row(y as int),
    {
        let mut edge: Vec<u8> = Vec::new();
        let mut i: usize = 0;
        while i < CLIENT_ROOM_WIDTH
            invariant
                i <= CLIENT_ROOM_WIDTH,
                y < CLIENT_ROOM_HEIGHT,
                edge@.len() == i,
                forall|j: int| 0 <= j < i ==> edge@[j] == self.data@[y * 21 + j],
            decreases CLIENT_ROOM_WIDTH - i,
        {
            edge.push(self.data[y * CLIENT_ROOM_WIDTH + i]);
            i = i + 1;
        }
        assert(edge@ =~= self.row(y as int));
        edge
    }

    fn copy_column(&self, x: usize) -> (r: Vec<u8>)
        requires
            x < CLIENT_ROOM_WIDTH,
        ensures
            r@ == self.column(x as int),
    {
        let mut edge: Vec<u8> = Vec::new();
        let mut i: usize = 0;
        while i < CLIENT_ROOM_HEIGHT
            invariant
                i <= CLIENT_ROOM_HEIGHT,
                x < CLIENT_ROOM_WIDTH,
                edge@.len() == i,
                forall|j: int| 0 <= j < i ==> edge@[j] == self.data@[j * 21 + x],
            decreases CLIENT_ROOM_HEIGHT - i,
        {
            edge.push(self.data[i * CLIENT_ROOM_WIDTH + x]);
            i = i + 1;
        }
        assert(edge@ =~= self.column(x as int));
        edge
    }

    /// The northernmost row, from west to east.
    pub fn north_edge(&self) -> (r: Vec<u8>)
        ensures
            r@ == self.row(0),
    {
        self.copy_row(0)
    }

    /// The westernmost column, from north to south.
    pub fn west_edge(&self) -> (r: Vec<u8>)
        ensures
            r@ == self.column(0),
    {
        self.copy_column(0)
    }

    /// The easternmost column, from north to south.
    pub fn east_edge(&self) -> (r: Vec<u8>)
        ensures
            r@ == self.column(20),
    {
        self.copy_column(CLIENT_ROOM_WIDTH - 1)
    }

    /// The southernmost row, from west to east.
    pub fn south_edge(&self) -> (r: Vec<u8>)
        ensures
            r@ == self.row(15),
    {
        self.copy_row(CLIENT_ROOM_HEIGHT - 1)
    }
}

} // verus!

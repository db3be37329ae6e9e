use std::collections::HashMap;
use vstd::prelude::*;

use crate::soaprun::map_attributes::MapAttributes;
use crate::soaprun::position::Position;
use crate::soaprun::rooms::{saturate_room, saturating_room, Room, RoomCoordinates};

verus! {

broadcast use vstd::std_specs::hash::group_hash_axioms;

/// The number under which a room is filed.
pub open spec fn spec_room_key(coords: RoomCoordinates) -> u16 {
    ((coords.x + 128) * 256 + (coords.y + 128)) as u16
}

fn room_key(coords: &RoomCoordinates) -> (r: u16)
    ensures
        r == spec_room_key(*coords),
{
    ((coords.x as i32 + 128) * 256 + (coords.y as i32 + 128)) as u16
}

/// Two rooms are filed under one number only where they are one room.
pub proof fn lemma_room_key_injective(a: RoomCoordinates, b: RoomCoordinates)
    ensures
        spec_room_key(a) == spec_room_key(b) <==> a == b,
{
}

/// The rooms of the world that were loaded, by their coordinates.
pub struct RoomMap {
    /// The rooms, each under the number of its coordinates.
    pub tiles: HashMap<u16, Room>,
    /// The coordinates of the rooms, in the order in which they were added.
    pub coordinates: Vec<RoomCoordinates>,
}

impl View for RoomMap {
    type V = Map<RoomCoordinates, Room>;

    open spec fn view(&self) -> Map<RoomCoordinates, Room> {
        Map::new(
            |coords: RoomCoordinates| self.tiles@.contains_key(spec_room_key(coords)),
            |coords: RoomCoordinates| self.tiles@[spec_room_key(coords)],
        )
    }
}

impl RoomMap {
    /// The list of coordinates names each room of the map once.
    pub open spec fn wf(&self) -> bool {
        &&& self.coordinates@.no_duplicates()
        &&& forall|coords: RoomCoordinates|
            self.coordinates@.contains(coords) <==> #[trigger] self.tiles@.contains_key(
                spec_room_key(coords),
            )
    }

    pub fn new() -> (r: RoomMap)
        ensures
            r.wf(),
            r@ == Map::<RoomCoordinates, Room>::empty(),
            r.coordinates@.len() == 0,
    {
        let r = RoomMap { tiles: HashMap::new(), coordinates: Vec::new() };
        assert(r@ =~= Map::<RoomCoordinates, Room>::empty());
        r
    }

    pub fn contains_key(&self, coords: &RoomCoordinates) -> (r: bool)
        ensures
            r == self@.contains_key(*coords),
    {
        let key = room_key(coords);
        self.tiles.contains_key(&key)
    }

    pub fn get(&self, coords: &RoomCoordinates) -> (r: Option<&Room>)
        ensures
            r is Some <==> self@.contains_key(*coords),
            r is Some ==> *r.unwrap() == self@[*coords],
    {
        let key = room_key(coords);
        self.tiles.get(&key)
    }

    /// Adds a room, or replaces the one at its coordinates.
    pub fn insert(&mut self, coords: RoomCoordinates, room: Room)
        requires
            old(self).wf(),
        ensures
            final(self).wf(),
            final(self)@ == old(self)@.insert(coords, room),
            old(self)@.contains_key(coords) ==> final(self).coordinates@ == old(self).coordinates@,
            !old(self)@.contains_key(coords) ==> final(self).coordinates@ == old(
                self,
            ).coordinates@.push(coords),
    {
        let key = room_key(&coords);
        let known = self.tiles.contains_key(&key);
        self.tiles.insert(key, room);
        if !known {
            self.coordinates.push(coords);
        }
        proof {
            assert forall|c: RoomCoordinates|
                self.coordinates@.contains(c) <==> #[trigger] self.tiles@.contains_key(
                    spec_room_key(c),
                ) by {
                lemma_room_key_injective(c, coords);
                if known {
                } else {
                    if old(self).coordinates@.contains(c) {
                        let i = choose|i: int|
                            0 <= i < old(self).coordinates@.len() && old(self).coordinates@[i]
                                == c;
                        assert(self.coordinates@[i] == c);
                    }
                    if c == coords {
                        assert(self.coordinates@[self.coordinates@.len() - 1] == c);
                    }
                }
            }
            assert(self@ =~= old(self)@.insert(coords, room)) by {
                assert forall|c: RoomCoordinates|
                    self@.contains_key(c) <==> old(self)@.insert(coords, room).contains_key(
                        c,
                    ) by {
                    lemma_room_key_injective(c, coords);
                }
                assert forall|c: RoomCoordinates| self@.contains_key(c) implies self@[c] == old(
                    self,
                )@.insert(coords, room)[c] by {
                    lemma_room_key_injective(c, coords);
                }
            }
        }
    }

    /// Turns the tile at `index` of the room at `coords` into `tile`.
    pub fn set_tile(&mut self, coords: &RoomCoordinates, index: usize, tile: u8)
        requires
            old(self).wf(),
            old(self)@.contains_key(*coords),
            index < 336,
        ensures
            final(self).wf(),
            final(self).coordinates@ == old(self).coordinates@,
            final(self)@.dom() == old(self)@.dom(),
            final(self)@[*coords].data@ == old(self)@[*coords].data@.update(index as int, tile),
            forall|other: RoomCoordinates|
                other != *coords && old(self)@.contains_key(other) ==> #[trigger] final(self)@[other]
                    == old(self)@[other],
    {
        let mut room = match self.get(coords) {
            Some(room) => *room,
            None => {
                return ;
            },
        };
        room.data[index] = tile;
        self.insert(*coords, room);
        assert(final(self)@.dom() =~= old(self)@.dom());
    }

    /// The number of rooms.
    pub fn len(&self) -> (r: usize)
        ensures
            r == self.coordinates@.len(),
    {
        self.coordinates.len()
    }
}

/// The tiles of the world: the rooms that were loaded, the room that stands
/// for every other, and the types of the tiles.
pub struct WorldMap {
    pub rooms: RoomMap,
    pub default_room: Room,
    pub map_attributes: MapAttributes,
}

impl WorldMap {
    pub open spec fn wf(&self) -> bool {
        self.rooms.wf() && self.map_attributes.covers_tiles()
    }

    /// The room at `coords`: the loaded one, or the default room.
    pub open spec fn room_at(&self, coords: RoomCoordinates) -> Room {
        if self.rooms@.contains_key(coords) {
            self.rooms@[coords]
        } else {
            self.default_room
        }
    }

    /// The tile at `pos` as the room at `coords` has it.
    pub open spec fn spec_tile(&self, pos: Position, coords: RoomCoordinates) -> u8 {
        self.room_at(coords).data@[pos.spec_to_index(coords)]
    }

    /// The type of the tile at `pos` as the room at `coords` has it.
    pub open spec fn spec_tile_type(&self, pos: Position, coords: RoomCoordinates) -> u8 {
        self.map_attributes.spec_tile_type(self.spec_tile(pos, coords))
    }

    /// The loaded rooms among those that hold `pos`, in their order.
    pub open spec fn affected_inbounds_rooms(&self, pos: Position) -> Seq<RoomCoordinates> {
        pos.affected_rooms().filter(
            |coords: RoomCoordinates| self.rooms@.contains_key(coords) && pos.is_in_room(coords),
        )
    }

    /// The tile at `pos` as the room at `room` has it, or an error where that
    /// room does not hold the position.
    pub fn get_tile(&self, pos: &Position, room: &RoomCoordinates) -> (r: Result<u8, ()>)
        ensures
            r is Ok <==> pos.is_in_room(*room),
            r is Ok ==> r.unwrap() == self.spec_tile(*pos, *room),
    {
        let index = match pos.to_index(room) {
            Ok(index) => index,
            Err(e) => {
                return Err(e);
            },
        };
        Ok(
            match self.rooms.get(room) {
                Some(r) => r.data[index],
                None => self.default_room.data[index],
            },
        )
    }

    /// The type of the tile at `pos` as the room at `room` has it, or an
    /// error where that room does not hold the position.
    pub fn get_tile_type(&self, pos: &Position, room: &RoomCoordinates) -> (r: Result<u8, ()>)
        requires
            self.map_attributes.covers_tiles(),
        ensures
            r is Ok <==> pos.is_in_room(*room),
            r is Ok ==> r.unwrap() == self.spec_tile_type(*pos, *room),
    {
        let tile = match self.get_tile(pos, room) {
            Ok(tile) => tile,
            Err(e) => {
                return Err(e);
            },
        };
        Ok(self.map_attributes.tile_type(tile))
    }

    /// The loaded rooms that hold `pos`.
    pub fn get_affected_inbounds_rooms(&self, pos: &Position) -> (r: Vec<RoomCoordinates>)
        ensures
            r@ == self.affected_inbounds_rooms(*pos),
    {
        let affected = pos.get_affected_rooms();
        let ghost holds = |coords: RoomCoordinates|
            self.rooms@.contains_key(coords) && pos.is_in_room(coords);
        let mut rooms: Vec<RoomCoordinates> = Vec::with_capacity(4);
        let mut i: usize = 0;
        assert(affected@.take(0) =~= Seq::<RoomCoordinates>::empty());
        while i < affected.len()
            invariant
                i <= affected.len(),
                affected@ == pos.affected_rooms(),
                holds == (|coords: RoomCoordinates|
                    self.rooms@.contains_key(coords) && pos.is_in_room(coords)),
                rooms@ == affected@.take(i as int).filter(holds),
            decreases affected.len() - i,
        {
            let coords = affected[i];
            proof {
                assert(affected@.take(i + 1).drop_last() =~= affected@.take(i as int));
                reveal(Seq::filter);
            }
            if self.rooms.contains_key(&coords) && pos.to_index(&coords).is_ok() {
                rooms.push(coords);
            }
            i = i + 1;
        }
        assert(affected@.take(affected@.len() as int) =~= affected@);
        rooms
    }

    /// The tiles at `pos` as the loaded rooms have it that hold it.
    pub fn get_tiles(&self, pos: Position) -> (r: Vec<u8>)
        ensures
            r@ == self.affected_inbounds_rooms(pos).map_values(
                |coords: RoomCoordinates| self.spec_tile(pos, coords),
            ),
    {
        let rooms = self.get_affected_inbounds_rooms(&pos);
        let ghost tile = |coords: RoomCoordinates| self.spec_tile(pos, coords);
        let mut tiles: Vec<u8> = Vec::with_capacity(4);
        let mut i: usize = 0;
        while i < rooms.len()
            invariant
                i <= rooms.len(),
                rooms@ == self.affected_inbounds_rooms(pos),
                tile == (|coords: RoomCoordinates| self.spec_tile(pos, coords)),
                tiles@ =~= rooms@.take(i as int).map_values(tile),
            decreases rooms.len() - i,
        {
            proof {
                lemma_inbounds_rooms_hold(*self, pos, i as int);
            }
            match self.get_tile(&pos, &rooms[i]) {
                Ok(t) => {
                    tiles.push(t);
                },
                Err(_) => {},
            }
            i = i + 1;
        }
        assert(rooms@.take(rooms@.len() as int) =~= rooms@);
        tiles
    }

    /// The types of the tiles at `pos` as the loaded rooms have it that hold it.
    pub fn get_tile_types(&self, pos: Position) -> (r: Vec<u8>)
        requires
            self.map_attributes.covers_tiles(),
        ensures
            r@ == self.affected_inbounds_rooms(pos).map_values(
                |coords: RoomCoordinates| self.spec_tile_type(pos, coords),
            ),
    {
        let tiles = self.get_tiles(pos);
        let mut types: Vec<u8> = Vec::with_capacity(4);
        let mut i: usize = 0;
        while i < tiles.len()
            invariant
                i <= tiles.len(),
                self.map_attributes.covers_tiles(),
                types@.len() == i,
                forall|j: int|
                    0 <= j < i ==> types@[j] == self.map_attributes.spec_tile_type(tiles@[j]),
            decreases tiles.len() - i,
        {
            types.push(self.map_attributes.tile_type(tiles[i]));
            i = i + 1;
        }
        assert(types@ =~= self.affected_inbounds_rooms(pos).map_values(
            |coords: RoomCoordinates| self.spec_tile_type(pos, coords),
        ));
        types
    }
}

/// Each of the loaded rooms that hold a position is loaded and holds it.
pub(crate) proof fn lemma_inbounds_rooms_hold(map: WorldMap, pos: Position, i: int)
    requires
        0 <= i < map.affected_inbounds_rooms(pos).len(),
    ensures
        map.rooms@.contains_key(map.affected_inbounds_rooms(pos)[i]),
        pos.is_in_room(map.affected_inbounds_rooms(pos)[i]),
        pos.affected_rooms().contains(map.affected_inbounds_rooms(pos)[i]),
{
    let holds = |coords: RoomCoordinates|
        map.rooms@.contains_key(coords) && pos.is_in_room(coords);
    let s = pos.affected_rooms();
    s.lemma_filter_pred(holds, i);
    assert(s.filter(holds).contains(s.filter(holds)[i]));
    s.lemma_filter_contains_rev(holds, s.filter(holds)[i]);
}


/// Which rooms are checked against their neighbours when the world is loaded.
#[derive(PartialEq, Eq, Structural, Clone, Copy, Debug)]
pub enum RoomVerificationBounds {
    /// No room is checked.
    Unchecked,
    /// A room is checked against the neighbours that are loaded.
    InBounds,
    /// A room is checked against all its neighbours; the default room
    /// stands for those that are not loaded.
    All,
}

/// What is compared when a room is checked against a neighbour.
#[derive(PartialEq, Eq, Structural, Clone, Copy, Debug)]
pub enum RoomVerificationModes {
    /// The tiles.
    Tiles,
    /// The types of the tiles.
    TileTypes,
}

/// Why the rooms of a directory cannot be loaded.
#[derive(Debug)]
pub enum LoadRoomError {
    /// The name of a room's file does not give the room's coordinates.
    NameFormatError(String),
    /// The file of this name does not hold the tiles of one room.
    NewRoomError(String),
}

/// The eight sides on which a room has a neighbour.
#[derive(PartialEq, Eq, Structural, Clone, Copy, Debug)]
pub enum Side {
    NorthWest,
    North,
    NorthEast,
    West,
    East,
    SouthWest,
    South,
    SouthEast,
}

impl Side {
    /// How far east the neighbour on this side lies.
    pub open spec fn dx(self) -> int {
        match self {
            Side::NorthWest | Side::West | Side::SouthWest => -1,
            Side::North | Side::South => 0,
            Side::NorthEast | Side::East | Side::SouthEast => 1,
        }
    }

    /// How far south the neighbour on this side lies.
    pub open spec fn dy(self) -> int {
        match self {
            Side::NorthWest | Side::North | Side::NorthEast => -1,
            Side::West | Side::East => 0,
            Side::SouthWest | Side::South | Side::SouthEast => 1,
        }
    }

    /// The place of the side in the order in which the sides are checked.
    pub open spec fn rank(self) -> int {
        match self {
            Side::NorthWest => 0,
            Side::North => 1,
            Side::NorthEast => 2,
            Side::West => 3,
            Side::East => 4,
            Side::SouthWest => 5,
            Side::South => 6,
            Side::SouthEast => 7,
        }
    }

    /// The coordinates of the neighbour of the room at `coords` on this
    /// side, as far as the coordinates go.
    pub open spec fn neighbour(self, coords: RoomCoordinates) -> RoomCoordinates {
        RoomCoordinates { x: saturate_room(coords.x + self.dx()), y: saturate_room(coords.y + self.dy()) }
    }

    /// What a room shows to its neighbour on this side: a corner or an edge.
    pub open spec fn part(self, room: Room) -> Seq<u8> {
        match self {
            Side::NorthWest => seq![room.data@[0]],
            Side::North => room.row(0),
            Side::NorthEast => seq![room.data@[20]],
            Side::West => room.column(0),
            Side::East => room.column(20),
            Side::SouthWest => seq![room.data@[315]],
            Side::South => room.row(15),
            Side::SouthEast => seq![room.data@[335]],
        }
    }

    /// The side on which the neighbour on this side has the room.
    pub open spec fn facing(self) -> Side {
        match self {
            Side::NorthWest => Side::SouthEast,
            Side::North => Side::South,
            Side::NorthEast => Side::SouthWest,
            Side::West => Side::East,
            Side::East => Side::West,
            Side::SouthWest => Side::NorthEast,
            Side::South => Side::North,
            Side::SouthEast => Side::NorthWest,
        }
    }

    /// The side at the given place of the order.
    pub fn at(rank: usize) -> (r: Side)
        requires
            rank < 8,
        ensures
            r.rank() == rank,
    {
        if rank == 0 {
            Side::NorthWest
        } else if rank == 1 {
            Side::North
        } else if rank == 2 {
            Side::NorthEast
        } else if rank == 3 {
            Side::West
        } else if rank == 4 {
            Side::East
        } else if rank == 5 {
            Side::SouthWest
        } else if rank == 6 {
            Side::South
        } else {
            Side::SouthEast
        }
    }

    /// The side on which the neighbour on this side has the room.
    pub fn opposite(self) -> (r: Side)
        ensures
            r == self.facing(),
    {
        match self {
            Side::NorthWest => Side::SouthEast,
            Side::North => Side::South,
            Side::NorthEast => Side::SouthWest,
            Side::West => Side::East,
            Side::East => Side::West,
            Side::SouthWest => Side::NorthEast,
            Side::South => Side::North,
            Side::SouthEast => Side::NorthWest,
        }
    }

    /// The coordinates of the neighbour of the room at `coords` on this side.
    pub fn neighbour_of(self, coords: &RoomCoordinates) -> (r: RoomCoordinates)
        ensures
            r == self.neighbour(*coords),
    {
        let (dx, dy): (i16, i16) = match self {
            Side::NorthWest => (-1, -1),
            Side::North => (0, -1),
            Side::NorthEast => (1, -1),
            Side::West => (-1, 0),
            Side::East => (1, 0),
            Side::SouthWest => (-1, 1),
            Side::South => (0, 1),
            Side::SouthEast => (1, 1),
        };
        RoomCoordinates { x: saturating_room(coords.x as i16 + dx), y: saturating_room(coords.y as i16 + dy) }
    }

    /// What a room shows to its neighbour on this side.
    pub fn part_of(self, room: &Room) -> (r: Vec<u8>)
        ensures
            r@ == self.part(*room),
    {
        match self {
            Side::NorthWest => corner(room.north_west_corner()),
            Side::North => room.north_edge(),
            Side::NorthEast => corner(room.north_east_corner()),
            Side::West => room.west_edge(),
            Side::East => room.east_edge(),
            Side::SouthWest => corner(room.south_west_corner()),
            Side::South => room.south_edge(),
            Side::SouthEast => corner(room.south_east_corner()),
        }
    }

    /// The words for what a room shows to its neighbour on this side.
    pub open spec fn words(self) -> Seq<char> {
        match self {
            Side::NorthWest => "north west corner"@,
            Side::North => "north edge"@,
            Side::NorthEast => "north east corner"@,
            Side::West => "west edge"@,
            Side::East => "east edge"@,
            Side::SouthWest => "south west corner"@,
            Side::South => "south edge"@,
            Side::SouthEast => "south east corner"@,
        }
    }

    /// The words for what a room shows to its neighbour on this side.
    pub fn name(self) -> (r: &'static str)
        ensures
            r@ == self.words(),
    {
        match self {
            Side::NorthWest => "north west corner",
            Side::North => "north edge",
            Side::NorthEast => "north east corner",
            Side::West => "west edge",
            Side::East => "east edge",
            Side::SouthWest => "south west corner",
            Side::South => "south edge",
            Side::SouthEast => "south east corner",
        }
    }
}

fn corner(tile: u8) -> (r: Vec<u8>)
    ensures
        r@ == seq![tile],
{
    let mut part: Vec<u8> = Vec::new();
    part.push(tile);
    part
}

/// What is compared of a tile: the tile, or its type where there is a
/// table of types.
pub open spec fn compared(tile: u8, attributes: Option<&MapAttributes>) -> u8 {
    match attributes {
        Some(att) => att.spec_tile_type(tile),
        None => tile,
    }
}

/// Whether two edges match: they are as long, and tile by tile what is
/// compared of them is the same.
pub open spec fn edges_match(e1: Seq<u8>, e2: Seq<u8>, attributes: Option<&MapAttributes>) -> bool {
    &&& e1.len() == e2.len()
    &&& forall|i: int|
        0 <= i < e1.len() ==> compared(#[trigger] e1[i], attributes) == compared(e2[i], attributes)
}

/// The room that the room at `coords` is checked against where it is a
/// neighbour: none where nothing is checked, the loaded room, and for a room
/// that is not loaded none or the default room.
pub open spec fn spec_get_room(
    rooms: Map<RoomCoordinates, Room>,
    coords: RoomCoordinates,
    default_room: Room,
    bounds: RoomVerificationBounds,
) -> Option<Room> {
    if bounds == RoomVerificationBounds::Unchecked || (bounds == RoomVerificationBounds::InBounds
        && !rooms.contains_key(coords)) {
        None
    } else if rooms.contains_key(coords) {
        Some(rooms[coords])
    } else {
        Some(default_room)
    }
}

/// Whether the room at `coords` fits its neighbour on `side`, as far as
/// that neighbour is checked: what the room shows to the neighbour matches
/// what the neighbour shows to the room.
pub open spec fn side_fits(
    rooms: Map<RoomCoordinates, Room>,
    default_room: Room,
    bounds: RoomVerificationBounds,
    attributes: Option<&MapAttributes>,
    coords: RoomCoordinates,
    side: Side,
) -> bool {
    match spec_get_room(rooms, side.neighbour(coords), default_room, bounds) {
        Some(other) => edges_match(side.part(rooms[coords]), side.facing().part(other), attributes),
        None => true,
    }
}

/// Whether every loaded room fits its neighbours on all sides.
pub open spec fn rooms_fit(
    rooms: Map<RoomCoordinates, Room>,
    default_room: Room,
    bounds: RoomVerificationBounds,
    attributes: Option<&MapAttributes>,
) -> bool {
    forall|coords: RoomCoordinates, side: Side|
        rooms.contains_key(coords) ==> #[trigger] side_fits(
            rooms,
            default_room,
            bounds,
            attributes,
            coords,
            side,
        )
}

/// The words that say that the room at (`x1`, `y1`) does not match the room
/// at (`x2`, `y2`), `item1` of the one against `item2` of the other.
pub uninterp spec fn room_verification_message(
    x1: i8,
    y1: i8,
    x2: i8,
    y2: i8,
    item1: Seq<char>,
    item2: Seq<char>,
) -> Seq<char>;

/// The room that the room at `other_coords` is checked against where it is
/// a neighbour.
pub fn get_room<'a>(
    rooms: &'a RoomMap,
    other_coords: &RoomCoordinates,
    default_room: &'a Room,
    bounds: &RoomVerificationBounds,
) -> (r: Option<&'a Room>)
    ensures
        match r {
            Some(room) => Some(*room),
            None => None,
        } == spec_get_room(rooms@, *other_coords, *default_room, *bounds),
{
    match bounds {
        RoomVerificationBounds::Unchecked => None,
        RoomVerificationBounds::InBounds => rooms.get(other_coords),
        RoomVerificationBounds::All => match rooms.get(other_coords) {
            Some(room) => Some(room),
            None => Some(default_room),
        },
    }
}

/// Whether two corners match.
pub fn compare_corners(c1: u8, c2: u8, attributes: Option<&MapAttributes>) -> (r: bool)
    requires
        attributes matches Some(att) ==> att.covers_tiles(),
    ensures
        r == (compared(c1, attributes) == compared(c2, attributes)),
{
    match attributes {
        Some(att) => att.tile_type(c1) == att.tile_type(c2),
        None => c1 == c2,
    }
}

/// Whether two edges match.
pub fn compare_edges(it1: &Vec<u8>, it2: &Vec<u8>, attributes: Option<&MapAttributes>) -> (r: bool)
    requires
        attributes matches Some(att) ==> att.covers_tiles(),
    ensures
        r == edges_match(it1@, it2@, attributes),
{
    if it1.len() != it2.len() {
        return false;
    }
    let mut i: usize = 0;
    while i < it1.len()
        invariant
            i <= it1.len(),
            it1@.len() == it2@.len(),
            attributes matches Some(att) ==> att.covers_tiles(),
            forall|j: int|
                0 <= j < i ==> compared(#[trigger] it1@[j], attributes) == compared(
                    it2@[j],
                    attributes,
                ),
        decreases it1.len() - i,
    {
        if !compare_corners(it1[i], it2[i], attributes) {
            return false;
        }
        i = i + 1;
    }
    true
}

/// The words that say that `room1_item` of the room at `room1_pos` does not
/// match `room2_item` of the room at `room2_pos`. Wraps `format!` of std,
/// which gives the same words for the same rooms and items.
#[verifier::external_body]
fn make_room_verification_error(
    room1_pos: &RoomCoordinates,
    room2_pos: RoomCoordinates,
    room1_item: &str,
    room2_item: &str,
) -> (r: String)
    ensures
        r@ == room_verification_message(
            room1_pos.x,
            room1_pos.y,
            room2_pos.x,
            room2_pos.y,
            room1_item@,
            room2_item@,
        ),
{
    format!(
        "Room bounds failed: Room ({},{})'s {} doesn't match with room ({},{})'s {}",
        room1_pos.x, room1_pos.y, room1_item, room2_pos.x, room2_pos.y, room2_item
    )
}

/// Whether the room `room` at `coords` fits its neighbour on `side`.
pub fn check_side(
    rooms: &RoomMap,
    default_room: &Room,
    bounds: &RoomVerificationBounds,
    attributes: Option<&MapAttributes>,
    coords: &RoomCoordinates,
    side: Side,
) -> (r: bool)
    requires
        rooms@.contains_key(*coords),
        attributes matches Some(att) ==> att.covers_tiles(),
    ensures
        r == side_fits(rooms@, *default_room, *bounds, attributes, *coords, side),
{
    let room = match rooms.get(coords) {
        Some(room) => room,
        None => default_room,
    };
    let other_coords = side.neighbour_of(coords);
    match get_room(rooms, &other_coords, default_room, bounds) {
        Some(other) => compare_edges(
            &side.part_of(room),
            &side.opposite().part_of(other),
            attributes,
        ),
        None => true,
    }
}

/// Whether the room `index` of the list and the side `side` come before
/// the room `at` and the side `rank` in the order of the check.
pub open spec fn checked_before(index: int, side: Side, at: int, rank: int) -> bool {
    index < at || (index == at && side.rank() < rank)
}

/// Looks for a room that does not fit a neighbour, room by room in the
/// order in which the rooms were added, and side by side. Gives the first
/// such room and side, or nothing where every room fits.
#[verifier::loop_isolation(false)]
#[verifier::rlimit(40)]
pub fn find_mismatch(
    rooms: &RoomMap,
    default_room: &Room,
    bounds: &RoomVerificationBounds,
    attributes: Option<&MapAttributes>,
) -> (r: Option<(usize, Side)>)
    requires
        rooms.wf(),
        attributes matches Some(att) ==> att.covers_tiles(),
    ensures
        r is None <==> rooms_fit(rooms@, *default_room, *bounds, attributes),
        r matches Some((index, side)) ==> {
            &&& index < rooms.coordinates@.len()
            &&& !side_fits(
                rooms@,
                *default_room,
                *bounds,
                attributes,
                rooms.coordinates@[index as int],
                side,
            )
            &&& forall|i: int, s: Side|
                0 <= i < rooms.coordinates@.len() && checked_before(i, s, index as int, side.rank())
                    ==> #[trigger] side_fits(
                    rooms@,
                    *default_room,
                    *bounds,
                    attributes,
                    rooms.coordinates@[i],
                    s,
                )
        },
{
    let mut index: usize = 0;
    while index < rooms.coordinates.len()
        invariant
            index <= rooms.coordinates.len(),
            forall|i: int, s: Side|
                0 <= i < index ==> #[trigger] side_fits(
                    rooms@,
                    *default_room,
                    *bounds,
                    attributes,
                    rooms.coordinates@[i],
                    s,
                ),
        decreases rooms.coordinates.len() - index,
    {
        let coords = rooms.coordinates[index];
        assert(rooms.coordinates@.contains(coords));
        assert(rooms.tiles@.contains_key(spec_room_key(coords)));
        let mut rank: usize = 0;
        while rank < 8
            invariant
                rank <= 8,
                forall|s: Side|
                    s.rank() < rank ==> #[trigger] side_fits(
                        rooms@,
                        *default_room,
                        *bounds,
                        attributes,
                        coords,
                        s,
                    ),
            decreases 8 - rank,
        {
            let side = Side::at(rank);
            if !check_side(rooms, default_room, bounds, attributes, &coords, side) {
                return Some((index, side));
            }
            assert(forall|s: Side| s.rank() == rank ==> s == side);
            rank = rank + 1;
        }
        index = index + 1;
    }
    proof {
        assert forall|coords: RoomCoordinates, side: Side|
            rooms@.contains_key(coords) implies #[trigger] side_fits(
            rooms@,
            *default_room,
            *bounds,
            attributes,
            coords,
            side,
        ) by {
            assert(rooms.tiles@.contains_key(spec_room_key(coords)));
            assert(rooms.coordinates@.contains(coords));
            let i = choose|i: int|
                0 <= i < rooms.coordinates@.len() && rooms.coordinates@[i] == coords;
            assert(side_fits(
                rooms@,
                *default_room,
                *bounds,
                attributes,
                rooms.coordinates@[i],
                side,
            ));
        }
    }
    None
}

/// Whether `message` says in words which room does not fit which: the first
/// room, in the order in which the rooms were added, and its first side that
/// do not fit.
pub open spec fn names_first_mismatch(
    rooms: &RoomMap,
    default_room: Room,
    bounds: RoomVerificationBounds,
    attributes: Option<&MapAttributes>,
    message: Seq<char>,
) -> bool {
    exists|index: int, side: Side|
        {
            &&& 0 <= index < rooms.coordinates@.len()
            &&& !#[trigger] side_fits(
                rooms@,
                default_room,
                bounds,
                attributes,
                rooms.coordinates@[index],
                side,
            )
            &&& forall|i: int, s: Side|
                0 <= i < rooms.coordinates@.len() && checked_before(i, s, index, side.rank())
                    ==> #[trigger] side_fits(
                    rooms@,
                    default_room,
                    bounds,
                    attributes,
                    rooms.coordinates@[i],
                    s,
                )
            &&& message == room_verification_message(
                rooms.coordinates@[index].x,
                rooms.coordinates@[index].y,
                side.neighbour(rooms.coordinates@[index]).x,
                side.neighbour(rooms.coordinates@[index]).y,
                side.words(),
                side.facing().words(),
            )
        }
}

/// Checks that every loaded room fits its neighbours: along the edge and
/// at the corner that two rooms share, both have the same tiles, or tiles
/// of the same types where `attributes` gives the types. Says in words
/// which room does not fit which, for the first room and side that do not.
pub fn verify_rooms(
    rooms: &RoomMap,
    default_room: &Room,
    bounds: &RoomVerificationBounds,
    attributes: Option<&MapAttributes>,
) -> (r: Result<(), String>)
    requires
        rooms.wf(),
        attributes matches Some(att) ==> att.covers_tiles(),
    ensures
        r is Ok <==> rooms_fit(rooms@, *default_room, *bounds, attributes),
        r matches Err(message) ==> names_first_mismatch(
            rooms,
            *default_room,
            *bounds,
            attributes,
            message@,
        ),
{
    match find_mismatch(rooms, default_room, bounds, attributes) {
        None => Ok(()),
        Some((index, side)) => {
            let coords = rooms.coordinates[index];
            let message = make_room_verification_error(
                &coords,
                side.neighbour_of(&coords),
                side.name(),
                side.opposite().name(),
            );
            assert(!side_fits(
                rooms@,
                *default_room,
                *bounds,
                attributes,
                rooms.coordinates@[index as int],
                side,
            ));
            Err(message)
        },
    }
}


/// What separates the two coordinates in the name of a room's file.
pub const ROOM_COORD_SEPARATOR: char = ',';

/// Whether the character is a decimal digit.
pub open spec fn is_digit(c: char) -> bool {
    '0' <= c <= '9'
}

/// Whether the characters are decimal digits, one at least.
pub open spec fn all_digits(s: Seq<char>) -> bool {
    s.len() > 0 && forall|i: int| 0 <= i < s.len() ==> is_digit(#[trigger] s[i])
}

/// The number that the decimal digits stand for.
pub open spec fn digits_value(s: Seq<char>) -> int
    decreases s.len(),
{
    if s.len() == 0 {
        0
    } else {
        digits_value(s.drop_last()) * 10 + (s.last() as u32 - '0' as u32)
    }
}

/// The number that the characters stand for: decimal digits, with a sign
/// before them or without. A signed number lies between -128 and 127; an
/// unsigned one lies between 0 and 255 and has no minus before it.
pub open spec fn spec_parse_number(s: Seq<char>, signed: bool) -> Option<int> {
    let negative = signed && s.len() > 0 && s[0] == '-';
    let digits = if s.len() > 0 && (s[0] == '+' || negative) {
        s.skip(1)
    } else {
        s
    };
    let value = if negative {
        -digits_value(digits)
    } else {
        digits_value(digits)
    };
    if all_digits(digits) && (if signed {
        -128 <= value <= 127
    } else {
        value <= 255
    }) {
        Some(value)
    } else {
        None
    }
}

/// The number between -128 and 127 that the characters stand for.
pub open spec fn spec_parse_i8(s: Seq<char>) -> Option<i8> {
    match spec_parse_number(s, true) {
        Some(v) => Some(v as i8),
        None => None,
    }
}

/// The number between 0 and 255 that the characters stand for.
pub open spec fn spec_parse_u8(s: Seq<char>) -> Option<u8> {
    match spec_parse_number(s, false) {
        Some(v) => Some(v as u8),
        None => None,
    }
}

/// Whether the first separator of `name` stands at `i`.
pub open spec fn separated_at(name: Seq<char>, i: int) -> bool {
    &&& 0 <= i < name.len()
    &&& name[i] == ROOM_COORD_SEPARATOR
    &&& forall|j: int| 0 <= j < i ==> name[j] != ROOM_COORD_SEPARATOR
}

/// The coordinates that the name of a room's file gives: the number before
/// its first separator and the number behind it.
pub open spec fn spec_parse_room_name(name: Seq<char>) -> Option<RoomCoordinates> {
    if exists|i: int| separated_at(name, i) {
        let i = choose|i: int| separated_at(name, i);
        match (spec_parse_i8(name.take(i)), spec_parse_i8(name.skip(i + 1))) {
            (Some(x), Some(y)) => Some(RoomCoordinates { x, y }),
            _ => None,
        }
    } else {
        None
    }
}

/// The digits of a number are no less than zero.
proof fn lemma_digits_value_positive(s: Seq<char>)
    requires
        forall|i: int| 0 <= i < s.len() ==> is_digit(#[trigger] s[i]),
    ensures
        0 <= digits_value(s),
    decreases s.len(),
{
    if s.len() > 0 {
        lemma_digits_value_positive(s.drop_last());
    }
}

/// Reads the number that the characters of `text` from `from` to `to`
/// stand for.
#[verifier::loop_isolation(false)]
#[verifier::rlimit(40)]
fn parse_number(text: &str, from: usize, to: usize, signed: bool) -> (r: Option<i32>)
    requires
        from <= to <= text@.len(),
    ensures
        match r {
            Some(v) => Some(v as int),
            None => None,
        } == spec_parse_number(text@.subrange(from as int, to as int), signed),
{
    let ghost s = text@.subrange(from as int, to as int);
    if from == to {
        return None;
    }
    let first = text.get_char(from);
    assert(s[0] == first);
    let negative = signed && first == '-';
    let start = if first == '+' || negative {
        from + 1
    } else {
        from
    };
    let ghost digits = text@.subrange(start as int, to as int);
    assert(digits =~= if s.len() > 0 && (s[0] == '+' || negative) {
        s.skip(1)
    } else {
        s
    });
    if start == to {
        return None;
    }
    let mut value: i32 = 0;
    let mut too_big = false;
    let mut i: usize = start;
    assert(digits.take(0) =~= Seq::<char>::empty());
    while i < to
        invariant
            start <= i <= to,
            forall|j: int| 0 <= j < i - start ==> is_digit(#[trigger] digits[j]),
            !too_big ==> value == digits_value(digits.take(i - start)) && 0 <= value <= 255,
            too_big ==> digits_value(digits.take(i - start)) > 255,
        decreases to - i,
    {
        let c = text.get_char(i);
        assert(digits[i - start] == c);
        if !(c >= '0' && c <= '9') {
            return None;
        }
        proof {
            assert(digits.take(i - start + 1).drop_last() =~= digits.take(i - start));
            assert(digits.take(i - start + 1).last() == c);
            lemma_digits_value_positive(digits.take(i - start));
        }
        if !too_big {
            value = value * 10 + (c as u32 - '0' as u32) as i32;
            if value > 255 {
                too_big = true;
            }
        }
        i = i + 1;
    }
    proof {
        assert(digits.take(to - start) =~= digits);
    }
    if too_big {
        None
    } else if negative {
        if value > 128 {
            None
        } else {
            Some(-value)
        }
    } else if signed && value > 127 {
        None
    } else {
        Some(value)
    }
}

/// Reads the number between -128 and 127 that the characters of `text`
/// from `from` to `to` stand for.
pub fn parse_i8(text: &str, from: usize, to: usize) -> (r: Option<i8>)
    requires
        from <= to <= text@.len(),
    ensures
        r == spec_parse_i8(text@.subrange(from as int, to as int)),
{
    match parse_number(text, from, to, true) {
        Some(v) => Some(v as i8),
        None => None,
    }
}

/// Reads the number between 0 and 255 that the characters of `text` from
/// `from` to `to` stand for.
pub fn parse_u8(text: &str, from: usize, to: usize) -> (r: Option<u8>)
    requires
        from <= to <= text@.len(),
    ensures
        r == spec_parse_u8(text@.subrange(from as int, to as int)),
{
    match parse_number(text, from, to, false) {
        Some(v) => Some(v as u8),
        None => None,
    }
}

/// Reads the coordinates of a room from the name of its file, without the
/// extension.
#[verifier::loop_isolation(false)]
pub fn parse_room_name(name: &str) -> (r: Option<RoomCoordinates>)
    ensures
        r == spec_parse_room_name(name@),
{
    let len = name.unicode_len();
    let mut i: usize = 0;
    while i < len
        invariant
            i <= len,
            forall|j: int| 0 <= j < i ==> name@[j] != ROOM_COORD_SEPARATOR,
        decreases len - i,
    {
        if name.get_char(i) == ROOM_COORD_SEPARATOR {
            proof {
                assert(separated_at(name@, i as int));
                let at = choose|at: int| separated_at(name@, at);
                assert(at == i);
                assert(name@.take(i as int) =~= name@.subrange(0, i as int));
                assert(name@.skip(i + 1) =~= name@.subrange(i + 1, len as int));
            }
            let x = parse_i8(name, 0, i);
            let y = parse_i8(name, i + 1, len);
            return match (x, y) {
                (Some(x), Some(y)) => Some(RoomCoordinates { x, y }),
                _ => None,
            };
        }
        i = i + 1;
    }
    None
}

/// The file of a room: its name, without the extension, and what it holds.
pub struct RoomFile {
    pub name: String,
    pub data: Vec<u8>,
}

/// Whether the file gives a room: its name gives the coordinates, and it
/// holds the tiles of one room.
pub open spec fn is_room_file(file: RoomFile) -> bool {
    spec_parse_room_name(file.name@) is Some && file.data@.len() == 336
}

/// The rooms that the first `count` of `files` give, where each gives one:
/// a later room takes the place of an earlier one at the same coordinates.
pub open spec fn rooms_of(files: Seq<RoomFile>, count: int) -> Map<RoomCoordinates, Seq<u8>>
    decreases count,
{
    if count <= 0 {
        Map::empty()
    } else {
        rooms_of(files, count - 1).insert(
            spec_parse_room_name(files[count - 1].name@).unwrap(),
            files[count - 1].data@,
        )
    }
}

/// The coordinates of the rooms that the first `count` of `files` give, in
/// the order in which they first occur.
pub open spec fn room_order(files: Seq<RoomFile>, count: int) -> Seq<RoomCoordinates>
    decreases count,
{
    if count <= 0 {
        Seq::empty()
    } else {
        let before = room_order(files, count - 1);
        let coords = spec_parse_room_name(files[count - 1].name@).unwrap();
        if before.contains(coords) {
            before
        } else {
            before.push(coords)
        }
    }
}

/// Whether `rooms` are the rooms that the files give, each of which gives
/// one: in the order in which their coordinates first occur, each as the
/// last file for its coordinates has it.
pub open spec fn rooms_given(files: Seq<RoomFile>, rooms: &RoomMap) -> bool {
    &&& rooms.wf()
    &&& forall|i: int| 0 <= i < files.len() ==> is_room_file(#[trigger] files[i])
    &&& rooms@.dom() == rooms_of(files, files.len() as int).dom()
    &&& rooms.coordinates@ == room_order(files, files.len() as int)
    &&& forall|coords: RoomCoordinates| #[trigger]
        rooms@.contains_key(coords) ==> rooms@[coords].data@ == rooms_of(
            files,
            files.len() as int,
        )[coords]
}

/// Whether `e` tells of the first of the files that gives no room: it names
/// the file, and says whether its name or what it holds is wrong.
pub open spec fn first_bad_file(files: Seq<RoomFile>, e: LoadRoomError) -> bool {
    exists|i: int|
        {
            &&& 0 <= i < files.len()
            &&& !is_room_file(#[trigger] files[i])
            &&& forall|j: int| 0 <= j < i ==> is_room_file(#[trigger] files[j])
            &&& match e {
                LoadRoomError::NameFormatError(name) => name@ == files[i].name@
                    && spec_parse_room_name(files[i].name@) is None,
                LoadRoomError::NewRoomError(name) => name@ == files[i].name@
                    && spec_parse_room_name(files[i].name@) is Some,
            }
        }
}

/// Loads the rooms that the files give. Fails with the first file that
/// gives none, and names it.
#[verifier::rlimit(40)]
pub fn load_rooms(files: &Vec<RoomFile>) -> (r: Result<RoomMap, LoadRoomError>)
    ensures
        match r {
            Ok(rooms) => rooms_given(files@, &rooms),
            Err(e) => first_bad_file(files@, e),
        },
{
    let mut rooms = RoomMap::new();
    let mut i: usize = 0;
    while i < files.len()
        invariant
            i <= files.len(),
            rooms.wf(),
            forall|j: int| 0 <= j < i ==> is_room_file(#[trigger] files@[j]),
            rooms@.dom() =~= rooms_of(files@, i as int).dom(),
            rooms.coordinates@ == room_order(files@, i as int),
            forall|coords: RoomCoordinates| #[trigger]
                rooms@.contains_key(coords) ==> rooms@[coords].data@ == rooms_of(
                    files@,
                    i as int,
                )[coords],
        decreases files.len() - i,
    {
        let file = &files[i];
        let coords = match parse_room_name(file.name.as_str()) {
            Some(coords) => coords,
            None => {
                return Err(LoadRoomError::NameFormatError(file.name.clone()));
            },
        };
        let room = match Room::new(&file.data) {
            Some(room) => room,
            None => {
                return Err(LoadRoomError::NewRoomError(file.name.clone()));
            },
        };
        proof {
            assert(rooms.coordinates@.contains(coords) <==> rooms.tiles@.contains_key(
                spec_room_key(coords),
            ));
        }
        rooms.insert(coords, room);
        i = i + 1;
    }
    Ok(rooms)
}

} // verus!

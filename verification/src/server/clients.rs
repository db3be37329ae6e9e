use vstd::prelude::*;

use super::entities::{next_trigger, Entity, EntityView};
use super::rooms::WorldMap;
use crate::soaprun::packets::{clip, ChangedTile};
use crate::soaprun::position::{copy_positions, Position};
use crate::soaprun::rooms::{
    lemma_affected_rooms_hold_position, RoomCoordinates, MAX_X_COORD, MAX_Y_COORD, MIN_X_COORD,
    MIN_Y_COORD,
};
use crate::soaprun::soaprunners::{
    client_spawn_position, client_spawn_room, Soaprunner, SoaprunnerColors, SoaprunnerItems,
    SoaprunnerSprites, SoaprunnerView,
};
use crate::soaprun::units::UnitStates;

verus! {

/// Why a movement is refused.
#[derive(PartialEq, Eq, Structural, Clone, Copy, Debug)]
pub enum MovementValidationErrors {
    /// Two nodes in a row share neither row nor column.
    MisalignedNodesError,
    /// Two nodes in a row are further apart than a node may be from the next.
    NodesTooFarError { actual: usize, max: usize },
    /// The way leaves the world.
    OutOfBoundsError,
    /// The way runs along the line between two rooms.
    MoveAlongEdgeError,
    /// The way crosses a tile that the player cannot walk on.
    InvalidTileTypeError { pos: Position, tile_type: u8 },
    /// The packet holds more nodes than a packet may.
    TooManyNodesError { actual: usize, max: usize },
    /// The way is longer than the way of one packet may be.
    TotalTooFarError { actual: usize, max: usize },
    /// The first movement of a player does not end where the player is.
    FirstMovementError,
}

/// How far a player may move: each bound holds where it is above zero.
#[derive(Clone, Copy, Debug)]
pub struct MovementLimits {
    pub max_player_movement_nodes_per_packet: usize,
    pub max_player_distance_per_movement_node: usize,
    pub max_player_distance_per_packet: usize,
}

/// A change of a tile that a client has not been told yet: the room and the
/// position of the tile, and what the tile is now.
#[derive(PartialEq, Eq, Structural, Clone, Copy, Debug)]
pub struct CachedTile {
    pub room: RoomCoordinates,
    pub position: Position,
    pub tile: u8,
}

/// A connected player.
pub struct Client {
    pub number: usize,
    /// Whether the player has confirmed where it stands.
    pub has_moved: bool,
    pub has_made_corpse: bool,
    pub kills: usize,
    /// The number of the sword entity that the player holds.
    pub claimed_sword: Option<usize>,
    /// The number of the shield entity that the player holds.
    pub claimed_shield: Option<usize>,
    /// The rooms that hold the player's position.
    pub room: Vec<RoomCoordinates>,
    pub soaprunner: Soaprunner,
    /// The changes of tiles that the player has not been told yet, at most
    /// one for each tile of each room.
    pub cached_tiles: Vec<CachedTile>,
}

/// A player as a plain value.
pub struct ClientView {
    pub number: usize,
    pub has_moved: bool,
    pub has_made_corpse: bool,
    pub kills: usize,
    pub claimed_sword: Option<usize>,
    pub claimed_shield: Option<usize>,
    pub room: Seq<RoomCoordinates>,
    pub soaprunner: SoaprunnerView,
    pub cached_tiles: Seq<CachedTile>,
}

impl View for Client {
    type V = ClientView;

    open spec fn view(&self) -> ClientView {
        ClientView {
            number: self.number,
            has_moved: self.has_moved,
            has_made_corpse: self.has_made_corpse,
            kills: self.kills,
            claimed_sword: self.claimed_sword,
            claimed_shield: self.claimed_shield,
            room: self.room@,
            soaprunner: self.soaprunner@,
            cached_tiles: self.cached_tiles@,
        }
    }
}

/// Whether the change `entry` is one of the tile at `position` of `room`.
pub open spec fn is_change_of(entry: CachedTile, room: RoomCoordinates, position: Position) -> bool {
    entry.room == room && entry.position == position
}

/// Whether a cache holds at most one change for each tile of each room.
pub open spec fn cache_distinct(cache: Seq<CachedTile>) -> bool {
    forall|i: int, j: int|
        0 <= i < j < cache.len() ==> !is_change_of(
            #[trigger] cache[i],
            (#[trigger] cache[j]).room,
            cache[j].position,
        )
}

/// Whether a cache holds a change of the tile at `position` of `room`.
pub open spec fn cache_has(cache: Seq<CachedTile>, room: RoomCoordinates, position: Position) -> bool {
    exists|i: int| 0 <= i < cache.len() && is_change_of(#[trigger] cache[i], room, position)
}

/// Where a cache holds the change of the tile at `position` of `room`.
pub open spec fn cache_slot(cache: Seq<CachedTile>, room: RoomCoordinates, position: Position) -> int {
    choose|i: int| 0 <= i < cache.len() && is_change_of(#[trigger] cache[i], room, position)
}

/// What a cache says the tile at `position` of `room` has become, if it
/// holds a change of it.
pub open spec fn cached_tile(
    cache: Seq<CachedTile>,
    room: RoomCoordinates,
    position: Position,
) -> Option<u8> {
    if cache_has(cache, room, position) {
        Some(cache[cache_slot(cache, room, position)].tile)
    } else {
        None
    }
}

/// The cache after the change `entry` was noted: in the place of the change
/// that it held of the same tile, or else behind the others.
pub open spec fn cache_put(cache: Seq<CachedTile>, entry: CachedTile) -> Seq<CachedTile> {
    if cache_has(cache, entry.room, entry.position) {
        cache.update(cache_slot(cache, entry.room, entry.position), entry)
    } else {
        cache.push(entry)
    }
}

/// The changes of a cache as a packet lists them.
pub open spec fn cache_tiles(cache: Seq<CachedTile>) -> Seq<ChangedTile> {
    Seq::new(
        cache.len(),
        |i: int| ChangedTile { x: cache[i].position.x, y: cache[i].position.y, tile: cache[i].tile },
    )
}

/// Noting a change keeps the cache to one change for each tile, makes the
/// cache say what the tile has become, and leaves what it says of every
/// other tile.
pub proof fn lemma_cache_put(cache: Seq<CachedTile>, entry: CachedTile)
    requires
        cache_distinct(cache),
    ensures
        cache_distinct(cache_put(cache, entry)),
        cached_tile(cache_put(cache, entry), entry.room, entry.position) == Some(entry.tile),
        forall|room: RoomCoordinates, position: Position|
            !is_change_of(entry, room, position) ==> #[trigger] cached_tile(
                cache_put(cache, entry),
                room,
                position,
            ) == cached_tile(cache, room, position),
{
    let after = cache_put(cache, entry);
    let at = if cache_has(cache, entry.room, entry.position) {
        cache_slot(cache, entry.room, entry.position)
    } else {
        cache.len() as int
    };
    assert(after[at] == entry);
    assert(forall|i: int| 0 <= i < cache.len() && i != at ==> after[i] == cache[i]);
    assert(forall|i: int|
        0 <= i < cache.len() && i != at ==> !is_change_of(cache[i], entry.room, entry.position));
    assert(cache_has(after, entry.room, entry.position));
    assert forall|room: RoomCoordinates, position: Position|
        !is_change_of(entry, room, position) implies #[trigger] cached_tile(after, room, position)
        == cached_tile(cache, room, position) by {
        if cache_has(cache, room, position) {
            let i = cache_slot(cache, room, position);
            assert(after[i] == cache[i]);
            assert(cache_has(after, room, position));
            let j = cache_slot(after, room, position);
            assert(after[j] == cache[j]);
        } else if cache_has(after, room, position) {
            let j = cache_slot(after, room, position);
            assert(after[j] == cache[j]);
            assert(false);
        }
    }
}

impl ClientView {
    /// Where the player is.
    pub open spec fn position(self) -> Position {
        self.soaprunner.movements.last()
    }

    /// A player stands somewhere, in the rooms that hold its position, holds
    /// no item without the entity that it claimed, and is owed at most one
    /// change for each tile.
    pub open spec fn wf(self) -> bool {
        &&& self.soaprunner.movements.len() >= 1
        &&& self.room == self.position().affected_rooms()
        &&& cache_distinct(self.cached_tiles)
        &&& self.soaprunner.items.sword ==> self.claimed_sword is Some
        &&& self.soaprunner.items.shield ==> self.claimed_shield is Some
    }

    /// Whether a player can step on a tile of the given type: on type 0, on
    /// type 2 without a shield, and on every tile once in heaven.
    pub open spec fn can_move_on_tile_type(self, tile_type: u8) -> bool {
        self.soaprunner.sprite == SoaprunnerSprites::Heavenly || tile_type == 0 || (tile_type == 2
            && !self.soaprunner.items.shield)
    }
}

impl Client {
    pub open spec fn wf(&self) -> bool {
        self@.wf()
    }

    /// Where the player is.
    pub open spec fn spec_position(&self) -> Position {
        self@.position()
    }

    /// A player who has just connected: it stands at the spawn position,
    /// walking, with no item and no kill.
    pub fn new(number: usize, color: SoaprunnerColors) -> (r: Client)
        ensures
            r@ == (ClientView {
                number,
                has_moved: false,
                has_made_corpse: false,
                kills: 0,
                claimed_sword: None,
                claimed_shield: None,
                room: seq![client_spawn_room()],
                soaprunner: SoaprunnerView {
                    teleport_trigger: 0,
                    sprite: SoaprunnerSprites::Walking,
                    color,
                    items: SoaprunnerItems { sword: false, crown: false, shield: false },
                    movements: seq![client_spawn_position()],
                },
                cached_tiles: Seq::empty(),
            }),
            r.wf(),
    {
        let mut room: Vec<RoomCoordinates> = Vec::new();
        room.push(client_spawn_room());
        let mut movements: Vec<Position> = Vec::new();
        movements.push(client_spawn_position());
        Client {
            number,
            has_moved: false,
            has_made_corpse: false,
            kills: 0,
            claimed_sword: None,
            claimed_shield: None,
            room,
            soaprunner: Soaprunner {
                teleport_trigger: 0,
                sprite: SoaprunnerSprites::Walking,
                color,
                items: SoaprunnerItems::empty(),
                movements,
            },
            cached_tiles: Vec::new(),
        }
    }

    /// Where the player is.
    pub fn position(&self) -> (r: Position)
        requires
            self.soaprunner.movements@.len() >= 1,
        ensures
            r == self.spec_position(),
    {
        self.soaprunner.movements[self.soaprunner.movements.len() - 1]
    }

    /// The player dies.
    pub fn kill(client: &mut Client)
        ensures
            final(client)@ == (ClientView {
                soaprunner: SoaprunnerView {
                    sprite: SoaprunnerSprites::Dying,
                    ..old(client)@.soaprunner
                },
                ..old(client)@
            }),
    {
        client.soaprunner.sprite = SoaprunnerSprites::Dying;
    }

    pub fn can_move_on_tile_type(&self, tile_type: u8) -> (r: bool)
        ensures
            r == self@.can_move_on_tile_type(tile_type),
    {
        (match self.soaprunner.sprite {
            SoaprunnerSprites::Heavenly => true,
            _ => false,
        }) || tile_type == 0 || (tile_type == 2 && !self.soaprunner.items.shield)
    }

    /// Notes that the tile at `position` of `room` has become `tile`, for
    /// the player to be told.
    pub fn cache_tile(&mut self, room: RoomCoordinates, position: Position, tile: u8)
        requires
            cache_distinct(old(self).cached_tiles@),
        ensures
            final(self)@ == (ClientView {
                cached_tiles: cache_put(
                    old(self).cached_tiles@,
                    CachedTile { room, position, tile },
                ),
                ..old(self)@
            }),
            cache_distinct(final(self).cached_tiles@),
    {
        let entry = CachedTile { room, position, tile };
        proof {
            lemma_cache_put(self.cached_tiles@, entry);
        }
        let mut i: usize = 0;
        while i < self.cached_tiles.len()
            invariant
                i <= self.cached_tiles.len(),
                self.cached_tiles@ == old(self).cached_tiles@,
                *self == *old(self),
                cache_distinct(self.cached_tiles@),
                entry == (CachedTile { room, position, tile }),
                cache_distinct(cache_put(self.cached_tiles@, entry)),
                forall|j: int|
                    0 <= j < i ==> !is_change_of(#[trigger] self.cached_tiles@[j], room, position),
            decreases self.cached_tiles.len() - i,
        {
            if self.cached_tiles[i].room == room && self.cached_tiles[i].position == position {
                proof {
                    let cache = self.cached_tiles@;
                    assert(is_change_of(cache[i as int], room, position));
                    assert(cache_has(cache, room, position));
                    let at = cache_slot(cache, room, position);
                    assert(is_change_of(cache[at], cache[i as int].room, cache[i as int].position));
                    assert(is_change_of(cache[i as int], cache[at].room, cache[at].position));
                    assert(at == i);
                }
                self.cached_tiles[i] = entry;
                return ;
            }
            i = i + 1;
        }
        assert(!cache_has(self.cached_tiles@, room, position));
        self.cached_tiles.push(entry);
    }

    /// Hands out the changes of the tiles of the player's rooms that it has
    /// not been told yet, in the order in which the tiles first changed, and
    /// forgets them.
    pub fn take_cached_tiles(&mut self) -> (r: Vec<ChangedTile>)
        requires
            cache_distinct(old(self).cached_tiles@),
        ensures
            r@ == old(self)@.told_tiles(),
            final(self)@ == old(self)@.after_telling(),
            cache_distinct(final(self).cached_tiles@),
    {
        let (tiles, rest) = split_cache(&self.cached_tiles, &self.room);
        self.cached_tiles = rest;
        tiles
    }

    /// Forgets the changes of the tiles of the room at `coords` that the
    /// player has not been told yet.
    pub fn forget_room(&mut self, coords: RoomCoordinates)
        requires
            cache_distinct(old(self).cached_tiles@),
        ensures
            final(self)@ == old(self)@.without_room(coords),
            cache_distinct(final(self).cached_tiles@),
    {
        let mut rooms: Vec<RoomCoordinates> = Vec::new();
        rooms.push(coords);
        let (_, rest) = split_cache(&self.cached_tiles, &rooms);
        proof {
            let one = |e: CachedTile| !rooms@.contains(e.room);
            let other = |e: CachedTile| e.room != coords;
            assert forall|e: CachedTile| #[trigger] one(e) == other(e) by {
                if e.room == coords {
                    assert(rooms@[0] == e.room);
                }
            }
            assert(one =~= other);
        }
        self.cached_tiles = rest;
    }
}

impl ClientView {
    /// The changes that the player is told with the next snapshot: those of
    /// the tiles of its rooms.
    pub open spec fn told_tiles(self) -> Seq<ChangedTile> {
        cache_tiles(self.cached_tiles.filter(|e: CachedTile| self.room.contains(e.room)))
    }

    /// The player after it was told the changes of the tiles of its rooms.
    pub open spec fn after_telling(self) -> ClientView {
        ClientView {
            cached_tiles: self.cached_tiles.filter(|e: CachedTile| !self.room.contains(e.room)),
            ..self
        }
    }

    /// The player with the changes of the tiles of the room at `coords`
    /// forgotten.
    pub open spec fn without_room(self, coords: RoomCoordinates) -> ClientView {
        ClientView {
            cached_tiles: self.cached_tiles.filter(|e: CachedTile| e.room != coords),
            ..self
        }
    }
}

/// A change that a player is owed of a tile of one of its rooms is told
/// with the next snapshot, and then the player is owed none of that tile.
pub proof fn lemma_change_is_told_once(c: ClientView, room: RoomCoordinates, position: Position)
    requires
        cached_tile(c.cached_tiles, room, position) is Some,
        c.room.contains(room),
    ensures
        c.told_tiles().contains(
            ChangedTile {
                x: position.x,
                y: position.y,
                tile: cached_tile(c.cached_tiles, room, position).unwrap(),
            },
        ),
        cached_tile(c.after_telling().cached_tiles, room, position) is None,
{
    let taken = |e: CachedTile| c.room.contains(e.room);
    let kept = |e: CachedTile| !c.room.contains(e.room);
    let cache = c.cached_tiles;
    let i = cache_slot(cache, room, position);
    cache.lemma_filter_contains(taken, i);
    let told = cache.filter(taken);
    let j = choose|j: int| 0 <= j < told.len() && told[j] == cache[i];
    assert(cache_tiles(told)[j] == (ChangedTile {
        x: position.x,
        y: position.y,
        tile: cache[i].tile,
    }));
    let rest = cache.filter(kept);
    if cache_has(rest, room, position) {
        let k = cache_slot(rest, room, position);
        cache.lemma_filter_pred(kept, k);
    }
}

/// Parts a cache into the changes of the tiles of `rooms`, as a packet
/// lists them, and the other changes.
fn split_cache(cache: &Vec<CachedTile>, rooms: &Vec<RoomCoordinates>) -> (r: (
    Vec<ChangedTile>,
    Vec<CachedTile>,
))
    requires
        cache_distinct(cache@),
    ensures
        r.0@ == cache_tiles(cache@.filter(|e: CachedTile| rooms@.contains(e.room))),
        r.1@ == cache@.filter(|e: CachedTile| !rooms@.contains(e.room)),
        cache_distinct(r.1@),
{
    let ghost taken = |e: CachedTile| rooms@.contains(e.room);
    let ghost kept = |e: CachedTile| !rooms@.contains(e.room);
    let ghost all = cache@;
    let mut tiles: Vec<ChangedTile> = Vec::new();
    let mut rest: Vec<CachedTile> = Vec::new();
    let mut i: usize = 0;
    assert(all.take(0) =~= Seq::<CachedTile>::empty());
    while i < cache.len()
        invariant
            i <= cache.len(),
            all == cache@,
            cache_distinct(all),
            taken == (|e: CachedTile| rooms@.contains(e.room)),
            kept == (|e: CachedTile| !rooms@.contains(e.room)),
            tiles@ =~= cache_tiles(all.take(i as int).filter(taken)),
            rest@ == all.take(i as int).filter(kept),
            cache_distinct(rest@),
            forall|j: int|
                0 <= j < rest@.len() ==> exists|k: int| 0 <= k < i && all[k] == #[trigger] rest@[j],
        decreases cache.len() - i,
    {
        let entry = cache[i];
        proof {
            assert(all.take(i + 1).drop_last() =~= all.take(i as int));
            reveal(Seq::filter);
        }
        if contains_room(rooms, &entry.room) {
            tiles.push(ChangedTile::new(entry.position.x, entry.position.y, entry.tile));
        } else {
            proof {
                assert forall|j: int| 0 <= j < rest@.len() implies !is_change_of(
                    #[trigger] rest@[j],
                    entry.room,
                    entry.position,
                ) by {
                    let k = choose|k: int| 0 <= k < i && all[k] == rest@[j];
                    assert(!is_change_of(all[k], all[i as int].room, all[i as int].position));
                }
            }
            rest.push(entry);
            assert(all[i as int] == rest@[rest@.len() - 1]);
        }
        i = i + 1;
    }
    assert(all.take(all.len() as int) =~= all);
    (tiles, rest)
}

/// The position `k` steps from `a` on the straight way to `b`.
pub open spec fn along(a: Position, b: Position, k: int) -> Position {
    Position {
        x: if a.x < b.x {
            (a.x + k) as i16
        } else if a.x > b.x {
            (a.x - k) as i16
        } else {
            a.x
        },
        y: if a.y < b.y {
            (a.y + k) as i16
        } else if a.y > b.y {
            (a.y - k) as i16
        } else {
            a.y
        },
    }
}

impl ClientView {
    /// The type of the tile at `pos` in the first of `rooms` in which the
    /// player cannot step on it.
    pub open spec fn blocking_type(
        self,
        map: WorldMap,
        pos: Position,
        rooms: Seq<RoomCoordinates>,
    ) -> Option<u8>
        decreases rooms.len(),
    {
        if rooms.len() == 0 {
            None
        } else if !self.can_move_on_tile_type(map.spec_tile_type(pos, rooms[0])) {
            Some(map.spec_tile_type(pos, rooms[0]))
        } else {
            self.blocking_type(map, pos, rooms.drop_first())
        }
    }

    /// Whether the tiles are looked at when the player steps from `prev`:
    /// not for a player in heaven, and not for a step off the line between
    /// two rooms, by which the player enters a room.
    pub open spec fn checks_tiles(self, prev: Position) -> bool {
        self.soaprunner.sprite != SoaprunnerSprites::Heavenly && !prev.spec_on_edge()
    }

    /// Why the player cannot step from `prev` to `curr`, if it cannot: the
    /// step leaves the world, or runs along the line between two rooms, or
    /// ends on a tile on which the player cannot walk.
    pub open spec fn step_error(self, map: WorldMap, prev: Position, curr: Position) -> Option<
        MovementValidationErrors,
    > {
        if !curr.in_world() {
            Some(MovementValidationErrors::OutOfBoundsError)
        } else if prev.spec_on_edge() && curr.spec_on_edge() {
            Some(MovementValidationErrors::MoveAlongEdgeError)
        } else if self.checks_tiles(prev) {
            match self.blocking_type(map, curr, curr.affected_rooms()) {
                Some(tile_type) => Some(
                    MovementValidationErrors::InvalidTileTypeError { pos: curr, tile_type },
                ),
                None => None,
            }
        } else {
            None
        }
    }

    /// The result of walking from `a` to `b`, `dist` steps away, once the
    /// first `from` steps are done: the error of the first step that
    /// cannot be made, or the distance.
    pub open spec fn walk(self, map: WorldMap, a: Position, b: Position, from: int, dist: int) -> Result<
        usize,
        MovementValidationErrors,
    >
        decreases dist - from,
    {
        if from >= dist {
            Ok(dist as usize)
        } else {
            match self.step_error(map, along(a, b, from), along(a, b, from + 1)) {
                Some(e) => Err(e),
                None => self.walk(map, a, b, from + 1, dist),
            }
        }
    }

    /// The result of moving from the node `from` to the node `to`: nothing to
    /// do where they are one position; else they must lie in line and no
    /// further apart than nodes may, and every step of the way must be one
    /// that the player can make.
    pub open spec fn verify_nodes(
        self,
        map: WorldMap,
        limits: MovementLimits,
        from: Position,
        to: Position,
    ) -> Result<usize, MovementValidationErrors> {
        let dist = from.spec_taxicab_distance(to);
        if from == to {
            Ok(0)
        } else if !from.spec_in_line(to) {
            Err(MovementValidationErrors::MisalignedNodesError)
        } else if limits.max_player_distance_per_movement_node > 0 && dist
            > limits.max_player_distance_per_movement_node {
            Err(
                MovementValidationErrors::NodesTooFarError {
                    actual: dist as usize,
                    max: limits.max_player_distance_per_movement_node,
                },
            )
        } else {
            self.walk(map, from, to, 0, dist)
        }
    }

    /// The node from which the movement to the node `k` of `nodes` starts.
    pub open spec fn leg_start(self, nodes: Seq<Position>, k: int) -> Position {
        if k == 0 {
            self.position()
        } else {
            nodes[k - 1]
        }
    }

    /// The result of moving from where the player is through the first
    /// `count` of `nodes`: the error of the first movement that is refused,
    /// or the distance in all.
    pub open spec fn verify_path(
        self,
        map: WorldMap,
        limits: MovementLimits,
        nodes: Seq<Position>,
        count: int,
    ) -> Result<usize, MovementValidationErrors>
        decreases count,
    {
        if count <= 0 {
            Ok(0)
        } else {
            match self.verify_path(map, limits, nodes, count - 1) {
                Err(e) => Err(e),
                Ok(total) => match self.verify_nodes(
                    map,
                    limits,
                    self.leg_start(nodes, count - 1),
                    nodes[count - 1],
                ) {
                    Err(e) => Err(e),
                    Ok(d) => Ok(clip(total + d)),
                },
            }
        }
    }

    /// The player after it moved along `movements`.
    pub open spec fn moved_along(self, movements: Seq<Position>) -> ClientView {
        ClientView {
            room: movements.last().affected_rooms(),
            soaprunner: SoaprunnerView { movements, ..self.soaprunner },
            ..self
        }
    }

    /// The player after it confirmed where it stands.
    pub open spec fn confirmed(self) -> ClientView {
        ClientView {
            has_moved: true,
            soaprunner: SoaprunnerView {
                teleport_trigger: if self.soaprunner.teleport_trigger == 255 {
                    0
                } else {
                    (self.soaprunner.teleport_trigger + 1) as u8
                },
                ..self.soaprunner
            },
            ..self
        }
    }

    /// The distance that the player moves along `movements`, or why the
    /// movement is refused. A player who has not confirmed where it stands
    /// must end where it stands, whatever the way. Every other movement
    /// must hold no more nodes than a packet may, be valid from node to
    /// node, and be no longer than the way of one packet may be.
    pub open spec fn movement_result(
        self,
        map: WorldMap,
        limits: MovementLimits,
        movements: Seq<Position>,
    ) -> Result<usize, MovementValidationErrors> {
        if movements.len() == 0 {
            Ok(0)
        } else if !self.has_moved {
            if self.position() == movements.last() {
                Ok(0)
            } else {
                Err(MovementValidationErrors::FirstMovementError)
            }
        } else if limits.max_player_movement_nodes_per_packet > 0 && movements.len()
            > limits.max_player_movement_nodes_per_packet {
            Err(
                MovementValidationErrors::TooManyNodesError {
                    actual: movements.len() as usize,
                    max: limits.max_player_movement_nodes_per_packet,
                },
            )
        } else {
            match self.verify_path(map, limits, movements, movements.len() as int) {
                Err(e) => Err(e),
                Ok(total) => if limits.max_player_distance_per_packet > 0 && total
                    > limits.max_player_distance_per_packet {
                    Err(
                        MovementValidationErrors::TotalTooFarError {
                            actual: total,
                            max: limits.max_player_distance_per_packet,
                        },
                    )
                } else {
                    Ok(total)
                },
            }
        }
    }

    /// The player after the movement along `movements` was judged: where it
    /// was refused or holds no node, the player as it was; else the player
    /// at the end of the way, in the rooms that hold that position.
    pub open spec fn after_movement(
        self,
        map: WorldMap,
        limits: MovementLimits,
        movements: Seq<Position>,
    ) -> ClientView {
        if movements.len() == 0 || self.movement_result(map, limits, movements) is Err {
            self
        } else if !self.has_moved {
            self.confirmed().moved_along(movements)
        } else {
            self.moved_along(movements)
        }
    }
}

/// A walk is refused where one of its steps is: a player cannot cross a
/// tile on which it cannot walk, unless it is in heaven or enters a room
/// by that step.
proof fn lemma_walk_rejects_blocked_step(
    c: ClientView,
    map: WorldMap,
    a: Position,
    b: Position,
    from: int,
    dist: int,
    k: int,
)
    requires
        0 <= from <= k < dist,
        c.step_error(map, along(a, b, k), along(a, b, k + 1)) is Some,
    ensures
        c.walk(map, a, b, from, dist) is Err,
    decreases dist - from,
{
    if from < k {
        lemma_walk_rejects_blocked_step(c, map, a, b, from + 1, dist, k);
    }
}

/// A movement between two nodes is refused where the way between them
/// crosses a tile on which the player cannot walk, in one of the rooms that
/// hold the tile, unless the player is in heaven or steps onto the tile from
/// the line between two rooms.
pub proof fn lemma_verify_nodes_rejects_blocked_tile(
    c: ClientView,
    map: WorldMap,
    limits: MovementLimits,
    from: Position,
    to: Position,
    k: int,
    room: int,
)
    requires
        from != to,
        0 <= k < from.spec_taxicab_distance(to),
        c.soaprunner.sprite != SoaprunnerSprites::Heavenly,
        !along(from, to, k).spec_on_edge(),
        0 <= room < along(from, to, k + 1).affected_rooms().len(),
        !c.can_move_on_tile_type(
            map.spec_tile_type(along(from, to, k + 1), along(from, to, k + 1).affected_rooms()[room]),
        ),
    ensures
        c.verify_nodes(map, limits, from, to) is Err,
{
    let curr = along(from, to, k + 1);
    lemma_blocking_type_finds(c, map, curr, curr.affected_rooms(), room);
    if from.spec_in_line(to) {
        lemma_walk_rejects_blocked_step(c, map, from, to, 0, from.spec_taxicab_distance(to), k);
    }
}

/// Where the player cannot step on the tile in one of the rooms, the tile
/// blocks it.
proof fn lemma_blocking_type_finds(
    c: ClientView,
    map: WorldMap,
    pos: Position,
    rooms: Seq<RoomCoordinates>,
    i: int,
)
    requires
        0 <= i < rooms.len(),
        !c.can_move_on_tile_type(map.spec_tile_type(pos, rooms[i])),
    ensures
        c.blocking_type(map, pos, rooms) is Some,
    decreases rooms.len(),
{
    if c.can_move_on_tile_type(map.spec_tile_type(pos, rooms[0])) {
        lemma_blocking_type_finds(c, map, pos, rooms.drop_first(), i - 1);
    }
}

impl Client {
    /// The type of the tile at `pos` in the first of the rooms that hold it
    /// in which the player cannot step on it.
    fn find_blocking_type(&self, map: &WorldMap, pos: &Position) -> (r: Option<u8>)
        requires
            map.map_attributes.covers_tiles(),
            pos.in_world(),
        ensures
            r == self@.blocking_type(*map, *pos, pos.affected_rooms()),
    {
        let rooms = pos.get_affected_rooms();
        let mut i: usize = 0;
        assert(rooms@.skip(0) =~= rooms@);
        while i < rooms.len()
            invariant
                i <= rooms.len(),
                rooms@ == pos.affected_rooms(),
                map.map_attributes.covers_tiles(),
                pos.in_world(),
                self@.blocking_type(*map, *pos, pos.affected_rooms()) == self@.blocking_type(
                    *map,
                    *pos,
                    rooms@.skip(i as int),
                ),
            decreases rooms.len() - i,
        {
            proof {
                lemma_affected_rooms_hold_position(*pos, i as int);
                assert(rooms@.skip(i as int).drop_first() =~= rooms@.skip(i + 1));
                assert(rooms@.skip(i as int)[0] == rooms@[i as int]);
            }
            match map.get_tile_type(pos, &rooms[i]) {
                Ok(tile_type) => {
                    if !self.can_move_on_tile_type(tile_type) {
                        return Some(tile_type);
                    }
                },
                Err(_) => {},
            }
            i = i + 1;
        }
        None
    }

    /// Judges the movement from the node `from` to the node `to`, and gives
    /// its length.
    #[verifier::loop_isolation(false)]
    #[verifier::rlimit(40)]
    pub fn verify_nodes(
        &self,
        from: &Position,
        to: &Position,
        map: &WorldMap,
        limits: &MovementLimits,
    ) -> (r: Result<usize, MovementValidationErrors>)
        requires
            map.map_attributes.covers_tiles(),
        ensures
            r == self@.verify_nodes(*map, *limits, *from, *to),
    {
        if *from == *to {
            return Ok(0);
        }
        if !from.in_line(to) {
            return Err(MovementValidationErrors::MisalignedNodesError);
        }
        let dist = from.taxicab_distance(to);
        if limits.max_player_distance_per_movement_node > 0 && dist
            > limits.max_player_distance_per_movement_node {
            return Err(
                MovementValidationErrors::NodesTooFarError {
                    actual: dist,
                    max: limits.max_player_distance_per_movement_node,
                },
            );
        }
        let dir = from.relative_direction(to);
        let mut prev = *from;
        let mut i: usize = 0;
        while i < dist
            invariant
                i <= dist,
                dist == from.spec_taxicab_distance(*to),
                *from != *to,
                from.spec_in_line(*to),
                dir == from.spec_relative_direction(*to),
                map.map_attributes.covers_tiles(),
                prev == along(*from, *to, i as int),
                self@.walk(*map, *from, *to, 0, dist as int) == self@.walk(
                    *map,
                    *from,
                    *to,
                    i as int,
                    dist as int,
                ),
            decreases dist - i,
        {
            let curr = if dir.has_west {
                prev.west(1)
            } else if dir.has_east {
                prev.east(1)
            } else if dir.has_north {
                prev.north(1)
            } else {
                prev.south(1)
            };
            assert(curr == along(*from, *to, i + 1));
            if curr.x < MIN_X_COORD || MAX_X_COORD
                < curr.x || curr.y < MIN_Y_COORD
                || MAX_Y_COORD < curr.y {
                return Err(MovementValidationErrors::OutOfBoundsError);
            }
            if prev.on_edge() && curr.on_edge() {
                return Err(MovementValidationErrors::MoveAlongEdgeError);
            }
            let in_heaven = match self.soaprunner.sprite {
                SoaprunnerSprites::Heavenly => true,
                _ => false,
            };
            if !in_heaven && !prev.on_edge() {
                match self.find_blocking_type(map, &curr) {
                    Some(tile_type) => {
                        return Err(
                            MovementValidationErrors::InvalidTileTypeError { pos: curr, tile_type },
                        );
                    },
                    None => {},
                }
            }
            prev = curr;
            i = i + 1;
        }
        Ok(dist)
    }

    /// Judges the movement along `movements` and, where it is accepted,
    /// moves the player.
    #[verifier::loop_isolation(false)]
    #[verifier::rlimit(40)]
    pub fn update_position(
        client: &mut Client,
        movements: &Vec<Position>,
        map: &WorldMap,
        limits: &MovementLimits,
    ) -> (r: Result<usize, MovementValidationErrors>)
        requires
            map.map_attributes.covers_tiles(),
            old(client).wf(),
        ensures
            r == old(client)@.movement_result(*map, *limits, movements@),
            final(client)@ == old(client)@.after_movement(*map, *limits, movements@),
            final(client).wf(),
    {
        if movements.len() == 0 {
            return Ok(0);
        }
        let mut total: usize = 0;
        if client.has_moved {
            if limits.max_player_movement_nodes_per_packet > 0 && movements.len()
                > limits.max_player_movement_nodes_per_packet {
                return Err(
                    MovementValidationErrors::TooManyNodesError {
                        actual: movements.len(),
                        max: limits.max_player_movement_nodes_per_packet,
                    },
                );
            }
            let mut i: usize = 0;
            while i < movements.len()
                invariant
                    i <= movements.len(),
                    *client == *old(client),
                    client.wf(),
                    map.map_attributes.covers_tiles(),
                    client@.verify_path(*map, *limits, movements@, i as int) == Ok::<
                        usize,
                        MovementValidationErrors,
                    >(total),
                decreases movements.len() - i,
            {
                let start = if i == 0 {
                    client.position()
                } else {
                    movements[i - 1]
                };
                assert(start == client@.leg_start(movements@, i as int));
                let leg = client.verify_nodes(&start, &movements[i], map, limits);
                assert(client@.verify_path(*map, *limits, movements@, i + 1) == match leg {
                    Err(e) => Err::<usize, MovementValidationErrors>(e),
                    Ok(d) => Ok(clip(total + d)),
                });
                let d = match leg {
                    Ok(d) => d,
                    Err(e) => {
                        proof {
                            lemma_verify_path_fails(
                                client@,
                                *map,
                                *limits,
                                movements@,
                                i + 1,
                                movements@.len() as int,
                            );
                        }
                        return Err(e);
                    },
                };
                total = total.saturating_add(d);
                i = i + 1;
            }
            if limits.max_player_distance_per_packet > 0 && total
                > limits.max_player_distance_per_packet {
                return Err(
                    MovementValidationErrors::TotalTooFarError {
                        actual: total,
                        max: limits.max_player_distance_per_packet,
                    },
                );
            }
        } else {
            let dest = movements[movements.len() - 1];
            if client.position() == dest {
                client.soaprunner.teleport_trigger = next_trigger(client.soaprunner.teleport_trigger);
                client.has_moved = true;
            } else {
                return Err(MovementValidationErrors::FirstMovementError);
            }
        }
        client.room = movements[movements.len() - 1].get_affected_rooms();
        client.soaprunner.movements = copy_positions(movements);
        Ok(total)
    }
}

/// A way of which the first movements are refused is refused with their
/// error, however many movements follow.
proof fn lemma_verify_path_fails(
    c: ClientView,
    map: WorldMap,
    limits: MovementLimits,
    nodes: Seq<Position>,
    failed: int,
    count: int,
)
    requires
        0 <= failed <= count,
        c.verify_path(map, limits, nodes, failed) is Err,
    ensures
        c.verify_path(map, limits, nodes, count) == c.verify_path(map, limits, nodes, failed),
    decreases count - failed,
{
    if failed < count {
        lemma_verify_path_fails(c, map, limits, nodes, failed, count - 1);
    }
}

/// The number of kills after which a player is crowned, again and again.
pub const KILLS_FOR_CROWN: usize = 10;

impl ClientView {
    /// The player with the sword entity `index` in its hand.
    pub open spec fn with_sword(self, index: usize) -> ClientView {
        ClientView {
            claimed_sword: Some(index),
            soaprunner: SoaprunnerView {
                items: SoaprunnerItems { sword: true, ..self.soaprunner.items },
                ..self.soaprunner
            },
            ..self
        }
    }

    /// The player without a sword.
    pub open spec fn without_sword(self) -> ClientView {
        ClientView {
            soaprunner: SoaprunnerView {
                items: SoaprunnerItems { sword: false, ..self.soaprunner.items },
                ..self.soaprunner
            },
            ..self
        }
    }

    /// The player with the shield entity `index` on its arm.
    pub open spec fn with_shield(self, index: usize) -> ClientView {
        ClientView {
            claimed_shield: Some(index),
            soaprunner: SoaprunnerView {
                items: SoaprunnerItems { shield: true, ..self.soaprunner.items },
                ..self.soaprunner
            },
            ..self
        }
    }

    /// The player without a shield.
    pub open spec fn without_shield(self) -> ClientView {
        ClientView {
            soaprunner: SoaprunnerView {
                items: SoaprunnerItems { shield: false, ..self.soaprunner.items },
                ..self.soaprunner
            },
            ..self
        }
    }

    /// The player with the given sprite.
    pub open spec fn with_sprite(self, sprite: SoaprunnerSprites) -> ClientView {
        ClientView { soaprunner: SoaprunnerView { sprite, ..self.soaprunner }, ..self }
    }

    /// The number of kills after one more.
    pub open spec fn next_kills(self) -> usize {
        if self.kills == usize::MAX {
            0
        } else {
            (self.kills + 1) as usize
        }
    }

    /// Whether the next kill earns the player a crown.
    pub open spec fn earns_crown(self) -> bool {
        self.next_kills() as int % 10 == 0
    }

    /// The player after one more kill: with every tenth it wears a crown
    /// and has given back its sword.
    pub open spec fn with_kill(self) -> ClientView {
        if self.earns_crown() {
            ClientView {
                kills: self.next_kills(),
                soaprunner: SoaprunnerView {
                    items: SoaprunnerItems { crown: true, sword: false, ..self.soaprunner.items },
                    ..self.soaprunner
                },
                ..self
            }
        } else {
            ClientView { kills: self.next_kills(), ..self }
        }
    }

    /// Whether the player holds its items with the entities that it claimed.
    pub open spec fn claims_within(self, entities: int) -> bool {
        &&& self.soaprunner.items.sword ==> self.claimed_sword is Some && self.claimed_sword.unwrap()
            < entities
        &&& self.soaprunner.items.shield ==> self.claimed_shield is Some
            && self.claimed_shield.unwrap() < entities
    }
}

/// Whether `after` is the list `before` with the entity at `index` turned
/// into `entity`.
pub open spec fn entities_with(
    before: Seq<Entity>,
    after: Seq<Entity>,
    index: int,
    entity: EntityView,
) -> bool {
    &&& after.len() == before.len()
    &&& 0 <= index < before.len()
    &&& after[index]@ == entity
    &&& forall|j: int| 0 <= j < before.len() && j != index ==> after[j] == before[j]
}

/// Whether one of `entities` other than the one at `index` is at `position`.
pub open spec fn other_entity_at(entities: Seq<Entity>, index: int, position: Position) -> bool {
    exists|n: int|
        0 <= n < entities.len() && n != index && (#[trigger] entities[n]).spec_position()
            == position
}

/// Whether every one of `entities` is well formed.
pub open spec fn entities_wf(entities: Seq<Entity>) -> bool {
    forall|n: int| 0 <= n < entities.len() ==> (#[trigger] entities[n]).wf()
}

impl Client {
    /// Gives the sword back that the player holds, if it holds one: the
    /// sword entity is in the world again.
    pub fn return_sword(client: &mut Client, entities: &mut Vec<Entity>)
        requires
            old(client)@.claims_within(old(entities)@.len() as int),
        ensures
            final(client)@ == old(client)@.without_sword(),
            !old(client).soaprunner.items.sword ==> final(entities)@ == old(entities)@,
            old(client).soaprunner.items.sword ==> entities_with(
                old(entities)@,
                final(entities)@,
                old(client).claimed_sword.unwrap() as int,
                old(entities)@[old(client).claimed_sword.unwrap() as int]@.returned(),
            ),
    {
        if client.soaprunner.items.sword {
            client.soaprunner.items.sword = false;
            let sword_index = match client.claimed_sword {
                Some(i) => i,
                None => 0,
            };
            entities[sword_index].unit.unit_state = UnitStates::Active;
            entities[sword_index].unit.teleport_trigger = next_trigger(
                entities[sword_index].unit.teleport_trigger,
            );
        }
    }

    /// Counts an entity that the player has slain. With every tenth the
    /// player is crowned and gives back its sword.
    pub fn add_kill(client: &mut Client, entities: &mut Vec<Entity>)
        requires
            old(client)@.claims_within(old(entities)@.len() as int),
        ensures
            final(client)@ == old(client)@.with_kill(),
            !(old(client)@.earns_crown() && old(client).soaprunner.items.sword) ==> final(entities)@
                == old(entities)@,
            old(client)@.earns_crown() && old(client).soaprunner.items.sword ==> entities_with(
                old(entities)@,
                final(entities)@,
                old(client).claimed_sword.unwrap() as int,
                old(entities)@[old(client).claimed_sword.unwrap() as int]@.returned(),
            ),
    {
        client.kills = client.kills.wrapping_add(1);
        if client.kills % KILLS_FOR_CROWN == 0 {
            client.soaprunner.items.crown = true;
            Client::return_sword(client, entities);
        }
    }

    /// Takes the sword entity `sword_index` into the player's hand, where
    /// the player holds no sword and the entity is in the world.
    pub fn claim_sword(client: &mut Client, sword_index: usize, entities: &mut Vec<Entity>)
        ensures
            Self::can_claim(old(client).soaprunner.items.sword, sword_index, old(entities)@) ==> {
                &&& final(client)@ == old(client)@.with_sword(sword_index)
                &&& entities_with(
                    old(entities)@,
                    final(entities)@,
                    sword_index as int,
                    old(entities)@[sword_index as int]@.claimed(),
                )
            },
            !Self::can_claim(old(client).soaprunner.items.sword, sword_index, old(entities)@) ==> {
                &&& final(client)@ == old(client)@
                &&& final(entities)@ == old(entities)@
            },
    {
        if !client.soaprunner.items.sword {
            if sword_index >= entities.len() {
                return ;
            }
            if let UnitStates::Active = entities[sword_index].unit.unit_state {
                client.claimed_sword = Some(sword_index);
                client.soaprunner.items.sword = true;
                entities[sword_index].unit.unit_state = UnitStates::Corpse;
            }
        }
    }

    /// Whether a player can take the item entity `index` of `entities`: it
    /// holds no such item, and the entity is there and in the world.
    pub open spec fn can_claim(holds: bool, index: usize, entities: Seq<Entity>) -> bool {
        !holds && index < entities.len() && entities[index as int].unit.unit_state
            == UnitStates::Active
    }

    /// Takes the shield entity `shield_index` on the player's arm, where the
    /// player holds no shield and the entity is in the world, and counts the
    /// player among those with a shield.
    pub fn claim_shield(
        client: &mut Client,
        shield_index: usize,
        entities: &mut Vec<Entity>,
        players_with_shield: &mut usize,
    )
        requires
            !old(client).soaprunner.items.shield ==> *old(players_with_shield) < usize::MAX,
        ensures
            Self::can_claim(old(client).soaprunner.items.shield, shield_index, old(entities)@) ==> {
                &&& final(client)@ == old(client)@.with_shield(shield_index)
                &&& entities_with(
                    old(entities)@,
                    final(entities)@,
                    shield_index as int,
                    old(entities)@[shield_index as int]@.claimed(),
                )
                &&& *final(players_with_shield) == *old(players_with_shield) + 1
            },
            !Self::can_claim(old(client).soaprunner.items.shield, shield_index, old(entities)@)
                ==> {
                &&& final(client)@ == old(client)@
                &&& final(entities)@ == old(entities)@
                &&& *final(players_with_shield) == *old(players_with_shield)
            },
    {
        if !client.soaprunner.items.shield {
            if shield_index >= entities.len() {
                return ;
            }
            if let UnitStates::Active = entities[shield_index].unit.unit_state {
                client.claimed_shield = Some(shield_index);
                *players_with_shield = *players_with_shield + 1;
                client.soaprunner.items.shield = true;
                entities[shield_index].unit.unit_state = UnitStates::Corpse;
            }
        }
    }

    /// Where a shield lands that is dropped at `position`: there, or at its
    /// spawn position where another entity is at `position`.
    pub open spec fn landing(entities: Seq<Entity>, index: int, position: Position) -> Position {
        if other_entity_at(entities, index, position) {
            entities[index].spawn_position
        } else {
            position
        }
    }

    /// Drops the shield that the player holds, if it holds one: the shield
    /// entity is in the world again, where the player stands or, if another
    /// entity is there, at its spawn position; and the player is no longer
    /// counted among those with a shield.
    pub fn drop_shield(
        client: &mut Client,
        entities: &mut Vec<Entity>,
        players_with_shield: &mut usize,
    )
        requires
            old(client).wf(),
            old(client)@.claims_within(old(entities)@.len() as int),
            entities_wf(old(entities)@),
            old(client).soaprunner.items.shield ==> *old(players_with_shield) > 0,
        ensures
            final(client)@ == old(client)@.without_shield(),
            !old(client).soaprunner.items.shield ==> {
                &&& final(entities)@ == old(entities)@
                &&& *final(players_with_shield) == *old(players_with_shield)
            },
            old(client).soaprunner.items.shield ==> {
                &&& entities_with(
                    old(entities)@,
                    final(entities)@,
                    old(client).claimed_shield.unwrap() as int,
                    old(entities)@[old(client).claimed_shield.unwrap() as int]@.dropped(
                        Self::landing(
                            old(entities)@,
                            old(client).claimed_shield.unwrap() as int,
                            old(client).spec_position(),
                        ),
                    ),
                )
                &&& *final(players_with_shield) == *old(players_with_shield) - 1
            },
    {
        if client.soaprunner.items.shield {
            *players_with_shield = *players_with_shield - 1;
            client.soaprunner.items.shield = false;
            let drop_pos = client.position();
            let claimed_shield = match client.claimed_shield {
                Some(i) => i,
                None => 0,
            };
            let mut taken = false;
            let mut n: usize = 0;
            while n < entities.len()
                invariant
                    n <= entities.len(),
                    entities@ == old(entities)@,
                    entities_wf(entities@),
                    taken == exists|m: int|
                        0 <= m < n && m != claimed_shield && (#[trigger] entities@[m]).spec_position()
                            == drop_pos,
                decreases entities.len() - n,
            {
                if n != claimed_shield && entities[n].position() == drop_pos {
                    taken = true;
                }
                n = n + 1;
            }
            let landing = if taken {
                entities[claimed_shield].spawn_position
            } else {
                drop_pos
            };
            let mut movements: Vec<Position> = Vec::new();
            movements.push(landing);
            entities[claimed_shield].unit.movements = movements;
            entities[claimed_shield].unit.unit_state = UnitStates::Active;
            entities[claimed_shield].unit.teleport_trigger = next_trigger(
                entities[claimed_shield].unit.teleport_trigger,
            );
        }
    }
}

/// Whether `room` is one of `rooms`.
pub fn contains_room(rooms: &Vec<RoomCoordinates>, room: &RoomCoordinates) -> (r: bool)
    ensures
        r == rooms@.contains(*room),
{
    let mut i: usize = 0;
    while i < rooms.len()
        invariant
            i <= rooms.len(),
            forall|j: int| 0 <= j < i ==> rooms@[j] != *room,
        decreases rooms.len() - i,
    {
        if rooms[i] == *room {
            return true;
        }
        i = i + 1;
    }
    false
}

} // verus!

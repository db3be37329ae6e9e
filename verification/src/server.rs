//! The server's state and rules: rooms, players, entities and sessions.

use vstd::prelude::*;

use crate::soaprun::map_attributes::{
    tiles_contain, MapAttributes, MapAttributesError, CANVAS_TILES, DRAW_TILES, MAKE_CORPSE_TILES,
    REMOVE_CORPSE_TILES, TILE_VALUES,
};
use crate::soaprun::position::Position;
use crate::soaprun::rooms::{lemma_affected_rooms_distinct, Room, RoomCoordinates};
use crate::soaprun::units::{UnitStates, UnitTypes};
use clients::{
    cache_distinct, cache_put, cached_tile, entities_wf, is_change_of, lemma_cache_put, CachedTile,
    Client, ClientView, MovementLimits,
};
use entities::Entity;
use config::{load_entities, EntityInitInfo, ServerConfig};
use rooms::{
    first_bad_file, is_room_file, lemma_inbounds_rooms_hold, load_rooms, names_first_mismatch,
    rooms_fit, rooms_given, verify_rooms, LoadRoomError, RoomFile, RoomMap, RoomVerificationModes,
    WorldMap,
};

pub mod clients;
pub mod config;
pub mod entities;
pub mod entity_ai;
pub mod handlers;
pub mod position_extensions;
pub mod rooms;
pub mod sessions;
pub mod stream;

verus! {

/// The name of the protocol, as the server gives it: `Soaprun` and a zero.
pub const PROTOCOL_NAME: [u8; 8] = [0x53, 0x6f, 0x61, 0x70, 0x72, 0x75, 0x6e, 0x00];

pub const PROTOCOL_VERSION: u16 = 64;

/// The milliseconds between two ticks of the entities.
pub const ENTITY_UPDATE_RATE: usize = 10;

/// The world and everyone in it.
pub struct SoaprunServer {
    /// The tiles of the world.
    pub map: WorldMap,
    /// The number of players who hold a shield.
    pub players_with_shield: usize,
    /// The milliseconds between two ticks of the entities.
    pub entity_update_rate: usize,
    /// The entities, each under its number.
    pub entities: Vec<Entity>,
    /// The seconds after which a connection that does not answer is closed;
    /// zero for never.
    pub connection_timeout: u64,
    /// The seconds after which a player who does nothing is sent away; zero
    /// for never.
    pub idle_timeout: u64,
    pub limits: MovementLimits,
    /// The players, each under its number; a number without a player is free.
    pub players: Vec<Option<Client>>,
}

/// Whether a place of the roster holds a player with a shield.
pub open spec fn holds_shield(player: Option<Client>) -> bool {
    player matches Some(c) && c.soaprunner.items.shield
}

/// The number of players of a roster who hold a shield.
pub open spec fn shield_holders(players: Seq<Option<Client>>) -> nat
    decreases players.len(),
{
    if players.len() == 0 {
        0
    } else {
        shield_holders(players.drop_last()) + if holds_shield(players.last()) {
            1nat
        } else {
            0nat
        }
    }
}

/// Whether the player holds its items rightly: each is an entity of its
/// kind that is gone from the world.
pub open spec fn claims_hold(c: ClientView, entities: Seq<Entity>) -> bool {
    &&& c.claims_within(entities.len() as int)
    &&& c.soaprunner.items.sword ==> {
        &&& entities[c.claimed_sword.unwrap() as int].unit.unit_type == UnitTypes::Sword
        &&& entities[c.claimed_sword.unwrap() as int].unit.unit_state == UnitStates::Corpse
    }
    &&& c.soaprunner.items.shield ==> {
        &&& entities[c.claimed_shield.unwrap() as int].unit.unit_type == UnitTypes::Shield
        &&& entities[c.claimed_shield.unwrap() as int].unit.unit_state == UnitStates::Corpse
    }
}

/// Whether two players hold different swords and different shields, as far
/// as they hold any.
pub open spec fn claims_apart(a: ClientView, b: ClientView) -> bool {
    &&& a.soaprunner.items.sword && b.soaprunner.items.sword ==> a.claimed_sword != b.claimed_sword
    &&& a.soaprunner.items.shield && b.soaprunner.items.shield ==> a.claimed_shield
        != b.claimed_shield
}

/// Whether each player of a roster is well formed, stands under its number
/// and holds its items rightly, and no two players hold one item.
pub open spec fn roster_wf(players: Seq<Option<Client>>, entities: Seq<Entity>) -> bool {
    &&& forall|n: int|
        0 <= n < players.len() ==> (#[trigger] players[n] matches Some(c) ==> {
            &&& c.wf()
            &&& c.number == n
            &&& claims_hold(c@, entities)
        })
    &&& forall|n: int, m: int|
        0 <= n < m < players.len() ==> (#[trigger] players[n] matches Some(a) ==> (
        #[trigger] players[m] matches Some(b) ==> claims_apart(a@, b@)))
}

/// No more players hold a shield than there are players.
pub proof fn lemma_shield_holders_bound(players: Seq<Option<Client>>)
    ensures
        shield_holders(players) <= players.len(),
    decreases players.len(),
{
    if players.len() > 0 {
        lemma_shield_holders_bound(players.drop_last());
    }
}

/// Where one place of a roster changes, the number of players with a
/// shield changes by what that place adds to it.
pub(crate) proof fn lemma_shield_holders_update(
    before: Seq<Option<Client>>,
    after: Seq<Option<Client>>,
    n: int,
)
    requires
        before.len() == after.len(),
        0 <= n < before.len(),
        forall|j: int|
            0 <= j < before.len() && j != n ==> holds_shield(#[trigger] before[j]) == holds_shield(
                after[j],
            ),
    ensures
        shield_holders(after) + (if holds_shield(before[n]) {
            1nat
        } else {
            0nat
        }) == shield_holders(before) + (if holds_shield(after[n]) {
            1nat
        } else {
            0nat
        }),
    decreases before.len(),
{
    if n == before.len() - 1 {
        lemma_shield_holders_same(before.drop_last(), after.drop_last());
    } else {
        assert(holds_shield(before[before.len() - 1]) == holds_shield(after[before.len() - 1]));
        lemma_shield_holders_update(before.drop_last(), after.drop_last(), n);
    }
}

/// Two rosters in which the same places hold a shield hold as many.
proof fn lemma_shield_holders_same(before: Seq<Option<Client>>, after: Seq<Option<Client>>)
    requires
        before.len() == after.len(),
        forall|j: int|
            0 <= j < before.len() ==> holds_shield(#[trigger] before[j]) == holds_shield(after[j]),
    ensures
        shield_holders(after) == shield_holders(before),
    decreases before.len(),
{
    if before.len() > 0 {
        assert(holds_shield(before[before.len() - 1]) == holds_shield(after[before.len() - 1]));
        lemma_shield_holders_same(before.drop_last(), after.drop_last());
    }
}

/// A player holds a shield only where the count of them is above zero.
pub(crate) proof fn lemma_shield_holder_counted(players: Seq<Option<Client>>, n: int)
    requires
        0 <= n < players.len(),
        holds_shield(players[n]),
    ensures
        shield_holders(players) > 0,
    decreases players.len(),
{
    if n < players.len() - 1 {
        lemma_shield_holder_counted(players.drop_last(), n);
    }
}

/// Whether `after` is the roster `before` with the change of the tile at
/// `position` of `room` noted for every player, and nothing else changed.
pub open spec fn roster_noted(
    before: Seq<Option<Client>>,
    after: Seq<Option<Client>>,
    entry: CachedTile,
) -> bool {
    &&& after.len() == before.len()
    &&& forall|n: int|
        0 <= n < before.len() ==> match #[trigger] before[n] {
            Some(c) => after[n] matches Some(d) && d@ == (ClientView {
                cached_tiles: cache_put(c.cached_tiles@, entry),
                ..c@
            }),
            None => after[n] is None,
        }
}

/// Notes the change of a tile for every player.
#[verifier::rlimit(40)]
pub(crate) fn note_change(players: &mut Vec<Option<Client>>, entry: CachedTile, Ghost(entities): Ghost<Seq<Entity>>)
    requires
        roster_wf(old(players)@, entities),
    ensures
        roster_wf(final(players)@, entities),
        roster_noted(old(players)@, final(players)@, entry),
        shield_holders(final(players)@) == shield_holders(old(players)@),
{
    let mut n: usize = 0;
    while n < players.len()
        invariant
            n <= players.len(),
            players@.len() == old(players)@.len(),
            roster_wf(players@, entities),
            roster_noted(old(players)@.take(n as int), players@.take(n as int), entry),
            forall|j: int| n <= j < players@.len() ==> players@[j] == old(players)@[j],
        decreases players.len() - n,
    {
        let ghost before = players@;
        match &mut players[n] {
            Some(client) => {
                client.cache_tile(entry.room, entry.position, entry.tile);
            },
            None => {},
        }
        proof {
            assert(forall|j: int| 0 <= j < before.len() && j != n ==> players@[j] == before[j]);
            assert forall|j: int| 0 <= j < n + 1 implies match #[trigger] old(players)@.take(
                n + 1,
            )[j] {
                Some(c) => players@.take(n + 1)[j] matches Some(d) && d@ == (ClientView {
                    cached_tiles: cache_put(c.cached_tiles@, entry),
                    ..c@
                }),
                None => players@.take(n + 1)[j] is None,
            } by {
                if j < n {
                    assert(old(players)@.take(n as int)[j] == old(players)@[j]);
                    assert(players@.take(n as int)[j] == players@[j]);
                    assert(before.take(n as int)[j] == before[j]);
                }
            }
        }
        n = n + 1;
    }
    proof {
        assert(players@.take(n as int) =~= players@);
        assert(old(players)@.take(n as int) =~= old(players)@);
        assert forall|j: int| 0 <= j < players@.len() implies holds_shield(
            #[trigger] old(players)@[j],
        ) == holds_shield(players@[j]) by {}
        lemma_shield_holders_same(old(players)@, players@);
    }
}

/// Whether `after` is the cache `before` with `news` noted: it says of
/// each tile what the news says, and of every other tile what it said
/// before.
pub open spec fn cache_told(
    before: Seq<CachedTile>,
    after: Seq<CachedTile>,
    news: Map<(RoomCoordinates, Position), u8>,
) -> bool {
    &&& cache_distinct(after)
    &&& forall|room: RoomCoordinates, position: Position|
        #[trigger] cached_tile(after, room, position) == if news.contains_key((room, position)) {
            Some(news[(room, position)])
        } else {
            cached_tile(before, room, position)
        }
}

/// Whether `after` is the roster `before` with `news` noted for every
/// player, and nothing else changed.
pub open spec fn roster_told(
    before: Seq<Option<Client>>,
    after: Seq<Option<Client>>,
    news: Map<(RoomCoordinates, Position), u8>,
) -> bool {
    &&& after.len() == before.len()
    &&& forall|n: int|
        0 <= n < before.len() ==> match #[trigger] before[n] {
            Some(c) => after[n] matches Some(d) && d@ == (ClientView {
                cached_tiles: d.cached_tiles@,
                ..c@
            }) && cache_told(c.cached_tiles@, d.cached_tiles@, news),
            None => after[n] is None,
        }
}

/// The cache after each of the changes `entries` was noted, one after the
/// other.
pub open spec fn cache_put_all(cache: Seq<CachedTile>, entries: Seq<CachedTile>) -> Seq<CachedTile>
    decreases entries.len(),
{
    if entries.len() == 0 {
        cache
    } else {
        cache_put(cache_put_all(cache, entries.drop_last()), entries.last())
    }
}

/// Whether `after` is the roster `before` with the changes `entries` noted
/// for every player, one after the other, and nothing else changed.
pub open spec fn roster_noted_all(
    before: Seq<Option<Client>>,
    after: Seq<Option<Client>>,
    entries: Seq<CachedTile>,
) -> bool {
    &&& after.len() == before.len()
    &&& forall|n: int|
        0 <= n < before.len() ==> match #[trigger] before[n] {
            Some(c) => after[n] matches Some(d) && d@ == (ClientView {
                cached_tiles: cache_put_all(c.cached_tiles@, entries),
                ..c@
            }),
            None => after[n] is None,
        }
}

/// A roster for which news was noted, and then one more change, is one for
/// which the news with that change was noted.
proof fn lemma_told_step(
    before: Seq<Option<Client>>,
    mid: Seq<Option<Client>>,
    after: Seq<Option<Client>>,
    news: Map<(RoomCoordinates, Position), u8>,
    entry: CachedTile,
)
    requires
        roster_told(before, mid, news),
        roster_noted(mid, after, entry),
    ensures
        roster_told(before, after, news.insert((entry.room, entry.position), entry.tile)),
{
    let more = news.insert((entry.room, entry.position), entry.tile);
    assert forall|n: int| 0 <= n < before.len() implies match #[trigger] before[n] {
        Some(c) => after[n] matches Some(d) && d@ == (ClientView {
            cached_tiles: d.cached_tiles@,
            ..c@
        }) && cache_told(c.cached_tiles@, d.cached_tiles@, more),
        None => after[n] is None,
    } by {
        match before[n] {
            Some(c) => {
                assert(mid[n] is Some);
                let m = mid[n].unwrap();
                let d = after[n].unwrap();
                assert(cache_told(c.cached_tiles@, m.cached_tiles@, news));
                lemma_cache_put(m.cached_tiles@, entry);
                assert forall|room: RoomCoordinates, position: Position|
                    #[trigger] cached_tile(d.cached_tiles@, room, position) == if more.contains_key(
                        (room, position),
                    ) {
                        Some(more[(room, position)])
                    } else {
                        cached_tile(c.cached_tiles@, room, position)
                    } by {
                    if is_change_of(entry, room, position) {
                    } else {
                        assert(cached_tile(d.cached_tiles@, room, position) == cached_tile(
                            m.cached_tiles@,
                            room,
                            position,
                        ));
                        assert((room, position) != (entry.room, entry.position));
                    }
                }
            },
            None => {
                assert(mid[n] is None);
            },
        }
    }
}

/// A roster for which changes were noted, and then one more, is one for
/// which all of them were noted.
proof fn lemma_noted_all_step(
    before: Seq<Option<Client>>,
    mid: Seq<Option<Client>>,
    after: Seq<Option<Client>>,
    entries: Seq<CachedTile>,
    entry: CachedTile,
)
    requires
        roster_noted_all(before, mid, entries),
        roster_noted(mid, after, entry),
    ensures
        roster_noted_all(before, after, entries.push(entry)),
{
    assert(entries.push(entry).drop_last() =~= entries);
    assert forall|n: int| 0 <= n < before.len() implies match #[trigger] before[n] {
        Some(c) => after[n] matches Some(d) && d@ == (ClientView {
            cached_tiles: cache_put_all(c.cached_tiles@, entries.push(entry)),
            ..c@
        }),
        None => after[n] is None,
    } by {
        match before[n] {
            Some(c) => {
                assert(mid[n] is Some);
                let m = mid[n].unwrap();
                assert(m.cached_tiles@ == cache_put_all(c.cached_tiles@, entries));
            },
            None => {
                assert(mid[n] is None);
            },
        }
    }
}

/// The changes that an update of the tile at `pos` notes: one for each room
/// in which the tile changed, in the order of the rooms, with what the tile
/// has become.
pub open spec fn update_entries(
    before: WorldMap,
    after: WorldMap,
    pos: Position,
    valid: Seq<u8>,
) -> Seq<CachedTile> {
    before.affected_inbounds_rooms(pos).filter(
        |coords: RoomCoordinates| valid.contains(before.spec_tile(pos, coords)),
    ).map_values(
        |coords: RoomCoordinates|
            CachedTile { room: coords, position: pos, tile: after.spec_tile(pos, coords) },
    )
}

/// Whether the tile at `pos` of the room at `coords` is one that an update
/// of the tiles `valid` changes: the room is loaded and holds the position,
/// and the tile is one of `valid`.
pub open spec fn tile_updates(
    map: WorldMap,
    pos: Position,
    coords: RoomCoordinates,
    valid: Seq<u8>,
) -> bool {
    &&& map.affected_inbounds_rooms(pos).contains(coords)
    &&& valid.contains(map.spec_tile(pos, coords))
}

/// The news of an update of the tile at `pos`: what the tile has become in
/// each room in which it changed.
pub open spec fn update_news(
    before: WorldMap,
    after: WorldMap,
    pos: Position,
    valid: Seq<u8>,
) -> Map<(RoomCoordinates, Position), u8> {
    Map::new(
        |k: (RoomCoordinates, Position)| k.1 == pos && tile_updates(before, pos, k.0, valid),
        |k: (RoomCoordinates, Position)| after.spec_tile(pos, k.0),
    )
}

/// The loaded rooms that hold a position are listed once each.
pub proof fn lemma_inbounds_rooms_distinct(map: WorldMap, pos: Position)
    ensures
        map.affected_inbounds_rooms(pos).no_duplicates(),
        map.affected_inbounds_rooms(pos).len() <= 4,
{
    let holds = |coords: RoomCoordinates|
        map.rooms@.contains_key(coords) && pos.is_in_room(coords);
    lemma_affected_rooms_distinct(pos);
    lemma_filter_distinct(pos.affected_rooms(), holds);
    pos.affected_rooms().lemma_filter_len(holds);
}

/// What is left of a list without repetition when some of its items are
/// taken out is without repetition.
proof fn lemma_filter_distinct<A>(s: Seq<A>, keep: spec_fn(A) -> bool)
    requires
        s.no_duplicates(),
    ensures
        s.filter(keep).no_duplicates(),
    decreases s.len(),
{
    reveal(Seq::filter);
    if s.len() > 0 {
        let rest = s.drop_last();
        lemma_filter_distinct(rest, keep);
        if keep(s.last()) {
            if rest.filter(keep).contains(s.last()) {
                rest.lemma_filter_contains_rev(keep, s.last());
                let j = choose|j: int| 0 <= j < rest.len() && rest[j] == s.last();
                assert(s[j] == s[s.len() - 1]);
            }
            let kept = rest.filter(keep);
            assert forall|i: int, j: int|
                0 <= i < kept.push(s.last()).len() && 0 <= j < kept.push(s.last()).len() && i
                    != j implies kept.push(s.last())[i] != kept.push(s.last())[j] by {
                if i < kept.len() && j < kept.len() {
                } else if i < kept.len() {
                    assert(kept.contains(kept[i]));
                } else {
                    assert(kept.contains(kept[j]));
                }
            }
        }
    }
}

impl SoaprunServer {
    /// The world hangs together: its map is well formed, the entities tick
    /// every ten milliseconds, every entity and every player is well formed,
    /// each player holds its items rightly, and the players with a shield
    /// are counted.
    pub open spec fn wf(&self) -> bool {
        &&& self.map.wf()
        &&& self.entity_update_rate == ENTITY_UPDATE_RATE
        &&& entities_wf(self.entities@)
        &&& roster_wf(self.players@, self.entities@)
        &&& self.players_with_shield == shield_holders(self.players@)
    }

    /// Whether this world is `before` with nothing changed but tiles of
    /// loaded rooms and what the players are still to be told.
    pub open spec fn same_but_tiles(&self, before: &SoaprunServer) -> bool {
        &&& self.map.default_room == before.map.default_room
        &&& self.map.map_attributes == before.map.map_attributes
        &&& self.map.rooms.coordinates@ == before.map.rooms.coordinates@
        &&& self.map.rooms@.dom() == before.map.rooms@.dom()
        &&& self.players_with_shield == before.players_with_shield
        &&& self.entity_update_rate == before.entity_update_rate
        &&& self.entities@ == before.entities@
        &&& self.connection_timeout == before.connection_timeout
        &&& self.idle_timeout == before.idle_timeout
        &&& self.limits == before.limits
    }

    /// The tile at `pos` as the room at `room` has it, or an error where that
    /// room does not hold the position.
    pub fn get_tile(&self, pos: &Position, room: &RoomCoordinates) -> (r: Result<u8, ()>)
        ensures
            r is Ok <==> pos.is_in_room(*room),
            r is Ok ==> r.unwrap() == self.map.spec_tile(*pos, *room),
    {
        self.map.get_tile(pos, room)
    }

    /// The type of the tile at `pos` as the room at `room` has it, or an
    /// error where that room does not hold the position.
    pub fn get_tile_type(&self, pos: &Position, room: &RoomCoordinates) -> (r: Result<u8, ()>)
        requires
            self.wf(),
        ensures
            r is Ok <==> pos.is_in_room(*room),
            r is Ok ==> r.unwrap() == self.map.spec_tile_type(*pos, *room),
    {
        self.map.get_tile_type(pos, room)
    }

    /// The tiles at `pos` as the loaded rooms have it that hold it.
    pub fn get_tiles(&self, pos: Position) -> (r: Vec<u8>)
        ensures
            r@ == self.map.affected_inbounds_rooms(pos).map_values(
                |coords: RoomCoordinates| self.map.spec_tile(pos, coords),
            ),
    {
        self.map.get_tiles(pos)
    }

    /// The types of the tiles at `pos` as the loaded rooms have it that
    /// hold it.
    pub fn get_tile_types(&self, pos: Position) -> (r: Vec<u8>)
        requires
            self.wf(),
        ensures
            r@ == self.map.affected_inbounds_rooms(pos).map_values(
                |coords: RoomCoordinates| self.map.spec_tile_type(pos, coords),
            ),
    {
        self.map.get_tile_types(pos)
    }

    /// The loaded rooms that hold `pos`.
    pub fn get_affected_inbounds_rooms(&self, pos: &Position) -> (r: Vec<RoomCoordinates>)
        ensures
            r@ == self.map.affected_inbounds_rooms(*pos),
    {
        self.map.get_affected_inbounds_rooms(pos)
    }

    /// Whether this world is `before` after the tile at `pos` was changed,
    /// in `count` rooms: in each loaded room that holds the position and had
    /// one of the tiles `valid` there, the tile is one that `change` allows
    /// in the place of the old one, and every player is owed the news;
    /// nothing else has changed.
    pub open spec fn tiles_changed(
        &self,
        before: &SoaprunServer,
        pos: Position,
        valid: Seq<u8>,
        count: usize,
        change: spec_fn(u8, u8) -> bool,
    ) -> bool {
        &&& self.same_but_tiles(before)
        &&& count == before.map.affected_inbounds_rooms(pos).filter(
            |coords: RoomCoordinates| valid.contains(before.map.spec_tile(pos, coords)),
        ).len()
        &&& forall|coords: RoomCoordinates| #[trigger]
            before.map.rooms@.contains_key(coords) ==> if tile_updates(
                before.map,
                pos,
                coords,
                valid,
            ) {
                &&& change(before.map.spec_tile(pos, coords), self.map.spec_tile(pos, coords))
                &&& self.map.rooms@[coords].data@ == before.map.rooms@[coords].data@.update(
                    pos.spec_to_index(coords),
                    self.map.spec_tile(pos, coords),
                )
            } else {
                self.map.rooms@[coords] == before.map.rooms@[coords]
            }
        &&& roster_told(
            before.players@,
            self.players@,
            update_news(before.map, self.map, pos, valid),
        )
        &&& roster_noted_all(
            before.players@,
            self.players@,
            update_entries(before.map, self.map, pos, valid),
        )
    }

    /// Whether this world is `before` after a corpse was left at `pos`,
    /// which marked the tile in `count` rooms: a tile on which a corpse can
    /// lie carries the mark of the corpse.
    pub open spec fn corpse_left(&self, before: &SoaprunServer, pos: Position, count: usize) -> bool {
        self.tiles_changed(before, pos, MAKE_CORPSE_TILES@, count, |t: u8, n: u8| n == t + 16)
    }

    /// Whether this world is `before` after a corpse was wiped away at
    /// `pos`, which changed the tile in `count` rooms: a tile that carried
    /// a corpse has lost the mark of it.
    pub open spec fn corpse_wiped(&self, before: &SoaprunServer, pos: Position, count: usize) -> bool {
        self.tiles_changed(
            before,
            pos,
            REMOVE_CORPSE_TILES@,
            count,
            |t: u8, n: u8| n == t - 16,
        )
    }

    /// Whether this world is `before` after `tile` was drawn at `pos`, which
    /// changed the tile in `count` rooms: where `tile` can be drawn, a tile
    /// that can be drawn over has become `tile`, with the mark of the corpse
    /// that lay on it; else nothing has changed.
    pub open spec fn drawn(
        &self,
        before: &SoaprunServer,
        pos: Position,
        tile: u8,
        count: usize,
    ) -> bool {
        if DRAW_TILES@.contains(tile) {
            self.tiles_changed(before, pos, CANVAS_TILES@, count, |t: u8, n: u8| n == (t & 16) | tile)
        } else {
            &&& count == 0
            &&& self.same_but_tiles(before)
            &&& self.map.rooms@ == before.map.rooms@
            &&& self.players@ == before.players@
        }
    }

    /// Changes the tile at `pos` by `f` in each loaded room that holds the
    /// position and has one of `valid_tiles` there, notes the change for
    /// every player, and says in how many rooms the tile changed.
    #[verifier::loop_isolation(false)]
    #[verifier::rlimit(40)]
    pub fn try_update_tile<F: Fn(u8) -> u8>(
        &mut self,
        pos: &Position,
        valid_tiles: &[u8],
        f: F,
    ) -> (count: usize)
        requires
            old(self).wf(),
            forall|t: u8| valid_tiles@.contains(t) ==> f.requires((t,)),
        ensures
            final(self).wf(),
            final(self).tiles_changed(
                old(self),
                *pos,
                valid_tiles@,
                count,
                |t: u8, n: u8| f.ensures((t,), n),
            ),
    {
        let rooms = self.map.get_affected_inbounds_rooms(pos);
        let ghost valid = |coords: RoomCoordinates|
            valid_tiles@.contains(old(self).map.spec_tile(*pos, coords));
        let ghost mut news: Map<(RoomCoordinates, Position), u8> = Map::empty();
        let ghost mut entries: Seq<CachedTile> = Seq::empty();
        let mut count: usize = 0;
        let mut i: usize = 0;
        proof {
            lemma_inbounds_rooms_distinct(old(self).map, *pos);
            assert(rooms@.take(0) =~= Seq::<RoomCoordinates>::empty());
            assert forall|n: int| 0 <= n < self.players@.len() implies match #[trigger] self.players@[n] {
                Some(c) => cache_told(c.cached_tiles@, c.cached_tiles@, news),
                None => true,
            } by {}
        }
        while i < rooms.len()
            invariant
                i <= rooms.len(),
                rooms@ == old(self).map.affected_inbounds_rooms(*pos),
                rooms@.no_duplicates(),
                self.wf(),
                self.same_but_tiles(old(self)),
                count == rooms@.take(i as int).filter(valid).len(),
                count <= i,
                forall|coords: RoomCoordinates| #[trigger]
                    old(self).map.rooms@.contains_key(coords) ==> if rooms@.take(i as int).contains(
                        coords,
                    ) && valid(coords) {
                        &&& f.ensures(
                            (old(self).map.spec_tile(*pos, coords),),
                            self.map.spec_tile(*pos, coords),
                        )
                        &&& self.map.rooms@[coords].data@ == old(self).map.rooms@[coords].data@.update(
                            pos.spec_to_index(coords),
                            self.map.spec_tile(*pos, coords),
                        )
                    } else {
                        self.map.rooms@[coords] == old(self).map.rooms@[coords]
                    },
                forall|k: (RoomCoordinates, Position)|
                    news.contains_key(k) <==> k.1 == *pos && rooms@.take(i as int).contains(k.0)
                        && valid(k.0),
                forall|k: (RoomCoordinates, Position)| #[trigger]
                    news.contains_key(k) ==> news[k] == self.map.spec_tile(*pos, k.0),
                roster_told(old(self).players@, self.players@, news),
                roster_noted_all(old(self).players@, self.players@, entries),
                entries.len() == count,
                forall|j: int|
                    0 <= j < count ==> #[trigger] entries[j] == (CachedTile {
                        room: rooms@.take(i as int).filter(valid)[j],
                        position: *pos,
                        tile: self.map.spec_tile(*pos, rooms@.take(i as int).filter(valid)[j]),
                    }),
            decreases rooms.len() - i,
        {
            let coords = rooms[i];
            proof {
                lemma_inbounds_rooms_hold(old(self).map, *pos, i as int);
                assert(rooms@.take(i + 1).drop_last() =~= rooms@.take(i as int));
                assert(rooms@.take(i + 1).last() == coords);
                reveal(Seq::filter);
                assert(!rooms@.take(i as int).contains(coords));
                let seen = rooms@.take(i as int);
                let next = rooms@.take(i + 1);
                assert forall|j: int| 0 <= j < count implies seen.filter(valid)[j] != coords by {
                    assert(seen.filter(valid).contains(seen.filter(valid)[j]));
                    seen.lemma_filter_contains_rev(valid, seen.filter(valid)[j]);
                }
                assert forall|c: RoomCoordinates|
                    next.contains(c) <==> seen.contains(c) || c == coords by {
                    if seen.contains(c) {
                        let j = choose|j: int| 0 <= j < seen.len() && seen[j] == c;
                        assert(next[j] == c);
                    }
                    if c == coords {
                        assert(next[i as int] == c);
                    }
                    if next.contains(c) {
                        let j = choose|j: int| 0 <= j < next.len() && next[j] == c;
                        if j < i {
                            assert(seen[j] == c);
                        }
                    }
                }
            }
            let index = match pos.to_index(&coords) {
                Ok(index) => index,
                Err(_) => 0,
            };
            let tile = match self.map.rooms.get(&coords) {
                Some(room) => room.data[index],
                None => 0,
            };
            assert(tile == old(self).map.spec_tile(*pos, coords));
            if tiles_contain(valid_tiles, tile) {
                let new_val = f(tile);
                let ghost before_map = self.map;
                let ghost before_players = self.players@;
                let ghost before_news = news;
                self.map.rooms.set_tile(&coords, index, new_val);
                let entry = CachedTile { room: coords, position: *pos, tile: new_val };
                note_change(&mut self.players, entry, Ghost(self.entities@));
                proof {
                    lemma_told_step(old(self).players@, before_players, self.players@, news, entry);
                    lemma_noted_all_step(
                        old(self).players@,
                        before_players,
                        self.players@,
                        entries,
                        entry,
                    );
                    news = news.insert((coords, *pos), new_val);
                    entries = entries.push(entry);
                    assert(self.map.rooms@[coords].data@[index as int] == new_val);
                    assert(self.map.spec_tile(*pos, coords) == new_val);
                }
                count = count + 1;
            }
            i = i + 1;
        }
        proof {
            assert(rooms@.take(rooms@.len() as int) =~= rooms@);
            let told = update_news(old(self).map, self.map, *pos, valid_tiles@);
            assert forall|k: (RoomCoordinates, Position)| told.contains_key(k) == news.contains_key(
                k,
            ) by {
                assert(valid(k.0) == valid_tiles@.contains(old(self).map.spec_tile(*pos, k.0)));
            }
            assert forall|k: (RoomCoordinates, Position)| told.contains_key(k) implies told[k]
                == news[k] by {}
            assert(told =~= news);
            let listed = update_entries(old(self).map, self.map, *pos, valid_tiles@);
            assert(listed.len() == entries.len());
            assert forall|j: int| 0 <= j < entries.len() implies listed[j] == entries[j] by {}
            assert(listed =~= entries);
        }
        count
    }

    /// Leaves a corpse on the tile at `pos`, where a corpse can lie, and
    /// says in how many rooms the tile changed.
    pub fn try_spawn_corpse(&mut self, pos: &Position) -> (count: usize)
        requires
            old(self).wf(),
        ensures
            final(self).wf(),
            final(self).corpse_left(old(self), *pos, count),
    {
        assert(forall|t: u8| MAKE_CORPSE_TILES@.contains(t) ==> t <= 15);
        let mark = |b: u8| -> (n: u8)
            requires
                b <= 15,
            ensures
                n == b + 16,
            { b + 16 };
        self.try_update_tile(pos, MAKE_CORPSE_TILES.as_slice(), mark)
    }

    /// Draws `tile` on the tile at `pos`, where `tile` can be drawn and the
    /// tile can be drawn over, keeping the mark of a corpse that lies there,
    /// and says in how many rooms the tile changed.
    pub fn try_draw_on_field(&mut self, pos: &Position, tile: u8) -> (count: usize)
        requires
            old(self).wf(),
        ensures
            final(self).wf(),
            final(self).drawn(old(self), *pos, tile, count),
    {
        if !tiles_contain(DRAW_TILES.as_slice(), tile) {
            return 0;
        }
        let draw = |t: u8| -> (n: u8)
            ensures
                n == (t & 16) | tile,
            { (t & 16) | tile };
        self.try_update_tile(pos, CANVAS_TILES.as_slice(), draw)
    }
}


/// Why a world cannot be set up.
#[derive(Debug)]
pub enum NewServerError {
    /// The rooms cannot be loaded.
    LoadRoomError(LoadRoomError),
    /// A room does not fit one of its neighbours; the words say which.
    RoomVerificationError(String),
    /// The table of the tiles' types cannot be used.
    MapAttributesError(MapAttributesError),
}

/// A roster of `count` free numbers.
fn empty_roster(count: usize) -> (r: Vec<Option<Client>>)
    ensures
        r@.len() == count,
        forall|n: int| 0 <= n < count ==> #[trigger] r@[n] is None,
        shield_holders(r@) == 0,
{
    let mut players: Vec<Option<Client>> = Vec::new();
    let mut n: usize = 0;
    while n < count
        invariant
            n <= count,
            players@.len() == n,
            forall|m: int| 0 <= m < n ==> #[trigger] players@[m] is None,
            shield_holders(players@) == 0,
        decreases count - n,
    {
        let ghost before = players@;
        players.push(None);
        assert(players@.drop_last() =~= before);
        n = n + 1;
    }
    players
}

impl SoaprunServer {
    /// Whether the world is one that was just set up after `config`, with
    /// the given tiles and entities: no player is in it.
    pub open spec fn fresh(
        &self,
        config: &ServerConfig,
        rooms: RoomMap,
        default_room: Room,
        map_attributes: MapAttributes,
        entity_defs: Seq<EntityInitInfo>,
    ) -> bool {
        &&& self.map.rooms == rooms
        &&& self.map.default_room == default_room
        &&& self.map.map_attributes == map_attributes
        &&& self.players_with_shield == 0
        &&& self.entity_update_rate == ENTITY_UPDATE_RATE
        &&& self.entities@.len() == entity_defs.len()
        &&& forall|i: int|
            0 <= i < entity_defs.len() ==> (#[trigger] self.entities@[i])@
                == entity_defs[i].entity()
        &&& self.connection_timeout == config.connection_timeout
        &&& self.idle_timeout == config.idle_timeout
        &&& self.limits == (MovementLimits {
            max_player_movement_nodes_per_packet: config.max_player_movement_nodes_per_packet as usize,
            max_player_distance_per_movement_node: config.max_player_distance_per_movement_node as usize,
            max_player_distance_per_packet: config.max_player_distance_per_packet as usize,
        })
        &&& self.players@.len() == config.max_players
        &&& forall|n: int| 0 <= n < self.players@.len() ==> #[trigger] self.players@[n] is None
    }

    /// Sets up a world after `config`, from what the files of the rooms, of
    /// the default room and of the table of the tiles' types hold, with the
    /// entities that are given. Fails where a file of a room gives no room,
    /// where the file of the default room holds no room, where the table
    /// cannot be read or gives some tiles no type, and where a room does not
    /// fit a neighbour against which the configuration has it checked; in
    /// this order.
    pub fn new(
        config: &ServerConfig,
        room_files: &Vec<RoomFile>,
        default_room: &Vec<u8>,
        map_attributes: &Vec<u8>,
        entity_defs: &Vec<EntityInitInfo>,
    ) -> (r: Result<SoaprunServer, NewServerError>)
        ensures
            Self::booted(config, room_files@, default_room@, map_attributes@, entity_defs@, r),
    {
        let rooms = match load_rooms(room_files) {
            Ok(rooms) => rooms,
            Err(e) => {
                return Err(NewServerError::LoadRoomError(e));
            },
        };
        let default_room = match Room::new(default_room) {
            Some(room) => room,
            None => {
                return Err(
                    NewServerError::LoadRoomError(
                        LoadRoomError::NewRoomError("default".to_owned()),
                    ),
                );
            },
        };
        let map_attributes = match MapAttributes::new(map_attributes) {
            Ok(table) => table,
            Err(e) => {
                return Err(NewServerError::MapAttributesError(e));
            },
        };
        let ghost loaded = (rooms, default_room, map_attributes);
        let r = Self::with_rooms(config, rooms, default_room, map_attributes, entity_defs);
        proof {
            assert(Self::set_up(config, loaded.0, loaded.1, loaded.2, entity_defs@, r));
        }
        r
    }

    /// Whether `r` is what comes of setting up a world after `config` from
    /// what the files hold. The first file of a room that gives no room
    /// fails it; then the file of the default room, if it holds no room; then
    /// the table of the tiles' types, if it cannot be read. Else `r` is what
    /// comes of setting up the world with what was read.
    pub open spec fn booted(
        config: &ServerConfig,
        room_files: Seq<RoomFile>,
        default_room: Seq<u8>,
        map_attributes: Seq<u8>,
        entity_defs: Seq<EntityInitInfo>,
        r: Result<SoaprunServer, NewServerError>,
    ) -> bool {
        if exists|i: int| 0 <= i < room_files.len() && !is_room_file(#[trigger] room_files[i]) {
            r matches Err(NewServerError::LoadRoomError(e)) && first_bad_file(room_files, e)
        } else if default_room.len() != 336 {
            r matches Err(NewServerError::LoadRoomError(LoadRoomError::NewRoomError(name)))
                && name@ == "default"@
        } else {
            match MapAttributes::parse(map_attributes) {
                Err(refused) => r matches Err(NewServerError::MapAttributesError(e)) && e
                    == refused,
                Ok(read) => exists|rooms: RoomMap, room: Room, table: MapAttributes|
                    {
                        &&& rooms_given(room_files, &rooms)
                        &&& room.data@ == default_room
                        &&& read == (table.width, table.height, table.attributes@)
                        &&& #[trigger] Self::set_up(config, rooms, room, table, entity_defs, r)
                    },
            }
        }
    }

    /// Whether `r` is what comes of setting up a world after `config` with
    /// the given rooms, default room, table of the tiles' types and
    /// entities: the world, or why there is none.
    pub open spec fn set_up(
        config: &ServerConfig,
        rooms: RoomMap,
        default_room: Room,
        map_attributes: MapAttributes,
        entity_defs: Seq<EntityInitInfo>,
        r: Result<SoaprunServer, NewServerError>,
    ) -> bool {
        match r {
            Ok(server) => {
                &&& server.wf()
                &&& server.fresh(config, rooms, default_room, map_attributes, entity_defs)
                &&& map_attributes.covers_tiles()
                &&& rooms_fit(
                    rooms@,
                    default_room,
                    config.room_verification_bounds,
                    Self::compared_by(config.room_verification_mode, &map_attributes),
                )
            },
            Err(NewServerError::MapAttributesError(e)) => {
                &&& !map_attributes.covers_tiles()
                &&& e == MapAttributesError::Incomplete
            },
            Err(NewServerError::RoomVerificationError(message)) => {
                &&& map_attributes.covers_tiles()
                &&& !rooms_fit(
                    rooms@,
                    default_room,
                    config.room_verification_bounds,
                    Self::compared_by(config.room_verification_mode, &map_attributes),
                )
                &&& names_first_mismatch(
                    &rooms,
                    default_room,
                    config.room_verification_bounds,
                    Self::compared_by(config.room_verification_mode, &map_attributes),
                    message@,
                )
            },
            Err(NewServerError::LoadRoomError(_)) => false,
        }
    }

    /// Sets up a world after `config`, with the rooms, the default room and
    /// the table of the tiles' types that were loaded and with the entities
    /// that are given. Fails where the table gives some tiles no type, and
    /// where a room does not fit a neighbour against which the configuration
    /// has it checked.
    pub fn with_rooms(
        config: &ServerConfig,
        rooms: RoomMap,
        default_room: Room,
        map_attributes: MapAttributes,
        entity_defs: &Vec<EntityInitInfo>,
    ) -> (r: Result<SoaprunServer, NewServerError>)
        requires
            rooms.wf(),
        ensures
            Self::set_up(config, rooms, default_room, map_attributes, entity_defs@, r),
    {
        if map_attributes.attributes.len() < TILE_VALUES {
            return Err(
                NewServerError::MapAttributesError(
                    MapAttributesError::Incomplete,
                ),
            );
        }
        let verified = verify_rooms(
            &rooms,
            &default_room,
            &config.room_verification_bounds,
            match config.room_verification_mode {
                RoomVerificationModes::Tiles => None,
                RoomVerificationModes::TileTypes => Some(&map_attributes),
            },
        );
        match verified {
            Ok(_) => {},
            Err(message) => {
                return Err(NewServerError::RoomVerificationError(message));
            },
        }
        let entities = load_entities(entity_defs);
        let players = empty_roster(config.max_players as usize);
        Ok(
            SoaprunServer {
                map: WorldMap { rooms, default_room, map_attributes },
                players_with_shield: 0,
                entity_update_rate: ENTITY_UPDATE_RATE,
                entities,
                connection_timeout: config.connection_timeout,
                idle_timeout: config.idle_timeout,
                limits: MovementLimits {
                    max_player_movement_nodes_per_packet: config.max_player_movement_nodes_per_packet as usize,
                    max_player_distance_per_movement_node: config.max_player_distance_per_movement_node as usize,
                    max_player_distance_per_packet: config.max_player_distance_per_packet as usize,
                },
                players,
            },
        )
    }

    /// The table by which the tiles of two rooms are compared, if they are
    /// compared by their types.
    pub open spec fn compared_by(
        mode: RoomVerificationModes,
        map_attributes: &MapAttributes,
    ) -> Option<&MapAttributes> {
        match mode {
            RoomVerificationModes::Tiles => None,
            RoomVerificationModes::TileTypes => Some(map_attributes),
        }
    }
}

} // verus!

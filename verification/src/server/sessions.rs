use vstd::prelude::*;

use super::clients::{
    entities_with, Client, ClientView, MovementLimits, MovementValidationErrors,
};
use super::rooms::WorldMap;
use super::entities::Entity;
use super::handlers::{lemma_fewer_items_apart, lemma_player_changed};
use super::{SoaprunServer, PROTOCOL_NAME, PROTOCOL_VERSION};
use crate::soaprun::packets::{
    soaprunners_view,
    units_view,
    ClientPackets,
    ClientPacketsView,
    ServerPackets,
    ServerPacketsView,
    Weather,
    CLIENT_MAX_ENTITIES,
    CLIENT_MAX_PLAYERS,
};
use crate::soaprun::position::Position;
use crate::soaprun::rooms::RoomCoordinates;
use crate::soaprun::soaprunners::{
    Soaprunner, SoaprunnerColors, SoaprunnerItems, SoaprunnerSprites, SoaprunnerView,
};
use crate::soaprun::units::{Unit, UnitView};

verus! {

/// The weather under as many shields: it rains as soon as a player holds one.
pub open spec fn weather_for(players_with_shield: usize) -> Weather {
    if players_with_shield == 0 {
        Weather::Clear
    } else {
        Weather::Rainy
    }
}

/// The players under the numbers below `upto`, but the one under `num`,
/// each with its number, in the order of the numbers.
pub open spec fn others_upto(players: Seq<Option<Client>>, num: int, upto: int) -> Seq<
    (usize, SoaprunnerView),
>
    decreases upto,
{
    if upto <= 0 {
        Seq::empty()
    } else {
        let rest = others_upto(players, num, upto - 1);
        match players[upto - 1] {
            Some(c) => if upto - 1 != num {
                rest.push(((upto - 1) as usize, c.soaprunner@))
            } else {
                rest
            },
            None => rest,
        }
    }
}

/// The first `n` items of a list, or all of them where it holds no more.
pub open spec fn first_n<A>(s: Seq<A>, n: int) -> Seq<A> {
    if s.len() > n {
        s.take(n)
    } else {
        s
    }
}

/// The entities under the numbers below `upto`, each with its number.
pub open spec fn units_upto(entities: Seq<Entity>, upto: int) -> Seq<(usize, UnitView)> {
    Seq::new(upto as nat, |i: int| (i as usize, entities[i].unit@))
}

/// The color that a player gets who asks for the color `code` and has the
/// color `current`: the color that the code stands for, or the one it has.
pub open spec fn spec_color_for(code: u8, current: SoaprunnerColors) -> SoaprunnerColors {
    if code == 0 {
        SoaprunnerColors::Green
    } else if code == 1 {
        SoaprunnerColors::Pink
    } else if code == 2 {
        SoaprunnerColors::Blue
    } else if code == 3 {
        SoaprunnerColors::Yellow
    } else {
        current
    }
}

impl ClientView {
    /// The player after its movement along `movements` was judged: moved
    /// where the movement is accepted, and dying where it is refused.
    pub open spec fn judged(
        self,
        map: WorldMap,
        limits: MovementLimits,
        movements: Seq<Position>,
    ) -> ClientView {
        let moved = self.after_movement(map, limits, movements);
        if self.movement_result(map, limits, movements) is Err {
            moved.with_sprite(SoaprunnerSprites::Dying)
        } else {
            moved
        }
    }

    /// The player in the given color.
    pub open spec fn with_color(self, color: SoaprunnerColors) -> ClientView {
        ClientView { soaprunner: SoaprunnerView { color, ..self.soaprunner }, ..self }
    }

    /// The player after it left a corpse.
    pub open spec fn with_corpse(self) -> ClientView {
        ClientView { has_made_corpse: true, ..self }
    }
}

impl SoaprunServer {
    /// The players that a snapshot for the player under `num` lists: the
    /// others, in the order of their numbers, as many as a client takes.
    pub open spec fn snapshot_players(&self, num: usize) -> Seq<(usize, SoaprunnerView)> {
        first_n(
            others_upto(self.players@, num as int, self.players@.len() as int),
            CLIENT_MAX_PLAYERS as int,
        )
    }

    /// The entities that a snapshot lists: as many as a client takes.
    pub open spec fn snapshot_entities(&self) -> Seq<(usize, UnitView)> {
        units_upto(
            self.entities@,
            if self.entities@.len() > CLIENT_MAX_ENTITIES {
                CLIENT_MAX_ENTITIES as int
            } else {
                self.entities@.len() as int
            },
        )
    }

    /// Whether this world is `before` after the movement of the player under
    /// `num` along `movements` was judged and the player was sent the
    /// snapshot `packet`: the player has moved or is dying; the snapshot
    /// shows the player as it is then, the weather, which is rainy as soon as
    /// a player holds a shield, the other players, the entities, and the
    /// changes of the tiles of the rooms that hold the player, which the
    /// player is not owed any longer.
    pub open spec fn fields_sent(
        &self,
        before: &SoaprunServer,
        num: usize,
        movements: Seq<Position>,
        packet: ServerPacketsView,
        result: Result<usize, MovementValidationErrors>,
    ) -> bool {
        let c = before.player(num).judged(before.map, before.limits, movements);
        &&& self.same_but_player(before, num)
        &&& self.has_player(num)
        &&& self.entities@ == before.entities@
        &&& self.players_with_shield == before.players_with_shield
        &&& result == before.player(num).movement_result(before.map, before.limits, movements)
        &&& self.player(num) == c.after_telling()
        &&& packet == (ServerPacketsView::Fields {
            client_state: c.soaprunner.sprite,
            client_color: c.soaprunner.color,
            client_items: c.soaprunner.items,
            weather: weather_for(before.players_with_shield),
            soaprunners: before.snapshot_players(num),
            entities: before.snapshot_entities(),
            tiles: c.told_tiles(),
        })
    }

    fn copy_players(&self, num: usize) -> (r: Vec<(usize, Soaprunner)>)
        ensures
            soaprunners_view(r@) == self.snapshot_players(num),
    {
        let mut list: Vec<(usize, Soaprunner)> = Vec::new();
        let mut n: usize = 0;
        assert(soaprunners_view(list@) =~= Seq::<(usize, SoaprunnerView)>::empty());
        while n < self.players.len()
            invariant
                n <= self.players.len(),
                soaprunners_view(list@) == first_n(
                    others_upto(self.players@, num as int, n as int),
                    CLIENT_MAX_PLAYERS as int,
                ),
                list@.len() <= CLIENT_MAX_PLAYERS,
                list@.len() < CLIENT_MAX_PLAYERS ==> list@.len() == others_upto(
                    self.players@,
                    num as int,
                    n as int,
                ).len(),
                list@.len() <= others_upto(self.players@, num as int, n as int).len(),
            decreases self.players.len() - n,
        {
            let ghost before = list@;
            let ghost seen = others_upto(self.players@, num as int, n as int);
            match &self.players[n] {
                Some(c) => {
                    if n != num && list.len() < CLIENT_MAX_PLAYERS {
                        list.push((n, c.soaprunner.clone()));
                        assert(soaprunners_view(list@) =~= soaprunners_view(before).push(
                            (n, c.soaprunner@),
                        ));
                    } else if n != num {
                        assert(first_n(seen.push((n, c.soaprunner@)), CLIENT_MAX_PLAYERS as int)
                            =~= first_n(seen, CLIENT_MAX_PLAYERS as int));
                    }
                },
                None => {},
            }
            n = n + 1;
        }
        list
    }

    fn copy_entities(&self) -> (r: Vec<(usize, Unit)>)
        ensures
            units_view(r@) == self.snapshot_entities(),
    {
        let mut list: Vec<(usize, Unit)> = Vec::new();
        let mut n: usize = 0;
        while n < self.entities.len() && n < CLIENT_MAX_ENTITIES
            invariant
                n <= self.entities.len(),
                n <= CLIENT_MAX_ENTITIES,
                units_view(list@) =~= units_upto(self.entities@, n as int),
            decreases self.entities.len() - n,
        {
            let ghost before = list@;
            list.push((n, self.entities[n].unit.clone()));
            assert(units_view(list@) =~= units_view(before).push((n, self.entities@[n as int].unit@)));
            n = n + 1;
        }
        list
    }

    /// Judges the movement of the player under `num` along `movements`,
    /// lets the player die where the movement is refused, and makes the
    /// snapshot of the world for the player. Gives the snapshot and the
    /// distance that the player moved, or why the movement was refused.
    pub fn update_client_and_send_fields(&mut self, num: usize, movements: &Vec<Position>) -> (r: (
        ServerPackets<'static>,
        Result<usize, MovementValidationErrors>,
    ))
        requires
            old(self).wf(),
            old(self).has_player(num),
        ensures
            final(self).wf(),
            final(self).fields_sent(old(self), num, movements@, r.0@, r.1),
    {
        let soaprunners = self.copy_players(num);
        let entities = self.copy_entities();
        let weather = if self.players_with_shield == 0 {
            Weather::Clear
        } else {
            Weather::Rainy
        };
        let (result, client_state, client_color, client_items, tiles) = match &mut self.players[num] {
            Some(client) => {
                let result = Client::update_position(client, movements, &self.map, &self.limits);
                if result.is_err() {
                    client.soaprunner.sprite = SoaprunnerSprites::Dying;
                }
                let tiles = client.take_cached_tiles();
                (
                    result,
                    client.soaprunner.sprite,
                    client.soaprunner.color,
                    client.soaprunner.items,
                    tiles,
                )
            },
            None => (
                Ok(0),
                SoaprunnerSprites::Idle,
                SoaprunnerColors::Green,
                SoaprunnerItems::empty(),
                Vec::new(),
            ),
        };
        proof {
            lemma_fewer_items_apart(old(self), num, self.player(num));
            lemma_player_changed(old(self), self, num);
        }
        (
            ServerPackets::Fields {
                client_state,
                client_color,
                client_items,
                weather,
                soaprunners,
                entities,
                tiles,
            },
            result,
        )
    }
}


/// What the server does with a packet of a client.
pub struct Reply<'a> {
    /// The packet to send to the client, if there is one.
    pub packet: Option<ServerPackets<'a>>,
    /// Whether the connection stays open once the packet is sent.
    pub keep_open: bool,
    /// Whether the player has shown that it is there.
    pub active: bool,
}

/// A reply as a plain value.
pub struct ReplyView {
    pub packet: Option<ServerPacketsView>,
    pub keep_open: bool,
    pub active: bool,
}

impl<'a> View for Reply<'a> {
    type V = ReplyView;

    open spec fn view(&self) -> ReplyView {
        ReplyView {
            packet: match self.packet {
                Some(p) => Some(p@),
                None => None,
            },
            keep_open: self.keep_open,
            active: self.active,
        }
    }
}

impl ReplyView {
    /// The reply that sends `packet` and keeps the connection.
    pub open spec fn answer(packet: ServerPacketsView) -> ReplyView {
        ReplyView { packet: Some(packet), keep_open: true, active: false }
    }

    /// The reply that closes the connection without a word.
    pub open spec fn refusal() -> ReplyView {
        ReplyView { packet: None, keep_open: false, active: false }
    }
}

/// The packet with which the server opens a session, before the client has
/// sent any: the only packet that answers none.
pub fn welcome() -> (r: ServerPackets<'static>)
    ensures
        r@ == ServerPacketsView::Welcome,
{
    ServerPackets::Welcome
}

impl SoaprunServer {
    /// Whether this world is `before` but for what the player under `num`
    /// is, which is `player`.
    pub open spec fn player_became(&self, before: &SoaprunServer, num: usize, player: ClientView) -> bool {
        &&& self.same_but_player(before, num)
        &&& self.has_player(num)
        &&& self.player(num) == player
        &&& self.entities@ == before.entities@
        &&& self.players_with_shield == before.players_with_shield
    }

    /// Whether this world is `before` after the player under `num` gave
    /// back the sword that it held.
    pub open spec fn sword_returned(&self, before: &SoaprunServer, num: usize) -> bool {
        let c = before.player(num);
        &&& self.same_but_player(before, num)
        &&& self.has_player(num)
        &&& self.player(num) == c.without_sword()
        &&& self.players_with_shield == before.players_with_shield
        &&& if c.soaprunner.items.sword {
            entities_with(
                before.entities@,
                self.entities@,
                c.claimed_sword.unwrap() as int,
                before.entities@[c.claimed_sword.unwrap() as int]@.returned(),
            )
        } else {
            self.entities@ == before.entities@
        }
    }

    /// Whether this world is `before` after the player under `num` dropped
    /// the shield that it held.
    pub open spec fn shield_dropped(&self, before: &SoaprunServer, num: usize) -> bool {
        let c = before.player(num);
        &&& self.same_but_player(before, num)
        &&& self.has_player(num)
        &&& self.player(num) == c.without_shield()
        &&& if c.soaprunner.items.shield {
            &&& entities_with(
                before.entities@,
                self.entities@,
                c.claimed_shield.unwrap() as int,
                before.entities@[c.claimed_shield.unwrap() as int]@.dropped(
                    Client::landing(
                        before.entities@,
                        c.claimed_shield.unwrap() as int,
                        c.position(),
                    ),
                ),
            )
            &&& self.players_with_shield == before.players_with_shield - 1
        } else {
            &&& self.entities@ == before.entities@
            &&& self.players_with_shield == before.players_with_shield
        }
    }

    /// Whether this world is `before` after the player under `num` went to
    /// heaven: it gave back its sword, dropped its shield and turned into a
    /// ghost.
    pub open spec fn ascended(&self, before: &SoaprunServer, num: usize) -> bool {
        exists|unarmed: SoaprunServer, bare: SoaprunServer|
            {
                &&& unarmed.wf() && bare.wf()
                &&& #[trigger] unarmed.sword_returned(before, num)
                &&& #[trigger] bare.shield_dropped(&unarmed, num)
                &&& self.player_became(
                    &bare,
                    num,
                    bare.player(num).with_sprite(SoaprunnerSprites::Heavenly),
                )
            }
    }

    /// Whether this world is `before` after the player under `num` left:
    /// it gave back its sword and dropped its shield, and its number is free.
    pub open spec fn session_closed(&self, before: &SoaprunServer, num: usize) -> bool {
        exists|unarmed: SoaprunServer, bare: SoaprunServer|
            {
                &&& unarmed.wf() && bare.wf()
                &&& #[trigger] unarmed.sword_returned(before, num)
                &&& #[trigger] bare.shield_dropped(&unarmed, num)
                &&& self.same_but_player(&bare, num)
                &&& self.players@[num as int] is None
                &&& self.entities@ == bare.entities@
                &&& self.players_with_shield == bare.players_with_shield
            }
    }

    /// Whether `reply` is the snapshot for the player under `num` after its
    /// movement along `movements` was judged in the world `mid`, which left
    /// this world. The connection stays open, whether the movement is
    /// accepted or refused: a player whose movement is refused is dying and
    /// goes on from there. The player has shown that it is there where
    /// `shown` says so, or where it has moved.
    pub open spec fn fields_replied(
        &self,
        mid: &SoaprunServer,
        num: usize,
        movements: Seq<Position>,
        reply: ReplyView,
        shown: bool,
    ) -> bool {
        let result = mid.player(num).movement_result(mid.map, mid.limits, movements);
        &&& reply.packet matches Some(p) && self.fields_sent(mid, num, movements, p, result)
        &&& reply.keep_open
        &&& reply.active == (shown || (result matches Ok(t) && t > 0))
    }

    /// Whether this world is `before` after the room at `coords` was sent
    /// to the player under `num` with `reply`: the room as it is loaded, of
    /// which the player is owed no change any longer, or else the default
    /// room.
    pub open spec fn room_sent(
        &self,
        before: &SoaprunServer,
        num: usize,
        coords: RoomCoordinates,
        reply: ReplyView,
    ) -> bool {
        if before.map.rooms@.contains_key(coords) {
            &&& self.player_became(before, num, before.player(num).without_room(coords))
            &&& reply == ReplyView::answer(
                ServerPacketsView::RoomResponse {
                    coords,
                    room: before.map.rooms@[coords].data@,
                },
            )
        } else {
            &&& *self == *before
            &&& reply == ReplyView::answer(
                ServerPacketsView::RoomResponse { coords, room: before.map.default_room.data@ },
            )
        }
    }

    /// Whether this world is `before` after the packet `packet` of the
    /// player under `num` was handled with `reply`.
    ///
    /// Requests for the protocol, the map attributes or a room, connection
    /// tests and debug messages are answered, whatever the player does.
    /// A movement is judged and answered with a snapshot. A player changes
    /// its color or draws only while it walks, runs into an entity or goes
    /// to heaven only while it stands or walks, and leaves a corpse only
    /// while it dies and only once; then it gets a snapshot, or nothing for
    /// the corpse. A packet at another time closes the connection, and so
    /// does a farewell, once it is answered.
    pub open spec fn handled(
        &self,
        before: &SoaprunServer,
        num: usize,
        packet: ClientPacketsView,
        reply: ReplyView,
    ) -> bool {
        match packet {
            ClientPacketsView::ProtocolRequest { game_version } => {
                &&& *self == *before
                &&& reply == ReplyView::answer(
                    ServerPacketsView::Protocol {
                        protocol: PROTOCOL_NAME@,
                        version: PROTOCOL_VERSION,
                    },
                )
            },
            ClientPacketsView::ConnectionTest { data } => {
                &&& *self == *before
                &&& reply == ReplyView::answer(ServerPacketsView::ConnectionTest { data })
            },
            ClientPacketsView::LogDebugMessage { message } => {
                &&& *self == *before
                &&& reply == ReplyView::answer(ServerPacketsView::Void)
            },
            ClientPacketsView::MapAttributeRequest => {
                &&& *self == *before
                &&& reply == ReplyView::answer(
                    ServerPacketsView::MapAttributesResponse {
                        width: before.map.map_attributes.width,
                        height: before.map.map_attributes.height,
                        attributes: before.map.map_attributes.attributes@,
                    },
                )
            },
            ClientPacketsView::RoomRequest { coords } => self.room_sent(before, num, coords, reply),
            ClientPacketsView::Bye => {
                &&& *self == *before
                &&& reply == (ReplyView {
                    packet: Some(ServerPacketsView::Void),
                    keep_open: false,
                    active: false,
                })
            },
            ClientPacketsView::MyPosition { movements } => self.fields_replied(
                before,
                num,
                movements,
                reply,
                false,
            ),
            ClientPacketsView::ChangeColor { color, movements } => self.color_handled(
                before,
                num,
                color,
                movements,
                reply,
            ),
            ClientPacketsView::DrawOnField { position, tile, movements } => self.draw_handled(
                before,
                num,
                position,
                tile,
                movements,
                reply,
            ),
            ClientPacketsView::HitNonPlayerUnit { index, movements } => self.hit_handled(
                before,
                num,
                index,
                movements,
                reply,
            ),
            ClientPacketsView::Heaven { movements } => self.heaven_handled(
                before,
                num,
                movements,
                reply,
            ),
            ClientPacketsView::MakeCorpse { position } => self.corpse_handled(
                before,
                num,
                position,
                reply,
            ),
        }
    }

    /// Whether this world is `before` after the player under `num` asked
    /// for the color `color` and moved along `movements`: a walking player
    /// gets the color and a snapshot, another one is sent away.
    pub open spec fn color_handled(
        &self,
        before: &SoaprunServer,
        num: usize,
        color: u8,
        movements: Seq<Position>,
        reply: ReplyView,
    ) -> bool {
        let c = before.player(num);
        if c.soaprunner.sprite == SoaprunnerSprites::Walking {
            exists|mid: SoaprunServer|
                {
                    &&& mid.wf()
                    &&& #[trigger] mid.player_became(
                        before,
                        num,
                        c.with_color(spec_color_for(color, c.soaprunner.color)),
                    )
                    &&& self.fields_replied(&mid, num, movements, reply, true)
                }
        } else {
            *self == *before && reply == ReplyView::refusal()
        }
    }

    /// Whether this world is `before` after the player under `num` drew
    /// `tile` at `position` and moved along `movements`: for a walking
    /// player the tile is drawn, as far as it can be, and the player gets a
    /// snapshot; another one is sent away.
    pub open spec fn draw_handled(
        &self,
        before: &SoaprunServer,
        num: usize,
        position: Position,
        tile: u8,
        movements: Seq<Position>,
        reply: ReplyView,
    ) -> bool {
        if before.player(num).soaprunner.sprite == SoaprunnerSprites::Walking {
            exists|mid: SoaprunServer, count: usize|
                {
                    &&& mid.wf()
                    &&& #[trigger] mid.drawn(before, position, tile, count)
                    &&& self.fields_replied(&mid, num, movements, reply, true)
                }
        } else {
            *self == *before && reply == ReplyView::refusal()
        }
    }

    /// Whether this world is `before` after the player under `num` said
    /// that it had run into the entity `index` and moved along `movements`:
    /// for a player who stands or walks the collision takes its course, and
    /// the player gets a snapshot; another one is sent away.
    pub open spec fn hit_handled(
        &self,
        before: &SoaprunServer,
        num: usize,
        index: u8,
        movements: Seq<Position>,
        reply: ReplyView,
    ) -> bool {
        if before.player(num).soaprunner.sprite.spec_is_alive() {
            exists|mid: SoaprunServer|
                {
                    &&& mid.wf()
                    &&& #[trigger] mid.collided(before, num, index)
                    &&& self.fields_replied(&mid, num, movements, reply, true)
                }
        } else {
            *self == *before && reply == ReplyView::refusal()
        }
    }

    /// Whether this world is `before` after the player under `num` asked
    /// for heaven and moved along `movements`: a player who stands or walks
    /// goes to heaven and gets a snapshot; another one is sent away.
    pub open spec fn heaven_handled(
        &self,
        before: &SoaprunServer,
        num: usize,
        movements: Seq<Position>,
        reply: ReplyView,
    ) -> bool {
        if before.player(num).soaprunner.sprite.spec_is_alive() {
            exists|mid: SoaprunServer|
                {
                    &&& mid.wf()
                    &&& #[trigger] mid.ascended(before, num)
                    &&& self.fields_replied(&mid, num, movements, reply, true)
                }
        } else {
            *self == *before && reply == ReplyView::refusal()
        }
    }

    /// Whether this world is `before` after the player under `num` asked to
    /// leave a corpse at `position`: a dying player who has left none leaves
    /// one, as far as one can lie there, and is told so; another one is sent
    /// away.
    pub open spec fn corpse_handled(
        &self,
        before: &SoaprunServer,
        num: usize,
        position: Position,
        reply: ReplyView,
    ) -> bool {
        let c = before.player(num);
        if !c.has_made_corpse && c.soaprunner.sprite == SoaprunnerSprites::Dying {
            &&& exists|mid: SoaprunServer, count: usize|
                {
                    &&& mid.wf()
                    &&& #[trigger] mid.player_became(before, num, c.with_corpse())
                    &&& #[trigger] self.corpse_left(&mid, position, count)
                }
            &&& reply == ReplyView::answer(ServerPacketsView::Void)
        } else {
            *self == *before && reply == ReplyView::refusal()
        }
    }

    fn refuse<'a>(&'a mut self) -> (r: Reply<'a>)
        ensures
            *final(self) == *old(self),
            r@ == ReplyView::refusal(),
    {
        Reply { packet: None, keep_open: false, active: false }
    }

    fn reply_fields(&mut self, num: usize, movements: &Vec<Position>, shown: bool) -> (r: Reply<
        'static,
    >)
        requires
            old(self).wf(),
            old(self).has_player(num),
        ensures
            final(self).wf(),
            final(self).fields_replied(old(self), num, movements@, r@, shown),
    {
        let (packet, result) = self.update_client_and_send_fields(num, movements);
        let moved = match result {
            Ok(t) => t > 0,
            Err(_) => false,
        };
        Reply { packet: Some(packet), keep_open: true, active: shown || moved }
    }

    fn sprite_of(&self, num: usize) -> (r: SoaprunnerSprites)
        requires
            self.has_player(num),
        ensures
            r == self.player(num).soaprunner.sprite,
    {
        match &self.players[num] {
            Some(c) => c.soaprunner.sprite,
            None => SoaprunnerSprites::Idle,
        }
    }

    fn send_room<'a>(&'a mut self, num: usize, coords: RoomCoordinates) -> (r: Reply<'a>)
        requires
            old(self).wf(),
            old(self).has_player(num),
        ensures
            final(self).wf(),
            final(self).room_sent(old(self), num, coords, r@),
    {
        if self.map.rooms.contains_key(&coords) {
            match &mut self.players[num] {
                Some(client) => {
                    client.forget_room(coords);
                },
                None => {},
            }
            proof {
                lemma_fewer_items_apart(old(self), num, self.player(num));
                lemma_player_changed(old(self), self, num);
            }
        }
        let room = match self.map.rooms.get(&coords) {
            Some(room) => room,
            None => &self.map.default_room,
        };
        Reply {
            packet: Some(ServerPackets::RoomResponse { coords, room }),
            keep_open: true,
            active: false,
        }
    }

    fn change_color<'a>(&'a mut self, num: usize, color: u8, movements: &Vec<Position>) -> (r: Reply<
        'a,
    >)
        requires
            old(self).wf(),
            old(self).has_player(num),
        ensures
            final(self).wf(),
            final(self).color_handled(old(self), num, color, movements@, r@),
    {
        match self.sprite_of(num) {
            SoaprunnerSprites::Walking => {},
            _ => {
                return self.refuse();
            },
        }
        match &mut self.players[num] {
            Some(client) => {
                client.soaprunner.color = match color {
                    0 => SoaprunnerColors::Green,
                    1 => SoaprunnerColors::Pink,
                    2 => SoaprunnerColors::Blue,
                    3 => SoaprunnerColors::Yellow,
                    _ => client.soaprunner.color,
                };
            },
            None => {},
        }
        proof {
            lemma_fewer_items_apart(old(self), num, self.player(num));
            lemma_player_changed(old(self), self, num);
        }
        let ghost mid = *self;
        let r = self.reply_fields(num, movements, true);
        proof {
            let c = old(self).player(num);
            assert(mid.player_became(
                old(self),
                num,
                c.with_color(spec_color_for(color, c.soaprunner.color)),
            ));
        }
        r
    }

    fn draw<'a>(
        &'a mut self,
        num: usize,
        position: Position,
        tile: u8,
        movements: &Vec<Position>,
    ) -> (r: Reply<'a>)
        requires
            old(self).wf(),
            old(self).has_player(num),
        ensures
            final(self).wf(),
            final(self).draw_handled(old(self), num, position, tile, movements@, r@),
    {
        match self.sprite_of(num) {
            SoaprunnerSprites::Walking => {},
            _ => {
                return self.refuse();
            },
        }
        let count = self.try_draw_on_field(&position, tile);
        let ghost mid = *self;
        assert(mid.has_player(num)) by {
            assert(old(self).players@[num as int] is Some);
        }
        let r = self.reply_fields(num, movements, true);
        proof {
            assert(mid.wf());
            assert(mid.drawn(old(self), position, tile, count));
            assert(self.fields_replied(&mid, num, movements@, r@, true));
        }
        r
    }

    fn hit<'a>(&'a mut self, num: usize, index: u8, movements: &Vec<Position>) -> (r: Reply<'a>)
        requires
            old(self).wf(),
            old(self).has_player(num),
        ensures
            final(self).wf(),
            final(self).hit_handled(old(self), num, index, movements@, r@),
    {
        if !self.sprite_of(num).is_alive() {
            return self.refuse();
        }
        self.handle_collision(num, index);
        let ghost mid = *self;
        let r = self.reply_fields(num, movements, true);
        proof {
            assert(mid.wf());
            assert(mid.collided(old(self), num, index));
            assert(self.fields_replied(&mid, num, movements@, r@, true));
        }
        r
    }

    fn ascend<'a>(&'a mut self, num: usize, movements: &Vec<Position>) -> (r: Reply<'a>)
        requires
            old(self).wf(),
            old(self).has_player(num),
        ensures
            final(self).wf(),
            final(self).heaven_handled(old(self), num, movements@, r@),
    {
        if !self.sprite_of(num).is_alive() {
            return self.refuse();
        }
        self.return_sword(num);
        let ghost unarmed = *self;
        self.drop_shield(num);
        let ghost bare = *self;
        self.set_sprite(num, SoaprunnerSprites::Heavenly);
        let ghost mid = *self;
        proof {
            assert(unarmed.sword_returned(old(self), num));
            assert(bare.shield_dropped(&unarmed, num));
            assert(mid.player_became(
                &bare,
                num,
                bare.player(num).with_sprite(SoaprunnerSprites::Heavenly),
            ));
            assert(mid.ascended(old(self), num));
        }
        self.reply_fields(num, movements, true)
    }

    fn make_corpse<'a>(&'a mut self, num: usize, position: Position) -> (r: Reply<'a>)
        requires
            old(self).wf(),
            old(self).has_player(num),
        ensures
            final(self).wf(),
            final(self).corpse_handled(old(self), num, position, r@),
    {
        let allowed = match &self.players[num] {
            Some(c) => !c.has_made_corpse && (match c.soaprunner.sprite {
                SoaprunnerSprites::Dying => true,
                _ => false,
            }),
            None => false,
        };
        if !allowed {
            return self.refuse();
        }
        match &mut self.players[num] {
            Some(client) => {
                client.has_made_corpse = true;
            },
            None => {},
        }
        proof {
            lemma_fewer_items_apart(old(self), num, self.player(num));
            lemma_player_changed(old(self), self, num);
        }
        let ghost mid = *self;
        let count = self.try_spawn_corpse(&position);
        let r = Reply { packet: Some(ServerPackets::Void), keep_open: true, active: false };
        proof {
            assert(mid.wf());
            assert(mid.player_became(old(self), num, old(self).player(num).with_corpse()));
            assert(self.corpse_left(&mid, position, count));
            assert(r@ == ReplyView::answer(ServerPacketsView::Void));
            assert(!old(self).player(num).has_made_corpse);
            assert(old(self).player(num).soaprunner.sprite == SoaprunnerSprites::Dying);
        }
        r
    }

    /// Handles a packet of the player under `num`, and says what to send
    /// back and whether to go on.
    pub fn client_handler<'a>(&'a mut self, num: usize, packet: ClientPackets) -> (r: Reply<'a>)
        requires
            old(self).wf(),
            old(self).has_player(num),
        ensures
            final(self).wf(),
            final(self).handled(old(self), num, packet@, r@),
    {
        match packet {
            ClientPackets::ProtocolRequest { game_version } => Reply {
                packet: Some(
                    ServerPackets::Protocol { protocol: PROTOCOL_NAME, version: PROTOCOL_VERSION },
                ),
                keep_open: true,
                active: false,
            },
            ClientPackets::ConnectionTest { data } => Reply {
                packet: Some(ServerPackets::ConnectionTest { data }),
                keep_open: true,
                active: false,
            },
            ClientPackets::LogDebugMessage { message } => Reply {
                packet: Some(ServerPackets::Void),
                keep_open: true,
                active: false,
            },
            ClientPackets::MapAttributeRequest => Reply {
                packet: Some(
                    ServerPackets::MapAttributesResponse {
                        map_attributes: &self.map.map_attributes,
                    },
                ),
                keep_open: true,
                active: false,
            },
            ClientPackets::RoomRequest { coords } => self.send_room(num, coords),
            ClientPackets::ChangeColor { color, movements } => self.change_color(
                num,
                color,
                &movements,
            ),
            ClientPackets::MyPosition { movements } => self.reply_fields(num, &movements, false),
            ClientPackets::DrawOnField { position, tile, movements } => self.draw(
                num,
                position,
                tile,
                &movements,
            ),
            ClientPackets::HitNonPlayerUnit { index, movements } => self.hit(num, index, &movements),
            ClientPackets::MakeCorpse { position } => self.make_corpse(num, position),
            ClientPackets::Bye => Reply {
                packet: Some(ServerPackets::Void),
                keep_open: false,
                active: false,
            },
            ClientPackets::Heaven { movements } => self.ascend(num, &movements),
        }
    }

    /// Lets the player under `num` leave: it gives back its sword and drops
    /// its shield, and its number is free again.
    pub fn return_player(&mut self, num: usize)
        requires
            old(self).wf(),
            old(self).has_player(num),
        ensures
            final(self).wf(),
            final(self).session_closed(old(self), num),
    {
        self.return_sword(num);
        let ghost unarmed = *self;
        self.drop_shield(num);
        let ghost bare = *self;
        self.players[num] = None;
        proof {
            assert(unarmed.sword_returned(old(self), num));
            assert(bare.shield_dropped(&unarmed, num));
            assert(forall|n: int|
                0 <= n < bare.players@.len() && n != num ==> self.players@[n] == bare.players@[n]);
            lemma_player_changed(&bare, self, num);
        }
    }
}

} // verus!

use soaprun_server::server::clients::{Client, MovementLimits, MovementValidationErrors};
use soaprun_server::server::config::{EntityInitInfo, PositionInit, ServerConfig};
use soaprun_server::server::rooms::{RoomMap, RoomVerificationBounds, RoomVerificationModes};
use soaprun_server::server::sessions::{welcome, Reply};
use soaprun_server::server::SoaprunServer;
use soaprun_server::soaprun::map_attributes::MapAttributes;
use soaprun_server::soaprun::packets::{
    read_packet, write_packet, ChangedTile, ClientPackets, ServerPackets, Weather,
};
use soaprun_server::soaprun::position::Position;
use soaprun_server::soaprun::rooms::{Room, RoomCoordinates};
use soaprun_server::soaprun::soaprunners::{
    Soaprunner, SoaprunnerColors, SoaprunnerItems, SoaprunnerSprites,
};
use soaprun_server::soaprun::units::{Unit, UnitStates, UnitTypes};

struct Snapshot {
    sprite: SoaprunnerSprites,
    color: SoaprunnerColors,
    items: SoaprunnerItems,
    weather: Weather,
    players: Vec<(usize, Soaprunner)>,
    entities: Vec<(usize, Unit)>,
    tiles: Vec<ChangedTile>,
    keep_open: bool,
    active: bool,
}

fn limits(nodes: u32, per_node: u32, per_packet: u32) -> ServerConfig {
    ServerConfig {
        room_directory: String::new(),
        room_verification_bounds: RoomVerificationBounds::Unchecked,
        room_verification_mode: RoomVerificationModes::Tiles,
        entity_path: String::new(),
        attributes_path: String::new(),
        connection_timeout: 0,
        idle_timeout: 0,
        max_players: 3,
        max_player_movement_nodes_per_packet: nodes,
        max_player_distance_per_movement_node: per_node,
        max_player_distance_per_packet: per_packet,
        address: String::new(),
    }
}

/// A world of three by three rooms of walkable tiles, the tile at (5,5) being 28, the tile at
/// (33,24) a wall and the tile at (30,25) one of type 2, with the given entities.
fn world_with(config: &ServerConfig, entities: Vec<EntityInitInfo>) -> SoaprunServer {
    let mut attributes = vec![1u8; 256];
    for tile in [0usize, 12, 13, 14, 15, 27, 28, 29, 30, 31] {
        attributes[tile] = 0;
    }
    attributes[2] = 2;
    attributes[3] = 3;
    let mut rooms = RoomMap::new();
    for x in 0..3i8 {
        for y in 0..3i8 {
            let mut room = Room { data: [0; 336] };
            if (x, y) == (0, 0) {
                room.data[5 * 21 + 5] = 28;
            }
            if (x, y) == (1, 1) {
                room.data[9 * 21 + 13] = 1;
                room.data[10 * 21 + 10] = 2;
            }
            rooms.insert(RoomCoordinates { x, y }, room);
        }
    }
    SoaprunServer::with_rooms(
        config,
        rooms,
        Room { data: [1; 336] },
        MapAttributes { width: 16, height: 16, attributes },
        &entities,
    )
    .unwrap()
}

fn world(entities: Vec<EntityInitInfo>) -> SoaprunServer {
    world_with(&limits(0, 0, 0), entities)
}

fn snapshot(reply: Reply) -> Snapshot {
    match reply.packet {
        Some(ServerPackets::Fields {
            client_state,
            client_color,
            client_items,
            weather,
            soaprunners,
            entities,
            tiles,
        }) => Snapshot {
            sprite: client_state,
            color: client_color,
            items: client_items,
            weather,
            players: soaprunners,
            entities,
            tiles,
            keep_open: reply.keep_open,
            active: reply.active,
        },
        _ => panic!("no snapshot"),
    }
}

fn walk(server: &mut SoaprunServer, num: usize, to: &[(i16, i16)]) -> Snapshot {
    let movements = to.iter().map(|&(x, y)| Position { x, y }).collect();
    snapshot(server.client_handler(num, ClientPackets::MyPosition { movements }))
}

fn join(server: &mut SoaprunServer) -> usize {
    let num = server.add_player(SoaprunnerColors::Pink).unwrap();
    let first = walk(server, num, &[(30, 22)]);
    assert!(first.keep_open);
    num
}

fn player(server: &SoaprunServer, num: usize) -> &Client {
    server.players[num].as_ref().unwrap()
}

#[test]
fn player_is_welcomed_and_told_the_protocol() {
    let mut server = world(vec![]);
    let num = server.borrow_player().unwrap();
    assert_eq!(num, 0);
    assert_eq!(write_packet(&welcome()).unwrap(), b"WLCM".to_vec());
    let request = read_packet(b"Prtc\x2a\x00").unwrap();
    let reply = server.client_handler(num, request);
    assert!(reply.keep_open && !reply.active);
    let answer = write_packet(&reply.packet.unwrap()).unwrap();
    assert_eq!(answer, b"PrtcSoaprun\0\x40\x00".to_vec());
}

#[test]
fn numbers_are_given_out_smallest_first() {
    let mut server = world(vec![]);
    assert_eq!(server.add_player(SoaprunnerColors::Green), Ok(0));
    assert_eq!(server.add_player(SoaprunnerColors::Blue), Ok(1));
    assert_eq!(server.add_player(SoaprunnerColors::Pink), Ok(2));
    assert_eq!(server.add_player(SoaprunnerColors::Pink), Err(()));
    server.return_player(1);
    assert!(server.players[1].is_none());
    server.return_player(0);
    assert_eq!(server.borrow_player(), Ok(0));
    assert_eq!(server.add_player(SoaprunnerColors::Yellow), Ok(1));
    let c = player(&server, 1);
    assert_eq!(c.number, 1);
    assert_eq!(c.soaprunner.color, SoaprunnerColors::Yellow);
    assert_eq!(c.soaprunner.sprite, SoaprunnerSprites::Walking);
    assert_eq!(c.soaprunner.movements, vec![Position { x: 30, y: 22 }]);
    assert_eq!(c.room, vec![RoomCoordinates { x: 1, y: 1 }]);
    assert!(!c.has_moved && !c.has_made_corpse);
    assert_eq!(c.kills, 0);
}

#[test]
fn first_movement_confirms_the_spawn_position() {
    let mut server = world(vec![]);
    let num = server.add_player(SoaprunnerColors::Pink).unwrap();
    let first = walk(&mut server, num, &[(30, 22)]);
    assert_eq!(first.sprite, SoaprunnerSprites::Walking);
    assert!(first.keep_open && !first.active);
    assert_eq!(player(&server, num).soaprunner.teleport_trigger, 1);
    assert!(player(&server, num).has_moved);
    assert_eq!(player(&server, num).soaprunner.movements, vec![Position { x: 30, y: 22 }]);

    let second = walk(&mut server, num, &[(50, 22)]);
    assert_eq!(second.sprite, SoaprunnerSprites::Walking);
    assert!(second.keep_open && second.active);
    assert_eq!(player(&server, num).soaprunner.movements, vec![Position { x: 50, y: 22 }]);
    assert_eq!(player(&server, num).room, vec![RoomCoordinates { x: 2, y: 1 }]);
    assert_eq!(player(&server, num).soaprunner.teleport_trigger, 1);
}

#[test]
fn first_movement_may_begin_anywhere() {
    let mut server = world(vec![]);
    let num = server.add_player(SoaprunnerColors::Pink).unwrap();
    let first = walk(&mut server, num, &[(1000, 1000), (30, 22)]);
    assert_eq!(first.sprite, SoaprunnerSprites::Walking);
    assert_eq!(
        player(&server, num).soaprunner.movements,
        vec![Position { x: 1000, y: 1000 }, Position { x: 30, y: 22 }]
    );
}

#[test]
fn first_movement_elsewhere_kills() {
    let mut server = world(vec![]);
    let num = server.add_player(SoaprunnerColors::Pink).unwrap();
    let mut c = Client::new(7, SoaprunnerColors::Green);
    assert_eq!(
        Client::update_position(
            &mut c,
            &vec![Position { x: 31, y: 22 }],
            &server.map,
            &server.limits
        ),
        Err(MovementValidationErrors::FirstMovementError)
    );
    let first = walk(&mut server, num, &[(31, 22)]);
    assert_eq!(first.sprite, SoaprunnerSprites::Dying);
    assert!(first.keep_open && !first.active);
    assert!(!player(&server, num).has_moved);
}

#[test]
fn walk_along_an_edge_kills() {
    let mut server = world(vec![]);
    let num = join(&mut server);
    let there = walk(&mut server, num, &[(20, 22)]);
    assert_eq!(there.sprite, SoaprunnerSprites::Walking);
    assert_eq!(
        player(&server, num).room,
        vec![RoomCoordinates { x: 1, y: 1 }, RoomCoordinates { x: 0, y: 1 }]
    );
    let along = walk(&mut server, num, &[(20, 30)]);
    assert_eq!(along.sprite, SoaprunnerSprites::Dying);
    assert!(along.keep_open && !along.active);
    assert_eq!(player(&server, num).soaprunner.movements, vec![Position { x: 20, y: 22 }]);
    assert_eq!(
        player(&server, num).verify_nodes(
            &Position { x: 20, y: 22 },
            &Position { x: 20, y: 30 },
            &server.map,
            &server.limits
        ),
        Err(MovementValidationErrors::MoveAlongEdgeError)
    );
}

#[test]
fn movements_are_refused_for_their_reasons() {
    let mut server = world_with(&limits(2, 12, 20), vec![]);
    let num = join(&mut server);
    let at = |x: i16, y: i16| Position { x, y };
    let check = |server: &SoaprunServer, a: Position, b: Position| {
        player(server, num).verify_nodes(&a, &b, &server.map, &server.limits)
    };
    assert_eq!(check(&server, at(30, 22), at(30, 22)), Ok(0));
    assert_eq!(check(&server, at(30, 22), at(30, 27)), Ok(5));
    assert_eq!(
        check(&server, at(30, 22), at(31, 23)),
        Err(MovementValidationErrors::MisalignedNodesError)
    );
    assert_eq!(
        check(&server, at(30, 22), at(30, 35)),
        Err(MovementValidationErrors::NodesTooFarError { actual: 13, max: 12 })
    );
    assert_eq!(
        check(&server, at(30, 24), at(36, 24)),
        Err(MovementValidationErrors::InvalidTileTypeError { pos: at(33, 24), tile_type: 1 })
    );
    assert_eq!(
        check(&server, at(2560, 22), at(2565, 22)),
        Err(MovementValidationErrors::OutOfBoundsError)
    );
    let mut c = Client::new(0, SoaprunnerColors::Green);
    c.has_moved = true;
    let none = MovementLimits {
        max_player_movement_nodes_per_packet: 2,
        max_player_distance_per_movement_node: 12,
        max_player_distance_per_packet: 20,
    };
    assert_eq!(
        Client::update_position(
            &mut c,
            &vec![at(30, 23), at(30, 24), at(30, 25)],
            &server.map,
            &none
        ),
        Err(MovementValidationErrors::TooManyNodesError { actual: 3, max: 2 })
    );
    assert_eq!(
        Client::update_position(&mut c, &vec![at(30, 34), at(30, 23)], &server.map, &none),
        Err(MovementValidationErrors::TotalTooFarError { actual: 23, max: 20 })
    );
    assert_eq!(c.soaprunner.movements, vec![at(30, 22)]);
    assert_eq!(
        Client::update_position(&mut c, &vec![at(30, 32), at(22, 32)], &server.map, &none),
        Ok(18)
    );
    assert_eq!(c.soaprunner.movements, vec![at(30, 32), at(22, 32)]);
    assert_eq!(Client::update_position(&mut c, &vec![], &server.map, &none), Ok(0));
}

#[test]
fn ghost_walks_through_walls() {
    let mut server = world(vec![]);
    let num = join(&mut server);
    let blocked = walk(&mut server, num, &[(30, 24), (36, 24)]);
    assert_eq!(blocked.sprite, SoaprunnerSprites::Dying);

    let other = server.add_player(SoaprunnerColors::Blue).unwrap();
    walk(&mut server, other, &[(30, 22)]);
    let heaven = snapshot(server.client_handler(
        other,
        ClientPackets::Heaven {
            movements: vec![Position { x: 30, y: 24 }, Position { x: 36, y: 24 }],
        },
    ));
    assert_eq!(heaven.sprite, SoaprunnerSprites::Heavenly);
    assert!(heaven.keep_open && heaven.active);
    assert_eq!(
        player(&server, other).soaprunner.movements,
        vec![Position { x: 30, y: 24 }, Position { x: 36, y: 24 }]
    );
    assert!(player(&server, other).can_move_on_tile_type(1));
}

#[test]
fn shield_bars_the_tiles_of_type_two() {
    let mut server = world(vec![EntityInitInfo::Shield(PositionInit { x: 30, y: 23 })]);
    let num = join(&mut server);
    assert!(player(&server, num).can_move_on_tile_type(2));
    assert!(player(&server, num).can_move_on_tile_type(0));
    assert!(!player(&server, num).can_move_on_tile_type(3));
    let across = walk(&mut server, num, &[(30, 26)]);
    assert_eq!(across.sprite, SoaprunnerSprites::Walking);
    let back = walk(&mut server, num, &[(30, 22)]);
    assert_eq!(back.sprite, SoaprunnerSprites::Walking);
    let armed = snapshot(server.client_handler(
        num,
        ClientPackets::HitNonPlayerUnit { index: 0, movements: vec![] },
    ));
    assert!(armed.items.shield);
    assert!(!player(&server, num).can_move_on_tile_type(2));
    let barred = walk(&mut server, num, &[(30, 26)]);
    assert_eq!(barred.sprite, SoaprunnerSprites::Dying);
}

#[test]
fn shield_is_picked_up_and_it_rains() {
    let mut server = world(vec![
        EntityInitInfo::Goal(PositionInit { x: 0, y: 0 }),
        EntityInitInfo::Shield(PositionInit { x: 40, y: 22 }),
    ]);
    let num = join(&mut server);
    let before = walk(&mut server, num, &[(40, 22)]);
    assert_eq!(before.weather, Weather::Clear);
    let after = snapshot(server.client_handler(
        num,
        ClientPackets::HitNonPlayerUnit { index: 1, movements: vec![Position { x: 40, y: 22 }] },
    ));
    assert_eq!(after.items.bits() & 4, 4);
    assert_eq!(after.weather, Weather::Rainy);
    assert_eq!(after.entities[1].0, 1);
    assert_eq!(after.entities[1].1.unit_state, UnitStates::Corpse);
    assert_eq!(after.entities[1].1.unit_type, UnitTypes::Shield);
    assert!(after.active);
    assert_eq!(server.players_with_shield, 1);
    assert_eq!(player(&server, num).claimed_shield, Some(1));

    let other = join(&mut server);
    let denied = snapshot(server.client_handler(
        other,
        ClientPackets::HitNonPlayerUnit { index: 1, movements: vec![] },
    ));
    assert!(!denied.items.shield);
    assert_eq!(denied.weather, Weather::Rainy);
    assert_eq!(server.players_with_shield, 1);

    server.return_player(num);
    assert_eq!(server.players_with_shield, 0);
    assert_eq!(server.entities[1].unit.unit_state, UnitStates::Active);
    assert_eq!(server.entities[1].unit.movements, vec![Position { x: 40, y: 22 }]);
    assert_eq!(server.entities[1].unit.teleport_trigger, 1);
    assert_eq!(walk(&mut server, other, &[]).weather, Weather::Clear);
}

#[test]
fn dropped_shield_goes_home_from_a_taken_place() {
    let mut server = world(vec![
        EntityInitInfo::Shield(PositionInit { x: 35, y: 22 }),
        EntityInitInfo::Goal(PositionInit { x: 30, y: 22 }),
    ]);
    let num = join(&mut server);
    snapshot(server.client_handler(
        num,
        ClientPackets::HitNonPlayerUnit { index: 0, movements: vec![] },
    ));
    assert!(player(&server, num).soaprunner.items.shield);
    server.drop_shield(num);
    assert!(!player(&server, num).soaprunner.items.shield);
    assert_eq!(server.entities[0].unit.movements, vec![Position { x: 35, y: 22 }]);
    assert_eq!(server.entities[0].unit.unit_state, UnitStates::Active);
    assert_eq!(server.players_with_shield, 0);
}

#[test]
fn drawing_is_told_to_everyone_once() {
    let mut server = world(vec![]);
    let a = join(&mut server);
    let b = join(&mut server);
    for num in [a, b] {
        walk(&mut server, num, &[(10, 22)]);
        let there = walk(&mut server, num, &[(10, 10)]);
        assert_eq!(there.sprite, SoaprunnerSprites::Walking);
        assert!(there.tiles.is_empty());
    }
    let drawn = snapshot(server.client_handler(
        a,
        ClientPackets::DrawOnField {
            position: Position { x: 5, y: 5 },
            tile: 13,
            movements: vec![Position { x: 10, y: 10 }],
        },
    ));
    assert_eq!(drawn.tiles, vec![ChangedTile::new(5, 5, (28 & 16) | 13)]);
    assert_eq!(drawn.tiles[0].tile, 29);
    assert!(drawn.active && drawn.keep_open);
    assert_eq!(
        server.map.get_tile(&Position { x: 5, y: 5 }, &RoomCoordinates { x: 0, y: 0 }),
        Ok(29)
    );
    assert_eq!(drawn.players.len(), 1);
    assert_eq!(drawn.players[0].0, b);
    assert_eq!(drawn.players[0].1.movements, vec![Position { x: 10, y: 10 }]);

    let told = walk(&mut server, b, &[(10, 10)]);
    assert_eq!(told.tiles, vec![ChangedTile::new(5, 5, 29)]);
    assert!(!told.active);
    assert!(walk(&mut server, b, &[(10, 10)]).tiles.is_empty());
    assert!(walk(&mut server, a, &[(10, 10)]).tiles.is_empty());
}

#[test]
fn drawing_needs_a_canvas_and_a_pencil() {
    let mut server = world(vec![]);
    let num = join(&mut server);
    assert_eq!(server.try_draw_on_field(&Position { x: 5, y: 5 }, 16), 0);
    assert_eq!(server.try_draw_on_field(&Position { x: 6, y: 6 }, 12), 0);
    assert_eq!(server.try_draw_on_field(&Position { x: 5, y: 5 }, 12), 1);
    assert_eq!(
        server.map.get_tile(&Position { x: 5, y: 5 }, &RoomCoordinates { x: 0, y: 0 }),
        Ok(28)
    );
    assert_eq!(server.try_draw_on_field(&Position { x: 5, y: 5 }, 15), 1);
    assert_eq!(
        server.map.get_tile(&Position { x: 5, y: 5 }, &RoomCoordinates { x: 0, y: 0 }),
        Ok(31)
    );
    assert_eq!(player(&server, num).cached_tiles.len(), 1);
    assert_eq!(player(&server, num).cached_tiles[0].tile, 31);
    assert_eq!(server.try_draw_on_field(&Position { x: 500, y: 500 }, 12), 0);
}

#[test]
fn tile_on_an_edge_changes_in_both_rooms() {
    let mut server = world(vec![]);
    let num = join(&mut server);
    let p = Position { x: 20, y: 5 };
    assert_eq!(server.try_update_tile(&p, &[0], |t| t + 12), 2);
    assert_eq!(server.map.get_tile(&p, &RoomCoordinates { x: 0, y: 0 }), Ok(12));
    assert_eq!(server.map.get_tile(&p, &RoomCoordinates { x: 1, y: 0 }), Ok(12));
    assert_eq!(player(&server, num).cached_tiles.len(), 2);
    assert_eq!(server.try_update_tile(&p, &[0], |t| t + 12), 0);
}

#[test]
fn requested_room_is_sent_and_its_changes_forgotten() {
    let mut server = world(vec![]);
    let num = join(&mut server);
    server.try_draw_on_field(&Position { x: 5, y: 5 }, 14);
    assert_eq!(player(&server, num).cached_tiles.len(), 1);
    let reply = server.client_handler(
        num,
        ClientPackets::RoomRequest { coords: RoomCoordinates { x: 0, y: 0 } },
    );
    match reply.packet {
        Some(ServerPackets::RoomResponse { coords, room }) => {
            assert_eq!(coords, RoomCoordinates { x: 0, y: 0 });
            assert_eq!(room.data[5 * 21 + 5], 30);
        }
        _ => panic!("no room"),
    }
    assert!(player(&server, num).cached_tiles.is_empty());
    let reply = server.client_handler(
        num,
        ClientPackets::RoomRequest { coords: RoomCoordinates { x: 9, y: 9 } },
    );
    match reply.packet {
        Some(ServerPackets::RoomResponse { coords, room }) => {
            assert_eq!(coords, RoomCoordinates { x: 9, y: 9 });
            assert_eq!(room.data[0], 1);
        }
        _ => panic!("no room"),
    }
}

#[test]
fn requests_are_answered_without_a_change() {
    let mut server = world(vec![]);
    let num = join(&mut server);
    let reply = server.client_handler(num, ClientPackets::MapAttributeRequest);
    match reply.packet {
        Some(ServerPackets::MapAttributesResponse { map_attributes }) => {
            assert_eq!((map_attributes.width, map_attributes.height), (16, 16));
        }
        _ => panic!("no table"),
    }
    let reply = server.client_handler(num, ClientPackets::ConnectionTest { data: [7; 508] });
    assert!(matches!(reply.packet, Some(ServerPackets::ConnectionTest { data }) if data == [7; 508]));
    let reply = server.client_handler(
        num,
        ClientPackets::LogDebugMessage { message: String::from("hello") },
    );
    assert!(matches!(reply.packet, Some(ServerPackets::Void)));
    assert!(reply.keep_open && !reply.active);
    let reply = server.client_handler(num, ClientPackets::Bye);
    assert!(matches!(reply.packet, Some(ServerPackets::Void)));
    assert!(!reply.keep_open);
}

#[test]
fn color_changes_while_walking() {
    let mut server = world(vec![]);
    let num = join(&mut server);
    let blue = snapshot(server.client_handler(
        num,
        ClientPackets::ChangeColor { color: 2, movements: vec![] },
    ));
    assert_eq!(blue.color, SoaprunnerColors::Blue);
    assert!(blue.active);
    let same = snapshot(server.client_handler(
        num,
        ClientPackets::ChangeColor { color: 9, movements: vec![] },
    ));
    assert_eq!(same.color, SoaprunnerColors::Blue);
    server.set_sprite(num, SoaprunnerSprites::Idle);
    let reply = server.client_handler(
        num,
        ClientPackets::ChangeColor { color: 1, movements: vec![] },
    );
    assert!(reply.packet.is_none() && !reply.keep_open && !reply.active);
    assert_eq!(player(&server, num).soaprunner.color, SoaprunnerColors::Blue);
}

#[test]
fn actions_at_the_wrong_time_close_the_connection() {
    let mut server = world(vec![EntityInitInfo::Goal(PositionInit { x: 30, y: 22 })]);
    let num = join(&mut server);
    let corpse = server.client_handler(
        num,
        ClientPackets::MakeCorpse { position: Position { x: 30, y: 22 } },
    );
    assert!(corpse.packet.is_none() && !corpse.keep_open);
    server.set_sprite(num, SoaprunnerSprites::Dying);
    for packet in [
        ClientPackets::DrawOnField {
            position: Position { x: 5, y: 5 },
            tile: 13,
            movements: vec![],
        },
        ClientPackets::HitNonPlayerUnit { index: 0, movements: vec![] },
        ClientPackets::Heaven { movements: vec![] },
        ClientPackets::ChangeColor { color: 0, movements: vec![] },
    ] {
        let reply = server.client_handler(num, packet);
        assert!(reply.packet.is_none() && !reply.keep_open && !reply.active);
    }
    assert_eq!(player(&server, num).soaprunner.sprite, SoaprunnerSprites::Dying);
    assert_eq!(
        server.map.get_tile(&Position { x: 5, y: 5 }, &RoomCoordinates { x: 0, y: 0 }),
        Ok(28)
    );
}

#[test]
fn corpse_is_left_once() {
    let mut server = world(vec![]);
    let num = join(&mut server);
    server.try_draw_on_field(&Position { x: 5, y: 5 }, 13);
    server.set_sprite(num, SoaprunnerSprites::Dying);
    let first = server.client_handler(
        num,
        ClientPackets::MakeCorpse { position: Position { x: 6, y: 5 } },
    );
    assert!(matches!(first.packet, Some(ServerPackets::Void)));
    assert!(first.keep_open);
    assert!(player(&server, num).has_made_corpse);
    assert_eq!(
        server.map.get_tile(&Position { x: 6, y: 5 }, &RoomCoordinates { x: 0, y: 0 }),
        Ok(0)
    );
    let second = server.client_handler(
        num,
        ClientPackets::MakeCorpse { position: Position { x: 5, y: 5 } },
    );
    assert!(second.packet.is_none() && !second.keep_open);
    assert_eq!(server.try_spawn_corpse(&Position { x: 30, y: 25 }), 1);
    assert_eq!(
        server.map.get_tile(&Position { x: 30, y: 25 }, &RoomCoordinates { x: 1, y: 1 }),
        Ok(18)
    );
    assert_eq!(server.try_spawn_corpse(&Position { x: 30, y: 25 }), 0);
}

#[test]
fn ten_kills_earn_a_crown_and_cost_the_sword() {
    let mut entities = vec![EntityInitInfo::Sword(PositionInit { x: 30, y: 23 })];
    for i in 0..10 {
        entities.push(EntityInitInfo::Closer(PositionInit { x: 25 + i, y: 24 }));
    }
    let mut server = world(entities);
    let num = join(&mut server);
    let armed = snapshot(server.client_handler(
        num,
        ClientPackets::HitNonPlayerUnit { index: 0, movements: vec![] },
    ));
    assert!(armed.items.sword);
    assert_eq!(armed.entities[0].1.unit_state, UnitStates::Corpse);
    assert_eq!(player(&server, num).claimed_sword, Some(0));
    for index in 1..=10u8 {
        server.entities[index as usize].unit.unit_state = UnitStates::Active;
        let hit = snapshot(server.client_handler(
            num,
            ClientPackets::HitNonPlayerUnit { index, movements: vec![] },
        ));
        assert_eq!(hit.entities[index as usize].1.unit_state, UnitStates::Corpse);
        assert_eq!(server.entities[index as usize].counter, 500);
        assert_eq!(player(&server, num).kills, index as usize);
        if index < 10 {
            assert_eq!(hit.items.bits(), 1);
            assert_eq!(hit.entities[0].1.unit_state, UnitStates::Corpse);
        } else {
            assert_eq!(hit.items.bits() & 2, 2);
            assert_eq!(hit.items.bits() & 1, 0);
            assert_eq!(hit.entities[0].1.unit_state, UnitStates::Active);
            assert_eq!(hit.entities[0].1.teleport_trigger, 1);
        }
        assert_eq!(hit.sprite, SoaprunnerSprites::Walking);
    }
}

#[test]
fn closer_kills_the_unarmed_and_turns_after_three() {
    let mut server = world(vec![EntityInitInfo::Closer(PositionInit { x: 30, y: 23 })]);
    for kills in 1..=3usize {
        let num = join(&mut server);
        server.entities[0].unit.unit_state = UnitStates::Active;
        let hit = snapshot(server.client_handler(
            num,
            ClientPackets::HitNonPlayerUnit { index: 0, movements: vec![] },
        ));
        assert_eq!(hit.sprite, SoaprunnerSprites::Dying);
        assert!(hit.keep_open);
        if kills < 3 {
            assert_eq!(hit.entities[0].1.unit_type, UnitTypes::Closer);
        } else {
            assert_eq!(hit.entities[0].1.unit_type, UnitTypes::Wuss);
        }
        server.return_player(num);
    }
    let num = join(&mut server);
    let slain = snapshot(server.client_handler(
        num,
        ClientPackets::HitNonPlayerUnit { index: 0, movements: vec![] },
    ));
    assert_eq!(slain.sprite, SoaprunnerSprites::Walking);
    assert_eq!(slain.entities[0].1.unit_type, UnitTypes::Closer);
    assert_eq!(slain.entities[0].1.unit_state, UnitStates::Corpse);
    assert_eq!(player(&server, num).kills, 1);
}

#[test]
fn collisions_follow_the_kind_of_the_entity() {
    let mut server = world(vec![
        EntityInitInfo::Goal(PositionInit { x: 30, y: 23 }),
        EntityInitInfo::Crawl(PositionInit { x: 30, y: 24 }),
        EntityInitInfo::Snail(PositionInit { x: 30, y: 25 }),
        EntityInitInfo::Goal(PositionInit { x: 30, y: 38 }),
        EntityInitInfo::Chase(PositionInit { x: 30, y: 26 }),
    ]);
    let num = join(&mut server);
    let hit = |server: &mut SoaprunServer, index: u8| {
        snapshot(server.client_handler(
            num,
            ClientPackets::HitNonPlayerUnit { index, movements: vec![] },
        ))
    };
    assert_eq!(hit(&mut server, 9).sprite, SoaprunnerSprites::Walking);
    assert_eq!(hit(&mut server, 3).sprite, SoaprunnerSprites::Walking);
    assert_eq!(hit(&mut server, 2).sprite, SoaprunnerSprites::Walking);
    assert_eq!(hit(&mut server, 4).sprite, SoaprunnerSprites::Walking);
    assert_eq!(hit(&mut server, 0).sprite, SoaprunnerSprites::Winning);
    server.set_sprite(num, SoaprunnerSprites::Idle);
    assert_eq!(hit(&mut server, 1).sprite, SoaprunnerSprites::Dying);
}

#[test]
fn many_players_are_listed_up_to_the_limit() {
    let mut config = limits(0, 0, 0);
    config.max_players = 70;
    let mut server = world_with(&config, vec![]);
    for _ in 0..70 {
        join(&mut server);
    }
    let seen = walk(&mut server, 5, &[]);
    assert_eq!(seen.players.len(), 63);
    assert_eq!(seen.players[4].0, 4);
    assert_eq!(seen.players[5].0, 6);
    assert_eq!(seen.players[62].0, 63);
    assert!(seen.entities.is_empty());
}

#[test]
fn session_goes_on_after_a_refused_movement() {
    let mut server = world(vec![]);
    let num = join(&mut server);
    let other = join(&mut server);
    let refused = walk(&mut server, num, &[(31, 23)]);
    assert_eq!(refused.sprite, SoaprunnerSprites::Dying);
    assert!(refused.keep_open && !refused.active);
    assert_eq!(player(&server, num).soaprunner.movements, vec![Position { x: 30, y: 22 }]);

    let seen = walk(&mut server, other, &[]);
    assert_eq!(seen.players.len(), 1);
    assert_eq!(seen.players[0].0, num);
    assert_eq!(seen.players[0].1.sprite, SoaprunnerSprites::Dying);

    let packet = read_packet(b"mCrp\x1e\x00\x19\x00").unwrap();
    let corpse = server.client_handler(num, packet);
    assert!(matches!(corpse.packet, Some(ServerPackets::Void)));
    assert!(corpse.keep_open && !corpse.active);
    assert!(player(&server, num).has_made_corpse);
    assert_eq!(
        server.map.get_tile(&Position { x: 30, y: 25 }, &RoomCoordinates { x: 1, y: 1 }),
        Ok(18)
    );

    let again = walk(&mut server, num, &[(30, 22)]);
    assert_eq!(again.sprite, SoaprunnerSprites::Dying);
    assert!(again.keep_open);
    for packet in [
        ClientPackets::HitNonPlayerUnit { index: 0, movements: vec![] },
        ClientPackets::MakeCorpse { position: Position { x: 30, y: 25 } },
    ] {
        let reply = server.client_handler(num, packet);
        assert!(reply.packet.is_none() && !reply.keep_open);
    }
}

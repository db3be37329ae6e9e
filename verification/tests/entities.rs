use soaprun_server::server::config::{
    EntityInitInfo, FlameInit, GateInit, PositionInit, ServerConfig,
};
use soaprun_server::server::entities::{Entity, EntityProperties};
use soaprun_server::server::entity_ai::{
    get_chase_options, get_closer_options, get_crawl_locations, get_invalid_entity_movements,
    get_snail_options, is_switch_pressed, Sighting,
};
use soaprun_server::server::position_extensions::DirectionFlags;
use soaprun_server::server::rooms::{RoomMap, RoomVerificationBounds, RoomVerificationModes};
use soaprun_server::server::SoaprunServer;
use soaprun_server::soaprun::map_attributes::MapAttributes;
use soaprun_server::soaprun::packets::ClientPackets;
use soaprun_server::soaprun::position::Position;
use soaprun_server::soaprun::rooms::{Room, RoomCoordinates};
use soaprun_server::soaprun::soaprunners::{SoaprunnerColors, SoaprunnerItems, SoaprunnerSprites};
use soaprun_server::soaprun::units::{UnitStates, UnitTypes};

fn at(x: i16, y: i16) -> Position {
    Position { x, y }
}

fn unarmed(x: i16, y: i16) -> Sighting {
    Sighting { position: at(x, y), items: SoaprunnerItems::empty() }
}

fn armed(x: i16, y: i16) -> Sighting {
    Sighting { position: at(x, y), items: SoaprunnerItems { sword: true, crown: false, shield: false } }
}

fn shielded(x: i16, y: i16) -> Sighting {
    Sighting { position: at(x, y), items: SoaprunnerItems { sword: false, crown: false, shield: true } }
}

/// A world of one room of walkable tiles around the spawn position, with a wall at (31,22).
fn world(entities: Vec<EntityInitInfo>) -> SoaprunServer {
    let mut attributes = vec![1u8; 256];
    attributes[0] = 0;
    attributes[3] = 3;
    attributes[18] = 0;
    attributes[2] = 0;
    let mut room = Room { data: [0; 336] };
    room.data[7 * 21 + 11] = 1;
    room.data[10 * 21 + 10] = 18;
    let mut rooms = RoomMap::new();
    rooms.insert(RoomCoordinates { x: 1, y: 1 }, room);
    let config = ServerConfig {
        room_directory: String::new(),
        room_verification_bounds: RoomVerificationBounds::Unchecked,
        room_verification_mode: RoomVerificationModes::Tiles,
        entity_path: String::new(),
        attributes_path: String::new(),
        connection_timeout: 0,
        idle_timeout: 0,
        max_players: 2,
        max_player_movement_nodes_per_packet: 0,
        max_player_distance_per_movement_node: 0,
        max_player_distance_per_packet: 0,
        address: String::new(),
    };
    SoaprunServer::with_rooms(
        &config,
        rooms,
        Room { data: [1; 336] },
        MapAttributes { width: 16, height: 16, attributes },
        &entities,
    )
    .unwrap()
}

fn join_at(server: &mut SoaprunServer, x: i16, y: i16) -> usize {
    let num = server.add_player(SoaprunnerColors::Green).unwrap();
    server.client_handler(num, ClientPackets::MyPosition { movements: vec![at(30, 22)] });
    let reply = server.client_handler(num, ClientPackets::MyPosition { movements: vec![at(x, y)] });
    assert!(reply.keep_open);
    num
}

#[test]
fn closer_hunts_the_unarmed_and_flees_from_the_armed() {
    let none = DirectionFlags::empty();
    let pos = at(10, 10);
    assert_eq!(
        get_closer_options(pos, pos, false, none, &vec![unarmed(12, 9)]),
        Some(vec![at(10, 9), at(11, 10)])
    );
    assert_eq!(
        get_closer_options(pos, pos, false, DirectionFlags::north(), &vec![unarmed(12, 9)]),
        Some(vec![at(11, 10)])
    );
    assert_eq!(
        get_closer_options(pos, pos, false, none, &vec![armed(12, 9)]),
        Some(vec![at(10, 11), at(9, 10)])
    );
    assert_eq!(
        get_closer_options(pos, pos, true, none, &vec![unarmed(10, 13)]),
        Some(vec![at(10, 9), at(9, 10), at(11, 10)])
    );
    assert_eq!(
        get_closer_options(pos, pos, false, none, &vec![unarmed(10, 7), armed(10, 9)]),
        Some(vec![])
    );
    assert_eq!(get_closer_options(pos, pos, false, none, &vec![unarmed(14, 10)]), None);
    assert_eq!(get_closer_options(pos, pos, false, none, &vec![]), None);
}

#[test]
fn closer_goes_home_when_alone() {
    let pos = at(10, 10);
    let home = at(12, 10);
    assert_eq!(
        get_closer_options(pos, home, false, DirectionFlags::empty(), &vec![]),
        Some(vec![at(11, 10)])
    );
    assert_eq!(
        get_closer_options(pos, home, false, DirectionFlags::east(), &vec![]),
        Some(vec![at(10, 9), at(10, 11), at(9, 10)])
    );
    assert_eq!(
        get_closer_options(pos, home, false, DirectionFlags::all(), &vec![]),
        Some(vec![])
    );
}

#[test]
fn chase_follows_the_shields() {
    let pos = at(0, 0);
    let seen = vec![unarmed(5, 0), shielded(-100, 100), armed(0, -5)];
    assert_eq!(
        get_chase_options(pos, DirectionFlags::empty(), &seen),
        vec![at(0, 1), at(-1, 0)]
    );
    assert_eq!(get_chase_options(pos, DirectionFlags::south(), &seen), vec![at(-1, 0)]);
    assert_eq!(get_chase_options(pos, DirectionFlags::empty(), &vec![unarmed(1, 1)]), vec![]);
}

#[test]
fn snail_sees_as_far_as_its_radius() {
    let pos = at(0, 0);
    let seen = vec![unarmed(2, -2)];
    assert_eq!(get_snail_options(pos, 1, DirectionFlags::empty(), &seen), None);
    assert_eq!(
        get_snail_options(pos, 2, DirectionFlags::empty(), &seen),
        Some(vec![at(0, -1), at(1, 0)])
    );
    assert_eq!(
        get_snail_options(pos, 2, DirectionFlags::north() | DirectionFlags::east(), &seen),
        None
    );
    assert_eq!(get_snail_options(pos, 2, DirectionFlags::empty(), &vec![unarmed(0, 0)]), None);
}

#[test]
fn crawl_strikes_beside_itself() {
    let pos = at(4, 4);
    let seen = vec![unarmed(5, 4), unarmed(5, 5), unarmed(4, 3), unarmed(4, 6), armed(3, 4)];
    assert_eq!(
        get_crawl_locations(pos, DirectionFlags::empty(), &seen),
        vec![at(4, 3), at(3, 4), at(5, 4)]
    );
    assert_eq!(get_crawl_locations(pos, DirectionFlags::horizontal(), &seen), vec![at(4, 3)]);
    assert_eq!(get_crawl_locations(pos, DirectionFlags::empty(), &vec![]), vec![]);
}

#[test]
fn switches_are_pressed_by_standing_on_them() {
    let switches = vec![at(1, 1), at(2, 2)];
    assert!(is_switch_pressed(&switches, &vec![unarmed(0, 0), unarmed(2, 2)]));
    assert!(!is_switch_pressed(&switches, &vec![unarmed(0, 0), unarmed(2, 1)]));
    assert!(!is_switch_pressed(&vec![], &vec![unarmed(0, 0)]));
    assert!(!is_switch_pressed(&switches, &vec![]));
}

#[test]
fn entities_bar_the_way_of_each_other() {
    let server = world(vec![
        EntityInitInfo::Goal(PositionInit { x: 30, y: 21 }),
        EntityInitInfo::Goal(PositionInit { x: 29, y: 22 }),
        EntityInitInfo::Goal(PositionInit { x: 31, y: 23 }),
    ]);
    assert_eq!(
        get_invalid_entity_movements(&server.entities, at(30, 22)),
        DirectionFlags::north() | DirectionFlags::west()
    );
    assert_eq!(
        server.map.get_invalid_tile_movements(at(30, 22)),
        DirectionFlags::east()
    );
    assert_eq!(
        server.map.get_invalid_tile_movements(at(20, 16)),
        DirectionFlags::west() | DirectionFlags::vertical()
    );
    assert_eq!(
        server.map.get_invalid_tile_movements(at(i16::MIN, 0)),
        DirectionFlags::all()
    );
    assert!(Entity::can_move_on_tile_type(0) && Entity::can_move_on_tile_type(3));
    assert!(!Entity::can_move_on_tile_type(2) && !Entity::can_move_on_tile_type(1));
}

#[test]
fn only_living_players_are_seen() {
    let mut server = world(vec![]);
    let a = join_at(&mut server, 30, 24);
    let b = join_at(&mut server, 28, 22);
    assert_eq!(server.get_sightings(), vec![unarmed(30, 24), unarmed(28, 22)]);
    server.set_sprite(a, SoaprunnerSprites::Dying);
    assert_eq!(server.get_sightings(), vec![unarmed(28, 22)]);
    server.set_sprite(b, SoaprunnerSprites::Idle);
    server.set_sprite(a, SoaprunnerSprites::Heavenly);
    assert_eq!(server.get_sightings(), vec![unarmed(28, 22)]);
}

#[test]
fn closer_steps_toward_its_prey() {
    let mut server = world(vec![EntityInitInfo::Closer(PositionInit { x: 30, y: 25 })]);
    join_at(&mut server, 30, 23);
    assert_eq!(server.get_closer_movement_options(0), Some(vec![at(30, 24)]));
    assert_eq!(server.get_movement_options(0), Some(vec![at(30, 24)]));
    server.tick_entity(0);
    assert_eq!(server.entities[0].unit.unit_state, UnitStates::Active);
    assert_eq!(server.entities[0].unit.movements, vec![at(30, 25), at(30, 24)]);
    assert_eq!(server.entities[0].counter, 50);
    for _ in 0..49 {
        server.entity_handler();
    }
    assert_eq!(server.entities[0].counter, 1);
    assert_eq!(server.entities[0].unit.movements, vec![at(30, 25), at(30, 24)]);
    server.entity_handler();
    assert_eq!(server.entities[0].unit.movements, vec![at(30, 24), at(30, 23)]);
    assert_eq!(server.entities[0].counter, 50);
}

#[test]
fn closer_sleeps_at_home_when_alone() {
    let mut server = world(vec![EntityInitInfo::Closer(PositionInit { x: 30, y: 25 })]);
    server.entities[0].unit.unit_state = UnitStates::Active;
    server.advance_entity(0, false, None);
    assert_eq!(server.entities[0].unit.unit_state, UnitStates::Sleeping);
    assert_eq!(server.entities[0].unit.movements, vec![at(30, 25)]);
    assert_eq!(server.entities[0].counter, 50);
    server.advance_entity(0, true, Some(at(30, 24)));
    assert_eq!(server.entities[0].counter, 49);
    assert_eq!(server.entities[0].unit.movements, vec![at(30, 25)]);
}

#[test]
fn slain_come_back_to_life_at_home() {
    let mut server = world(vec![
        EntityInitInfo::Closer(PositionInit { x: 30, y: 25 }),
        EntityInitInfo::Crawl(PositionInit { x: 25, y: 25 }),
        EntityInitInfo::Chase(PositionInit { x: 26, y: 26 }),
        EntityInitInfo::Snail(PositionInit { x: 27, y: 27 }),
        EntityInitInfo::Wuss(PositionInit { x: 28, y: 28 }),
    ]);
    for index in 0..5 {
        server.entities[index].unit.movements = vec![at(29, 29)];
        Entity::kill(&mut server.entities[index], 30, 10);
        assert_eq!(server.entities[index].unit.unit_state, UnitStates::Corpse);
        assert_eq!(server.entities[index].counter, 3);
    }
    assert_eq!(server.entities[4].unit.unit_type, UnitTypes::Closer);
    for _ in 0..2 {
        server.entity_handler();
    }
    for index in 0..5 {
        assert_eq!(server.entities[index].unit.unit_state, UnitStates::Corpse);
        assert_eq!(server.entities[index].counter, 1);
    }
    server.entity_handler();
    let expected = [
        (UnitStates::Sleeping, 100, at(30, 25)),
        (UnitStates::Active, 100, at(25, 25)),
        (UnitStates::Sleeping, 500, at(26, 26)),
        (UnitStates::Sleeping, 100, at(27, 27)),
        (UnitStates::Sleeping, 100, at(28, 28)),
    ];
    for (index, (state, counter, home)) in expected.iter().enumerate() {
        assert_eq!(server.entities[index].unit.unit_state, *state);
        assert_eq!(server.entities[index].counter, *counter);
        assert_eq!(server.entities[index].unit.movements, vec![*home]);
        assert_eq!(server.entities[index].unit.teleport_trigger, 1);
    }
}

#[test]
fn crawl_strikes_and_goes_home() {
    let mut server = world(vec![EntityInitInfo::Crawl(PositionInit { x: 30, y: 25 })]);
    join_at(&mut server, 30, 24);
    assert_eq!(server.get_crawl_attack_locations(at(30, 25)), vec![at(30, 24)]);
    server.tick_entity(0);
    assert_eq!(server.entities[0].unit.movements, vec![at(30, 25), at(30, 24)]);
    assert_eq!(server.entities[0].counter, 100);
    for _ in 0..100 {
        server.tick_entity(0);
    }
    assert_eq!(server.entities[0].unit.movements, vec![at(30, 24), at(30, 25)]);
    assert_eq!(server.entities[0].counter, 100);
    server.entities[0].unit.unit_state = UnitStates::Sleeping;
    server.tick_entity(0);
    assert_eq!(server.entities[0].unit.unit_state, UnitStates::Active);
    assert_eq!(server.entities[0].counter, 100);
}

#[test]
fn chase_wakes_with_the_first_shield() {
    let mut server = world(vec![
        EntityInitInfo::Chase(PositionInit { x: 30, y: 27 }),
        EntityInitInfo::Shield(PositionInit { x: 30, y: 23 }),
    ]);
    let num = join_at(&mut server, 30, 23);
    server.tick_entity(0);
    assert_eq!(server.entities[0].unit.unit_state, UnitStates::Sleeping);
    server.client_handler(num, ClientPackets::HitNonPlayerUnit { index: 1, movements: vec![] });
    assert_eq!(server.get_chase_movement_options(at(30, 27)), vec![at(30, 26)]);
    server.tick_entity(0);
    assert_eq!(server.entities[0].unit.unit_state, UnitStates::Active);
    assert_eq!(server.entities[0].unit.movements, vec![at(30, 27)]);
    server.tick_entity(0);
    assert_eq!(server.entities[0].unit.movements, vec![at(30, 27), at(30, 26)]);
    server.drop_shield(num);
    server.tick_entity(0);
    assert_eq!(server.entities[0].unit.unit_state, UnitStates::Sleeping);
    assert_eq!(server.entities[0].unit.movements, vec![at(30, 26)]);
}

#[test]
fn gate_opens_while_its_switch_is_pressed() {
    let mut server = world(vec![EntityInitInfo::Gate(GateInit {
        x: 25,
        y: 25,
        open_direction: 2,
        switches: vec![at(30, 24)],
    })]);
    server.tick_entity(0);
    assert_eq!(server.entities[0].unit.direction, 1);
    assert_eq!(server.entities[0].counter, 0);
    let num = join_at(&mut server, 30, 24);
    assert!(server.is_gate_pressed(0));
    server.tick_entity(0);
    assert_eq!(server.entities[0].unit.direction, 2);
    assert_eq!(server.entities[0].counter, 500);
    server.client_handler(num, ClientPackets::MyPosition { movements: vec![at(30, 23)] });
    for _ in 0..499 {
        server.tick_entity(0);
    }
    assert_eq!(server.entities[0].unit.direction, 2);
    server.tick_entity(0);
    assert_eq!(server.entities[0].unit.direction, 1);
    assert!(matches!(server.entities[0].properties, EntityProperties::SwitchedDirection(_)));
}

#[test]
fn cross_turns_every_ten_seconds() {
    let mut server = world(vec![
        EntityInitInfo::Cross(FlameInit { x: 25, y: 25, direction: 2 }),
        EntityInitInfo::Hummer(FlameInit { x: 26, y: 25, direction: 2 }),
    ]);
    server.entity_handler();
    assert_eq!(server.entities[0].unit.direction, 3);
    assert_eq!(server.entities[0].counter, 1000);
    assert_eq!(server.entities[1].unit.direction, 2);
    server.entities[0].counter = 1;
    server.entity_handler();
    assert_eq!(server.entities[0].unit.direction, 0);
}

#[test]
fn snail_wipes_the_corpse_under_it() {
    let mut server = world(vec![EntityInitInfo::Snail(PositionInit { x: 30, y: 25 })]);
    let num = join_at(&mut server, 30, 23);
    assert_eq!(server.get_snail_movement_options(at(30, 25), 1), None);
    assert_eq!(server.get_snail_movement_options(at(30, 25), 2), Some(vec![at(30, 24)]));
    assert_eq!(
        server.map.get_tile(&at(30, 25), &RoomCoordinates { x: 1, y: 1 }),
        Ok(18)
    );
    server.tick_entity(0);
    assert_eq!(server.map.get_tile(&at(30, 25), &RoomCoordinates { x: 1, y: 1 }), Ok(2));
    assert_eq!(server.players[num].as_ref().unwrap().cached_tiles.len(), 1);
    assert_eq!(server.entities[0].unit.unit_state, UnitStates::Sleeping);
    server.client_handler(num, ClientPackets::MyPosition { movements: vec![at(30, 24)] });
    server.tick_entity(0);
    assert_eq!(server.entities[0].unit.unit_state, UnitStates::Active);
    assert_eq!(server.entities[0].unit.movements, vec![at(30, 25), at(30, 24)]);
    assert_eq!(server.entities[0].counter, 100);
}

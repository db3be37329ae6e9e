use soaprun_server::server::clients::MovementLimits;
use soaprun_server::server::config::{
    default_flame_direction, default_gate_direction, load_entities, EntityInitInfo, FlameInit,
    GateInit, PositionInit, ServerConfig,
};
use soaprun_server::server::entities::EntityProperties;
use soaprun_server::server::rooms::{
    compare_corners, compare_edges, get_room, load_rooms, parse_room_name, verify_rooms,
    LoadRoomError, RoomFile, RoomMap, RoomVerificationBounds, RoomVerificationModes,
};
use soaprun_server::server::{NewServerError, SoaprunServer};
use soaprun_server::soaprun::map_attributes::{
    tiles_contain, MapAttributes, MapAttributesError, CANVAS_TILES, DRAW_TILES,
};
use soaprun_server::soaprun::position::Position;
use soaprun_server::soaprun::rooms::{Room, RoomCoordinates};
use soaprun_server::soaprun::units::{UnitStates, UnitTypes};

fn config(bounds: RoomVerificationBounds, mode: RoomVerificationModes) -> ServerConfig {
    ServerConfig {
        room_directory: String::from("rooms"),
        room_verification_bounds: bounds,
        room_verification_mode: mode,
        entity_path: String::from("entities.json"),
        attributes_path: String::from("attributes.bin"),
        connection_timeout: 30,
        idle_timeout: 60,
        max_players: 4,
        max_player_movement_nodes_per_packet: 8,
        max_player_distance_per_movement_node: 0,
        max_player_distance_per_packet: 100,
        address: String::from("127.0.0.1:1001"),
    }
}

fn attributes() -> MapAttributes {
    let mut attributes = vec![0u8; 256];
    attributes[1] = 1;
    attributes[2] = 2;
    attributes[3] = 3;
    attributes[9] = 1;
    MapAttributes { width: 16, height: 16, attributes }
}

fn room_of(tile: u8) -> Room {
    Room { data: [tile; 336] }
}

#[test]
fn room_names_give_signed_coordinates() {
    assert_eq!(parse_room_name("1,2"), Some(RoomCoordinates { x: 1, y: 2 }));
    assert_eq!(parse_room_name("-128,+127"), Some(RoomCoordinates { x: -128, y: 127 }));
    assert_eq!(parse_room_name("007,-0"), Some(RoomCoordinates { x: 7, y: 0 }));
    assert_eq!(parse_room_name("128,0"), None);
    assert_eq!(parse_room_name("-129,0"), None);
    assert_eq!(parse_room_name("1;2"), None);
    assert_eq!(parse_room_name("1,"), None);
    assert_eq!(parse_room_name(",1"), None);
    assert_eq!(parse_room_name("1,2,3"), None);
    assert_eq!(parse_room_name("-,1"), None);
    assert_eq!(parse_room_name("1,x"), None);
    assert_eq!(parse_room_name("default"), None);
    assert_eq!(parse_room_name(""), None);
}

#[test]
fn rooms_are_loaded_from_their_files() {
    let files = vec![
        RoomFile { name: String::from("0,0"), data: vec![4; 336] },
        RoomFile { name: String::from("1,0"), data: vec![5; 336] },
    ];
    let rooms = load_rooms(&files).unwrap();
    assert_eq!(rooms.len(), 2);
    assert_eq!(rooms.get(&RoomCoordinates { x: 1, y: 0 }).unwrap().data[7], 5);
    assert!(rooms.contains_key(&RoomCoordinates { x: 0, y: 0 }));
    assert!(!rooms.contains_key(&RoomCoordinates { x: 0, y: 1 }));
}

#[test]
fn rooms_with_bad_files_are_not_loaded() {
    let bad_name = vec![RoomFile { name: String::from("0-0"), data: vec![4; 336] }];
    match load_rooms(&bad_name) {
        Err(LoadRoomError::NameFormatError(name)) => assert_eq!(name, "0-0"),
        _ => panic!("loaded"),
    }
    let bad_data = vec![RoomFile { name: String::from("3,-4"), data: vec![4; 335] }];
    match load_rooms(&bad_data) {
        Err(LoadRoomError::NewRoomError(name)) => assert_eq!(name, "3,-4"),
        _ => panic!("loaded"),
    }
    assert!(Room::new(&vec![0; 337]).is_none());
    assert_eq!(Room::new(&vec![6; 336]).unwrap().data[335], 6);
}

#[test]
fn neighbours_are_taken_as_the_bounds_say() {
    let mut rooms = RoomMap::new();
    rooms.insert(RoomCoordinates { x: 0, y: 0 }, room_of(1));
    let default_room = room_of(9);
    let here = RoomCoordinates { x: 0, y: 0 };
    let there = RoomCoordinates { x: 1, y: 0 };
    assert!(get_room(&rooms, &here, &default_room, &RoomVerificationBounds::Unchecked).is_none());
    assert!(get_room(&rooms, &there, &default_room, &RoomVerificationBounds::InBounds).is_none());
    assert_eq!(
        get_room(&rooms, &here, &default_room, &RoomVerificationBounds::InBounds).unwrap().data[0],
        1
    );
    assert_eq!(
        get_room(&rooms, &there, &default_room, &RoomVerificationBounds::All).unwrap().data[0],
        9
    );
}

#[test]
fn corners_and_edges_are_compared_by_tile_or_type() {
    let table = attributes();
    assert!(compare_corners(4, 4, None));
    assert!(!compare_corners(4, 5, None));
    assert!(compare_corners(4, 5, Some(&table)));
    assert!(compare_corners(1, 9, Some(&table)));
    assert!(!compare_corners(1, 2, Some(&table)));
    assert!(compare_edges(&vec![1, 4], &vec![9, 5], Some(&table)));
    assert!(!compare_edges(&vec![1, 4], &vec![9, 5], None));
    assert!(!compare_edges(&vec![1, 4], &vec![1], None));
}

#[test]
fn rooms_that_fit_are_verified() {
    let mut rooms = RoomMap::new();
    rooms.insert(RoomCoordinates { x: 0, y: 0 }, room_of(4));
    rooms.insert(RoomCoordinates { x: 1, y: 0 }, room_of(4));
    let default_room = room_of(5);
    assert_eq!(
        verify_rooms(&rooms, &default_room, &RoomVerificationBounds::InBounds, None),
        Ok(())
    );
    assert_eq!(
        verify_rooms(&rooms, &default_room, &RoomVerificationBounds::Unchecked, None),
        Ok(())
    );
    assert_eq!(
        verify_rooms(&rooms, &default_room, &RoomVerificationBounds::All, Some(&attributes())),
        Ok(())
    );
}

#[test]
fn rooms_that_do_not_fit_are_named() {
    let mut rooms = RoomMap::new();
    rooms.insert(RoomCoordinates { x: 0, y: 0 }, room_of(4));
    let mut east = room_of(4);
    east.data[21 * 3] = 6;
    rooms.insert(RoomCoordinates { x: 1, y: 0 }, east);
    let default_room = room_of(4);
    assert_eq!(
        verify_rooms(&rooms, &default_room, &RoomVerificationBounds::InBounds, None),
        Err(String::from(
            "Room bounds failed: Room (0,0)'s east edge doesn't match with room (1,0)'s west edge"
        ))
    );
    assert_eq!(
        verify_rooms(
            &rooms,
            &default_room,
            &RoomVerificationBounds::InBounds,
            Some(&attributes())
        ),
        Ok(())
    );
    let default_room = room_of(5);
    assert_eq!(
        verify_rooms(&rooms, &default_room, &RoomVerificationBounds::All, None),
        Err(String::from(
            "Room bounds failed: Room (0,0)'s north west corner doesn't match with room (-1,-1)'s south east corner"
        ))
    );
}

#[test]
fn south_west_corner_faces_the_north_east_corner() {
    let mut rooms = RoomMap::new();
    let mut here = room_of(4);
    here.data[315] = 7;
    let mut there = room_of(4);
    there.data[20] = 7;
    rooms.insert(RoomCoordinates { x: 1, y: 0 }, here);
    rooms.insert(RoomCoordinates { x: 0, y: 1 }, there);
    assert_eq!(
        verify_rooms(&rooms, &room_of(4), &RoomVerificationBounds::InBounds, None),
        Ok(())
    );
}

#[test]
fn entities_are_set_up_by_their_kind() {
    let defs = vec![
        EntityInitInfo::Goal(PositionInit { x: 1, y: 2 }),
        EntityInitInfo::Closer(PositionInit { x: 3, y: 4 }),
        EntityInitInfo::Hummer(FlameInit { x: 5, y: 6, direction: default_flame_direction() }),
        EntityInitInfo::Gate(GateInit {
            x: 7,
            y: 8,
            open_direction: default_gate_direction(),
            switches: vec![Position { x: 9, y: 9 }],
        }),
        EntityInitInfo::Cross(FlameInit { x: 5, y: 6, direction: 3 }),
        EntityInitInfo::Snail(PositionInit { x: -1, y: -2 }),
    ];
    let entities = load_entities(&defs);
    assert_eq!(entities.len(), 6);
    assert_eq!(entities[0].unit.unit_type, UnitTypes::Goal);
    assert_eq!(entities[0].unit.unit_state, UnitStates::Active);
    assert_eq!(entities[0].spawn_position, Position { x: 1, y: 2 });
    assert_eq!(entities[0].unit.movements, vec![Position { x: 1, y: 2 }]);
    assert_eq!(entities[1].unit.unit_state, UnitStates::Sleeping);
    assert!(matches!(&entities[1].properties, EntityProperties::KillCounter(k) if k.kills == 0));
    assert_eq!(entities[2].unit.direction, 0);
    assert_eq!(entities[3].unit.direction, 1);
    match &entities[3].properties {
        EntityProperties::SwitchedDirection(s) => {
            assert_eq!((s.off_dir, s.on_dir), (1, 2));
            assert_eq!(s.switches, vec![Position { x: 9, y: 9 }]);
        }
        _ => panic!("a gate without switches"),
    }
    assert_eq!(entities[4].unit.direction, 3);
    assert_eq!(entities[5].unit.unit_state, UnitStates::Sleeping);
    assert_eq!(entities[5].counter, 0);
}

#[test]
fn world_is_set_up_empty() {
    let mut rooms = RoomMap::new();
    rooms.insert(RoomCoordinates { x: 0, y: 0 }, room_of(0));
    let server = SoaprunServer::with_rooms(
        &config(RoomVerificationBounds::InBounds, RoomVerificationModes::Tiles),
        rooms,
        room_of(0),
        attributes(),
        &vec![EntityInitInfo::Sword(PositionInit { x: 1, y: 1 })],
    )
    .unwrap();
    assert_eq!(server.players.len(), 4);
    assert!(server.players.iter().all(|p| p.is_none()));
    assert_eq!(server.players_with_shield, 0);
    assert_eq!(server.entity_update_rate, 10);
    assert_eq!(server.entities.len(), 1);
    assert_eq!(server.idle_timeout, 60);
    assert_eq!(server.connection_timeout, 30);
    let MovementLimits {
        max_player_movement_nodes_per_packet,
        max_player_distance_per_movement_node,
        max_player_distance_per_packet,
    } = server.limits;
    assert_eq!(max_player_movement_nodes_per_packet, 8);
    assert_eq!(max_player_distance_per_movement_node, 0);
    assert_eq!(max_player_distance_per_packet, 100);
    assert_eq!(server.get_entity_delay(500), 50);
}

#[test]
fn world_is_refused_with_rooms_that_do_not_fit() {
    let mut rooms = RoomMap::new();
    rooms.insert(RoomCoordinates { x: 0, y: 0 }, room_of(4));
    rooms.insert(RoomCoordinates { x: 0, y: 1 }, room_of(5));
    let refused = SoaprunServer::with_rooms(
        &config(RoomVerificationBounds::InBounds, RoomVerificationModes::Tiles),
        rooms,
        room_of(0),
        attributes(),
        &vec![],
    );
    match refused {
        Err(NewServerError::RoomVerificationError(message)) => assert_eq!(
            message,
            "Room bounds failed: Room (0,0)'s south edge doesn't match with room (0,1)'s north edge"
        ),
        _ => panic!("set up"),
    }
    let mut rooms = RoomMap::new();
    rooms.insert(RoomCoordinates { x: 0, y: 0 }, room_of(4));
    rooms.insert(RoomCoordinates { x: 0, y: 1 }, room_of(5));
    assert!(SoaprunServer::with_rooms(
        &config(RoomVerificationBounds::InBounds, RoomVerificationModes::TileTypes),
        rooms,
        room_of(0),
        attributes(),
        &vec![],
    )
    .is_ok());
}

#[test]
fn world_is_refused_with_a_short_table() {
    let refused = SoaprunServer::with_rooms(
        &config(RoomVerificationBounds::Unchecked, RoomVerificationModes::Tiles),
        RoomMap::new(),
        room_of(0),
        MapAttributes { width: 4, height: 4, attributes: vec![0; 16] },
        &vec![],
    );
    assert!(matches!(
        refused,
        Err(NewServerError::MapAttributesError(MapAttributesError::Incomplete))
    ));
}

#[test]
fn tiles_are_looked_up_in_the_loaded_room_or_the_default() {
    let mut rooms = RoomMap::new();
    let mut room = room_of(0);
    room.data[5 * 21 + 5] = 2;
    rooms.insert(RoomCoordinates { x: 0, y: 0 }, room);
    let server = SoaprunServer::with_rooms(
        &config(RoomVerificationBounds::Unchecked, RoomVerificationModes::Tiles),
        rooms,
        room_of(9),
        attributes(),
        &vec![],
    )
    .unwrap();
    let p = Position { x: 5, y: 5 };
    assert_eq!(server.map.get_tile(&p, &RoomCoordinates { x: 0, y: 0 }), Ok(2));
    assert_eq!(server.map.get_tile_type(&p, &RoomCoordinates { x: 0, y: 0 }), Ok(2));
    assert_eq!(server.map.get_tile(&p, &RoomCoordinates { x: 1, y: 0 }), Err(()));
    let q = Position { x: 25, y: 5 };
    assert_eq!(server.map.get_tile(&q, &RoomCoordinates { x: 1, y: 0 }), Ok(9));
    assert_eq!(server.map.get_tile_type(&q, &RoomCoordinates { x: 1, y: 0 }), Ok(1));
    assert_eq!(server.map.get_tiles(p), vec![2]);
    assert_eq!(server.map.get_tile_types(p), vec![2]);
    assert_eq!(server.map.get_tiles(q), Vec::<u8>::new());
    assert_eq!(
        server.map.get_affected_inbounds_rooms(&Position { x: 20, y: 0 }),
        vec![RoomCoordinates { x: 0, y: 0 }]
    );
    assert!(tiles_contain(&CANVAS_TILES, 27));
    assert!(!tiles_contain(&DRAW_TILES, 27));
}

fn table() -> Vec<u8> {
    let mut data = vec![16, 0, 16, 0];
    data.extend_from_slice(&attributes().attributes);
    data
}

#[test]
fn world_is_set_up_from_its_files() {
    let files = vec![
        RoomFile { name: String::from("0,0"), data: vec![4; 336] },
        RoomFile { name: String::from("1,0"), data: vec![5; 336] },
        RoomFile { name: String::from("+0,0"), data: vec![5; 336] },
    ];
    let server = SoaprunServer::new(
        &config(RoomVerificationBounds::InBounds, RoomVerificationModes::Tiles),
        &files,
        &vec![9; 336],
        &table(),
        &vec![EntityInitInfo::Snail(PositionInit { x: 1, y: 1 })],
    )
    .unwrap();
    assert_eq!(server.map.rooms.len(), 2);
    assert_eq!(
        server.get_tile(&Position { x: 3, y: 3 }, &RoomCoordinates { x: 0, y: 0 }),
        Ok(5)
    );
    assert_eq!(
        server.get_tile(&Position { x: 3, y: 18 }, &RoomCoordinates { x: 0, y: 1 }),
        Ok(9)
    );
    assert_eq!(server.get_tile_type(&Position { x: 3, y: 18 }, &RoomCoordinates { x: 0, y: 1 }), Ok(1));
    assert_eq!(server.get_tiles(Position { x: 20, y: 3 }), vec![5, 5]);
    assert_eq!(server.get_tile_types(Position { x: 20, y: 3 }), vec![0, 0]);
    assert_eq!(
        server.get_affected_inbounds_rooms(&Position { x: 20, y: 15 }),
        vec![RoomCoordinates { x: 1, y: 0 }, RoomCoordinates { x: 0, y: 0 }]
    );
    assert_eq!(server.entities.len(), 1);
    assert_eq!(server.map.map_attributes.width, 16);
}

#[test]
fn world_is_refused_with_files_that_cannot_be_read() {
    let setup = config(RoomVerificationBounds::InBounds, RoomVerificationModes::Tiles);
    let good = vec![RoomFile { name: String::from("0,0"), data: vec![4; 336] }];
    let bad_name = vec![RoomFile { name: String::from("zero"), data: vec![4; 336] }];
    let bad_data = vec![RoomFile { name: String::from("0,0"), data: vec![4; 3] }];
    assert!(matches!(
        SoaprunServer::new(&setup, &bad_name, &vec![9; 336], &table(), &vec![]),
        Err(NewServerError::LoadRoomError(LoadRoomError::NameFormatError(name))) if name == "zero"
    ));
    assert!(matches!(
        SoaprunServer::new(&setup, &bad_data, &vec![9; 336], &table(), &vec![]),
        Err(NewServerError::LoadRoomError(LoadRoomError::NewRoomError(name))) if name == "0,0"
    ));
    assert!(matches!(
        SoaprunServer::new(&setup, &good, &vec![9; 335], &table(), &vec![]),
        Err(NewServerError::LoadRoomError(LoadRoomError::NewRoomError(name))) if name == "default"
    ));
    assert!(matches!(
        SoaprunServer::new(&setup, &good, &vec![9; 336], &vec![16, 0], &vec![]),
        Err(NewServerError::MapAttributesError(MapAttributesError::MissingHeader))
    ));
    assert!(matches!(
        SoaprunServer::new(&setup, &good, &vec![9; 336], &vec![1, 0, 2, 0, 0], &vec![]),
        Err(NewServerError::MapAttributesError(MapAttributesError::InvalidData))
    ));
    assert!(matches!(
        SoaprunServer::new(&setup, &good, &vec![9; 336], &vec![1, 0, 2, 0, 0, 0], &vec![]),
        Err(NewServerError::MapAttributesError(MapAttributesError::Incomplete))
    ));
    let apart = vec![
        RoomFile { name: String::from("0,0"), data: vec![4; 336] },
        RoomFile { name: String::from("1,1"), data: vec![5; 336] },
    ];
    assert!(matches!(
        SoaprunServer::new(&setup, &apart, &vec![9; 336], &table(), &vec![]),
        Err(NewServerError::RoomVerificationError(message))
            if message == "Room bounds failed: Room (0,0)'s south east corner doesn't match with room (1,1)'s north west corner"
    ));
}

use soaprun_server::server::stream::{
    frame_header, frame_length, has_idled, probe, websocket_step, FrameError, Transport,
    WebSocketMessages, WebSocketSteps, MAX_PACKET_LENGTH,
};
use soaprun_server::server::{PROTOCOL_NAME, PROTOCOL_VERSION};
use soaprun_server::soaprun::client_packets::write_client_packet;
use soaprun_server::soaprun::map_attributes::{MapAttributes, MapAttributesError};
use soaprun_server::soaprun::packets::{
    read_movements, read_packet, write_packet, ChangedTile, ClientPackets, ReadPacketErrors,
    ServerPackets, Weather, WritePacketErrors,
};
use soaprun_server::soaprun::position::Position;
use soaprun_server::soaprun::rooms::{Room, RoomCoordinates};
use soaprun_server::soaprun::server_packets::{read_server_packet, ReceivedPackets};
use soaprun_server::soaprun::soaprunners::{
    Soaprunner, SoaprunnerColors, SoaprunnerItems, SoaprunnerSprites,
};
use soaprun_server::soaprun::units::{Unit, UnitStates, UnitTypes};

fn packet(kind: &[u8; 4], body: &[u8]) -> Vec<u8> {
    let mut bytes = kind.to_vec();
    bytes.extend_from_slice(body);
    bytes
}

#[test]
fn welcome_is_its_type_alone() {
    let bytes = write_packet(&ServerPackets::Welcome).unwrap();
    assert_eq!(bytes, b"WLCM".to_vec());
    assert_eq!(frame_header(bytes.len()), [4, 0, 0, 0]);
    assert_eq!(write_packet(&ServerPackets::Void).unwrap(), b"Void".to_vec());
}

#[test]
fn protocol_request_is_read_and_answered() {
    match read_packet(&packet(b"Prtc", &[42, 0])) {
        Ok(ClientPackets::ProtocolRequest { game_version }) => assert_eq!(game_version, 42),
        _ => panic!("not a protocol request"),
    }
    let answer = write_packet(&ServerPackets::Protocol {
        protocol: PROTOCOL_NAME,
        version: PROTOCOL_VERSION,
    })
    .unwrap();
    assert_eq!(answer, b"PrtcSoaprun\0\x40\x00".to_vec());
}

#[test]
fn protocol_request_of_wrong_length_is_refused() {
    match read_packet(&packet(b"Prtc", &[42])) {
        Err(ReadPacketErrors::UnexpectedDataAmount { got, expected }) => {
            assert_eq!((got, expected), (1, 2));
        }
        _ => panic!("not refused"),
    }
}

#[test]
fn short_packet_is_refused() {
    match read_packet(&[0x50, 0x72, 0x74]) {
        Err(ReadPacketErrors::InvalidLengthError { length }) => assert_eq!(length, 3),
        _ => panic!("not refused"),
    }
}

#[test]
fn unknown_type_is_refused() {
    match read_packet(&packet(b"Nope", &[1, 2, 3])) {
        Err(ReadPacketErrors::InvalidTypeError { chars }) => assert_eq!(chars, b"Nope".to_vec()),
        _ => panic!("not refused"),
    }
}

#[test]
fn requests_without_body_are_read() {
    assert!(matches!(read_packet(b"mAtt"), Ok(ClientPackets::MapAttributeRequest)));
    assert!(matches!(read_packet(b"Bye."), Ok(ClientPackets::Bye)));
    assert!(matches!(
        read_packet(&packet(b"Bye.", &[0])),
        Err(ReadPacketErrors::UnexpectedDataAmount { got: 1, expected: 0 })
    ));
}

#[test]
fn room_request_reads_signed_coordinates() {
    match read_packet(&packet(b"Room", &[0xff, 0x80])) {
        Ok(ClientPackets::RoomRequest { coords }) => {
            assert_eq!(coords, RoomCoordinates { x: -1, y: -128 });
        }
        _ => panic!("not a room request"),
    }
}

#[test]
fn movements_are_read_in_order() {
    let body = [2, 30, 0, 22, 0, 0xfe, 0xff, 0x00, 0x80];
    match read_packet(&packet(b"myPo", &body)) {
        Ok(ClientPackets::MyPosition { movements }) => {
            assert_eq!(
                movements,
                vec![Position { x: 30, y: 22 }, Position { x: -2, y: -32768 }]
            );
        }
        _ => panic!("not a position"),
    }
    assert_eq!(read_movements(&[0]), Ok(vec![]));
}

#[test]
fn movements_must_fill_their_block() {
    assert_eq!(read_movements(&[]), Err(1));
    assert_eq!(read_movements(&[1, 0, 0, 0]), Err(5));
    assert_eq!(read_movements(&[1, 0, 0, 0, 0, 0]), Err(5));
    match read_packet(&packet(b"ChCl", &[3, 2, 1, 0, 2, 0])) {
        Err(ReadPacketErrors::UnexpectedDataAmount { got, expected }) => {
            assert_eq!((got, expected), (6, 10));
        }
        _ => panic!("not refused"),
    }
}

#[test]
fn actions_carry_their_arguments() {
    match read_packet(&packet(b"ChCl", &[3, 1, 1, 0, 2, 0])) {
        Ok(ClientPackets::ChangeColor { color, movements }) => {
            assert_eq!(color, 3);
            assert_eq!(movements, vec![Position { x: 1, y: 2 }]);
        }
        _ => panic!("not a change of color"),
    }
    match read_packet(&packet(b"DrFl", &[5, 0, 6, 0, 13, 1, 7, 0, 8, 0])) {
        Ok(ClientPackets::DrawOnField { position, tile, movements }) => {
            assert_eq!(position, Position { x: 5, y: 6 });
            assert_eq!(tile, 13);
            assert_eq!(movements, vec![Position { x: 7, y: 8 }]);
        }
        _ => panic!("not a drawing"),
    }
    match read_packet(&packet(b"HNPU", &[9, 0])) {
        Ok(ClientPackets::HitNonPlayerUnit { index, movements }) => {
            assert_eq!(index, 9);
            assert!(movements.is_empty());
        }
        _ => panic!("not a collision"),
    }
    match read_packet(&packet(b"mCrp", &[0xff, 0xff, 3, 0])) {
        Ok(ClientPackets::MakeCorpse { position }) => {
            assert_eq!(position, Position { x: -1, y: 3 });
        }
        _ => panic!("not a corpse"),
    }
    assert!(matches!(
        read_packet(&packet(b"mCrp", &[1, 2, 3])),
        Err(ReadPacketErrors::UnexpectedDataAmount { got: 3, expected: 4 })
    ));
    assert!(matches!(
        read_packet(&packet(b"mCrp", &[1, 2, 3, 4, 5])),
        Err(ReadPacketErrors::UnexpectedDataAmount { got: 5, expected: 4 })
    ));
    assert!(matches!(
        read_packet(&packet(b"HVen", &[0])),
        Ok(ClientPackets::Heaven { movements }) if movements.is_empty()
    ));
    assert!(matches!(
        read_packet(&packet(b"DrFl", &[1, 2, 3, 4, 5])),
        Err(ReadPacketErrors::UnexpectedDataAmount { got: 5, expected: 6 })
    ));
}

#[test]
fn connection_test_is_echoed() {
    let mut body = [0u8; 508];
    for (i, b) in body.iter_mut().enumerate() {
        *b = (i % 251) as u8;
    }
    let data = match read_packet(&packet(b"Test", &body)) {
        Ok(ClientPackets::ConnectionTest { data }) => data,
        _ => panic!("not a connection test"),
    };
    assert_eq!(data, body);
    let echo = write_packet(&ServerPackets::ConnectionTest { data }).unwrap();
    assert_eq!(echo, packet(b"Test", &body));
    assert!(matches!(
        read_packet(&packet(b"Test", &body[..507])),
        Err(ReadPacketErrors::UnexpectedDataAmount { got: 507, expected: 508 })
    ));
}

#[test]
fn debug_message_is_decoded() {
    let text = "héllo";
    let mut body = (text.len() as u32).to_le_bytes().to_vec();
    body.extend_from_slice(text.as_bytes());
    match read_packet(&packet(b"Dlog", &body)) {
        Ok(ClientPackets::LogDebugMessage { message }) => assert_eq!(message, text),
        _ => panic!("not a debug message"),
    }
}

#[test]
fn debug_message_must_be_text_of_its_length() {
    assert!(matches!(
        read_packet(&packet(b"Dlog", &[1, 0])),
        Err(ReadPacketErrors::UnexpectedDataAmount { got: 2, expected: 4 })
    ));
    assert!(matches!(
        read_packet(&packet(b"Dlog", &[3, 0, 0, 0, b'a'])),
        Err(ReadPacketErrors::UnexpectedDataAmount { got: 5, expected: 7 })
    ));
    match read_packet(&packet(b"Dlog", &[2, 0, 0, 0, 0xc3, 0x28])) {
        Err(ReadPacketErrors::InvalidDataError { packet_type, data }) => {
            assert_eq!(packet_type, "Dlog");
            assert_eq!(data, vec![2, 0, 0, 0, 0xc3, 0x28]);
        }
        _ => panic!("not refused"),
    }
}

#[test]
fn map_attributes_are_written_with_their_size() {
    let map_attributes = MapAttributes { width: 2, height: 0x0103, attributes: vec![7, 8, 9] };
    let bytes = write_packet(&ServerPackets::MapAttributesResponse {
        map_attributes: &map_attributes,
    })
    .unwrap();
    assert_eq!(bytes, packet(b"mAtt", &[2, 0, 3, 1, 7, 8, 9]));
}

#[test]
fn room_is_written_behind_its_coordinates() {
    let mut room = Room { data: [0; 336] };
    room.data[0] = 1;
    room.data[335] = 2;
    let bytes = write_packet(&ServerPackets::RoomResponse {
        coords: RoomCoordinates { x: -1, y: 2 },
        room: &room,
    })
    .unwrap();
    assert_eq!(bytes.len(), 4 + 2 + 336);
    assert_eq!(&bytes[..7], &[b'R', b'o', b'o', b'm', 0xff, 2, 1]);
    assert_eq!(bytes[341], 2);
}

#[test]
fn fields_are_written_record_by_record() {
    let bytes = write_packet(&ServerPackets::Fields {
        client_state: SoaprunnerSprites::Dying,
        client_color: SoaprunnerColors::Blue,
        client_items: SoaprunnerItems { sword: true, crown: false, shield: true },
        weather: Weather::Rainy,
        soaprunners: vec![(
            3,
            Soaprunner {
                teleport_trigger: 9,
                sprite: SoaprunnerSprites::Walking,
                color: SoaprunnerColors::Yellow,
                items: SoaprunnerItems { sword: false, crown: true, shield: false },
                movements: vec![Position { x: 1, y: -1 }],
            },
        )],
        entities: vec![(
            0,
            Unit {
                teleport_trigger: 1,
                unit_state: UnitStates::Corpse,
                unit_type: UnitTypes::Snail,
                direction: 3,
                movements: vec![Position { x: 256, y: 2 }, Position { x: 257, y: 2 }],
            },
        )],
        tiles: vec![ChangedTile::new(5, 5, 29)],
    })
    .unwrap();
    let expected: Vec<u8> = vec![
        b'F', b'l', b'd', b's', // type
        2, 2, 5, 1, 1, 1, 1, // sprite, color, items, counts, weather
        3, 9, 1, 3, 2, 1, 1, 0, 0xff, 0xff, // the player
        0, 1, 2, 11, 3, 2, 0, 1, 2, 0, 1, 1, 2, 0, // the entity
        5, 0, 5, 0, 29, 0, // the tile
    ];
    assert_eq!(bytes, expected);
}

#[test]
fn fields_with_too_many_records_are_refused() {
    let fields = |players: usize, entities: usize, tiles: usize| ServerPackets::Fields {
        client_state: SoaprunnerSprites::Idle,
        client_color: SoaprunnerColors::Green,
        client_items: SoaprunnerItems::empty(),
        weather: Weather::Clear,
        soaprunners: (0..players)
            .map(|n| {
                (
                    n,
                    Soaprunner {
                        teleport_trigger: 0,
                        sprite: SoaprunnerSprites::Idle,
                        color: SoaprunnerColors::Green,
                        items: SoaprunnerItems::empty(),
                        movements: vec![],
                    },
                )
            })
            .collect(),
        entities: (0..entities)
            .map(|n| {
                (
                    n,
                    Unit {
                        teleport_trigger: 0,
                        unit_state: UnitStates::Active,
                        unit_type: UnitTypes::Goal,
                        direction: 0,
                        movements: vec![],
                    },
                )
            })
            .collect(),
        tiles: (0..tiles).map(|_| ChangedTile::new(0, 0, 0)).collect(),
    };
    assert_eq!(write_packet(&fields(64, 0, 0)), Err(WritePacketErrors::InvalidInput));
    assert_eq!(write_packet(&fields(0, 65, 0)), Err(WritePacketErrors::InvalidInput));
    assert_eq!(write_packet(&fields(0, 0, 256)), Err(WritePacketErrors::InvalidInput));
    let full = write_packet(&fields(63, 64, 255)).unwrap();
    assert_eq!(full.len(), 4 + 7 + 63 * 6 + 64 * 6 + 255 * 6);
    assert_eq!(&full[7..10], &[63, 64, 255]);
}

#[test]
fn frame_length_is_held_to_its_bounds() {
    assert_eq!(frame_length(&[4, 0, 0, 0]), Ok(4));
    assert_eq!(frame_length(&[0, 1, 0, 0]), Ok(256));
    assert_eq!(frame_length(&[0, 0, 1, 0]), Ok(MAX_PACKET_LENGTH));
    assert_eq!(frame_length(&[3, 0, 0, 0]), Err(FrameError::InvalidLength { length: 3 }));
    assert_eq!(
        frame_length(&[1, 0, 1, 0]),
        Err(FrameError::InvalidLength { length: 0x1_0001 })
    );
    assert_eq!(frame_header(0x0102_0304), [4, 3, 2, 1]);
}

#[test]
fn probe_tells_a_websocket_by_its_request() {
    let mut peeked = [0u8; 128];
    assert_eq!(probe(&peeked, 0), Transport::Raw);
    peeked[..4].copy_from_slice(b"GET ");
    assert_eq!(probe(&peeked, 4), Transport::WebSocket);
    assert_eq!(probe(&peeked, 0), Transport::Raw);
    peeked[..4].copy_from_slice(&[8, 0, 0, 0]);
    assert_eq!(probe(&peeked, 4), Transport::Raw);
}

#[test]
fn websocket_messages_are_delivered_or_passed_over() {
    assert_eq!(websocket_step(WebSocketMessages::Binary), WebSocketSteps::Deliver);
    assert_eq!(websocket_step(WebSocketMessages::Close), WebSocketSteps::Abort);
    assert_eq!(websocket_step(WebSocketMessages::Other), WebSocketSteps::Skip);
}

#[test]
fn idle_timeout_of_zero_never_ends() {
    assert!(!has_idled(0, 1_000_000));
    assert!(has_idled(60, 60));
    assert!(!has_idled(60, 59));
}

#[test]
fn map_attributes_are_read_from_their_file() {
    let m = MapAttributes::new(&vec![2, 0, 3, 0, 1, 2, 3, 4, 5, 6]).unwrap();
    assert_eq!((m.width, m.height), (2, 3));
    assert_eq!(m.attributes, vec![1, 2, 3, 4, 5, 6]);
    assert_eq!(
        MapAttributes::new(&vec![2, 0, 3]).err(),
        Some(MapAttributesError::MissingHeader)
    );
    assert_eq!(
        MapAttributes::new(&vec![2, 0, 3, 0, 1, 2, 3, 4, 5]).err(),
        Some(MapAttributesError::InvalidData)
    );
}

#[test]
fn items_are_three_bits() {
    let items = SoaprunnerItems { sword: true, crown: false, shield: true };
    assert_eq!(items.bits(), 5);
    assert_eq!(SoaprunnerItems::from_bits_truncate(5), items);
    assert_eq!(SoaprunnerItems::from_bits_truncate(0xfa).bits(), 2);
    assert_eq!(SoaprunnerSprites::from_code(4), Some(SoaprunnerSprites::Heavenly));
    assert_eq!(SoaprunnerSprites::from_code(5), None);
    assert_eq!(UnitTypes::from_code(11), Some(UnitTypes::Snail));
    assert_eq!(UnitTypes::Gate.code(), 8);
    assert_eq!(UnitStates::from_code(2), Some(UnitStates::Corpse));
    assert_eq!(Weather::from_code(1), Some(Weather::Rainy));
    assert_eq!(SoaprunnerColors::from_code(3), Some(SoaprunnerColors::Yellow));
}

#[test]
fn client_packets_come_back_as_they_were_written() {
    let movements = vec![Position { x: -300, y: 22 }, Position { x: 32767, y: -32768 }];
    let written = write_client_packet(&ClientPackets::DrawOnField {
        position: Position { x: 5, y: -5 },
        tile: 14,
        movements: movements.clone(),
    });
    assert_eq!(
        written,
        packet(
            b"DrFl",
            &[5, 0, 0xfb, 0xff, 14, 2, 0xd4, 0xfe, 22, 0, 0xff, 0x7f, 0x00, 0x80]
        )
    );
    match read_packet(&written) {
        Ok(ClientPackets::DrawOnField { position, tile, movements: read }) => {
            assert_eq!(position, Position { x: 5, y: -5 });
            assert_eq!(tile, 14);
            assert_eq!(read, movements);
        }
        _ => panic!("not a drawing"),
    }
    let written = write_client_packet(&ClientPackets::LogDebugMessage {
        message: String::from("grüß dich"),
    });
    assert_eq!(&written[..8], b"Dlog\x0b\x00\x00\x00");
    assert!(matches!(
        read_packet(&written),
        Ok(ClientPackets::LogDebugMessage { message }) if message == "grüß dich"
    ));
    for sent in [
        ClientPackets::ProtocolRequest { game_version: 0x1234 },
        ClientPackets::MapAttributeRequest,
        ClientPackets::RoomRequest { coords: RoomCoordinates { x: -7, y: 100 } },
        ClientPackets::MyPosition { movements: movements.clone() },
        ClientPackets::MakeCorpse { position: Position { x: -1, y: 1 } },
        ClientPackets::ConnectionTest { data: [9; 508] },
        ClientPackets::Bye,
        ClientPackets::HitNonPlayerUnit { index: 200, movements: vec![] },
        ClientPackets::Heaven { movements: movements.clone() },
        ClientPackets::ChangeColor { color: 3, movements: movements.clone() },
    ] {
        let written = write_client_packet(&sent);
        let read = read_packet(&written).unwrap();
        assert_eq!(write_client_packet(&read), written);
    }
}

#[test]
fn server_packets_come_back_as_they_were_written() {
    let sent = ServerPackets::Fields {
        client_state: SoaprunnerSprites::Winning,
        client_color: SoaprunnerColors::Pink,
        client_items: SoaprunnerItems { sword: false, crown: true, shield: true },
        weather: Weather::Rainy,
        soaprunners: vec![
            (
                0,
                Soaprunner {
                    teleport_trigger: 255,
                    sprite: SoaprunnerSprites::Heavenly,
                    color: SoaprunnerColors::Green,
                    items: SoaprunnerItems::empty(),
                    movements: vec![Position { x: -1, y: -2 }, Position { x: 3, y: 4 }],
                },
            ),
            (
                62,
                Soaprunner {
                    teleport_trigger: 0,
                    sprite: SoaprunnerSprites::Idle,
                    color: SoaprunnerColors::Yellow,
                    items: SoaprunnerItems { sword: true, crown: false, shield: false },
                    movements: vec![],
                },
            ),
        ],
        entities: vec![(
            7,
            Unit {
                teleport_trigger: 3,
                unit_state: UnitStates::Flickering,
                unit_type: UnitTypes::Gate,
                direction: 2,
                movements: vec![Position { x: 1000, y: -1000 }],
            },
        )],
        tiles: vec![ChangedTile::new(-5, 5, 31), ChangedTile::new(6, -6, 12)],
    };
    let written = write_packet(&sent).unwrap();
    match read_server_packet(&written) {
        Some(ReceivedPackets::Fields {
            client_state,
            client_color,
            client_items,
            weather,
            soaprunners,
            entities,
            tiles,
        }) => {
            assert_eq!(client_state, SoaprunnerSprites::Winning);
            assert_eq!(client_color, SoaprunnerColors::Pink);
            assert_eq!(client_items.bits(), 6);
            assert_eq!(weather, Weather::Rainy);
            assert_eq!(soaprunners.len(), 2);
            assert_eq!(soaprunners[0].0, 0);
            assert_eq!(soaprunners[0].1.teleport_trigger, 255);
            assert_eq!(soaprunners[0].1.sprite, SoaprunnerSprites::Heavenly);
            assert_eq!(
                soaprunners[0].1.movements,
                vec![Position { x: -1, y: -2 }, Position { x: 3, y: 4 }]
            );
            assert_eq!(soaprunners[1].0, 62);
            assert!(soaprunners[1].1.items.sword);
            assert!(soaprunners[1].1.movements.is_empty());
            assert_eq!(entities.len(), 1);
            assert_eq!(entities[0].0, 7);
            assert_eq!(entities[0].1.unit_type, UnitTypes::Gate);
            assert_eq!(entities[0].1.unit_state, UnitStates::Flickering);
            assert_eq!(entities[0].1.direction, 2);
            assert_eq!(entities[0].1.movements, vec![Position { x: 1000, y: -1000 }]);
            assert_eq!(tiles, vec![ChangedTile::new(-5, 5, 31), ChangedTile::new(6, -6, 12)]);
        }
        _ => panic!("no snapshot"),
    }
    assert!(read_server_packet(&written[..written.len() - 1]).is_none());
    assert!(matches!(read_server_packet(b"WLCM"), Some(ReceivedPackets::Welcome)));
    assert!(matches!(read_server_packet(b"Void"), Some(ReceivedPackets::Void)));
    assert!(read_server_packet(b"Void\x00").is_none());
    assert!(read_server_packet(b"Nope").is_none());
    assert!(matches!(
        read_server_packet(b"PrtcSoaprun\0\x40\x00"),
        Some(ReceivedPackets::Protocol { protocol, version: 64 }) if protocol == PROTOCOL_NAME
    ));
    let map_attributes = MapAttributes { width: 3, height: 1, attributes: vec![7, 8, 9] };
    let written = write_packet(&ServerPackets::MapAttributesResponse {
        map_attributes: &map_attributes,
    })
    .unwrap();
    assert!(matches!(
        read_server_packet(&written),
        Some(ReceivedPackets::MapAttributesResponse { map_attributes })
            if map_attributes.attributes == vec![7, 8, 9] && map_attributes.width == 3
    ));
    let mut room = Room { data: [3; 336] };
    room.data[17] = 4;
    let written = write_packet(&ServerPackets::RoomResponse {
        coords: RoomCoordinates { x: -128, y: 127 },
        room: &room,
    })
    .unwrap();
    assert!(matches!(
        read_server_packet(&written),
        Some(ReceivedPackets::RoomResponse { coords, room })
            if coords == RoomCoordinates { x: -128, y: 127 } && room.data[17] == 4
    ));
    let written = write_packet(&ServerPackets::ConnectionTest { data: [5; 508] }).unwrap();
    assert!(matches!(
        read_server_packet(&written),
        Some(ReceivedPackets::ConnectionTest { data }) if data == [5; 508]
    ));
}

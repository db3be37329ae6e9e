use soaprun_server::server::clients::{contains_room, Client};
use soaprun_server::server::entities::{next_trigger, Entity, EntityProperties, KillCounter};
use soaprun_server::server::handlers::color_at;
use soaprun_server::server::position_extensions::DirectionFlags;
use soaprun_server::server::rooms::{parse_i8, parse_u8, RoomMap, Side};
use soaprun_server::soaprun::packets::ChangedTile;
use soaprun_server::soaprun::position::{copy_positions, Position};
use soaprun_server::soaprun::rooms::{Room, RoomCoordinates};
use soaprun_server::soaprun::soaprunners::{SoaprunnerColors, SoaprunnerSprites};
use soaprun_server::soaprun::units::{UnitStates, UnitTypes};

fn sword_at(x: i16, y: i16) -> Entity {
    Entity::new(Position { x, y }, UnitTypes::Sword, 0, EntityProperties::Plain)
}

#[test]
fn direction_sets_combine() {
    let mut flags = DirectionFlags::empty();
    assert!(flags.is_empty() && !flags.is_all());
    flags.insert(DirectionFlags::north());
    flags.insert(DirectionFlags::east());
    assert!(flags.contains(DirectionFlags::north()));
    assert!(!flags.contains(DirectionFlags::vertical()));
    assert!(flags.contains(DirectionFlags::empty()));
    assert_eq!(flags.complement(), DirectionFlags::south() | DirectionFlags::west());
    assert_eq!(flags.union(flags.complement()), DirectionFlags::all());
    assert_eq!(flags.intersection(DirectionFlags::horizontal()), DirectionFlags::east());
    assert_eq!(flags & DirectionFlags::vertical(), DirectionFlags::north());
    assert!(DirectionFlags::all().is_all());
    assert_eq!(DirectionFlags::vertical() | DirectionFlags::horizontal(), DirectionFlags::all());
}

#[test]
fn sword_is_claimed_once_and_given_back() {
    let mut entities = vec![sword_at(1, 1), sword_at(2, 2)];
    let mut client = Client::new(0, SoaprunnerColors::Green);
    Client::claim_sword(&mut client, 5, &mut entities);
    assert!(!client.soaprunner.items.sword);
    Client::claim_sword(&mut client, 1, &mut entities);
    assert!(client.soaprunner.items.sword);
    assert_eq!(client.claimed_sword, Some(1));
    assert_eq!(entities[1].unit.unit_state, UnitStates::Corpse);
    Client::claim_sword(&mut client, 0, &mut entities);
    assert_eq!(client.claimed_sword, Some(1));
    assert_eq!(entities[0].unit.unit_state, UnitStates::Active);
    let mut other = Client::new(1, SoaprunnerColors::Pink);
    Client::claim_sword(&mut other, 1, &mut entities);
    assert!(!other.soaprunner.items.sword);
    Client::return_sword(&mut client, &mut entities);
    assert!(!client.soaprunner.items.sword);
    assert_eq!(entities[1].unit.unit_state, UnitStates::Active);
    assert_eq!(entities[1].unit.teleport_trigger, 1);
    Client::return_sword(&mut client, &mut entities);
    assert_eq!(entities[1].unit.teleport_trigger, 1);
}

#[test]
fn shield_is_counted_while_it_is_held() {
    let mut entities = vec![
        Entity::new(Position { x: 1, y: 1 }, UnitTypes::Shield, 0, EntityProperties::Plain),
        sword_at(30, 22),
    ];
    let mut holders = 0;
    let mut client = Client::new(0, SoaprunnerColors::Green);
    Client::claim_shield(&mut client, 0, &mut entities, &mut holders);
    assert!(client.soaprunner.items.shield);
    assert_eq!(holders, 1);
    assert_eq!(client.soaprunner.items.bits(), 4);
    Client::claim_shield(&mut client, 0, &mut entities, &mut holders);
    assert_eq!(holders, 1);
    Client::drop_shield(&mut client, &mut entities, &mut holders);
    assert_eq!(holders, 0);
    assert!(!client.soaprunner.items.shield);
    assert_eq!(entities[0].unit.movements, vec![Position { x: 1, y: 1 }]);
    assert_eq!(entities[0].unit.unit_state, UnitStates::Active);
    assert_eq!(entities[0].unit.teleport_trigger, 1);
    entities[1].unit.movements = vec![Position { x: 9, y: 9 }];
    Client::claim_shield(&mut client, 0, &mut entities, &mut holders);
    Client::drop_shield(&mut client, &mut entities, &mut holders);
    assert_eq!(entities[0].unit.movements, vec![Position { x: 30, y: 22 }]);
    assert_eq!(entities[0].unit.teleport_trigger, 2);
}

#[test]
fn every_tenth_kill_is_crowned() {
    let mut entities = vec![sword_at(1, 1)];
    let mut client = Client::new(0, SoaprunnerColors::Green);
    for kills in 1..=25usize {
        if !client.soaprunner.items.sword {
            Client::claim_sword(&mut client, 0, &mut entities);
        }
        Client::add_kill(&mut client, &mut entities);
        assert_eq!(client.kills, kills);
        assert_eq!(client.soaprunner.items.crown, kills >= 10);
        assert_eq!(client.soaprunner.items.sword, kills % 10 != 0);
        assert_eq!(
            entities[0].unit.unit_state,
            if kills % 10 == 0 { UnitStates::Active } else { UnitStates::Corpse }
        );
    }
    assert_eq!(entities[0].unit.teleport_trigger, 2);
    Client::kill(&mut client);
    assert_eq!(client.soaprunner.sprite, SoaprunnerSprites::Dying);
}

#[test]
fn changes_are_kept_once_for_each_tile() {
    let here = RoomCoordinates { x: 0, y: 0 };
    let there = RoomCoordinates { x: 1, y: 0 };
    let mut client = Client::new(0, SoaprunnerColors::Green);
    client.room = vec![here];
    client.cache_tile(here, Position { x: 1, y: 1 }, 12);
    client.cache_tile(there, Position { x: 21, y: 1 }, 13);
    client.cache_tile(here, Position { x: 2, y: 1 }, 14);
    client.cache_tile(here, Position { x: 1, y: 1 }, 15);
    assert_eq!(client.cached_tiles.len(), 3);
    assert_eq!(
        client.take_cached_tiles(),
        vec![ChangedTile::new(1, 1, 15), ChangedTile::new(2, 1, 14)]
    );
    assert_eq!(client.cached_tiles.len(), 1);
    assert!(client.take_cached_tiles().is_empty());
    client.forget_room(here);
    assert_eq!(client.cached_tiles.len(), 1);
    client.forget_room(there);
    assert!(client.cached_tiles.is_empty());
    assert!(contains_room(&vec![here, there], &there));
    assert!(!contains_room(&vec![here], &there));
}

#[test]
fn closer_counts_its_kills_to_three() {
    let mut closer = Entity::new(
        Position { x: 1, y: 1 },
        UnitTypes::Closer,
        0,
        EntityProperties::KillCounter(KillCounter { kills: 0 }),
    );
    Entity::add_kill(&mut closer);
    Entity::add_kill(&mut closer);
    assert!(matches!(&closer.properties, EntityProperties::KillCounter(k) if k.kills == 2));
    assert_eq!(closer.unit.unit_type, UnitTypes::Closer);
    Entity::add_kill(&mut closer);
    assert!(matches!(&closer.properties, EntityProperties::KillCounter(k) if k.kills == 0));
    assert_eq!(closer.unit.unit_type, UnitTypes::Wuss);
    Entity::add_kill(&mut closer);
    assert!(matches!(&closer.properties, EntityProperties::KillCounter(k) if k.kills == 0));
    closer.counter = 2;
    assert!(!Entity::wait(&mut closer));
    assert!(Entity::wait(&mut closer));
    assert!(Entity::wait(&mut closer));
    assert_eq!(closer.counter, 0);
    Entity::kill(&mut closer, 5000, 10);
    assert_eq!(closer.counter, 500);
    assert_eq!(closer.unit.unit_type, UnitTypes::Closer);
    assert_eq!(closer.position(), Position { x: 1, y: 1 });
    assert_eq!(next_trigger(255), 0);
    assert_eq!(next_trigger(7), 8);
    let twin = closer.clone();
    assert_eq!(twin.unit.unit_state, UnitStates::Corpse);
    assert_eq!(twin.counter, 500);
}

#[test]
fn sides_face_each_other() {
    let here = RoomCoordinates { x: 0, y: -128 };
    assert_eq!(Side::at(0), Side::NorthWest);
    assert_eq!(Side::at(7), Side::SouthEast);
    assert_eq!(Side::SouthWest.opposite(), Side::NorthEast);
    assert_eq!(Side::East.opposite(), Side::West);
    assert_eq!(Side::North.neighbour_of(&here), here);
    assert_eq!(Side::NorthEast.neighbour_of(&here), RoomCoordinates { x: 1, y: -128 });
    assert_eq!(Side::South.neighbour_of(&here), RoomCoordinates { x: 0, y: -127 });
    assert_eq!(Side::West.name(), "west edge");
    let mut room = Room { data: [0; 336] };
    room.data[20] = 1;
    room.data[335] = 2;
    room.data[21 * 15] = 3;
    assert_eq!(Side::NorthEast.part_of(&room), vec![1]);
    assert_eq!(Side::East.part_of(&room)[0], 1);
    assert_eq!(Side::East.part_of(&room)[15], 2);
    assert_eq!(Side::East.part_of(&room).len(), 16);
    assert_eq!(Side::South.part_of(&room)[0], 3);
    assert_eq!(Side::South.part_of(&room).len(), 21);
}

#[test]
fn room_map_keeps_rooms_by_their_coordinates() {
    let mut rooms = RoomMap::new();
    assert_eq!(rooms.len(), 0);
    rooms.insert(RoomCoordinates { x: -128, y: 127 }, Room { data: [1; 336] });
    rooms.insert(RoomCoordinates { x: 127, y: -128 }, Room { data: [2; 336] });
    rooms.insert(RoomCoordinates { x: -128, y: 127 }, Room { data: [3; 336] });
    assert_eq!(rooms.len(), 2);
    assert_eq!(rooms.get(&RoomCoordinates { x: -128, y: 127 }).unwrap().data[0], 3);
    assert_eq!(rooms.get(&RoomCoordinates { x: 127, y: -128 }).unwrap().data[0], 2);
    assert!(rooms.get(&RoomCoordinates { x: 127, y: 127 }).is_none());
    rooms.set_tile(&RoomCoordinates { x: 127, y: -128 }, 335, 9);
    assert_eq!(rooms.get(&RoomCoordinates { x: 127, y: -128 }).unwrap().data[335], 9);
    assert_eq!(rooms.get(&RoomCoordinates { x: 127, y: -128 }).unwrap().data[334], 2);
    assert_eq!(
        rooms.coordinates,
        vec![RoomCoordinates { x: -128, y: 127 }, RoomCoordinates { x: 127, y: -128 }]
    );
}

#[test]
fn numbers_are_read_with_or_without_a_sign() {
    assert_eq!(parse_i8("x-128y", 1, 5), Some(-128));
    assert_eq!(parse_i8("127", 0, 3), Some(127));
    assert_eq!(parse_i8("+127", 0, 4), Some(127));
    assert_eq!(parse_i8("128", 0, 3), None);
    assert_eq!(parse_i8("", 0, 0), None);
    assert_eq!(parse_i8("+", 0, 1), None);
    assert_eq!(parse_i8("1 ", 0, 2), None);
    assert_eq!(parse_i8("00000000000000000005", 0, 20), Some(5));
    assert_eq!(parse_u8("255", 0, 3), Some(255));
    assert_eq!(parse_u8("256", 0, 3), None);
    assert_eq!(parse_u8("-0", 0, 2), None);
    assert_eq!(parse_u8("+0", 0, 2), Some(0));
    assert_eq!(parse_u8("99999999999999999999", 0, 20), None);
}

#[test]
fn colors_stand_in_their_order() {
    assert_eq!(color_at(0), SoaprunnerColors::Green);
    assert_eq!(color_at(1), SoaprunnerColors::Pink);
    assert_eq!(color_at(2), SoaprunnerColors::Blue);
    assert_eq!(color_at(3), SoaprunnerColors::Yellow);
    assert_eq!(
        copy_positions(&vec![Position { x: 1, y: 2 }, Position { x: 3, y: 4 }]),
        vec![Position { x: 1, y: 2 }, Position { x: 3, y: 4 }]
    );
}

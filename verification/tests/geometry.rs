use soaprun_server::server::position_extensions::DirectionFlags;
use soaprun_server::soaprun::position::Position;
use soaprun_server::soaprun::rooms::{
    Room, RoomCoordinates, CLIENT_ROOM_HEIGHT, CLIENT_ROOM_WIDTH, MAX_X_COORD, MAX_Y_COORD,
    MIN_X_COORD, MIN_Y_COORD,
};
use soaprun_server::soaprun::soaprunners::{client_spawn_position, client_spawn_room};

#[test]
fn relative_direction_works() {
    let p = Position { x: 0, y: 0 };
    let e = Position { x: 1, y: 0 };
    let w = Position { x: -2, y: 0 };
    let n = Position { x: 0, y: -200 };
    let s = Position { x: 0, y: 232 };

    assert!(p.relative_direction(&e) == DirectionFlags::east());
    assert!(p.relative_direction(&w) == DirectionFlags::west());
    assert!(p.relative_direction(&n) == DirectionFlags::north());
    assert!(p.relative_direction(&s) == DirectionFlags::south());

    assert!(w.relative_direction(&n) == DirectionFlags::north() | DirectionFlags::east());
    assert!(e.relative_direction(&n) == DirectionFlags::north() | DirectionFlags::west());
    assert!(w.relative_direction(&s) == DirectionFlags::south() | DirectionFlags::east());
    assert!(e.relative_direction(&s) == DirectionFlags::south() | DirectionFlags::west());

    assert!(n.relative_direction(&w) == DirectionFlags::south() | DirectionFlags::west());
    assert!(s.relative_direction(&w) == DirectionFlags::north() | DirectionFlags::west());
    assert!(n.relative_direction(&e) == DirectionFlags::south() | DirectionFlags::east());
    assert!(s.relative_direction(&e) == DirectionFlags::north() | DirectionFlags::east());
}

#[test]
fn taxicab_works() {
    let p1 = Position { x: 0, y: 0 };
    let p2 = Position { x: 0, y: 0 };
    assert!(p1.taxicab_distance(&p2) == 0);

    let p3 = Position { x: 1, y: 0 };
    assert!(p1.taxicab_distance(&p3) == 1);

    let p4 = Position { x: 1, y: 1 };
    assert!(p1.taxicab_distance(&p4) == 2);

    let p5 = Position { x: -1, y: -1 };
    assert!(p1.taxicab_distance(&p5) == 2)
}

#[test]
fn compare_works() {
    let r1 = Room { data: [0; CLIENT_ROOM_WIDTH * CLIENT_ROOM_HEIGHT] };
    let r2 = Room { data: [0; CLIENT_ROOM_WIDTH * CLIENT_ROOM_HEIGHT] };
    assert!(r1.north_west_corner() == r2.south_east_corner());
    assert!(r1.north_east_corner() == r2.south_west_corner());
    assert!(r1.south_west_corner() == r2.north_east_corner());
    assert!(r1.south_east_corner() == r2.north_west_corner());

    assert!(r1.west_edge().eq(&r2.east_edge()));
    assert!(r1.north_edge().eq(&r2.south_edge()));
    assert!(r1.east_edge().eq(&r2.west_edge()));
    assert!(r1.south_edge().eq(&r2.north_edge()));
}

#[test]
fn get_affected_rooms_works() {
    assert_eq!(client_spawn_position().get_affected_rooms(), vec![client_spawn_room()]);

    let north_west_pos = Position { x: MIN_X_COORD, y: MIN_Y_COORD };
    let north_west_room = RoomCoordinates { x: i8::MIN, y: i8::MIN };
    assert_eq!(north_west_pos.get_affected_rooms(), vec![north_west_room]);

    let north_east_pos = Position { x: MAX_X_COORD, y: MIN_Y_COORD };
    let north_east_room = RoomCoordinates { x: i8::MAX, y: i8::MIN };
    assert_eq!(north_east_pos.get_affected_rooms(), vec![north_east_room]);

    let south_west_pos = Position { x: MIN_X_COORD, y: MAX_Y_COORD };
    let south_west_room = RoomCoordinates { x: i8::MIN, y: i8::MAX };
    assert_eq!(south_west_pos.get_affected_rooms(), vec![south_west_room]);

    let south_east_pos = Position { x: MAX_X_COORD, y: MAX_Y_COORD };
    let south_east_room = RoomCoordinates { x: i8::MAX, y: i8::MAX };
    assert_eq!(south_east_pos.get_affected_rooms(), vec![south_east_room]);
}

fn test_to_index_room(rc: RoomCoordinates) {
    let x_offset = rc.x as isize * (CLIENT_ROOM_WIDTH - 1) as isize;
    let y_offset = rc.y as isize * (CLIENT_ROOM_HEIGHT - 1) as isize;
    for x in 0..CLIENT_ROOM_WIDTH as isize {
        for y in 0..CLIENT_ROOM_HEIGHT as isize {
            let p = Position { x: (x_offset + x) as i16, y: (y_offset + y) as i16 };
            let expected = (y as usize * CLIENT_ROOM_WIDTH) + x as usize;
            let actual = p.to_index(&rc).unwrap();
            assert_eq!(expected, actual);
        }
    }
}

#[test]
fn to_index_0_0_works() {
    test_to_index_room(RoomCoordinates { x: 0, y: 0 })
}

#[test]
fn to_index_1_1_works() {
    test_to_index_room(RoomCoordinates { x: 1, y: 1 })
}

#[test]
fn to_index_neg_1_neg_1_works() {
    test_to_index_room(RoomCoordinates { x: -1, y: -1 })
}

#[test]
fn oob_to_index_errors() {
    let rc = RoomCoordinates { x: 0, y: 0 };

    for x in -1..CLIENT_ROOM_WIDTH as i16 + 1 {
        let p = Position { x, y: -1 };
        assert!(p.to_index(&rc).is_err());

        let p = Position { x, y: CLIENT_ROOM_HEIGHT as i16 };
        assert!(p.to_index(&rc).is_err());
    }

    for y in -1..CLIENT_ROOM_HEIGHT as i16 + 1 {
        let p = Position { x: -1, y };
        assert!(p.to_index(&rc).is_err());

        let p = Position { x: CLIENT_ROOM_WIDTH as i16, y };
        assert!(p.to_index(&rc).is_err());
    }
}

#[test]
fn to_index_works() {
    let r1 = RoomCoordinates { x: 1, y: 0 };
    let r2 = RoomCoordinates { x: 1, y: 1 };
    let p1 = Position { x: 36, y: 15 };
    assert_eq!(p1.to_index(&r1).unwrap(), (CLIENT_ROOM_HEIGHT * CLIENT_ROOM_WIDTH) - 5);
    assert_eq!(p1.to_index(&r2).unwrap(), CLIENT_ROOM_WIDTH - 5);

    let r1 = RoomCoordinates { x: -1, y: -1 };
    let p1 = Position { x: 0, y: 0 };
    assert_eq!(p1.to_index(&r1).unwrap(), (CLIENT_ROOM_HEIGHT * CLIENT_ROOM_WIDTH) - 1);

    let min_room = RoomCoordinates { x: i8::MIN, y: i8::MIN };
    let min_pos = Position { x: MIN_X_COORD, y: MIN_Y_COORD };
    assert_eq!(min_pos.to_index(&min_room).unwrap(), 0);

    let max_room = RoomCoordinates { x: i8::MAX, y: i8::MAX };
    let max_pos = Position { x: MAX_X_COORD, y: MAX_Y_COORD };
    assert_eq!(max_pos.to_index(&max_room).unwrap(), (CLIENT_ROOM_HEIGHT * CLIENT_ROOM_WIDTH) - 1);
}

#[test]
fn affected_rooms_of_a_shared_corner_are_four() {
    let p = Position { x: 20, y: 15 };
    assert_eq!(
        p.get_affected_rooms(),
        vec![
            RoomCoordinates { x: 1, y: 1 },
            RoomCoordinates { x: 0, y: 1 },
            RoomCoordinates { x: 1, y: 0 },
            RoomCoordinates { x: 0, y: 0 },
        ]
    );
    for room in p.get_affected_rooms() {
        assert!(p.to_index(&room).unwrap() < 336);
    }
}

#[test]
fn affected_room_of_a_negative_position_holds_it() {
    let p = Position { x: -1, y: -1 };
    assert_eq!(p.get_affected_rooms(), vec![RoomCoordinates { x: -1, y: -1 }]);
    assert_eq!(p.to_index(&RoomCoordinates { x: -1, y: -1 }).unwrap(), 14 * 21 + 19);
}

#[test]
fn every_position_of_the_world_is_held_by_its_rooms() {
    let mut x = MIN_X_COORD;
    while x <= MAX_X_COORD {
        let mut y = MIN_Y_COORD;
        while y <= MAX_Y_COORD {
            let p = Position { x, y };
            let rooms = p.get_affected_rooms();
            assert!(!rooms.is_empty() && rooms.len() <= 4);
            for room in rooms {
                assert!(p.to_index(&room).unwrap() < 336);
            }
            y += 7;
        }
        x += 5;
    }
}

#[test]
fn relative_direction_is_opposite_from_the_other_end() {
    let a = Position { x: 3, y: -4 };
    let b = Position { x: -7, y: 9 };
    assert_eq!(a.relative_direction(&b), DirectionFlags::south() | DirectionFlags::west());
    assert_eq!(b.relative_direction(&a), DirectionFlags::north() | DirectionFlags::east());
    assert_eq!(a.relative_direction(&a), DirectionFlags::empty());
}

#[test]
fn steps_stop_at_the_end_of_the_coordinates() {
    let p = Position { x: i16::MAX, y: i16::MIN };
    assert_eq!(p.east(1), p);
    assert_eq!(p.north(1), p);
    assert_eq!(p.west(2), Position { x: i16::MAX - 2, y: i16::MIN });
    assert_eq!(p.south(3), Position { x: i16::MAX, y: i16::MIN + 3 });
}

#[test]
fn adjacency_counts_the_four_neighbours() {
    let p = Position { x: 5, y: 5 };
    assert!(p.adjacent_exclusive(&Position { x: 5, y: 4 }));
    assert!(p.adjacent_exclusive(&Position { x: 6, y: 5 }));
    assert!(!p.adjacent_exclusive(&p));
    assert!(p.adjacent_inclusive(&p));
    assert!(!p.adjacent_inclusive(&Position { x: 6, y: 6 }));
    assert!(p.in_line(&Position { x: 5, y: 100 }));
    assert!(!p.in_line(&Position { x: 6, y: 6 }));
}

#[test]
fn to_positions_lists_north_south_west_east() {
    let p = Position { x: 0, y: 0 };
    assert_eq!(
        DirectionFlags::all().to_positions(&p),
        vec![
            Position { x: 0, y: -1 },
            Position { x: 0, y: 1 },
            Position { x: -1, y: 0 },
            Position { x: 1, y: 0 },
        ]
    );
    assert_eq!(DirectionFlags::empty().to_positions(&p), Vec::<Position>::new());
    assert_eq!(
        (DirectionFlags::vertical() & DirectionFlags::south()).to_positions(&p),
        vec![Position { x: 0, y: 1 }]
    );
}

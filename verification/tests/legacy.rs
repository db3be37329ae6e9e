use soaprun_server::legacy_map_conversion::{
    parse_legacy_name, read_legacy_room, LegacyRoomReadErrors,
};

fn rows(count: usize) -> Vec<String> {
    (0..count).map(|i| format!("{:021}", i % 4)).collect()
}

#[test]
fn old_room_is_read_digit_by_digit() {
    let map = vec![10, 11, 12, 13];
    let (name, data) = read_legacy_room(&rows(16), &map, None).unwrap();
    assert_eq!(name, "");
    assert_eq!(data.len(), 336);
    assert_eq!(&data[..21], &[10u8; 21][..]);
    assert_eq!(data[20 + 21], 11);
    assert_eq!(data[20 + 21 * 3], 13);
    assert_eq!(data[19 + 21 * 3], 10);
    assert_eq!(data[335], 13);
}

#[test]
fn old_room_may_carry_its_name() {
    let map = vec![1, 2, 3, 4];
    let mut lines = vec![String::from("最初の部屋")];
    lines.extend(rows(16));
    let (name, data) = read_legacy_room(&lines, &map, Some(true)).unwrap();
    assert_eq!(name, "最初の部屋");
    assert_eq!(data.len(), 336);
    assert_eq!(data[20], 1);
    let (name, _) = read_legacy_room(&lines, &map, Some(false)).unwrap();
    assert_eq!(name, "最初の部屋");
}

#[test]
fn old_room_needs_its_lines() {
    let map = vec![1, 2, 3, 4];
    assert_eq!(
        read_legacy_room(&rows(15), &map, None),
        Err(LegacyRoomReadErrors::NotEnoughLinesError { got: 15, expected: 16 })
    );
    assert_eq!(
        read_legacy_room(&rows(15), &map, Some(false)),
        Err(LegacyRoomReadErrors::NotEnoughLinesError { got: 15, expected: 16 })
    );
    assert_eq!(
        read_legacy_room(&rows(16), &map, Some(true)),
        Err(LegacyRoomReadErrors::NotEnoughLinesError { got: 16, expected: 17 })
    );
    assert_eq!(
        read_legacy_room(&vec![], &map, None),
        Err(LegacyRoomReadErrors::NotEnoughLinesError { got: 0, expected: 16 })
    );
}

#[test]
fn old_room_needs_digits_that_the_conversion_knows() {
    let map = vec![1, 2, 3, 4];
    let mut lines = rows(16);
    lines[3] = String::from("00000000000000000000");
    assert_eq!(
        read_legacy_room(&lines, &map, None),
        Err(LegacyRoomReadErrors::InvalidLineLengthError { line: 3, got: 20, expected: 21 })
    );
    lines[3] = String::from("00000x000000000000000");
    assert_eq!(
        read_legacy_room(&lines, &map, None),
        Err(LegacyRoomReadErrors::InvalidCharacterError { line: 3, character: 5 })
    );
    lines[3] = String::from("000000900000000000000");
    assert_eq!(
        read_legacy_room(&lines, &map, None),
        Err(LegacyRoomReadErrors::CharacterOutOfRange { line: 3, character: 6, got: 9, max: 4 })
    );
    lines[3] = String::from("0000000000000000000é");
    assert_eq!(
        read_legacy_room(&lines, &map, None),
        Err(LegacyRoomReadErrors::InvalidCharacterError { line: 3, character: 19 })
    );
    lines.insert(0, String::from("name"));
    lines[4] = String::from("0000000000000000000 0");
    assert_eq!(
        read_legacy_room(&lines, &map, None),
        Err(LegacyRoomReadErrors::InvalidCharacterError { line: 3, character: 19 })
    );
}

#[test]
fn old_names_give_row_and_column() {
    assert_eq!(parse_legacy_name("map-3-12"), Some((12, 3)));
    assert_eq!(parse_legacy_name("map-0-255"), Some((255, 0)));
    assert_eq!(parse_legacy_name("map-+3-012"), Some((12, 3)));
    assert_eq!(parse_legacy_name("map-3-256"), None);
    assert_eq!(parse_legacy_name("map-3"), None);
    assert_eq!(parse_legacy_name("map-3-4-5"), None);
    assert_eq!(parse_legacy_name("map--3-4"), None);
    assert_eq!(parse_legacy_name("Map-3-4"), None);
    assert_eq!(parse_legacy_name("maps-3-4"), None);
    assert_eq!(parse_legacy_name("map-3-"), None);
    assert_eq!(parse_legacy_name("map-a-4"), None);
    assert_eq!(parse_legacy_name(""), None);
}

//! Rooms of the old format: sixteen lines of twenty-one digits, under a line
//! with the name of the map or without it.

use vstd::prelude::*;
use vstd::utf8::encode_utf8;

use crate::server::rooms::{parse_u8, spec_parse_u8};
use crate::soaprun::rooms::{CLIENT_ROOM_HEIGHT, CLIENT_ROOM_SIZE, CLIENT_ROOM_WIDTH};

verus! {

/// The lines of an old room under the line with its name.
pub const LEGACY_ROOM_MAX_LINES: usize = 17;

/// Why the lines of a file are no old room.
#[derive(PartialEq, Eq, Structural, Clone, Copy, Debug)]
#[allow(inconsistent_fields)]
pub enum LegacyRoomReadErrors {
    /// The file ends after `got` lines, before the `expected` of a room.
    NotEnoughLinesError { got: usize, expected: usize },
    /// A line of the room holds another number of bytes than a row has tiles.
    InvalidLineLengthError { line: usize, got: usize, expected: usize },
    /// A line of the room holds something else than a digit.
    InvalidCharacterError { line: usize, character: usize },
    /// A line of the room holds a digit for which the conversion has no tile.
    CharacterOutOfRange { line: usize, character: usize, got: u8, max: u8 },
}

/// What is wrong with the byte at `character` of the line `line`, if
/// anything: it must be a digit, and the conversion `map` must hold a tile
/// for it.
pub open spec fn byte_error(byte: u8, map: Seq<u8>, line: usize, character: usize) -> Option<
    LegacyRoomReadErrors,
> {
    if !(0x30 <= byte <= 0x39) {
        Some(LegacyRoomReadErrors::InvalidCharacterError { line, character })
    } else if byte - 0x30 >= map.len() {
        Some(
            LegacyRoomReadErrors::CharacterOutOfRange {
                line,
                character,
                got: (byte - 0x30) as u8,
                max: (map.len() % 256) as u8,
            },
        )
    } else {
        None
    }
}

/// What is wrong with the first of the first `upto` bytes of a line with
/// which something is wrong.
pub open spec fn first_byte_error(bytes: Seq<u8>, map: Seq<u8>, line: usize, upto: int) -> Option<
    LegacyRoomReadErrors,
>
    decreases upto,
{
    if upto <= 0 {
        None
    } else {
        match first_byte_error(bytes, map, line, upto - 1) {
            Some(e) => Some(e),
            None => byte_error(bytes[upto - 1], map, line, (upto - 1) as usize),
        }
    }
}

/// The tiles that the digits of a line stand for.
pub open spec fn line_tiles(bytes: Seq<u8>, map: Seq<u8>) -> Seq<u8> {
    Seq::new(bytes.len(), |i: int| map[bytes[i] - 0x30])
}

/// The row of tiles that the line `line` of a room gives, or what is wrong
/// with it.
pub open spec fn line_result(bytes: Seq<u8>, map: Seq<u8>, line: usize) -> Result<
    Seq<u8>,
    LegacyRoomReadErrors,
> {
    if bytes.len() != CLIENT_ROOM_WIDTH {
        Err(
            LegacyRoomReadErrors::InvalidLineLengthError {
                line,
                got: bytes.len() as usize,
                expected: CLIENT_ROOM_WIDTH,
            },
        )
    } else {
        match first_byte_error(bytes, map, line, bytes.len() as int) {
            Some(e) => Err(e),
            None => Ok(line_tiles(bytes, map)),
        }
    }
}

/// The tiles that the first `upto` of the lines behind the first `start`
/// give, row by row, or what is wrong with the first line with which
/// something is wrong.
pub open spec fn rows_result(lines: Seq<String>, start: int, map: Seq<u8>, upto: int) -> Result<
    Seq<u8>,
    LegacyRoomReadErrors,
>
    decreases upto,
{
    if upto <= 0 {
        Ok(Seq::empty())
    } else {
        match rows_result(lines, start, map, upto - 1) {
            Err(e) => Err(e),
            Ok(tiles) => match line_result(
                encode_utf8(lines[start + upto - 1]@),
                map,
                (upto - 1) as usize,
            ) {
                Err(e) => Err(e),
                Ok(row) => Ok(tiles + row),
            },
        }
    }
}

/// The lines that a room needs: those of its rows, and one more where the
/// file must begin with the name of the map.
pub open spec fn lines_needed(include_name: Option<bool>) -> usize {
    if include_name == Some(true) {
        LEGACY_ROOM_MAX_LINES
    } else {
        CLIENT_ROOM_HEIGHT
    }
}

/// The name and the tiles of the old room of which `lines` are the first
/// lines, seventeen at most: a file of seventeen lines begins with the name
/// of the map, and a shorter one must hold the lines that the room needs.
pub open spec fn spec_read_legacy_room(
    lines: Seq<String>,
    map: Seq<u8>,
    include_name: Option<bool>,
) -> Result<(Seq<char>, Seq<u8>), LegacyRoomReadErrors> {
    if lines.len() < LEGACY_ROOM_MAX_LINES && lines.len() < lines_needed(include_name) {
        Err(
            LegacyRoomReadErrors::NotEnoughLinesError {
                got: lines.len() as usize,
                expected: lines_needed(include_name),
            },
        )
    } else {
        let named = lines.len() >= LEGACY_ROOM_MAX_LINES;
        let start: int = if named {
            1
        } else {
            0
        };
        match rows_result(lines, start, map, CLIENT_ROOM_HEIGHT as int) {
            Err(e) => Err(e),
            Ok(tiles) => Ok(
                (
                    if named {
                        lines[0]@
                    } else {
                        Seq::empty()
                    },
                    tiles,
                ),
            ),
        }
    }
}

/// The tiles of a row of an old room are as many as a row has.
proof fn lemma_rows_length(lines: Seq<String>, start: int, map: Seq<u8>, upto: int)
    requires
        0 <= upto,
    ensures
        rows_result(lines, start, map, upto) matches Ok(tiles) ==> tiles.len() == upto * 21,
    decreases upto,
{
    if upto > 0 {
        lemma_rows_length(lines, start, map, upto - 1);
    }
}

#[verifier::loop_isolation(false)]
fn read_line(line: &str, map: &Vec<u8>, index: usize, data: &mut Vec<u8>) -> (r: Result<
    (),
    LegacyRoomReadErrors,
>)
    ensures
        match r {
            Ok(_) => line_result(encode_utf8(line@), map@, index) == Ok::<
                Seq<u8>,
                LegacyRoomReadErrors,
            >(final(data)@.skip(old(data)@.len() as int)) && final(data)@.take(
                old(data)@.len() as int,
            ) == old(data)@ && final(data)@.len() == old(data)@.len() + CLIENT_ROOM_WIDTH,
            Err(e) => line_result(encode_utf8(line@), map@, index) == Err::<
                Seq<u8>,
                LegacyRoomReadErrors,
            >(e),
        },
{
    let bytes = line.as_bytes();
    if bytes.len() != CLIENT_ROOM_WIDTH {
        return Err(
            LegacyRoomReadErrors::InvalidLineLengthError {
                line: index,
                got: bytes.len(),
                expected: CLIENT_ROOM_WIDTH,
            },
        );
    }
    let mut i: usize = 0;
    while i < bytes.len()
        invariant
            i <= bytes.len(),
            bytes@ == encode_utf8(line@),
            first_byte_error(bytes@, map@, index, i as int) is None,
            data@.len() == old(data)@.len() + i,
            data@.take(old(data)@.len() as int) == old(data)@,
            forall|j: int| 0 <= j < i ==> data@[old(data)@.len() + j] == map@[bytes@[j] - 0x30],
        decreases bytes.len() - i,
    {
        let byte = bytes[i];
        if !(0x30 <= byte && byte <= 0x39) {
            assert(first_byte_error(bytes@, map@, index, bytes@.len() as int) == Some(
                LegacyRoomReadErrors::InvalidCharacterError { line: index, character: i },
            )) by {
                lemma_first_error_stays(bytes@, map@, index, i + 1, bytes@.len() as int);
            }
            return Err(LegacyRoomReadErrors::InvalidCharacterError { line: index, character: i });
        }
        let digit = (byte - 0x30) as usize;
        if digit >= map.len() {
            assert(first_byte_error(bytes@, map@, index, bytes@.len() as int) == Some(
                LegacyRoomReadErrors::CharacterOutOfRange {
                    line: index,
                    character: i,
                    got: (byte - 0x30) as u8,
                    max: (map@.len() % 256) as u8,
                },
            )) by {
                lemma_first_error_stays(bytes@, map@, index, i + 1, bytes@.len() as int);
            }
            return Err(
                LegacyRoomReadErrors::CharacterOutOfRange {
                    line: index,
                    character: i,
                    got: byte - 0x30,
                    max: (map.len() % 256) as u8,
                },
            );
        }
        let ghost before = data@;
        data.push(map[digit]);
        assert(data@.take(old(data)@.len() as int) =~= before.take(old(data)@.len() as int));
        i = i + 1;
    }
    assert(data@.skip(old(data)@.len() as int) =~= line_tiles(bytes@, map@));
    Ok(())
}

/// What is wrong with the first bytes of a line is wrong with the line.
proof fn lemma_first_error_stays(bytes: Seq<u8>, map: Seq<u8>, line: usize, failed: int, upto: int)
    requires
        0 <= failed <= upto,
        first_byte_error(bytes, map, line, failed) is Some,
    ensures
        first_byte_error(bytes, map, line, upto) == first_byte_error(bytes, map, line, failed),
    decreases upto - failed,
{
    if failed < upto {
        lemma_first_error_stays(bytes, map, line, failed, upto - 1);
    }
}

/// A room with which the first rows are wrong is wrong with their error.
proof fn lemma_rows_error_stays(
    lines: Seq<String>,
    start: int,
    map: Seq<u8>,
    failed: int,
    upto: int,
)
    requires
        0 <= failed <= upto,
        rows_result(lines, start, map, failed) is Err,
    ensures
        rows_result(lines, start, map, upto) == rows_result(lines, start, map, failed),
    decreases upto - failed,
{
    if failed < upto {
        lemma_rows_error_stays(lines, start, map, failed, upto - 1);
    }
}

/// Reads an old room from the first lines of its file, seventeen at most,
/// and gives the name of the map, if the file has one, and the tiles: each
/// digit stands for the tile that `conversion_map` holds at its place.
/// `include_name` says whether the file must begin with the name.
#[verifier::loop_isolation(false)]
#[verifier::rlimit(40)]
pub fn read_legacy_room(
    lines: &Vec<String>,
    conversion_map: &Vec<u8>,
    include_name: Option<bool>,
) -> (r: Result<(String, Vec<u8>), LegacyRoomReadErrors>)
    ensures
        match r {
            Ok((name, data)) => spec_read_legacy_room(lines@, conversion_map@, include_name)
                == Ok::<(Seq<char>, Seq<u8>), LegacyRoomReadErrors>((name@, data@))
                && data@.len() == CLIENT_ROOM_SIZE,
            Err(e) => spec_read_legacy_room(lines@, conversion_map@, include_name) == Err::<
                (Seq<char>, Seq<u8>),
                LegacyRoomReadErrors,
            >(e),
        },
{
    let needed = match include_name {
        Some(true) => LEGACY_ROOM_MAX_LINES,
        _ => CLIENT_ROOM_HEIGHT,
    };
    if lines.len() < LEGACY_ROOM_MAX_LINES && lines.len() < needed {
        return Err(
            LegacyRoomReadErrors::NotEnoughLinesError { got: lines.len(), expected: needed },
        );
    }
    let named = lines.len() >= LEGACY_ROOM_MAX_LINES;
    let start: usize = if named {
        1
    } else {
        0
    };
    let mut data: Vec<u8> = Vec::with_capacity(CLIENT_ROOM_SIZE);
    let mut i: usize = 0;
    while i < CLIENT_ROOM_HEIGHT
        invariant
            i <= CLIENT_ROOM_HEIGHT,
            start + CLIENT_ROOM_HEIGHT <= lines@.len(),
            start <= 1,
            rows_result(lines@, start as int, conversion_map@, i as int) == Ok::<
                Seq<u8>,
                LegacyRoomReadErrors,
            >(data@),
        decreases CLIENT_ROOM_HEIGHT - i,
    {
        let ghost before = data@;
        match read_line(lines[start + i].as_str(), conversion_map, i, &mut data) {
            Ok(_) => {
                assert(data@.take(before.len() as int) == before);
                assert(data@ =~= before + data@.skip(before.len() as int));
            },
            Err(e) => {
                proof {
                    lemma_rows_error_stays(
                        lines@,
                        start as int,
                        conversion_map@,
                        i + 1,
                        CLIENT_ROOM_HEIGHT as int,
                    );
                }
                return Err(e);
            },
        }
        i = i + 1;
    }
    proof {
        lemma_rows_length(lines@, start as int, conversion_map@, CLIENT_ROOM_HEIGHT as int);
    }
    let name = if named {
        lines[0].clone()
    } else {
        String::new()
    };
    Ok((name, data))
}


/// The most tiles that a conversion can hold.
pub const CONVERSION_MAP_MAX: usize = 255;

/// What separates the parts of the name of an old room's file.
pub const LEGACY_NAME_SEPARATOR: char = '-';

/// Whether the name holds two separators, at `i` and at `j`.
pub open spec fn parted_at(name: Seq<char>, i: int, j: int) -> bool {
    &&& 0 <= i < j < name.len()
    &&& forall|k: int|
        0 <= k < name.len() ==> (#[trigger] name[k] == LEGACY_NAME_SEPARATOR <==> k == i || k
            == j)
}

/// The column and the row of the room that the name of an old file gives:
/// the name is `map`, the row and the column, with a separator between
/// them.
pub open spec fn spec_parse_legacy_name(name: Seq<char>) -> Option<(u8, u8)> {
    if exists|i: int, j: int| parted_at(name, i, j) {
        let (i, j) = choose|i: int, j: int| parted_at(name, i, j);
        match (
            spec_parse_u8(name.subrange(i + 1, j)),
            spec_parse_u8(name.subrange(j + 1, name.len() as int)),
        ) {
            (Some(row), Some(column)) => if name.subrange(0, i) == seq!['m', 'a', 'p'] {
                Some((column, row))
            } else {
                None
            },
            _ => None,
        }
    } else {
        None
    }
}

/// Reads the column and the row of an old room from the name of its file,
/// without the extension.
#[verifier::loop_isolation(false)]
#[verifier::rlimit(40)]
pub fn parse_legacy_name(name: &str) -> (r: Option<(u8, u8)>)
    ensures
        r == spec_parse_legacy_name(name@),
{
    let len = name.unicode_len();
    let mut first: usize = len;
    let mut second: usize = len;
    let mut count: usize = 0;
    let mut k: usize = 0;
    while k < len
        invariant
            k <= len,
            count <= 2,
            count == 0 ==> forall|m: int| 0 <= m < k ==> name@[m] != LEGACY_NAME_SEPARATOR,
            count == 1 ==> first < k && forall|m: int|
                0 <= m < k ==> (name@[m] == LEGACY_NAME_SEPARATOR <==> m == first),
            count == 2 ==> first < second < k && forall|m: int|
                0 <= m < k ==> (name@[m] == LEGACY_NAME_SEPARATOR <==> m == first || m == second),
        decreases len - k,
    {
        if name.get_char(k) == LEGACY_NAME_SEPARATOR {
            if count == 0 {
                first = k;
            } else if count == 1 {
                second = k;
            } else {
                proof {
                    if exists|i: int, j: int| parted_at(name@, i, j) {
                        let (i, j) = choose|i: int, j: int| parted_at(name@, i, j);
                        assert(name@[first as int] == LEGACY_NAME_SEPARATOR);
                        assert(name@[second as int] == LEGACY_NAME_SEPARATOR);
                        assert(name@[k as int] == LEGACY_NAME_SEPARATOR);
                    }
                }
                return None;
            }
            count = count + 1;
        }
        k = k + 1;
    }
    if count != 2 {
        proof {
            if exists|i: int, j: int| parted_at(name@, i, j) {
                let (i, j) = choose|i: int, j: int| parted_at(name@, i, j);
                assert(name@[i] == LEGACY_NAME_SEPARATOR);
                assert(name@[j] == LEGACY_NAME_SEPARATOR);
            }
        }
        return None;
    }
    proof {
        assert(parted_at(name@, first as int, second as int));
        let (i, j) = choose|i: int, j: int| parted_at(name@, i, j);
        assert(name@[i] == LEGACY_NAME_SEPARATOR);
        assert(name@[j] == LEGACY_NAME_SEPARATOR);
        assert(i == first && j == second);
    }
    let is_map = first == 3 && name.get_char(0) == 'm' && name.get_char(1) == 'a' && name.get_char(
        2,
    ) == 'p';
    proof {
        if is_map {
            assert(name@.subrange(0, first as int) =~= seq!['m', 'a', 'p']);
        } else if first == 3 {
            assert(name@.subrange(0, 3)[0] == name@[0]);
            assert(name@.subrange(0, 3)[1] == name@[1]);
            assert(name@.subrange(0, 3)[2] == name@[2]);
        } else {
            assert(name@.subrange(0, first as int).len() != 3);
        }
    }
    let row = parse_u8(name, first + 1, second);
    let column = parse_u8(name, second + 1, len);
    match (row, column) {
        (Some(row), Some(column)) => if is_map {
            Some((column, row))
        } else {
            None
        },
        _ => None,
    }
}

} // verus!

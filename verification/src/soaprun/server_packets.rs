use vstd::prelude::*;
use vstd::slice::slice_subrange;

use super::client_packets::{
    lemma_i16_round_trip, lemma_i8_round_trip, lemma_positions_bytes, lemma_positions_length,
    lemma_u16_round_trip, MAX_MOVEMENTS,
};
use super::map_attributes::spec_u16_le;
use super::packets::{
    copy_bytes, is_kind,
    read_i16,
    read_i8,
    read_position,
    read_u16,
    soaprunners_view,
    units_view,
    fields_fit,
    position_at,
    positions_bytes,
    soaprunner_bytes,
    soaprunners_bytes,
    spec_i16_bytes,
    spec_i16_le,
    spec_i8,
    spec_i8_byte,
    spec_u16_bytes,
    spec_write_packet,
    tile_bytes,
    tiles_bytes,
    unit_bytes,
    units_bytes,
    ChangedTile,
    ServerPacketsView,
    Weather,
    CONNECTION_TEST_DATA_SIZE,
    PACKET_TYPE_FIELDS,
    PACKET_TYPE_MAP_ATTRIBUTES,
    PACKET_TYPE_PROTOCOL,
    PACKET_TYPE_ROOM,
    PACKET_TYPE_TEST,
    PACKET_TYPE_VOID,
    PACKET_TYPE_WELCOME,
    PROTOCOL_BUFFER_SIZE,
};
use super::position::Position;
use super::map_attributes::MapAttributes;
use super::rooms::{Room, RoomCoordinates, CLIENT_ROOM_SIZE};
use super::soaprunners::{
    lemma_items_bits_round_trip, Soaprunner, SoaprunnerColors, SoaprunnerItems, SoaprunnerSprites,
    SoaprunnerView,
};
use super::units::{Unit, UnitStates, UnitTypes, UnitView};

verus! {

/// The positions of which the bytes stand in `data` from `at` on.
pub open spec fn positions_at(data: Seq<u8>, at: int, count: nat) -> Seq<Position> {
    Seq::new(count, |i: int| position_at(data, at + 4 * i))
}

/// The record of a player that begins at `at`, and where it ends.
pub open spec fn read_soaprunner(data: Seq<u8>, at: int) -> Option<((usize, SoaprunnerView), int)> {
    if at < 0 || at + 6 > data.len() || at + 6 + 4 * data[at + 5] > data.len() {
        None
    } else {
        match (
            SoaprunnerSprites::spec_from_code(data[at + 2]),
            SoaprunnerColors::spec_from_code(data[at + 3]),
        ) {
            (Some(sprite), Some(color)) => Some(
                (
                    (
                        data[at] as usize,
                        SoaprunnerView {
                            teleport_trigger: data[at + 1],
                            sprite,
                            color,
                            items: SoaprunnerItems::spec_from_bits_truncate(data[at + 4]),
                            movements: positions_at(data, at + 6, data[at + 5] as nat),
                        },
                    ),
                    at + 6 + 4 * data[at + 5],
                ),
            ),
            _ => None,
        }
    }
}

/// The records of `count` players that begin at `at`, and where they end.
pub open spec fn read_soaprunners(data: Seq<u8>, at: int, count: nat) -> Option<
    (Seq<(usize, SoaprunnerView)>, int),
>
    decreases count,
{
    if count == 0 {
        Some((Seq::empty(), at))
    } else {
        match read_soaprunner(data, at) {
            None => None,
            Some((first, next)) => match read_soaprunners(data, next, (count - 1) as nat) {
                None => None,
                Some((rest, end)) => Some((seq![first] + rest, end)),
            },
        }
    }
}

/// The record of an entity that begins at `at`, and where it ends.
pub open spec fn read_unit(data: Seq<u8>, at: int) -> Option<((usize, UnitView), int)> {
    if at < 0 || at + 6 > data.len() || at + 6 + 4 * data[at + 5] > data.len() {
        None
    } else {
        match (
            UnitStates::spec_from_code(data[at + 2]),
            UnitTypes::spec_from_code(data[at + 3]),
        ) {
            (Some(unit_state), Some(unit_type)) => Some(
                (
                    (
                        data[at] as usize,
                        UnitView {
                            teleport_trigger: data[at + 1],
                            unit_state,
                            unit_type,
                            direction: data[at + 4],
                            movements: positions_at(data, at + 6, data[at + 5] as nat),
                        },
                    ),
                    at + 6 + 4 * data[at + 5],
                ),
            ),
            _ => None,
        }
    }
}

/// The records of `count` entities that begin at `at`, and where they end.
pub open spec fn read_units(data: Seq<u8>, at: int, count: nat) -> Option<
    (Seq<(usize, UnitView)>, int),
>
    decreases count,
{
    if count == 0 {
        Some((Seq::empty(), at))
    } else {
        match read_unit(data, at) {
            None => None,
            Some((first, next)) => match read_units(data, next, (count - 1) as nat) {
                None => None,
                Some((rest, end)) => Some((seq![first] + rest, end)),
            },
        }
    }
}

/// The changed tile of which the record begins at `at`.
pub open spec fn tile_at(data: Seq<u8>, at: int) -> ChangedTile {
    ChangedTile {
        x: spec_i16_le(data[at], data[at + 1]),
        y: spec_i16_le(data[at + 2], data[at + 3]),
        tile: data[at + 4],
    }
}

/// The records of `count` changed tiles that begin at `at` and fill the
/// rest of the data.
pub open spec fn read_tiles(data: Seq<u8>, at: int, count: nat) -> Option<Seq<ChangedTile>> {
    if at < 0 || at + 6 * count != data.len() {
        None
    } else {
        Some(Seq::new(count, |i: int| tile_at(data, at + 6 * i)))
    }
}

/// The snapshot that a body stands for.
pub open spec fn spec_read_fields(body: Seq<u8>) -> Option<ServerPacketsView> {
    if body.len() < 7 {
        None
    } else {
        match (
            SoaprunnerSprites::spec_from_code(body[0]),
            SoaprunnerColors::spec_from_code(body[1]),
            Weather::spec_from_code(body[6]),
            read_soaprunners(body, 7, body[3] as nat),
        ) {
            (Some(client_state), Some(client_color), Some(weather), Some((soaprunners, next))) => {
                match read_units(body, next, body[4] as nat) {
                    Some((entities, end)) => match read_tiles(body, end, body[5] as nat) {
                        Some(tiles) => Some(
                            ServerPacketsView::Fields {
                                client_state,
                                client_color,
                                client_items: SoaprunnerItems::spec_from_bits_truncate(body[2]),
                                weather,
                                soaprunners,
                                entities,
                                tiles,
                            },
                        ),
                        None => None,
                    },
                    None => None,
                }
            },
            _ => None,
        }
    }
}

/// The packet of the server that the bytes `packet` stand for: four bytes
/// of type and the body that the type asks for.
pub open spec fn spec_read_server_packet(packet: Seq<u8>) -> Option<ServerPacketsView> {
    if packet.len() < 4 {
        None
    } else {
        let kind = packet.subrange(0, 4);
        let body = packet.subrange(4, packet.len() as int);
        if kind == PACKET_TYPE_WELCOME@ {
            if body.len() == 0 {
                Some(ServerPacketsView::Welcome)
            } else {
                None
            }
        } else if kind == PACKET_TYPE_VOID@ {
            if body.len() == 0 {
                Some(ServerPacketsView::Void)
            } else {
                None
            }
        } else if kind == PACKET_TYPE_PROTOCOL@ {
            if body.len() == PROTOCOL_BUFFER_SIZE + 2 {
                Some(
                    ServerPacketsView::Protocol {
                        protocol: body.subrange(0, 8),
                        version: spec_u16_le(body[8], body[9]),
                    },
                )
            } else {
                None
            }
        } else if kind == PACKET_TYPE_TEST@ {
            if body.len() == CONNECTION_TEST_DATA_SIZE {
                Some(ServerPacketsView::ConnectionTest { data: body })
            } else {
                None
            }
        } else if kind == PACKET_TYPE_MAP_ATTRIBUTES@ {
            if body.len() >= 4 && body.len() - 4 == spec_u16_le(body[0], body[1]) * spec_u16_le(
                body[2],
                body[3],
            ) {
                Some(
                    ServerPacketsView::MapAttributesResponse {
                        width: spec_u16_le(body[0], body[1]),
                        height: spec_u16_le(body[2], body[3]),
                        attributes: body.subrange(4, body.len() as int),
                    },
                )
            } else {
                None
            }
        } else if kind == PACKET_TYPE_ROOM@ {
            if body.len() == 2 + CLIENT_ROOM_SIZE {
                Some(
                    ServerPacketsView::RoomResponse {
                        coords: RoomCoordinates { x: spec_i8(body[0]), y: spec_i8(body[1]) },
                        room: body.subrange(2, body.len() as int),
                    },
                )
            } else {
                None
            }
        } else if kind == PACKET_TYPE_FIELDS@ {
            spec_read_fields(body)
        } else {
            None
        }
    }
}

/// Whether the record of a player can be written so that it can be read
/// again: its number is one byte, and its movements are no more than a
/// record holds.
pub open spec fn soaprunner_fits(record: (usize, SoaprunnerView)) -> bool {
    record.0 < 256 && record.1.movements.len() <= MAX_MOVEMENTS
}

/// Whether the record of an entity can be written so that it can be read
/// again.
pub open spec fn unit_fits(record: (usize, UnitView)) -> bool {
    record.0 < 256 && record.1.movements.len() <= MAX_MOVEMENTS
}

/// Whether a packet of the server can be written so that it can be read
/// again: it holds as many bytes as its kind has, or as its size says, and a
/// snapshot lists no more than a client takes, in records that can be read
/// again.
pub open spec fn server_packet_fits(packet: ServerPacketsView) -> bool {
    match packet {
        ServerPacketsView::Protocol { protocol, version } => protocol.len()
            == PROTOCOL_BUFFER_SIZE,
        ServerPacketsView::ConnectionTest { data } => data.len() == CONNECTION_TEST_DATA_SIZE,
        ServerPacketsView::MapAttributesResponse { width, height, attributes } => attributes.len()
            == width * height,
        ServerPacketsView::RoomResponse { coords, room } => room.len() == CLIENT_ROOM_SIZE,
        ServerPacketsView::Fields {
            client_state,
            client_color,
            client_items,
            weather,
            soaprunners,
            entities,
            tiles,
        } => {
            &&& fields_fit(soaprunners.len(), entities.len(), tiles.len())
            &&& forall|i: int| 0 <= i < soaprunners.len() ==> soaprunner_fits(#[trigger] soaprunners[i])
            &&& forall|i: int| 0 <= i < entities.len() ==> unit_fits(#[trigger] entities[i])
        },
        _ => true,
    }
}

/// The positions that were written are read where they stand.
proof fn lemma_positions_at(data: Seq<u8>, at: int, s: Seq<Position>)
    requires
        0 <= at,
        at + 4 * s.len() <= data.len(),
        data.subrange(at, at + 4 * s.len()) == positions_bytes(s),
    ensures
        positions_at(data, at, s.len()) == s,
{
    lemma_positions_length(s);
    let bytes = positions_bytes(s);
    assert forall|i: int| 0 <= i < s.len() implies positions_at(data, at, s.len())[i] == s[i] by {
        lemma_positions_bytes(s, i);
        assert(data[at + 4 * i] == data.subrange(at, at + 4 * s.len())[4 * i]);
        assert(data[at + 4 * i + 1] == data.subrange(at, at + 4 * s.len())[4 * i + 1]);
        assert(data[at + 4 * i + 2] == data.subrange(at, at + 4 * s.len())[4 * i + 2]);
        assert(data[at + 4 * i + 3] == data.subrange(at, at + 4 * s.len())[4 * i + 3]);
    }
    assert(positions_at(data, at, s.len()) =~= s);
}

/// The record of a player that was written is read where it stands.
proof fn lemma_soaprunner_at(data: Seq<u8>, at: int, record: (usize, SoaprunnerView))
    requires
        soaprunner_fits(record),
        0 <= at,
        at + soaprunner_bytes(record.0, record.1).len() <= data.len(),
        data.subrange(at, at + soaprunner_bytes(record.0, record.1).len()) == soaprunner_bytes(
            record.0,
            record.1,
        ),
    ensures
        read_soaprunner(data, at) == Some((record, at + soaprunner_bytes(record.0, record.1).len())),
        soaprunner_bytes(record.0, record.1).len() == 6 + 4 * record.1.movements.len(),
{
    let bytes = soaprunner_bytes(record.0, record.1);
    let s = record.1;
    lemma_positions_length(s.movements);
    lemma_items_bits_round_trip(s.items);
    let part = data.subrange(at, at + bytes.len());
    assert(data[at] == part[0]);
    assert(data[at + 1] == part[1]);
    assert(data[at + 2] == part[2]);
    assert(data[at + 3] == part[3]);
    assert(data[at + 4] == part[4]);
    assert(data[at + 5] == part[5]);
    assert(data.subrange(at + 6, at + 6 + 4 * s.movements.len()) =~= positions_bytes(s.movements))
        by {
        assert(part.subrange(6, bytes.len() as int) =~= positions_bytes(s.movements));
        assert(data.subrange(at + 6, at + 6 + 4 * s.movements.len()) =~= part.subrange(
            6,
            bytes.len() as int,
        ));
    }
    lemma_positions_at(data, at + 6, s.movements);
}

/// The record of an entity that was written is read where it stands.
proof fn lemma_unit_at(data: Seq<u8>, at: int, record: (usize, UnitView))
    requires
        unit_fits(record),
        0 <= at,
        at + unit_bytes(record.0, record.1).len() <= data.len(),
        data.subrange(at, at + unit_bytes(record.0, record.1).len()) == unit_bytes(
            record.0,
            record.1,
        ),
    ensures
        read_unit(data, at) == Some((record, at + unit_bytes(record.0, record.1).len())),
        unit_bytes(record.0, record.1).len() == 6 + 4 * record.1.movements.len(),
{
    let bytes = unit_bytes(record.0, record.1);
    let u = record.1;
    lemma_positions_length(u.movements);
    let part = data.subrange(at, at + bytes.len());
    assert(data[at] == part[0]);
    assert(data[at + 1] == part[1]);
    assert(data[at + 2] == part[2]);
    assert(data[at + 3] == part[3]);
    assert(data[at + 4] == part[4]);
    assert(data[at + 5] == part[5]);
    assert(data.subrange(at + 6, at + 6 + 4 * u.movements.len()) =~= positions_bytes(u.movements))
        by {
        assert(part.subrange(6, bytes.len() as int) =~= positions_bytes(u.movements));
        assert(data.subrange(at + 6, at + 6 + 4 * u.movements.len()) =~= part.subrange(
            6,
            bytes.len() as int,
        ));
    }
    lemma_positions_at(data, at + 6, u.movements);
}

/// The records of a list of players are the record of the first and the
/// records of the others.
proof fn lemma_soaprunners_first(s: Seq<(usize, SoaprunnerView)>)
    requires
        s.len() > 0,
    ensures
        soaprunners_bytes(s) == soaprunner_bytes(s[0].0, s[0].1) + soaprunners_bytes(
            s.drop_first(),
        ),
    decreases s.len(),
{
    if s.len() == 1 {
        assert(s.drop_last() =~= Seq::<(usize, SoaprunnerView)>::empty());
        assert(s.drop_first() =~= Seq::<(usize, SoaprunnerView)>::empty());
        assert(soaprunners_bytes(s) =~= soaprunner_bytes(s[0].0, s[0].1) + soaprunners_bytes(
            s.drop_first(),
        ));
    } else {
        lemma_soaprunners_first(s.drop_last());
        assert(s.drop_last().drop_first() =~= s.drop_first().drop_last());
        assert(s.drop_first().last() == s.last());
        assert(s.drop_last()[0] == s[0]);
        assert(soaprunners_bytes(s) =~= soaprunner_bytes(s[0].0, s[0].1) + soaprunners_bytes(
            s.drop_first(),
        ));
    }
}

/// The records of a list of entities are the record of the first and the
/// records of the others.
proof fn lemma_units_first(s: Seq<(usize, UnitView)>)
    requires
        s.len() > 0,
    ensures
        units_bytes(s) == unit_bytes(s[0].0, s[0].1) + units_bytes(s.drop_first()),
    decreases s.len(),
{
    if s.len() == 1 {
        assert(s.drop_last() =~= Seq::<(usize, UnitView)>::empty());
        assert(s.drop_first() =~= Seq::<(usize, UnitView)>::empty());
        assert(units_bytes(s) =~= unit_bytes(s[0].0, s[0].1) + units_bytes(s.drop_first()));
    } else {
        lemma_units_first(s.drop_last());
        assert(s.drop_last().drop_first() =~= s.drop_first().drop_last());
        assert(s.drop_first().last() == s.last());
        assert(s.drop_last()[0] == s[0]);
        assert(units_bytes(s) =~= unit_bytes(s[0].0, s[0].1) + units_bytes(s.drop_first()));
    }
}

/// The records of players that were written are read where they stand.
proof fn lemma_soaprunners_at(data: Seq<u8>, at: int, s: Seq<(usize, SoaprunnerView)>)
    requires
        forall|i: int| 0 <= i < s.len() ==> soaprunner_fits(#[trigger] s[i]),
        0 <= at,
        at + soaprunners_bytes(s).len() <= data.len(),
        data.subrange(at, at + soaprunners_bytes(s).len()) == soaprunners_bytes(s),
    ensures
        read_soaprunners(data, at, s.len()) == Some((s, at + soaprunners_bytes(s).len())),
    decreases s.len(),
{
    if s.len() == 0 {
        assert(s =~= Seq::<(usize, SoaprunnerView)>::empty());
    } else {
        lemma_soaprunners_first(s);
        let first = soaprunner_bytes(s[0].0, s[0].1);
        let rest = soaprunners_bytes(s.drop_first());
        let all = soaprunners_bytes(s);
        assert(data.subrange(at, at + first.len()) =~= first) by {
            assert(data.subrange(at, at + first.len()) =~= data.subrange(
                at,
                at + all.len(),
            ).subrange(0, first.len() as int));
            assert(all.subrange(0, first.len() as int) =~= first);
        }
        assert(data.subrange(at + first.len(), at + first.len() + rest.len()) =~= rest) by {
            assert(data.subrange(at + first.len(), at + first.len() + rest.len())
                =~= data.subrange(at, at + all.len()).subrange(
                first.len() as int,
                all.len() as int,
            ));
            assert(all.subrange(first.len() as int, all.len() as int) =~= rest);
        }
        assert(soaprunner_fits(s[0]));
        lemma_soaprunner_at(data, at, s[0]);
        assert forall|i: int| 0 <= i < s.drop_first().len() implies soaprunner_fits(
            #[trigger] s.drop_first()[i],
        ) by {
            assert(s.drop_first()[i] == s[i + 1]);
        }
        lemma_soaprunners_at(data, at + first.len(), s.drop_first());
        assert(seq![s[0]] + s.drop_first() =~= s);
    }
}

/// The records of entities that were written are read where they stand.
proof fn lemma_units_at(data: Seq<u8>, at: int, s: Seq<(usize, UnitView)>)
    requires
        forall|i: int| 0 <= i < s.len() ==> unit_fits(#[trigger] s[i]),
        0 <= at,
        at + units_bytes(s).len() <= data.len(),
        data.subrange(at, at + units_bytes(s).len()) == units_bytes(s),
    ensures
        read_units(data, at, s.len()) == Some((s, at + units_bytes(s).len())),
    decreases s.len(),
{
    if s.len() == 0 {
        assert(s =~= Seq::<(usize, UnitView)>::empty());
    } else {
        lemma_units_first(s);
        let first = unit_bytes(s[0].0, s[0].1);
        let rest = units_bytes(s.drop_first());
        let all = units_bytes(s);
        assert(data.subrange(at, at + first.len()) =~= first) by {
            assert(data.subrange(at, at + first.len()) =~= data.subrange(
                at,
                at + all.len(),
            ).subrange(0, first.len() as int));
            assert(all.subrange(0, first.len() as int) =~= first);
        }
        assert(data.subrange(at + first.len(), at + first.len() + rest.len()) =~= rest) by {
            assert(data.subrange(at + first.len(), at + first.len() + rest.len())
                =~= data.subrange(at, at + all.len()).subrange(
                first.len() as int,
                all.len() as int,
            ));
            assert(all.subrange(first.len() as int, all.len() as int) =~= rest);
        }
        assert(unit_fits(s[0]));
        lemma_unit_at(data, at, s[0]);
        assert forall|i: int| 0 <= i < s.drop_first().len() implies unit_fits(
            #[trigger] s.drop_first()[i],
        ) by {
            assert(s.drop_first()[i] == s[i + 1]);
        }
        lemma_units_at(data, at + first.len(), s.drop_first());
        assert(seq![s[0]] + s.drop_first() =~= s);
    }
}

/// The records of a list of tiles are six bytes for each, and hold each
/// tile at its place.
proof fn lemma_tiles_bytes(s: Seq<ChangedTile>, i: int)
    requires
        0 <= i < s.len(),
    ensures
        tiles_bytes(s).len() == 6 * s.len(),
        tile_at(tiles_bytes(s), 6 * i) == s[i],
    decreases s.len(),
{
    lemma_tiles_length(s);
    lemma_tiles_length(s.drop_last());
    let front = tiles_bytes(s.drop_last());
    let all = tiles_bytes(s);
    if i == s.len() - 1 {
        let t = s.last();
        lemma_i16_round_trip(t.x);
        lemma_i16_round_trip(t.y);
        let record = tile_bytes(t);
        assert(all[6 * i] == record[0]);
        assert(all[6 * i + 1] == record[1]);
        assert(all[6 * i + 2] == record[2]);
        assert(all[6 * i + 3] == record[3]);
        assert(all[6 * i + 4] == record[4]);
        assert(record[0] == spec_i16_bytes(t.x)[0]);
        assert(record[1] == spec_i16_bytes(t.x)[1]);
        assert(record[2] == spec_i16_bytes(t.y)[0]);
        assert(record[3] == spec_i16_bytes(t.y)[1]);
        assert(record[4] == t.tile);
    } else {
        lemma_tiles_bytes(s.drop_last(), i);
        assert(all[6 * i] == front[6 * i]);
        assert(all[6 * i + 1] == front[6 * i + 1]);
        assert(all[6 * i + 2] == front[6 * i + 2]);
        assert(all[6 * i + 3] == front[6 * i + 3]);
        assert(all[6 * i + 4] == front[6 * i + 4]);
    }
}

/// The records of a list of tiles are six bytes for each.
proof fn lemma_tiles_length(s: Seq<ChangedTile>)
    ensures
        tiles_bytes(s).len() == 6 * s.len(),
    decreases s.len(),
{
    if s.len() > 0 {
        lemma_tiles_length(s.drop_last());
        lemma_i16_round_trip(s.last().x);
        lemma_i16_round_trip(s.last().y);
    }
}

/// The records of tiles that were written at the end are read from where
/// they begin.
proof fn lemma_tiles_at(data: Seq<u8>, at: int, s: Seq<ChangedTile>)
    requires
        0 <= at,
        at + tiles_bytes(s).len() == data.len(),
        data.subrange(at, data.len() as int) == tiles_bytes(s),
    ensures
        read_tiles(data, at, s.len()) == Some(s),
{
    lemma_tiles_length(s);
    let read = Seq::new(s.len(), |i: int| tile_at(data, at + 6 * i));
    assert forall|i: int| 0 <= i < s.len() implies read[i] == s[i] by {
        lemma_tiles_bytes(s, i);
        let part = data.subrange(at, data.len() as int);
        assert(data[at + 6 * i] == part[6 * i]);
        assert(data[at + 6 * i + 1] == part[6 * i + 1]);
        assert(data[at + 6 * i + 2] == part[6 * i + 2]);
        assert(data[at + 6 * i + 3] == part[6 * i + 3]);
        assert(data[at + 6 * i + 4] == part[6 * i + 4]);
    }
    assert(read =~= s);
}


/// The first bytes of the types of the packets of the server.
proof fn lemma_server_kinds_differ()
    ensures
        PACKET_TYPE_WELCOME@[0] == 0x57,
        PACKET_TYPE_VOID@[0] == 0x56,
        PACKET_TYPE_PROTOCOL@[0] == 0x50,
        PACKET_TYPE_TEST@[0] == 0x54,
        PACKET_TYPE_MAP_ATTRIBUTES@[0] == 0x6d,
        PACKET_TYPE_ROOM@[0] == 0x52,
        PACKET_TYPE_FIELDS@[0] == 0x46,
{
}

#[verifier::rlimit(40)]
proof fn lemma_round_trip_fields(packet: ServerPacketsView)
    requires
        server_packet_fits(packet),
        packet is Fields,
    ensures
        spec_write_packet(packet) is Ok,
        spec_read_fields(
            spec_write_packet(packet).unwrap().subrange(
                4,
                spec_write_packet(packet).unwrap().len() as int,
            ),
        ) == Some(packet),
{
    match packet {
        ServerPacketsView::Fields {
            client_state,
            client_color,
            client_items,
            weather,
            soaprunners,
            entities,
            tiles,
        } => {
            let bytes = spec_write_packet(packet).unwrap();
            let head = seq![
                client_state.spec_code(),
                client_color.spec_code(),
                client_items.spec_bits(),
                soaprunners.len() as u8,
                entities.len() as u8,
                tiles.len() as u8,
                weather.spec_code(),
            ];
            let players = soaprunners_bytes(soaprunners);
            let units = units_bytes(entities);
            let changes = tiles_bytes(tiles);
            let body = bytes.subrange(4, bytes.len() as int);
            assert(body =~= head + players + units + changes);
            assert(body[0] == head[0]);
            assert(body[1] == head[1]);
            assert(body[2] == head[2]);
            assert(body[3] == head[3]);
            assert(body[4] == head[4]);
            assert(body[5] == head[5]);
            assert(body[6] == head[6]);
            lemma_items_bits_round_trip(client_items);
            let next: int = 7 + players.len() as int;
            assert(body.subrange(7, next) =~= players);
            lemma_soaprunners_at(body, 7, soaprunners);
            let end: int = next + units.len() as int;
            assert(body.subrange(next, end) =~= units);
            lemma_units_at(body, next, entities);
            assert(body.subrange(end, body.len() as int) =~= changes);
            lemma_tiles_at(body, end, tiles);
        },
        _ => {},
    }
}

proof fn lemma_round_trip_simple(packet: ServerPacketsView)
    requires
        server_packet_fits(packet),
        !(packet is Fields),
    ensures
        spec_write_packet(packet) is Ok,
        spec_read_server_packet(spec_write_packet(packet).unwrap()) == Some(packet),
{
    lemma_server_kinds_differ();
    let bytes = spec_write_packet(packet).unwrap();
    let body = bytes.subrange(4, bytes.len() as int);
    match packet {
        ServerPacketsView::Welcome => {
            assert(bytes.subrange(0, 4) =~= PACKET_TYPE_WELCOME@);
        },
        ServerPacketsView::Void => {
            assert(bytes.subrange(0, 4) =~= PACKET_TYPE_VOID@);
        },
        ServerPacketsView::Protocol { protocol, version } => {
            lemma_u16_round_trip(version);
            assert(bytes.subrange(0, 4) =~= PACKET_TYPE_PROTOCOL@);
            assert(body =~= protocol + spec_u16_bytes(version));
            assert(body.subrange(0, 8) =~= protocol);
            assert(body[8] == spec_u16_bytes(version)[0]);
            assert(body[9] == spec_u16_bytes(version)[1]);
        },
        ServerPacketsView::ConnectionTest { data } => {
            assert(bytes.subrange(0, 4) =~= PACKET_TYPE_TEST@);
            assert(body =~= data);
        },
        ServerPacketsView::MapAttributesResponse { width, height, attributes } => {
            lemma_u16_round_trip(width);
            lemma_u16_round_trip(height);
            assert(bytes.subrange(0, 4) =~= PACKET_TYPE_MAP_ATTRIBUTES@);
            assert(body =~= spec_u16_bytes(width) + spec_u16_bytes(height) + attributes);
            assert(body[0] == spec_u16_bytes(width)[0]);
            assert(body[1] == spec_u16_bytes(width)[1]);
            assert(body[2] == spec_u16_bytes(height)[0]);
            assert(body[3] == spec_u16_bytes(height)[1]);
            assert(body.subrange(4, body.len() as int) =~= attributes);
        },
        ServerPacketsView::RoomResponse { coords, room } => {
            lemma_i8_round_trip(coords.x);
            lemma_i8_round_trip(coords.y);
            assert(bytes.subrange(0, 4) =~= PACKET_TYPE_ROOM@);
            assert(body =~= seq![spec_i8_byte(coords.x), spec_i8_byte(coords.y)] + room);
            assert(body[0] == spec_i8_byte(coords.x));
            assert(body[1] == spec_i8_byte(coords.y));
            assert(body.subrange(2, body.len() as int) =~= room);
        },
        _ => {},
    }
}

/// A packet of the type of a snapshot is read as a snapshot.
proof fn lemma_read_as_fields(bytes: Seq<u8>)
    requires
        bytes.len() >= 4,
        bytes.subrange(0, 4) == PACKET_TYPE_FIELDS@,
    ensures
        spec_read_server_packet(bytes) == spec_read_fields(bytes.subrange(4, bytes.len() as int)),
{
    lemma_server_kinds_differ();
}

/// The bytes of a snapshot begin with the type of a snapshot.
proof fn lemma_fields_kind(packet: ServerPacketsView)
    requires
        server_packet_fits(packet),
        packet is Fields,
    ensures
        spec_write_packet(packet) is Ok,
        spec_write_packet(packet).unwrap().len() >= 4,
        spec_write_packet(packet).unwrap().subrange(0, 4) == PACKET_TYPE_FIELDS@,
{
    let bytes = spec_write_packet(packet).unwrap();
    assert(bytes.subrange(0, 4) =~= PACKET_TYPE_FIELDS@);
}

/// Every packet of the server that was written is read as the packet it
/// was.
pub proof fn lemma_server_packet_round_trip(packet: ServerPacketsView)
    requires
        server_packet_fits(packet),
    ensures
        spec_write_packet(packet) is Ok,
        spec_read_server_packet(spec_write_packet(packet).unwrap()) == Some(packet),
{
    if packet is Fields {
        lemma_round_trip_fields(packet);
        lemma_fields_kind(packet);
        lemma_read_as_fields(spec_write_packet(packet).unwrap());
    } else {
        lemma_round_trip_simple(packet);
    }
}


/// What a client receives: a packet of the server that holds what it
/// carries.
pub enum ReceivedPackets {
    Welcome,
    Protocol { protocol: [u8; 8], version: u16 },
    MapAttributesResponse { map_attributes: MapAttributes },
    RoomResponse { coords: RoomCoordinates, room: Room },
    Fields {
        client_state: SoaprunnerSprites,
        client_color: SoaprunnerColors,
        client_items: SoaprunnerItems,
        weather: Weather,
        soaprunners: Vec<(usize, Soaprunner)>,
        entities: Vec<(usize, Unit)>,
        tiles: Vec<ChangedTile>,
    },
    ConnectionTest { data: [u8; 508] },
    Void,
}

impl View for ReceivedPackets {
    type V = ServerPacketsView;

    open spec fn view(&self) -> ServerPacketsView {
        match *self {
            ReceivedPackets::Welcome => ServerPacketsView::Welcome,
            ReceivedPackets::Protocol { protocol, version } => ServerPacketsView::Protocol {
                protocol: protocol@,
                version,
            },
            ReceivedPackets::MapAttributesResponse { map_attributes } => {
                ServerPacketsView::MapAttributesResponse {
                    width: map_attributes.width,
                    height: map_attributes.height,
                    attributes: map_attributes.attributes@,
                }
            },
            ReceivedPackets::RoomResponse { coords, room } => ServerPacketsView::RoomResponse {
                coords,
                room: room.data@,
            },
            ReceivedPackets::Fields {
                client_state,
                client_color,
                client_items,
                weather,
                soaprunners,
                entities,
                tiles,
            } => ServerPacketsView::Fields {
                client_state,
                client_color,
                client_items,
                weather,
                soaprunners: soaprunners_view(soaprunners@),
                entities: units_view(entities@),
                tiles: tiles@,
            },
            ReceivedPackets::ConnectionTest { data } => ServerPacketsView::ConnectionTest {
                data: data@,
            },
            ReceivedPackets::Void => ServerPacketsView::Void,
        }
    }
}

/// A packet that was received, or none, as a plain value.
pub open spec fn received_view(r: Option<ReceivedPackets>) -> Option<ServerPacketsView> {
    match r {
        Some(p) => Some(p@),
        None => None,
    }
}

fn read_positions(data: &[u8], at: usize, count: usize) -> (r: Vec<Position>)
    requires
        at + 4 * count <= data.len(),
    ensures
        r@ == positions_at(data@, at as int, count as nat),
{
    let mut positions: Vec<Position> = Vec::with_capacity(count);
    let mut i: usize = 0;
    while i < count
        invariant
            i <= count,
            at + 4 * count <= data.len(),
            positions@.len() == i,
            forall|j: int| 0 <= j < i ==> positions@[j] == position_at(data@, at + 4 * j),
        decreases count - i,
    {
        positions.push(read_position(data, at + 4 * i));
        i = i + 1;
    }
    assert(positions@ =~= positions_at(data@, at as int, count as nat));
    positions
}

fn receive_soaprunner(data: &[u8], at: usize) -> (r: Option<((usize, Soaprunner), usize)>)
    ensures
        match r {
            Some((record, next)) => read_soaprunner(data@, at as int) == Some(
                ((record.0, record.1@), next as int),
            ),
            None => read_soaprunner(data@, at as int) is None,
        },
{
    if data.len() < 6 || at > data.len() - 6 {
        return None;
    }
    let count = data[at + 5] as usize;
    if 4 * count > data.len() - 6 - at {
        return None;
    }
    let sprite = match SoaprunnerSprites::from_code(data[at + 2]) {
        Some(sprite) => sprite,
        None => {
            return None;
        },
    };
    let color = match SoaprunnerColors::from_code(data[at + 3]) {
        Some(color) => color,
        None => {
            return None;
        },
    };
    Some(
        (
            (
                data[at] as usize,
                Soaprunner {
                    teleport_trigger: data[at + 1],
                    sprite,
                    color,
                    items: SoaprunnerItems::from_bits_truncate(data[at + 4]),
                    movements: read_positions(data, at + 6, count),
                },
            ),
            at + 6 + 4 * count,
        ),
    )
}

fn receive_unit(data: &[u8], at: usize) -> (r: Option<((usize, Unit), usize)>)
    ensures
        match r {
            Some((record, next)) => read_unit(data@, at as int) == Some(
                ((record.0, record.1@), next as int),
            ),
            None => read_unit(data@, at as int) is None,
        },
{
    if data.len() < 6 || at > data.len() - 6 {
        return None;
    }
    let count = data[at + 5] as usize;
    if 4 * count > data.len() - 6 - at {
        return None;
    }
    let unit_state = match UnitStates::from_code(data[at + 2]) {
        Some(state) => state,
        None => {
            return None;
        },
    };
    let unit_type = match UnitTypes::from_code(data[at + 3]) {
        Some(kind) => kind,
        None => {
            return None;
        },
    };
    Some(
        (
            (
                data[at] as usize,
                Unit {
                    teleport_trigger: data[at + 1],
                    unit_state,
                    unit_type,
                    direction: data[at + 4],
                    movements: read_positions(data, at + 6, count),
                },
            ),
            at + 6 + 4 * count,
        ),
    )
}

/// The records that follow the first of a list are read behind it.
proof fn lemma_read_soaprunners_more(
    data: Seq<u8>,
    start: int,
    read: Seq<(usize, SoaprunnerView)>,
    at: int,
    left: nat,
)
    requires
        left > 0,
        read_soaprunners(data, start, read.len()) == Some((read, at)),
    ensures
        read_soaprunners(data, start, read.len() + left) == match read_soaprunners(
            data,
            at,
            left,
        ) {
            Some((rest, end)) => Some((read + rest, end)),
            None => None,
        },
    decreases read.len(),
{
    if read.len() == 0 {
        assert(read =~= Seq::<(usize, SoaprunnerView)>::empty());
        match read_soaprunners(data, at, left) {
            Some((rest, end)) => {
                assert(read + rest =~= rest);
            },
            None => {},
        }
    } else {
        let (first, next) = read_soaprunner(data, start).unwrap();
        let (others, stop) = read_soaprunners(data, next, (read.len() - 1) as nat).unwrap();
        assert(read == seq![first] + others);
        assert(others.len() == read.len() - 1);
        lemma_read_soaprunners_more(data, next, others, at, left);
        match read_soaprunners(data, at, left) {
            Some((rest, end)) => {
                assert(seq![first] + (others + rest) =~= read + rest);
            },
            None => {},
        }
    }
}

/// The records that follow the first of a list are read behind it.
proof fn lemma_read_units_more(
    data: Seq<u8>,
    start: int,
    read: Seq<(usize, UnitView)>,
    at: int,
    left: nat,
)
    requires
        left > 0,
        read_units(data, start, read.len()) == Some((read, at)),
    ensures
        read_units(data, start, read.len() + left) == match read_units(data, at, left) {
            Some((rest, end)) => Some((read + rest, end)),
            None => None,
        },
    decreases read.len(),
{
    if read.len() == 0 {
        assert(read =~= Seq::<(usize, UnitView)>::empty());
        match read_units(data, at, left) {
            Some((rest, end)) => {
                assert(read + rest =~= rest);
            },
            None => {},
        }
    } else {
        let (first, next) = read_unit(data, start).unwrap();
        let (others, stop) = read_units(data, next, (read.len() - 1) as nat).unwrap();
        assert(read == seq![first] + others);
        assert(others.len() == read.len() - 1);
        lemma_read_units_more(data, next, others, at, left);
        match read_units(data, at, left) {
            Some((rest, end)) => {
                assert(seq![first] + (others + rest) =~= read + rest);
            },
            None => {},
        }
    }
}

#[verifier::loop_isolation(false)]
#[verifier::rlimit(40)]
fn receive_soaprunners(data: &[u8], start: usize, count: usize) -> (r: Option<
    (Vec<(usize, Soaprunner)>, usize),
>)
    ensures
        match r {
            Some((list, end)) => read_soaprunners(data@, start as int, count as nat) == Some(
                (soaprunners_view(list@), end as int),
            ),
            None => read_soaprunners(data@, start as int, count as nat) is None,
        },
{
    let mut list: Vec<(usize, Soaprunner)> = Vec::new();
    let mut at = start;
    let mut i: usize = 0;
    assert(soaprunners_view(list@) =~= Seq::<(usize, SoaprunnerView)>::empty());
    while i < count
        invariant
            i <= count,
            list@.len() == i,
            read_soaprunners(data@, start as int, i as nat) == Some(
                (soaprunners_view(list@), at as int),
            ),
        decreases count - i,
    {
        let ghost read = soaprunners_view(list@);
        proof {
            lemma_read_soaprunners_more(data@, start as int, read, at as int, (count - i) as nat);
            lemma_read_soaprunners_more(data@, start as int, read, at as int, 1);
        }
        let (record, next) = match receive_soaprunner(data, at) {
            Some(found) => found,
            None => {
                return None;
            },
        };
        proof {
            let first = (record.0, record.1@);
            assert(read_soaprunners(data@, next as int, 0) == Some(
                (Seq::<(usize, SoaprunnerView)>::empty(), next as int),
            ));
            assert(seq![first] + Seq::<(usize, SoaprunnerView)>::empty() =~= seq![first]);
        }
        list.push(record);
        assert(soaprunners_view(list@) =~= read + seq![(record.0, record.1@)]);
        at = next;
        i = i + 1;
    }
    Some((list, at))
}

#[verifier::loop_isolation(false)]
#[verifier::rlimit(40)]
fn receive_units(data: &[u8], start: usize, count: usize) -> (r: Option<(Vec<(usize, Unit)>, usize)>)
    ensures
        match r {
            Some((list, end)) => read_units(data@, start as int, count as nat) == Some(
                (units_view(list@), end as int),
            ),
            None => read_units(data@, start as int, count as nat) is None,
        },
{
    let mut list: Vec<(usize, Unit)> = Vec::new();
    let mut at = start;
    let mut i: usize = 0;
    assert(units_view(list@) =~= Seq::<(usize, UnitView)>::empty());
    while i < count
        invariant
            i <= count,
            list@.len() == i,
            read_units(data@, start as int, i as nat) == Some((units_view(list@), at as int)),
        decreases count - i,
    {
        let ghost read = units_view(list@);
        proof {
            lemma_read_units_more(data@, start as int, read, at as int, (count - i) as nat);
            lemma_read_units_more(data@, start as int, read, at as int, 1);
        }
        let (record, next) = match receive_unit(data, at) {
            Some(found) => found,
            None => {
                return None;
            },
        };
        proof {
            let first = (record.0, record.1@);
            assert(read_units(data@, next as int, 0) == Some(
                (Seq::<(usize, UnitView)>::empty(), next as int),
            ));
            assert(seq![first] + Seq::<(usize, UnitView)>::empty() =~= seq![first]);
        }
        list.push(record);
        assert(units_view(list@) =~= read + seq![(record.0, record.1@)]);
        at = next;
        i = i + 1;
    }
    Some((list, at))
}

fn receive_tiles(data: &[u8], at: usize, count: usize) -> (r: Option<Vec<ChangedTile>>)
    requires
        count <= 255,
    ensures
        match r {
            Some(tiles) => read_tiles(data@, at as int, count as nat) == Some(tiles@),
            None => read_tiles(data@, at as int, count as nat) is None,
        },
{
    if at > data.len() || data.len() - at != 6 * count {
        return None;
    }
    let mut tiles: Vec<ChangedTile> = Vec::with_capacity(count);
    let mut i: usize = 0;
    while i < count
        invariant
            i <= count,
            at + 6 * count == data.len(),
            tiles@.len() == i,
            forall|j: int| 0 <= j < i ==> tiles@[j] == tile_at(data@, at + 6 * j),
        decreases count - i,
    {
        let from = at + 6 * i;
        tiles.push(
            ChangedTile::new(read_i16(data, from), read_i16(data, from + 2), data[from + 4]),
        );
        i = i + 1;
    }
    assert(tiles@ =~= Seq::new(count as nat, |i: int| tile_at(data@, at + 6 * i)));
    Some(tiles)
}

fn receive_fields(body: &[u8]) -> (r: Option<ReceivedPackets>)
    ensures
        received_view(r) == spec_read_fields(body@),
{
    if body.len() < 7 {
        return None;
    }
    let client_state = match SoaprunnerSprites::from_code(body[0]) {
        Some(sprite) => sprite,
        None => {
            return None;
        },
    };
    let client_color = match SoaprunnerColors::from_code(body[1]) {
        Some(color) => color,
        None => {
            return None;
        },
    };
    let weather = match Weather::from_code(body[6]) {
        Some(weather) => weather,
        None => {
            return None;
        },
    };
    let (soaprunners, next) = match receive_soaprunners(body, 7, body[3] as usize) {
        Some(found) => found,
        None => {
            return None;
        },
    };
    let (entities, end) = match receive_units(body, next, body[4] as usize) {
        Some(found) => found,
        None => {
            return None;
        },
    };
    let tiles = match receive_tiles(body, end, body[5] as usize) {
        Some(tiles) => tiles,
        None => {
            return None;
        },
    };
    Some(
        ReceivedPackets::Fields {
            client_state,
            client_color,
            client_items: SoaprunnerItems::from_bits_truncate(body[2]),
            weather,
            soaprunners,
            entities,
            tiles,
        },
    )
}

/// Reads a packet of the server from its bytes: the type and the body,
/// without the length that precedes them on a raw connection.
pub fn read_server_packet(packet: &[u8]) -> (r: Option<ReceivedPackets>)
    ensures
        received_view(r) == spec_read_server_packet(packet@),
{
    if packet.len() < 4 {
        return None;
    }
    let kind = slice_subrange(packet, 0, 4);
    let body = slice_subrange(packet, 4, packet.len());
    if is_kind(kind, &PACKET_TYPE_WELCOME) {
        if body.len() == 0 {
            Some(ReceivedPackets::Welcome)
        } else {
            None
        }
    } else if is_kind(kind, &PACKET_TYPE_VOID) {
        if body.len() == 0 {
            Some(ReceivedPackets::Void)
        } else {
            None
        }
    } else if is_kind(kind, &PACKET_TYPE_PROTOCOL) {
        if body.len() != PROTOCOL_BUFFER_SIZE + 2 {
            return None;
        }
        let mut protocol = [0u8; 8];
        let mut i: usize = 0;
        while i < PROTOCOL_BUFFER_SIZE
            invariant
                i <= PROTOCOL_BUFFER_SIZE,
                body@.len() == PROTOCOL_BUFFER_SIZE + 2,
                forall|j: int| 0 <= j < i ==> protocol@[j] == body@[j],
            decreases PROTOCOL_BUFFER_SIZE - i,
        {
            protocol[i] = body[i];
            i = i + 1;
        }
        assert(protocol@ =~= body@.subrange(0, 8));
        Some(ReceivedPackets::Protocol { protocol, version: read_u16(body, 8) })
    } else if is_kind(kind, &PACKET_TYPE_TEST) {
        if body.len() != CONNECTION_TEST_DATA_SIZE {
            return None;
        }
        let mut data = [0u8; 508];
        let mut i: usize = 0;
        while i < CONNECTION_TEST_DATA_SIZE
            invariant
                i <= CONNECTION_TEST_DATA_SIZE,
                body@.len() == CONNECTION_TEST_DATA_SIZE,
                forall|j: int| 0 <= j < i ==> data@[j] == body@[j],
            decreases CONNECTION_TEST_DATA_SIZE - i,
        {
            data[i] = body[i];
            i = i + 1;
        }
        assert(data@ =~= body@);
        Some(ReceivedPackets::ConnectionTest { data })
    } else if is_kind(kind, &PACKET_TYPE_MAP_ATTRIBUTES) {
        if body.len() < 4 {
            return None;
        }
        let width = read_u16(body, 0);
        let height = read_u16(body, 2);
        assert(width as u64 * height as u64 <= 0xFFFF * 0xFFFF) by (nonlinear_arith)
            requires
                width <= 0xFFFF,
                height <= 0xFFFF,
        ;
        if (body.len() - 4) as u64 != (width as u64) * (height as u64) {
            return None;
        }
        Some(
            ReceivedPackets::MapAttributesResponse {
                map_attributes: MapAttributes {
                    width,
                    height,
                    attributes: copy_bytes(slice_subrange(body, 4, body.len())),
                },
            },
        )
    } else if is_kind(kind, &PACKET_TYPE_ROOM) {
        if body.len() != 2 + CLIENT_ROOM_SIZE {
            return None;
        }
        let coords = RoomCoordinates { x: read_i8(body[0]), y: read_i8(body[1]) };
        let mut room = Room { data: [0u8; 336] };
        let mut i: usize = 0;
        while i < CLIENT_ROOM_SIZE
            invariant
                i <= CLIENT_ROOM_SIZE,
                body@.len() == 2 + CLIENT_ROOM_SIZE,
                forall|j: int| 0 <= j < i ==> room.data@[j] == body@[2 + j],
            decreases CLIENT_ROOM_SIZE - i,
        {
            room.data[i] = body[2 + i];
            i = i + 1;
        }
        assert(room.data@ =~= body@.subrange(2, body@.len() as int));
        Some(ReceivedPackets::RoomResponse { coords, room })
    } else if is_kind(kind, &PACKET_TYPE_FIELDS) {
        receive_fields(body)
    } else {
        None
    }
}

} // verus!

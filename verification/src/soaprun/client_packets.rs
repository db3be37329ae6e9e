use vstd::prelude::*;
use vstd::utf8::{decode_utf8, encode_utf8, valid_utf8};

use super::map_attributes::spec_u16_le;
use super::packets::{
    i8_byte, low_byte, push_bytes, push_i16, push_positions, push_u16, position_at, position_bytes, positions_bytes, spec_i16_bytes, spec_i16_le,
    spec_i8, spec_i8_byte, spec_read_movements, spec_read_packet, spec_u16_bytes, spec_u32_le,
    ClientPackets, ClientPacketsView, ReadPacketErrorsView, CONNECTION_TEST_DATA_SIZE,
    PACKET_TYPE_BYE, PACKET_TYPE_CHANGE_COLOR, PACKET_TYPE_DEBUG_LOG, PACKET_TYPE_DRAW_ON_FIELD,
    PACKET_TYPE_HEAVEN, PACKET_TYPE_HIT_NON_PLAYER_UNIT, PACKET_TYPE_MAKE_CORPSE,
    PACKET_TYPE_MAP_ATTRIBUTES, PACKET_TYPE_MY_POSITION, PACKET_TYPE_PROTOCOL, PACKET_TYPE_ROOM,
    PACKET_TYPE_TEST,
};
use super::position::Position;

verus! {

/// The most movements that a block of movements can hold.
pub const MAX_MOVEMENTS: usize = 255;

/// The four bytes of `v`, lowest first.
pub open spec fn spec_u32_bytes(v: u32) -> Seq<u8> {
    seq![
        low_byte(v as int),
        low_byte(v as int / 0x100),
        low_byte(v as int / 0x1_0000),
        low_byte(v as int / 0x100_0000),
    ]
}

/// A block of movements: their number, and the positions.
pub open spec fn movements_bytes(movements: Seq<Position>) -> Seq<u8> {
    seq![low_byte(movements.len() as int)] + positions_bytes(movements)
}

/// The bytes of a packet of a client: its type and its body.
pub open spec fn spec_write_client_packet(packet: ClientPacketsView) -> Seq<u8> {
    match packet {
        ClientPacketsView::ProtocolRequest { game_version } => PACKET_TYPE_PROTOCOL@
            + spec_u16_bytes(game_version),
        ClientPacketsView::MapAttributeRequest => PACKET_TYPE_MAP_ATTRIBUTES@,
        ClientPacketsView::RoomRequest { coords } => PACKET_TYPE_ROOM@ + seq![
            spec_i8_byte(coords.x),
            spec_i8_byte(coords.y),
        ],
        ClientPacketsView::MyPosition { movements } => PACKET_TYPE_MY_POSITION@ + movements_bytes(
            movements,
        ),
        ClientPacketsView::MakeCorpse { position } => PACKET_TYPE_MAKE_CORPSE@ + position_bytes(
            position,
        ),
        ClientPacketsView::ConnectionTest { data } => PACKET_TYPE_TEST@ + data,
        ClientPacketsView::LogDebugMessage { message } => PACKET_TYPE_DEBUG_LOG@ + spec_u32_bytes(
            encode_utf8(message).len() as u32,
        ) + encode_utf8(message),
        ClientPacketsView::Bye => PACKET_TYPE_BYE@,
        ClientPacketsView::HitNonPlayerUnit { index, movements } => {
            PACKET_TYPE_HIT_NON_PLAYER_UNIT@ + seq![index] + movements_bytes(movements)
        },
        ClientPacketsView::Heaven { movements } => PACKET_TYPE_HEAVEN@ + movements_bytes(movements),
        ClientPacketsView::ChangeColor { color, movements } => PACKET_TYPE_CHANGE_COLOR@ + seq![
            color,
        ] + movements_bytes(movements),
        ClientPacketsView::DrawOnField { position, tile, movements } => {
            PACKET_TYPE_DRAW_ON_FIELD@ + position_bytes(position) + seq![tile] + movements_bytes(
                movements,
            )
        },
    }
}

/// Whether a packet of a client can be written so that it can be read
/// again: its movements are no more than a block holds, its test data are
/// as many as a test carries, and its message is no longer than its length
/// can say.
pub open spec fn client_packet_fits(packet: ClientPacketsView) -> bool {
    match packet {
        ClientPacketsView::MyPosition { movements } => movements.len() <= MAX_MOVEMENTS,
        ClientPacketsView::Heaven { movements } => movements.len() <= MAX_MOVEMENTS,
        ClientPacketsView::HitNonPlayerUnit { index, movements } => movements.len()
            <= MAX_MOVEMENTS,
        ClientPacketsView::ChangeColor { color, movements } => movements.len() <= MAX_MOVEMENTS,
        ClientPacketsView::DrawOnField { position, tile, movements } => movements.len()
            <= MAX_MOVEMENTS,
        ClientPacketsView::ConnectionTest { data } => data.len() == CONNECTION_TEST_DATA_SIZE,
        ClientPacketsView::LogDebugMessage { message } => encode_utf8(message).len() + 4
            <= usize::MAX && encode_utf8(message).len() <= u32::MAX,
        _ => true,
    }
}

/// The two bytes of a signed number give the number back.
pub(crate) proof fn lemma_i16_round_trip(v: i16)
    ensures
        spec_i16_bytes(v).len() == 2,
        spec_i16_le(spec_i16_bytes(v)[0], spec_i16_bytes(v)[1]) == v,
{
}

/// The two bytes of a number give the number back.
pub(crate) proof fn lemma_u16_round_trip(v: u16)
    ensures
        spec_u16_bytes(v).len() == 2,
        spec_u16_le(spec_u16_bytes(v)[0], spec_u16_bytes(v)[1]) == v,
{
}

/// The four bytes of a number give the number back.
proof fn lemma_u32_round_trip(v: u32)
    ensures
        spec_u32_bytes(v).len() == 4,
        spec_u32_le(
            spec_u32_bytes(v)[0],
            spec_u32_bytes(v)[1],
            spec_u32_bytes(v)[2],
            spec_u32_bytes(v)[3],
        ) == v,
{
}

/// The byte of a signed number gives the number back.
pub(crate) proof fn lemma_i8_round_trip(v: i8)
    ensures
        spec_i8(spec_i8_byte(v)) == v,
{
}

/// The four bytes of a position give the position back, wherever they
/// stand.
proof fn lemma_position_round_trip(before: Seq<u8>, p: Position, after: Seq<u8>)
    ensures
        position_bytes(p).len() == 4,
        position_at(before + position_bytes(p) + after, before.len() as int) == p,
{
    lemma_i16_round_trip(p.x);
    lemma_i16_round_trip(p.y);
    let all = before + position_bytes(p) + after;
    let at = before.len() as int;
    assert(all[at] == spec_i16_bytes(p.x)[0]);
    assert(all[at + 1] == spec_i16_bytes(p.x)[1]);
    assert(all[at + 2] == spec_i16_bytes(p.y)[0]);
    assert(all[at + 3] == spec_i16_bytes(p.y)[1]);
}

/// The bytes of a list of positions are four for each, and hold each
/// position at its place.
pub(crate) proof fn lemma_positions_bytes(s: Seq<Position>, i: int)
    requires
        0 <= i < s.len(),
    ensures
        positions_bytes(s).len() == 4 * s.len(),
        position_at(positions_bytes(s), 4 * i) == s[i],
    decreases s.len(),
{
    lemma_positions_length(s);
    lemma_positions_length(s.drop_last());
    let front = positions_bytes(s.drop_last());
    if i == s.len() - 1 {
        lemma_position_round_trip(front, s.last(), Seq::empty());
        assert(front + position_bytes(s.last()) + Seq::<u8>::empty() =~= positions_bytes(s));
    } else {
        lemma_positions_bytes(s.drop_last(), i);
        let all = positions_bytes(s);
        assert(all[4 * i] == front[4 * i]);
        assert(all[4 * i + 1] == front[4 * i + 1]);
        assert(all[4 * i + 2] == front[4 * i + 2]);
        assert(all[4 * i + 3] == front[4 * i + 3]);
    }
}

/// The bytes of a list of positions are four for each.
pub(crate) proof fn lemma_positions_length(s: Seq<Position>)
    ensures
        positions_bytes(s).len() == 4 * s.len(),
    decreases s.len(),
{
    if s.len() > 0 {
        lemma_positions_length(s.drop_last());
        lemma_i16_round_trip(s.last().x);
        lemma_i16_round_trip(s.last().y);
    }
}

/// A block of movements that was written is read as the movements.
proof fn lemma_movements_round_trip(movements: Seq<Position>)
    requires
        movements.len() <= MAX_MOVEMENTS,
    ensures
        spec_read_movements(movements_bytes(movements)) == Ok::<Seq<Position>, usize>(movements),
{
    let block = movements_bytes(movements);
    lemma_positions_length(movements);
    assert(block[0] == movements.len());
    let read = Seq::new(block[0] as nat, |i: int| position_at(block, 1 + 4 * i));
    assert forall|i: int| 0 <= i < movements.len() implies read[i] == movements[i] by {
        lemma_positions_bytes(movements, i);
        let bytes = positions_bytes(movements);
        assert(block[1 + 4 * i] == bytes[4 * i]);
        assert(block[1 + 4 * i + 1] == bytes[4 * i + 1]);
        assert(block[1 + 4 * i + 2] == bytes[4 * i + 2]);
        assert(block[1 + 4 * i + 3] == bytes[4 * i + 3]);
    }
    assert(read =~= movements);
}

proof fn lemma_round_trip_protocol(packet: ClientPacketsView)
    requires
        client_packet_fits(packet),
        packet is ProtocolRequest,
    ensures
        spec_read_packet(spec_write_client_packet(packet)) == Ok::<
            ClientPacketsView,
            ReadPacketErrorsView,
        >(packet),
{
    let bytes = spec_write_client_packet(packet);
    match packet {
        ClientPacketsView::ProtocolRequest { game_version } => {
            lemma_u16_round_trip(game_version);
            let body = spec_u16_bytes(game_version);
            assert(bytes.subrange(0, 4) =~= PACKET_TYPE_PROTOCOL@);
            assert(bytes.subrange(4, bytes.len() as int) =~= body);
        },
        _ => {},
    }
}

proof fn lemma_round_trip_map_attributes(packet: ClientPacketsView)
    requires
        client_packet_fits(packet),
        packet is MapAttributeRequest,
    ensures
        spec_read_packet(spec_write_client_packet(packet)) == Ok::<
            ClientPacketsView,
            ReadPacketErrorsView,
        >(packet),
{
    let bytes = spec_write_client_packet(packet);
    match packet {
        ClientPacketsView::MapAttributeRequest => {
            assert(bytes.subrange(0, 4) =~= PACKET_TYPE_MAP_ATTRIBUTES@);
            assert(bytes.subrange(4, bytes.len() as int) =~= Seq::<u8>::empty());
            lemma_kinds_differ();
        },
        _ => {},
    }
}

proof fn lemma_round_trip_room(packet: ClientPacketsView)
    requires
        client_packet_fits(packet),
        packet is RoomRequest,
    ensures
        spec_read_packet(spec_write_client_packet(packet)) == Ok::<
            ClientPacketsView,
            ReadPacketErrorsView,
        >(packet),
{
    let bytes = spec_write_client_packet(packet);
    match packet {
        ClientPacketsView::RoomRequest { coords } => {
            lemma_i8_round_trip(coords.x);
            lemma_i8_round_trip(coords.y);
            assert(bytes.subrange(0, 4) =~= PACKET_TYPE_ROOM@);
            assert(bytes.subrange(4, bytes.len() as int) =~= seq![
                spec_i8_byte(coords.x),
                spec_i8_byte(coords.y),
            ]);
            lemma_kinds_differ();
        },
        _ => {},
    }
}

proof fn lemma_round_trip_my_position(packet: ClientPacketsView)
    requires
        client_packet_fits(packet),
        packet is MyPosition,
    ensures
        spec_read_packet(spec_write_client_packet(packet)) == Ok::<
            ClientPacketsView,
            ReadPacketErrorsView,
        >(packet),
{
    let bytes = spec_write_client_packet(packet);
    match packet {
        ClientPacketsView::MyPosition { movements } => {
            lemma_movements_round_trip(movements);
            let body = movements_bytes(movements);
            assert(bytes.subrange(0, 4) =~= PACKET_TYPE_MY_POSITION@);
            assert(bytes.subrange(4, bytes.len() as int) =~= body);
            assert(body.subrange(0, body.len() as int) =~= body);
            lemma_kinds_differ();
        },
        _ => {},
    }
}

proof fn lemma_round_trip_make_corpse(packet: ClientPacketsView)
    requires
        client_packet_fits(packet),
        packet is MakeCorpse,
    ensures
        spec_read_packet(spec_write_client_packet(packet)) == Ok::<
            ClientPacketsView,
            ReadPacketErrorsView,
        >(packet),
{
    let bytes = spec_write_client_packet(packet);
    match packet {
        ClientPacketsView::MakeCorpse { position } => {
            let body = position_bytes(position);
            lemma_position_round_trip(Seq::empty(), position, Seq::empty());
            assert(Seq::<u8>::empty() + body + Seq::<u8>::empty() =~= body);
            assert(bytes.subrange(0, 4) =~= PACKET_TYPE_MAKE_CORPSE@);
            assert(bytes.subrange(4, bytes.len() as int) =~= body);
            lemma_kinds_differ();
        },
        _ => {},
    }
}

proof fn lemma_round_trip_test(packet: ClientPacketsView)
    requires
        client_packet_fits(packet),
        packet is ConnectionTest,
    ensures
        spec_read_packet(spec_write_client_packet(packet)) == Ok::<
            ClientPacketsView,
            ReadPacketErrorsView,
        >(packet),
{
    let bytes = spec_write_client_packet(packet);
    match packet {
        ClientPacketsView::ConnectionTest { data } => {
            assert(bytes.subrange(0, 4) =~= PACKET_TYPE_TEST@);
            assert(bytes.subrange(4, bytes.len() as int) =~= data);
            lemma_kinds_differ();
        },
        _ => {},
    }
}

proof fn lemma_round_trip_debug_log(packet: ClientPacketsView)
    requires
        client_packet_fits(packet),
        packet is LogDebugMessage,
    ensures
        spec_read_packet(spec_write_client_packet(packet)) == Ok::<
            ClientPacketsView,
            ReadPacketErrorsView,
        >(packet),
{
    let bytes = spec_write_client_packet(packet);
    match packet {
        ClientPacketsView::LogDebugMessage { message } => {
            broadcast use {
                vstd::utf8::encode_utf8_valid_utf8,
                vstd::utf8::encode_utf8_decode_utf8,
            };

            let text = encode_utf8(message);
            let length = text.len() as u32;
            lemma_u32_round_trip(length);
            let body = spec_u32_bytes(length) + text;
            assert(bytes.subrange(0, 4) =~= PACKET_TYPE_DEBUG_LOG@);
            assert(bytes.subrange(4, bytes.len() as int) =~= body);
            assert(body.subrange(4, body.len() as int) =~= text);
            assert(body[0] == spec_u32_bytes(length)[0]);
            assert(body[1] == spec_u32_bytes(length)[1]);
            assert(body[2] == spec_u32_bytes(length)[2]);
            assert(body[3] == spec_u32_bytes(length)[3]);
            assert(valid_utf8(text));
            assert(decode_utf8(text) == message);
            lemma_kinds_differ();
        },
        _ => {},
    }
}

proof fn lemma_round_trip_bye(packet: ClientPacketsView)
    requires
        client_packet_fits(packet),
        packet is Bye,
    ensures
        spec_read_packet(spec_write_client_packet(packet)) == Ok::<
            ClientPacketsView,
            ReadPacketErrorsView,
        >(packet),
{
    let bytes = spec_write_client_packet(packet);
    match packet {
        ClientPacketsView::Bye => {
            assert(bytes.subrange(0, 4) =~= PACKET_TYPE_BYE@);
            assert(bytes.subrange(4, bytes.len() as int) =~= Seq::<u8>::empty());
            lemma_kinds_differ();
        },
        _ => {},
    }
}

proof fn lemma_round_trip_hit(packet: ClientPacketsView)
    requires
        client_packet_fits(packet),
        packet is HitNonPlayerUnit,
    ensures
        spec_read_packet(spec_write_client_packet(packet)) == Ok::<
            ClientPacketsView,
            ReadPacketErrorsView,
        >(packet),
{
    let bytes = spec_write_client_packet(packet);
    match packet {
        ClientPacketsView::HitNonPlayerUnit { index, movements } => {
            lemma_movements_round_trip(movements);
            let body = seq![index] + movements_bytes(movements);
            assert(bytes.subrange(0, 4) =~= PACKET_TYPE_HIT_NON_PLAYER_UNIT@);
            assert(bytes.subrange(4, bytes.len() as int) =~= body);
            assert(body.subrange(1, body.len() as int) =~= movements_bytes(movements));
            lemma_kinds_differ();
        },
        _ => {},
    }
}

proof fn lemma_round_trip_heaven(packet: ClientPacketsView)
    requires
        client_packet_fits(packet),
        packet is Heaven,
    ensures
        spec_read_packet(spec_write_client_packet(packet)) == Ok::<
            ClientPacketsView,
            ReadPacketErrorsView,
        >(packet),
{
    let bytes = spec_write_client_packet(packet);
    match packet {
        ClientPacketsView::Heaven { movements } => {
            lemma_movements_round_trip(movements);
            let body = movements_bytes(movements);
            assert(bytes.subrange(0, 4) =~= PACKET_TYPE_HEAVEN@);
            assert(bytes.subrange(4, bytes.len() as int) =~= body);
            assert(body.subrange(0, body.len() as int) =~= body);
            lemma_kinds_differ();
        },
        _ => {},
    }
}

proof fn lemma_round_trip_change_color(packet: ClientPacketsView)
    requires
        client_packet_fits(packet),
        packet is ChangeColor,
    ensures
        spec_read_packet(spec_write_client_packet(packet)) == Ok::<
            ClientPacketsView,
            ReadPacketErrorsView,
        >(packet),
{
    let bytes = spec_write_client_packet(packet);
    match packet {
        ClientPacketsView::ChangeColor { color, movements } => {
            lemma_movements_round_trip(movements);
            let body = seq![color] + movements_bytes(movements);
            assert(bytes.subrange(0, 4) =~= PACKET_TYPE_CHANGE_COLOR@);
            assert(bytes.subrange(4, bytes.len() as int) =~= body);
            assert(body.subrange(1, body.len() as int) =~= movements_bytes(movements));
            lemma_kinds_differ();
        },
        _ => {},
    }
}

proof fn lemma_round_trip_draw(packet: ClientPacketsView)
    requires
        client_packet_fits(packet),
        packet is DrawOnField,
    ensures
        spec_read_packet(spec_write_client_packet(packet)) == Ok::<
            ClientPacketsView,
            ReadPacketErrorsView,
        >(packet),
{
    let bytes = spec_write_client_packet(packet);
    match packet {
        ClientPacketsView::DrawOnField { position, tile, movements } => {
            lemma_movements_round_trip(movements);
            let rest = seq![tile] + movements_bytes(movements);
            lemma_position_round_trip(Seq::empty(), position, rest);
            let body = position_bytes(position) + seq![tile] + movements_bytes(movements);
            assert(Seq::<u8>::empty() + position_bytes(position) + rest =~= body);
            assert(bytes.subrange(0, 4) =~= PACKET_TYPE_DRAW_ON_FIELD@);
            assert(bytes.subrange(4, bytes.len() as int) =~= body);
            assert(body.subrange(5, body.len() as int) =~= movements_bytes(movements));
            assert(body[4] == tile);
            lemma_kinds_differ();
        },
        _ => {},
    }
}

/// Every packet of a client that was written is read as the packet it was.
pub proof fn lemma_client_packet_round_trip(packet: ClientPacketsView)
    requires
        client_packet_fits(packet),
    ensures
        spec_read_packet(spec_write_client_packet(packet)) == Ok::<
            ClientPacketsView,
            ReadPacketErrorsView,
        >(packet),
{
    match packet {
        ClientPacketsView::ProtocolRequest { .. } => lemma_round_trip_protocol(packet),
        ClientPacketsView::MapAttributeRequest => lemma_round_trip_map_attributes(packet),
        ClientPacketsView::RoomRequest { .. } => lemma_round_trip_room(packet),
        ClientPacketsView::MyPosition { .. } => lemma_round_trip_my_position(packet),
        ClientPacketsView::MakeCorpse { .. } => lemma_round_trip_make_corpse(packet),
        ClientPacketsView::ConnectionTest { .. } => lemma_round_trip_test(packet),
        ClientPacketsView::LogDebugMessage { .. } => lemma_round_trip_debug_log(packet),
        ClientPacketsView::Bye => lemma_round_trip_bye(packet),
        ClientPacketsView::HitNonPlayerUnit { .. } => lemma_round_trip_hit(packet),
        ClientPacketsView::Heaven { .. } => lemma_round_trip_heaven(packet),
        ClientPacketsView::ChangeColor { .. } => lemma_round_trip_change_color(packet),
        ClientPacketsView::DrawOnField { .. } => lemma_round_trip_draw(packet),
    }
}

/// No two kinds of packets of a client have the same type.
proof fn lemma_kinds_differ()
    ensures
        PACKET_TYPE_PROTOCOL@[0] == 0x50 && PACKET_TYPE_PROTOCOL@[1] == 0x72,
        PACKET_TYPE_TEST@[0] == 0x54,
        PACKET_TYPE_DEBUG_LOG@[0] == 0x44 && PACKET_TYPE_DEBUG_LOG@[1] == 0x6c,
        PACKET_TYPE_MAP_ATTRIBUTES@[0] == 0x6d && PACKET_TYPE_MAP_ATTRIBUTES@[1] == 0x41,
        PACKET_TYPE_ROOM@[0] == 0x52,
        PACKET_TYPE_CHANGE_COLOR@[0] == 0x43,
        PACKET_TYPE_MY_POSITION@[0] == 0x6d && PACKET_TYPE_MY_POSITION@[1] == 0x79,
        PACKET_TYPE_DRAW_ON_FIELD@[0] == 0x44 && PACKET_TYPE_DRAW_ON_FIELD@[1] == 0x72,
        PACKET_TYPE_HIT_NON_PLAYER_UNIT@[0] == 0x48 && PACKET_TYPE_HIT_NON_PLAYER_UNIT@[1] == 0x4e,
        PACKET_TYPE_MAKE_CORPSE@[0] == 0x6d && PACKET_TYPE_MAKE_CORPSE@[1] == 0x43,
        PACKET_TYPE_HEAVEN@[0] == 0x48 && PACKET_TYPE_HEAVEN@[1] == 0x56,
        PACKET_TYPE_BYE@[0] == 0x42,
{
}


fn push_movements(out: &mut Vec<u8>, movements: &Vec<Position>)
    ensures
        final(out)@ == old(out)@ + movements_bytes(movements@),
{
    out.push((movements.len() % 256) as u8);
    push_positions(out, movements);
    assert(out@ =~= old(out)@ + movements_bytes(movements@));
}

fn push_u32(out: &mut Vec<u8>, v: u32)
    ensures
        final(out)@ == old(out)@ + spec_u32_bytes(v),
{
    out.push((v % 0x100) as u8);
    out.push(((v / 0x100) % 0x100) as u8);
    out.push(((v / 0x1_0000) % 0x100) as u8);
    out.push(((v / 0x100_0000) % 0x100) as u8);
    assert(out@ =~= old(out)@ + spec_u32_bytes(v));
}

/// Writes a packet of a client as bytes: the type and the body, without
/// the length that precedes them on a raw connection.
pub fn write_client_packet(packet: &ClientPackets) -> (r: Vec<u8>)
    ensures
        r@ == spec_write_client_packet(packet@),
{
    let mut data: Vec<u8> = Vec::new();
    match packet {
        ClientPackets::ProtocolRequest { game_version } => {
            push_bytes(&mut data, PACKET_TYPE_PROTOCOL.as_slice());
            push_u16(&mut data, *game_version);
        },
        ClientPackets::MapAttributeRequest => {
            push_bytes(&mut data, PACKET_TYPE_MAP_ATTRIBUTES.as_slice());
        },
        ClientPackets::RoomRequest { coords } => {
            push_bytes(&mut data, PACKET_TYPE_ROOM.as_slice());
            data.push(i8_byte(coords.x));
            data.push(i8_byte(coords.y));
            assert(data@ =~= PACKET_TYPE_ROOM@ + seq![
                spec_i8_byte(coords.x),
                spec_i8_byte(coords.y),
            ]);
        },
        ClientPackets::MyPosition { movements } => {
            push_bytes(&mut data, PACKET_TYPE_MY_POSITION.as_slice());
            push_movements(&mut data, movements);
        },
        ClientPackets::MakeCorpse { position } => {
            push_bytes(&mut data, PACKET_TYPE_MAKE_CORPSE.as_slice());
            push_i16(&mut data, position.x);
            push_i16(&mut data, position.y);
            assert(data@ =~= PACKET_TYPE_MAKE_CORPSE@ + position_bytes(*position));
        },
        ClientPackets::ConnectionTest { data: test } => {
            push_bytes(&mut data, PACKET_TYPE_TEST.as_slice());
            push_bytes(&mut data, test.as_slice());
        },
        ClientPackets::LogDebugMessage { message } => {
            push_bytes(&mut data, PACKET_TYPE_DEBUG_LOG.as_slice());
            let text = message.as_str().as_bytes();
            push_u32(&mut data, text.len() as u32);
            push_bytes(&mut data, text);
        },
        ClientPackets::Bye => {
            push_bytes(&mut data, PACKET_TYPE_BYE.as_slice());
        },
        ClientPackets::HitNonPlayerUnit { index, movements } => {
            push_bytes(&mut data, PACKET_TYPE_HIT_NON_PLAYER_UNIT.as_slice());
            data.push(*index);
            assert(data@ =~= PACKET_TYPE_HIT_NON_PLAYER_UNIT@ + seq![*index]);
            push_movements(&mut data, movements);
        },
        ClientPackets::Heaven { movements } => {
            push_bytes(&mut data, PACKET_TYPE_HEAVEN.as_slice());
            push_movements(&mut data, movements);
        },
        ClientPackets::ChangeColor { color, movements } => {
            push_bytes(&mut data, PACKET_TYPE_CHANGE_COLOR.as_slice());
            data.push(*color);
            assert(data@ =~= PACKET_TYPE_CHANGE_COLOR@ + seq![*color]);
            push_movements(&mut data, movements);
        },
        ClientPackets::DrawOnField { position, tile, movements } => {
            push_bytes(&mut data, PACKET_TYPE_DRAW_ON_FIELD.as_slice());
            push_i16(&mut data, position.x);
            push_i16(&mut data, position.y);
            data.push(*tile);
            assert(data@ =~= PACKET_TYPE_DRAW_ON_FIELD@ + position_bytes(*position) + seq![*tile]);
            push_movements(&mut data, movements);
        },
    }
    data
}

} // verus!

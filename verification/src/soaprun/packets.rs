use vstd::prelude::*;
use vstd::slice::slice_subrange;
use vstd::utf8::{decode_utf8, valid_utf8};

use super::map_attributes::{spec_u16_le, MapAttributes};
use super::position::Position;
use super::rooms::{Room, RoomCoordinates};
use super::soaprunners::{
    Soaprunner, SoaprunnerColors, SoaprunnerItems, SoaprunnerSprites, SoaprunnerView,
};
use super::units::{Unit, UnitView};

verus! {

pub const CONNECTION_TEST_DATA_SIZE: usize = 508;

pub const PROTOCOL_BUFFER_SIZE: usize = 8;

pub const CLIENT_MAX_PLAYERS: usize = 63;

pub const CLIENT_MAX_ENTITIES: usize = 64;

pub const CLIENT_MAX_TILES: usize = 255;

/// The length of the shortest packet: its type alone.
pub const MIN_PACKET_LENGTH: usize = 4;

/// `Prtc`
pub const PACKET_TYPE_PROTOCOL: [u8; 4] = [0x50, 0x72, 0x74, 0x63];

/// `mAtt`
pub const PACKET_TYPE_MAP_ATTRIBUTES: [u8; 4] = [0x6d, 0x41, 0x74, 0x74];

/// `Room`
pub const PACKET_TYPE_ROOM: [u8; 4] = [0x52, 0x6f, 0x6f, 0x6d];

/// `myPo`
pub const PACKET_TYPE_MY_POSITION: [u8; 4] = [0x6d, 0x79, 0x50, 0x6f];

/// `mCrp`
pub const PACKET_TYPE_MAKE_CORPSE: [u8; 4] = [0x6d, 0x43, 0x72, 0x70];

/// `Test`
pub const PACKET_TYPE_TEST: [u8; 4] = [0x54, 0x65, 0x73, 0x74];

/// `Dlog`
pub const PACKET_TYPE_DEBUG_LOG: [u8; 4] = [0x44, 0x6c, 0x6f, 0x67];

/// `Bye.`
pub const PACKET_TYPE_BYE: [u8; 4] = [0x42, 0x79, 0x65, 0x2e];

/// `HNPU`
pub const PACKET_TYPE_HIT_NON_PLAYER_UNIT: [u8; 4] = [0x48, 0x4e, 0x50, 0x55];

/// `HVen`
pub const PACKET_TYPE_HEAVEN: [u8; 4] = [0x48, 0x56, 0x65, 0x6e];

/// `ChCl`
pub const PACKET_TYPE_CHANGE_COLOR: [u8; 4] = [0x43, 0x68, 0x43, 0x6c];

/// `DrFl`
pub const PACKET_TYPE_DRAW_ON_FIELD: [u8; 4] = [0x44, 0x72, 0x46, 0x6c];

/// `WLCM`
pub const PACKET_TYPE_WELCOME: [u8; 4] = [0x57, 0x4c, 0x43, 0x4d];

/// `Flds`
pub const PACKET_TYPE_FIELDS: [u8; 4] = [0x46, 0x6c, 0x64, 0x73];

/// `Void`
pub const PACKET_TYPE_VOID: [u8; 4] = [0x56, 0x6f, 0x69, 0x64];

/// What a client sends.
pub enum ClientPackets {
    ProtocolRequest { game_version: u16 },
    MapAttributeRequest,
    RoomRequest { coords: RoomCoordinates },
    MyPosition { movements: Vec<Position> },
    MakeCorpse { position: Position },
    ConnectionTest { data: [u8; 508] },
    LogDebugMessage { message: String },
    Bye,
    HitNonPlayerUnit { index: u8, movements: Vec<Position> },
    Heaven { movements: Vec<Position> },
    ChangeColor { color: u8, movements: Vec<Position> },
    DrawOnField { position: Position, tile: u8, movements: Vec<Position> },
}

/// A client's packet as a plain value.
pub enum ClientPacketsView {
    ProtocolRequest { game_version: u16 },
    MapAttributeRequest,
    RoomRequest { coords: RoomCoordinates },
    MyPosition { movements: Seq<Position> },
    MakeCorpse { position: Position },
    ConnectionTest { data: Seq<u8> },
    LogDebugMessage { message: Seq<char> },
    Bye,
    HitNonPlayerUnit { index: u8, movements: Seq<Position> },
    Heaven { movements: Seq<Position> },
    ChangeColor { color: u8, movements: Seq<Position> },
    DrawOnField { position: Position, tile: u8, movements: Seq<Position> },
}

impl View for ClientPackets {
    type V = ClientPacketsView;

    open spec fn view(&self) -> ClientPacketsView {
        match *self {
            ClientPackets::ProtocolRequest { game_version } => ClientPacketsView::ProtocolRequest {
                game_version,
            },
            ClientPackets::MapAttributeRequest => ClientPacketsView::MapAttributeRequest,
            ClientPackets::RoomRequest { coords } => ClientPacketsView::RoomRequest { coords },
            ClientPackets::MyPosition { movements } => ClientPacketsView::MyPosition {
                movements: movements@,
            },
            ClientPackets::MakeCorpse { position } => ClientPacketsView::MakeCorpse { position },
            ClientPackets::ConnectionTest { data } => ClientPacketsView::ConnectionTest {
                data: data@,
            },
            ClientPackets::LogDebugMessage { message } => ClientPacketsView::LogDebugMessage {
                message: message@,
            },
            ClientPackets::Bye => ClientPacketsView::Bye,
            ClientPackets::HitNonPlayerUnit { index, movements } => {
                ClientPacketsView::HitNonPlayerUnit { index, movements: movements@ }
            },
            ClientPackets::Heaven { movements } => ClientPacketsView::Heaven {
                movements: movements@,
            },
            ClientPackets::ChangeColor { color, movements } => ClientPacketsView::ChangeColor {
                color,
                movements: movements@,
            },
            ClientPackets::DrawOnField { position, tile, movements } => {
                ClientPacketsView::DrawOnField { position, tile, movements: movements@ }
            },
        }
    }
}

/// Why a packet's bytes are no packet of a client.
#[derive(Debug)]
pub enum ReadPacketErrors {
    /// The packet is too short to hold its type.
    InvalidLengthError { length: u32 },
    /// No packet has this type.
    InvalidTypeError { chars: Vec<u8> },
    /// The packet's body holds `got` bytes where its type asks for `expected`.
    UnexpectedDataAmount { got: usize, expected: usize },
    /// The body has the right length and cannot be read.
    InvalidDataError { packet_type: String, data: Vec<u8> },
}

/// A reading error as a plain value.
pub enum ReadPacketErrorsView {
    InvalidLengthError { length: u32 },
    InvalidTypeError { chars: Seq<u8> },
    UnexpectedDataAmount { got: usize, expected: usize },
    InvalidDataError { packet_type: Seq<char>, data: Seq<u8> },
}

impl View for ReadPacketErrors {
    type V = ReadPacketErrorsView;

    open spec fn view(&self) -> ReadPacketErrorsView {
        match *self {
            ReadPacketErrors::InvalidLengthError { length } => {
                ReadPacketErrorsView::InvalidLengthError { length }
            },
            ReadPacketErrors::InvalidTypeError { chars } => ReadPacketErrorsView::InvalidTypeError {
                chars: chars@,
            },
            ReadPacketErrors::UnexpectedDataAmount { got, expected } => {
                ReadPacketErrorsView::UnexpectedDataAmount { got, expected }
            },
            ReadPacketErrors::InvalidDataError { packet_type, data } => {
                ReadPacketErrorsView::InvalidDataError { packet_type: packet_type@, data: data@ }
            },
        }
    }
}

/// The signed number whose low byte is `low` and whose high byte is `high`.
pub open spec fn spec_i16_le(low: u8, high: u8) -> i16 {
    let v = low as int + 256 * (high as int);
    if v >= 0x8000 {
        (v - 0x1_0000) as i16
    } else {
        v as i16
    }
}

/// The number whose four bytes are these, lowest first.
pub open spec fn spec_u32_le(b0: u8, b1: u8, b2: u8, b3: u8) -> u32 {
    (b0 as int + 0x100 * (b1 as int) + 0x1_0000 * (b2 as int) + 0x100_0000 * (b3 as int)) as u32
}

/// The position whose four bytes stand in `data` at `at`.
pub open spec fn position_at(data: Seq<u8>, at: int) -> Position {
    Position {
        x: spec_i16_le(data[at], data[at + 1]),
        y: spec_i16_le(data[at + 2], data[at + 3]),
    }
}

/// `v`, or the largest `usize` where `v` is beyond it.
pub open spec fn clip(v: int) -> usize {
    if v > usize::MAX {
        usize::MAX
    } else {
        v as usize
    }
}

pub(crate) fn read_u16(data: &[u8], at: usize) -> (r: u16)
    requires
        at + 2 <= data.len(),
    ensures
        r == spec_u16_le(data@[at as int], data@[at + 1]),
{
    data[at] as u16 + 256 * (data[at + 1] as u16)
}

pub(crate) fn read_i16(data: &[u8], at: usize) -> (r: i16)
    requires
        at + 2 <= data.len(),
    ensures
        r == spec_i16_le(data@[at as int], data@[at + 1]),
{
    let v: i32 = data[at] as i32 + 256 * (data[at + 1] as i32);
    if v >= 0x8000 {
        (v - 0x1_0000) as i16
    } else {
        v as i16
    }
}

fn read_u32(data: &[u8], at: usize) -> (r: u32)
    requires
        at + 4 <= data.len(),
    ensures
        r == spec_u32_le(data@[at as int], data@[at + 1], data@[at + 2], data@[at + 3]),
{
    let v: u64 = data[at] as u64 + 0x100 * (data[at + 1] as u64) + 0x1_0000 * (data[at + 2] as u64)
        + 0x100_0000 * (data[at + 3] as u64);
    v as u32
}

pub(crate) fn read_position(data: &[u8], at: usize) -> (r: Position)
    requires
        at + 4 <= data.len(),
    ensures
        r == position_at(data@, at as int),
{
    Position { x: read_i16(data, at), y: read_i16(data, at + 2) }
}

/// A copy of the bytes of `data`.
pub fn copy_bytes(data: &[u8]) -> (r: Vec<u8>)
    ensures
        r@ == data@,
{
    let mut copy: Vec<u8> = Vec::new();
    let mut i: usize = 0;
    while i < data.len()
        invariant
            i <= data.len(),
            copy@ =~= data@.subrange(0, i as int),
        decreases data.len() - i,
    {
        copy.push(data[i]);
        i = i + 1;
    }
    assert(data@.subrange(0, data@.len() as int) =~= data@);
    copy
}

/// What a block of movements holds: a count, and then as many positions of
/// four bytes each, which fill the block. Where they do not, the error is the
/// length that the block would have with that count.
pub open spec fn spec_read_movements(data: Seq<u8>) -> Result<Seq<Position>, usize> {
    if data.len() == 0 {
        Err(1)
    } else if 1 + 4 * data[0] != data.len() {
        Err((1 + 4 * data[0]) as usize)
    } else {
        Ok(Seq::new(data[0] as nat, |i: int| position_at(data, 1 + 4 * i)))
    }
}

/// Reads a block of movements.
pub fn read_movements(data: &[u8]) -> (r: Result<Vec<Position>, usize>)
    ensures
        match r {
            Ok(m) => spec_read_movements(data@) == Ok::<_, usize>(m@),
            Err(e) => spec_read_movements(data@) == Err::<Seq<Position>, _>(e),
        },
{
    if data.len() == 0 {
        return Err(1);
    }
    let length: usize = data[0] as usize;
    if 1 + length * 4 != data.len() {
        return Err(1 + length * 4);
    }
    let mut movements: Vec<Position> = Vec::with_capacity(length);
    let mut i: usize = 0;
    while i < length
        invariant
            i <= length,
            length == data@[0],
            1 + length * 4 == data@.len(),
            movements@.len() == i,
            forall|j: int| 0 <= j < i ==> movements@[j] == position_at(data@, 1 + 4 * j),
        decreases length - i,
    {
        movements.push(read_position(data, 1 + i * 4));
        i = i + 1;
    }
    assert(movements@ =~= Seq::new(data@[0] as nat, |i: int| position_at(data@, 1 + 4 * i)));
    Ok(movements)
}

/// The error of a body of `got` bytes that should hold `expected`.
pub open spec fn wrong_amount<T>(got: nat, expected: int) -> Result<T, ReadPacketErrorsView> {
    Err(ReadPacketErrorsView::UnexpectedDataAmount { got: got as usize, expected: clip(expected) })
}

/// What the block of movements of a body holds that begins `prefix` bytes
/// into it, or the error of a body whose length does not fit the block's count.
pub open spec fn movements_in(body: Seq<u8>, prefix: int) -> Result<
    Seq<Position>,
    ReadPacketErrorsView,
> {
    match spec_read_movements(body.subrange(prefix, body.len() as int)) {
        Ok(m) => Ok(m),
        Err(e) => wrong_amount(body.len(), prefix + e),
    }
}

pub open spec fn spec_read_protocol(body: Seq<u8>) -> Result<
    ClientPacketsView,
    ReadPacketErrorsView,
> {
    if body.len() == 2 {
        Ok(ClientPacketsView::ProtocolRequest { game_version: spec_u16_le(body[0], body[1]) })
    } else {
        wrong_amount(body.len(), 2)
    }
}

pub open spec fn spec_read_test(body: Seq<u8>) -> Result<ClientPacketsView, ReadPacketErrorsView> {
    if body.len() == CONNECTION_TEST_DATA_SIZE {
        Ok(ClientPacketsView::ConnectionTest { data: body })
    } else {
        wrong_amount(body.len(), CONNECTION_TEST_DATA_SIZE as int)
    }
}

/// A debug message is the length of its text, in four bytes, and the text,
/// in UTF-8.
pub open spec fn spec_read_debug_log(body: Seq<u8>) -> Result<
    ClientPacketsView,
    ReadPacketErrorsView,
> {
    if body.len() < 4 {
        wrong_amount(body.len(), 4)
    } else {
        let length = spec_u32_le(body[0], body[1], body[2], body[3]);
        let text = body.subrange(4, body.len() as int);
        if body.len() != 4 + length {
            wrong_amount(body.len(), 4 + length)
        } else if valid_utf8(text) {
            Ok(ClientPacketsView::LogDebugMessage { message: decode_utf8(text) })
        } else {
            Err(
                ReadPacketErrorsView::InvalidDataError {
                    packet_type: "Dlog"@,
                    data: body,
                },
            )
        }
    }
}

pub open spec fn spec_read_empty(body: Seq<u8>, packet: ClientPacketsView) -> Result<
    ClientPacketsView,
    ReadPacketErrorsView,
> {
    if body.len() == 0 {
        Ok(packet)
    } else {
        wrong_amount(body.len(), 0)
    }
}

pub open spec fn spec_read_room(body: Seq<u8>) -> Result<ClientPacketsView, ReadPacketErrorsView> {
    if body.len() == 2 {
        Ok(
            ClientPacketsView::RoomRequest {
                coords: RoomCoordinates { x: spec_i8(body[0]), y: spec_i8(body[1]) },
            },
        )
    } else {
        wrong_amount(body.len(), 2)
    }
}

/// The signed number that the byte stands for.
pub open spec fn spec_i8(b: u8) -> i8 {
    if b >= 0x80 {
        (b - 0x100) as i8
    } else {
        b as i8
    }
}

pub open spec fn spec_read_change_color(body: Seq<u8>) -> Result<
    ClientPacketsView,
    ReadPacketErrorsView,
> {
    if body.len() < 2 {
        wrong_amount(body.len(), 2)
    } else {
        match movements_in(body, 1) {
            Ok(movements) => Ok(ClientPacketsView::ChangeColor { color: body[0], movements }),
            Err(e) => Err(e),
        }
    }
}

pub open spec fn spec_read_my_position(body: Seq<u8>) -> Result<
    ClientPacketsView,
    ReadPacketErrorsView,
> {
    match movements_in(body, 0) {
        Ok(movements) => Ok(ClientPacketsView::MyPosition { movements }),
        Err(e) => Err(e),
    }
}

pub open spec fn spec_read_draw_on_field(body: Seq<u8>) -> Result<
    ClientPacketsView,
    ReadPacketErrorsView,
> {
    if body.len() < 6 {
        wrong_amount(body.len(), 6)
    } else {
        match movements_in(body, 5) {
            Ok(movements) => Ok(
                ClientPacketsView::DrawOnField {
                    position: position_at(body, 0),
                    tile: body[4],
                    movements,
                },
            ),
            Err(e) => Err(e),
        }
    }
}

pub open spec fn spec_read_hit(body: Seq<u8>) -> Result<ClientPacketsView, ReadPacketErrorsView> {
    if body.len() < 2 {
        wrong_amount(body.len(), 2)
    } else {
        match movements_in(body, 1) {
            Ok(movements) => Ok(ClientPacketsView::HitNonPlayerUnit { index: body[0], movements }),
            Err(e) => Err(e),
        }
    }
}

/// The body of a corpse is a position.
pub open spec fn spec_read_make_corpse(body: Seq<u8>) -> Result<
    ClientPacketsView,
    ReadPacketErrorsView,
> {
    if body.len() == 4 {
        Ok(ClientPacketsView::MakeCorpse { position: position_at(body, 0) })
    } else {
        wrong_amount(body.len(), 4)
    }
}

pub open spec fn spec_read_heaven(body: Seq<u8>) -> Result<
    ClientPacketsView,
    ReadPacketErrorsView,
> {
    match movements_in(body, 0) {
        Ok(movements) => Ok(ClientPacketsView::Heaven { movements }),
        Err(e) => Err(e),
    }
}

/// The packet that the bytes `packet` stand for: four bytes of type and the
/// body that the type asks for.
pub open spec fn spec_read_packet(packet: Seq<u8>) -> Result<
    ClientPacketsView,
    ReadPacketErrorsView,
> {
    if packet.len() < MIN_PACKET_LENGTH {
        Err(ReadPacketErrorsView::InvalidLengthError { length: packet.len() as u32 })
    } else {
        let kind = packet.subrange(0, 4);
        let body = packet.subrange(4, packet.len() as int);
        if kind == PACKET_TYPE_PROTOCOL@ {
            spec_read_protocol(body)
        } else if kind == PACKET_TYPE_TEST@ {
            spec_read_test(body)
        } else if kind == PACKET_TYPE_DEBUG_LOG@ {
            spec_read_debug_log(body)
        } else if kind == PACKET_TYPE_MAP_ATTRIBUTES@ {
            spec_read_empty(body, ClientPacketsView::MapAttributeRequest)
        } else if kind == PACKET_TYPE_ROOM@ {
            spec_read_room(body)
        } else if kind == PACKET_TYPE_CHANGE_COLOR@ {
            spec_read_change_color(body)
        } else if kind == PACKET_TYPE_MY_POSITION@ {
            spec_read_my_position(body)
        } else if kind == PACKET_TYPE_DRAW_ON_FIELD@ {
            spec_read_draw_on_field(body)
        } else if kind == PACKET_TYPE_HIT_NON_PLAYER_UNIT@ {
            spec_read_hit(body)
        } else if kind == PACKET_TYPE_MAKE_CORPSE@ {
            spec_read_make_corpse(body)
        } else if kind == PACKET_TYPE_HEAVEN@ {
            spec_read_heaven(body)
        } else if kind == PACKET_TYPE_BYE@ {
            spec_read_empty(body, ClientPacketsView::Bye)
        } else {
            Err(ReadPacketErrorsView::InvalidTypeError { chars: kind })
        }
    }
}

/// A result of reading as a plain value.
pub open spec fn read_result_view(r: Result<ClientPackets, ReadPacketErrors>) -> Result<
    ClientPacketsView,
    ReadPacketErrorsView,
> {
    match r {
        Ok(p) => Ok(p@),
        Err(e) => Err(e@),
    }
}

/// The text of valid UTF-8 bytes, or nothing where they are not valid.
/// Wraps `String::from_utf8` of std, which accepts exactly the valid
/// sequences and decodes them.
#[verifier::external_body]
fn string_from_utf8(bytes: Vec<u8>) -> (r: Option<String>)
    ensures
        r is Some <==> valid_utf8(bytes@),
        r is Some ==> r.unwrap()@ == decode_utf8(bytes@),
{
    String::from_utf8(bytes).ok()
}

pub(crate) fn is_kind(kind: &[u8], expected: &[u8; 4]) -> (r: bool)
    requires
        kind@.len() == 4,
    ensures
        r == (kind@ == expected@),
{
    let r = kind[0] == expected[0] && kind[1] == expected[1] && kind[2] == expected[2] && kind[3]
        == expected[3];
    proof {
        if r {
            assert(kind@ =~= expected@);
        }
    }
    r
}

fn read_in(body: &[u8], prefix: usize) -> (r: Result<Vec<Position>, ReadPacketErrors>)
    requires
        prefix <= body@.len(),
        prefix < 8,
    ensures
        match r {
            Ok(m) => movements_in(body@, prefix as int) == Ok::<_, ReadPacketErrorsView>(m@),
            Err(e) => movements_in(body@, prefix as int) == Err::<Seq<Position>, _>(e@),
        },
{
    match read_movements(slice_subrange(body, prefix, body.len())) {
        Ok(movements) => Ok(movements),
        Err(expected) => Err(
            ReadPacketErrors::UnexpectedDataAmount { got: body.len(), expected: prefix + expected },
        ),
    }
}

fn wrong(got: usize, expected: usize) -> (r: Result<ClientPackets, ReadPacketErrors>)
    ensures
        read_result_view(r) == wrong_amount::<ClientPacketsView>(got as nat, expected as int),
{
    Err(ReadPacketErrors::UnexpectedDataAmount { got, expected })
}

fn read_debug_log(body: &[u8]) -> (r: Result<ClientPackets, ReadPacketErrors>)
    ensures
        read_result_view(r) == spec_read_debug_log(body@),
{
    if body.len() < 4 {
        return wrong(body.len(), 4);
    }
    let length: u32 = read_u32(body, 0);
    let expected: usize = if length as u64 + 4 > usize::MAX as u64 {
        usize::MAX
    } else {
        (length as u64 + 4) as usize
    };
    if body.len() as u64 != 4 + length as u64 {
        return wrong(body.len(), expected);
    }
    let text = copy_bytes(slice_subrange(body, 4, body.len()));
    match string_from_utf8(text) {
        Some(message) => Ok(ClientPackets::LogDebugMessage { message }),
        None => {
            let packet_type = "Dlog".to_owned();
            Err(ReadPacketErrors::InvalidDataError { packet_type, data: copy_bytes(body) })
        },
    }
}

fn read_test(body: &[u8]) -> (r: Result<ClientPackets, ReadPacketErrors>)
    ensures
        read_result_view(r) == spec_read_test(body@),
{
    if body.len() != CONNECTION_TEST_DATA_SIZE {
        return wrong(body.len(), CONNECTION_TEST_DATA_SIZE);
    }
    let mut data = [0u8; 508];
    let mut i: usize = 0;
    while i < CONNECTION_TEST_DATA_SIZE
        invariant
            i <= CONNECTION_TEST_DATA_SIZE,
            body@.len() == CONNECTION_TEST_DATA_SIZE,
            forall|j: int| 0 <= j < i ==> data@[j] == body@[j],
        decreases CONNECTION_TEST_DATA_SIZE - i,
    {
        data[i] = body[i];
        i = i + 1;
    }
    assert(data@ =~= body@);
    Ok(ClientPackets::ConnectionTest { data })
}

pub(crate) fn read_i8(b: u8) -> (r: i8)
    ensures
        r == spec_i8(b),
{
    if b >= 0x80 {
        (b as i16 - 0x100) as i8
    } else {
        b as i8
    }
}

/// Reads the packet of a client from its bytes: the type and the body,
/// without the length that precedes them on a raw connection.
pub fn read_packet(packet: &[u8]) -> (r: Result<ClientPackets, ReadPacketErrors>)
    ensures
        read_result_view(r) == spec_read_packet(packet@),
{
    if packet.len() < MIN_PACKET_LENGTH {
        return Err(ReadPacketErrors::InvalidLengthError { length: packet.len() as u32 });
    }
    let kind = slice_subrange(packet, 0, 4);
    let body = slice_subrange(packet, 4, packet.len());
    if is_kind(kind, &PACKET_TYPE_PROTOCOL) {
        if body.len() == 2 {
            Ok(ClientPackets::ProtocolRequest { game_version: read_u16(body, 0) })
        } else {
            wrong(body.len(), 2)
        }
    } else if is_kind(kind, &PACKET_TYPE_TEST) {
        read_test(body)
    } else if is_kind(kind, &PACKET_TYPE_DEBUG_LOG) {
        read_debug_log(body)
    } else if is_kind(kind, &PACKET_TYPE_MAP_ATTRIBUTES) {
        if body.len() == 0 {
            Ok(ClientPackets::MapAttributeRequest)
        } else {
            wrong(body.len(), 0)
        }
    } else if is_kind(kind, &PACKET_TYPE_ROOM) {
        if body.len() == 2 {
            Ok(
                ClientPackets::RoomRequest {
                    coords: RoomCoordinates { x: read_i8(body[0]), y: read_i8(body[1]) },
                },
            )
        } else {
            wrong(body.len(), 2)
        }
    } else if is_kind(kind, &PACKET_TYPE_CHANGE_COLOR) {
        if body.len() < 2 {
            return wrong(body.len(), 2);
        }
        let color = body[0];
        match read_in(body, 1) {
            Ok(movements) => Ok(ClientPackets::ChangeColor { color, movements }),
            Err(e) => Err(e),
        }
    } else if is_kind(kind, &PACKET_TYPE_MY_POSITION) {
        match read_in(body, 0) {
            Ok(movements) => Ok(ClientPackets::MyPosition { movements }),
            Err(e) => Err(e),
        }
    } else if is_kind(kind, &PACKET_TYPE_DRAW_ON_FIELD) {
        if body.len() < 6 {
            return wrong(body.len(), 6);
        }
        let position = read_position(body, 0);
        let tile = body[4];
        match read_in(body, 5) {
            Ok(movements) => Ok(ClientPackets::DrawOnField { position, tile, movements }),
            Err(e) => Err(e),
        }
    } else if is_kind(kind, &PACKET_TYPE_HIT_NON_PLAYER_UNIT) {
        if body.len() < 2 {
            return wrong(body.len(), 2);
        }
        let index = body[0];
        match read_in(body, 1) {
            Ok(movements) => Ok(ClientPackets::HitNonPlayerUnit { index, movements }),
            Err(e) => Err(e),
        }
    } else if is_kind(kind, &PACKET_TYPE_MAKE_CORPSE) {
        if body.len() == 4 {
            Ok(ClientPackets::MakeCorpse { position: read_position(body, 0) })
        } else {
            wrong(body.len(), 4)
        }
    } else if is_kind(kind, &PACKET_TYPE_HEAVEN) {
        match read_in(body, 0) {
            Ok(movements) => Ok(ClientPackets::Heaven { movements }),
            Err(e) => Err(e),
        }
    } else if is_kind(kind, &PACKET_TYPE_BYE) {
        if body.len() == 0 {
            Ok(ClientPackets::Bye)
        } else {
            wrong(body.len(), 0)
        }
    } else {
        Err(ReadPacketErrors::InvalidTypeError { chars: copy_bytes(kind) })
    }
}


#[derive(PartialEq, Eq, Structural, Clone, Copy, Debug)]
pub enum Weather {
    Clear,
    Rainy,
}

impl Weather {
    /// The byte that stands for the weather on the wire.
    pub open spec fn spec_code(self) -> u8 {
        match self {
            Weather::Clear => 0,
            Weather::Rainy => 1,
        }
    }

    pub fn code(self) -> (r: u8)
        ensures
            r == self.spec_code(),
    {
        match self {
            Weather::Clear => 0,
            Weather::Rainy => 1,
        }
    }

    /// The weather that `code` stands for, if it stands for one.
    pub open spec fn spec_from_code(code: u8) -> Option<Weather> {
        if code == 0 {
            Some(Weather::Clear)
        } else if code == 1 {
            Some(Weather::Rainy)
        } else {
            None
        }
    }

    /// The weather that `code` stands for, if it stands for one.
    pub fn from_code(code: u8) -> (r: Option<Weather>)
        ensures
            r == Self::spec_from_code(code),
    {
        match code {
            0 => Some(Weather::Clear),
            1 => Some(Weather::Rainy),
            _ => None,
        }
    }
}

/// A tile that changed, and what it is now.
#[derive(PartialEq, Eq, Structural, Clone, Copy, Debug)]
pub struct ChangedTile {
    pub x: i16,
    pub y: i16,
    pub tile: u8,
}

impl ChangedTile {
    pub fn new(x: i16, y: i16, tile: u8) -> (r: ChangedTile)
        ensures
            r == (ChangedTile { x, y, tile }),
    {
        ChangedTile { x, y, tile }
    }
}

/// What the server sends.
pub enum ServerPackets<'a> {
    Welcome,
    Protocol { protocol: [u8; 8], version: u16 },
    MapAttributesResponse { map_attributes: &'a MapAttributes },
    RoomResponse { coords: RoomCoordinates, room: &'a Room },
    Fields {
        client_state: SoaprunnerSprites,
        client_color: SoaprunnerColors,
        client_items: SoaprunnerItems,
        weather: Weather,
        soaprunners: Vec<(usize, Soaprunner)>,
        entities: Vec<(usize, Unit)>,
        tiles: Vec<ChangedTile>,
    },
    ConnectionTest { data: [u8; 508] },
    Void,
}

/// A packet of the server as a plain value.
pub enum ServerPacketsView {
    Welcome,
    Protocol { protocol: Seq<u8>, version: u16 },
    MapAttributesResponse { width: u16, height: u16, attributes: Seq<u8> },
    RoomResponse { coords: RoomCoordinates, room: Seq<u8> },
    Fields {
        client_state: SoaprunnerSprites,
        client_color: SoaprunnerColors,
        client_items: SoaprunnerItems,
        weather: Weather,
        soaprunners: Seq<(usize, SoaprunnerView)>,
        entities: Seq<(usize, UnitView)>,
        tiles: Seq<ChangedTile>,
    },
    ConnectionTest { data: Seq<u8> },
    Void,
}

/// The numbered players of a list as plain values.
pub open spec fn soaprunners_view(s: Seq<(usize, Soaprunner)>) -> Seq<(usize, SoaprunnerView)> {
    Seq::new(s.len(), |i: int| (s[i].0, s[i].1@))
}

/// The numbered entities of a list as plain values.
pub open spec fn units_view(s: Seq<(usize, Unit)>) -> Seq<(usize, UnitView)> {
    Seq::new(s.len(), |i: int| (s[i].0, s[i].1@))
}

impl<'a> View for ServerPackets<'a> {
    type V = ServerPacketsView;

    open spec fn view(&self) -> ServerPacketsView {
        match *self {
            ServerPackets::Welcome => ServerPacketsView::Welcome,
            ServerPackets::Protocol { protocol, version } => ServerPacketsView::Protocol {
                protocol: protocol@,
                version,
            },
            ServerPackets::MapAttributesResponse { map_attributes } => {
                ServerPacketsView::MapAttributesResponse {
                    width: map_attributes.width,
                    height: map_attributes.height,
                    attributes: map_attributes.attributes@,
                }
            },
            ServerPackets::RoomResponse { coords, room } => ServerPacketsView::RoomResponse {
                coords,
                room: room.data@,
            },
            ServerPackets::Fields {
                client_state,
                client_color,
                client_items,
                weather,
                soaprunners,
                entities,
                tiles,
            } => ServerPacketsView::Fields {
                client_state,
                client_color,
                client_items,
                weather,
                soaprunners: soaprunners_view(soaprunners@),
                entities: units_view(entities@),
                tiles: tiles@,
            },
            ServerPackets::ConnectionTest { data } => ServerPacketsView::ConnectionTest {
                data: data@,
            },
            ServerPackets::Void => ServerPacketsView::Void,
        }
    }
}

/// Why a packet cannot be written.
#[derive(PartialEq, Eq, Structural, Clone, Copy, Debug)]
pub enum WritePacketErrors {
    /// The packet lists more players, entities or tiles than a client takes.
    InvalidInput,
}

/// The lowest byte of `v`.
pub open spec fn low_byte(v: int) -> u8 {
    (v % 256) as u8
}

/// The two bytes of `v`, lowest first.
pub open spec fn spec_u16_bytes(v: u16) -> Seq<u8> {
    seq![low_byte(v as int), low_byte(v as int / 256)]
}

/// The two bytes of `v` in two's complement, lowest first.
pub open spec fn spec_i16_bytes(v: i16) -> Seq<u8> {
    let u = if v < 0 {
        v + 0x1_0000
    } else {
        v as int
    };
    seq![low_byte(u), low_byte(u / 256)]
}

/// The byte that stands for `v` in two's complement.
pub open spec fn spec_i8_byte(v: i8) -> u8 {
    if v < 0 {
        (v + 0x100) as u8
    } else {
        v as u8
    }
}

pub open spec fn position_bytes(p: Position) -> Seq<u8> {
    spec_i16_bytes(p.x) + spec_i16_bytes(p.y)
}

/// The bytes of the positions of a list, one position after the other.
pub open spec fn positions_bytes(s: Seq<Position>) -> Seq<u8>
    decreases s.len(),
{
    if s.len() == 0 {
        Seq::empty()
    } else {
        positions_bytes(s.drop_last()) + position_bytes(s.last())
    }
}

/// A player's record: its number, trigger, sprite, color and items, the
/// number of its movements, and the movements.
pub open spec fn soaprunner_bytes(index: usize, s: SoaprunnerView) -> Seq<u8> {
    seq![
        low_byte(index as int),
        s.teleport_trigger,
        s.sprite.spec_code(),
        s.color.spec_code(),
        s.items.spec_bits(),
        low_byte(s.movements.len() as int),
    ] + positions_bytes(s.movements)
}

pub open spec fn soaprunners_bytes(s: Seq<(usize, SoaprunnerView)>) -> Seq<u8>
    decreases s.len(),
{
    if s.len() == 0 {
        Seq::empty()
    } else {
        soaprunners_bytes(s.drop_last()) + soaprunner_bytes(s.last().0, s.last().1)
    }
}

/// An entity's record: its number, trigger, state, kind and direction, the
/// number of its movements, and the movements.
pub open spec fn unit_bytes(index: usize, u: UnitView) -> Seq<u8> {
    seq![
        low_byte(index as int),
        u.teleport_trigger,
        u.unit_state.spec_code(),
        u.unit_type.spec_code(),
        u.direction,
        low_byte(u.movements.len() as int),
    ] + positions_bytes(u.movements)
}

pub open spec fn units_bytes(s: Seq<(usize, UnitView)>) -> Seq<u8>
    decreases s.len(),
{
    if s.len() == 0 {
        Seq::empty()
    } else {
        units_bytes(s.drop_last()) + unit_bytes(s.last().0, s.last().1)
    }
}

/// A changed tile's record: where it is, what it is, and a zero.
pub open spec fn tile_bytes(t: ChangedTile) -> Seq<u8> {
    spec_i16_bytes(t.x) + spec_i16_bytes(t.y) + seq![t.tile, 0u8]
}

pub open spec fn tiles_bytes(s: Seq<ChangedTile>) -> Seq<u8>
    decreases s.len(),
{
    if s.len() == 0 {
        Seq::empty()
    } else {
        tiles_bytes(s.drop_last()) + tile_bytes(s.last())
    }
}

/// Whether a snapshot lists no more players, entities and tiles than a
/// client takes.
pub open spec fn fields_fit(players: nat, entities: nat, tiles: nat) -> bool {
    players <= CLIENT_MAX_PLAYERS && entities <= CLIENT_MAX_ENTITIES && tiles <= CLIENT_MAX_TILES
}

/// The bytes of a packet of the server: its type and its body.
pub open spec fn spec_write_packet(packet: ServerPacketsView) -> Result<
    Seq<u8>,
    WritePacketErrors,
> {
    match packet {
        ServerPacketsView::Welcome => Ok(PACKET_TYPE_WELCOME@),
        ServerPacketsView::Void => Ok(PACKET_TYPE_VOID@),
        ServerPacketsView::Protocol { protocol, version } => Ok(
            PACKET_TYPE_PROTOCOL@ + protocol + spec_u16_bytes(version),
        ),
        ServerPacketsView::ConnectionTest { data } => Ok(PACKET_TYPE_TEST@ + data),
        ServerPacketsView::MapAttributesResponse { width, height, attributes } => Ok(
            PACKET_TYPE_MAP_ATTRIBUTES@ + spec_u16_bytes(width) + spec_u16_bytes(height)
                + attributes,
        ),
        ServerPacketsView::RoomResponse { coords, room } => Ok(
            PACKET_TYPE_ROOM@ + seq![spec_i8_byte(coords.x), spec_i8_byte(coords.y)] + room,
        ),
        ServerPacketsView::Fields {
            client_state,
            client_color,
            client_items,
            weather,
            soaprunners,
            entities,
            tiles,
        } => {
            if fields_fit(soaprunners.len(), entities.len(), tiles.len()) {
                Ok(
                    PACKET_TYPE_FIELDS@ + seq![
                        client_state.spec_code(),
                        client_color.spec_code(),
                        client_items.spec_bits(),
                        soaprunners.len() as u8,
                        entities.len() as u8,
                        tiles.len() as u8,
                        weather.spec_code(),
                    ] + soaprunners_bytes(soaprunners) + units_bytes(entities) + tiles_bytes(tiles),
                )
            } else {
                Err(WritePacketErrors::InvalidInput)
            }
        },
    }
}

pub(crate) fn push_bytes(out: &mut Vec<u8>, data: &[u8])
    ensures
        final(out)@ == old(out)@ + data@,
{
    let mut i: usize = 0;
    while i < data.len()
        invariant
            i <= data.len(),
            out@ =~= old(out)@ + data@.subrange(0, i as int),
        decreases data.len() - i,
    {
        out.push(data[i]);
        i = i + 1;
    }
    assert(data@.subrange(0, data@.len() as int) =~= data@);
}

pub(crate) fn push_u16(out: &mut Vec<u8>, v: u16)
    ensures
        final(out)@ == old(out)@ + spec_u16_bytes(v),
{
    out.push((v % 256) as u8);
    out.push((v / 256) as u8);
    assert(out@ =~= old(out)@ + spec_u16_bytes(v));
}

pub(crate) fn push_i16(out: &mut Vec<u8>, v: i16)
    ensures
        final(out)@ == old(out)@ + spec_i16_bytes(v),
{
    let u: i32 = if v < 0 {
        v as i32 + 0x1_0000
    } else {
        v as i32
    };
    out.push((u % 256) as u8);
    out.push((u / 256) as u8);
    assert(out@ =~= old(out)@ + spec_i16_bytes(v));
}

pub(crate) fn i8_byte(v: i8) -> (r: u8)
    ensures
        r == spec_i8_byte(v),
{
    if v < 0 {
        (v as i16 + 0x100) as u8
    } else {
        v as u8
    }
}

pub(crate) fn push_positions(out: &mut Vec<u8>, positions: &Vec<Position>)
    ensures
        final(out)@ == old(out)@ + positions_bytes(positions@),
{
    let mut i: usize = 0;
    assert(positions@.take(0) =~= Seq::<Position>::empty());
    while i < positions.len()
        invariant
            i <= positions.len(),
            out@ =~= old(out)@ + positions_bytes(positions@.take(i as int)),
        decreases positions.len() - i,
    {
        let ghost before = out@;
        push_i16(out, positions[i].x);
        push_i16(out, positions[i].y);
        proof {
            let next = positions@.take(i + 1);
            assert(next.drop_last() =~= positions@.take(i as int));
            assert(next.last() == positions@[i as int]);
            assert(out@ =~= before + position_bytes(positions@[i as int]));
        }
        i = i + 1;
    }
    assert(positions@.take(positions@.len() as int) =~= positions@);
}

fn push_soaprunner(out: &mut Vec<u8>, index: usize, s: &Soaprunner)
    ensures
        final(out)@ == old(out)@ + soaprunner_bytes(index, s@),
{
    let ghost before = out@;
    out.push((index % 256) as u8);
    out.push(s.teleport_trigger);
    out.push(s.sprite.code());
    out.push(s.color.code());
    out.push(s.items.bits());
    out.push((s.movements.len() % 256) as u8);
    let ghost head = out@;
    push_positions(out, &s.movements);
    assert(head =~= before + seq![
        low_byte(index as int),
        s.teleport_trigger,
        s.sprite.spec_code(),
        s.color.spec_code(),
        s.items.spec_bits(),
        low_byte(s.movements@.len() as int),
    ]);
    assert(out@ =~= before + soaprunner_bytes(index, s@));
}

fn push_unit(out: &mut Vec<u8>, index: usize, u: &Unit)
    ensures
        final(out)@ == old(out)@ + unit_bytes(index, u@),
{
    let ghost before = out@;
    out.push((index % 256) as u8);
    out.push(u.teleport_trigger);
    out.push(u.unit_state.code());
    out.push(u.unit_type.code());
    out.push(u.direction);
    out.push((u.movements.len() % 256) as u8);
    let ghost head = out@;
    push_positions(out, &u.movements);
    assert(head =~= before + seq![
        low_byte(index as int),
        u.teleport_trigger,
        u.unit_state.spec_code(),
        u.unit_type.spec_code(),
        u.direction,
        low_byte(u.movements@.len() as int),
    ]);
    assert(out@ =~= before + unit_bytes(index, u@));
}

fn push_tile(out: &mut Vec<u8>, t: &ChangedTile)
    ensures
        final(out)@ == old(out)@ + tile_bytes(*t),
{
    let ghost before = out@;
    push_i16(out, t.x);
    push_i16(out, t.y);
    out.push(t.tile);
    out.push(0);
    assert(out@ =~= before + tile_bytes(*t));
}

fn push_soaprunners(out: &mut Vec<u8>, soaprunners: &Vec<(usize, Soaprunner)>)
    ensures
        final(out)@ == old(out)@ + soaprunners_bytes(soaprunners_view(soaprunners@)),
{
    let ghost all = soaprunners_view(soaprunners@);
    let mut i: usize = 0;
    assert(all.take(0) =~= Seq::<(usize, SoaprunnerView)>::empty());
    while i < soaprunners.len()
        invariant
            i <= soaprunners.len(),
            all == soaprunners_view(soaprunners@),
            out@ =~= old(out)@ + soaprunners_bytes(all.take(i as int)),
        decreases soaprunners.len() - i,
    {
        let ghost before = out@;
        push_soaprunner(out, soaprunners[i].0, &soaprunners[i].1);
        proof {
            let next = all.take(i + 1);
            assert(next.drop_last() =~= all.take(i as int));
            assert(next.last() == all[i as int]);
        }
        i = i + 1;
    }
    assert(all.take(all.len() as int) =~= all);
}

fn push_units(out: &mut Vec<u8>, units: &Vec<(usize, Unit)>)
    ensures
        final(out)@ == old(out)@ + units_bytes(units_view(units@)),
{
    let ghost all = units_view(units@);
    let mut i: usize = 0;
    assert(all.take(0) =~= Seq::<(usize, UnitView)>::empty());
    while i < units.len()
        invariant
            i <= units.len(),
            all == units_view(units@),
            out@ =~= old(out)@ + units_bytes(all.take(i as int)),
        decreases units.len() - i,
    {
        push_unit(out, units[i].0, &units[i].1);
        proof {
            let next = all.take(i + 1);
            assert(next.drop_last() =~= all.take(i as int));
            assert(next.last() == all[i as int]);
        }
        i = i + 1;
    }
    assert(all.take(all.len() as int) =~= all);
}

fn push_tiles(out: &mut Vec<u8>, tiles: &Vec<ChangedTile>)
    ensures
        final(out)@ == old(out)@ + tiles_bytes(tiles@),
{
    let mut i: usize = 0;
    assert(tiles@.take(0) =~= Seq::<ChangedTile>::empty());
    while i < tiles.len()
        invariant
            i <= tiles.len(),
            out@ =~= old(out)@ + tiles_bytes(tiles@.take(i as int)),
        decreases tiles.len() - i,
    {
        push_tile(out, &tiles[i]);
        proof {
            let next = tiles@.take(i + 1);
            assert(next.drop_last() =~= tiles@.take(i as int));
            assert(next.last() == tiles@[i as int]);
        }
        i = i + 1;
    }
    assert(tiles@.take(tiles@.len() as int) =~= tiles@);
}

/// A write result as a plain value.
pub open spec fn write_result_view(r: Result<Vec<u8>, WritePacketErrors>) -> Result<
    Seq<u8>,
    WritePacketErrors,
> {
    match r {
        Ok(bytes) => Ok(bytes@),
        Err(e) => Err(e),
    }
}

/// Writes a packet of the server as bytes: the type and the body, without
/// the length that precedes them on a raw connection.
pub fn write_packet(packet: &ServerPackets) -> (r: Result<Vec<u8>, WritePacketErrors>)
    ensures
        write_result_view(r) == spec_write_packet(packet@),
{
    let mut data: Vec<u8> = Vec::new();
    match packet {
        ServerPackets::Welcome => {
            push_bytes(&mut data, PACKET_TYPE_WELCOME.as_slice());
        },
        ServerPackets::Void => {
            push_bytes(&mut data, PACKET_TYPE_VOID.as_slice());
        },
        ServerPackets::Protocol { protocol, version } => {
            push_bytes(&mut data, PACKET_TYPE_PROTOCOL.as_slice());
            push_bytes(&mut data, protocol.as_slice());
            push_u16(&mut data, *version);
        },
        ServerPackets::ConnectionTest { data: echo } => {
            push_bytes(&mut data, PACKET_TYPE_TEST.as_slice());
            push_bytes(&mut data, echo.as_slice());
        },
        ServerPackets::MapAttributesResponse { map_attributes } => {
            push_bytes(&mut data, PACKET_TYPE_MAP_ATTRIBUTES.as_slice());
            push_u16(&mut data, map_attributes.width);
            push_u16(&mut data, map_attributes.height);
            push_bytes(&mut data, map_attributes.attributes.as_slice());
        },
        ServerPackets::RoomResponse { coords, room } => {
            push_bytes(&mut data, PACKET_TYPE_ROOM.as_slice());
            data.push(i8_byte(coords.x));
            data.push(i8_byte(coords.y));
            push_bytes(&mut data, room.data.as_slice());
            assert(data@ =~= PACKET_TYPE_ROOM@ + seq![
                spec_i8_byte(coords.x),
                spec_i8_byte(coords.y),
            ] + room.data@);
        },
        ServerPackets::Fields {
            client_state,
            client_color,
            client_items,
            weather,
            soaprunners,
            entities,
            tiles,
        } => {
            if soaprunners.len() > CLIENT_MAX_PLAYERS {
                return Err(WritePacketErrors::InvalidInput);
            }
            if entities.len() > CLIENT_MAX_ENTITIES {
                return Err(WritePacketErrors::InvalidInput);
            }
            if tiles.len() > CLIENT_MAX_TILES {
                return Err(WritePacketErrors::InvalidInput);
            }
            push_bytes(&mut data, PACKET_TYPE_FIELDS.as_slice());
            data.push(client_state.code());
            data.push(client_color.code());
            data.push(client_items.bits());
            data.push(soaprunners.len() as u8);
            data.push(entities.len() as u8);
            data.push(tiles.len() as u8);
            data.push(weather.code());
            assert(data@ =~= PACKET_TYPE_FIELDS@ + seq![
                client_state.spec_code(),
                client_color.spec_code(),
                client_items.spec_bits(),
                soaprunners@.len() as u8,
                entities@.len() as u8,
                tiles@.len() as u8,
                weather.spec_code(),
            ]);
            push_soaprunners(&mut data, soaprunners);
            push_units(&mut data, entities);
            push_tiles(&mut data, tiles);
        },
    }
    Ok(data)
}

} // verus!

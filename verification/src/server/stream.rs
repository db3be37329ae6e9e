use vstd::prelude::*;

use crate::soaprun::packets::{spec_u32_le, MIN_PACKET_LENGTH};

verus! {

/// The length of the longest packet that is read from a connection.
pub const MAX_PACKET_LENGTH: usize = 0x1_0000;

/// The bytes of a new connection that are looked at to tell what it speaks.
pub const PROBE_BUFFER_SIZE: usize = 128;

/// The seconds for which a new connection is given time to speak first.
pub const PROBE_DELAY: u64 = 1;

/// The bytes that a WebSocket connection may send in one message.
pub const WEBSOCKET_RECEIVE_LIMIT: usize = 0x2_0008;

/// The bytes that may be sent to a WebSocket connection in one message.
pub const WEBSOCKET_SEND_LIMIT: usize = 0x1_0004;

/// How a connection carries packets.
#[derive(PartialEq, Eq, Structural, Clone, Copy, Debug)]
pub enum Transport {
    /// Each packet follows its length, in four bytes.
    Raw,
    /// Each packet is a binary message of a WebSocket.
    WebSocket,
}

/// Why a raw connection cannot go on.
#[derive(PartialEq, Eq, Structural, Clone, Copy, Debug)]
pub enum FrameError {
    /// The length of a packet is below the shortest or above the longest.
    InvalidLength { length: u32 },
}

/// What a message of a WebSocket is to the server.
#[derive(PartialEq, Eq, Structural, Clone, Copy, Debug)]
pub enum WebSocketMessages {
    /// A binary message: a packet.
    Binary,
    /// The other side closes the connection.
    Close,
    /// A text, a ping or a pong.
    Other,
}

/// What to do with a message of a WebSocket.
#[derive(PartialEq, Eq, Structural, Clone, Copy, Debug)]
pub enum WebSocketSteps {
    /// Take the message as a packet.
    Deliver,
    /// Give the connection up as aborted.
    Abort,
    /// Wait for the next message.
    Skip,
}

/// The transport of a new connection of which the first `size` bytes of
/// `peeked` are known: a WebSocket where something was sent and what was
/// sent begins with `GET`, and else a raw connection.
pub open spec fn spec_probe(peeked: Seq<u8>, size: usize) -> Transport {
    if size > 0 && peeked.len() >= 3 && peeked[0] == 0x47 && peeked[1] == 0x45 && peeked[2]
        == 0x54 {
        Transport::WebSocket
    } else {
        Transport::Raw
    }
}

/// Tells from the first bytes of a new connection what it speaks.
pub fn probe(peeked: &[u8], size: usize) -> (r: Transport)
    ensures
        r == spec_probe(peeked@, size),
{
    if size > 0 && peeked.len() >= 3 && peeked[0] == 0x47 && peeked[1] == 0x45 && peeked[2]
        == 0x54 {
        Transport::WebSocket
    } else {
        Transport::Raw
    }
}

/// The length of the packet that follows the four bytes `header` on a raw
/// connection, where it is a length that a packet can have.
pub fn frame_length(header: &[u8; 4]) -> (r: Result<usize, FrameError>)
    ensures
        ({
            let length = spec_u32_le(header@[0], header@[1], header@[2], header@[3]);
            if MIN_PACKET_LENGTH <= length <= MAX_PACKET_LENGTH {
                r == Ok::<usize, FrameError>(length as usize)
            } else {
                r == Err::<usize, FrameError>(FrameError::InvalidLength { length })
            }
        }),
{
    let length: u64 = header[0] as u64 + 0x100 * (header[1] as u64) + 0x1_0000 * (header[2] as u64)
        + 0x100_0000 * (header[3] as u64);
    if length < (MIN_PACKET_LENGTH as u64) || length > (MAX_PACKET_LENGTH as u64) {
        Err(FrameError::InvalidLength { length: length as u32 })
    } else {
        Ok(length as usize)
    }
}

/// The four bytes that precede a packet of `length` bytes on a raw
/// connection.
pub fn frame_header(length: usize) -> (r: [u8; 4])
    requires
        length <= u32::MAX,
    ensures
        spec_u32_le(r@[0], r@[1], r@[2], r@[3]) == length,
{
    let length = length as u64;
    [
        (length % 0x100) as u8,
        ((length / 0x100) % 0x100) as u8,
        ((length / 0x1_0000) % 0x100) as u8,
        ((length / 0x100_0000) % 0x100) as u8,
    ]
}

/// What to do with a message of a WebSocket: a binary message is a packet,
/// a close aborts the connection, and the others are passed over.
pub fn websocket_step(message: WebSocketMessages) -> (r: WebSocketSteps)
    ensures
        r == match message {
            WebSocketMessages::Binary => WebSocketSteps::Deliver,
            WebSocketMessages::Close => WebSocketSteps::Abort,
            WebSocketMessages::Other => WebSocketSteps::Skip,
        },
{
    match message {
        WebSocketMessages::Binary => WebSocketSteps::Deliver,
        WebSocketMessages::Close => WebSocketSteps::Abort,
        WebSocketMessages::Other => WebSocketSteps::Skip,
    }
}

/// Whether a player has done nothing for too long: `idle_timeout` seconds
/// are the bound, where it is above zero, and `idle` seconds have passed
/// since the player last showed that it is there.
pub fn has_idled(idle_timeout: u64, idle: u64) -> (r: bool)
    ensures
        r == (idle_timeout != 0 && idle >= idle_timeout),
{
    idle_timeout != 0 && idle >= idle_timeout
}

} // verus!

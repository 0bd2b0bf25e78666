//! The messages between the game server and the tanks.

use vstd::prelude::*;

use crate::wire;

verus! {

/// What a gamepad holds: the position of its stick, and the number of the last
/// shot that was allowed.
#[derive(Debug, Clone, Copy, PartialEq, Eq)]
pub struct ControllerState {
    pub stick: (i8, i8),
    pub shot_id: u8,
}

/// A message from the server to a tank.
#[derive(Debug, Clone, Copy, PartialEq, Eq)]
pub enum ServerData {
    Controller(ControllerState),
    SetID(u8),
}

/// A message from a tank to the server: who it is (0 while it has no number),
/// and the number of the last hit that it took.
#[derive(Debug, Clone, Copy, PartialEq, Eq, Structural)]
pub struct RobotRespond {
    pub robot_id: u8,
    pub hit_id: u8,
}

/// Why bytes are no message.
#[derive(Debug, Clone, Copy, PartialEq, Eq, Structural)]
pub enum DecodeError {
    /// The bytes do not begin with the number of a variant.
    BadTag,
    /// There is no variant of that number.
    UnknownVariant,
    /// The bytes end before the message does.
    Truncated,
}

/// The longest `ServerData`, in bytes.
pub const SERVER_DATA_MAX_SIZE: usize = 4;

/// The longest `RobotRespond`, in bytes.
pub const ROBOT_RESPOND_MAX_SIZE: usize = 2;

impl Default for ControllerState {
    /// A centred stick and no shot.
    fn default() -> (r: Self)
        ensures
            r == (ControllerState { stick: (0, 0), shot_id: 0 }),
    {
        ControllerState { stick: (0, 0), shot_id: 0 }
    }
}

/// The number after `id`: one more, and 0 after 255.
pub open spec fn next_id(id: u8) -> u8 {
    if id == 255 {
        0
    } else {
        (id + 1) as u8
    }
}

/// Takes over a received number and tells whether it is a new one.
pub fn detect_id_change(now: &mut u8, received: u8) -> (changed: bool)
    ensures
        *final(now) == received,
        changed <==> *old(now) != received,
{
    let changed = *now != received;
    *now = received;
    changed
}

/// The first `n` bytes of a buffer.
fn prefix(buf: &[u8], n: usize) -> (r: Vec<u8>)
    requires
        n <= buf@.len(),
    ensures
        r@ == buf@.take(n as int),
{
    let mut r: Vec<u8> = Vec::new();
    let mut i: usize = 0;
    while i < n
        invariant
            i <= n <= buf@.len(),
            r@ == buf@.take(i as int),
        decreases n - i,
    {
        r.push(buf[i]);
        i += 1;
    }
    r
}

impl ServerData {
    /// The message as it travels: the number of its variant and its fields, a
    /// byte each.
    pub open spec fn image(self) -> Seq<u8> {
        match self {
            ServerData::Controller(c) => seq![
                0u8,
                wire::i8_byte(c.stick.0),
                wire::i8_byte(c.stick.1),
                c.shot_id,
            ],
            ServerData::SetID(id) => seq![1u8, id],
        }
    }

    /// The message at the front of `bytes`. What follows it is ignored.
    pub open spec fn parse(bytes: Seq<u8>) -> Result<ServerData, DecodeError> {
        match wire::varint_from(bytes, 0) {
            None => Err(DecodeError::BadTag),
            Some((tag, end)) => {
                let body = bytes.skip(end as int);
                if tag == 0 {
                    if body.len() >= 3 {
                        Ok(
                            ServerData::Controller(
                                ControllerState {
                                    stick: (wire::byte_i8(body[0]), wire::byte_i8(body[1])),
                                    shot_id: body[2],
                                },
                            ),
                        )
                    } else {
                        Err(DecodeError::Truncated)
                    }
                } else if tag == 1 {
                    if body.len() >= 1 {
                        Ok(ServerData::SetID(body[0]))
                    } else {
                        Err(DecodeError::Truncated)
                    }
                } else {
                    Err(DecodeError::UnknownVariant)
                }
            },
        }
    }

    /// The bytes to send.
    pub fn to_bytes(&self) -> (r: Vec<u8>)
        ensures
            r@ == self.image(),
    {
        let mut buf: [u8; SERVER_DATA_MAX_SIZE] = [0u8;SERVER_DATA_MAX_SIZE];
        let written = match self {
            ServerData::Controller(c) => wire::write_u32_stick_u8((0, c.stick, c.shot_id), &mut buf),
            ServerData::SetID(id) => wire::write_u32_u8((1, *id), &mut buf),
        };
        match written {
            Ok(n) => {
                let r = prefix(&buf, n);
                assert(r@ == self.image());
                r
            },
            Err(_) => Vec::new(),
        }
    }

    /// Reads a message.
    pub fn from_bytes(bytes: &[u8]) -> (r: Result<ServerData, DecodeError>)
        ensures
            r == ServerData::parse(bytes@),
    {
        match wire::take_u32(bytes) {
            Err(_) => Err(DecodeError::BadTag),
            Ok((tag, body)) => {
                if tag == 0 {
                    match wire::read_stick_u8(body) {
                        Ok((stick, shot_id)) => Ok(
                            ServerData::Controller(ControllerState { stick, shot_id }),
                        ),
                        Err(_) => Err(DecodeError::Truncated),
                    }
                } else if tag == 1 {
                    match wire::read_u8(body) {
                        Ok(id) => Ok(ServerData::SetID(id)),
                        Err(_) => Err(DecodeError::Truncated),
                    }
                } else {
                    Err(DecodeError::UnknownVariant)
                }
            },
        }
    }
}

impl RobotRespond {
    /// The message as it travels: its two fields, a byte each.
    pub open spec fn image(self) -> Seq<u8> {
        seq![self.robot_id, self.hit_id]
    }

    /// The message at the front of `bytes`. What follows it is ignored.
    pub open spec fn parse(bytes: Seq<u8>) -> Result<RobotRespond, DecodeError> {
        if bytes.len() >= 2 {
            Ok(RobotRespond { robot_id: bytes[0], hit_id: bytes[1] })
        } else {
            Err(DecodeError::Truncated)
        }
    }

    /// The bytes to send.
    pub fn to_bytes(&self) -> (r: Vec<u8>)
        ensures
            r@ == self.image(),
    {
        let mut buf: [u8; ROBOT_RESPOND_MAX_SIZE] = [0u8;ROBOT_RESPOND_MAX_SIZE];
        match wire::write_u8_u8((self.robot_id, self.hit_id), &mut buf) {
            Ok(n) => prefix(&buf, n),
            Err(_) => Vec::new(),
        }
    }

    /// Reads a message.
    pub fn from_bytes(bytes: &[u8]) -> (r: Result<RobotRespond, DecodeError>)
        ensures
            r == RobotRespond::parse(bytes@),
    {
        match wire::read_u8_u8(bytes) {
            Ok((robot_id, hit_id)) => Ok(RobotRespond { robot_id, hit_id }),
            Err(_) => Err(DecodeError::Truncated),
        }
    }
}

/// What the server writes, a tank reads back, whatever the buffer holds behind
/// the message.
pub proof fn law_server_data_round_trip(message: ServerData, rest: Seq<u8>)
    ensures
        ServerData::parse(message.image() + rest) == Ok::<ServerData, DecodeError>(message),
{
    let bytes = message.image() + rest;
    assert(bytes[0] < 128);
    assert(wire::varint_from(bytes, 0) == Some((bytes[0] as nat, 1nat)));
}

/// What a tank writes, the server reads back, whatever the buffer holds behind
/// the message.
pub proof fn law_robot_respond_round_trip(message: RobotRespond, rest: Seq<u8>)
    ensures
        RobotRespond::parse(message.image() + rest) == Ok::<RobotRespond, DecodeError>(message),
{
}

/// Every message fits in the buffer that is set aside for it.
pub proof fn law_images_fit(to_robot: ServerData, to_server: RobotRespond)
    ensures
        to_robot.image().len() <= SERVER_DATA_MAX_SIZE,
        to_server.image().len() <= ROBOT_RESPOND_MAX_SIZE,
{
}

/// A number that was raised by one, wrapping around, is always a new one.
pub proof fn law_next_id_is_a_change(id: u8)
    ensures
        next_id(id) != id,
{
}

} // verus!

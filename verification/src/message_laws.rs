//! What messages are as bytes.

use vstd::prelude::*;

use crate::communication::{
    detect_id_change, ControllerState, DecodeError, RobotRespond, ServerData,
};
use crate::server_laws::stands_for;

verus! {

/// A number is new when it is not the one before, and is taken over.
pub proof fn law_new_numbers_are_taken_over(now: &mut u8, received: u8, changed: bool)
    requires
        call_ensures(detect_id_change, (now, received), changed),
    ensures
        *final(now) == received,
        changed <==> received != *old(now),
{
}

/// The state of a gamepad takes four bytes: a 0, the two coordinates of the
/// stick, and the number of the last shot.
pub proof fn law_bytes_of_a_gamepad(message: &ServerData, c: ControllerState, r: Vec<u8>)
    requires
        call_ensures(ServerData::to_bytes, (message,), r),
        *message == ServerData::Controller(c),
    ensures
        r@.len() == 4,
        r@[0] == 0,
        stands_for(r@[1], c.stick.0),
        stands_for(r@[2], c.stick.1),
        r@[3] == c.shot_id,
{
}

/// A number for a tank takes two bytes: a 1 and the number.
pub proof fn law_bytes_of_a_number(message: &ServerData, id: u8, r: Vec<u8>)
    requires
        call_ensures(ServerData::to_bytes, (message,), r),
        *message == ServerData::SetID(id),
    ensures
        r@.len() == 2,
        r@[0] == 1,
        r@[1] == id,
{
}

/// A message to a tank is told by its first byte, and what follows its last one
/// does not count. Without all its bytes it is none.
pub proof fn law_reading_a_message_to_a_tank(
    bytes: &[u8],
    r: Result<ServerData, DecodeError>,
    left: i8,
    right: i8,
)
    requires
        call_ensures(ServerData::from_bytes, (bytes,), r),
        bytes@.len() >= 4 ==> stands_for(bytes@[1], left) && stands_for(bytes@[2], right),
    ensures
        bytes@.len() == 0 ==> r == Err::<ServerData, DecodeError>(DecodeError::BadTag),
        bytes@.len() >= 4 && bytes@[0] == 0 ==> r == Ok::<ServerData, DecodeError>(
            ServerData::Controller(ControllerState { stick: (left, right), shot_id: bytes@[3] }),
        ),
        0 < bytes@.len() < 4 && bytes@[0] == 0 ==> r == Err::<ServerData, DecodeError>(
            DecodeError::Truncated,
        ),
        bytes@.len() >= 2 && bytes@[0] == 1 ==> r == Ok::<ServerData, DecodeError>(
            ServerData::SetID(bytes@[1]),
        ),
        bytes@.len() == 1 && bytes@[0] == 1 ==> r == Err::<ServerData, DecodeError>(
            DecodeError::Truncated,
        ),
        bytes@.len() > 0 && 1 < bytes@[0] < 128 ==> r == Err::<ServerData, DecodeError>(
            DecodeError::UnknownVariant,
        ),
{
    if bytes@.len() > 0 && bytes@[0] < 128 {
        assert(crate::wire::varint_from(bytes@, 0) == Some((bytes@[0] as nat, 1nat)));
        let body = bytes@.skip(1);
        assert(forall|i: int| 0 <= i < body.len() ==> body[i] == bytes@[i + 1]);
    }
}

/// A message of a tank takes two bytes: its number and that of the last hit.
pub proof fn law_bytes_of_a_heartbeat(message: &RobotRespond, r: Vec<u8>)
    requires
        call_ensures(RobotRespond::to_bytes, (message,), r),
    ensures
        r@.len() == 2,
        r@[0] == message.robot_id,
        r@[1] == message.hit_id,
{
}

/// It is read from the first two bytes, and refused only where there are fewer.
pub proof fn law_reading_a_heartbeat(bytes: &[u8], r: Result<RobotRespond, DecodeError>)
    requires
        call_ensures(RobotRespond::from_bytes, (bytes,), r),
    ensures
        r is Err <==> bytes@.len() < 2,
        r matches Err(e) ==> e == DecodeError::Truncated,
        r matches Ok(message) ==> message.robot_id == bytes@[0] && message.hit_id == bytes@[1],
{
}

/// The number of a variant may be written with more bytes than it needs. What is
/// read is then what is read behind the one byte, and bytes that begin with no
/// such number are no message.
pub proof fn law_long_numbers_of_variants(
    bytes: &[u8],
    short: &[u8],
    r: Result<ServerData, DecodeError>,
    t: Result<ServerData, DecodeError>,
    tag: u8,
    end: nat,
)
    requires
        call_ensures(ServerData::from_bytes, (bytes,), r),
        call_ensures(ServerData::from_bytes, (short,), t),
        tag < 128,
        short@ == seq![tag] + bytes@.skip(end as int),
    ensures
        crate::wire::varint_from(bytes@, 0) == Some((tag as nat, end)) ==> r == t,
        crate::wire::varint_from(bytes@, 0) is None <==> r == Err::<ServerData, DecodeError>(
            DecodeError::BadTag,
        ),
        crate::wire::varint_from(bytes@, 0) matches Some(read) ==> (read.0 > 1 <==> r == Err::<
            ServerData,
            DecodeError,
        >(DecodeError::UnknownVariant)),
{
    assert(short@[0] == tag);
    assert(crate::wire::varint_from(short@, 0) == Some((tag as nat, 1nat)));
    assert(short@.skip(1) == bytes@.skip(end as int));
}

} // verus!

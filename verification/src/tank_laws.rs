//! What a tank does with an event, told by the tank before and after a call and
//! by the bytes that it receives.

use vstd::prelude::*;

use crate::communication::{DecodeError, ServerData};
use crate::motor::{ease_motor, Motor};
use crate::robot::{DriveAction, DriveEvent, MonitorAction, Robot};
use crate::server_laws::stands_for;
use crate::single::{
    lemma_nearest_ratio, lemma_scale_sum, limit, nearest_ratio, one, rounded, rounded_ratio, Float,
    Real,
};

verus! {

/// Whether the signals of a motor are those for a speed. The phase is low to go
/// forward, and only then. The pulse is as long as the hundredfold speed,
/// rounded, has whole parts, and at most 65535.
pub open spec fn drives(motor: Motor, speed: Real) -> bool {
    match speed {
        Real::Number(x) => {
            let size = if x >= 0 {
                x
            } else {
                -x
            };
            let hundredfold = nearest_ratio(size * 1_677_721_600, 0x100_0000);
            &&& motor.phase_high <==> x <= 0
            &&& motor.timestamp * one() <= hundredfold
            &&& motor.timestamp == 65535 || hundredfold < (motor.timestamp + 1) * one()
        },
        Real::Infinite(negative) => motor.phase_high == negative && motor.timestamp == 65535,
        Real::Nan => motor.phase_high && motor.timestamp == 0,
    }
}

/// Whether the motors stand still: no pulse, and the phase at rest.
pub open spec fn stands_still(robot: Robot) -> bool {
    &&& robot.motor_left.timestamp == 0 && robot.motor_left.phase_high
    &&& robot.motor_right.timestamp == 0 && robot.motor_right.phase_high
}

/// Whether nothing differs but the number.
pub open spec fn same_course(a: Robot, b: Robot) -> bool {
    &&& a.left_velocity == b.left_velocity
    &&& a.right_velocity == b.right_velocity
    &&& a.motor_left == b.motor_left
    &&& a.motor_right == b.motor_right
}

/// When the server is silent for too long, both motors of a tank stop, whether
/// it has a number or not and however fast it was. It keeps its number and the
/// speeds to go on from.
pub proof fn law_silence_stops_the_motors(robot: &mut Robot, r: Result<DriveAction, DecodeError>)
    requires
        old(robot).wf(),
        call_ensures(Robot::drive, (robot, DriveEvent::TimedOut), r),
    ensures
        stands_still(*final(robot)),
        r == Ok::<DriveAction, DecodeError>(DriveAction::Drive),
        final(robot).id == old(robot).id,
        final(robot).left_velocity == old(robot).left_velocity,
        final(robot).right_velocity == old(robot).right_velocity,
{
}

/// A socket that fails once changes nothing.
pub proof fn law_failed_socket_changes_nothing(
    robot: &mut Robot,
    r: Result<DriveAction, DecodeError>,
)
    requires
        old(robot).wf(),
        call_ensures(Robot::drive, (robot, DriveEvent::Failed), r),
    ensures
        *final(robot) == *old(robot),
        r == Ok::<DriveAction, DecodeError>(DriveAction::Keep),
{
}

/// A tank takes the first number that it is told, and keeps it. The motors are
/// left alone.
pub proof fn law_first_number_is_taken(
    robot: &mut Robot,
    bytes: &[u8],
    r: Result<DriveAction, DecodeError>,
)
    requires
        old(robot).wf(),
        call_ensures(Robot::drive, (robot, DriveEvent::Datagram(bytes)), r),
        bytes@.len() >= 2,
        bytes@[0] == 1,
    ensures
        old(robot).id is None ==> final(robot).id == Some(bytes@[1]),
        old(robot).id is Some ==> final(robot).id == old(robot).id,
        same_course(*old(robot), *final(robot)),
        r == Ok::<DriveAction, DecodeError>(DriveAction::Keep),
{
    assert(crate::wire::varint_from(bytes@, 0) == Some((1nat, 1nat)));
    assert(ServerData::parse(bytes@) == Ok::<ServerData, DecodeError>(
        ServerData::SetID(bytes@[1]),
    ));
}

/// The speed that follows `past` when `current` is asked for: four fifths of the
/// way, each of the three steps of the sum rounded.
pub open spec fn follows(past: Real, current: int, next: Real) -> bool {
    past matches Real::Number(p) ==> {
        let way = rounded(current - p);
        let step = rounded_ratio(way * 13_421_773, 0x100_0000);
        let sum = rounded(p + step);
        next == Real::Number(sum) && (p <= current ==> p <= sum <= current) && (p >= current ==> p
            >= sum >= current)
    }
}

/// A message of the gamepad eases the left motor towards the first coordinate of
/// the stick, and the right motor towards the second; the signals are those for
/// the new speeds. The number stays.
pub proof fn law_motors_follow_the_stick(
    robot: &mut Robot,
    bytes: &[u8],
    r: Result<DriveAction, DecodeError>,
    left: i8,
    right: i8,
)
    requires
        old(robot).wf(),
        call_ensures(Robot::drive, (robot, DriveEvent::Datagram(bytes)), r),
        bytes@.len() >= 4,
        bytes@[0] == 0,
        stands_for(bytes@[1], left),
        stands_for(bytes@[2], right),
    ensures
        r == Ok::<DriveAction, DecodeError>(DriveAction::Drive),
        final(robot).id == old(robot).id,
        follows(old(robot).left_velocity@, left * one(), final(robot).left_velocity@),
        follows(old(robot).right_velocity@, right * one(), final(robot).right_velocity@),
        drives(final(robot).motor_left, final(robot).left_velocity@),
        drives(final(robot).motor_right, final(robot).right_velocity@),
{
    assert(crate::wire::varint_from(bytes@, 0) == Some((0nat, 1nat)));
    let c = ServerData::parse(bytes@)->Ok_0->Controller_0;
    assert(c.stick.0 == left);
    assert(c.stick.1 == right);
    lemma_follows(old(robot).left_velocity, left);
    lemma_follows(old(robot).right_velocity, right);
    lemma_drives(final(robot).left_velocity@);
    lemma_drives(final(robot).right_velocity@);
}

proof fn lemma_follows(past: Float, position: i8)
    requires
        past.wf(),
        crate::motor::in_reach(past@),
    ensures
        follows(
            past@,
            position * one(),
            crate::motor::eased(past@, Real::Number(position * one())),
        ),
{
    let d = one();
    lemma_scale_sum(1, 0, 149);
    assert(-128 * d <= position * d <= 128 * d) by (nonlinear_arith)
        requires
            -128 <= position <= 128,
            d > 0,
    ;
    crate::motor::lemma_position_is_number(position);
    if let Float::Number(s) = past {
        crate::motor::lemma_step_of_numbers(s, position * d);
    }
}

proof fn lemma_drives(speed: Real)
    ensures
        drives(Motor::signals(speed), speed),
{
    let d = one();
    lemma_scale_sum(1, 0, 149);
    if let Real::Number(x) = speed {
        let size = if x >= 0 {
            x
        } else {
            -x
        };
        assert(size * 1_677_721_600 >= 0);
        lemma_nearest_ratio(size * 1_677_721_600, 0x100_0000);
        let c = nearest_ratio(size * 1_677_721_600, 0x100_0000);
        let q = c / d;
        assert(0 <= q && q * d <= c < (q + 1) * d) by (nonlinear_arith)
            requires
                c >= 0,
                d > 0,
                q == c / d,
        ;
        assert(q > 65535 ==> 65535 * d <= c) by (nonlinear_arith)
            requires
                q * d <= c,
                d > 0,
        ;
    }
}

/// Bytes that are no message are refused, and change nothing.
pub proof fn law_bad_datagram_changes_nothing(
    robot: &mut Robot,
    bytes: &[u8],
    r: Result<DriveAction, DecodeError>,
)
    requires
        old(robot).wf(),
        call_ensures(Robot::drive, (robot, DriveEvent::Datagram(bytes)), r),
    ensures
        r is Err ==> *final(robot) == *old(robot),
        bytes@.len() == 0 ==> r == Err::<DriveAction, DecodeError>(DecodeError::BadTag),
        bytes@.len() > 0 && bytes@[0] < 128 ==> {
            &&& bytes@[0] == 0 && bytes@.len() < 4 || bytes@[0] == 1 && bytes@.len() < 2 <==> r
                == Err::<DriveAction, DecodeError>(DecodeError::Truncated)
            &&& bytes@[0] > 1 <==> r == Err::<DriveAction, DecodeError>(DecodeError::UnknownVariant)
            &&& r != Err::<DriveAction, DecodeError>(DecodeError::BadTag)
        },
{
    if bytes@.len() > 0 && bytes@[0] < 128 {
        assert(crate::wire::varint_from(bytes@, 0) == Some((bytes@[0] as nat, 1nat)));
    }
}

/// A motor gets the signals for its speed, whatever it did before.
pub proof fn law_signals_follow_the_speed(motor: &mut Motor, v: Float)
    requires
        v.wf(),
        call_ensures(Motor::set_velocity, (motor, v), ()),
    ensures
        drives(*final(motor), v@),
{
    lemma_drives(v@);
}

/// A faster speed never gets a shorter pulse, and the same speed the other way
/// gets the same one.
pub proof fn law_faster_is_no_shorter_pulse(a: Motor, b: Motor, x: int, y: int)
    requires
        drives(a, Real::Number(x)),
        drives(b, Real::Number(y)),
    ensures
        x == -y ==> a.timestamp == b.timestamp,
        0 <= x <= y ==> a.timestamp <= b.timestamp,
{
    let d = one();
    lemma_scale_sum(1, 0, 149);
    if 0 <= x <= y {
        crate::single::law_nearest_ratio_keeps_order(
            x * 1_677_721_600,
            y * 1_677_721_600,
            0x100_0000,
        );
    }
    assert(a.timestamp > b.timestamp ==> a.timestamp * d >= (b.timestamp + 1) * d)
        by (nonlinear_arith)
        requires
            d > 0,
    ;
    assert(b.timestamp > a.timestamp ==> b.timestamp * d >= (a.timestamp + 1) * d)
        by (nonlinear_arith)
        requires
            d > 0,
    ;
}

/// A step towards a speed goes four fifths of the way, each of the three steps
/// of the sum rounded, as long as these are numbers.
pub proof fn law_ease_goes_four_fifths(
    past: &mut Float,
    current: Float,
    r: Float,
    p: int,
    c: int,
)
    requires
        old(past).wf(),
        current.wf(),
        call_ensures(ease_motor, (past, current), r),
        old(past)@ == Real::Number(p),
        current@ == Real::Number(c),
    ensures
        r == *final(past),
        ({
            let way = rounded(c - p);
            let step = rounded_ratio(way * 13_421_773, 0x100_0000);
            let sum = rounded(p + step);
            -limit() < way < limit() ==> r@ == Real::Number(sum) && (p <= c ==> p <= sum <= c) && (p
                >= c ==> p >= sum >= c)
        }),
{
    if -limit() < rounded(c - p) < limit() {
        if let (Float::Number(a), Float::Number(b)) = (*old(past), current) {
            crate::motor::lemma_finite(b);
            crate::motor::lemma_step_of_numbers(a, c);
        }
    }
}

/// A heartbeat that can be sent is two bytes: the number of the tank, or 0 as
/// long as it has none, and the number of the last hit. If the socket takes
/// nothing, the radio is restarted.
pub proof fn law_heartbeat(robot: &Robot, may_send: bool, hit_id: u8, r: MonitorAction)
    requires
        call_ensures(Robot::monitor, (robot, may_send, hit_id), r),
    ensures
        r is Restart <==> !may_send,
        r matches MonitorAction::Send(data) ==> {
            &&& data@.len() == 2
            &&& robot.id is None ==> data@[0] == 0
            &&& robot.id is Some ==> data@[0] == robot.id->0
            &&& data@[1] == hit_id
        },
{
}

/// A new tank has no number, no speed and no pulse.
pub proof fn law_new_tank_rests(robot: Robot)
    requires
        call_ensures(Robot::new, (), robot),
    ensures
        robot.wf(),
        robot.id is None,
        robot.left_velocity@ == Real::Number(0) && robot.right_velocity@ == Real::Number(0),
        robot.motor_left.timestamp == 0 && !robot.motor_left.phase_high,
        robot.motor_right.timestamp == 0 && !robot.motor_right.phase_high,
{
}

/// A tank is well-formed as soon as its speeds are numbers up to 128, whatever
/// its number and its signals are.
pub proof fn law_what_a_tank_may_be(robot: Robot, left: int, right: int)
    requires
        robot.left_velocity.wf() && robot.left_velocity@ == Real::Number(left),
        robot.right_velocity.wf() && robot.right_velocity@ == Real::Number(right),
        -128 * one() <= left <= 128 * one(),
        -128 * one() <= right <= 128 * one(),
    ensures
        robot.wf(),
{
}

/// A tank does with a datagram what the message in it says, and refuses it with
/// the error of the message.
pub proof fn law_tank_obeys_the_message(
    robot: &mut Robot,
    bytes: &[u8],
    message: Result<ServerData, DecodeError>,
    r: Result<DriveAction, DecodeError>,
)
    requires
        old(robot).wf(),
        call_ensures(ServerData::from_bytes, (bytes,), message),
        call_ensures(Robot::drive, (robot, DriveEvent::Datagram(bytes)), r),
    ensures
        match message {
            Err(e) => r == Err::<DriveAction, DecodeError>(e) && *final(robot) == *old(robot),
            Ok(ServerData::SetID(id)) => {
                &&& r == Ok::<DriveAction, DecodeError>(DriveAction::Keep)
                &&& old(robot).id is None ==> final(robot).id == Some(id)
                &&& old(robot).id is Some ==> final(robot).id == old(robot).id
                &&& same_course(*old(robot), *final(robot))
            },
            Ok(ServerData::Controller(c)) => {
                &&& r == Ok::<DriveAction, DecodeError>(DriveAction::Drive)
                &&& final(robot).id == old(robot).id
                &&& follows(
                    old(robot).left_velocity@,
                    c.stick.0 * one(),
                    final(robot).left_velocity@,
                )
                &&& follows(
                    old(robot).right_velocity@,
                    c.stick.1 * one(),
                    final(robot).right_velocity@,
                )
                &&& drives(final(robot).motor_left, final(robot).left_velocity@)
                &&& drives(final(robot).motor_right, final(robot).right_velocity@)
            },
        },
{
    if let Ok(ServerData::Controller(c)) = message {
        lemma_follows(old(robot).left_velocity, c.stick.0);
        lemma_follows(old(robot).right_velocity, c.stick.1);
        lemma_drives(final(robot).left_velocity@);
        lemma_drives(final(robot).right_velocity@);
    }
}

/// A well-formed tank can deal with every event, and stays well-formed.
pub proof fn law_tank_deals_with_every_event(
    robot: &mut Robot,
    event: DriveEvent,
    r: Result<DriveAction, DecodeError>,
)
    requires
        old(robot).wf(),
    ensures
        call_requires(Robot::drive, (robot, event)),
        call_ensures(Robot::drive, (robot, event), r) ==> final(robot).wf(),
{
}

/// Easing where not all is a number: from an infinite speed, or with what is no
/// number, nothing comes out; towards an infinite speed, that speed. Between
/// numbers that are too far apart, an infinite speed in that direction.
pub proof fn law_ease_without_end(past: &mut Float, current: Float, r: Float)
    requires
        old(past).wf(),
        current.wf(),
        call_ensures(ease_motor, (past, current), r),
    ensures
        r == *final(past),
        old(past)@ is Nan || current@ is Nan || old(past)@ is Infinite ==> r@ is Nan,
        old(past)@ is Number && current@ is Infinite ==> r@ == current@,
        (old(past)@ matches Real::Number(p) && current@ matches Real::Number(c) && !(-limit()
            < rounded(c - p) < limit())) ==> r@ == Real::Infinite(
            current@->Number_0 < old(past)@->Number_0,
        ),
{
    if let (Real::Number(p), Real::Number(c)) = (old(past)@, current@) {
        lemma_scale_sum(1, 0, 277);
        if c - p >= 0 {
            lemma_nearest_ratio(c - p, 1);
        } else {
            lemma_nearest_ratio(p - c, 1);
        }
    }
}

} // verus!

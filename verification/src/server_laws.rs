//! What each operation of the server does, told by the server before and after
//! a call, and by the bytes that go in and out.

use vstd::prelude::*;

use crate::communication::{ControllerState, DecodeError, RobotRespond};
use crate::logic::{
    free_from, known_from, Action, Addr, Disposition, Packet, PadAxis, PadButton, PadEvent,
    RobotHandler, RobotServer, ToRobot, ToServer,
};
use crate::single::{
    bits_value, lemma_scale_constants, lemma_scale_sum, lemma_scale_twice, one, Real,
};

verus! {

/// Nothing differs but the places and the gamepads.
pub open spec fn same_settings(a: RobotServer, b: RobotServer) -> bool {
    &&& a.stop_flag == b.stop_flag
    &&& a.receive_port == b.receive_port
    &&& a.interval == b.interval
}

/// Nothing differs.
pub open spec fn same_server(a: RobotServer, b: RobotServer) -> bool {
    &&& same_settings(a, b)
    &&& a.controllers@ == b.controllers@
    &&& a.handlers@ == b.handlers@
}

/// Whether an action sends these bytes to an address.
pub open spec fn sends(action: Action, to: Addr, data: Seq<u8>) -> bool {
    action matches Action::SendTo(packet) && packet.to == to && packet.data@ == data
}

/// Whether actions tell a tank at an address its number, and then the game that
/// the tank of that number is there.
pub open spec fn greets(actions: Seq<Action>, to: Addr, id: u8) -> bool {
    &&& actions.len() == 2
    &&& sends(actions[0], to, seq![1u8, id])
    &&& actions[1] == Action::Report(id, ToServer::Connect)
}

/// Where a tank gets its messages: at the host that it sends from, on the port
/// that all tanks listen on.
pub open spec fn listens_at(addr: Addr, port: u16) -> Addr {
    Addr { ip: addr.ip, port, flow_info: 0, scope_id: 0 }
}

/// The moment up to which a tank may be silent that was heard of at `now`: ten
/// intervals later, in nanoseconds.
pub open spec fn heard_until(now: u128, interval: u64) -> int {
    now + interval * 10_000_000
}

/// A server is well-formed as soon as each tank has the number of its place,
/// gets its messages where it listens, and may be silent for ten intervals,
/// whatever the gamepads, the stop flag and the hits are.
pub proof fn law_what_a_server_may_hold(server: RobotServer)
    requires
        server.interval * 10 <= u64::MAX,
        forall|i: int|
            0 <= i < 2 ==> ((#[trigger] server.handlers@[i]) matches Some(h) ==> {
                &&& h.robot_id == i + 1
                &&& h.send_addr == listens_at(h.recv_addr, server.receive_port)
                &&& h.heartbeat_timeout == server.interval * 10_000_000
            }),
    ensures
        server@.wf(),
{
    assert(server@.handlers.len() == 2);
    assert forall|i: int| 0 <= i < 2 implies server@.place_wf(
        i,
        #[trigger] server@.handlers[i],
    ) by {
        assert(server.handlers@[i] == server@.handlers[i]);
    }
}

/// A message of a tank in its place is reported to the game as a hit of its
/// number exactly when the number of the last hit is another one than before,
/// whatever the gamepads, the stop flag and the other place hold; nothing else
/// is done about it. The tank is known to be alive from then on, and nothing
/// else changes.
pub proof fn law_hit_is_reported_when_its_number_changes(
    server: &mut RobotServer,
    addr: Addr,
    buf: &[u8],
    now: u128,
    r: Result<(Disposition, Vec<Action>), DecodeError>,
    id: u8,
    h: RobotHandler,
)
    requires
        old(server)@.wf(),
        heard_until(now, old(server).interval) <= u128::MAX,
        call_ensures(RobotServer::recv_from, (server, addr, buf, now), r),
        buf@.len() >= 2,
        buf@[0] == id,
        1 <= id <= 2,
        old(server).handlers@[id - 1] == Some(h),
    ensures
        r is Ok,
        buf@[1] != h.hit_id ==> {
            &&& r->Ok_0.0 == Disposition::Hit(id)
            &&& r->Ok_0.1@.len() == 1
            &&& r->Ok_0.1@[0] == Action::Report(id, ToServer::Hit)
        },
        buf@[1] == h.hit_id ==> {
            &&& r->Ok_0.0 == Disposition::Heartbeat(id)
            &&& r->Ok_0.1@.len() == 0
        },
        final(server).handlers@[id - 1] matches Some(after) && {
            &&& after.hit_id == buf@[1]
            &&& after.heartbeat_deadline == heard_until(now, old(server).interval)
            &&& after.heartbeat_timeout == h.heartbeat_timeout
            &&& after.robot_id == h.robot_id
            &&& after.recv_addr == h.recv_addr
            &&& after.send_addr == h.send_addr
        },
        final(server).handlers@[2 - id] == old(server).handlers@[2 - id],
        final(server).controllers@ == old(server).controllers@,
        same_settings(*old(server), *final(server)),
{
    let before = old(server)@;
    let message = RobotRespond { robot_id: id, hit_id: buf@[1] };
    assert(RobotRespond::parse(buf@) == Ok::<RobotRespond, DecodeError>(message));
    assert(before.place_wf(id - 1, before.handlers[id - 1]));
    lemma_views(r->Ok_0.1@, before.message_actions(addr, message, now));
    assert(final(server)@.handlers[id - 1] == final(server).handlers@[id - 1]);
}

/// The actions of a list and their views stand at the same positions.
proof fn lemma_views(actions: Seq<Action>, views: Seq<crate::logic::ActionView>)
    requires
        crate::logic::action_views(actions) == views,
    ensures
        actions.len() == views.len(),
        forall|i: int| 0 <= i < actions.len() ==> (#[trigger] actions[i])@ == views[i],
{
}

/// Whether a message takes place `id - 1`: the tank has that number and its
/// place is free, or it has no number, no tank is known at its address, and the
/// place is the first that is free.
pub open spec fn takes_place(server: RobotServer, addr: Addr, number: u8, id: u8) -> bool {
    &&& 1 <= id <= 2
    &&& server.handlers@[id - 1] is None
    &&& number == id || {
        &&& number == 0
        &&& id == 2 ==> server.handlers@[0] is Some
        &&& forall|i: int|
            0 <= i < 2 ==> ((#[trigger] server.handlers@[i]) matches Some(h) ==> h.recv_addr != addr)
    }
}

/// A tank that takes a place is told its number, where it listens, and the game
/// is told that it is there. It starts without a hit, and its gamepad without a
/// shot; the other tank, the other gamepad and the stick stay as they are.
pub proof fn law_tank_takes_a_free_place(
    server: &mut RobotServer,
    addr: Addr,
    buf: &[u8],
    now: u128,
    r: Result<(Disposition, Vec<Action>), DecodeError>,
    id: u8,
)
    requires
        old(server)@.wf(),
        heard_until(now, old(server).interval) <= u128::MAX,
        call_ensures(RobotServer::recv_from, (server, addr, buf, now), r),
        buf@.len() >= 2,
        takes_place(*old(server), addr, buf@[0], id),
    ensures
        r is Ok,
        r->Ok_0.0 == Disposition::Connected(id),
        greets(r->Ok_0.1@, listens_at(addr, old(server).receive_port), id),
        final(server).handlers@[id - 1] matches Some(h) && {
            &&& h.robot_id == id
            &&& h.hit_id == 0
            &&& h.recv_addr == addr
            &&& h.send_addr == listens_at(addr, old(server).receive_port)
            &&& h.heartbeat_timeout == old(server).interval * 10_000_000
            &&& h.heartbeat_deadline == heard_until(now, old(server).interval)
        },
        final(server).controllers@[id - 1].shot_id == 0,
        final(server).controllers@[id - 1].stick == old(server).controllers@[id - 1].stick,
        final(server).handlers@[2 - id] == old(server).handlers@[2 - id],
        final(server).controllers@[2 - id] == old(server).controllers@[2 - id],
        same_settings(*old(server), *final(server)),
{
    let before = old(server)@;
    let message = RobotRespond { robot_id: buf@[0], hit_id: buf@[1] };
    assert(RobotRespond::parse(buf@) == Ok::<RobotRespond, DecodeError>(message));
    reveal_with_fuel(known_from, 3);
    reveal_with_fuel(free_from, 3);
    assert(old(server).handlers@[0] == before.handlers[0]);
    assert(old(server).handlers@[1] == before.handlers[1]);
    assert(before.disposition(addr, message) == Disposition::Connected(id));
    lemma_views(r->Ok_0.1@, before.message_actions(addr, message, now));
    assert(final(server)@.handlers[id - 1] == final(server).handlers@[id - 1]);
    assert(final(server)@.controllers[id - 1] == final(server).controllers@[id - 1]);
    assert(final(server)@.controllers[2 - id] == final(server).controllers@[2 - id]);
}

/// A tank without a number whose address is known is told its number again, the
/// first one if there are two, and the game that it is there; nothing changes.
pub proof fn law_known_tank_is_told_again(
    server: &mut RobotServer,
    addr: Addr,
    buf: &[u8],
    now: u128,
    r: Result<(Disposition, Vec<Action>), DecodeError>,
    id: u8,
    h: RobotHandler,
)
    requires
        old(server)@.wf(),
        heard_until(now, old(server).interval) <= u128::MAX,
        call_ensures(RobotServer::recv_from, (server, addr, buf, now), r),
        buf@.len() >= 2,
        buf@[0] == 0,
        1 <= id <= 2,
        old(server).handlers@[id - 1] == Some(h),
        h.recv_addr == addr,
        id == 2 ==> (old(server).handlers@[0] matches Some(first) ==> first.recv_addr != addr),
    ensures
        r is Ok,
        r->Ok_0.0 == Disposition::Reconnected(id),
        greets(r->Ok_0.1@, listens_at(addr, old(server).receive_port), id),
        same_server(*old(server), *final(server)),
{
    let before = old(server)@;
    let message = RobotRespond { robot_id: 0, hit_id: buf@[1] };
    assert(RobotRespond::parse(buf@) == Ok::<RobotRespond, DecodeError>(message));
    reveal_with_fuel(known_from, 3);
    assert(old(server).handlers@[0] == before.handlers[0]);
    assert(before.place_wf(id - 1, before.handlers[id - 1]));
    assert(before.disposition(addr, message) == Disposition::Reconnected(id));
    lemma_views(r->Ok_0.1@, before.message_actions(addr, message, now));
}

/// A tank that finds no place, or has a number that no tank can have, gets no
/// answer, and nothing changes.
pub proof fn law_tank_without_a_place_is_ignored(
    server: &mut RobotServer,
    addr: Addr,
    buf: &[u8],
    now: u128,
    r: Result<(Disposition, Vec<Action>), DecodeError>,
)
    requires
        old(server)@.wf(),
        heard_until(now, old(server).interval) <= u128::MAX,
        call_ensures(RobotServer::recv_from, (server, addr, buf, now), r),
        buf@.len() >= 2,
        buf@[0] > 2 || {
            &&& buf@[0] == 0
            &&& forall|i: int|
                0 <= i < 2 ==> ((#[trigger] old(server).handlers@[i]) matches Some(h) && h.recv_addr
                    != addr)
        },
    ensures
        r is Ok,
        r->Ok_0.0 == (if buf@[0] == 0 {
            Disposition::NoRoom
        } else {
            Disposition::Unknown
        }),
        r->Ok_0.1@.len() == 0,
        same_server(*old(server), *final(server)),
{
    let before = old(server)@;
    let message = RobotRespond { robot_id: buf@[0], hit_id: buf@[1] };
    assert(RobotRespond::parse(buf@) == Ok::<RobotRespond, DecodeError>(message));
    reveal_with_fuel(known_from, 3);
    reveal_with_fuel(free_from, 3);
    assert(old(server).handlers@[0] == before.handlers[0]);
    assert(old(server).handlers@[1] == before.handlers[1]);
    lemma_views(r->Ok_0.1@, before.message_actions(addr, message, now));
}

/// What is too short for a message is refused, and nothing changes; anything
/// longer is a message, and only its first two bytes count.
pub proof fn law_short_datagram_is_refused(
    server: &mut RobotServer,
    addr: Addr,
    buf: &[u8],
    now: u128,
    r: Result<(Disposition, Vec<Action>), DecodeError>,
)
    requires
        old(server)@.wf(),
        heard_until(now, old(server).interval) <= u128::MAX,
        call_ensures(RobotServer::recv_from, (server, addr, buf, now), r),
    ensures
        r is Err <==> buf@.len() < 2,
        r is Err ==> r->Err_0 == DecodeError::Truncated && same_server(*old(server), *final(server)),
{
}

/// The byte that stands for a number from -128 to 127.
pub open spec fn stands_for(byte: u8, n: i8) -> bool {
    byte == n || byte == n + 256
}

/// What a tick says to the tank in place `i`: the stick of its gamepad, or a
/// centred one while the game is stopped, and the number of the last shot.
pub open spec fn told_to(server: RobotServer, i: int, data: Seq<u8>) -> bool {
    let pad = server.controllers@[i];
    &&& data.len() == 4
    &&& data[0] == 0
    &&& server.stop_flag ==> data[1] == 0 && data[2] == 0
    &&& !server.stop_flag ==> stands_for(data[1], pad.stick.0) && stands_for(data[2], pad.stick.1)
    &&& data[3] == pad.shot_id
}

/// Where in the list of a tick's actions the one about place `i` stands.
pub open spec fn action_of(server: RobotServer, i: int) -> int {
    if i == 1 && server.handlers@[0] is Some {
        1
    } else {
        0
    }
}

/// A tick does one thing about each tank. One that has been silent for too long
/// loses its place, and the game is told that the tank of this number is gone.
/// Any other keeps its place, and is told what its gamepad says. Nothing else
/// changes.
pub proof fn law_tick_deals_with_each_tank(
    server: &mut RobotServer,
    now: u128,
    actions: Vec<Action>,
    i: int,
)
    requires
        old(server)@.wf(),
        call_ensures(RobotServer::tick, (server, now), actions),
        0 <= i < 2,
    ensures
        actions@.len() == (if old(server).handlers@[0] is Some {
            1int
        } else {
            0
        }) + (if old(server).handlers@[1] is Some {
            1int
        } else {
            0
        }),
        match old(server).handlers@[i] {
            None => final(server).handlers@[i] is None,
            Some(h) => if now >= h.heartbeat_deadline {
                &&& final(server).handlers@[i] is None
                &&& actions@[action_of(*old(server), i)] == Action::Report(
                    (i + 1) as u8,
                    ToServer::Disconnect,
                )
            } else {
                &&& final(server).handlers@[i] == Some(h)
                &&& actions@[action_of(*old(server), i)] matches Action::SendTo(packet)
                &&& packet.to == listens_at(h.recv_addr, old(server).receive_port)
                &&& told_to(*old(server), i, packet.data@)
            },
        },
        final(server).controllers@ == old(server).controllers@,
        same_settings(*old(server), *final(server)),
{
    let before = old(server)@;
    crate::laws::law_tick_deals_with_every_place(before, now);
    lemma_views(actions@, before.tick_actions(now));
    assert(before.place_wf(0, before.handlers[0]));
    assert(before.place_wf(1, before.handlers[1]));
    assert(old(server).handlers@[0] == before.handlers[0]);
    assert(old(server).handlers@[1] == before.handlers[1]);
    assert(final(server)@.handlers[i] == final(server).handlers@[i]);
    let at = action_of(*old(server), i);
    if before.handlers[i] is Some {
        assert(before.tick_actions(now)[at] == before.place_actions(i, now)[0]);
        assert(actions@[at]@ == before.tick_actions(now)[at]);
    }
}

/// Every tank that a tick reports as gone had a place before the tick and has
/// none after it; a tick reports nothing else.
pub proof fn law_tick_reports_lost_tanks_only(
    server: &mut RobotServer,
    now: u128,
    actions: Vec<Action>,
    k: int,
    id: u8,
    message: ToServer,
)
    requires
        old(server)@.wf(),
        call_ensures(RobotServer::tick, (server, now), actions),
        0 <= k < actions@.len(),
        actions@[k] == Action::Report(id, message),
    ensures
        message == ToServer::Disconnect,
        1 <= id <= 2,
        old(server).handlers@[id - 1] is Some,
        final(server).handlers@[id - 1] is None,
{
    law_tick_deals_with_each_tank(server, now, actions, 0);
    law_tick_deals_with_each_tank(server, now, actions, 1);
}

/// An allowed shot raises the number of the last shot of its gamepad by one, and
/// 255 to 0, and does nothing else. Stopping and starting does nothing but that,
/// whichever tank it is told to.
pub proof fn law_commands(server: &mut RobotServer, robot: u8, command: ToRobot, i: int)
    requires
        old(server)@.wf(),
        command == ToRobot::AllowShot ==> 1 <= robot <= 2,
        call_ensures(RobotServer::recv_command, (server, robot, command), ()),
        0 <= i < 2,
    ensures
        final(server).handlers@ == old(server).handlers@,
        final(server).receive_port == old(server).receive_port,
        final(server).interval == old(server).interval,
        final(server).stop_flag == (command == ToRobot::Stop || command == ToRobot::AllowShot
            && old(server).stop_flag),
        final(server).controllers@[i].stick == old(server).controllers@[i].stick,
        final(server).controllers@[i].shot_id == (old(server).controllers@[i].shot_id + (if command
            == ToRobot::AllowShot && robot == i + 1 {
            1int
        } else {
            0
        })) % 256,
{
    assert(old(server)@.controllers[i] == old(server).controllers@[i]);
    assert(final(server)@.controllers[i] == final(server).controllers@[i]);
}

/// Whether `n` is the part of a position before the point, with its sign, as far
/// as it lies between -128 and 127.
pub open spec fn whole_part(position: Real, n: i8) -> bool {
    match position {
        Real::Number(x) => if x >= 0 {
            &&& 0 <= n
            &&& n * one() <= x
            &&& n == 127 || x < (n + 1) * one()
        } else {
            &&& n <= 0
            &&& x <= n * one()
            &&& n == -128 || (n - 1) * one() < x
        },
        Real::Infinite(negative) => n == (if negative {
            -128i8
        } else {
            127i8
        }),
        Real::Nan => n == 0,
    }
}

/// The left stick of a gamepad moves the stick of its tank: sideways the first
/// coordinate, up and down the second, to the whole part of its position, with
/// its sign. Nothing else changes, and the game is told nothing.
pub proof fn law_stick_follows_the_gamepad(
    server: &mut RobotServer,
    pad: usize,
    axis: PadAxis,
    bits: u32,
    r: Option<(u8, ToServer)>,
    i: int,
)
    requires
        old(server)@.wf(),
        call_ensures(
            RobotServer::controller_handler,
            (server, pad, PadEvent::AxisChanged(axis, bits)),
            r,
        ),
        0 <= i < 2,
    ensures
        r is None,
        final(server).handlers@ == old(server).handlers@,
        same_settings(*old(server), *final(server)),
        final(server).controllers@[i].shot_id == old(server).controllers@[i].shot_id,
        i == pad && axis == PadAxis::LeftStickX ==> whole_part(
            bits_value(bits),
            final(server).controllers@[i].stick.0,
        ),
        i == pad && axis == PadAxis::LeftStickY ==> whole_part(
            bits_value(bits),
            final(server).controllers@[i].stick.1,
        ),
        i != pad || axis != PadAxis::LeftStickX ==> final(server).controllers@[i].stick.0 == old(
            server,
        ).controllers@[i].stick.0,
        i != pad || axis != PadAxis::LeftStickY ==> final(server).controllers@[i].stick.1 == old(
            server,
        ).controllers@[i].stick.1,
{
    assert(old(server)@.controllers[i] == old(server).controllers@[i]);
    assert(final(server)@.controllers[i] == final(server).controllers@[i]);
    lemma_whole_part(bits_value(bits));
}

pub proof fn lemma_whole_part(position: Real)
    ensures
        -128 <= position.whole() <= 127,
        whole_part(position, position.whole() as i8),
{
    let d = one();
    lemma_scale_sum(1, 0, 149);
    if let Real::Number(x) = position {
        let size = if x >= 0 {
            x
        } else {
            -x
        };
        let q = size / d;
        assert(q * d <= size < (q + 1) * d && q >= 0) by (nonlinear_arith)
            requires
                size >= 0,
                d > 0,
                q == size / d,
        ;
        assert(q > 127 ==> 127 * d <= size) by (nonlinear_arith)
            requires
                q * d <= size,
                d > 0,
        ;
        assert(q > 128 ==> 128 * d <= size) by (nonlinear_arith)
            requires
                q * d <= size,
                d > 0,
        ;
        assert((-q) * d == -(q * d) && (-q - 1) * d == -((q + 1) * d)) by (nonlinear_arith);
    }
}

/// A position further to one side never gives a smaller whole part; opposite
/// positions give opposite ones, up to 127.
pub proof fn law_whole_parts_keep_order(a: Real, b: Real, m: i8, n: i8)
    requires
        whole_part(a, m),
        whole_part(b, n),
        a is Number,
        b is Number,
    ensures
        a->Number_0 <= b->Number_0 ==> m <= n,
        a->Number_0 == -b->Number_0 && -127 <= m && -127 <= n ==> m == -n,
{
    let d = one();
    lemma_scale_sum(1, 0, 149);
    let x = a->Number_0;
    let y = b->Number_0;
    if m > n {
        assert((n + 1) * d <= m * d && n * d <= (m - 1) * d) by (nonlinear_arith)
            requires
                m >= n + 1,
                d > 0,
        ;
        if x <= y && x < 0 && y >= 0 {
            assert(m <= 0 && n >= 0);
        }
    }
    if x == -y && -127 <= m && -127 <= n {
        if m > -n {
            assert(m * d >= (1 - n) * d && (m - 1) * d >= (-n) * d) by (nonlinear_arith)
                requires
                    m >= 1 - n,
                    d > 0,
            ;
        }
        if m < -n {
            assert((m + 1) * d <= (-n) * d && m * d <= (-n - 1) * d) by (nonlinear_arith)
                requires
                    m + 1 <= -n,
                    d > 0,
            ;
        }
        assert((m > 0 ==> m * d >= d) && (n > 0 ==> n * d >= d)) by (nonlinear_arith)
            requires
                d > 0,
        ;
        assert((1 - n) * d == -((n - 1) * d) && (-n) * d == -(n * d) && (-n - 1) * d == -((n + 1)
            * d)) by (nonlinear_arith);
    }
}

/// The east button of one of the two gamepads asks the game for a shot of its
/// player. No other button and no other event does, and none of them moves a
/// stick.
pub proof fn law_east_button_asks_for_a_shot(
    server: &mut RobotServer,
    pad: usize,
    event: PadEvent,
    r: Option<(u8, ToServer)>,
)
    requires
        old(server)@.wf(),
        call_ensures(RobotServer::controller_handler, (server, pad, event), r),
    ensures
        r is Some <==> pad < 2 && event == PadEvent::ButtonPressed(PadButton::East),
        r matches Some(report) ==> report.0 == pad + 1 && report.1 == ToServer::AskShot,
        pad >= 2 || event !is AxisChanged ==> same_server(*old(server), *final(server)),
{
    assert(final(server)@.controllers == old(server)@.controllers || pad < 2);
    if pad < 2 && event !is AxisChanged {
        assert(final(server)@.controllers =~= old(server)@.controllers);
    }
}

/// A new server has two free places and two gamepads at rest, and runs.
pub proof fn law_new_server(receive_port: u16, interval: u64, server: RobotServer, i: int)
    requires
        interval * 10 <= u64::MAX,
        call_ensures(RobotServer::new, (receive_port, interval), server),
        0 <= i < 2,
    ensures
        server@.wf(),
        server.handlers@[i] is None,
        server.controllers@[i] == (ControllerState { stick: (0, 0), shot_id: 0 }),
        !server.stop_flag,
        server.receive_port == receive_port,
        server.interval == interval,
{
    assert(server@.handlers[i] == server.handlers@[i]);
    assert(server@.controllers[i] == server.controllers@[i]);
}

/// What is noted of a tank that connects.
pub proof fn law_new_tank(
    id: u8,
    addr: Addr,
    receive_port: u16,
    interval: u64,
    now: u128,
    h: RobotHandler,
)
    requires
        interval * 10 <= u64::MAX,
        heard_until(now, interval) <= u128::MAX,
        call_ensures(RobotHandler::new, (id, addr, receive_port, interval, now), h),
    ensures
        h.robot_id == id,
        h.hit_id == 0,
        h.recv_addr == addr,
        h.send_addr == listens_at(addr, receive_port),
        h.heartbeat_timeout == interval * 10_000_000,
        h.heartbeat_deadline == heard_until(now, interval),
{
}

/// A sign of life moves the end of the silence that is allowed, and takes over
/// the number of the last hit; a new one is a hit.
pub proof fn law_sign_of_life(h: &mut RobotHandler, data: &RobotRespond, now: u128, hit: bool)
    requires
        now + old(h).heartbeat_timeout <= u128::MAX,
        call_ensures(RobotHandler::recv_heartbeat, (h, data, now), hit),
    ensures
        hit <==> data.hit_id != old(h).hit_id,
        final(h).hit_id == data.hit_id,
        final(h).heartbeat_deadline == now + old(h).heartbeat_timeout,
        final(h).heartbeat_timeout == old(h).heartbeat_timeout,
        final(h).robot_id == old(h).robot_id,
        final(h).recv_addr == old(h).recv_addr,
        final(h).send_addr == old(h).send_addr,
{
}

/// A tank is told its own number, where it listens.
pub proof fn law_tank_is_told_its_number(h: &RobotHandler, packet: Packet)
    requires
        call_ensures(RobotHandler::notify_id, (h,), packet),
    ensures
        packet.to == h.send_addr,
        packet.data@ == seq![1u8, h.robot_id],
{
}

/// A tank is told what its gamepad says, where it listens; while the game is
/// stopped, with a centred stick.
pub proof fn law_tank_is_told_its_gamepad(
    h: &RobotHandler,
    controller: ControllerState,
    stop_flag: bool,
    packet: Packet,
)
    requires
        call_ensures(RobotHandler::send_controller_data, (h, controller, stop_flag), packet),
    ensures
        packet.to == h.send_addr,
        packet.data@.len() == 4,
        packet.data@[0] == 0,
        stop_flag ==> packet.data@[1] == 0 && packet.data@[2] == 0,
        !stop_flag ==> stands_for(packet.data@[1], controller.stick.0) && stands_for(
            packet.data@[2],
            controller.stick.1,
        ),
        packet.data@[3] == controller.shot_id,
{
}

/// Both axes of the left stick work alike: the same position gives the same
/// coordinate, a position further to one side never a smaller one, and full
/// deflection gives 1 or -1.
pub proof fn law_both_axes_work_alike(
    first: &mut RobotServer,
    second: &mut RobotServer,
    pad: usize,
    x: u32,
    y: u32,
    r: Option<(u8, ToServer)>,
    t: Option<(u8, ToServer)>,
)
    requires
        old(first)@.wf(),
        old(second)@.wf(),
        pad < 2,
        call_ensures(
            RobotServer::controller_handler,
            (first, pad, PadEvent::AxisChanged(PadAxis::LeftStickX, x)),
            r,
        ),
        call_ensures(
            RobotServer::controller_handler,
            (second, pad, PadEvent::AxisChanged(PadAxis::LeftStickY, y)),
            t,
        ),
    ensures
        ({
            let across = final(first).controllers@[pad as int].stick.0;
            let up = final(second).controllers@[pad as int].stick.1;
            &&& x == y ==> across == up
            &&& bits_value(x) is Number && bits_value(y) is Number ==> {
                &&& bits_value(x)->Number_0 <= bits_value(y)->Number_0 ==> across <= up
                &&& bits_value(x)->Number_0 >= bits_value(y)->Number_0 ==> across >= up
            }
            &&& x == 0x3f80_0000 ==> across == 1
            &&& y == 0x3f80_0000 ==> up == 1
            &&& x == 0xbf80_0000 ==> across == -1
            &&& y == 0xbf80_0000 ==> up == -1
        }),
{
    law_stick_follows_the_gamepad(first, pad, PadAxis::LeftStickX, x, r, pad as int);
    law_stick_follows_the_gamepad(second, pad, PadAxis::LeftStickY, y, t, pad as int);
    let across = final(first).controllers@[pad as int].stick.0;
    let up = final(second).controllers@[pad as int].stick.1;
    if bits_value(x) is Number && bits_value(y) is Number {
        law_whole_parts_keep_order(bits_value(x), bits_value(y), across, up);
        law_whole_parts_keep_order(bits_value(y), bits_value(x), up, across);
    }
    lemma_full_deflection(across);
    lemma_full_deflection(up);
}

proof fn lemma_full_deflection(n: i8)
    ensures
        whole_part(bits_value(0x3f80_0000), n) ==> n == 1,
        whole_part(bits_value(0xbf80_0000), n) ==> n == -1,
{
    let d = one();
    lemma_scale_constants();
    lemma_scale_twice(1, 23, 126);
    lemma_scale_sum(1, 0, 149);
    assert(bits_value(0x3f80_0000) == Real::Number(d));
    assert(bits_value(0xbf80_0000) == Real::Number(-d));
    assert((n > 1 ==> n * d >= 2 * d) && (n < 1 ==> (n + 1) * d <= d) && (n < -1 ==> n * d <= -2
        * d) && (n > -1 ==> (n - 1) * d >= -d)) by (nonlinear_arith)
        requires
            d > 0,
    ;
}

/// A well-formed server can deal with every event, as long as its clock can
/// count ten intervals further, and stays well-formed.
pub proof fn law_server_deals_with_every_event(
    server: &mut RobotServer,
    addr: Addr,
    buf: &[u8],
    now: u128,
    robot: u8,
    command: ToRobot,
    pad: usize,
    event: PadEvent,
)
    requires
        old(server)@.wf(),
    ensures
        heard_until(now, old(server).interval) <= u128::MAX ==> call_requires(
            RobotServer::recv_from,
            (server, addr, buf, now),
        ),
        call_requires(RobotServer::tick, (server, now)),
        command != ToRobot::AllowShot || 1 <= robot <= 2 ==> call_requires(
            RobotServer::recv_command,
            (server, robot, command),
        ),
        call_requires(RobotServer::controller_handler, (server, pad, event)),
{
}

/// No event makes a server ill-formed.
pub proof fn law_server_stays_well_formed(
    server: &mut RobotServer,
    addr: Addr,
    buf: &[u8],
    now: u128,
    r: Result<(Disposition, Vec<Action>), DecodeError>,
    actions: Vec<Action>,
    robot: u8,
    command: ToRobot,
    pad: usize,
    event: PadEvent,
    report: Option<(u8, ToServer)>,
)
    requires
        old(server)@.wf(),
        heard_until(now, old(server).interval) <= u128::MAX,
        command == ToRobot::AllowShot ==> 1 <= robot <= 2,
        call_ensures(RobotServer::recv_from, (server, addr, buf, now), r) || call_ensures(
            RobotServer::tick,
            (server, now),
            actions,
        ) || call_ensures(RobotServer::recv_command, (server, robot, command), ())
            || call_ensures(RobotServer::controller_handler, (server, pad, event), report),
    ensures
        final(server)@.wf(),
{
}

} // verus!

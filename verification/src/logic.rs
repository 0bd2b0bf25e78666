//! The server's side of the protocol: which tanks are connected, what the
//! gamepads say, and what goes out to the tanks and to the game.
//!
//! Nothing here waits or talks to the network. Each function takes what has
//! come in, and returns what is to be done about it.

use vstd::prelude::*;

use crate::communication::{
    detect_id_change, next_id, ControllerState, DecodeError, RobotRespond, ServerData,
};
use crate::single::{bits_value, Float};

verus! {

/// What the game learns about the tank or the player of a number.
#[derive(Debug, Clone, Copy, PartialEq, Eq, Structural)]
pub enum ToServer {
    Connect,
    Disconnect,
    Hit,
    AskShot,
}

/// What the game has to say to the tanks.
#[derive(Debug, Clone, Copy, PartialEq, Eq, Structural)]
pub enum ToRobot {
    AllowShot,
    Stop,
    Start,
}

/// An IP address, as the number that its bytes make.
#[derive(Debug, Clone, Copy, PartialEq, Eq, Structural)]
pub enum Ip {
    V4(u32),
    V6(u128),
}

/// The address of a socket. The last two fields are 0 for an IPv4 address.
#[derive(Debug, Clone, Copy, PartialEq, Eq, Structural)]
pub struct Addr {
    pub ip: Ip,
    pub port: u16,
    pub flow_info: u32,
    pub scope_id: u32,
}

/// A datagram to send.
#[derive(Debug, PartialEq, Eq)]
pub struct Packet {
    pub to: Addr,
    pub data: Vec<u8>,
}

/// What is to be done about an event.
#[derive(Debug, PartialEq, Eq)]
pub enum Action {
    /// Send a datagram to a tank.
    SendTo(Packet),
    /// Tell the game about the tank of a number.
    Report(u8, ToServer),
}

/// An action with the bytes that it sends as a sequence.
pub enum ActionView {
    SendTo(Addr, Seq<u8>),
    Report(u8, ToServer),
}

impl View for Action {
    type V = ActionView;

    open spec fn view(&self) -> ActionView {
        match self {
            Action::SendTo(packet) => ActionView::SendTo(packet.to, packet.data@),
            Action::Report(id, message) => ActionView::Report(*id, *message),
        }
    }
}

/// A list of actions, each by its view.
pub open spec fn action_views(actions: Seq<Action>) -> Seq<ActionView> {
    Seq::new(actions.len(), |i: int| actions[i]@)
}

/// A button of a gamepad, as far as it matters.
#[derive(Debug, Clone, Copy, PartialEq, Eq, Structural)]
pub enum PadButton {
    East,
    Other,
}

/// An axis of a gamepad, as far as it matters.
#[derive(Debug, Clone, Copy, PartialEq, Eq, Structural)]
pub enum PadAxis {
    LeftStickX,
    LeftStickY,
    Other,
}

/// What a gamepad reports. The position of an axis is given by the bits of a
/// single precision number.
#[derive(Debug, Clone, Copy, PartialEq, Eq, Structural)]
pub enum PadEvent {
    ButtonPressed(PadButton),
    AxisChanged(PadAxis, u32),
    Other,
}

/// How long a tank may be silent, in nanoseconds, when it is to send a message
/// every `interval` milliseconds: ten times as long.
pub open spec fn timeout_nanos(interval: u64) -> int {
    interval * 10 * 1_000_000
}

/// What the server knows about a connected tank. Times are nanoseconds on a
/// clock that never runs back.
#[derive(Debug, Clone, Copy, PartialEq, Eq, Structural)]
pub struct RobotHandler {
    pub robot_id: u8,
    pub hit_id: u8,
    pub recv_addr: Addr,
    pub send_addr: Addr,
    pub heartbeat_timeout: u128,
    pub heartbeat_deadline: u128,
}

impl RobotHandler {
    /// A tank that has just connected from `addr`: it gets messages at the same
    /// host, on the port that all tanks listen on.
    pub open spec fn fresh(id: u8, addr: Addr, receive_port: u16, interval: u64, now: u128) -> Self {
        RobotHandler {
            robot_id: id,
            hit_id: 0,
            recv_addr: addr,
            send_addr: Addr { ip: addr.ip, port: receive_port, flow_info: 0, scope_id: 0 },
            heartbeat_timeout: timeout_nanos(interval) as u128,
            heartbeat_deadline: (now + timeout_nanos(interval)) as u128,
        }
    }

    /// The tank after a message that came at `now`.
    pub open spec fn refreshed(self, data: RobotRespond, now: u128) -> Self {
        RobotHandler {
            hit_id: data.hit_id,
            heartbeat_deadline: (now + self.heartbeat_timeout) as u128,
            ..self
        }
    }

    /// The gamepad's state as it is sent: with a centred stick while the game
    /// is stopped.
    pub open spec fn sent_state(controller: ControllerState, stop_flag: bool) -> ControllerState {
        if stop_flag {
            ControllerState { stick: (0, 0), ..controller }
        } else {
            controller
        }
    }

    /// Takes note of a tank that connects.
    pub fn new(id: u8, addr: Addr, receive_port: u16, interval: u64, now: u128) -> (r: Self)
        requires
            interval * 10 <= u64::MAX,
            now + timeout_nanos(interval) <= u128::MAX,
        ensures
            r == Self::fresh(id, addr, receive_port, interval, now),
    {
        let heartbeat_timeout: u128 = (interval * 10) as u128 * 1_000_000;
        RobotHandler {
            robot_id: id,
            hit_id: 0,
            recv_addr: addr,
            send_addr: Addr { ip: addr.ip, port: receive_port, flow_info: 0, scope_id: 0 },
            heartbeat_timeout,
            heartbeat_deadline: now + heartbeat_timeout,
        }
    }

    /// Tells the tank its number.
    pub fn notify_id(&self) -> (r: Packet)
        ensures
            r.to == self.send_addr,
            r.data@ == ServerData::SetID(self.robot_id).image(),
    {
        Packet { to: self.send_addr, data: ServerData::SetID(self.robot_id).to_bytes() }
    }

    /// Takes note of a sign of life, and tells whether the tank was hit since
    /// the last one.
    pub fn recv_heartbeat(&mut self, data: &RobotRespond, now: u128) -> (hit: bool)
        requires
            now + old(self).heartbeat_timeout <= u128::MAX,
        ensures
            *final(self) == old(self).refreshed(*data, now),
            hit <==> old(self).hit_id != data.hit_id,
    {
        self.heartbeat_deadline = now + self.heartbeat_timeout;
        detect_id_change(&mut self.hit_id, data.hit_id)
    }

    /// Passes the state of its gamepad on to the tank.
    pub fn send_controller_data(&self, controller: ControllerState, stop_flag: bool) -> (r: Packet)
        ensures
            r.to == self.send_addr,
            r.data@ == ServerData::Controller(Self::sent_state(controller, stop_flag)).image(),
    {
        let mut controller = controller;
        if stop_flag {
            controller.stick = (0, 0);
        }
        Packet { to: self.send_addr, data: ServerData::Controller(controller).to_bytes() }
    }
}

/// What a message from a tank amounts to. The number is the tank's.
#[derive(Debug, Clone, Copy, PartialEq, Eq, Structural)]
pub enum Disposition {
    /// A tank that is known by its address asks for its number again.
    Reconnected(u8),
    /// A tank takes a free place.
    Connected(u8),
    /// A tank without a number finds no free place.
    NoRoom,
    /// A sign of life.
    Heartbeat(u8),
    /// A sign of life that reports a hit.
    Hit(u8),
    /// A number that no tank can have.
    Unknown,
}

/// The first place from `i` on that is held by the tank at `addr`.
pub open spec fn known_from(handlers: Seq<Option<RobotHandler>>, addr: Addr, i: nat) -> Option<nat>
    decreases handlers.len() - i,
{
    if i >= handlers.len() {
        None
    } else if handlers[i as int] is Some && handlers[i as int]->0.recv_addr == addr {
        Some(i)
    } else {
        known_from(handlers, addr, i + 1)
    }
}

/// The first free place from `i` on.
pub open spec fn free_from(handlers: Seq<Option<RobotHandler>>, i: nat) -> Option<nat>
    decreases handlers.len() - i,
{
    if i >= handlers.len() {
        None
    } else if handlers[i as int] is None {
        Some(i)
    } else {
        free_from(handlers, i + 1)
    }
}

/// The state of the server. The tank in place `i` has the number `i + 1` and is
/// driven with gamepad `i`.
#[verifier::ext_equal]
pub struct ServerState {
    pub controllers: Seq<ControllerState>,
    pub handlers: Seq<Option<RobotHandler>>,
    pub stop_flag: bool,
    pub receive_port: u16,
    pub interval: u64,
}

impl ServerState {
    pub open spec fn wf(self) -> bool {
        &&& self.controllers.len() == 2
        &&& self.handlers.len() == 2
        &&& self.interval * 10 <= u64::MAX
        &&& forall|i: int| 0 <= i < 2 ==> self.place_wf(i, #[trigger] self.handlers[i])
    }

    /// A tank has the number of its place, gets its messages on the common
    /// port, and may be silent for ten intervals.
    pub open spec fn place_wf(self, i: int, place: Option<RobotHandler>) -> bool {
        place matches Some(h) ==> {
            &&& h.robot_id == i + 1
            &&& h.send_addr == (Addr {
                ip: h.recv_addr.ip,
                port: self.receive_port,
                flow_info: 0,
                scope_id: 0,
            })
            &&& h.heartbeat_timeout == timeout_nanos(self.interval)
        }
    }

    /// What a message amounts to.
    pub open spec fn disposition(self, addr: Addr, message: RobotRespond) -> Disposition {
        if message.robot_id == 0 {
            match known_from(self.handlers, addr, 0) {
                Some(i) => Disposition::Reconnected((i + 1) as u8),
                None => match free_from(self.handlers, 0) {
                    Some(i) => Disposition::Connected((i + 1) as u8),
                    None => Disposition::NoRoom,
                },
            }
        } else if message.robot_id <= 2 {
            match self.handlers[message.robot_id - 1] {
                Some(h) => if h.hit_id != message.hit_id {
                    Disposition::Hit(message.robot_id)
                } else {
                    Disposition::Heartbeat(message.robot_id)
                },
                None => Disposition::Connected(message.robot_id),
            }
        } else {
            Disposition::Unknown
        }
    }

    /// The tank that connects as number `id`.
    pub open spec fn newcomer(self, id: u8, addr: Addr, now: u128) -> RobotHandler {
        RobotHandler::fresh(id, addr, self.receive_port, self.interval, now)
    }

    /// The state after a message. A tank that connects starts to count its
    /// shots anew.
    pub open spec fn after_message(self, addr: Addr, message: RobotRespond, now: u128) -> Self {
        match self.disposition(addr, message) {
            Disposition::Connected(id) => ServerState {
                handlers: self.handlers.update(id - 1, Some(self.newcomer(id, addr, now))),
                controllers: self.controllers.update(
                    id - 1,
                    ControllerState { shot_id: 0, ..self.controllers[id - 1] },
                ),
                ..self
            },
            Disposition::Heartbeat(id) | Disposition::Hit(id) => ServerState {
                handlers: self.handlers.update(
                    id - 1,
                    Some(self.handlers[id - 1]->0.refreshed(message, now)),
                ),
                ..self
            },
            _ => self,
        }
    }

    /// What is done about a message: a tank that connects, for the first time
    /// or again, is told its number, and the game hears of it; so it does of a
    /// hit.
    pub open spec fn message_actions(self, addr: Addr, message: RobotRespond, now: u128) -> Seq<
        ActionView,
    > {
        match self.disposition(addr, message) {
            Disposition::Reconnected(id) => greeting(self.handlers[id - 1]->0),
            Disposition::Connected(id) => greeting(self.newcomer(id, addr, now)),
            Disposition::Hit(id) => seq![ActionView::Report(id, ToServer::Hit)],
            _ => seq![],
        }
    }

    /// Whether the tank in a place has been silent for too long.
    pub open spec fn overdue(place: Option<RobotHandler>, now: u128) -> bool {
        place is Some && now >= place->0.heartbeat_deadline
    }

    /// The state after a tick: tanks that have been silent for too long lose
    /// their places.
    pub open spec fn after_tick(self, now: u128) -> Self {
        ServerState {
            handlers: Seq::new(
                self.handlers.len(),
                |i: int|
                    if Self::overdue(self.handlers[i], now) {
                        None
                    } else {
                        self.handlers[i]
                    },
            ),
            ..self
        }
    }

    /// What a tick does about place `i`: the game hears of a tank that was
    /// silent for too long, any other tank gets the state of its gamepad.
    pub open spec fn place_actions(self, i: int, now: u128) -> Seq<ActionView> {
        match self.handlers[i] {
            Some(h) => if now >= h.heartbeat_deadline {
                seq![ActionView::Report(h.robot_id, ToServer::Disconnect)]
            } else {
                seq![
                    ActionView::SendTo(
                        h.send_addr,
                        ServerData::Controller(
                            RobotHandler::sent_state(self.controllers[i], self.stop_flag),
                        ).image(),
                    ),
                ]
            },
            None => seq![],
        }
    }

    /// What a tick does about the first `n` places.
    pub open spec fn tick_actions_of(self, n: nat, now: u128) -> Seq<ActionView>
        decreases n,
    {
        if n == 0 {
            seq![]
        } else {
            self.tick_actions_of((n - 1) as nat, now) + self.place_actions(n - 1, now)
        }
    }

    /// What a tick does.
    pub open spec fn tick_actions(self, now: u128) -> Seq<ActionView> {
        self.tick_actions_of(self.handlers.len(), now)
    }

    /// The state after a command from the game.
    pub open spec fn after_command(self, robot: u8, command: ToRobot) -> Self {
        match command {
            ToRobot::AllowShot => ServerState {
                controllers: self.controllers.update(
                    robot - 1,
                    ControllerState {
                        shot_id: next_id(self.controllers[robot - 1].shot_id),
                        ..self.controllers[robot - 1]
                    },
                ),
                ..self
            },
            ToRobot::Stop => ServerState { stop_flag: true, ..self },
            ToRobot::Start => ServerState { stop_flag: false, ..self },
        }
    }

    /// The state after an event of gamepad `pad`: its left stick moves the
    /// stick of the tank, to the whole part of its position. Only the first two
    /// gamepads count.
    pub open spec fn after_pad_event(self, pad: int, event: PadEvent) -> Self {
        if 0 <= pad < 2 {
            let before = self.controllers[pad];
            let after = match event {
                PadEvent::AxisChanged(PadAxis::LeftStickX, x) => ControllerState {
                    stick: (bits_value(x).whole() as i8, before.stick.1),
                    ..before
                },
                PadEvent::AxisChanged(PadAxis::LeftStickY, y) => ControllerState {
                    stick: (before.stick.0, bits_value(y).whole() as i8),
                    ..before
                },
                _ => before,
            };
            ServerState { controllers: self.controllers.update(pad, after), ..self }
        } else {
            self
        }
    }

    /// What the game hears of an event of gamepad `pad`: that its east button
    /// asks for a shot.
    pub open spec fn pad_report(pad: int, event: PadEvent) -> Option<(u8, ToServer)> {
        if 0 <= pad < 2 && event == PadEvent::ButtonPressed(PadButton::East) {
            Some(((pad + 1) as u8, ToServer::AskShot))
        } else {
            None
        }
    }
}

/// What is done about a tank that connects.
pub open spec fn greeting(handler: RobotHandler) -> Seq<ActionView> {
    seq![
        ActionView::SendTo(handler.send_addr, ServerData::SetID(handler.robot_id).image()),
        ActionView::Report(handler.robot_id, ToServer::Connect),
    ]
}

/// The server: two gamepads and places for two tanks.
#[derive(Debug, Clone, Copy)]
pub struct RobotServer {
    pub controllers: [ControllerState; 2],
    pub handlers: [Option<RobotHandler>; 2],
    pub stop_flag: bool,
    pub receive_port: u16,
    pub interval: u64,
}

impl View for RobotServer {
    type V = ServerState;

    open spec fn view(&self) -> ServerState {
        ServerState {
            controllers: self.controllers@,
            handlers: self.handlers@,
            stop_flag: self.stop_flag,
            receive_port: self.receive_port,
            interval: self.interval,
        }
    }
}

impl RobotServer {
    /// A server without tanks, in a running game. The tanks listen on
    /// `receive_port`, and send a message every `interval` milliseconds.
    pub fn new(receive_port: u16, interval: u64) -> (r: RobotServer)
        requires
            interval * 10 <= u64::MAX,
        ensures
            r@.wf(),
            r@.handlers == seq![None::<RobotHandler>, None],
            r@.controllers == seq![
                (ControllerState { stick: (0, 0), shot_id: 0 }),
                (ControllerState { stick: (0, 0), shot_id: 0 }),
            ],
            !r@.stop_flag,
            r@.receive_port == receive_port,
            r@.interval == interval,
    {
        RobotServer {
            controllers: [ControllerState::default(), ControllerState::default()],
            handlers: [None, None],
            stop_flag: false,
            receive_port,
            interval,
        }
    }

    /// The place of the tank at `addr`.
    fn known_place(&self, addr: Addr) -> (r: Option<usize>)
        requires
            self@.wf(),
        ensures
            match r {
                Some(i) => i < 2 && known_from(self@.handlers, addr, 0) == Some(i as nat)
                    && self@.handlers[i as int] is Some,
                None => known_from(self@.handlers, addr, 0) is None,
            },
    {
        let mut i: usize = 0;
        while i < 2
            invariant
                i <= 2,
                self@.wf(),
                known_from(self@.handlers, addr, 0) == known_from(self@.handlers, addr, i as nat),
            decreases 2 - i,
        {
            if let Some(h) = self.handlers[i] {
                if h.recv_addr == addr {
                    return Some(i);
                }
            }
            i += 1;
        }
        None
    }

    /// The first free place.
    fn free_place(&self) -> (r: Option<usize>)
        requires
            self@.wf(),
        ensures
            match r {
                Some(i) => i < 2 && free_from(self@.handlers, 0) == Some(i as nat)
                    && self@.handlers[i as int] is None,
                None => free_from(self@.handlers, 0) is None,
            },
    {
        let mut i: usize = 0;
        while i < 2
            invariant
                i <= 2,
                self@.wf(),
                free_from(self@.handlers, 0) == free_from(self@.handlers, i as nat),
            decreases 2 - i,
        {
            if self.handlers[i].is_none() {
                return Some(i);
            }
            i += 1;
        }
        None
    }

    /// Gives place `i` to the tank at `addr`.
    fn connect(&mut self, i: usize, addr: Addr, now: u128) -> (r: Vec<Action>)
        requires
            old(self)@.wf(),
            i < 2,
            now + timeout_nanos(old(self).interval) <= u128::MAX,
        ensures
            final(self)@.wf(),
            final(self)@ == (ServerState {
                handlers: old(self)@.handlers.update(
                    i as int,
                    Some(old(self)@.newcomer((i + 1) as u8, addr, now)),
                ),
                controllers: old(self)@.controllers.update(
                    i as int,
                    ControllerState { shot_id: 0, ..old(self)@.controllers[i as int] },
                ),
                ..old(self)@
            }),
            action_views(r@) == greeting(old(self)@.newcomer((i + 1) as u8, addr, now)),
    {
        let id: u8 = (i + 1) as u8;
        let h = RobotHandler::new(id, addr, self.receive_port, self.interval, now);
        let packet = h.notify_id();
        self.handlers[i] = Some(h);
        let mut controller = self.controllers[i];
        controller.shot_id = 0;
        self.controllers[i] = controller;
        let mut actions: Vec<Action> = Vec::new();
        actions.push(Action::SendTo(packet));
        actions.push(Action::Report(id, ToServer::Connect));
        actions
    }

    /// Deals with a datagram from `addr` that arrived at `now`. `buf` is the
    /// buffer that it was received into.
    pub fn recv_from(&mut self, addr: Addr, buf: &[u8], now: u128) -> (r: Result<
        (Disposition, Vec<Action>),
        DecodeError,
    >)
        requires
            old(self)@.wf(),
            now + timeout_nanos(old(self).interval) <= u128::MAX,
        ensures
            final(self)@.wf(),
            match RobotRespond::parse(buf@) {
                Ok(message) => {
                    &&& r is Ok
                    &&& r->Ok_0.0 == old(self)@.disposition(addr, message)
                    &&& action_views(r->Ok_0.1@) == old(self)@.message_actions(addr, message, now)
                    &&& final(self)@ == old(self)@.after_message(addr, message, now)
                },
                Err(e) => {
                    &&& r == Err::<(Disposition, Vec<Action>), DecodeError>(e)
                    &&& final(self)@ == old(self)@
                },
            },
    {
        let message = match RobotRespond::from_bytes(buf) {
            Ok(message) => message,
            Err(e) => {
                return Err(e);
            },
        };
        let mut actions: Vec<Action> = Vec::new();
        if message.robot_id == 0 {
            if let Some(i) = self.known_place(addr) {
                if let Some(h) = self.handlers[i] {
                    actions.push(Action::SendTo(h.notify_id()));
                }
                let id: u8 = (i + 1) as u8;
                actions.push(Action::Report(id, ToServer::Connect));
                return Ok((Disposition::Reconnected(id), actions));
            }
            if let Some(i) = self.free_place() {
                return Ok((Disposition::Connected((i + 1) as u8), self.connect(i, addr, now)));
            }
            return Ok((Disposition::NoRoom, actions));
        }
        if message.robot_id <= 2 {
            let i: usize = (message.robot_id - 1) as usize;
            if let Some(handler) = self.handlers[i] {
                let mut h = handler;
                let hit = h.recv_heartbeat(&message, now);
                self.handlers[i] = Some(h);
                if hit {
                    actions.push(Action::Report(message.robot_id, ToServer::Hit));
                    return Ok((Disposition::Hit(message.robot_id), actions));
                }
                return Ok((Disposition::Heartbeat(message.robot_id), actions));
            }
            return Ok((Disposition::Connected(message.robot_id), self.connect(i, addr, now)));
        }
        Ok((Disposition::Unknown, actions))
    }

    /// Deals with a tick of the server's own clock.
    pub fn tick(&mut self, now: u128) -> (r: Vec<Action>)
        requires
            old(self)@.wf(),
        ensures
            final(self)@.wf(),
            final(self)@ == old(self)@.after_tick(now),
            action_views(r@) == old(self)@.tick_actions(now),
    {
        let mut actions: Vec<Action> = Vec::new();
        let mut i: usize = 0;
        let ghost before = self@;
        while i < 2
            invariant
                i <= 2,
                before.wf(),
                self@ == (ServerState {
                    handlers: Seq::new(
                        2,
                        |k: int|
                            if k < i {
                                before.after_tick(now).handlers[k]
                            } else {
                                before.handlers[k]
                            },
                    ),
                    ..before
                }),
                action_views(actions@) == before.tick_actions_of(i as nat, now),
            decreases 2 - i,
        {
            if let Some(h) = self.handlers[i] {
                if now >= h.heartbeat_deadline {
                    actions.push(Action::Report(h.robot_id, ToServer::Disconnect));
                    self.handlers[i] = None;
                } else {
                    actions.push(
                        Action::SendTo(h.send_controller_data(self.controllers[i], self.stop_flag)),
                    );
                }
            }
            i += 1;
        }
        actions
    }

    /// Deals with a command from the game. A shot is allowed to the tank of a
    /// number; the other commands are for all.
    pub fn recv_command(&mut self, robot: u8, command: ToRobot)
        requires
            old(self)@.wf(),
            command == ToRobot::AllowShot ==> 1 <= robot <= 2,
        ensures
            final(self)@.wf(),
            final(self)@ == old(self)@.after_command(robot, command),
    {
        match command {
            ToRobot::AllowShot => {
                let i: usize = (robot - 1) as usize;
                let mut controller = self.controllers[i];
                controller.shot_id = controller.shot_id.wrapping_add(1);
                self.controllers[i] = controller;
            },
            ToRobot::Stop => {
                self.stop_flag = true;
            },
            ToRobot::Start => {
                self.stop_flag = false;
            },
        }
    }

    /// Deals with an event of a gamepad, and tells what the game is to hear of
    /// it.
    pub fn controller_handler(&mut self, pad: usize, event: PadEvent) -> (r: Option<(u8, ToServer)>)
        requires
            old(self)@.wf(),
        ensures
            final(self)@.wf(),
            final(self)@ == old(self)@.after_pad_event(pad as int, event),
            r == ServerState::pad_report(pad as int, event),
    {
        if pad >= 2 {
            return None;
        }
        match event {
            PadEvent::ButtonPressed(button) => {
                if button == PadButton::East {
                    return Some(((pad + 1) as u8, ToServer::AskShot));
                }
            },
            PadEvent::AxisChanged(axis, x) => {
                let mut controller = self.controllers[pad];
                match axis {
                    PadAxis::LeftStickX => {
                        controller.stick.0 = Float::from_bits(x).to_i8();
                    },
                    PadAxis::LeftStickY => {
                        controller.stick.1 = Float::from_bits(x).to_i8();
                    },
                    PadAxis::Other => {},
                }
                self.controllers[pad] = controller;
            },
            PadEvent::Other => {},
        }
        None
    }
}

} // verus!

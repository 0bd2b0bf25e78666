use laser_tank::communication::{ControllerState, DecodeError, RobotRespond, ServerData};
use laser_tank::logic::{
    Action, Addr, Disposition, Ip, Packet, PadAxis, PadButton, PadEvent, RobotHandler, RobotServer,
    ToRobot, ToServer,
};

const MILLI: u128 = 1_000_000;

fn addr(host: u32, port: u16) -> Addr {
    Addr { ip: Ip::V4(host), port, flow_info: 0, scope_id: 0 }
}

fn send(host: u32, data: ServerData) -> Action {
    Action::SendTo(Packet { to: addr(host, 9000), data: data.to_bytes() })
}

fn recv(
    server: &mut RobotServer,
    from: Addr,
    robot_id: u8,
    hit_id: u8,
    now: u128,
) -> (Disposition, Vec<Action>) {
    server.recv_from(from, &[robot_id, hit_id, 0, 0], now).unwrap()
}

fn greeting(host: u32, id: u8) -> Vec<Action> {
    vec![send(host, ServerData::SetID(id)), Action::Report(id, ToServer::Connect)]
}

#[test]
fn tanks_get_numbers_in_turn() {
    let mut server = RobotServer::new(9000, 100);
    assert_eq!(recv(&mut server, addr(1, 5), 0, 0, 0), (Disposition::Connected(1), greeting(1, 1)));
    assert_eq!(recv(&mut server, addr(2, 5), 0, 0, 0), (Disposition::Connected(2), greeting(2, 2)));
    assert_eq!(recv(&mut server, addr(3, 5), 0, 0, 0), (Disposition::NoRoom, vec![]));
    assert_eq!(recv(&mut server, addr(1, 5), 0, 0, 9), (Disposition::Reconnected(1), greeting(1, 1)));
    assert_eq!(recv(&mut server, addr(2, 5), 0, 9, 9), (Disposition::Reconnected(2), greeting(2, 2)));
    // Another port on a known host is another tank.
    assert_eq!(recv(&mut server, addr(1, 6), 0, 0, 0), (Disposition::NoRoom, vec![]));
}

#[test]
fn ipv6_answers_drop_flow_and_scope() {
    let mut server = RobotServer::new(9000, 100);
    let from = Addr { ip: Ip::V6(7), port: 3, flow_info: 4, scope_id: 5 };
    let (_, actions) = server.recv_from(from, &[0, 0], 0).unwrap();
    let to = Addr { ip: Ip::V6(7), port: 9000, flow_info: 0, scope_id: 0 };
    assert_eq!(actions[0], Action::SendTo(Packet { to, data: vec![1, 1] }));
    let other = Addr { scope_id: 6, ..from };
    assert_eq!(recv(&mut server, other, 0, 0, 0).0, Disposition::Connected(2));
}

#[test]
fn tank_with_a_number_takes_its_place() {
    let mut server = RobotServer::new(9000, 100);
    server.recv_command(2, ToRobot::AllowShot);
    assert_eq!(server.controllers[1].shot_id, 1);
    assert_eq!(recv(&mut server, addr(4, 5), 2, 3, 0), (Disposition::Connected(2), greeting(4, 2)));
    assert_eq!(server.controllers[1].shot_id, 0);
    assert_eq!(server.handlers[1].unwrap().hit_id, 0);
    assert!(server.handlers[0].is_none());
}

#[test]
fn impossible_numbers_are_ignored() {
    let mut server = RobotServer::new(9000, 100);
    for id in 3u8..=255 {
        assert_eq!(recv(&mut server, addr(1, 5), id, 0, 0), (Disposition::Unknown, vec![]));
    }
    assert!(server.handlers[0].is_none() && server.handlers[1].is_none());
}

#[test]
fn short_datagram_is_refused() {
    let mut server = RobotServer::new(9000, 100);
    assert_eq!(server.recv_from(addr(1, 5), &[0], 0), Err(DecodeError::Truncated));
    assert!(server.handlers[0].is_none());
}

#[test]
fn hits_are_reported_once() {
    let mut server = RobotServer::new(9000, 100);
    recv(&mut server, addr(1, 5), 0, 0, 0);
    assert_eq!(recv(&mut server, addr(1, 5), 1, 0, 0), (Disposition::Heartbeat(1), vec![]));
    let hit = (Disposition::Hit(1), vec![Action::Report(1, ToServer::Hit)]);
    assert_eq!(recv(&mut server, addr(1, 5), 1, 1, 0), hit);
    assert_eq!(recv(&mut server, addr(1, 5), 1, 1, 0), (Disposition::Heartbeat(1), vec![]));
    assert_eq!(recv(&mut server, addr(1, 5), 1, 2, 0), hit);
}

#[test]
fn silent_tank_is_dropped_after_ten_intervals() {
    let mut server = RobotServer::new(9000, 100);
    recv(&mut server, addr(1, 5), 0, 0, 0);
    let idle = send(1, ServerData::Controller(ControllerState::default()));
    assert_eq!(server.tick(999 * MILLI), vec![idle]);
    recv(&mut server, addr(1, 5), 1, 0, 999 * MILLI);
    let idle = send(1, ServerData::Controller(ControllerState::default()));
    assert_eq!(server.tick(1999 * MILLI - 1), vec![idle]);
    assert_eq!(server.tick(1999 * MILLI), vec![Action::Report(1, ToServer::Disconnect)]);
    assert_eq!(server.tick(1999 * MILLI), vec![]);
    assert_eq!(recv(&mut server, addr(1, 5), 1, 0, 2000 * MILLI).0, Disposition::Connected(1));
}

#[test]
fn each_tank_gets_its_own_gamepad() {
    let mut server = RobotServer::new(9000, 100);
    recv(&mut server, addr(1, 5), 0, 0, 0);
    recv(&mut server, addr(2, 5), 0, 0, 0);
    let axis = |a, x: f32| PadEvent::AxisChanged(a, x.to_bits());
    assert_eq!(server.controller_handler(0, axis(PadAxis::LeftStickX, 1.0)), None);
    assert_eq!(server.controller_handler(1, axis(PadAxis::LeftStickY, -1.0)), None);
    assert_eq!(server.controller_handler(1, axis(PadAxis::Other, 1.0)), None);
    assert_eq!(server.controller_handler(2, axis(PadAxis::LeftStickY, 1.0)), None);
    server.recv_command(2, ToRobot::AllowShot);
    let first = ControllerState { stick: (1, 0), shot_id: 0 };
    let second = ControllerState { stick: (0, -1), shot_id: 1 };
    assert_eq!(
        server.tick(1),
        vec![send(1, ServerData::Controller(first)), send(2, ServerData::Controller(second))]
    );
    server.recv_command(0, ToRobot::Stop);
    let first = ControllerState { stick: (0, 0), shot_id: 0 };
    let second = ControllerState { stick: (0, 0), shot_id: 1 };
    assert_eq!(
        server.tick(1),
        vec![send(1, ServerData::Controller(first)), send(2, ServerData::Controller(second))]
    );
    server.recv_command(0, ToRobot::Start);
    assert_eq!(server.controllers[0].stick, (1, 0));
    assert!(!server.stop_flag);
}

#[test]
fn east_button_asks_for_a_shot() {
    let mut server = RobotServer::new(9000, 100);
    let east = PadEvent::ButtonPressed(PadButton::East);
    assert_eq!(server.controller_handler(0, east), Some((1, ToServer::AskShot)));
    assert_eq!(server.controller_handler(1, east), Some((2, ToServer::AskShot)));
    assert_eq!(server.controller_handler(2, east), None);
    assert_eq!(server.controller_handler(0, PadEvent::ButtonPressed(PadButton::Other)), None);
    assert_eq!(server.controller_handler(0, PadEvent::Other), None);
}

#[test]
fn axis_positions_are_cut_to_whole_numbers() {
    let mut server = RobotServer::new(9000, 100);
    for x in [
        0.0f32, -0.0, 0.99999994, 1.0, -1.0, -0.5, 1.5, -2.75, 126.99999, 127.0, 128.0, -128.0, -128.5,
        -129.0, 1e30, -1e30, f32::INFINITY, f32::NEG_INFINITY, f32::NAN, f32::MIN_POSITIVE, 1e-45,
    ] {
        server.controller_handler(0, PadEvent::AxisChanged(PadAxis::LeftStickX, x.to_bits()));
        assert_eq!(server.controllers[0].stick.0, x as i8, "{}", x);
    }
}

#[test]
fn shot_numbers_wrap_around() {
    let mut server = RobotServer::new(9000, 100);
    for n in 1..=256u32 {
        server.recv_command(1, ToRobot::AllowShot);
        assert_eq!(server.controllers[0].shot_id, n as u8);
    }
}

#[test]
fn handler_speaks_to_its_tank() {
    let mut h = RobotHandler::new(2, addr(8, 1), 9000, 50, 7);
    assert_eq!(h.heartbeat_timeout, 500 * MILLI);
    assert_eq!(h.heartbeat_deadline, 7 + 500 * MILLI);
    assert_eq!(h.notify_id(), Packet { to: addr(8, 9000), data: vec![1, 2] });
    assert!(h.recv_heartbeat(&RobotRespond { robot_id: 2, hit_id: 4 }, 10));
    assert!(!h.recv_heartbeat(&RobotRespond { robot_id: 2, hit_id: 4 }, 20));
    assert_eq!(h.heartbeat_deadline, 20 + 500 * MILLI);
    let state = ControllerState { stick: (3, -4), shot_id: 5 };
    assert_eq!(h.send_controller_data(state, false).data, vec![0, 3, 252, 5]);
    assert_eq!(h.send_controller_data(state, true).data, vec![0, 0, 0, 5]);
}

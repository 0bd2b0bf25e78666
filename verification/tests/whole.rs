use laser_tank::game::{broadcast, Countdown, Game};
use laser_tank::logic::{
    Action, Addr, Disposition, Ip, PadAxis, PadButton, PadEvent, RobotServer, ToServer,
};
use laser_tank::robot::{DriveAction, DriveEvent, MonitorAction, Robot};
use laser_tank::view::{
    banner_text, border_color, clock_text, fullscreen_label, hearts, start_label, status_color,
    status_text, text_color, theme_color,
};

fn heartbeat(robot: &Robot, hit_id: u8) -> Vec<u8> {
    match robot.monitor(true, hit_id) {
        MonitorAction::Send(data) => data,
        MonitorAction::Restart => panic!("nothing to send"),
    }
}

/// A tank connects, is shot at, shoots, and falls silent.
#[test]
fn tank_server_and_game_agree() {
    let mut server = RobotServer::new(9000, 100);
    let mut game = Game::new();
    let mut robot = Robot::new();
    let from = Addr { ip: Ip::V4(1), port: 4, flow_info: 0, scope_id: 0 };

    let (what, actions) = server.recv_from(from, &heartbeat(&robot, 0), 0).unwrap();
    assert_eq!(what, Disposition::Connected(1));
    for action in actions {
        match action {
            Action::SendTo(packet) => {
                robot.drive(DriveEvent::Datagram(&packet.data)).unwrap();
            }
            Action::Report(id, message) => {
                game.recv_message(id, message);
            }
        }
    }
    assert_eq!(robot.id, Some(1));
    assert!(game.p1.connected);

    game.press_start();
    let mut countdown = Countdown::Begin;
    while countdown != Countdown::Over {
        let step = countdown.step(&mut game);
        if let Some(command) = step.command {
            let (id, command) = broadcast(command).unwrap();
            server.recv_command(id, command);
        }
    }
    assert!(!server.stop_flag);

    let (what, actions) = server.recv_from(from, &heartbeat(&robot, 1), 5).unwrap();
    assert_eq!(what, Disposition::Hit(1));
    assert_eq!(actions, vec![Action::Report(1, ToServer::Hit)]);
    game.recv_message(1, ToServer::Hit);
    assert_eq!(game.p1.lives, 2);

    let east = PadEvent::ButtonPressed(PadButton::East);
    let (id, message) = server.controller_handler(0, east).unwrap();
    let (id, command) = game.recv_message(id, message).unwrap();
    server.recv_command(id, command);
    assert_eq!(game.recv_message(1, ToServer::AskShot), None);
    let axis = PadEvent::AxisChanged(PadAxis::LeftStickX, 1.0f32.to_bits());
    assert_eq!(server.controller_handler(0, axis), None);
    match &server.tick(6)[0] {
        Action::SendTo(packet) => {
            assert_eq!(packet.data, vec![0, 1, 0, 1]);
            assert_eq!(robot.drive(DriveEvent::Datagram(&packet.data)), Ok(DriveAction::Drive));
            assert_eq!(robot.motor_left.timestamp, 80);
            assert_eq!(robot.motor_right.timestamp, 0);
        }
        Action::Report(_, _) => panic!("the tank is not overdue"),
    }

    assert_eq!(server.tick(1_000_000_005), vec![Action::Report(1, ToServer::Disconnect)]);
}

#[test]
fn colours_follow_the_player() {
    assert_eq!(border_color(true, true), "border-blue-500 shadow-[0_0_15px_rgba(59,130,246,0.3)]");
    assert_eq!(border_color(true, false), "border-red-500 shadow-[0_0_15px_rgba(239,68,68,0.3)]");
    assert_eq!(border_color(false, true), "border-gray-600");
    assert_eq!(text_color(true, true), "text-blue-400");
    assert_eq!(text_color(true, false), "text-red-400");
    assert_eq!(text_color(false, false), "text-gray-500");
    assert_eq!(theme_color(true), "#3b82f6");
    assert_eq!(theme_color(false), "#ef4444");
    assert_eq!(status_text(true), "● CONNECTED");
    assert_eq!(status_text(false), "○ DISCONNECTED");
    assert_eq!(status_color(true), "text-green-400");
    assert_eq!(status_color(false), "text-gray-500");
}

#[test]
fn hearts_add_up_to_three() {
    for lives in 0..=3u8 {
        assert_eq!(hearts(lives), (lives, 3 - lives));
    }
    assert_eq!(hearts(4), (4, 0));
}

#[test]
fn words_on_the_screen() {
    let mut game = Game::new();
    assert_eq!(start_label(&game), "START GAME");
    assert_eq!(fullscreen_label(&game), "⛶");
    game.toggle_fullscreen();
    assert_eq!(fullscreen_label(&game), "🗗");
    game.press_start();
    assert_eq!(start_label(&game), "WAITING...");
    let mut words: Vec<&str> = Vec::new();
    let mut countdown = Countdown::Begin;
    while countdown != Countdown::Over {
        countdown.step(&mut game);
        words.push(banner_text(game.banner));
    }
    assert_eq!(words, vec!["", "3", "2", "1", "START!", ""]);
    assert_eq!(start_label(&game), "PLAYING...");
}

#[test]
fn clock_shows_minutes_and_seconds() {
    let mut game = Game::new();
    assert_eq!(clock_text(&game), "03:00");
    game.press_start();
    let mut countdown = Countdown::Begin;
    while countdown != Countdown::Over {
        countdown.step(&mut game);
    }
    let mut timer = 180.0f32;
    for _ in 0..1799 {
        game.tick();
        timer -= 0.1;
        let secs = timer as u32;
        assert_eq!(clock_text(&game), format!("{:02}:{:02}", secs / 60, secs % 60));
    }
}

use laser_tank::clock::{Clock, UNITS_PER_SECOND};
use laser_tank::game::{
    broadcast, Banner, Countdown, CountdownStep, Game, Player, Pressed,
};
use laser_tank::logic::{ToRobot, ToServer};

fn seconds(clock: &Clock) -> f32 {
    (clock.units as f64 / UNITS_PER_SECOND as f64) as f32
}

fn started() -> Game {
    let mut game = Game::new();
    assert_eq!(game.press_start(), Pressed::CountDown);
    let mut countdown = Countdown::Begin;
    while countdown != Countdown::Over {
        countdown.step(&mut game);
    }
    game
}

#[test]
fn new_game_waits() {
    let game = Game::new();
    assert!(!game.is_playing && !game.is_counting_down && !game.is_fullscreen);
    assert_eq!(game.p1, Player { connected: false, lives: 3, reload: 100 });
    assert_eq!(game.p1, game.p2);
    assert_eq!(seconds(&game.timer), 180.0);
    assert_eq!(game.banner, Banner::Hidden);
}

#[test]
fn clock_counts_like_single_precision() {
    let mut game = started();
    let mut timer = 180.0f32;
    let mut ticks = 0u32;
    loop {
        timer -= 0.1;
        ticks += 1;
        if timer <= 0.0 {
            break;
        }
        assert!(!game.tick());
        assert_eq!(seconds(&game.timer), timer);
        assert_eq!(game.timer.seconds(), timer as u32);
    }
    assert!(game.tick());
    assert_eq!(ticks, 1800);
    assert!(!game.is_playing);
    assert_eq!(seconds(&game.timer), 180.0);
    assert!(!game.tick());
    assert_eq!(seconds(&game.timer), 180.0);
}

#[test]
fn tanks_connect_and_disconnect() {
    let mut game = Game::new();
    assert_eq!(game.recv_message(2, ToServer::Connect), None);
    assert!(game.p2.connected && !game.p1.connected);
    assert_eq!(game.recv_message(1, ToServer::Connect), None);
    assert_eq!(game.recv_message(2, ToServer::Disconnect), None);
    assert!(game.p1.connected && !game.p2.connected);
}

#[test]
fn hits_count_during_a_round() {
    let mut game = Game::new();
    game.recv_message(1, ToServer::Hit);
    assert_eq!(game.p1.lives, 3);
    let mut game = started();
    game.recv_message(1, ToServer::Hit);
    game.recv_message(2, ToServer::Hit);
    game.recv_message(2, ToServer::Hit);
    assert_eq!((game.p1.lives, game.p2.lives), (2, 1));
    assert!(!game.tick());
    game.recv_message(2, ToServer::Hit);
    assert_eq!(game.timer.units, 0);
    assert!(game.is_playing);
    game.recv_message(2, ToServer::Hit);
    assert_eq!(game.p2.lives, 0);
    assert!(game.tick());
    assert!(!game.is_playing);
    assert_eq!(game.p2.lives, 0);
    assert_eq!(seconds(&game.timer), 180.0);
}

#[test]
fn gun_loads_in_twenty_ticks() {
    let mut game = Game::new();
    let mut reload = 0.0f32;
    assert_eq!(game.recv_message(2, ToServer::AskShot), Some((2, ToRobot::AllowShot)));
    for _ in 0..20 {
        assert_eq!(game.p2.reload as f32, reload);
        assert_eq!(game.recv_message(2, ToServer::AskShot), None);
        game.tick();
        reload += 5.0;
    }
    assert_eq!(game.p2.reload, 100);
    assert_eq!(game.p1.reload, 100);
    assert_eq!(game.recv_message(2, ToServer::AskShot), Some((2, ToRobot::AllowShot)));
    assert_eq!(game.recv_message(1, ToServer::AskShot), Some((1, ToRobot::AllowShot)));
}

#[test]
fn gun_loads_whatever_else_happens() {
    let mut game = Game::new();
    assert_eq!(game.recv_message(1, ToServer::AskShot), Some((1, ToRobot::AllowShot)));
    let mut countdown = Countdown::Begin;
    for tick in 0..20 {
        assert_eq!(game.recv_message(1, ToServer::AskShot), None);
        match tick {
            2 | 9 | 14 => {
                game.press_start();
            }
            3..=8 => {
                countdown.step(&mut game);
            }
            11 => {
                game.recv_message(1, ToServer::Hit);
                game.recv_message(2, ToServer::AskShot);
            }
            12 => {
                game.recv_message(1, ToServer::Disconnect);
                game.toggle_fullscreen();
            }
            _ => {}
        }
        game.tick();
    }
    assert_eq!(game.recv_message(1, ToServer::AskShot), Some((1, ToRobot::AllowShot)));
    assert_eq!(game.recv_message(2, ToServer::AskShot), None);
}

#[test]
fn round_lasts_180_seconds_whatever_else_happens() {
    let mut game = started();
    for tick in 1..1800 {
        match tick {
            10 | 700 => {
                game.recv_message(1, ToServer::Hit);
            }
            300 | 1799 => {
                game.recv_message(2, ToServer::Hit);
            }
            400 => {
                game.recv_message(2, ToServer::Disconnect);
                game.recv_message(1, ToServer::AskShot);
            }
            500 => {
                Countdown::Go.step(&mut game);
                game.toggle_fullscreen();
            }
            _ => {}
        }
        assert!(!game.tick());
        assert!(game.is_playing);
    }
    assert_eq!((game.p1.lives, game.p2.lives), (1, 1));
    assert!(game.tick());
    assert!(!game.is_playing);
    assert_eq!(seconds(&game.timer), 180.0);
}

#[test]
fn other_numbers_are_nobody() {
    let mut game = started();
    let before = game;
    for id in [0u8, 3, 255] {
        for message in [ToServer::Connect, ToServer::Disconnect, ToServer::Hit, ToServer::AskShot] {
            assert_eq!(game.recv_message(id, message), None);
            assert_eq!(game, before);
        }
    }
}

#[test]
fn countdown_steps() {
    let mut game = Game::new();
    game.press_start();
    let mut countdown = Countdown::Begin;
    let step = countdown.step(&mut game);
    assert_eq!(
        step,
        CountdownStep { command: Some(ToRobot::Stop), play_sound: true, pause_millis: 1250 }
    );
    assert_eq!(game.banner, Banner::Hidden);
    for banner in [Banner::Three, Banner::Two, Banner::One, Banner::Start] {
        let step = countdown.step(&mut game);
        assert_eq!(step, CountdownStep { command: None, play_sound: false, pause_millis: 1000 });
        assert_eq!(game.banner, banner);
        assert!(game.is_counting_down && !game.is_playing);
    }
    let step = countdown.step(&mut game);
    assert_eq!(
        step,
        CountdownStep { command: Some(ToRobot::Start), play_sound: false, pause_millis: 0 }
    );
    assert!(!game.is_counting_down && game.is_playing);
    assert_eq!(game.banner, Banner::Hidden);
    assert_eq!(countdown, Countdown::Over);
    let before = game;
    assert_eq!(
        countdown.step(&mut game),
        CountdownStep { command: None, play_sound: false, pause_millis: 0 }
    );
    assert_eq!(game, before);
}

#[test]
fn button_starts_and_calls_off() {
    let mut game = started();
    game.recv_message(1, ToServer::Hit);
    game.tick();
    assert_eq!(game.press_start(), Pressed::CalledOff);
    assert!(!game.is_playing && !game.is_counting_down);
    assert_eq!(game.p1.lives, 2);
    assert_eq!(seconds(&game.timer), 180.0);
    assert_eq!(game.press_start(), Pressed::CountDown);
    assert_eq!(game.p1.lives, 3);
    assert_eq!(game.press_start(), Pressed::CalledOff);
    assert!(!game.is_counting_down);
}

#[test]
fn countdown_that_was_called_off_runs_on() {
    let mut game = Game::new();
    game.press_start();
    let mut countdown = Countdown::Begin;
    countdown.step(&mut game);
    countdown.step(&mut game);
    game.press_start();
    assert_eq!(game.banner, Banner::Hidden);
    countdown.step(&mut game);
    assert_eq!(game.banner, Banner::Two);
    while countdown != Countdown::Over {
        countdown.step(&mut game);
    }
    assert!(game.is_playing);
}

#[test]
fn only_stop_and_start_are_broadcast() {
    assert_eq!(broadcast(ToRobot::Stop), Some((0, ToRobot::Stop)));
    assert_eq!(broadcast(ToRobot::Start), Some((0, ToRobot::Start)));
    assert_eq!(broadcast(ToRobot::AllowShot), None);
}

#[test]
fn fullscreen_toggles() {
    let mut game = Game::new();
    assert!(game.toggle_fullscreen());
    assert!(game.is_fullscreen);
    assert!(!game.toggle_fullscreen());
    assert_eq!(game, Game::new());
}

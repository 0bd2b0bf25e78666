use laser_tank::communication::{ControllerState, DecodeError, ServerData};
use laser_tank::motor::{ease_motor, Motor};
use laser_tank::robot::{DriveAction, DriveEvent, MonitorAction, Robot};
use laser_tank::single::{round_ratio, whole_up_to, Float, Single};

fn to_f32(v: Float) -> f32 {
    match v {
        Float::Number(s) => {
            let size = s.mantissa as f64 * 2f64.powi(s.exponent as i32 - 149);
            (if s.negative { -size } else { size }) as f32
        }
        Float::Infinite { negative } => {
            if negative {
                f32::NEG_INFINITY
            } else {
                f32::INFINITY
            }
        }
        Float::Nan => f32::NAN,
    }
}

fn from_f32(x: f32) -> Float {
    Float::from_bits(x.to_bits())
}

fn stick(position: i8) -> Float {
    Float::Number(Single::from_i8(position))
}

/// The same value, up to the sign of a zero and the bits of what is no number.
fn same(a: Float, b: f32) -> bool {
    let a = to_f32(a);
    a == b || a.is_nan() && b.is_nan()
}

const CORNERS: [f32; 22] = [
    0.0,
    -0.0,
    1.0,
    -1.0,
    0.5,
    1e-45,
    -1e-45,
    1.1754944e-38,
    1.1754942e-38,
    128.0,
    -128.0,
    1e20,
    -3e37,
    2.7e38,
    -2.7e38,
    f32::MAX,
    f32::MIN,
    1.7014118e38,
    -1.7014118e38,
    f32::INFINITY,
    f32::NEG_INFINITY,
    f32::NAN,
];

fn ease_f32(past: &mut f32, current: f32) -> f32 {
    let delta = (current - *past) * 0.8;
    *past += delta;
    *past
}

fn signals(v: f32) -> Motor {
    Motor { phase_high: !(v > 0.0), timestamp: (v.abs() * 100.0) as u16 }
}

#[test]
fn easing_is_single_precision() {
    let mut seed = 1u32;
    for target in -128i16..128 {
        let mut past = 0.0f32;
        let mut speed = Float::zero();
        let mut current = target as i8;
        for step in 0..150 {
            if step % 25 == 24 {
                seed = seed.wrapping_mul(1_664_525).wrapping_add(1_013_904_223);
                current = (seed >> 24) as u8 as i8;
            }
            let expected = ease_f32(&mut past, current as f32);
            let eased = ease_motor(&mut speed, stick(current));
            assert_eq!(to_f32(eased).to_bits(), (expected + 0.0).to_bits());
            assert_eq!(eased, speed);
        }
        // Down to the smallest numbers.
        for _ in 0..80 {
            let expected = ease_f32(&mut past, 0.0);
            assert_eq!(to_f32(ease_motor(&mut speed, Float::zero())), expected);
        }
        assert_eq!(speed, Float::zero());
    }
}

#[test]
fn easing_takes_four_fifths_of_the_way() {
    let mut speed = Float::zero();
    assert_eq!(to_f32(ease_motor(&mut speed, stick(1))), 0.8);
    assert_eq!(to_f32(ease_motor(&mut speed, stick(1))), 0.96000004);
}

#[test]
fn easing_does_not_overshoot() {
    let mut speed = stick(-3);
    let mut last = -3.0f32;
    for _ in 0..100 {
        let v = to_f32(ease_motor(&mut speed, stick(5)));
        assert!(last <= v && v <= 5.0);
        last = v;
    }
    assert_eq!(last, 5.0);
    assert_eq!(to_f32(ease_motor(&mut speed, stick(5))), 5.0);
}

#[test]
fn easing_takes_any_speed() {
    for past in CORNERS {
        for current in CORNERS {
            let (mut expected, mut speed) = (past, from_f32(past));
            for _ in 0..4 {
                let r = ease_motor(&mut speed, from_f32(current));
                assert_eq!(r, speed);
                assert!(same(r, ease_f32(&mut expected, current)), "{} to {}", past, current);
            }
        }
    }
    // The way from the one end to the other is no number.
    let mut speed = from_f32(f32::MIN);
    assert_eq!(ease_motor(&mut speed, from_f32(f32::MAX)), Float::Infinite { negative: false });
    // From there no finite speed is reached any more.
    assert_eq!(ease_motor(&mut speed, stick(1)), Float::Nan);
}

#[test]
fn speeds_up_to_one_stay_there() {
    let mut speed = from_f32(-1.0);
    for current in [1.0f32, -0.25, 0.999, -1.0, 0.1] {
        let v = to_f32(ease_motor(&mut speed, from_f32(current)));
        assert!(-1.0 <= v && v <= 1.0);
    }
}

#[test]
fn any_speed_has_signals() {
    let mut motor = Motor::new();
    for v in CORNERS {
        motor.set_velocity(from_f32(v));
        assert_eq!(motor, signals(v), "{}", v);
    }
    motor.set_velocity(Float::Nan);
    assert_eq!(motor, Motor { phase_high: true, timestamp: 0 });
    motor.set_velocity(Float::Infinite { negative: false });
    assert_eq!(motor, Motor { phase_high: false, timestamp: 65535 });
    motor.set_velocity(Float::Infinite { negative: true });
    assert_eq!(motor, Motor { phase_high: true, timestamp: 65535 });
}

#[test]
fn motor_signals_are_single_precision() {
    let mut motor = Motor::new();
    assert_eq!(motor, Motor { phase_high: false, timestamp: 0 });
    for v in [
        0.0f32, 1.0, -1.0, 0.8, 0.96, 0.29, 0.57, 0.58, 0.07, 1.15, -0.145, 0.009999999, 0.01, 1e-45,
        1e-38, 655.35, 655.36, -700.0, 1e10, 1e20, 3e38, -3e38,
    ] {
        motor.set_velocity(from_f32(v));
        assert_eq!(motor, signals(v), "{}", v);
    }
    let mut v = 0.0f32;
    while v < 2.0 {
        motor.set_velocity(from_f32(v));
        assert_eq!(motor, signals(v), "{}", v);
        motor.set_velocity(from_f32(v).negated());
        assert_eq!(motor, signals(-v), "{}", v);
        v += 0.00037;
    }
}

#[test]
fn sums_and_products_are_single_precision() {
    let mut seed = 7u32;
    let mut random = |spread: u32, least: u32| {
        seed = seed.wrapping_mul(1_664_525).wrapping_add(1_013_904_223);
        let sign = seed & 0x8000_0000;
        let exponent = (seed >> 20 & 0xff) % spread + least;
        let low = seed.wrapping_mul(2_654_435_761) & 0x7f_ffff;
        f32::from_bits(sign | exponent << 23 | low)
    };
    for round in 0..60_000 {
        let (spread, least) = [(256, 0), (30, 226), (30, 100), (60, 0)][round % 4];
        let a = random(spread, least);
        let b = random(spread, least);
        assert!(same(from_f32(a).plus(from_f32(b)), a + b), "{} + {}", a, b);
        assert!(same(from_f32(a).times(13_421_773), a * 0.8), "{} * 0.8", a);
        assert!(same(from_f32(a).times(1_677_721_600), a * 100.0), "{} * 100", a);
        assert!(same(from_f32(a).negated(), -a));
        assert_eq!(from_f32(a).to_i8(), a as i8, "{}", a);
    }
    for a in CORNERS {
        assert_eq!(from_f32(a).to_i8(), a as i8, "{}", a);
        assert!(same(from_f32(a), a));
        for b in CORNERS {
            assert!(same(from_f32(a).plus(from_f32(b)), a + b), "{} + {}", a, b);
        }
    }
}

#[test]
fn ties_round_to_even() {
    assert_eq!(round_ratio(0x100_0001, 1), 0x100_0000);
    assert_eq!(round_ratio(0x100_0003, 1), 0x100_0004);
    assert_eq!(round_ratio(1, 2), 0);
    assert_eq!(round_ratio(3, 2), 2);
    assert_eq!(round_ratio(0x1ff_ffff, 1), 0x200_0000);
}

#[test]
fn whole_parts_are_capped() {
    assert_eq!(whole_up_to(5, 149, 100), 5);
    assert_eq!(whole_up_to(5, 148, 100), 2);
    assert_eq!(whole_up_to(5, 0, 100), 0);
    assert_eq!(whole_up_to(5, 160, 100), 100);
    assert_eq!(whole_up_to(0, 4_000, 100), 0);
    assert_eq!(from_f32(1.9).to_i8(), 1);
}

#[test]
fn tank_follows_its_stick() {
    let mut robot = Robot::new();
    let (mut left, mut right) = (0.0f32, 0.0f32);
    for stick in [(1i8, -1i8), (1, -1), (0, 1), (-128, 127), (0, 0), (0, 0)] {
        let message = ServerData::Controller(ControllerState { stick, shot_id: 3 });
        let bytes = message.to_bytes();
        assert_eq!(robot.drive(DriveEvent::Datagram(&bytes)), Ok(DriveAction::Drive));
        assert_eq!(robot.motor_left, signals(ease_f32(&mut left, stick.0 as f32)));
        assert_eq!(robot.motor_right, signals(ease_f32(&mut right, stick.1 as f32)));
    }
    assert_eq!(robot.id, None);
}

#[test]
fn tank_stops_when_the_server_is_silent() {
    let mut robot = Robot::new();
    let go = ServerData::Controller(ControllerState { stick: (1, 1), shot_id: 0 }).to_bytes();
    robot.drive(DriveEvent::Datagram(&go)).unwrap();
    assert_eq!(robot.motor_left, Motor { phase_high: false, timestamp: 80 });
    assert_eq!(robot.drive(DriveEvent::Failed), Ok(DriveAction::Keep));
    assert_eq!(robot.motor_left, Motor { phase_high: false, timestamp: 80 });
    assert_eq!(robot.drive(DriveEvent::TimedOut), Ok(DriveAction::Drive));
    assert_eq!(robot.motor_left, Motor { phase_high: true, timestamp: 0 });
    assert_eq!(robot.motor_right, Motor { phase_high: true, timestamp: 0 });
    robot.drive(DriveEvent::Datagram(&go)).unwrap();
    assert_eq!(robot.motor_left, signals(0.96));
}

#[test]
fn first_number_is_kept() {
    let mut robot = Robot::new();
    assert_eq!(robot.monitor(true, 0), MonitorAction::Send(vec![0, 0]));
    let two = ServerData::SetID(2).to_bytes();
    assert_eq!(robot.drive(DriveEvent::Datagram(&two)), Ok(DriveAction::Keep));
    assert_eq!(robot.id, Some(2));
    let one = ServerData::SetID(1).to_bytes();
    assert_eq!(robot.drive(DriveEvent::Datagram(&one)), Ok(DriveAction::Keep));
    assert_eq!(robot.id, Some(2));
    assert_eq!(robot.monitor(true, 9), MonitorAction::Send(vec![2, 9]));
    assert_eq!(robot.monitor(false, 9), MonitorAction::Restart);
}

#[test]
fn bad_datagram_changes_nothing() {
    let mut robot = Robot::new();
    assert_eq!(robot.drive(DriveEvent::Datagram(&[])), Err(DecodeError::BadTag));
    assert_eq!(robot.drive(DriveEvent::Datagram(&[0, 1])), Err(DecodeError::Truncated));
    assert_eq!(robot.drive(DriveEvent::Datagram(&[7, 1])), Err(DecodeError::UnknownVariant));
    assert_eq!(robot.id, None);
    assert_eq!(robot.motor_left, Motor::new());
}

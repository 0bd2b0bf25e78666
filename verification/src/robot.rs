//! The tank's side of the protocol.

use vstd::prelude::*;

use crate::communication::{DecodeError, RobotRespond, ServerData};
use crate::motor::{ease_motor, eased, in_reach, law_no_speed_no_pulse, Motor};
use crate::single::{lemma_scale_sum, one, Float, Real, Single};

verus! {

/// A tank: the number that the server gave it, the speeds of its motors, and
/// the signals that drive them.
#[derive(Debug, Clone, Copy)]
pub struct Robot {
    pub id: Option<u8>,
    pub left_velocity: Float,
    pub right_velocity: Float,
    pub motor_left: Motor,
    pub motor_right: Motor,
}

/// What comes of waiting for a message from the server.
#[derive(Debug, Clone, Copy)]
pub enum DriveEvent<'a> {
    /// A datagram.
    Datagram(&'a [u8]),
    /// The socket failed.
    Failed,
    /// Nothing, for longer than the server may be silent.
    TimedOut,
}

/// What is to be done with the motors.
#[derive(Debug, Clone, Copy, PartialEq, Eq, Structural)]
pub enum DriveAction {
    /// Drive them with their signals.
    Drive,
    /// Leave them as they are.
    Keep,
}

/// What is to be done about a heartbeat that is due.
#[derive(Debug, PartialEq, Eq)]
pub enum MonitorAction {
    /// Send it.
    Send(Vec<u8>),
    /// The socket takes nothing: restart the radio and open a new socket.
    Restart,
}

impl Robot {
    pub open spec fn wf(self) -> bool {
        &&& self.left_velocity.wf() && in_reach(self.left_velocity@)
        &&& self.right_velocity.wf() && in_reach(self.right_velocity@)
    }

    /// What an event does to the motors.
    pub open spec fn reaction(event: DriveEvent) -> Result<DriveAction, DecodeError> {
        match event {
            DriveEvent::Datagram(bytes) => match ServerData::parse(bytes@) {
                Ok(ServerData::Controller(_)) => Ok(DriveAction::Drive),
                Ok(ServerData::SetID(_)) => Ok(DriveAction::Keep),
                Err(e) => Err(e),
            },
            DriveEvent::Failed => Ok(DriveAction::Keep),
            DriveEvent::TimedOut => Ok(DriveAction::Drive),
        }
    }

    /// The speeds and the signals of the motors are those of `other`.
    pub open spec fn same_motors(self, other: Robot) -> bool {
        &&& self.left_velocity == other.left_velocity
        &&& self.right_velocity == other.right_velocity
        &&& self.motor_left == other.motor_left
        &&& self.motor_right == other.motor_right
    }

    /// Both motors stand still.
    pub open spec fn halted(self) -> bool {
        &&& self.motor_left.phase_high && self.motor_left.timestamp == 0
        &&& self.motor_right.phase_high && self.motor_right.timestamp == 0
    }

    /// Whether `self` becomes `next` by an event. A message from the gamepad
    /// eases the left motor towards the first position of the stick and the
    /// right one towards the second. The first number that the tank is given is
    /// kept. When the server is silent for too long, the motors stop, and the
    /// speeds to go on from stay.
    pub open spec fn becomes(self, event: DriveEvent, next: Robot) -> bool {
        match event {
            DriveEvent::Datagram(bytes) => match ServerData::parse(bytes@) {
                Ok(ServerData::Controller(c)) => {
                    &&& next.id == self.id
                    &&& next.left_velocity@ == eased(
                        self.left_velocity@,
                        Real::Number(c.stick.0 * one()),
                    )
                    &&& next.right_velocity@ == eased(
                        self.right_velocity@,
                        Real::Number(c.stick.1 * one()),
                    )
                    &&& next.motor_left == Motor::signals(next.left_velocity@)
                    &&& next.motor_right == Motor::signals(next.right_velocity@)
                },
                Ok(ServerData::SetID(id)) => {
                    &&& next.id == (if self.id is None {
                        Some(id)
                    } else {
                        self.id
                    })
                    &&& next.same_motors(self)
                },
                Err(_) => next == self,
            },
            DriveEvent::Failed => next == self,
            DriveEvent::TimedOut => {
                &&& next.id == self.id
                &&& next.left_velocity == self.left_velocity
                &&& next.right_velocity == self.right_velocity
                &&& next.halted()
            },
        }
    }

    /// The message that tells the server that the tank is there. It says 0 as
    /// long as the tank has no number.
    pub open spec fn heartbeat(self, hit_id: u8) -> RobotRespond {
        RobotRespond {
            robot_id: match self.id {
                Some(id) => id,
                None => 0,
            },
            hit_id,
        }
    }

    /// A tank without a number, at rest.
    pub fn new() -> (r: Robot)
        ensures
            r.wf(),
            r.id is None,
            r.left_velocity@ == Real::Number(0),
            r.right_velocity@ == Real::Number(0),
            r.motor_left == (Motor { phase_high: false, timestamp: 0 }),
            r.motor_right == (Motor { phase_high: false, timestamp: 0 }),
    {
        proof {
            lemma_scale_sum(1, 0, 149);
        }
        Robot {
            id: None,
            left_velocity: Float::zero(),
            right_velocity: Float::zero(),
            motor_left: Motor::new(),
            motor_right: Motor::new(),
        }
    }

    /// Deals with an event.
    pub fn drive(&mut self, event: DriveEvent) -> (r: Result<DriveAction, DecodeError>)
        requires
            old(self).wf(),
        ensures
            final(self).wf(),
            old(self).becomes(event, *final(self)),
            r == Robot::reaction(event),
    {
        match event {
            DriveEvent::Datagram(bytes) => match ServerData::from_bytes(bytes) {
                Ok(ServerData::Controller(c)) => {
                    let left = stick_speed(c.stick.0);
                    let right = stick_speed(c.stick.1);
                    self.motor_left.set_velocity(ease_motor(&mut self.left_velocity, left));
                    self.motor_right.set_velocity(ease_motor(&mut self.right_velocity, right));
                    Ok(DriveAction::Drive)
                },
                Ok(ServerData::SetID(id)) => {
                    if self.id.is_none() {
                        self.id = Some(id);
                    }
                    Ok(DriveAction::Keep)
                },
                Err(e) => Err(e),
            },
            DriveEvent::Failed => Ok(DriveAction::Keep),
            DriveEvent::TimedOut => {
                proof {
                    law_no_speed_no_pulse();
                }
                self.motor_right.set_velocity(Float::zero());
                self.motor_left.set_velocity(Float::zero());
                Ok(DriveAction::Drive)
            },
        }
    }

    /// Decides about a heartbeat that is due, when `hit_id` is the number of
    /// the last hit.
    pub fn monitor(&self, may_send: bool, hit_id: u8) -> (r: MonitorAction)
        ensures
            match r {
                MonitorAction::Send(data) => may_send && data@ == self.heartbeat(hit_id).image(),
                MonitorAction::Restart => !may_send,
            },
    {
        if may_send {
            let robot_id: u8 = match self.id {
                Some(id) => id,
                None => 0,
            };
            MonitorAction::Send(RobotRespond { robot_id, hit_id }.to_bytes())
        } else {
            MonitorAction::Restart
        }
    }
}

/// The speed that a position of the stick asks for.
fn stick_speed(position: i8) -> (r: Float)
    ensures
        r.wf(),
        in_reach(r@),
        r@ == Real::Number(position * one()),
{
    proof {
        let d = one();
        lemma_scale_sum(1, 0, 149);
        assert(-128 * d <= position * d <= 128 * d) by (nonlinear_arith)
            requires
                -128 <= position <= 128,
                d > 0,
        ;
    }
    Float::Number(Single::from_i8(position))
}

} // verus!

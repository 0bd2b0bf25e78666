//! The game: two players, their lives and their guns, and the course of a
//! round.

use vstd::prelude::*;

use crate::clock::{Clock, TICK, TIMER_MAX};
use crate::logic::{ToRobot, ToServer};
use crate::single::nearest_single;

verus! {

/// Lives at the start of a round.
pub const LIVES: u8 = 3;

/// A loaded gun, in percent.
pub const RELOAD_MAX: u8 = 100;

/// What a tick adds to a gun that is being loaded.
pub const RELOAD_INC: u8 = 5;

/// A player: whether the tank is connected, the lives that are left, and how
/// far the gun is loaded, in percent.
#[derive(Debug, Clone, Copy, PartialEq, Eq, Structural)]
pub struct Player {
    pub connected: bool,
    pub lives: u8,
    pub reload: u8,
}

/// What is written across the screen while a round is about to start.
#[derive(Debug, Clone, Copy, PartialEq, Eq, Structural)]
pub enum Banner {
    Hidden,
    Three,
    Two,
    One,
    Start,
}

/// The game as the players see it.
#[derive(Debug, Clone, Copy, PartialEq, Eq, Structural)]
pub struct Game {
    pub is_playing: bool,
    pub is_counting_down: bool,
    pub is_fullscreen: bool,
    pub timer: Clock,
    pub banner: Banner,
    pub p1: Player,
    pub p2: Player,
}

/// What the start button does.
#[derive(Debug, Clone, Copy, PartialEq, Eq, Structural)]
pub enum Pressed {
    /// A countdown is to begin.
    CountDown,
    /// The round was called off, or the screen was cleared during a countdown,
    /// which runs on.
    CalledOff,
}

/// How far a countdown has come.
#[derive(Debug, Clone, Copy, PartialEq, Eq, Structural)]
pub enum Countdown {
    Begin,
    Three,
    Two,
    One,
    Start,
    Go,
    Over,
}

/// What a step of a countdown asks for: a command to the tanks, the sound of
/// the start, and a pause before the next step.
#[derive(Debug, Clone, Copy, PartialEq, Eq, Structural)]
pub struct CountdownStep {
    pub command: Option<ToRobot>,
    pub play_sound: bool,
    pub pause_millis: u64,
}

impl Player {
    pub open spec fn wf(self) -> bool {
        &&& self.lives <= LIVES
        &&& self.reload <= RELOAD_MAX
        &&& self.reload % RELOAD_INC == 0
    }

    /// The player after a tick: the gun is loaded a bit further.
    pub open spec fn reloaded(self) -> Player {
        if self.reload < RELOAD_MAX {
            Player {
                reload: (if self.reload + RELOAD_INC > RELOAD_MAX {
                    RELOAD_MAX as int
                } else {
                    self.reload + RELOAD_INC
                }) as u8,
                ..self
            }
        } else {
            self
        }
    }

    /// Loads the gun a bit further.
    fn load(&mut self)
        ensures
            *final(self) == old(self).reloaded(),
    {
        if self.reload < RELOAD_MAX {
            self.reload = self.reload + RELOAD_INC;
            if self.reload > RELOAD_MAX {
                self.reload = RELOAD_MAX;
            }
        }
    }
}

impl Game {
    pub open spec fn wf(self) -> bool {
        &&& self.timer.wf()
        &&& self.p1.wf()
        &&& self.p2.wf()
    }

    /// The player of a number.
    pub open spec fn player(self, id: u8) -> Player {
        if id == 1 {
            self.p1
        } else {
            self.p2
        }
    }

    /// The game with another player 1 or 2.
    pub open spec fn with_player(self, id: u8, player: Player) -> Game {
        if id == 1 {
            Game { p1: player, ..self }
        } else {
            Game { p2: player, ..self }
        }
    }

    /// Whether a tick uses up the time of a round.
    pub open spec fn time_runs_out(self) -> bool {
        self.is_playing && nearest_single(self.timer.units - TICK) <= 0
    }

    /// The game after a tick. When the time is used up, the round ends and the
    /// clock is filled for the next one. The guns are loaded in any case.
    pub open spec fn after_tick(self) -> Game {
        Game {
            is_playing: self.is_playing && !self.time_runs_out(),
            timer: if !self.is_playing {
                self.timer
            } else if self.time_runs_out() {
                Clock { units: TIMER_MAX }
            } else {
                Clock { units: nearest_single(self.timer.units - TICK) as u64 }
            },
            p1: self.p1.reloaded(),
            p2: self.p2.reloaded(),
            ..self
        }
    }

    /// Whether a hit costs the player of a number a life.
    pub open spec fn hit_counts(self, id: u8) -> bool {
        (id == 1 || id == 2) && self.is_playing && self.player(id).lives > 0
    }

    /// Whether the player of a number may shoot.
    pub open spec fn may_shoot(self, id: u8) -> bool {
        (id == 1 || id == 2) && self.player(id).reload >= RELOAD_MAX
    }

    /// The game after a message about the player of a number. A life that is
    /// lost counts while a round is played; the last one ends the round with
    /// the next tick. A shot empties the gun.
    pub open spec fn after_message(self, id: u8, message: ToServer) -> Game {
        let player = self.player(id);
        if id != 1 && id != 2 {
            self
        } else {
            match message {
                ToServer::Connect => self.with_player(id, Player { connected: true, ..player }),
                ToServer::Disconnect => self.with_player(id, Player { connected: false, ..player }),
                ToServer::Hit => if self.hit_counts(id) {
                    let after = self.with_player(
                        id,
                        Player { lives: (player.lives - 1) as u8, ..player },
                    );
                    if player.lives == 1 {
                        Game { timer: Clock { units: 0 }, ..after }
                    } else {
                        after
                    }
                } else {
                    self
                },
                ToServer::AskShot => if self.may_shoot(id) {
                    self.with_player(id, Player { reload: 0, ..player })
                } else {
                    self
                },
            }
        }
    }

    /// The answer to a message: a shot that may be fired is allowed.
    pub open spec fn answer(self, id: u8, message: ToServer) -> Option<(u8, ToRobot)> {
        if message == ToServer::AskShot && self.may_shoot(id) {
            Some((id, ToRobot::AllowShot))
        } else {
            None
        }
    }

    /// The game after a press of the start button. While nothing goes on, it
    /// sets up a new round and begins a countdown; else it ends the round and
    /// clears the screen.
    pub open spec fn after_press(self) -> Game {
        if !self.is_playing && !self.is_counting_down {
            Game {
                is_counting_down: true,
                timer: Clock { units: TIMER_MAX },
                p1: Player { lives: LIVES, ..self.p1 },
                p2: Player { lives: LIVES, ..self.p2 },
                ..self
            }
        } else {
            Game {
                is_playing: false,
                is_counting_down: false,
                banner: Banner::Hidden,
                timer: Clock { units: TIMER_MAX },
                ..self
            }
        }
    }

    /// The game before the first round.
    pub fn new() -> (r: Game)
        ensures
            r.wf(),
            !r.is_playing,
            !r.is_counting_down,
            !r.is_fullscreen,
            r.timer.units == TIMER_MAX,
            r.banner == Banner::Hidden,
            r.p1 == (Player { connected: false, lives: LIVES, reload: RELOAD_MAX }),
            r.p2 == (Player { connected: false, lives: LIVES, reload: RELOAD_MAX }),
    {
        let player = Player { connected: false, lives: LIVES, reload: RELOAD_MAX };
        Game {
            is_playing: false,
            is_counting_down: false,
            is_fullscreen: false,
            timer: Clock::full(),
            banner: Banner::Hidden,
            p1: player,
            p2: player,
        }
    }

    /// A tenth of a second goes by. Tells whether that ends the round.
    pub fn tick(&mut self) -> (finished: bool)
        requires
            old(self).wf(),
        ensures
            final(self).wf(),
            *final(self) == old(self).after_tick(),
            finished <==> old(self).time_runs_out(),
    {
        let mut finished = false;
        if self.is_playing {
            finished = self.timer.tick();
            if finished {
                self.is_playing = false;
            }
        }
        self.p1.load();
        self.p2.load();
        finished
    }

    /// Deals with a message about the player of a number. Returns what is to be
    /// said to the tank.
    pub fn recv_message(&mut self, id: u8, message: ToServer) -> (r: Option<(u8, ToRobot)>)
        requires
            old(self).wf(),
        ensures
            final(self).wf(),
            *final(self) == old(self).after_message(id, message),
            r == old(self).answer(id, message),
            r matches Some(command) ==> 1 <= command.0 <= 2,
    {
        if id != 1 && id != 2 {
            return None;
        }
        let mut player = if id == 1 {
            self.p1
        } else {
            self.p2
        };
        let mut answer: Option<(u8, ToRobot)> = None;
        match message {
            ToServer::Connect => {
                player.connected = true;
            },
            ToServer::Disconnect => {
                player.connected = false;
            },
            ToServer::Hit => {
                if player.lives > 0 && self.is_playing {
                    player.lives = player.lives - 1;
                    if player.lives == 0 {
                        self.timer = Clock::empty();
                    }
                }
            },
            ToServer::AskShot => {
                if player.reload >= RELOAD_MAX {
                    player.reload = 0;
                    answer = Some((id, ToRobot::AllowShot));
                }
            },
        }
        if id == 1 {
            self.p1 = player;
        } else {
            self.p2 = player;
        }
        answer
    }

    /// Deals with a press of the start button.
    pub fn press_start(&mut self) -> (r: Pressed)
        requires
            old(self).wf(),
        ensures
            final(self).wf(),
            *final(self) == old(self).after_press(),
            r == (if !old(self).is_playing && !old(self).is_counting_down {
                Pressed::CountDown
            } else {
                Pressed::CalledOff
            }),
    {
        self.timer = Clock::full();
        if !self.is_playing && !self.is_counting_down {
            self.is_counting_down = true;
            self.p1.lives = LIVES;
            self.p2.lives = LIVES;
            Pressed::CountDown
        } else {
            self.is_playing = false;
            self.is_counting_down = false;
            self.banner = Banner::Hidden;
            Pressed::CalledOff
        }
    }

    /// Switches between window and full screen, and tells whether it is full
    /// screen now.
    pub fn toggle_fullscreen(&mut self) -> (r: bool)
        ensures
            *final(self) == (Game { is_fullscreen: !old(self).is_fullscreen, ..*old(self) }),
            r == final(self).is_fullscreen,
    {
        self.is_fullscreen = !self.is_fullscreen;
        self.is_fullscreen
    }
}

/// What the screen has to say to all tanks: 0 stands for all. A shot is allowed
/// by the rules only, so the screen cannot.
pub fn broadcast(command: ToRobot) -> (r: Option<(u8, ToRobot)>)
    ensures
        r == (if command == ToRobot::AllowShot {
            None::<(u8, ToRobot)>
        } else {
            Some((0u8, command))
        }),
{
    match command {
        ToRobot::Stop => Some((0, ToRobot::Stop)),
        ToRobot::Start => Some((0, ToRobot::Start)),
        ToRobot::AllowShot => None,
    }
}

impl Countdown {
    pub open spec fn next(self) -> Countdown {
        match self {
            Countdown::Begin => Countdown::Three,
            Countdown::Three => Countdown::Two,
            Countdown::Two => Countdown::One,
            Countdown::One => Countdown::Start,
            Countdown::Start => Countdown::Go,
            Countdown::Go => Countdown::Over,
            Countdown::Over => Countdown::Over,
        }
    }

    /// The game after a step: the words of the countdown come one by one, and
    /// then the round is on.
    pub open spec fn applied(self, game: Game) -> Game {
        match self {
            Countdown::Begin | Countdown::Over => game,
            Countdown::Three => Game { banner: Banner::Three, ..game },
            Countdown::Two => Game { banner: Banner::Two, ..game },
            Countdown::One => Game { banner: Banner::One, ..game },
            Countdown::Start => Game { banner: Banner::Start, ..game },
            Countdown::Go => Game {
                banner: Banner::Hidden,
                is_counting_down: false,
                is_playing: true,
                ..game
            },
        }
    }

    /// What a step asks for. The tanks are stopped first and started last.
    pub open spec fn asks(self) -> CountdownStep {
        match self {
            Countdown::Begin => CountdownStep {
                command: Some(ToRobot::Stop),
                play_sound: true,
                pause_millis: 1250,
            },
            Countdown::Go => CountdownStep {
                command: Some(ToRobot::Start),
                play_sound: false,
                pause_millis: 0,
            },
            Countdown::Over => CountdownStep { command: None, play_sound: false, pause_millis: 0 },
            _ => CountdownStep { command: None, play_sound: false, pause_millis: 1000 },
        }
    }

    /// Takes the next step of a countdown.
    pub fn step(&mut self, game: &mut Game) -> (r: CountdownStep)
        requires
            old(game).wf(),
        ensures
            final(game).wf(),
            *final(self) == old(self).next(),
            *final(game) == old(self).applied(*old(game)),
            r == old(self).asks(),
    {
        let mut r = CountdownStep { command: None, play_sound: false, pause_millis: 1000 };
        *self = match *self {
            Countdown::Begin => {
                r.command = Some(ToRobot::Stop);
                r.play_sound = true;
                r.pause_millis = 1250;
                Countdown::Three
            },
            Countdown::Three => {
                game.banner = Banner::Three;
                Countdown::Two
            },
            Countdown::Two => {
                game.banner = Banner::Two;
                Countdown::One
            },
            Countdown::One => {
                game.banner = Banner::One;
                Countdown::Start
            },
            Countdown::Start => {
                game.banner = Banner::Start;
                Countdown::Go
            },
            Countdown::Go => {
                r.command = Some(ToRobot::Start);
                r.pause_millis = 0;
                game.banner = Banner::Hidden;
                game.is_counting_down = false;
                game.is_playing = true;
                Countdown::Over
            },
            Countdown::Over => {
                r.pause_millis = 0;
                Countdown::Over
            },
        };
        r
    }
}

} // verus!

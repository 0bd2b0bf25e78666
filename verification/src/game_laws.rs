//! What each operation of a game does, told by the game before and after a
//! call.

use vstd::prelude::*;

use crate::clock::{Clock, UNITS_PER_SECOND};
use crate::game::{broadcast, Banner, Countdown, CountdownStep, Game, Player, Pressed};
use crate::laws::{after_events, GameEvent};
use crate::logic::{ToRobot, ToServer};
use crate::single::{
    is_single, law_nearest_ratio, lemma_nearest_at_least, lemma_nearest_ratio, nearest_single,
};

verus! {

/// The player in a seat: the left one is number 1, the right one number 2.
pub open spec fn seat(game: Game, id: u8) -> Player {
    if id == 1 {
        game.p1
    } else {
        game.p2
    }
}

/// Whether nothing differs but the clock, whether a round is played, and the
/// players.
pub open spec fn same_stage(a: Game, b: Game) -> bool {
    &&& a.is_counting_down == b.is_counting_down
    &&& a.is_fullscreen == b.is_fullscreen
    &&& a.banner == b.banner
}

/// A tick outside a round leaves the clock as it is, during a countdown too,
/// and neither starts nor ends a round.
pub proof fn law_clock_stands_outside_a_round(game: &mut Game, finished: bool)
    requires
        old(game).wf(),
        !old(game).is_playing,
        call_ensures(Game::tick, (game,), finished),
    ensures
        final(game).timer == old(game).timer,
        !final(game).is_playing,
        !finished,
{
}

/// A tick during a round takes a single precision tenth of a second off the
/// clock, and gives the single precision number nearest to the rest. It ends the
/// round, and fills the clock again, exactly when no more than that was left.
pub proof fn law_tick_takes_a_tenth_of_a_second(game: &mut Game, finished: bool, s: int)
    requires
        old(game).wf(),
        old(game).is_playing,
        call_ensures(Game::tick, (game,), finished),
        is_single(s),
    ensures
        finished <==> old(game).timer.units <= 13_421_773,
        final(game).is_playing <==> !finished,
        finished ==> final(game).timer.units == 180 * 0x800_0000,
        !finished ==> {
            let rest = old(game).timer.units - 13_421_773;
            let off = final(game).timer.units - rest;
            let other = s - rest;
            &&& final(game).timer.units == nearest_single(rest)
            &&& is_single(final(game).timer.units as int)
            &&& (off <= other || off <= -other) && (-off <= other || -off <= -other)
        },
{
    let rest = old(game).timer.units - 13_421_773;
    if rest > 0 {
        law_nearest_ratio(rest, 1, s);
        lemma_nearest_at_least(rest, 1, 1);
        crate::clock::lemma_tick_keeps_wf(old(game).timer);
    } else if rest == 0 {
        lemma_nearest_ratio(0, 1);
        assert(0int / 1 == 0);
    }
}

/// A tick loads each gun by 5 percent, up to 100, whatever else goes on, and
/// changes nothing else of a player.
pub proof fn law_tick_loads_the_guns(game: &mut Game, finished: bool, id: u8)
    requires
        old(game).wf(),
        id == 1 || id == 2,
        call_ensures(Game::tick, (game,), finished),
    ensures
        old(game).is_playing || !final(game).is_playing,
        same_stage(*old(game), *final(game)),
        ({
            let before = seat(*old(game), id);
            let after = seat(*final(game), id);
            &&& before.reload < 100 ==> after.reload == before.reload + 5
            &&& before.reload == 100 ==> after.reload == 100
            &&& after.lives == before.lives
            &&& after.connected == before.connected
        }),
{
}

/// A message is about one player: the other one, the course of the round and
/// the screen stay as they are. One about any other number does nothing.
pub proof fn law_message_is_about_one_player(
    game: &mut Game,
    id: u8,
    message: ToServer,
    r: Option<(u8, ToRobot)>,
)
    requires
        old(game).wf(),
        call_ensures(Game::recv_message, (game, id, message), r),
    ensures
        final(game).is_playing == old(game).is_playing,
        same_stage(*old(game), *final(game)),
        id != 1 ==> final(game).p1 == old(game).p1,
        id != 2 ==> final(game).p2 == old(game).p2,
        id != 1 && id != 2 ==> *final(game) == *old(game) && r is None,
        message != ToServer::AskShot ==> r is None,
        message != ToServer::Hit ==> final(game).timer == old(game).timer,
{
}

/// A tank that comes or goes is shown as connected or not, and that is all.
pub proof fn law_connection_is_shown(
    game: &mut Game,
    id: u8,
    message: ToServer,
    r: Option<(u8, ToRobot)>,
)
    requires
        old(game).wf(),
        id == 1 || id == 2,
        message == ToServer::Connect || message == ToServer::Disconnect,
        call_ensures(Game::recv_message, (game, id, message), r),
    ensures
        seat(*final(game), id).connected <==> message == ToServer::Connect,
        seat(*final(game), id).lives == seat(*old(game), id).lives,
        seat(*final(game), id).reload == seat(*old(game), id).reload,
        final(game).timer == old(game).timer,
{
}

/// A hit takes one life, during a round and as long as there is one. The last
/// one takes the time with it, and any other hit leaves the clock alone.
pub proof fn law_hit_takes_a_life(game: &mut Game, id: u8, r: Option<(u8, ToRobot)>)
    requires
        old(game).wf(),
        id == 1 || id == 2,
        call_ensures(Game::recv_message, (game, id, ToServer::Hit), r),
    ensures
        ({
            let before = seat(*old(game), id);
            let after = seat(*final(game), id);
            let counts = old(game).is_playing && before.lives > 0;
            &&& counts ==> after.lives == before.lives - 1
            &&& !counts ==> after.lives == before.lives
            &&& after.reload == before.reload
            &&& after.connected == before.connected
            &&& counts && after.lives == 0 ==> final(game).timer.units == 0
            &&& !(counts && after.lives == 0) ==> final(game).timer == old(game).timer
        }),
{
}

/// A shot is allowed, to the player who asks, exactly when the gun is fully
/// loaded, in a round or not, and empties it; a gun that is not is left as it
/// is.
pub proof fn law_shot_takes_a_loaded_gun(game: &mut Game, id: u8, r: Option<(u8, ToRobot)>)
    requires
        old(game).wf(),
        id == 1 || id == 2,
        call_ensures(Game::recv_message, (game, id, ToServer::AskShot), r),
    ensures
        ({
            let before = seat(*old(game), id);
            let after = seat(*final(game), id);
            &&& before.reload == 100 ==> r == Some((id, ToRobot::AllowShot)) && after.reload == 0
            &&& before.reload < 100 ==> r is None && after.reload == before.reload
            &&& after.lives == before.lives
            &&& after.connected == before.connected
        }),
{
}

/// A press of the button while nothing goes on begins a countdown, with three
/// lives for each player and the whole time; the guns and the connections stay.
/// A press while something goes on ends it, as far as the screen shows, and
/// leaves the players as they are.
pub proof fn law_press_begins_or_ends(game: &mut Game, r: Pressed, id: u8)
    requires
        old(game).wf(),
        id == 1 || id == 2,
        call_ensures(Game::press_start, (game,), r),
    ensures
        !final(game).is_playing,
        final(game).timer.units == 180 * 0x800_0000,
        final(game).is_fullscreen == old(game).is_fullscreen,
        seat(*final(game), id).connected == seat(*old(game), id).connected,
        seat(*final(game), id).reload == seat(*old(game), id).reload,
        final(game).is_counting_down <==> r == Pressed::CountDown,
        r == Pressed::CountDown <==> !old(game).is_playing && !old(game).is_counting_down,
        r == Pressed::CountDown ==> {
            &&& seat(*final(game), id).lives == 3
            &&& final(game).banner == old(game).banner
        },
        r == Pressed::CalledOff ==> {
            &&& seat(*final(game), id).lives == seat(*old(game), id).lives
            &&& final(game).banner == Banner::Hidden
        },
{
}

/// The button for full screen changes that and nothing else.
pub proof fn law_fullscreen_is_switched(game: &mut Game, r: bool)
    requires
        call_ensures(Game::toggle_fullscreen, (game,), r),
    ensures
        final(game).is_fullscreen == !old(game).is_fullscreen,
        r == final(game).is_fullscreen,
        final(game).is_playing == old(game).is_playing,
        final(game).is_counting_down == old(game).is_counting_down,
        final(game).timer == old(game).timer,
        final(game).banner == old(game).banner,
        final(game).p1 == old(game).p1,
        final(game).p2 == old(game).p2,
{
}

/// A step of a countdown touches neither the clock nor the players. The last one
/// starts the round and stops the counting; the ones before only show a word.
pub proof fn law_step_of_a_countdown(countdown: &mut Countdown, game: &mut Game, r: CountdownStep)
    requires
        old(game).wf(),
        call_ensures(Countdown::step, (countdown, game), r),
    ensures
        final(game).timer == old(game).timer,
        final(game).p1 == old(game).p1,
        final(game).p2 == old(game).p2,
        final(game).is_fullscreen == old(game).is_fullscreen,
        *old(countdown) == Countdown::Go ==> {
            &&& final(game).is_playing
            &&& !final(game).is_counting_down
            &&& final(game).banner == Banner::Hidden
        },
        *old(countdown) != Countdown::Go ==> {
            &&& final(game).is_playing == old(game).is_playing
            &&& final(game).is_counting_down == old(game).is_counting_down
        },
        *old(countdown) == Countdown::Three ==> final(game).banner == Banner::Three,
        *old(countdown) == Countdown::Two ==> final(game).banner == Banner::Two,
        *old(countdown) == Countdown::One ==> final(game).banner == Banner::One,
        *old(countdown) == Countdown::Start ==> final(game).banner == Banner::Start,
        *old(countdown) == Countdown::Begin || *old(countdown) == Countdown::Over ==> *final(game)
            == *old(game),
{
}

/// The steps follow each other in one order, whatever the game is like. The
/// tanks are stopped by the first and started by the last, and by no other; the
/// sound comes with the first; the words stand for a second each.
pub proof fn law_steps_in_order(countdown: &mut Countdown, game: &mut Game, r: CountdownStep)
    requires
        old(game).wf(),
        call_ensures(Countdown::step, (countdown, game), r),
    ensures
        *old(countdown) == Countdown::Begin ==> *final(countdown) == Countdown::Three,
        *old(countdown) == Countdown::Three ==> *final(countdown) == Countdown::Two,
        *old(countdown) == Countdown::Two ==> *final(countdown) == Countdown::One,
        *old(countdown) == Countdown::One ==> *final(countdown) == Countdown::Start,
        *old(countdown) == Countdown::Start ==> *final(countdown) == Countdown::Go,
        *old(countdown) == Countdown::Go ==> *final(countdown) == Countdown::Over,
        *old(countdown) == Countdown::Over ==> *final(countdown) == Countdown::Over,
        r.command == Some(ToRobot::Stop) <==> *old(countdown) == Countdown::Begin,
        r.command == Some(ToRobot::Start) <==> *old(countdown) == Countdown::Go,
        r.command != Some(ToRobot::AllowShot),
        r.play_sound <==> *old(countdown) == Countdown::Begin,
        r.pause_millis == 1250 <==> *old(countdown) == Countdown::Begin,
        r.pause_millis == 0 <==> *old(countdown) == Countdown::Go || *old(countdown)
            == Countdown::Over,
        r.pause_millis == 1000 || r.pause_millis == 1250 || r.pause_millis == 0,
{
}

/// Stopping and starting is for all tanks; a shot is for one and is never told
/// to all.
pub proof fn law_commands_for_all(command: ToRobot, r: Option<(u8, ToRobot)>)
    requires
        call_ensures(broadcast, (command,), r),
    ensures
        r is None <==> command == ToRobot::AllowShot,
        r matches Some(sent) ==> sent.0 == 0 && sent.1 == command,
{
}

/// Between a press that begins a countdown and its last step, ticks, messages,
/// the other steps and the button for full screen, in any number and order,
/// change neither the clock nor the lives, and start no round. So the last step
/// leads into a round with the whole 180 seconds and all the lives.
pub proof fn law_round_starts_with_all_its_time(game: Game, events: Seq<GameEvent>)
    requires
        game.wf(),
        !game.is_playing,
        !game.is_counting_down,
        forall|i: int|
            0 <= i < events.len() ==> #[trigger] events[i] != GameEvent::Press && events[i]
                != GameEvent::Step(Countdown::Go),
    ensures
        ({
            let waiting = after_events(game.after_press(), events);
            let on = Countdown::Go.applied(waiting);
            &&& !waiting.is_playing && waiting.is_counting_down
            &&& waiting.timer.units == 180 * 0x800_0000
            &&& waiting.p1.lives == 3 && waiting.p2.lives == 3
            &&& on.is_playing && !on.is_counting_down
            &&& on.timer.units == 180 * 0x800_0000
            &&& on.p1.lives == 3 && on.p2.lives == 3
        }),
    decreases events.len(),
{
    if events.len() > 0 {
        let before = events.drop_last();
        assert forall|i: int| 0 <= i < before.len() implies #[trigger] before[i]
            != GameEvent::Press && before[i] != GameEvent::Step(Countdown::Go) by {
            assert(before[i] == events[i]);
        }
        law_round_starts_with_all_its_time(game, before);
        assert(events[events.len() - 1] != GameEvent::Press);
    }
}

/// No other event than the last step of a countdown starts a round.
pub proof fn law_only_the_last_step_starts_a_round(game: Game, event: GameEvent)
    requires
        game.wf(),
        !game.is_playing,
    ensures
        event.applied(game).is_playing <==> event == GameEvent::Step(Countdown::Go),
{
}

/// The seconds on the clock are those that are left in full.
pub proof fn law_seconds_are_whole(clock: &Clock, r: u32)
    requires
        clock.wf(),
        call_ensures(Clock::seconds, (clock,), r),
    ensures
        r * UNITS_PER_SECOND <= clock.units < (r + 1) * UNITS_PER_SECOND,
        UNITS_PER_SECOND == 0x800_0000,
{
}

/// A new game waits with everything that a round needs, and without tanks.
pub proof fn law_new_game_waits(game: Game, id: u8)
    requires
        id == 1 || id == 2,
        call_ensures(Game::new, (), game),
    ensures
        game.wf(),
        !game.is_playing && !game.is_counting_down && !game.is_fullscreen,
        game.timer.units == 180 * 0x800_0000,
        game.banner == Banner::Hidden,
        seat(game, id) == (Player { connected: false, lives: 3, reload: 100 }),
{
}

/// A game is well-formed as soon as its numbers are within their bounds: up to
/// three lives, guns at a multiple of 5 percent, and a single precision number of
/// seconds up to the length of a round.
pub proof fn law_what_a_game_may_be(game: Game)
    requires
        game.timer.units <= 180 * 0x800_0000,
        is_single(game.timer.units as int),
        game.p1.lives <= 3 && game.p2.lives <= 3,
        game.p1.reload <= 100 && game.p2.reload <= 100,
        game.p1.reload % 5 == 0 && game.p2.reload % 5 == 0,
    ensures
        game.wf(),
{
}

/// A well-formed game can deal with every event.
pub proof fn law_game_deals_with_every_event(
    game: &mut Game,
    countdown: &mut Countdown,
    id: u8,
    message: ToServer,
)
    requires
        old(game).wf(),
    ensures
        call_requires(Game::tick, (game,)),
        call_requires(Game::recv_message, (game, id, message)),
        call_requires(Game::press_start, (game,)),
        call_requires(Game::toggle_fullscreen, (game,)),
        call_requires(Countdown::step, (countdown, game)),
{
}

/// The clock itself: a tick takes a tenth of a second off it, or fills it when
/// no more than that is left.
pub proof fn law_clock_ticks(clock: &mut Clock, expired: bool)
    requires
        old(clock).wf(),
        call_ensures(Clock::tick, (clock,), expired),
    ensures
        final(clock).wf(),
        expired <==> old(clock).units <= 13_421_773,
        expired ==> final(clock).units == 180 * 0x800_0000,
        !expired ==> final(clock).units == nearest_single(old(clock).units - 13_421_773),
{
    let rest = old(clock).units - 13_421_773;
    if rest > 0 {
        lemma_nearest_at_least(rest, 1, 1);
    } else if rest == 0 {
        lemma_nearest_ratio(0, 1);
        assert(0int / 1 == 0);
    }
}

/// A full clock holds a round, and an empty one nothing.
pub proof fn law_full_and_empty_clock(full: Clock, empty: Clock)
    requires
        call_ensures(Clock::full, (), full),
        call_ensures(Clock::empty, (), empty),
    ensures
        full.units == 180 * 0x800_0000,
        empty.units == 0,
{
}

} // verus!

//! What holds of the game as a whole.

use vstd::prelude::*;

use crate::clock::{countdown, law_round_lasts_1800_ticks, TICK, TIMER_MAX};
use crate::communication::{
    law_robot_respond_round_trip, law_server_data_round_trip, next_id, DecodeError, RobotRespond,
    ServerData,
};
use crate::game::{Banner, Countdown, Game, LIVES, RELOAD_INC, RELOAD_MAX};
use crate::logic::{
    free_from, known_from, timeout_nanos, ActionView, Addr, Disposition, PadEvent, RobotHandler,
    ServerState, ToRobot, ToServer,
};
use crate::robot::{DriveEvent, Robot};
use crate::single::nearest_single;

verus! {

proof fn lemma_known(handlers: Seq<Option<RobotHandler>>, addr: Addr, i: nat)
    ensures
        match known_from(handlers, addr, i) {
            Some(k) => {
                &&& i <= k < handlers.len()
                &&& handlers[k as int] is Some
                &&& handlers[k as int]->0.recv_addr == addr
            },
            None => forall|k: int|
                i <= k < handlers.len() && #[trigger] handlers[k] is Some
                    ==> handlers[k]->0.recv_addr != addr,
        },
    decreases handlers.len() - i,
{
    if i < handlers.len() {
        lemma_known(handlers, addr, i + 1);
    }
}

proof fn lemma_free(handlers: Seq<Option<RobotHandler>>, i: nat)
    ensures
        match free_from(handlers, i) {
            Some(k) => i <= k < handlers.len() && handlers[k as int] is None,
            None => forall|k: int| i <= k < handlers.len() ==> #[trigger] handlers[k] is Some,
        },
    decreases handlers.len() - i,
{
    if i < handlers.len() {
        lemma_free(handlers, i + 1);
    }
}

/// The places that a message can speak of.
proof fn lemma_disposition(s: ServerState, addr: Addr, message: RobotRespond)
    requires
        s.wf(),
    ensures
        match s.disposition(addr, message) {
            Disposition::Reconnected(id) => {
                &&& 1 <= id <= 2
                &&& s.handlers[id - 1] is Some
                &&& s.handlers[id - 1]->0.recv_addr == addr
            },
            Disposition::Connected(id) => 1 <= id <= 2 && s.handlers[id - 1] is None,
            Disposition::Heartbeat(id) | Disposition::Hit(id) => {
                &&& 1 <= id <= 2
                &&& message.robot_id == id
                &&& s.handlers[id - 1] is Some
            },
            Disposition::NoRoom => s.handlers[0] is Some && s.handlers[1] is Some,
            Disposition::Unknown => message.robot_id > 2,
        },
{
    lemma_known(s.handlers, addr, 0);
    lemma_free(s.handlers, 0);
}

/// No message takes a place from the tank that holds it: the tank stays, with
/// its number and its addresses.
pub proof fn law_place_is_kept(
    s: ServerState,
    addr: Addr,
    message: RobotRespond,
    now: u128,
    i: int,
)
    requires
        s.wf(),
        0 <= i < 2,
        s.handlers[i] is Some,
    ensures
        ({
            let before = s.handlers[i]->0;
            let after = s.after_message(addr, message, now).handlers[i];
            &&& after is Some
            &&& after->0.robot_id == before.robot_id
            &&& after->0.recv_addr == before.recv_addr
            &&& after->0.send_addr == before.send_addr
        }),
{
    lemma_disposition(s, addr, message);
}

/// A tank that lost its number and asks again from the same address gets the
/// same number again, and nothing changes.
pub proof fn law_reconnecting_gives_the_same_number(
    s: ServerState,
    addr: Addr,
    message: RobotRespond,
    now: u128,
    again: RobotRespond,
    later: u128,
)
    requires
        s.wf(),
        message.robot_id == 0,
        s.disposition(addr, message) is Connected,
        again.robot_id == 0,
    ensures
        ({
            let id = s.disposition(addr, message)->Connected_0;
            let next = s.after_message(addr, message, now);
            &&& next.disposition(addr, again) == Disposition::Reconnected(id)
            &&& next.after_message(addr, again, later) == next
            &&& next.message_actions(addr, again, later) == s.message_actions(addr, message, now)
        }),
{
    lemma_disposition(s, addr, message);
    lemma_known(s.handlers, addr, 0);
    let next = s.after_message(addr, message, now);
    reveal_with_fuel(known_from, 3);
}

/// Tanks at two addresses that connect one after the other get two numbers.
pub proof fn law_two_tanks_have_two_numbers(
    s: ServerState,
    first: Addr,
    message: RobotRespond,
    now: u128,
    second: Addr,
    other: RobotRespond,
)
    requires
        s.wf(),
        s.disposition(first, message) is Connected,
        s.after_message(first, message, now).disposition(second, other) is Connected,
    ensures
        s.disposition(first, message)->Connected_0 != s.after_message(
            first,
            message,
            now,
        ).disposition(second, other)->Connected_0,
{
    lemma_disposition(s, first, message);
    let next = s.after_message(first, message, now);
    lemma_known(next.handlers, second, 0);
    lemma_free(next.handlers, 0);
}

/// When both places are taken, a tank from a third address gets no number, and
/// nothing is done.
pub proof fn law_no_third_tank(s: ServerState, addr: Addr, message: RobotRespond, now: u128)
    requires
        s.wf(),
        s.handlers[0] is Some,
        s.handlers[1] is Some,
        s.handlers[0]->0.recv_addr != addr,
        s.handlers[1]->0.recv_addr != addr,
        message.robot_id == 0,
    ensures
        s.disposition(addr, message) == Disposition::NoRoom,
        s.after_message(addr, message, now) == s,
        s.message_actions(addr, message, now).len() == 0,
{
    lemma_known(s.handlers, addr, 0);
    lemma_free(s.handlers, 0);
}

/// After a sign of life, or after it connected, a tank keeps its place for ten
/// intervals, and loses it with the first tick from then on.
pub proof fn law_silence_of_ten_intervals(
    s: ServerState,
    addr: Addr,
    message: RobotRespond,
    now: u128,
    id: u8,
    later: u128,
)
    requires
        s.wf(),
        now + timeout_nanos(s.interval) <= u128::MAX,
        ({
            let d = s.disposition(addr, message);
            d == Disposition::Connected(id) || d == Disposition::Heartbeat(id) || d
                == Disposition::Hit(id)
        }),
    ensures
        ({
            let next = s.after_message(addr, message, now);
            &&& next.handlers[id - 1] is Some
            &&& next.after_tick(later).handlers[id - 1] is Some <==> later < now + timeout_nanos(
                s.interval,
            )
        }),
{
    lemma_disposition(s, addr, message);
}

/// A tick that takes a tank's place tells the game, and any other tick sends
/// the tank its message: each place is dealt with once.
pub proof fn law_tick_deals_with_every_place(s: ServerState, now: u128)
    requires
        s.wf(),
    ensures
        s.tick_actions(now) == s.place_actions(0, now) + s.place_actions(1, now),
        forall|i: int|
            0 <= i < 2 ==> (#[trigger] s.place_actions(i, now)).len() == (if s.handlers[i] is Some {
                1nat
            } else {
                0nat
            }),
{
    reveal_with_fuel(ServerState::tick_actions_of, 3);
    assert(Seq::<ActionView>::empty() + s.place_actions(0, now) == s.place_actions(0, now));
}

/// A tank that lost its place takes it again with its own number.
pub proof fn law_lost_tank_returns(s: ServerState, addr: Addr, now: u128, id: u8, hit_id: u8)
    requires
        s.wf(),
        1 <= id <= 2,
        ServerState::overdue(s.handlers[id - 1], now),
    ensures
        s.after_tick(now).disposition(addr, RobotRespond { robot_id: id, hit_id })
            == Disposition::Connected(id),
{
}

/// The game hears of a hit once: the same message, sent again, is a mere sign
/// of life; the next hit is heard of again.
pub proof fn law_hit_is_reported_once(
    s: ServerState,
    addr: Addr,
    message: RobotRespond,
    now: u128,
    from: Addr,
)
    requires
        s.wf(),
        s.disposition(addr, message) is Hit,
    ensures
        ({
            let id = message.robot_id;
            let next = s.after_message(addr, message, now);
            &&& s.message_actions(addr, message, now) == seq![ActionView::Report(id, ToServer::Hit)]
            &&& next.disposition(from, message) == Disposition::Heartbeat(id)
            &&& next.disposition(
                from,
                RobotRespond { robot_id: id, hit_id: next_id(message.hit_id) },
            ) == Disposition::Hit(id)
        }),
{
    lemma_disposition(s, addr, message);
}

/// Everything that the game hears is about number 1 or 2.
pub proof fn law_reports_name_a_player(
    s: ServerState,
    addr: Addr,
    message: RobotRespond,
    now: u128,
    pad: int,
    event: PadEvent,
)
    requires
        s.wf(),
    ensures
        forall|i: int|
            0 <= i < s.message_actions(addr, message, now).len() ==> names_a_player(
                #[trigger] s.message_actions(addr, message, now)[i],
            ),
        forall|i: int|
            0 <= i < s.tick_actions(now).len() ==> names_a_player(#[trigger] s.tick_actions(now)[i]),
        ServerState::pad_report(pad, event) matches Some(report) ==> 1 <= report.0 <= 2,
{
    lemma_disposition(s, addr, message);
    law_tick_deals_with_every_place(s, now);
    assert(s.place_wf(0, s.handlers[0]));
    assert(s.place_wf(1, s.handlers[1]));
}

pub open spec fn names_a_player(action: ActionView) -> bool {
    action matches ActionView::Report(id, _) ==> 1 <= id <= 2
}

/// While the game is stopped, every message to a tank says that its stick is
/// centred.
pub proof fn law_stopped_tanks_stand(s: ServerState, now: u128, i: int)
    requires
        s.wf(),
        s.stop_flag,
        0 <= i < s.tick_actions(now).len(),
    ensures
        s.tick_actions(now)[i] matches ActionView::SendTo(_, data) ==> {
            &&& ServerData::parse(data) is Ok
            &&& ServerData::parse(data)->Ok_0 is Controller
            &&& ServerData::parse(data)->Ok_0->Controller_0.stick == (0i8, 0i8)
        },
{
    law_tick_deals_with_every_place(s, now);
    let c0 = ServerData::Controller(RobotHandler::sent_state(s.controllers[0], true));
    let c1 = ServerData::Controller(RobotHandler::sent_state(s.controllers[1], true));
    law_server_data_round_trip(c0, Seq::empty());
    law_server_data_round_trip(c1, Seq::empty());
    assert(c0.image() + Seq::<u8>::empty() == c0.image());
    assert(c1.image() + Seq::<u8>::empty() == c1.image());
}

/// Starting the game undoes stopping it.
pub proof fn law_start_undoes_stop(s: ServerState, robot: u8, other: u8)
    ensures
        s.after_command(robot, ToRobot::Stop).after_command(other, ToRobot::Start)
            == s.after_command(other, ToRobot::Start),
        !s.stop_flag ==> s.after_command(robot, ToRobot::Stop).after_command(other, ToRobot::Start)
            == s,
{
}

/// A shot that is allowed reaches the tank of its number with the next tick, as
/// a number that the tank has not seen last; no other gamepad changes.
pub proof fn law_allowed_shot_reaches_the_tank(s: ServerState, id: u8, now: u128)
    requires
        s.wf(),
        1 <= id <= 2,
        s.handlers[id - 1] is Some,
        now < s.handlers[id - 1]->0.heartbeat_deadline,
    ensures
        ({
            let next = s.after_command(id, ToRobot::AllowShot);
            let shot_id = next.controllers[id - 1].shot_id;
            let actions = next.place_actions(id - 1, now);
            &&& shot_id != s.controllers[id - 1].shot_id
            &&& next.controllers[2 - id] == s.controllers[2 - id]
            &&& next.handlers == s.handlers
            &&& actions.len() == 1
            &&& actions[0] is SendTo
            &&& actions[0]->SendTo_0 == s.handlers[id - 1]->0.send_addr
            &&& ServerData::parse(actions[0]->SendTo_1) is Ok
            &&& ServerData::parse(actions[0]->SendTo_1)->Ok_0 is Controller
            &&& ServerData::parse(actions[0]->SendTo_1)->Ok_0->Controller_0.shot_id == shot_id
        }),
{
    let next = s.after_command(id, ToRobot::AllowShot);
    let message = ServerData::Controller(
        RobotHandler::sent_state(next.controllers[id - 1], next.stop_flag),
    );
    law_server_data_round_trip(message, Seq::empty());
    assert(message.image() + Seq::<u8>::empty() == message.image());
}

/// A gamepad moves nothing but its own stick.
pub proof fn law_gamepad_moves_its_own_stick(s: ServerState, pad: int, event: PadEvent, i: int)
    requires
        s.wf(),
        0 <= i < 2,
    ensures
        ({
            let next = s.after_pad_event(pad, event);
            &&& next.handlers == s.handlers
            &&& next.stop_flag == s.stop_flag
            &&& next.controllers[i].shot_id == s.controllers[i].shot_id
            &&& i != pad ==> next.controllers[i] == s.controllers[i]
        }),
{
}

/// A tank that connects is told its number, keeps it, and signs its heartbeats
/// with it: the server takes them for a sign of life of that number.
pub proof fn law_number_is_agreed(
    s: ServerState,
    addr: Addr,
    message: RobotRespond,
    now: u128,
    robot: Robot,
    datagram: &[u8],
    next_robot: Robot,
    hit_id: u8,
    rest: Seq<u8>,
)
    requires
        s.wf(),
        s.disposition(addr, message) is Connected,
        s.message_actions(addr, message, now)[0] is SendTo,
        datagram@ == s.message_actions(addr, message, now)[0]->SendTo_1,
        robot.id is None,
        robot.becomes(DriveEvent::Datagram(datagram), next_robot),
    ensures
        ({
            let id = s.disposition(addr, message)->Connected_0;
            let next = s.after_message(addr, message, now);
            let heartbeat = RobotRespond::parse(next_robot.heartbeat(hit_id).image() + rest);
            &&& next_robot.id == Some(id)
            &&& heartbeat == Ok::<RobotRespond, DecodeError>(RobotRespond { robot_id: id, hit_id })
            &&& next.disposition(addr, heartbeat->Ok_0) == (if hit_id == 0 {
                Disposition::Heartbeat(id)
            } else {
                Disposition::Hit(id)
            })
        }),
{
    lemma_disposition(s, addr, message);
    let id = s.disposition(addr, message)->Connected_0;
    law_server_data_round_trip(ServerData::SetID(id), Seq::empty());
    assert(ServerData::SetID(id).image() + Seq::<u8>::empty() == ServerData::SetID(id).image());
    law_robot_respond_round_trip(next_robot.heartbeat(hit_id), rest);
}

/// A number that a tank was given is not taken from it by any event.
pub proof fn law_number_is_kept(robot: Robot, event: DriveEvent, next: Robot)
    requires
        robot.id is Some,
        robot.becomes(event, next),
    ensures
        next.id == robot.id,
{
}

/// What happens in a game: a tick, a message about the player of a number, a
/// press of the start button, a step of a countdown, or a switch between window
/// and full screen.
pub enum GameEvent {
    Tick,
    Message(u8, ToServer),
    Press,
    Step(Countdown),
    Fullscreen,
}

impl GameEvent {
    /// The game after an event.
    pub open spec fn applied(self, game: Game) -> Game {
        match self {
            GameEvent::Tick => game.after_tick(),
            GameEvent::Message(id, message) => game.after_message(id, message),
            GameEvent::Press => game.after_press(),
            GameEvent::Step(countdown) => countdown.applied(game),
            GameEvent::Fullscreen => Game { is_fullscreen: !game.is_fullscreen, ..game },
        }
    }

    /// Whether an event calls off a round or takes the last life of a player.
    pub open spec fn cuts_short(self, game: Game) -> bool {
        match self {
            GameEvent::Press => true,
            GameEvent::Message(id, ToServer::Hit) => game.hit_counts(id) && game.player(id).lives
                == 1,
            _ => false,
        }
    }
}

/// The game after a number of events.
pub open spec fn after_events(game: Game, events: Seq<GameEvent>) -> Game
    decreases events.len(),
{
    if events.len() == 0 {
        game
    } else {
        events.last().applied(after_events(game, events.drop_last()))
    }
}

/// How many of the events are ticks.
pub open spec fn ticks(events: Seq<GameEvent>) -> nat
    decreases events.len(),
{
    if events.len() == 0 {
        0
    } else {
        ticks(events.drop_last()) + (if events.last() is Tick {
            1nat
        } else {
            0nat
        })
    }
}

/// Whatever happens, no player has more than three lives, no gun is loaded to
/// more than 100 percent, and the clock shows no more than a round.
pub proof fn law_game_keeps_its_bounds(game: Game, events: Seq<GameEvent>)
    requires
        game.wf(),
    ensures
        after_events(game, events).wf(),
    decreases events.len(),
{
    if events.len() > 0 {
        law_game_keeps_its_bounds(game, events.drop_last());
        crate::clock::lemma_tick_keeps_wf(after_events(game, events.drop_last()).timer);
    }
}

proof fn lemma_ticks_of_prefix(events: Seq<GameEvent>, i: int)
    requires
        0 <= i <= events.len(),
    ensures
        ticks(events.take(i)) <= ticks(events),
    decreases events.len(),
{
    if i == events.len() {
        assert(events.take(i) == events);
    } else {
        assert(events.take(i) == events.drop_last().take(i));
        lemma_ticks_of_prefix(events.drop_last(), i);
    }
}

/// As long as nothing cuts a round short, every tick brings the clock down.
proof fn lemma_round(game: Game, events: Seq<GameEvent>)
    requires
        game.wf(),
        game.is_playing,
        game.timer.units == TIMER_MAX,
        forall|i: int|
            0 <= i < events.len() ==> !(#[trigger] events[i]).cuts_short(
                after_events(game, events.take(i)),
            ),
        ticks(events) < 1800,
    ensures
        after_events(game, events).is_playing,
        after_events(game, events).timer.units == countdown(TIMER_MAX as int, ticks(events)),
        after_events(game, events).timer.wf(),
    decreases events.len(),
{
    let full = TIMER_MAX as int;
    if events.len() > 0 {
        let before = events.drop_last();
        let n = ticks(before);
        let last = events.last();
        assert forall|i: int| 0 <= i < before.len() implies !(#[trigger] before[i]).cuts_short(
            after_events(game, before.take(i)),
        ) by {
            assert(before[i] == events[i]);
            assert(before.take(i) == events.take(i));
        }
        lemma_round(game, before);
        assert(events.take(events.len() - 1) == before);
        assert(!events[events.len() - 1].cuts_short(after_events(game, before)));
        crate::clock::lemma_tick_keeps_wf(after_events(game, before).timer);
        lemma_countdown_last(full, n);
        law_round_lasts_1800_ticks(n + 1);
    }
}

/// A round that is not called off and in which nobody loses the last life lasts
/// 1800 ticks, which are 180 seconds, to the tick, whatever else happens; then
/// the clock is full again.
pub proof fn law_round_lasts_180_seconds(game: Game, events: Seq<GameEvent>)
    requires
        game.wf(),
        game.is_playing,
        game.timer.units == TIMER_MAX,
        forall|i: int|
            0 <= i < events.len() ==> !(#[trigger] events[i]).cuts_short(
                after_events(game, events.take(i)),
            ),
    ensures
        ticks(events) < 1800 ==> after_events(game, events).is_playing,
        ticks(events) == 1800 && events.last() is Tick ==> {
            &&& !after_events(game, events).is_playing
            &&& after_events(game, events).timer.units == TIMER_MAX
        },
{
    if ticks(events) < 1800 {
        lemma_round(game, events);
    } else if ticks(events) == 1800 && events.last() is Tick {
        let before = events.drop_last();
        assert forall|i: int| 0 <= i < before.len() implies !(#[trigger] before[i]).cuts_short(
            after_events(game, before.take(i)),
        ) by {
            assert(before[i] == events[i]);
            assert(before.take(i) == events.take(i));
        }
        lemma_round(game, before);
        lemma_countdown_last(TIMER_MAX as int, 1799);
        law_round_lasts_1800_ticks(1800);
    }
}

proof fn lemma_countdown_last(units: int, n: nat)
    ensures
        countdown(units, n + 1) == nearest_single(countdown(units, n) - TICK),
    decreases n,
{
    if n > 0 {
        lemma_countdown_last(nearest_single(units - TICK), (n - 1) as nat);
    } else {
        assert(countdown(units, 1) == countdown(nearest_single(units - TICK), 0));
    }
}

/// Losing the last life ends the round with the next tick.
pub proof fn law_last_life_ends_the_round(game: Game, id: u8)
    requires
        game.wf(),
        game.hit_counts(id),
        game.player(id).lives == 1,
    ensures
        ({
            let hit = game.after_message(id, ToServer::Hit);
            &&& hit.player(id).lives == 0
            &&& hit.is_playing
            &&& hit.time_runs_out()
            &&& !hit.after_tick().is_playing
        }),
{
}

/// Lives are lost one by one, by hits during a round, and by the player that
/// was hit only; no message gives a life back.
pub proof fn law_lives_are_lost_by_hits(game: Game, id: u8, message: ToServer, player: u8)
    requires
        game.wf(),
        player == 1 || player == 2,
    ensures
        ({
            let lost = game.player(player).lives - game.after_message(id, message).player(
                player,
            ).lives;
            &&& lost == 0 || lost == 1
            &&& lost == 1 <==> player == id && message == ToServer::Hit && game.is_playing
                && game.player(player).lives > 0
        }),
{
}

/// A shot is allowed to a loaded gun only, and then, whatever happens, not again
/// before 20 ticks have gone by. After these the next one is.
pub proof fn law_gun_loads_in_20_ticks(game: Game, id: u8, events: Seq<GameEvent>)
    requires
        game.wf(),
        game.answer(id, ToServer::AskShot) is Some,
    ensures
        game.player(id).reload == RELOAD_MAX,
        ({
            let fired = game.after_message(id, ToServer::AskShot);
            let answer = after_events(fired, events).answer(id, ToServer::AskShot);
            &&& ticks(events) < 20 ==> answer is None
            &&& ticks(events) >= 20 && asks_early(id, events) ==> answer is Some
        }),
{
    let fired = game.after_message(id, ToServer::AskShot);
    if ticks(events) < 20 {
        assert forall|i: int|
            0 <= i < events.len() && #[trigger] events[i] == GameEvent::Message(
                id,
                ToServer::AskShot,
            ) implies ticks(events.take(i)) < 20 by {
            lemma_ticks_of_prefix(events, i);
        }
    }
    if asks_early(id, events) {
        lemma_gun(fired, id, events);
    }
}

/// Whether the player of a number asks for shots only while fewer than 20 ticks
/// have gone by.
pub open spec fn asks_early(id: u8, events: Seq<GameEvent>) -> bool {
    forall|i: int|
        0 <= i < events.len() && #[trigger] events[i] == GameEvent::Message(id, ToServer::AskShot)
            ==> ticks(events.take(i)) < 20
}

/// An empty gun is loaded by the ticks, and by nothing else.
proof fn lemma_gun(game: Game, id: u8, events: Seq<GameEvent>)
    requires
        id == 1 || id == 2,
        game.player(id).reload == 0,
        asks_early(id, events),
    ensures
        after_events(game, events).player(id).reload == (if ticks(events) >= 20 {
            RELOAD_MAX as int
        } else {
            RELOAD_INC * ticks(events)
        }),
    decreases events.len(),
{
    if events.len() > 0 {
        let before = events.drop_last();
        assert forall|i: int|
            0 <= i < before.len() && #[trigger] before[i] == GameEvent::Message(
                id,
                ToServer::AskShot,
            ) implies ticks(before.take(i)) < 20 by {
            assert(before[i] == events[i]);
            assert(before.take(i) == events.take(i));
        }
        lemma_gun(game, id, before);
        assert(events.take(events.len() - 1) == before);
        assert(events[events.len() - 1] == events.last());
    }
}

/// A shot that is refused changes nothing.
pub proof fn law_refused_shot_changes_nothing(game: Game, id: u8)
    requires
        game.answer(id, ToServer::AskShot) is None,
    ensures
        game.after_message(id, ToServer::AskShot) == game,
{
}

/// The game after `n` steps of a countdown in which nothing else happens.
pub open spec fn after_steps(countdown: Countdown, game: Game, n: nat) -> Game
    decreases n,
{
    if n == 0 {
        game
    } else {
        after_steps(countdown.next(), countdown.applied(game), (n - 1) as nat)
    }
}

/// How far a countdown has come after `n` more steps.
pub open spec fn steps_on(countdown: Countdown, n: nat) -> Countdown
    decreases n,
{
    if n == 0 {
        countdown
    } else {
        steps_on(countdown.next(), (n - 1) as nat)
    }
}

/// A second press of the button, when `n` of the six steps of a countdown are
/// taken, clears the screen; the round that is set up stays. It does not stop
/// the countdown: the steps that are left still start the round.
pub proof fn law_second_press_clears_the_screen(game: Game, n: nat)
    requires
        !game.is_playing,
        !game.is_counting_down,
        n < 6,
    ensures
        ({
            let once = game.after_press();
            let twice = after_steps(Countdown::Begin, once, n).after_press();
            let on = after_steps(steps_on(Countdown::Begin, n), twice, (6 - n) as nat);
            &&& once.is_counting_down && !once.is_playing
            &&& !twice.is_counting_down && !twice.is_playing
            &&& twice.p1.lives == LIVES && twice.p2.lives == LIVES
            &&& twice.timer.units == TIMER_MAX
            &&& twice.banner == Banner::Hidden
            &&& on.is_playing && !on.is_counting_down
            &&& on.p1.lives == LIVES && on.p2.lives == LIVES
            &&& on.timer.units == TIMER_MAX
        }),
{
    reveal_with_fuel(after_steps, 7);
    reveal_with_fuel(steps_on, 7);
    assert(n == 0 || n == 1 || n == 2 || n == 3 || n == 4 || n == 5);
}

/// A press of the button and the six steps of a countdown put the players, with
/// all their lives and the whole time, into a round. The tanks are stopped by
/// the first step and started by the last.
pub proof fn law_countdown_leads_into_a_round(game: Game)
    requires
        game.wf(),
        !game.is_playing,
        !game.is_counting_down,
    ensures
        ({
            let on = after_steps(Countdown::Begin, game.after_press(), 6);
            &&& on.is_playing && !on.is_counting_down
            &&& on.banner == Banner::Hidden
            &&& on.timer.units == TIMER_MAX
            &&& on.p1.lives == LIVES && on.p2.lives == LIVES
            &&& on.wf()
        }),
        Countdown::Begin.asks().command == Some(ToRobot::Stop),
        Countdown::Go.asks().command == Some(ToRobot::Start),
        Countdown::Begin.next().next().next().next().next() == Countdown::Go,
        Countdown::Go.next() == Countdown::Over,
{
    reveal_with_fuel(after_steps, 7);
    crate::clock::lemma_full_wf();
}

} // verus!

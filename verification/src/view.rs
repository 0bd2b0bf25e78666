//! What the screen shows: the words, colours and counts that the state of the
//! game calls for.

use vstd::prelude::*;

use crate::clock::UNITS_PER_SECOND;
use crate::game::{Banner, Game, LIVES};

verus! {

/// The frame of a player's area: blue on the left, red on the right, and grey
/// without a tank.
pub fn border_color(connected: bool, is_left: bool) -> (r: &'static str)
    ensures
        r@ == (if !connected {
            "border-gray-600"@
        } else if is_left {
            "border-blue-500 shadow-[0_0_15px_rgba(59,130,246,0.3)]"@
        } else {
            "border-red-500 shadow-[0_0_15px_rgba(239,68,68,0.3)]"@
        }),
{
    if connected {
        if is_left {
            "border-blue-500 shadow-[0_0_15px_rgba(59,130,246,0.3)]"
        } else {
            "border-red-500 shadow-[0_0_15px_rgba(239,68,68,0.3)]"
        }
    } else {
        "border-gray-600"
    }
}

/// The colour of a player's name.
pub fn text_color(connected: bool, is_left: bool) -> (r: &'static str)
    ensures
        r@ == (if !connected {
            "text-gray-500"@
        } else if is_left {
            "text-blue-400"@
        } else {
            "text-red-400"@
        }),
{
    if connected {
        if is_left {
            "text-blue-400"
        } else {
            "text-red-400"
        }
    } else {
        "text-gray-500"
    }
}

/// The colour of a player's gun.
pub fn theme_color(is_left: bool) -> (r: &'static str)
    ensures
        r@ == (if is_left {
            "#3b82f6"@
        } else {
            "#ef4444"@
        }),
{
    if is_left {
        "#3b82f6"
    } else {
        "#ef4444"
    }
}

/// Whether a player's tank is connected, in words.
pub fn status_text(connected: bool) -> (r: &'static str)
    ensures
        r@ == (if connected {
            "● CONNECTED"@
        } else {
            "○ DISCONNECTED"@
        }),
{
    if connected {
        "● CONNECTED"
    } else {
        "○ DISCONNECTED"
    }
}

/// The colour of those words.
pub fn status_color(connected: bool) -> (r: &'static str)
    ensures
        r@ == (if connected {
            "text-green-400"@
        } else {
            "text-gray-500"@
        }),
{
    if connected {
        "text-green-400"
    } else {
        "text-gray-500"
    }
}

/// The lives that are left and those that are lost, as hearts to draw.
pub fn hearts(lives: u8) -> (r: (u8, u8))
    ensures
        r.0 == lives,
        r.1 == (if lives < LIVES {
            LIVES - lives
        } else {
            0
        }),
{
    if lives < LIVES {
        (lives, LIVES - lives)
    } else {
        (lives, 0)
    }
}

/// The words of a countdown.
pub fn banner_text(banner: Banner) -> (r: &'static str)
    ensures
        r@ == (match banner {
            Banner::Hidden => ""@,
            Banner::Three => "3"@,
            Banner::Two => "2"@,
            Banner::One => "1"@,
            Banner::Start => "START!"@,
        }),
{
    match banner {
        Banner::Hidden => "",
        Banner::Three => "3",
        Banner::Two => "2",
        Banner::One => "1",
        Banner::Start => "START!",
    }
}

/// What is written on the start button.
pub fn start_label(game: &Game) -> (r: &'static str)
    ensures
        r@ == (if game.is_playing {
            "PLAYING..."@
        } else if game.is_counting_down {
            "WAITING..."@
        } else {
            "START GAME"@
        }),
{
    if game.is_playing {
        "PLAYING..."
    } else if game.is_counting_down {
        "WAITING..."
    } else {
        "START GAME"
    }
}

/// What is written on the button that switches to full screen and back.
pub fn fullscreen_label(game: &Game) -> (r: &'static str)
    ensures
        r@ == (if game.is_fullscreen {
            "🗗"@
        } else {
            "⛶"@
        }),
{
    if game.is_fullscreen {
        "🗗"
    } else {
        "⛶"
    }
}

/// A digit as a character.
pub open spec fn digit(d: int) -> char {
    ('0' as int + d) as char
}

/// A number below 100 with two digits.
pub open spec fn two_digits(n: int) -> Seq<char> {
    seq![digit(n / 10), digit(n % 10)]
}

/// A digit as text.
fn digit_text(d: u32) -> (r: &'static str)
    requires
        d < 10,
    ensures
        r@ == seq![digit(d as int)],
{
    proof {
        reveal_strlit("0");
        reveal_strlit("1");
        reveal_strlit("2");
        reveal_strlit("3");
        reveal_strlit("4");
        reveal_strlit("5");
        reveal_strlit("6");
        reveal_strlit("7");
        reveal_strlit("8");
        reveal_strlit("9");
    }
    match d {
        0 => "0",
        1 => "1",
        2 => "2",
        3 => "3",
        4 => "4",
        5 => "5",
        6 => "6",
        7 => "7",
        8 => "8",
        _ => "9",
    }
}

/// The time left as minutes and seconds.
pub fn clock_text(game: &Game) -> (r: String)
    requires
        game.wf(),
    ensures
        ({
            let seconds = game.timer.units as int / UNITS_PER_SECOND as int;
            r@ == two_digits(seconds / 60) + seq![':'] + two_digits(seconds % 60)
        }),
{
    let seconds: u32 = game.timer.seconds();
    let mins: u32 = seconds / 60;
    let secs: u32 = seconds % 60;
    proof {
        reveal_strlit(":");
    }
    let mut r = String::new();
    r.append(digit_text(mins / 10));
    r.append(digit_text(mins % 10));
    r.append(":");
    r.append(digit_text(secs / 10));
    r.append(digit_text(secs % 10));
    r
}

} // verus!

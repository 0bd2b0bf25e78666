//! What texts are read as, and what the screen shows.

use vstd::prelude::*;

use crate::game::{Banner, Game};
use crate::settings::{
    decimal, decimal_up_to, digits_value, fields, is_digit, parse_interval, parse_ip, parse_port,
    silence_millis, unsigned,
};
use crate::view::{
    banner_text, border_color, clock_text, fullscreen_label, hearts, start_label, status_color,
    status_text, text_color, theme_color,
};

verus! {

/// A text with nothing to read: no character, or a plus sign only.
pub open spec fn bare(s: Seq<char>) -> bool {
    s.len() == 0 || s == seq!['+']
}

/// Numbers are read digit by digit. A digit alone, or behind a plus sign, is
/// itself. A digit behind a number makes ten times that and the digit, unless it
/// is too much. Nothing else is a number, and neither is a text without digits.
pub proof fn law_numbers_are_read_digit_by_digit(s: Seq<char>, c: char, max: nat)
    requires
        max >= 9,
    ensures
        bare(s) ==> decimal_up_to(s, max) is None,
        ({
            let before = decimal_up_to(s, max);
            let after = decimal_up_to(s.push(c), max);
            let digit = c as int - '0' as int;
            &&& after is Some ==> '0' <= c <= '9' && (bare(s) || before is Some)
            &&& '0' <= c <= '9' && bare(s) ==> after == Some(digit as nat)
            &&& '0' <= c <= '9' && before is Some ==> after == (if 10 * before->0 + digit <= max {
                Some((10 * before->0 + digit) as nat)
            } else {
                None
            })
        }),
{
    let t = s.push(c);
    let u = unsigned(s);
    if s.len() == 0 && c == '+' {
        assert(unsigned(t) == Seq::<char>::empty());
    } else {
        let v = unsigned(t);
        assert(v == u.push(c));
        assert(v.drop_last() == u);
        assert(v.last() == c);
        assert forall|k: int| 0 <= k < u.len() implies v[k] == #[trigger] u[k] by {}
        assert(v[u.len() as int] == c);
        if bare(s) {
            assert(u.len() == 0);
            assert(digits_value(u) == 0);
        }
        if decimal(t) is Some {
            assert forall|k: int| 0 <= k < u.len() implies is_digit(#[trigger] u[k]) by {
                assert(is_digit(v[k]));
            }
            assert(is_digit(v[u.len() as int]));
            if u.len() == 0 {
                assert(bare(s)) by {
                    if s.len() > 0 {
                        assert(s[0] == '+');
                        assert(s.skip(1).len() == 0);
                        assert(s == seq!['+']);
                    }
                }
            }
        }
        if is_digit(c) && (bare(s) || decimal(s) is Some) {
            assert forall|k: int| 0 <= k < v.len() implies is_digit(#[trigger] v[k]) by {
                if k < u.len() {
                    assert(is_digit(u[k]));
                }
            }
        }
    }
}

/// A port is a number up to 65535, read digit by digit.
pub proof fn law_port(s: &str, c: char, t: &str, a: Option<u16>, b: Option<u16>)
    requires
        call_ensures(parse_port, (s,), a),
        call_ensures(parse_port, (t,), b),
        t@ == s@.push(c),
    ensures
        bare(s@) ==> a is None,
        b is Some ==> '0' <= c <= '9' && (bare(s@) || a is Some),
        '0' <= c <= '9' && bare(s@) ==> b is Some && b->0 == c as int - '0' as int,
        '0' <= c <= '9' && a is Some ==> {
            let n = 10 * a->0 + (c as int - '0' as int);
            &&& b is Some <==> n <= 65535
            &&& b is Some ==> b->0 == n
        },
{
    law_numbers_are_read_digit_by_digit(s@, c, 65535);
}

/// An interval is a number of 64 bits, read digit by digit.
pub proof fn law_interval(s: &str, c: char, t: &str, a: Option<u64>, b: Option<u64>)
    requires
        call_ensures(parse_interval, (s,), a),
        call_ensures(parse_interval, (t,), b),
        t@ == s@.push(c),
    ensures
        bare(s@) ==> a is None,
        b is Some ==> '0' <= c <= '9' && (bare(s@) || a is Some),
        '0' <= c <= '9' && bare(s@) ==> b is Some && b->0 == c as int - '0' as int,
        '0' <= c <= '9' && a is Some ==> {
            let n = 10 * a->0 + (c as int - '0' as int);
            &&& b is Some <==> n <= u64::MAX
            &&& b is Some ==> b->0 == n
        },
{
    law_numbers_are_read_digit_by_digit(s@, c, u64::MAX as nat);
}

/// Texts put together with dots between them.
pub open spec fn joined(parts: Seq<Seq<char>>) -> Seq<char>
    decreases parts.len(),
{
    if parts.len() == 0 {
        Seq::empty()
    } else if parts.len() == 1 {
        parts[0]
    } else {
        joined(parts.drop_last()).push('.') + parts.last()
    }
}

/// Characters that are no separator go to the last field.
proof fn lemma_fields_extend(a: Seq<char>, w: Seq<char>)
    requires
        forall|k: int| 0 <= k < w.len() ==> #[trigger] w[k] != '.',
    ensures
        fields(a, '.').len() >= 1,
        fields(a + w, '.') == fields(a, '.').update(
            fields(a, '.').len() - 1,
            fields(a, '.').last() + w,
        ),
    decreases w.len(), a.len(),
{
    if w.len() == 0 {
        assert(a + w == a);
        if a.len() > 0 {
            lemma_fields_extend(a.drop_last(), w);
        }
        assert(fields(a, '.').last() + w == fields(a, '.').last());
        assert(fields(a + w, '.') =~= fields(a, '.').update(
            fields(a, '.').len() - 1,
            fields(a, '.').last() + w,
        ));
    } else {
        let front = w.drop_last();
        lemma_fields_extend(a, front);
        assert((a + w).drop_last() == a + front);
        assert((a + w).last() == w.last());
        assert(w[w.len() - 1] != '.');
        assert((fields(a, '.').last() + front).push(w.last()) == fields(a, '.').last() + w);
        assert(fields(a + w, '.') =~= fields(a, '.').update(
            fields(a, '.').len() - 1,
            fields(a, '.').last() + w,
        ));
    }
}

proof fn lemma_fields_of_joined(parts: Seq<Seq<char>>)
    requires
        parts.len() >= 1,
        forall|i: int, k: int|
            0 <= i < parts.len() && 0 <= k < parts[i].len() ==> #[trigger] parts[i][k] != '.',
    ensures
        fields(joined(parts), '.') == parts,
    decreases parts.len(),
{
    let last = parts.last();
    assert forall|k: int| 0 <= k < last.len() implies #[trigger] last[k] != '.' by {
        assert(parts[parts.len() - 1][k] != '.');
    }
    if parts.len() == 1 {
        lemma_fields_extend(Seq::empty(), last);
        assert(Seq::<char>::empty() + last == last);
        assert(fields(joined(parts), '.') =~= parts);
    } else {
        let front = parts.drop_last();
        assert forall|i: int, k: int|
            0 <= i < front.len() && 0 <= k < front[i].len() implies #[trigger] front[i][k]
            != '.' by {
            assert(parts[i][k] != '.');
        }
        lemma_fields_of_joined(front);
        let a = joined(front).push('.');
        assert(a.drop_last() == joined(front));
        assert(fields(a, '.') == front.push(Seq::empty()));
        lemma_fields_extend(a, last);
        assert(Seq::<char>::empty() + last == last);
        assert(fields(joined(parts), '.') =~= parts);
    }
}

/// An address is up to four numbers of a byte with dots between them; those that
/// are missing at the end are 0. Anything else is refused.
pub proof fn law_address(s: &str, parts: Seq<Seq<char>>, r: Option<[u8; 4]>)
    requires
        call_ensures(parse_ip, (s,), r),
        parts.len() >= 1,
        forall|i: int, k: int|
            0 <= i < parts.len() && 0 <= k < parts[i].len() ==> #[trigger] parts[i][k] != '.',
        s@ == joined(parts),
    ensures
        r is Some <==> parts.len() <= 4 && forall|i: int|
            0 <= i < parts.len() ==> decimal_up_to(#[trigger] parts[i], 255) is Some,
        r matches Some(bytes) ==> forall|i: int|
            0 <= i < 4 ==> #[trigger] bytes@[i] == (if i < parts.len() {
                decimal_up_to(parts[i], 255)->0 as int
            } else {
                0
            }),
{
    lemma_fields_of_joined(parts);
    if r is Some {
        assert forall|i: int| 0 <= i < 4 implies #[trigger] r->0@[i] == (if i < parts.len() {
            decimal_up_to(parts[i], 255)->0 as int
        } else {
            0
        }) by {
            if i < parts.len() {
                assert(decimal_up_to(parts[i], 255) is Some);
            }
        }
    }
}

/// The silence that is allowed is ten intervals long.
pub proof fn law_silence_is_ten_intervals(interval: u64, r: Option<u64>)
    requires
        call_ensures(silence_millis, (interval,), r),
    ensures
        r is Some <==> interval <= 1_844_674_407_370_955_161,
        r matches Some(millis) ==> millis == 10 * interval,
{
}

/// The digit that a character shows.
pub open spec fn shows(c: char, d: int) -> bool {
    '0' <= c <= '9' && c as int - '0' as int == d
}

/// The clock shows minutes and seconds, with two digits each and a colon between
/// them: together they are the whole seconds that are left.
pub proof fn law_clock_shows_minutes_and_seconds(game: &Game, r: String)
    requires
        game.wf(),
        call_ensures(clock_text, (game,), r),
    ensures
        r@.len() == 5,
        r@[2] == ':',
        exists|a: int, b: int, c: int, d: int|
            #![trigger shows(r@[0], a), shows(r@[1], b), shows(r@[3], c), shows(r@[4], d)]
            {
                let seconds = (10 * a + b) * 60 + 10 * c + d;
                &&& shows(r@[0], a) && shows(r@[1], b) && shows(r@[3], c) && shows(r@[4], d)
                &&& c < 6
                &&& seconds * 0x800_0000 <= game.timer.units < (seconds + 1) * 0x800_0000
            },
{
    let seconds = game.timer.units as int / 0x800_0000;
    let a = seconds / 60 / 10;
    let b = seconds / 60 % 10;
    let c = seconds % 60 / 10;
    let d = seconds % 60 % 10;
    assert(shows(r@[0], a));
    assert(shows(r@[1], b));
    assert(shows(r@[3], c));
    assert(shows(r@[4], d));
    assert((10 * a + b) * 60 + 10 * c + d == seconds);
}

/// The hearts are the lives, and those that are lost of three.
pub proof fn law_hearts_add_up_to_three(lives: u8, r: (u8, u8))
    requires
        lives <= 3,
        call_ensures(hearts, (lives,), r),
    ensures
        r.0 == lives,
        r.0 + r.1 == 3,
{
}

/// The start button shows what goes on, and only that.
pub proof fn law_start_button(game: &Game, r: &'static str)
    requires
        call_ensures(start_label, (game,), r),
    ensures
        game.is_playing ==> r@ == "PLAYING..."@,
        !game.is_playing && game.is_counting_down ==> r@ == "WAITING..."@,
        !game.is_playing && !game.is_counting_down ==> r@ == "START GAME"@,
{
}

/// The button for full screen shows which way it switches.
pub proof fn law_fullscreen_button(game: &Game, r: &'static str)
    requires
        call_ensures(fullscreen_label, (game,), r),
    ensures
        game.is_fullscreen ==> r@ == "🗗"@,
        !game.is_fullscreen ==> r@ == "⛶"@,
{
}

/// The words of a countdown.
pub proof fn law_words_of_a_countdown(banner: Banner, r: &'static str)
    requires
        call_ensures(banner_text, (banner,), r),
    ensures
        banner == Banner::Hidden ==> r@ == ""@,
        banner == Banner::Three ==> r@ == "3"@,
        banner == Banner::Two ==> r@ == "2"@,
        banner == Banner::One ==> r@ == "1"@,
        banner == Banner::Start ==> r@ == "START!"@,
{
}

/// A player with a tank has the colour of the side, blue on the left and red on
/// the right; without one, both sides look the same, in grey.
pub proof fn law_colours_of_a_player(
    connected: bool,
    is_left: bool,
    border: &'static str,
    text: &'static str,
    theme: &'static str,
)
    requires
        call_ensures(border_color, (connected, is_left), border),
        call_ensures(text_color, (connected, is_left), text),
        call_ensures(theme_color, (is_left,), theme),
    ensures
        !connected ==> border@ == "border-gray-600"@ && text@ == "text-gray-500"@,
        connected && is_left ==> {
            &&& border@ == "border-blue-500 shadow-[0_0_15px_rgba(59,130,246,0.3)]"@
            &&& text@ == "text-blue-400"@
        },
        connected && !is_left ==> {
            &&& border@ == "border-red-500 shadow-[0_0_15px_rgba(239,68,68,0.3)]"@
            &&& text@ == "text-red-400"@
        },
        is_left ==> theme@ == "#3b82f6"@,
        !is_left ==> theme@ == "#ef4444"@,
{
}

/// A connection is told in words and by colour.
pub proof fn law_connection_in_words(connected: bool, text: &'static str, color: &'static str)
    requires
        call_ensures(status_text, (connected,), text),
        call_ensures(status_color, (connected,), color),
    ensures
        connected ==> text@ == "● CONNECTED"@ && color@ == "text-green-400"@,
        !connected ==> text@ == "○ DISCONNECTED"@ && color@ == "text-gray-500"@,
{
}

} // verus!

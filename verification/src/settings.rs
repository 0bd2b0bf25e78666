//! The settings, which come as text: numbers and the address of the server.

use vstd::prelude::*;

verus! {

pub open spec fn is_digit(c: char) -> bool {
    '0' <= c <= '9'
}

/// The number that a row of digits makes.
pub open spec fn digits_value(s: Seq<char>) -> nat
    decreases s.len(),
{
    if s.len() == 0 {
        0
    } else {
        digits_value(s.drop_last()) * 10 + (s.last() as nat - '0' as nat) as nat
    }
}

/// The text without a leading plus sign.
pub open spec fn unsigned(s: Seq<char>) -> Seq<char> {
    if s.len() > 0 && s[0] == '+' {
        s.skip(1)
    } else {
        s
    }
}

/// The number that a text stands for: digits, at least one, and perhaps a plus
/// sign before them.
pub open spec fn decimal(s: Seq<char>) -> Option<nat> {
    let digits = unsigned(s);
    if digits.len() > 0 && (forall|i: int| 0 <= i < digits.len() ==> is_digit(#[trigger] digits[i])) {
        Some(digits_value(digits))
    } else {
        None
    }
}

/// As `decimal`, for numbers up to `max`.
pub open spec fn decimal_up_to(s: Seq<char>, max: nat) -> Option<nat> {
    match decimal(s) {
        Some(n) => if n <= max {
            Some(n)
        } else {
            None
        },
        None => None,
    }
}

/// The fields of a text between the separators: one more than there are
/// separators.
pub open spec fn fields(s: Seq<char>, separator: char) -> Seq<Seq<char>>
    decreases s.len(),
{
    if s.len() == 0 {
        seq![Seq::empty()]
    } else {
        let before = fields(s.drop_last(), separator);
        if s.last() == separator {
            before.push(Seq::empty())
        } else {
            before.update(before.len() - 1, before.last().push(s.last()))
        }
    }
}

/// The four bytes of an address in dotted notation. Fields that are missing at
/// the end are 0.
pub open spec fn dotted(s: Seq<char>) -> Option<Seq<u8>> {
    let parts = fields(s, '.');
    if parts.len() <= 4 && (forall|k: int|
        0 <= k < parts.len() ==> decimal_up_to(#[trigger] parts[k], 255) is Some) {
        Some(
            Seq::new(
                4,
                |k: int|
                    if k < parts.len() {
                        decimal_up_to(parts[k], 255)->0 as u8
                    } else {
                        0u8
                    },
            ),
        )
    } else {
        None
    }
}

proof fn lemma_digits_value_grows(s: Seq<char>, i: int)
    requires
        0 <= i <= s.len(),
        forall|k: int| 0 <= k < s.len() ==> is_digit(#[trigger] s[k]),
    ensures
        digits_value(s.take(i)) <= digits_value(s),
    decreases s.len() - i,
{
    if i < s.len() {
        lemma_digits_value_grows(s, i + 1);
        assert(s.take(i + 1).drop_last() == s.take(i));
    } else {
        assert(s.take(i) == s);
    }
}

/// A separator ends a field: what follows does not change the fields before it.
proof fn lemma_fields_stay(s: Seq<char>, separator: char, i: int)
    requires
        0 <= i <= s.len(),
    ensures
        ({
            let before = fields(s.take(i), separator);
            let whole = fields(s, separator);
            let ended = if i < s.len() && s[i] == separator {
                before.len() as int
            } else {
                before.len() - 1
            };
            &&& before.len() >= 1
            &&& whole.len() >= ended + 1
            &&& forall|k: int| 0 <= k < ended ==> #[trigger] whole[k] == before[k]
        }),
    decreases s.len() - i,
{
    if i < s.len() {
        lemma_fields_stay(s, separator, i + 1);
        assert(s.take(i + 1).drop_last() == s.take(i));
        lemma_fields_nonempty(s.take(i), separator);
    } else {
        assert(s.take(i) == s);
        lemma_fields_nonempty(s, separator);
    }
}

proof fn lemma_fields_nonempty(s: Seq<char>, separator: char)
    ensures
        fields(s, separator).len() >= 1,
    decreases s.len(),
{
    if s.len() > 0 {
        lemma_fields_nonempty(s.drop_last(), separator);
    }
}

/// The characters of a text.
fn chars_of(s: &str) -> (r: Vec<char>)
    ensures
        r@ == s@,
{
    let n: usize = s.unicode_len();
    let mut r: Vec<char> = Vec::new();
    let mut i: usize = 0;
    while i < n
        invariant
            i <= n,
            n == s@.len(),
            r@ == s@.take(i as int),
        decreases n - i,
    {
        r.push(s.get_char(i));
        i += 1;
    }
    r
}

/// Reads the number between two positions of a text.
fn parse_between(s: &Vec<char>, from: usize, to: usize, max: u64) -> (r: Option<u64>)
    requires
        from <= to <= s@.len(),
    ensures
        r is Some <==> decimal_up_to(s@.subrange(from as int, to as int), max as nat) is Some,
        r is Some ==> r->0 == decimal_up_to(s@.subrange(from as int, to as int), max as nat)->0,
{
    let ghost text = s@.subrange(from as int, to as int);
    let ghost digits = unsigned(text);
    let mut start: usize = from;
    if from < to && s[from] == '+' {
        start = from + 1;
    }
    assert(digits == s@.subrange(start as int, to as int));
    if start == to {
        return None;
    }
    let mut value: u64 = 0;
    let mut i: usize = start;
    while i < to
        invariant
            start <= i <= to <= s@.len(),
            start < to,
            text == s@.subrange(from as int, to as int),
            digits == unsigned(text),
            digits == s@.subrange(start as int, to as int),
            forall|k: int| 0 <= k < i - start ==> is_digit(#[trigger] digits[k]),
            value == digits_value(digits.take(i - start)),
            value <= max,
        decreases to - i,
    {
        let c = s[i];
        assert(digits[i - start] == c);
        if c < '0' || c > '9' {
            return None;
        }
        let digit: u64 = (c as u32 - '0' as u32) as u64;
        let ghost taken = digits.take(i - start + 1);
        assert(taken.drop_last() == digits.take(i - start));
        assert(digits_value(taken) == value * 10 + digit);
        if digit > max || value > (max - digit) / 10 {
            proof {
                if forall|k: int| 0 <= k < digits.len() ==> is_digit(#[trigger] digits[k]) {
                    lemma_digits_value_grows(digits, i - start + 1);
                }
            }
            return None;
        }
        value = value * 10 + digit;
        i += 1;
    }
    assert(digits.take(to - start) == digits);
    Some(value)
}

/// Reads a port number.
pub fn parse_port(s: &str) -> (r: Option<u16>)
    ensures
        r is Some <==> decimal_up_to(s@, 65535) is Some,
        r is Some ==> r->0 == decimal_up_to(s@, 65535)->0,
{
    let chars = chars_of(s);
    assert(chars@.subrange(0, chars@.len() as int) == s@);
    match parse_between(&chars, 0, chars.len(), 65535) {
        Some(port) => Some(port as u16),
        None => None,
    }
}

/// Reads the time between two messages, in milliseconds.
pub fn parse_interval(s: &str) -> (r: Option<u64>)
    ensures
        r is Some <==> decimal_up_to(s@, u64::MAX as nat) is Some,
        r is Some ==> r->0 == decimal_up_to(s@, u64::MAX as nat)->0,
{
    let chars = chars_of(s);
    assert(chars@.subrange(0, chars@.len() as int) == s@);
    parse_between(&chars, 0, chars.len(), u64::MAX)
}

/// How long the other side may be silent, in milliseconds, when it is to send a
/// message every `interval` milliseconds: ten times as long, where that is a
/// number of 64 bits.
pub fn silence_millis(interval: u64) -> (r: Option<u64>)
    ensures
        r is Some <==> interval * 10 <= u64::MAX,
        r is Some ==> r->0 == interval * 10,
{
    interval.checked_mul(10)
}

/// Whether the first `n` fields are numbers of a byte, which `bytes` holds.
spec fn fields_read(parts: Seq<Seq<char>>, bytes: Seq<u8>, n: int) -> bool {
    &&& 0 <= n <= 4
    &&& bytes.len() == 4
    &&& forall|k: int|
        #![trigger parts[k]]
        #![trigger bytes[k]]
        0 <= k < n ==> decimal_up_to(parts[k], 255) == Some(bytes[k] as nat)
    &&& forall|k: int| n <= k < 4 ==> bytes[k] == 0
}

/// Reads the address of the server.
pub fn parse_ip(s: &str) -> (r: Option<[u8; 4]>)
    ensures
        r is Some <==> dotted(s@) is Some,
        r is Some ==> r->0@ == dotted(s@)->0,
{
    let chars = chars_of(s);
    let n: usize = chars.len();
    let mut bytes: [u8; 4] = [0u8;4];
    let mut count: usize = 0;
    let mut start: usize = 0;
    let mut i: usize = 0;
    loop
        invariant
            chars@ == s@,
            n == s@.len(),
            start <= i <= n,
            fields(s@.take(i as int), '.').len() == count + 1,
            fields(s@.take(i as int), '.').last() == s@.subrange(start as int, i as int),
            fields_read(fields(s@.take(i as int), '.'), bytes@, count as int),
        decreases n - i,
    {
        let ghost parts = fields(s@.take(i as int), '.');
        proof {
            lemma_fields_stay(s@, '.', i as int);
            assert(s@.take(n as int) == s@);
            if i < n {
                assert(s@.take(i + 1).drop_last() == s@.take(i as int));
            }
        }
        if i == n || chars[i] == '.' {
            let field = parse_between(&chars, start, i, 255);
            assert(fields(s@, '.')[count as int] == s@.subrange(start as int, i as int));
            if count >= 4 || field.is_none() {
                return None;
            }
            bytes[count] = field.unwrap() as u8;
            count += 1;
            if i == n {
                return Some(bytes);
            }
            start = i + 1;
        }
        i += 1;
    }
}

} // verus!

use laser_tank::settings::{parse_interval, parse_ip, parse_port, silence_millis};

#[test]
fn ports_parse_as_in_std() {
    for s in [
        "0", "80", "65535", "65536", "+7", "+", "", "-1", "-0", "007", "00000000000000000000001", " 1",
        "1 ", "1_0", "0x10", "99999999999999999999999", "１",
    ] {
        assert_eq!(parse_port(s), s.parse::<u16>().ok(), "{:?}", s);
    }
}

#[test]
fn intervals_parse_as_in_std() {
    for s in ["100", "18446744073709551615", "18446744073709551616", "", "+5", "++5", "5+", "a"] {
        assert_eq!(parse_interval(s), s.parse::<u64>().ok(), "{:?}", s);
    }
}

#[test]
fn dotted_addresses() {
    assert_eq!(parse_ip("192.168.0.17"), Some([192, 168, 0, 17]));
    assert_eq!(parse_ip("+1.02.003.4"), Some([1, 2, 3, 4]));
    assert_eq!(parse_ip("10.1"), Some([10, 1, 0, 0]));
    assert_eq!(parse_ip("7"), Some([7, 0, 0, 0]));
}

#[test]
fn bad_addresses_are_refused() {
    for s in ["", ".", "1.2.3.", ".1.2.3", "1..2.3", "256.0.0.1", "1.2.3.4.5", "a.b.c.d", "1.2.3.4 "] {
        assert_eq!(parse_ip(s), None, "{:?}", s);
    }
}

#[test]
fn silence_is_ten_intervals() {
    assert_eq!(silence_millis(0), Some(0));
    assert_eq!(silence_millis(50), Some(500));
    assert_eq!(silence_millis(u64::MAX / 10), Some(u64::MAX / 10 * 10));
    assert_eq!(silence_millis(u64::MAX / 10 + 1), None);
}

use cortex::error::CortexError;
use cortex::numbers::{decimal_text, pid_from_text, port_from_text, uptime_parts};

#[test]
fn pid_text_is_trimmed_and_parsed() {
    assert_eq!(pid_from_text("1234"), Some(1234));
    assert_eq!(pid_from_text("  42\n"), Some(42));
    assert_eq!(pid_from_text("+7"), Some(7));
    assert_eq!(pid_from_text("4294967295"), Some(u32::MAX));
}

#[test]
fn pid_text_rejected() {
    assert_eq!(pid_from_text(""), None);
    assert_eq!(pid_from_text("   "), None);
    assert_eq!(pid_from_text("-1"), None);
    assert_eq!(pid_from_text("12a"), None);
    assert_eq!(pid_from_text("+"), None);
    assert_eq!(pid_from_text("4294967296"), None);
    assert_eq!(pid_from_text("1 2"), None);
}

#[test]
fn port_text_parsed() {
    assert_eq!(port_from_text("9723\n").unwrap(), 9723);
    assert_eq!(port_from_text("65535").unwrap(), 65535);
}

#[test]
fn port_text_rejected_with_config_error() {
    for bad in ["65536", "", "port", "80.0"] {
        match port_from_text(bad) {
            Err(CortexError::Config(m)) => assert_eq!(m, "Invalid port in socket file"),
            _ => panic!("{bad:?} is no port"),
        }
    }
}

#[test]
fn decimal_text_writes_to_string() {
    assert_eq!(decimal_text(0), "0");
    assert_eq!(decimal_text(7), "7");
    assert_eq!(decimal_text(9723), "9723");
    assert_eq!(decimal_text(u64::MAX), u64::MAX.to_string());
}

#[test]
fn decimal_text_reads_back() {
    for n in [0u32, 1, 10, 99, 4242, u32::MAX] {
        assert_eq!(pid_from_text(&decimal_text(n as u64)), Some(n));
    }
    for p in [0u16, 80, 9723, u16::MAX] {
        assert_eq!(port_from_text(&decimal_text(p as u64)).unwrap(), p);
    }
}

#[test]
fn uptime_split() {
    assert_eq!(uptime_parts(0), (0, 0, 0));
    assert_eq!(uptime_parts(59), (0, 0, 59));
    assert_eq!(uptime_parts(3661), (1, 1, 1));
    assert_eq!(uptime_parts(86399), (23, 59, 59));
    let (h, m, s) = uptime_parts(123456);
    assert_eq!(h * 3600 + m * 60 + s, 123456);
}

use gochu_core::bus::{bus_file_address, is_bus_file_for, newest_index};

fn address(s: &str) -> Option<String> {
    let chars: Vec<char> = s.chars().collect();
    bus_file_address(&chars)
}

#[test]
fn bus_file_plain_address() {
    let file = "# This file is created by ibus-daemon, please do not modify it.\n\
                IBUS_ADDRESS=unix:path=/home/u/.cache/ibus/dbus-XYZ,guid=abc\n\
                IBUS_DAEMON_PID=1234\n";
    assert_eq!(
        address(file),
        Some("unix:path=/home/u/.cache/ibus/dbus-XYZ,guid=abc".to_string())
    );
}

#[test]
fn bus_file_quoted_address() {
    assert_eq!(address("IBUS_ADDRESS='unix:abstract=/tmp/x'\n"), Some("unix:abstract=/tmp/x".to_string()));
    assert_eq!(address("IBUS_ADDRESS=\"unix:path=/a\"\""), Some("unix:path=/a".to_string()));
    assert_eq!(address("IBUS_ADDRESS=''"), Some(String::new()));
}

#[test]
fn bus_file_crlf_and_last_line() {
    assert_eq!(address("A=1\r\nIBUS_ADDRESS=x\r\nB=2"), Some("x".to_string()));
    assert_eq!(address("A=1\nIBUS_ADDRESS=y"), Some("y".to_string()));
    assert_eq!(address("IBUS_ADDRESS=z\r"), Some("z\r".to_string()));
}

#[test]
fn bus_file_first_address_wins() {
    assert_eq!(address("IBUS_ADDRESS=one\nIBUS_ADDRESS=two\n"), Some("one".to_string()));
}

#[test]
fn bus_file_without_address() {
    assert_eq!(address(""), None);
    assert_eq!(address("IBUS_DAEMON_PID=1\n\n"), None);
    assert_eq!(address("  IBUS_ADDRESS=x\n"), None);
    assert_eq!(address("IBUS_ADDRES=x\n"), None);
}

#[test]
fn bus_file_for_machine() {
    let id: Vec<char> = "0123abcd".chars().collect();
    let name: Vec<char> = "0123abcd-unix-wayland-0".chars().collect();
    let other: Vec<char> = "ffff-unix-0".chars().collect();
    assert!(is_bus_file_for(&name, &id));
    assert!(!is_bus_file_for(&other, &id));
    assert!(!is_bus_file_for(&['0'], &id));
}

#[test]
fn newest_bus_file() {
    assert_eq!(newest_index(&[]), None);
    assert_eq!(newest_index(&[7]), Some(0));
    assert_eq!(newest_index(&[3, 5, 5, 1]), Some(1));
    assert_eq!(newest_index(&[9, 2, 9]), Some(0));
}

#[test]
fn machine_id_is_trimmed() {
    let id = |s: &str| -> Option<String> {
        let c: Vec<char> = s.chars().collect();
        gochu_core::bus::machine_id(&c)
    };
    assert_eq!(id("0123abcd\n"), Some("0123abcd".to_string()));
    assert_eq!(id("  \t0123 abcd \r\n"), Some("0123 abcd".to_string()));
    assert_eq!(id("\n\n"), None);
    assert_eq!(id(""), None);
    assert_eq!(id("\u{3000}x\u{a0}"), Some("x".to_string()));
}

#[test]
fn newest_bus_file_before_epoch() {
    assert_eq!(newest_index(&[-5, -2, -9]), Some(1));
    assert_eq!(newest_index(&[-1, 0]), Some(1));
}

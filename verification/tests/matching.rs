use tty_driver::driver::decode_dev;
use tty_driver::TtyDriver;

fn driver(path: &str, major: i32, minor_start: i32, minor_end: i32) -> TtyDriver {
    TtyDriver {
        path: String::from(path),
        major,
        minor_start,
        minor_end,
    }
}

#[test]
fn decode_packed_1280() {
    assert_eq!(decode_dev(1280), (5, 0));
}

#[test]
fn decode_packed_pty() {
    // major 136, minor 3
    assert_eq!(decode_dev(34819), (136, 3));
}

#[test]
fn decode_zero() {
    assert_eq!(decode_dev(0), (0, 0));
}

#[test]
fn matcher_picks_covering_range() {
    let drivers = vec![
        driver("/dev/tty", 4, 1, 63),
        driver("/dev/ttyS", 4, 64, 95),
    ];
    let hit = TtyDriver::match_drivers_to_tty_nr(drivers, 4, 70).unwrap();
    assert_eq!(hit.path, "/dev/ttyS");
    assert_eq!(hit.minor_start, 64);
    assert_eq!(hit.minor_end, 95);
}

#[test]
fn matcher_returns_none_without_cover() {
    let drivers = vec![
        driver("/dev/tty", 4, 1, 63),
        driver("/dev/ttyS", 4, 64, 95),
    ];
    assert!(TtyDriver::match_drivers_to_tty_nr(drivers, 5, 0).is_none());
    let drivers = vec![driver("/dev/tty", 4, 1, 63)];
    assert!(TtyDriver::match_drivers_to_tty_nr(drivers, 4, 0).is_none());
}

#[test]
fn matcher_keeps_declaration_order() {
    // an overlapping catch-all before a more specific range: the first wins
    let drivers = vec![
        driver("/dev/tty", 4, 0, 255),
        driver("/dev/ttyS", 4, 64, 95),
    ];
    let hit = TtyDriver::match_drivers_to_tty_nr(drivers, 4, 70).unwrap();
    assert_eq!(hit.path, "/dev/tty");
}

#[test]
fn matcher_on_empty_table() {
    assert!(TtyDriver::match_drivers_to_tty_nr(Vec::new(), 4, 1).is_none());
}

#[test]
fn tty_nr_reserved_pid_fails_fast() {
    let stat = Some(String::from("1 (init) S 0 1 1 1280 1"));
    assert_eq!(TtyDriver::get_tty_nr_for_pid(-1, &stat), None);
}

#[test]
fn tty_nr_unreadable_record() {
    assert_eq!(TtyDriver::get_tty_nr_for_pid(1234, &None), None);
}

#[test]
fn tty_nr_reads_seventh_field() {
    let stat = Some(String::from("1234 (bash) S 1 1234 1234 34819 5678 0 0"));
    assert_eq!(TtyDriver::get_tty_nr_for_pid(1234, &stat), Some((136, 3)));
}

#[test]
fn tty_nr_short_record() {
    let stat = Some(String::from("1234 (bash) S 1 1234 1234"));
    assert_eq!(TtyDriver::get_tty_nr_for_pid(1234, &stat), None);
}

#[test]
fn tty_nr_unparsable_field() {
    let stat = Some(String::from("1234 (bash) S 1 1234 1234 x 5678"));
    assert_eq!(TtyDriver::get_tty_nr_for_pid(1234, &stat), None);
}

#[test]
fn tty_nr_negative_field_passes_through() {
    // bitwise shift/mask on the native signed value, unguarded
    let stat = Some(String::from("9 (x) S 1 9 9 -1 0"));
    assert_eq!(TtyDriver::get_tty_nr_for_pid(9, &stat), Some((-1 >> 8, -1 & 0xff)));
}

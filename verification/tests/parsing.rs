use tty_driver::num::{i32_to_dec_string, parse_i32};
use tty_driver::text::{split_lines, split_on_char, split_whitespace_fields, str_eq};
use tty_driver::TtyDriver;

#[test]
fn it_works() {
    let result = 2 + 2;
    assert_eq!(result, 4);
}

#[test]
fn minor_range_single() {
    assert_eq!(TtyDriver::parse_minor_range("5"), Some((5, 5)));
}

#[test]
fn minor_range_pair() {
    assert_eq!(TtyDriver::parse_minor_range("0-255"), Some((0, 255)));
}

#[test]
fn minor_range_bad() {
    assert_eq!(TtyDriver::parse_minor_range("bad"), None);
}

#[test]
fn minor_range_three_parts() {
    assert_eq!(TtyDriver::parse_minor_range("1-2-3"), None);
}

#[test]
fn minor_range_empty_bound() {
    assert_eq!(TtyDriver::parse_minor_range("5-"), None);
    assert_eq!(TtyDriver::parse_minor_range("-5"), None);
    assert_eq!(TtyDriver::parse_minor_range(""), None);
}

#[test]
fn minor_range_wide_pty_range() {
    assert_eq!(TtyDriver::parse_minor_range("0-1048575"), Some((0, 1048575)));
}

#[test]
fn parse_pty_slave_line() {
    let drivers = TtyDriver::parse_tty_drivers("pty_slave            /dev/pts      136 0-1048575 pty:slave");
    assert_eq!(drivers.len(), 1);
    assert_eq!(drivers[0].path, "/dev/pts");
    assert_eq!(drivers[0].major, 136);
    assert_eq!(drivers[0].minor_start, 0);
    assert_eq!(drivers[0].minor_end, 1048575);
}

#[test]
fn short_line_skipped_not_fatal() {
    let raw = "serial               /dev/ttyS       4 64-95 serial\nbroken line\npty_slave            /dev/pts      136 0-1048575 pty:slave\n";
    let drivers = TtyDriver::parse_tty_drivers(raw);
    assert_eq!(drivers.len(), 2);
    assert_eq!(drivers[0].path, "/dev/ttyS");
    assert_eq!(drivers[0].major, 4);
    assert_eq!(drivers[1].path, "/dev/pts");
    assert_eq!(drivers[1].major, 136);
}

#[test]
fn unparsable_major_skipped() {
    let raw = "name /dev/x abc 0-5 extra\nserial /dev/ttyS 4 64-95 serial";
    let drivers = TtyDriver::parse_tty_drivers(raw);
    assert_eq!(drivers.len(), 1);
    assert_eq!(drivers[0].path, "/dev/ttyS");
}

#[test]
fn bad_minor_spec_skipped() {
    let raw = "name /dev/x 7 1-2-3 extra";
    let drivers = TtyDriver::parse_tty_drivers(raw);
    assert_eq!(drivers.len(), 0);
}

#[test]
fn empty_registry_is_no_drivers() {
    assert_eq!(TtyDriver::parse_tty_drivers("").len(), 0);
}

#[test]
fn registry_order_is_kept() {
    let raw = "a /dev/tty 5 0 x\nb /dev/vc/0 4 0 x\nc /dev/ttyS 4 64-95 x";
    let drivers = TtyDriver::parse_tty_drivers(raw);
    assert_eq!(drivers.len(), 3);
    assert_eq!(drivers[0].path, "/dev/tty");
    assert_eq!(drivers[1].path, "/dev/vc/0");
    assert_eq!(drivers[2].path, "/dev/ttyS");
}

#[test]
fn parse_i32_plain_values() {
    assert_eq!(parse_i32("0"), Some(0));
    assert_eq!(parse_i32("136"), Some(136));
    assert_eq!(parse_i32("+7"), Some(7));
    assert_eq!(parse_i32("-12"), Some(-12));
}

#[test]
fn parse_i32_limits() {
    assert_eq!(parse_i32("2147483647"), Some(i32::MAX));
    assert_eq!(parse_i32("2147483648"), None);
    assert_eq!(parse_i32("-2147483648"), Some(i32::MIN));
    assert_eq!(parse_i32("-2147483649"), None);
    assert_eq!(parse_i32("99999999999999999999"), None);
}

#[test]
fn parse_i32_rejects_junk() {
    assert_eq!(parse_i32(""), None);
    assert_eq!(parse_i32("+"), None);
    assert_eq!(parse_i32("-"), None);
    assert_eq!(parse_i32("12a"), None);
    assert_eq!(parse_i32(" 12"), None);
    assert_eq!(parse_i32("--5"), None);
}

#[test]
fn dec_string_formats_like_display() {
    assert_eq!(i32_to_dec_string(0), "0");
    assert_eq!(i32_to_dec_string(3), "3");
    assert_eq!(i32_to_dec_string(136), "136");
    assert_eq!(i32_to_dec_string(-5), "-5");
    assert_eq!(i32_to_dec_string(i32::MAX), "2147483647");
    assert_eq!(i32_to_dec_string(i32::MIN), "-2147483648");
}

#[test]
fn whitespace_fields() {
    let fields = split_whitespace_fields("  pty_slave \t /dev/pts   136 0-1048575 pty:slave ");
    assert_eq!(
        fields,
        vec!["pty_slave", "/dev/pts", "136", "0-1048575", "pty:slave"]
    );
    assert_eq!(split_whitespace_fields("").len(), 0);
    assert_eq!(split_whitespace_fields(" \t\n ").len(), 0);
}

#[test]
fn split_on_char_keeps_empty_pieces() {
    assert_eq!(split_on_char("0-255", '-'), vec!["0", "255"]);
    assert_eq!(split_on_char("1-2-3", '-'), vec!["1", "2", "3"]);
    assert_eq!(split_on_char("-5", '-'), vec!["", "5"]);
    assert_eq!(split_on_char("5-", '-'), vec!["5", ""]);
    assert_eq!(split_on_char("", '-'), vec![""]);
}

#[test]
fn lines_like_std() {
    assert_eq!(split_lines("foo\r\nbar\n\nbaz\r"), vec!["foo", "bar", "", "baz\r"]);
    assert_eq!(split_lines("a\nb\n"), vec!["a", "b"]);
    assert_eq!(split_lines("a\nb"), vec!["a", "b"]);
    assert_eq!(split_lines("").len(), 0);
    assert_eq!(split_lines("\n"), vec![""]);
}

#[test]
fn str_eq_is_exact() {
    assert!(str_eq("/dev/pts/3", "/dev/pts/3"));
    assert!(!str_eq("/dev/pts/3", "/dev/pts3"));
    assert!(!str_eq("", "a"));
    assert!(str_eq("", ""));
}

use tty_driver::{find_tty_for_pid, DevNode, ProcSnapshot, TtyDriver};

fn node(path: &str, rdev: i32) -> DevNode {
    DevNode {
        path: String::from(path),
        rdev,
    }
}

// rdev of a node with major 136, minor 3 under the legacy convention
fn pty3() -> i32 {
    (136 << 8) | 3
}

#[test]
fn candidate_paths_both_shapes() {
    let (first, second) = TtyDriver::candidate_paths("/dev/pts", 3);
    assert_eq!(first, "/dev/pts/3");
    assert_eq!(second, "/dev/pts3");
}

#[test]
fn verify_needs_existing_node() {
    let nodes = vec![node("/dev/pts/3", pty3())];
    assert!(TtyDriver::verify_tty_path(&nodes, "/dev/pts/3", 136, 3));
    assert!(!TtyDriver::verify_tty_path(&nodes, "/dev/pts3", 136, 3));
}

#[test]
fn verify_needs_matching_identity() {
    let nodes = vec![node("/dev/pts/3", (136 << 8) | 4)];
    assert!(!TtyDriver::verify_tty_path(&nodes, "/dev/pts/3", 136, 3));
    let nodes = vec![node("/dev/pts/3", (137 << 8) | 3)];
    assert!(!TtyDriver::verify_tty_path(&nodes, "/dev/pts/3", 136, 3));
}

#[test]
fn first_candidate_wins_when_both_verify() {
    let nodes = vec![node("/dev/pts3", pty3()), node("/dev/pts/3", pty3())];
    let got = TtyDriver::guess_tty_path(&nodes, "/dev/pts", 136, 3).unwrap();
    assert_eq!(got, "/dev/pts/3");
}

#[test]
fn second_candidate_when_first_absent() {
    let nodes = vec![node("/dev/pts3", pty3())];
    let got = TtyDriver::guess_tty_path(&nodes, "/dev/pts", 136, 3).unwrap();
    assert_eq!(got, "/dev/pts3");
}

#[test]
fn second_candidate_when_first_fails_verification() {
    // the first candidate exists but carries another identity
    let nodes = vec![node("/dev/pts/3", (4 << 8) | 1), node("/dev/pts3", pty3())];
    let got = TtyDriver::guess_tty_path(&nodes, "/dev/pts", 136, 3).unwrap();
    assert_eq!(got, "/dev/pts3");
}

#[test]
fn guess_fails_when_nothing_verifies() {
    let nodes = vec![node("/dev/pts/4", pty3())];
    assert!(TtyDriver::guess_tty_path(&nodes, "/dev/pts", 136, 3).is_none());
}

fn fixture() -> ProcSnapshot {
    ProcSnapshot {
        stat_line: Some(String::from("1234 (bash) S 1 1234 1234 34819 5678 0 0")),
        tty_drivers: Some(String::from(
            "/dev/tty             /dev/tty        5       0 system:/dev/tty\nserial               /dev/ttyS       4 64-95 serial\npty_slave            /dev/pts      136 0-1048575 pty:slave\n",
        )),
        nodes: vec![node("/dev/pts/3", pty3())],
    }
}

#[test]
fn end_to_end_resolves_pty() {
    let got = find_tty_for_pid(1234, &fixture()).unwrap();
    assert_eq!(got, "/dev/pts/3");
}

#[test]
fn end_to_end_reserved_pid() {
    assert!(find_tty_for_pid(-1, &fixture()).is_none());
}

#[test]
fn end_to_end_unreadable_stat() {
    let mut fs = fixture();
    fs.stat_line = None;
    assert!(find_tty_for_pid(1234, &fs).is_none());
}

#[test]
fn end_to_end_missing_registry() {
    let mut fs = fixture();
    fs.tty_drivers = None;
    assert!(find_tty_for_pid(1234, &fs).is_none());
}

#[test]
fn end_to_end_no_node() {
    let mut fs = fixture();
    fs.nodes = Vec::new();
    assert!(find_tty_for_pid(1234, &fs).is_none());
}

#[test]
fn end_to_end_method_and_free_function_agree() {
    let fs = fixture();
    assert_eq!(
        TtyDriver::find_tty_for_pid(1234, &fs),
        find_tty_for_pid(1234, &fs)
    );
}

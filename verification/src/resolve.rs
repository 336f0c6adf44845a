//! Path resolution: building the two candidate paths for a matched driver,
//! verifying a candidate against device-node identity metadata, and the whole
//! pipeline over a snapshot of the process and filesystem metadata it reads.

use crate::driver;
use crate::driver::TtyDriver;
use crate::num;
use crate::text;
use vstd::prelude::*;
use vstd::string::StringExecFns;

verus! {

/// A device node as the resolver sees it: its path and its packed device
/// number, the `rdev` identity metadata a stat of the node reports.
pub struct DevNode {
    pub path: String,
    pub rdev: i32,
}

/// The mathematical content of a [`DevNode`].
pub struct DevNodeView {
    pub path: Seq<char>,
    pub rdev: i32,
}

impl View for DevNode {
    type V = DevNodeView;

    open spec fn view(&self) -> DevNodeView {
        DevNodeView { path: self.path@, rdev: self.rdev }
    }
}

pub open spec fn node_views(ns: Seq<DevNode>) -> Seq<DevNodeView> {
    ns.map_values(|n: DevNode| n@)
}

pub open spec fn opt_view(r: Option<String>) -> Option<Seq<char>> {
    match r {
        Some(s) => Some(s@),
        None => None,
    }
}

/// The packed device number of the first node with the given path, or nothing
/// when no node has it (the path does not exist).
pub open spec fn node_rdev(ns: Seq<DevNodeView>, path: Seq<char>) -> Option<i32>
    decreases ns.len(),
{
    if ns.len() == 0 {
        None
    } else if ns[0].path == path {
        Some(ns[0].rdev)
    } else {
        node_rdev(ns.skip(1), path)
    }
}

/// Whether a packed device number decodes to the target major and minor, by
/// the same legacy convention the decoder uses.
pub open spec fn rdev_matches(rdev: i32, tty_major: i32, tty_minor: i32) -> bool {
    rdev >> 8 == tty_major && rdev & 0xff == tty_minor
}

/// A candidate verifies when its node exists and the node's identity decodes
/// exactly to the target device number.
pub open spec fn verify_path_spec(
    ns: Seq<DevNodeView>,
    path: Seq<char>,
    tty_major: i32,
    tty_minor: i32,
) -> bool {
    match node_rdev(ns, path) {
        Some(rdev) => rdev_matches(rdev, tty_major, tty_minor),
        None => false,
    }
}

/// The first candidate: the prefix joined with the minor number as a separate
/// path segment.
pub open spec fn candidate_sep(prefix: Seq<char>, tty_minor: i32) -> Seq<char> {
    prefix + seq!['/'] + num::i32_dec_chars(tty_minor)
}

/// The second candidate: the minor number appended directly to the prefix.
pub open spec fn candidate_cat(prefix: Seq<char>, tty_minor: i32) -> Seq<char> {
    prefix + num::i32_dec_chars(tty_minor)
}

/// What the resolver returns: the first candidate when it verifies, else the
/// second when that verifies, else nothing.
pub open spec fn guess_spec(
    ns: Seq<DevNodeView>,
    prefix: Seq<char>,
    tty_major: i32,
    tty_minor: i32,
) -> Option<Seq<char>> {
    if verify_path_spec(ns, candidate_sep(prefix, tty_minor), tty_major, tty_minor) {
        Some(candidate_sep(prefix, tty_minor))
    } else if verify_path_spec(ns, candidate_cat(prefix, tty_minor), tty_major, tty_minor) {
        Some(candidate_cat(prefix, tty_minor))
    } else {
        None
    }
}

/// A snapshot of everything one resolution reads: the contents of the process
/// status record and of the driver registry (`None` where unreadable), and
/// the device nodes the candidate paths may name, each with its packed device
/// number.
pub struct ProcSnapshot {
    pub stat_line: Option<String>,
    pub tty_drivers: Option<String>,
    pub nodes: Vec<DevNode>,
}

/// The mathematical content of a [`ProcSnapshot`].
pub struct ProcSnapshotView {
    pub stat_line: Option<Seq<char>>,
    pub tty_drivers: Option<Seq<char>>,
    pub nodes: Seq<DevNodeView>,
}

impl View for ProcSnapshot {
    type V = ProcSnapshotView;

    open spec fn view(&self) -> ProcSnapshotView {
        ProcSnapshotView {
            stat_line: driver::opt_chars(self.stat_line),
            tty_drivers: driver::opt_chars(self.tty_drivers),
            nodes: node_views(self.nodes@),
        }
    }
}

/// The registry records of a snapshot: an unreadable registry yields zero
/// records, not an error.
pub open spec fn drivers_in_snapshot(raw: Option<Seq<char>>) -> Seq<driver::TtyDriverView> {
    match raw {
        None => Seq::<driver::TtyDriverView>::empty(),
        Some(txt) => driver::parse_drivers_spec(txt),
    }
}

/// The result of the whole pipeline: decode, parse, match, then guess and
/// verify, each stage short-circuiting to nothing on failure.
pub open spec fn find_tty_spec(pid: i32, fs: ProcSnapshotView) -> Option<Seq<char>> {
    match driver::tty_nr_for_pid_spec(pid, fs.stat_line) {
        None => None,
        Some(nr) => match driver::match_spec(drivers_in_snapshot(fs.tty_drivers), nr.0, nr.1) {
            None => None,
            Some(d) => guess_spec(fs.nodes, d.path, nr.0, nr.1),
        },
    }
}

impl TtyDriver {
    /// Builds the two candidate paths for a path prefix and a minor number:
    /// first the prefix joined with the minor as a separate segment, then the
    /// minor appended directly.
    pub fn candidate_paths(path: &str, tty_minor: i32) -> (r: (String, String))
        ensures
            r.0@ == candidate_sep(path@, tty_minor),
            r.1@ == candidate_cat(path@, tty_minor),
    {
        let minor_str = num::i32_to_dec_string(tty_minor);
        let mut first = path.to_owned();
        proof {
            reveal_strlit("/");
        }
        first.append("/");
        first.append(minor_str.as_str());
        let mut second = path.to_owned();
        second.append(minor_str.as_str());
        proof {
            assert(first@ =~= candidate_sep(path@, tty_minor));
            assert(second@ =~= candidate_cat(path@, tty_minor));
        }
        (first, second)
    }

    /// Verifies a candidate path: its node must be present among `nodes` and
    /// the node's packed device number must decode to the target exactly.
    #[verifier::loop_isolation(false)]
    pub fn verify_tty_path(nodes: &Vec<DevNode>, path: &str, tty_major: i32, tty_minor: i32) -> (r:
        bool)
        ensures
            r == verify_path_spec(node_views(nodes@), path@, tty_major, tty_minor),
    {
        let ghost nv = node_views(nodes@);
        let mut idx: usize = 0;
        proof {
            assert(nv.skip(0) =~= nv);
        }
        while idx < nodes.len()
            invariant
                idx <= nodes@.len(),
                node_rdev(nv, path@) == node_rdev(nv.skip(idx as int), path@),
            decreases nodes@.len() - idx,
        {
            proof {
                assert(nv.skip(idx as int)[0] == nv[idx as int]);
                assert(nv.skip(idx as int).skip(1) =~= nv.skip(idx + 1));
                assert(nv[idx as int] == nodes@[idx as int]@);
            }
            if text::str_eq(nodes[idx].path.as_str(), path) {
                let dev = driver::decode_dev(nodes[idx].rdev);
                return dev.0 == tty_major && dev.1 == tty_minor;
            }
            idx += 1;
        }
        false
    }

    /// Guesses the concrete device path for a matched driver's prefix: the
    /// slash-joined candidate is tried first and returned the moment it
    /// verifies; only then is the directly concatenated candidate tried.
    pub fn guess_tty_path(nodes: &Vec<DevNode>, path: &str, tty_major: i32, tty_minor: i32) -> (r:
        Option<String>)
        ensures
            opt_view(r) == guess_spec(node_views(nodes@), path@, tty_major, tty_minor),
    {
        let candidates = Self::candidate_paths(path, tty_minor);
        let first = candidates.0;
        if Self::verify_tty_path(nodes, first.as_str(), tty_major, tty_minor) {
            return Some(first);
        }
        let second = candidates.1;
        if Self::verify_tty_path(nodes, second.as_str(), tty_major, tty_minor) {
            return Some(second);
        }
        None
    }

    /// The whole pipeline: decode the packed device number of the status
    /// record, parse the registry, match the decoded number against it, then
    /// guess and verify the concrete path. Any stage that fails ends the
    /// resolution with nothing.
    pub fn find_tty_for_pid(pid: i32, fs: &ProcSnapshot) -> (r: Option<String>)
        ensures
            opt_view(r) == find_tty_spec(pid, fs@),
    {
        let nr = match Self::get_tty_nr_for_pid(pid, &fs.stat_line) {
            Some(x) => x,
            None => {
                return None;
            },
        };
        let drivers = match &fs.tty_drivers {
            Some(raw) => Self::parse_tty_drivers(raw.as_str()),
            None => Vec::new(),
        };
        proof {
            if fs.tty_drivers is None {
                assert(driver::driver_views(Seq::<TtyDriver>::empty()) =~= Seq::<
                    driver::TtyDriverView,
                >::empty());
            }
        }
        let matched = match Self::match_drivers_to_tty_nr(drivers, nr.0, nr.1) {
            Some(d) => d,
            None => {
                return None;
            },
        };
        Self::guess_tty_path(&fs.nodes, matched.path.as_str(), nr.0, nr.1)
    }
}

// ---------- laws ----------

/// First candidate wins: when the slash-joined candidate verifies, the
/// resolver returns it, whatever the directly concatenated candidate would
/// have done.
pub proof fn lemma_first_candidate_wins(
    ns: Seq<DevNodeView>,
    prefix: Seq<char>,
    tty_major: i32,
    tty_minor: i32,
)
    requires
        verify_path_spec(ns, candidate_sep(prefix, tty_minor), tty_major, tty_minor),
    ensures
        guess_spec(ns, prefix, tty_major, tty_minor) == Some(candidate_sep(prefix, tty_minor)),
{
}

} // verus!

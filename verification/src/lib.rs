//! Resolution of the terminal device path that controls a process.
//!
//! The pipeline decodes a packed device number taken from a process status
//! record, parses the system's registered terminal-driver table, matches the
//! decoded number against that table, and picks the candidate path whose
//! device-node identity verifies against the target number.
//!
//! Every stage is a pure function over explicit inputs. The contents of the
//! status record, of the driver registry and of the relevant device nodes are
//! handed in as plain values (see [`ProcSnapshot`]), so a caller that reads
//! them from a live `/proc` stays outside this crate.

use vstd::prelude::*;

pub mod driver;
pub mod num;
pub mod resolve;
pub mod text;

pub use driver::TtyDriver;
pub use resolve::{DevNode, ProcSnapshot};

verus! {

/// Resolves the terminal path for the process `pid`, whose metadata is given
/// by `fs`. Returns `None` the instant any stage of the pipeline fails.
pub fn find_tty_for_pid(pid: i32, fs: &ProcSnapshot) -> (r: Option<String>)
    ensures
        resolve::opt_view(r) == resolve::find_tty_spec(pid, fs@),
{
    TtyDriver::find_tty_for_pid(pid, fs)
}

} // verus!

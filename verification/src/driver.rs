//! The terminal-driver registry: one record per registered driver, parsed
//! from the registry text, and the matcher that finds the record covering a
//! decoded device number.

use crate::num;
use crate::text;
use vstd::prelude::*;

verus! {

/// One line of the terminal-driver registry: a device path prefix, a major
/// number and an inclusive minor range.
#[derive(Debug, Clone)]
pub struct TtyDriver {
    pub path: String,
    pub major: i32,
    pub minor_start: i32,
    pub minor_end: i32,
}

/// The mathematical content of a [`TtyDriver`].
pub struct TtyDriverView {
    pub path: Seq<char>,
    pub major: i32,
    pub minor_start: i32,
    pub minor_end: i32,
}

impl View for TtyDriver {
    type V = TtyDriverView;

    open spec fn view(&self) -> TtyDriverView {
        TtyDriverView {
            path: self.path@,
            major: self.major,
            minor_start: self.minor_start,
            minor_end: self.minor_end,
        }
    }
}

pub open spec fn driver_views(ds: Seq<TtyDriver>) -> Seq<TtyDriverView> {
    ds.map_values(|d: TtyDriver| d@)
}

pub open spec fn opt_driver_view(r: Option<TtyDriver>) -> Option<TtyDriverView> {
    match r {
        Some(d) => Some(d@),
        None => None,
    }
}

// ---------- minor range ----------

/// What `parse_minor_range` returns: a single number `N` gives the range
/// `(N, N)`, a dash-separated pair `N-M` the range `(N, M)`, and any other
/// shape, or an unparsable bound, nothing.
pub open spec fn minor_range_spec(s: Seq<char>) -> Option<(i32, i32)> {
    let parts = text::split_on(s, '-');
    if parts.len() == 1 {
        match num::parse_i32_spec(parts[0]) {
            Some(start) => Some((start, start)),
            None => None,
        }
    } else if parts.len() == 2 {
        match num::parse_i32_spec(parts[0]) {
            Some(start) => match num::parse_i32_spec(parts[1]) {
                Some(end) => Some((start, end)),
                None => None,
            },
            None => None,
        }
    } else {
        None
    }
}

// ---------- one registry line ----------

/// The record of one registry line, when the line is well formed: at least
/// four whitespace fields, of which field 1 is the path prefix, field 2 the
/// major number and field 3 the minor specification.
pub open spec fn driver_of_line_spec(line: Seq<char>) -> Option<TtyDriverView> {
    let parts = text::split_ws(line);
    if parts.len() < 4 {
        None
    } else {
        match num::parse_i32_spec(parts[2]) {
            None => None,
            Some(major) => match minor_range_spec(parts[3]) {
                None => None,
                Some(range) => Some(
                    TtyDriverView {
                        path: parts[1],
                        major: major,
                        minor_start: range.0,
                        minor_end: range.1,
                    },
                ),
            },
        }
    }
}

/// The records of the well-formed lines, in line order; malformed lines are
/// skipped.
pub open spec fn drivers_of_lines(ls: Seq<Seq<char>>) -> Seq<TtyDriverView>
    decreases ls.len(),
{
    if ls.len() == 0 {
        Seq::<TtyDriverView>::empty()
    } else {
        let rest = drivers_of_lines(ls.skip(1));
        match driver_of_line_spec(ls[0]) {
            Some(d) => seq![d] + rest,
            None => rest,
        }
    }
}

/// The records of a whole registry text.
pub open spec fn parse_drivers_spec(raw: Seq<char>) -> Seq<TtyDriverView> {
    drivers_of_lines(text::lines_spec(raw))
}

// ---------- matching ----------

pub open spec fn driver_matches(d: TtyDriverView, tty_major: i32, tty_minor: i32) -> bool {
    d.major == tty_major && d.minor_start <= tty_minor <= d.minor_end
}

/// The first record in declaration order whose major equals the target major
/// and whose minor range contains the target minor.
pub open spec fn match_spec(ds: Seq<TtyDriverView>, tty_major: i32, tty_minor: i32) -> Option<
    TtyDriverView,
>
    decreases ds.len(),
{
    if ds.len() == 0 {
        None
    } else if driver_matches(ds[0], tty_major, tty_minor) {
        Some(ds[0])
    } else {
        match_spec(ds.skip(1), tty_major, tty_minor)
    }
}

/// The packed device-number field of a process status record: the seventh
/// whitespace-separated field, parsed as an `i32`.
pub open spec fn tty_nr_spec(stat: Seq<char>) -> Option<i32> {
    let fields = text::split_ws(stat);
    if fields.len() <= 6 {
        None
    } else {
        num::parse_i32_spec(fields[6])
    }
}

pub open spec fn opt_chars(s: Option<String>) -> Option<Seq<char>> {
    match s {
        Some(x) => Some(x@),
        None => None,
    }
}

/// What `get_tty_nr_for_pid` returns: nothing for the reserved process id -1
/// or an unreadable or malformed status record; otherwise the packed field
/// decoded into (major, minor).
pub open spec fn tty_nr_for_pid_spec(pid: i32, stat_line: Option<Seq<char>>) -> Option<(i32, i32)> {
    if pid == -1 {
        None
    } else {
        match stat_line {
            None => None,
            Some(stat) => match tty_nr_spec(stat) {
                None => None,
                Some(nr) => Some((nr >> 8, nr & 0xff)),
            },
        }
    }
}

/// Decodes a packed device number by the legacy convention: the major number
/// is the value shifted right by eight bits, the minor its low eight bits.
pub fn decode_dev(packed: i32) -> (r: (i32, i32))
    ensures
        r.0 == packed >> 8,
        r.1 == packed & 0xff,
{
    (packed >> 8, packed & 0xff)
}

impl TtyDriver {
    /// Parses a minor specification, either `"3"` or `"3-10"`, into an
    /// inclusive range.
    pub fn parse_minor_range(tty_minor: &str) -> (r: Option<(i32, i32)>)
        ensures
            r == minor_range_spec(tty_minor@),
    {
        let parts = text::split_on_char(tty_minor, '-');
        proof {
            assert(text::views_of(parts@).len() == parts@.len());
        }
        if parts.len() == 1 {
            proof {
                assert(text::views_of(parts@)[0] == parts@[0]@);
            }
            match num::parse_i32(parts[0].as_str()) {
                Some(start) => Some((start, start)),
                None => None,
            }
        } else if parts.len() == 2 {
            proof {
                assert(text::views_of(parts@)[0] == parts@[0]@);
                assert(text::views_of(parts@)[1] == parts@[1]@);
            }
            match num::parse_i32(parts[0].as_str()) {
                Some(start) => match num::parse_i32(parts[1].as_str()) {
                    Some(end) => Some((start, end)),
                    None => None,
                },
                None => None,
            }
        } else {
            None
        }
    }

    /// Parses one registry line into a record, or nothing when the line is
    /// malformed.
    pub fn parse_driver_line(line: &str) -> (r: Option<TtyDriver>)
        ensures
            opt_driver_view(r) == driver_of_line_spec(line@),
    {
        let parts = text::split_whitespace_fields(line);
        proof {
            assert(text::views_of(parts@).len() == parts@.len());
        }
        if parts.len() < 4 {
            return None;
        }
        proof {
            assert(text::views_of(parts@)[1] == parts@[1]@);
            assert(text::views_of(parts@)[2] == parts@[2]@);
            assert(text::views_of(parts@)[3] == parts@[3]@);
        }
        let major = match num::parse_i32(parts[2].as_str()) {
            Some(m) => m,
            None => {
                return None;
            },
        };
        let range = match Self::parse_minor_range(parts[3].as_str()) {
            Some(x) => x,
            None => {
                return None;
            },
        };
        Some(
            TtyDriver {
                path: parts[1].clone(),
                major: major,
                minor_start: range.0,
                minor_end: range.1,
            },
        )
    }

    /// Parses the whole registry text into records, in line order, skipping
    /// malformed lines.
    #[verifier::loop_isolation(false)]
    pub fn parse_tty_drivers(drivers_raw: &str) -> (r: Vec<TtyDriver>)
        ensures
            driver_views(r@) == parse_drivers_spec(drivers_raw@),
    {
        let lines = text::split_lines(drivers_raw);
        let ghost lv = text::views_of(lines@);
        let mut drivers: Vec<TtyDriver> = Vec::new();
        let mut idx: usize = 0;
        proof {
            assert(driver_views(drivers@) =~= Seq::<TtyDriverView>::empty());
            assert(lv.skip(0) =~= lv);
        }
        while idx < lines.len()
            invariant
                idx <= lines@.len(),
                drivers_of_lines(lv) == driver_views(drivers@) + drivers_of_lines(
                    lv.skip(idx as int),
                ),
            decreases lines@.len() - idx,
        {
            proof {
                assert(lv.skip(idx as int)[0] == lv[idx as int]);
                assert(lv.skip(idx as int).skip(1) =~= lv.skip(idx + 1));
                assert(lv[idx as int] == lines@[idx as int]@);
            }
            let ghost prev = drivers@;
            match Self::parse_driver_line(lines[idx].as_str()) {
                Some(d) => {
                    drivers.push(d);
                    proof {
                        assert(driver_views(drivers@) =~= driver_views(prev).push(d@));
                        assert(driver_views(prev) + (seq![d@] + drivers_of_lines(lv.skip(idx + 1)))
                            =~= driver_views(prev).push(d@) + drivers_of_lines(lv.skip(idx + 1)));
                    }
                },
                None => {},
            }
            idx += 1;
        }
        proof {
            assert(lv.skip(lines@.len() as int) =~= Seq::<Seq<char>>::empty());
            assert(driver_views(drivers@) + drivers_of_lines(lv.skip(lines@.len() as int))
                =~= driver_views(drivers@));
        }
        drivers
    }

    /// Returns the first record in declaration order that covers the target
    /// device number, or nothing when none does.
    #[verifier::loop_isolation(false)]
    pub fn match_drivers_to_tty_nr(drivers: Vec<TtyDriver>, tty_major: i32, tty_minor: i32) -> (r:
        Option<TtyDriver>)
        ensures
            opt_driver_view(r) == match_spec(driver_views(drivers@), tty_major, tty_minor),
    {
        let ghost dv = driver_views(drivers@);
        let mut drivers = drivers;
        let mut idx: usize = 0;
        proof {
            assert(dv.skip(0) =~= dv);
        }
        while idx < drivers.len()
            invariant
                idx <= drivers@.len(),
                dv == driver_views(drivers@),
                match_spec(dv, tty_major, tty_minor) == match_spec(
                    dv.skip(idx as int),
                    tty_major,
                    tty_minor,
                ),
            decreases drivers@.len() - idx,
        {
            proof {
                assert(dv.skip(idx as int)[0] == dv[idx as int]);
                assert(dv.skip(idx as int).skip(1) =~= dv.skip(idx + 1));
                assert(dv[idx as int] == drivers@[idx as int]@);
            }
            let covers = drivers[idx].major == tty_major && drivers[idx].minor_start <= tty_minor
                && tty_minor <= drivers[idx].minor_end;
            if covers {
                let d = drivers.remove(idx);
                return Some(d);
            }
            idx += 1;
        }
        None
    }

    /// Extracts and decodes the packed device number of the status record:
    /// nothing for the reserved process id -1, an absent record, a missing
    /// seventh field or an unparsable value.
    pub fn get_tty_nr_for_pid(pid: i32, stat_line: &Option<String>) -> (r: Option<(i32, i32)>)
        ensures
            r == tty_nr_for_pid_spec(pid, opt_chars(*stat_line)),
    {
        if pid == -1 {
            return None;
        }
        match stat_line {
            None => None,
            Some(stat) => {
                let fields = text::split_whitespace_fields(stat.as_str());
                proof {
                    assert(text::views_of(fields@).len() == fields@.len());
                }
                if fields.len() <= 6 {
                    return None;
                }
                proof {
                    assert(text::views_of(fields@)[6] == fields@[6]@);
                }
                match num::parse_i32(fields[6].as_str()) {
                    None => None,
                    Some(tty_nr) => Some(decode_dev(tty_nr)),
                }
            },
        }
    }
}

// ---------- laws ----------

/// A malformed line — one with fewer than four whitespace fields — yields no
/// record and does not disturb the records of the other lines, wherever in
/// the registry it stands.
pub proof fn lemma_short_line_skipped(ls: Seq<Seq<char>>, i: int, l: Seq<char>)
    requires
        0 <= i <= ls.len(),
        text::split_ws(l).len() < 4,
    ensures
        drivers_of_lines(ls.insert(i, l)) == drivers_of_lines(ls),
    decreases i,
{
    let w = ls.insert(i, l);
    if i == 0 {
        assert(w[0] == l);
        assert(driver_of_line_spec(l) is None);
        assert(w.skip(1) =~= ls);
    } else {
        assert(w[0] == ls[0]);
        assert(w.skip(1) =~= ls.skip(1).insert(i - 1, l));
        lemma_short_line_skipped(ls.skip(1), i - 1, l);
        assert(drivers_of_lines(w.skip(1)) == drivers_of_lines(ls.skip(1)));
    }
}

/// The matcher honours declaration order: a returned record covers the
/// target and no record before it does; `None` comes exactly when no record
/// covers the target.
pub proof fn lemma_match_spec_first(ds: Seq<TtyDriverView>, tty_major: i32, tty_minor: i32)
    ensures
        match match_spec(ds, tty_major, tty_minor) {
            Some(d) => exists|i: int|
                0 <= i < ds.len() && ds[i] == d && driver_matches(ds[i], tty_major, tty_minor) && (
                forall|j: int| 0 <= j < i ==> !driver_matches(ds[j], tty_major, tty_minor)),
            None => forall|i: int|
                0 <= i < ds.len() ==> !driver_matches(ds[i], tty_major, tty_minor),
        },
    decreases ds.len(),
{
    if ds.len() > 0 && !driver_matches(ds[0], tty_major, tty_minor) {
        let t = ds.skip(1);
        lemma_match_spec_first(t, tty_major, tty_minor);
        assert(forall|m: int| 0 <= m < t.len() ==> t[m] == ds[m + 1]);
        match match_spec(ds, tty_major, tty_minor) {
            Some(d) => {
                let i = choose|i: int|
                    0 <= i < t.len() && t[i] == d && driver_matches(t[i], tty_major, tty_minor) && (
                    forall|j: int| 0 <= j < i ==> !driver_matches(t[j], tty_major, tty_minor));
                assert(ds[i + 1] == d && driver_matches(ds[i + 1], tty_major, tty_minor));
                assert(forall|j: int|
                    0 < j < i + 1 ==> !driver_matches(
                        #[trigger] ds[j],
                        tty_major,
                        tty_minor,
                    )) by {
                    assert(forall|j: int| 0 < j < i + 1 ==> ds[j] == t[j - 1]);
                }
                assert(0 <= i + 1 < ds.len() && ds[i + 1] == d && driver_matches(
                    ds[i + 1],
                    tty_major,
                    tty_minor,
                ) && (forall|j: int|
                    0 <= j < i + 1 ==> !driver_matches(ds[j], tty_major, tty_minor)));
            },
            None => {
                assert(forall|i: int|
                    0 < i < ds.len() ==> !driver_matches(#[trigger] ds[i], tty_major, tty_minor))
                    by {
                    assert(forall|i: int| 0 < i < ds.len() ==> ds[i] == t[i - 1]);
                }
            },
        }
    }
}

} // verus!

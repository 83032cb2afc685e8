//! Parser for lines in the space mission log.
//!
//! A log line holds at least eight `|`-separated fields; the parser reads
//! the destination, status, duration and security code out of them and
//! rejects blank lines, comment lines and malformed records.

use vstd::prelude::*;

use crate::text::{parse_u64_str, parses_as_u64, split_char, split_str, str_views, trim, trim_str, u64_value};

verus! {

/// The mathematical content of a [`Mission`]: its four fields as plain
/// values.
pub ghost struct MissionView {
    pub destination: Seq<char>,
    pub status: Seq<char>,
    pub duration: u64,
    pub security_code: Seq<char>,
}

/// Represents a space mission with the minimal fields we care about.
#[derive(Debug, PartialEq, Eq)]
pub struct Mission {
    pub destination: String,
    pub status: String,
    pub duration: u64,
    pub security_code: String,
}

impl View for Mission {
    type V = MissionView;

    open spec fn view(&self) -> MissionView {
        MissionView {
            destination: self.destination@,
            status: self.status@,
            duration: self.duration,
            security_code: self.security_code@,
        }
    }
}

impl Clone for Mission {
    fn clone(&self) -> (r: Self)
        ensures
            r == *self,
    {
        Mission {
            destination: self.destination.clone(),
            status: self.status.clone(),
            duration: self.duration,
            security_code: self.security_code.clone(),
        }
    }
}

/// The record that a sequence of raw fields denotes: `None` when fewer
/// than eight fields are present or the trimmed duration field is not a
/// `u64` numeral, and otherwise the mission made of the trimmed
/// destination (field 2), status (field 3), duration (field 5) and
/// security code (field 7).
pub open spec fn spec_from_fields(fields: Seq<Seq<char>>) -> Option<MissionView> {
    if fields.len() < 8 {
        None
    } else if !parses_as_u64(trim(fields[5])) {
        None
    } else {
        Some(
            MissionView {
                destination: trim(fields[2]),
                status: trim(fields[3]),
                duration: u64_value(trim(fields[5])) as u64,
                security_code: trim(fields[7]),
            },
        )
    }
}

/// A line the parser ignores: blank once trimmed, or a comment opened
/// with `#`.
pub open spec fn line_is_ignored(line: Seq<char>) -> bool {
    trim(line).len() == 0 || trim(line)[0] == '#'
}

/// The record one raw line denotes: `None` for ignored or malformed
/// lines, and otherwise the record of its `|`-separated fields.
pub open spec fn spec_parse_line(line: Seq<char>) -> Option<MissionView> {
    if line_is_ignored(line) {
        None
    } else {
        spec_from_fields(split_char(trim(line), '|'))
    }
}

impl Mission {
    /// Creates a new `Mission` from a valid line split.
    /// The `line_split` must contain at least 8 fields in this order:
    ///  0 - Date
    ///  1 - Mission ID
    ///  2 - Destination
    ///  3 - Status
    ///  4 - Crew Size
    ///  5 - Duration (days)
    ///  6 - Success Rate
    ///  7 - Security Code
    pub fn from_line_split(line_split: &[&str]) -> (r: Option<Mission>)
        ensures
            match r {
                Some(m) => spec_from_fields(str_views(line_split@)) == Some(m@),
                None => spec_from_fields(str_views(line_split@)) is None,
            },
    {
        if line_split.len() < 8 {
            return None;
        }
        let destination = trim_str(line_split[2]).to_owned();
        let status = trim_str(line_split[3]).to_owned();
        let duration_str = trim_str(line_split[5]);
        let security_code = trim_str(line_split[7]).to_owned();

        match parse_u64_str(duration_str) {
            Some(duration) => Some(
                Mission { destination, status, duration, security_code },
            ),
            None => None,
        }
    }
}

/// Parse a single line from the log file into an optional `Mission`.
/// Returns `None` if the line is invalid, commented out, or cannot be
/// parsed; the `Some` result carries exactly the record the line denotes.
pub fn parse_line(line: &str) -> (r: Option<Mission>)
    ensures
        match r {
            Some(m) => spec_parse_line(line@) == Some(m@),
            None => spec_parse_line(line@) is None,
        },
        line_is_ignored(line@) ==> r is None,
{
    let trimmed = trim_str(line);
    if trimmed.is_empty() {
        return None;
    }
    if trimmed.get_char(0) == '#' {
        return None;
    }
    let parts = split_str(trimmed, '|');
    Mission::from_line_split(parts.as_slice())
}

} // verus!

//! The log: what a line looks like, and when the file is rotated.

use crate::local_time::LocalTime;
use crate::paths::{join, joined};
use crate::text::{law_four_digits, law_three_digits, law_two_digits, padded, push_padded};
use vstd::prelude::*;

verus! {

/// The size at which the file is rotated, in bytes.
pub const MAX_LOG_BYTES: u64 = 2_097_152;

/// The log file in the configuration folder `dir`.
pub fn log_path(dir: &str) -> (path: String)
    ensures
        path@ == joined(dir@, "clips.log"@),
{
    proof {
        reveal_strlit("clips.log");
    }
    join(dir, "clips.log")
}

/// A time as the log writes it, such as `2026-06-11 18:04:32.007`.
pub open spec fn stamp(t: LocalTime) -> Seq<char> {
    padded(t.year as nat, 4) + "-"@ + padded(t.month as nat, 2) + "-"@ + padded(t.day as nat, 2)
        + " "@ + padded(t.hour as nat, 2) + ":"@ + padded(t.minute as nat, 2) + ":"@ + padded(
        t.second as nat,
        2,
    ) + "."@ + padded(t.millis as nat, 3)
}

/// A time as the log writes it.
pub fn timestamp(t: &LocalTime) -> (s: String)
    ensures
        s@ == stamp(*t),
{
    let mut s = String::new();
    push_padded(&mut s, t.year as u64, 10, 4);
    assert(s@ =~= padded(t.year as nat, 4));
    s.append("-");
    push_padded(&mut s, t.month as u64, 10, 2);
    s.append("-");
    push_padded(&mut s, t.day as u64, 10, 2);
    s.append(" ");
    push_padded(&mut s, t.hour as u64, 10, 2);
    s.append(":");
    push_padded(&mut s, t.minute as u64, 10, 2);
    s.append(":");
    push_padded(&mut s, t.second as u64, 10, 2);
    s.append(".");
    push_padded(&mut s, t.millis as u64, 10, 3);
    s
}

/// One line of the log.
pub fn log_line(t: &LocalTime, message: &str) -> (s: String)
    ensures
        s@ == "["@ + stamp(*t) + "] "@ + message@ + "\n"@,
{
    let mut s = "[".to_owned();
    let when = timestamp(t);
    s.append(when.as_str());
    s.append("] ");
    s.append(message);
    s.append("\n");
    s
}

/// How much the file holds.
pub struct LogFile {
    pub written: u64,
}

impl LogFile {
    /// A file that holds `written` bytes already.
    pub fn new(written: u64) -> (f: LogFile)
        ensures
            f.written == written,
    {
        LogFile { written }
    }

    /// Gets ready for a line; true if the file is put aside and a new one begun.
    pub fn rotate(&mut self) -> (rotated: bool)
        ensures
            rotated == (old(self).written > MAX_LOG_BYTES),
            rotated == (old(self).written > 2 * 1024 * 1024),
            final(self).written == if rotated {
                0
            } else {
                old(self).written
            },
            final(self).written <= MAX_LOG_BYTES,
    {
        if self.written > MAX_LOG_BYTES {
            self.written = 0;
            true
        } else {
            false
        }
    }

    /// Notes that a line of `bytes` was written.
    pub fn wrote(&mut self, bytes: u64)
        requires
            old(self).written + bytes <= u64::MAX,
        ensures
            final(self).written == old(self).written + bytes,
    {
        self.written = self.written + bytes;
    }
}

// ---------------------------------------------------------------------------
// Laws
// ---------------------------------------------------------------------------

/// Law: a stamp tells the time to the millisecond, each field on its digits.
pub proof fn law_stamps_tell_the_time(t: LocalTime)
    requires
        t.year < 10_000,
        t.month < 100 && t.day < 100 && t.hour < 100 && t.minute < 100 && t.second < 100,
        t.millis < 1000,
    ensures
        ({
            let s = stamp(t);
            &&& s.len() == 23
            &&& s[0] as u32 == 48 + t.year / 1000 && s[1] as u32 == 48 + t.year / 100 % 10
            &&& s[2] as u32 == 48 + t.year / 10 % 10 && s[3] as u32 == 48 + t.year % 10
            &&& s[4] == '-' && s[7] == '-' && s[10] == ' ' && s[13] == ':' && s[16] == ':' && s[19]
                == '.'
            &&& s[5] as u32 == 48 + t.month / 10 && s[6] as u32 == 48 + t.month % 10
            &&& s[8] as u32 == 48 + t.day / 10 && s[9] as u32 == 48 + t.day % 10
            &&& s[11] as u32 == 48 + t.hour / 10 && s[12] as u32 == 48 + t.hour % 10
            &&& s[14] as u32 == 48 + t.minute / 10 && s[15] as u32 == 48 + t.minute % 10
            &&& s[17] as u32 == 48 + t.second / 10 && s[18] as u32 == 48 + t.second % 10
            &&& s[20] as u32 == 48 + t.millis / 100 && s[21] as u32 == 48 + t.millis / 10 % 10
            &&& s[22] as u32 == 48 + t.millis % 10
        }),
{
    reveal_strlit("-");
    reveal_strlit(" ");
    reveal_strlit(":");
    reveal_strlit(".");
    law_four_digits(t.year as nat);
    law_two_digits(t.month as nat);
    law_two_digits(t.day as nat);
    law_two_digits(t.hour as nat);
    law_two_digits(t.minute as nat);
    law_two_digits(t.second as nat);
    law_three_digits(t.millis as nat);
}

} // verus!

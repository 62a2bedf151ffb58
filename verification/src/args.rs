//! The command line.

use crate::text::{chars_of, parse_number, parsed_number, same_text};
use vstd::prelude::*;

verus! {

/// The position of the first argument that is `flag`.
pub open spec fn position(args: Seq<String>, flag: Seq<char>) -> Option<int>
    decreases args.len(),
{
    if args.len() == 0 {
        None
    } else if args[0]@ == flag {
        Some(0)
    } else {
        match position(args.skip(1), flag) {
            Some(k) => Some(k + 1),
            None => None,
        }
    }
}

/// A position that was found is that of the first such argument.
proof fn lemma_position(args: Seq<String>, flag: Seq<char>)
    ensures
        position(args, flag) matches Some(k) ==> {
            &&& 0 <= k < args.len()
            &&& args[k]@ == flag
            &&& forall|j: int| 0 <= j < k ==> (#[trigger] args[j])@ != flag
        },
        position(args, flag) is None ==> forall|j: int|
            0 <= j < args.len() ==> (#[trigger] args[j])@ != flag,
    decreases args.len(),
{
    if args.len() > 0 && args[0]@ != flag {
        let rest = args.skip(1);
        lemma_position(rest, flag);
        assert forall|j: int| 0 < j < args.len() implies #[trigger] args[j] == rest[j - 1] by {
        }
    }
}

/// The position of the first argument that is `flag`.
pub fn find_flag(args: &Vec<String>, flag: &str) -> (r: Option<usize>)
    ensures
        match r {
            Some(k) => position(args@, flag@) == Some(k as int) && k < args@.len(),
            None => position(args@, flag@) is None,
        },
{
    let mut i: usize = 0;
    proof {
        lemma_position(args@, flag@);
    }
    while i < args.len()
        invariant
            i <= args@.len(),
            forall|j: int| 0 <= j < i ==> (#[trigger] args@[j])@ != flag@,
            position(args@, flag@) matches Some(k) ==> 0 <= k < args@.len() && args@[k]@ == flag@
                && forall|j: int| 0 <= j < k ==> (#[trigger] args@[j])@ != flag@,
            position(args@, flag@) is None ==> forall|j: int|
                0 <= j < args@.len() ==> (#[trigger] args@[j])@ != flag@,
        decreases args@.len() - i,
    {
        if same_text(args[i].as_str(), flag) {
            return Some(i);
        }
        i += 1;
    }
    None
}

/// How long a test runs that gives no time, in seconds.
pub const DEFAULT_SECS: u64 = 5;

/// The seconds behind `flag`: the number in the next argument, or five. `None`
/// without the flag.
pub open spec fn seconds_of(args: Seq<String>, flag: Seq<char>) -> Option<nat> {
    match position(args, flag) {
        None => None,
        Some(k) => Some(
            if k + 1 < args.len() {
                match parsed_number(args[k + 1]@, u64::MAX as nat) {
                    Some(n) => n,
                    None => DEFAULT_SECS as nat,
                }
            } else {
                DEFAULT_SECS as nat
            },
        ),
    }
}

/// The seconds behind `flag`.
pub fn flag_secs(args: &Vec<String>, flag: &str) -> (r: Option<u64>)
    ensures
        match r {
            Some(n) => seconds_of(args@, flag@) == Some(n as nat),
            None => seconds_of(args@, flag@) is None,
        },
{
    let k: usize = match find_flag(args, flag) {
        Some(k) => k,
        None => return None,
    };
    if args.len() - k >= 2 {
        let digits = chars_of(args[k + 1].as_str());
        match parse_number(digits.as_slice(), u64::MAX) {
            Some(n) => Some(n),
            None => Some(DEFAULT_SECS),
        }
    } else {
        Some(DEFAULT_SECS)
    }
}

/// The argument behind `flag`, if there is one.
pub open spec fn value_of(args: Seq<String>, flag: Seq<char>) -> Option<Seq<char>> {
    match position(args, flag) {
        Some(k) => if k + 1 < args.len() {
            Some(args[k + 1]@)
        } else {
            None
        },
        None => None,
    }
}

/// The argument behind `flag`.
pub fn flag_value(args: &Vec<String>, flag: &str) -> (r: Option<String>)
    ensures
        match r {
            Some(s) => value_of(args@, flag@) == Some(s@),
            None => value_of(args@, flag@) is None,
        },
{
    match find_flag(args, flag) {
        Some(k) => if args.len() - k >= 2 {
            Some(args[k + 1].clone())
        } else {
            None
        },
        None => None,
    }
}

/// What the program is started for.
pub enum Mode {
    /// To record.
    Tray,
    CaptureTest(u64),
    EncodeTest(u64),
    /// With the capture backend to use, if one is named.
    RecordTest(u64, Option<String>),
}

/// Decides what the program is started for.
pub fn mode(args: &Vec<String>) -> (m: Mode)
    ensures
        match (
            seconds_of(args@, "--capture-test"@),
            seconds_of(args@, "--encode-test"@),
            seconds_of(args@, "--record-test"@),
        ) {
            (Some(n), _, _) => m == Mode::CaptureTest(n as u64),
            (None, Some(n), _) => m == Mode::EncodeTest(n as u64),
            (None, None, Some(n)) => m matches Mode::RecordTest(secs, backend) && secs == n && (
            match backend {
                Some(b) => value_of(args@, "--backend"@) == Some(b@),
                None => value_of(args@, "--backend"@) is None,
            }),
            (None, None, None) => m is Tray,
        },
{
    if let Some(n) = flag_secs(args, "--capture-test") {
        return Mode::CaptureTest(n);
    }
    if let Some(n) = flag_secs(args, "--encode-test") {
        return Mode::EncodeTest(n);
    }
    if let Some(n) = flag_secs(args, "--record-test") {
        return Mode::RecordTest(n, flag_value(args, "--backend"));
    }
    Mode::Tray
}

/// Law: of several arguments that are the flag, the first one counts.
pub proof fn law_first_flag_counts(args: Seq<String>, flag: Seq<char>, k: int)
    requires
        0 <= k < args.len(),
        args[k]@ == flag,
        forall|j: int| 0 <= j < k ==> (#[trigger] args[j])@ != flag,
    ensures
        position(args, flag) == Some(k),
        k + 1 < args.len() ==> value_of(args, flag) == Some(args[k + 1]@),
        k + 1 == args.len() ==> value_of(args, flag) is None && seconds_of(args, flag) == Some(5nat),
        k + 1 < args.len() ==> match parsed_number(args[k + 1]@, 0xFFFF_FFFF_FFFF_FFFF) {
            Some(n) => seconds_of(args, flag) == Some(n),
            None => seconds_of(args, flag) == Some(5nat),
        },
{
    lemma_position(args, flag);
}

/// Law: a flag that is not among the arguments has no place, no value and no time.
pub proof fn law_missing_flags(args: Seq<String>, flag: Seq<char>)
    requires
        forall|j: int| 0 <= j < args.len() ==> (#[trigger] args[j])@ != flag,
    ensures
        position(args, flag) is None,
        value_of(args, flag) is None,
        seconds_of(args, flag) is None,
{
    lemma_position(args, flag);
}

} // verus!

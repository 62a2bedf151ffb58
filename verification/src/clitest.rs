//! The tests that the command line offers: what they look at in a recording, and
//! the exit codes they end with.

use crate::config::{Config, ConfigModel};
use crate::encoder::EncodedFrame;
use crate::ring::SEC;
use crate::seconds::{in_seconds, law_halves, parts, parts_of_a_second, FULL};
use crate::supervisor::Ctl;
use vstd::prelude::*;

verus! {

/// All went well.
pub const EXIT_OK: i32 = 0;

/// The test could not be run.
pub const EXIT_FAILED: i32 = 1;

/// The test ran, and its result is no good.
pub const EXIT_BAD: i32 = 2;

/// The result is good, but a leg died on the way.
pub const EXIT_LEG_DIED: i32 = 3;

/// The exit code of a capture test: it is good if a frame arrived.
pub fn capture_exit(frames: u64) -> (code: i32)
    ensures
        code == if frames == 0 {
            EXIT_BAD
        } else {
            EXIT_OK
        },
        frames == 0 ==> code == 2,
        frames > 0 ==> code == 0,
{
    if frames == 0 {
        EXIT_BAD
    } else {
        EXIT_OK
    }
}

// ---------------------------------------------------------------------------
// The encode test
// ---------------------------------------------------------------------------

/// The bytes of the pictures, one behind the other.
pub open spec fn stream_bytes(frames: Seq<EncodedFrame>) -> Seq<u8>
    decreases frames.len(),
{
    if frames.len() == 0 {
        Seq::empty()
    } else {
        stream_bytes(frames.drop_last()) + frames.last().data@
    }
}

/// How many of the pictures are keyframes.
pub open spec fn keyframes(frames: Seq<EncodedFrame>) -> nat
    decreases frames.len(),
{
    if frames.len() == 0 {
        0
    } else {
        keyframes(frames.drop_last()) + (if frames.last().keyframe {
            1nat
        } else {
            0
        })
    }
}

/// The time that the pictures cover, from the first to the end of the last.
pub open spec fn covered(frames: Seq<EncodedFrame>) -> int {
    if frames.len() == 0 {
        0
    } else {
        frames.last().pts - frames[0].pts + frames.last().dur
    }
}

/// The stream starts with a start code.
pub open spec fn starts_with_code(s: Seq<u8>) -> bool {
    ||| s.len() >= 4 && s[0] == 0 && s[1] == 0 && s[2] == 0 && s[3] == 1
    ||| s.len() >= 3 && s[0] == 0 && s[1] == 0 && s[2] == 1
}

/// What an encode test looks at.
pub struct EncodeSummary {
    pub samples: usize,
    pub keys: usize,
    pub span: i64,
    pub stream: Vec<u8>,
    pub start_code: bool,
}

/// Sums up what the encoder put out.
pub fn summarize(frames: &Vec<EncodedFrame>) -> (s: EncodeSummary)
    requires
        frames@.len() > 0 ==> i64::MIN <= frames@.last().pts - frames@[0].pts <= i64::MAX,
        i64::MIN <= covered(frames@) <= i64::MAX,
    ensures
        s.samples == frames@.len(),
        s.keys == keyframes(frames@),
        s.span == covered(frames@),
        s.stream@ == stream_bytes(frames@),
        s.start_code == starts_with_code(s.stream@),
{
    let mut stream: Vec<u8> = Vec::new();
    let mut keys: usize = 0;
    let mut i: usize = 0;
    while i < frames.len()
        invariant
            i <= frames@.len(),
            keys <= i,
            keys == keyframes(frames@.take(i as int)),
            stream@ == stream_bytes(frames@.take(i as int)),
        decreases frames@.len() - i,
    {
        let f = &frames[i];
        assert(frames@.take(i + 1).drop_last() =~= frames@.take(i as int));
        let mut j: usize = 0;
        let n: usize = f.data.len();
        while j < n
            invariant
                j <= n,
                n == f.data@.len(),
                stream@ == stream_bytes(frames@.take(i as int)) + f.data@.take(j as int),
            decreases n - j,
        {
            stream.push(f.data[j]);
            j += 1;
            assert(stream@ =~= stream_bytes(frames@.take(i as int)) + f.data@.take(j as int));
        }
        assert(f.data@.take(j as int) =~= f.data@);
        if f.keyframe {
            keys += 1;
        }
        i += 1;
    }
    assert(frames@.take(i as int) =~= frames@);
    let span: i64 = if frames.len() == 0 {
        0
    } else {
        let a = &frames[0];
        let b = &frames[frames.len() - 1];
        b.pts - a.pts + b.dur
    };
    let start_code: bool = (stream.len() >= 4 && stream[0] == 0 && stream[1] == 0 && stream[2] == 0
        && stream[3] == 1) || (stream.len() >= 3 && stream[0] == 0 && stream[1] == 0 && stream[2]
        == 1);
    EncodeSummary { samples: frames.len(), keys, span, stream, start_code }
}

/// The exit code of an encode test: it is good if there are pictures, a keyframe
/// among them, and bytes in them.
pub fn encode_exit(s: &EncodeSummary) -> (code: i32)
    ensures
        code == if s.samples > 0 && s.keys > 0 && s.stream@.len() > 0 {
            EXIT_OK
        } else {
            EXIT_BAD
        },
        code == 0 || code == 2,
        code == 0 <==> s.samples > 0 && s.keys > 0 && s.stream@.len() > 0,
{
    if s.samples > 0 && s.keys > 0 && s.stream.len() > 0 {
        EXIT_OK
    } else {
        EXIT_BAD
    }
}

// ---------------------------------------------------------------------------
// The record test
// ---------------------------------------------------------------------------

/// The window of a record test, in seconds; it has to cover the whole test.
pub const RECORD_WINDOW: u32 = 60;

/// The configuration of a record test, with the capture backend that was asked
/// for.
pub fn record_config(base: Config, backend: Option<String>) -> (c: Config)
    ensures
        c@ == (ConfigModel {
            clip_seconds: RECORD_WINDOW,
            backend: match backend {
                Some(b) => b@,
                None => base@.backend,
            },
            ..base@
        }),
        c@.clip_seconds == 60,
{
    let mut c = base;
    c.clip_seconds = RECORD_WINDOW;
    if let Some(b) = backend {
        c.backend = b;
    }
    c
}

/// The message tells that a leg has died.
pub open spec fn tells_of_death(c: Ctl) -> bool {
    c is VideoLegDied || c is AudioLegDied
}

/// Counts the messages that tell of a leg that has died.
pub fn leg_errors(messages: &Vec<Ctl>) -> (n: usize)
    ensures
        n == messages@.filter(|c: Ctl| tells_of_death(c)).len(),
{
    let mut n: usize = 0;
    let mut i: usize = 0;
    proof {
        reveal(Seq::filter);
    }
    while i < messages.len()
        invariant
            i <= messages@.len(),
            n <= i,
            n == messages@.take(i as int).filter(|c: Ctl| tells_of_death(c)).len(),
        decreases messages@.len() - i,
    {
        proof {
            reveal(Seq::filter);
            assert(messages@.take(i + 1).drop_last() =~= messages@.take(i as int));
            assert(messages@.take(i + 1).last() == messages@[i as int]);
        }
        match &messages[i] {
            Ctl::VideoLegDied(_) => {
                n += 1;
            },
            Ctl::AudioLegDied(_) => {
                n += 1;
            },
            _ => {},
        }
        i += 1;
    }
    assert(messages@.take(i as int) =~= messages@);
    n
}

/// What is wrong with a file.
#[derive(Debug, Clone, Copy, PartialEq, Eq, Structural)]
pub enum Defect {
    MissingStream,
    DurationOutOfRange,
    NoFirstSample,
    EmptyFirstSample,
    /// Decoding cannot start at the first video sample.
    NoSyncPoint,
}

impl Defect {
    /// The defect in words.
    pub fn message(&self) -> (s: String)
        ensures
            s@ == match *self {
                Defect::MissingStream => "missing stream"@,
                Defect::DurationOutOfRange => "duration out of range"@,
                Defect::NoFirstSample => "no first video sample"@,
                Defect::EmptyFirstSample => "empty first sample"@,
                Defect::NoSyncPoint => "first sample is not a sync point"@,
            },
    {
        match self {
            Defect::MissingStream => "missing stream".to_owned(),
            Defect::DurationOutOfRange => "duration out of range".to_owned(),
            Defect::NoFirstSample => "no first video sample".to_owned(),
            Defect::EmptyFirstSample => "empty first sample".to_owned(),
            Defect::NoSyncPoint => "first sample is not a sync point".to_owned(),
        }
    }
}

/// Whether a file has the streams that it should have.
pub fn check_streams(video: bool, second: bool, expect_audio: bool) -> (r: Result<(), Defect>)
    ensures
        r is Ok <==> video && (expect_audio ==> second),
        r matches Err(d) ==> d == Defect::MissingStream,
{
    if !video || (expect_audio && !second) {
        Err(Defect::MissingStream)
    } else {
        Ok(())
    }
}

/// A file lasts as long as it should, its duration in seconds and in double
/// precision: at most 3.5 seconds less, for a group of frames and the start, and at
/// most 2.5 more.
pub open spec fn lasts(duration: int, expect_secs: int) -> bool {
    let of = parts_of_a_second(duration);
    (2 * expect_secs - 7) * of <= 2 * parts(duration) <= (2 * expect_secs + 5) * of
}

/// Law: rounding to double precision does not show in a duration of less than
/// fourteen years.
pub proof fn law_lasts(duration: int, expect_secs: int)
    requires
        -FULL < duration < FULL,
    ensures
        lasts(duration, expect_secs) <==> expect_secs * SEC - 35_000_000 <= duration <= expect_secs
            * SEC + 25_000_000,
{
    law_halves(duration, 2 * expect_secs - 7);
    law_halves(duration, 2 * expect_secs + 5);
}

/// Whether a file lasts as long as it should.
pub fn check_duration(duration: i64, expect_secs: u64) -> (r: Result<(), Defect>)
    ensures
        r is Ok <==> lasts(duration as int, expect_secs as int),
        -4_503_599_627_370_496 < duration < 4_503_599_627_370_496 ==> (r is Ok <==> expect_secs
            * 10_000_000 - 35_000_000 <= duration <= expect_secs * 10_000_000 + 25_000_000),
        r matches Err(d) ==> d == Defect::DurationOutOfRange,
{
    let d = in_seconds(duration);
    proof {
        if -FULL < duration < FULL {
            law_lasts(duration as int, expect_secs as int);
        }
    }
    // No duration is as long as this.
    if expect_secs >= 0x200_0000_0000 {
        proof {
            assert((2 * expect_secs - 7) * d.of >= 0x3FF_FFFF_FFF9 * d.of) by (nonlinear_arith)
                requires
                    2 * expect_secs - 7 >= 0x3FF_FFFF_FFF9,
                    d.of >= 0,
            ;
        }
        return Err(Defect::DurationOutOfRange);
    }
    let of: i128 = d.of as i128;
    let least: i128 = 2 * expect_secs as i128 - 7;
    let most: i128 = 2 * expect_secs as i128 + 5;
    proof {
        assert(-7 * of <= least * of <= 0x400_0000_0000 * of) by (nonlinear_arith)
            requires
                -7 <= least <= 0x400_0000_0000,
                of >= 0,
        ;
        assert(0 <= most * of <= 0x400_0000_0005 * of) by (nonlinear_arith)
            requires
                0 <= most <= 0x400_0000_0005,
                of >= 0,
        ;
    }
    if 2 * d.parts < least * of || 2 * d.parts > most * of {
        Err(Defect::DurationOutOfRange)
    } else {
        Ok(())
    }
}

/// The first video sample of a file: its length in bytes, and whether decoding can
/// start at it.
#[derive(Clone, Copy)]
pub struct FirstSample {
    pub length: u32,
    pub clean_point: bool,
}

/// Whether the first video sample is there, holds something, and is one that
/// decoding can start at.
pub fn check_first_sample(first: Option<FirstSample>) -> (r: Result<(), Defect>)
    ensures
        r == match first {
            None => Err::<(), Defect>(Defect::NoFirstSample),
            Some(f) => if f.length == 0 {
                Err(Defect::EmptyFirstSample)
            } else if !f.clean_point {
                Err(Defect::NoSyncPoint)
            } else {
                Ok(())
            },
        },
{
    match first {
        None => Err(Defect::NoFirstSample),
        Some(f) => if f.length == 0 {
            Err(Defect::EmptyFirstSample)
        } else if !f.clean_point {
            Err(Defect::NoSyncPoint)
        } else {
            Ok(())
        },
    }
}

/// What was found in a file: whether it has a video stream and a second one, how
/// long it lasts, and its first video sample.
#[derive(Clone, Copy)]
pub struct FileFacts {
    pub video: bool,
    pub second: bool,
    pub duration: i64,
    pub first: Option<FirstSample>,
}

/// Whether a file is what a record test should leave behind. Of several defects the
/// first is told: streams, then duration, then first sample.
pub fn validate_mp4(f: &FileFacts, expect_secs: u64, expect_audio: bool) -> (r: Result<(), Defect>)
    ensures
        r is Ok ==> f.video && (expect_audio ==> f.second) && (
        -4_503_599_627_370_496 < f.duration < 4_503_599_627_370_496 ==> expect_secs * 10_000_000
            - 35_000_000 <= f.duration <= expect_secs * 10_000_000 + 25_000_000),
        r is Ok <==> {
            &&& f.video
            &&& expect_audio ==> f.second
            &&& lasts(f.duration as int, expect_secs as int)
            &&& f.first matches Some(s) && s.length > 0 && s.clean_point
        },
        r matches Err(d) ==> d == if !f.video || (expect_audio && !f.second) {
            Defect::MissingStream
        } else if !lasts(f.duration as int, expect_secs as int) {
            Defect::DurationOutOfRange
        } else {
            match f.first {
                None => Defect::NoFirstSample,
                Some(s) => if s.length == 0 {
                    Defect::EmptyFirstSample
                } else {
                    Defect::NoSyncPoint
                },
            }
        },
{
    if let Err(d) = check_streams(f.video, f.second, expect_audio) {
        return Err(d);
    }
    if let Err(d) = check_duration(f.duration, expect_secs) {
        return Err(d);
    }
    check_first_sample(f.first)
}

/// The exit code of a record test whose file was written.
pub fn record_exit(valid: bool, leg_errors: usize) -> (code: i32)
    ensures
        code == if !valid {
            EXIT_BAD
        } else if leg_errors > 0 {
            EXIT_LEG_DIED
        } else {
            EXIT_OK
        },
        !valid ==> code == 2,
        valid && leg_errors > 0 ==> code == 3,
        valid && leg_errors == 0 ==> code == 0,
{
    if !valid {
        EXIT_BAD
    } else if leg_errors > 0 {
        EXIT_LEG_DIED
    } else {
        EXIT_OK
    }
}

/// Law: the bytes of pictures that come one behind the other are theirs in that order,
/// and the keyframes among them add up.
pub proof fn law_pictures_add_up(a: Seq<EncodedFrame>, b: Seq<EncodedFrame>, f: EncodedFrame)
    ensures
        stream_bytes(Seq::empty()).len() == 0,
        stream_bytes(seq![f]) == f.data@,
        stream_bytes(a + b) == stream_bytes(a) + stream_bytes(b),
        keyframes(Seq::empty()) == 0,
        f.keyframe ==> keyframes(seq![f]) == 1,
        !f.keyframe ==> keyframes(seq![f]) == 0,
        keyframes(a + b) == keyframes(a) + keyframes(b),
    decreases b.len(),
{
    let none = Seq::<EncodedFrame>::empty();
    assert(seq![f].drop_last() =~= none);
    assert(seq![f].last() == f);
    assert(stream_bytes(none) =~= Seq::<u8>::empty());
    assert(stream_bytes(seq![f]) =~= f.data@);
    if b.len() == 0 {
        assert(a + b =~= a);
        assert(b =~= none);
        assert(stream_bytes(a) + stream_bytes(b) =~= stream_bytes(a));
    } else {
        law_pictures_add_up(a, b.drop_last(), f);
        assert((a + b).drop_last() =~= a + b.drop_last());
        assert((a + b).last() == b.last());
        assert(stream_bytes(a) + stream_bytes(b.drop_last()) + b.last().data@ =~= stream_bytes(a)
            + stream_bytes(b));
    }
}

/// Law: pictures cover the time from the start of the first to the end of the last; no
/// pictures cover none.
pub proof fn law_pictures_cover_time(frames: Seq<EncodedFrame>)
    ensures
        frames.len() == 0 ==> covered(frames) == 0,
        frames.len() > 0 ==> frames[0].pts + covered(frames) == frames[frames.len() - 1].pts
            + frames[frames.len() - 1].dur,
{
}

/// Law: a stream starts with a start code if three or two zero bytes and a one stand at
/// its front, and only then.
pub proof fn law_streams_start_with_codes(rest: Seq<u8>, s: Seq<u8>)
    ensures
        starts_with_code(seq![0u8, 0, 1] + rest),
        starts_with_code(seq![0u8, 0, 0, 1] + rest),
        starts_with_code(s) ==> s.len() >= 3 && (s.take(3) == seq![0u8, 0, 1] || (s.len() >= 4
            && s.take(4) == seq![0u8, 0, 0, 1])),
{
    if starts_with_code(s) {
        assert(s.take(3) =~= seq![0u8, 0, 1] || s.take(4) =~= seq![0u8, 0, 0, 1]);
    }
}

/// Law: the deaths of both legs count, and nothing else does.
pub proof fn law_what_tells_of_death(c: Ctl)
    ensures
        c is VideoLegDied ==> tells_of_death(c),
        c is AudioLegDied ==> tells_of_death(c),
        c !is VideoLegDied && c !is AudioLegDied ==> !tells_of_death(c),
{
}

/// Law: a file may last three and a half seconds less than it should and two and a half
/// more, and no more than that either way, if it lasts less than fourteen years.
pub proof fn law_how_long_files_last(duration: int, expect_secs: int)
    requires
        -4_503_599_627_370_496 < duration < 4_503_599_627_370_496,
    ensures
        lasts(duration, expect_secs) <==> -35_000_000 <= duration - expect_secs * 10_000_000
            <= 25_000_000,
{
    law_lasts(duration, expect_secs);
}

} // verus!

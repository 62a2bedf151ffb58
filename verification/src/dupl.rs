//! Capture by DXGI desktop duplication: which output is duplicated, what is made
//! of each attempt to get a frame, and how the attempts are spaced.

use crate::d3d::{output_size_of, OutputDesc};
use crate::frames::{ticks_to_100ns, trunc_div};
use vstd::prelude::*;

verus! {

/// Why there is nothing to duplicate.
#[derive(Debug, Clone, Copy, PartialEq, Eq, Structural)]
pub enum DuplError {
    NoOutput,
}

impl DuplError {
    /// The error in words.
    pub fn message(&self) -> (s: String)
        ensures
            s@ == "no DXGI output for capture monitor"@,
    {
        "no DXGI output for capture monitor".to_owned()
    }
}

/// `o` shows the monitor `hmonitor` as part of the desktop.
pub open spec fn shows(o: OutputDesc, hmonitor: isize) -> bool {
    o.monitor == hmonitor && o.attached
}

/// An output that can be duplicated: its position, and the size of its part of
/// the desktop.
#[derive(Clone, Copy)]
pub struct DuplOutput {
    pub position: usize,
    pub width: u32,
    pub height: u32,
}

/// The first of an adapter's outputs that shows the monitor `hmonitor`.
pub fn output_for(outputs: &Vec<OutputDesc>, hmonitor: isize) -> (r: Result<DuplOutput, DuplError>)
    requires
        forall|i: int|
            0 <= i < outputs@.len() && shows(#[trigger] outputs@[i], hmonitor)
                ==> outputs@[i].fits(),
    ensures
        r is Ok <==> exists|i: int|
            0 <= i < outputs@.len() && shows(#[trigger] outputs@[i], hmonitor),
        r matches Ok(o) ==> {
            &&& o.position < outputs@.len()
            &&& shows(outputs@[o.position as int], hmonitor)
            &&& forall|j: int|
                0 <= j < o.position ==> !shows(#[trigger] outputs@[j], hmonitor)
            &&& (o.width as int, o.height as int) == outputs@[o.position as int].size()
        },
        r matches Err(e) ==> e == DuplError::NoOutput,
{
    let mut i: usize = 0;
    while i < outputs.len()
        invariant
            i <= outputs@.len(),
            forall|j: int|
                0 <= j < outputs@.len() && shows(#[trigger] outputs@[j], hmonitor)
                    ==> outputs@[j].fits(),
            forall|j: int| 0 <= j < i ==> !shows(#[trigger] outputs@[j], hmonitor),
        decreases outputs@.len() - i,
    {
        let o = &outputs[i];
        if o.monitor == hmonitor && o.attached {
            let (width, height) = output_size_of(o);
            return Ok(DuplOutput { position: i, width, height });
        }
        i += 1;
    }
    Err(DuplError::NoOutput)
}

/// The ticks of the performance counter in a second, at least one.
pub fn qpc_freq(reported: i64) -> (f: i64)
    ensures
        f == if reported < 1 {
            1
        } else {
            reported
        },
{
    if reported < 1 {
        1
    } else {
        reported
    }
}

// ---------------------------------------------------------------------------
// Frames
// ---------------------------------------------------------------------------

/// Nothing has changed on the screen.
pub const DXGI_ERROR_WAIT_TIMEOUT: u32 = 0x887A_0027;

/// The output was taken away, as by the lock screen.
pub const DXGI_ERROR_ACCESS_LOST: u32 = 0x887A_0026;

/// How an attempt to get a frame came out.
#[derive(Clone, Copy)]
pub enum Acquired {
    /// There is one; its image was presented at this tick, zero if only the
    /// cursor has moved.
    Frame(i64),
    /// There is none, by this code.
    Failed(u32),
}

/// What is made of an attempt to get a frame.
#[derive(Debug, Clone, Copy, PartialEq, Eq, Structural)]
pub enum AcquireStep {
    /// The image is handed on with this time.
    Image(i64),
    /// There is no image.
    CursorOnly,
    Again,
    /// The output has to be duplicated again.
    Reacquire,
    /// The source is gone.
    Close,
}

/// Decides what is made of an attempt to get a frame, on a counter with `freq`
/// ticks a second.
pub fn acquire_step(a: Acquired, freq: i64) -> (s: AcquireStep)
    requires
        freq > 0,
    ensures
        s == match a {
            Acquired::Frame(ticks) => if ticks == 0 {
                AcquireStep::CursorOnly
            } else {
                AcquireStep::Image(trunc_div(ticks * 10_000_000, freq as int) as i64)
            },
            Acquired::Failed(code) => if code == DXGI_ERROR_WAIT_TIMEOUT {
                AcquireStep::Again
            } else if code == DXGI_ERROR_ACCESS_LOST {
                AcquireStep::Reacquire
            } else {
                AcquireStep::Close
            },
        },
{
    match a {
        Acquired::Frame(ticks) => if ticks == 0 {
            AcquireStep::CursorOnly
        } else {
            AcquireStep::Image(ticks_to_100ns(ticks, freq))
        },
        Acquired::Failed(code) => if code == DXGI_ERROR_WAIT_TIMEOUT {
            AcquireStep::Again
        } else if code == DXGI_ERROR_ACCESS_LOST {
            AcquireStep::Reacquire
        } else {
            AcquireStep::Close
        },
    }
}

/// How far apart attempts are, in nanoseconds: three quarters of a frame after an
/// image, which the pacer thins to the frame rate, and four milliseconds after a
/// move of the cursor.
pub open spec fn spacing(has_image: bool, fps: u32) -> int {
    if !has_image {
        4_000_000
    } else if fps == 0 {
        750_000_000
    } else {
        750_000int / fps as int * 1000
    }
}

/// How long to pause, in nanoseconds, when `elapsed` have gone by since the
/// attempt began; `None` if it is time already.
pub fn pause(has_image: bool, fps: u32, elapsed: u64) -> (r: Option<u64>)
    ensures
        r is Some <==> elapsed <= spacing(has_image, fps),
        r matches Some(d) ==> d == spacing(has_image, fps) - elapsed,
{
    let apart: u64 = if has_image {
        let n: u64 = if fps == 0 {
            1
        } else {
            fps as u64
        };
        proof {
            vstd::arithmetic::div_mod::lemma_div_is_ordered_by_denominator(750_000, 1, n as int);
        }
        750_000 / n * 1000
    } else {
        4_000_000
    };
    if elapsed <= apart {
        Some(apart - elapsed)
    } else {
        None
    }
}

/// What is made of an attempt to duplicate the output again.
#[derive(Debug, Clone, Copy, PartialEq, Eq, Structural)]
pub enum ReacquireStep {
    Stop,
    /// The output is still held by someone else.
    RetryLater,
    Ready,
    /// The desktop has another size now, so the leg has to be built anew.
    SizeChanged,
}

/// Decides what is made of an attempt to duplicate the output again, by the size
/// of what came of it.
pub fn reacquire_step(stop: bool, mode: Option<(u32, u32)>, width: u32, height: u32) -> (s:
    ReacquireStep)
    ensures
        s == if stop {
            ReacquireStep::Stop
        } else {
            match mode {
                None => ReacquireStep::RetryLater,
                Some(m) => if m == (width, height) {
                    ReacquireStep::Ready
                } else {
                    ReacquireStep::SizeChanged
                },
            }
        },
{
    if stop {
        return ReacquireStep::Stop;
    }
    match mode {
        None => ReacquireStep::RetryLater,
        Some((w, h)) => if w == width && h == height {
            ReacquireStep::Ready
        } else {
            ReacquireStep::SizeChanged
        },
    }
}

// ---------------------------------------------------------------------------
// Laws
// ---------------------------------------------------------------------------

/// Law: attempts for images come a third faster than frames, on whole microseconds:
/// as many of their distances as there are frames in a second make up three quarters
/// of the second. After a move of the cursor it is four milliseconds.
pub proof fn law_attempts_keep_up_with_frames(fps: u32)
    ensures
        spacing(true, fps) % 1000 == 0,
        fps > 0 ==> spacing(true, fps) * fps <= 750_000_000 < (spacing(true, fps) + 1000) * fps,
        fps == 0 ==> spacing(true, fps) == 750_000_000,
        spacing(false, fps) == 4_000_000,
{
    if fps > 0 {
        let n = fps as int;
        let q = 750_000int / n;
        vstd::arithmetic::div_mod::lemma_fundamental_div_mod(750_000, n);
        vstd::arithmetic::div_mod::lemma_mod_bound(750_000, n);
        assert(n * q == q * n) by (nonlinear_arith);
        assert((q * 1000) * n == 1000 * (q * n)) by (nonlinear_arith);
        assert((q * 1000 + 1000) * n == 1000 * (q * n) + 1000 * n) by (nonlinear_arith);
    }
}

/// Law: an output shows a monitor if it is the monitor's and part of the desktop.
pub proof fn law_what_outputs_show(o: OutputDesc, hmonitor: isize)
    ensures
        !o.attached ==> !shows(o, hmonitor),
        o.monitor != hmonitor ==> !shows(o, hmonitor),
        o.attached ==> shows(o, o.monitor),
{
}

} // verus!

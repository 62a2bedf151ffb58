//! The lifecycle of the pipeline: when its legs are built, restarted and given
//! up for a while, when a clip is saved, and what the user is told.
//!
//! Times are nanoseconds since the program started, unless they are on the
//! media clock.

use crate::config::RuntimeConfig;
use crate::convert::{output_dims, output_size};
use crate::frames::{frame_interval, Pacer, PacerModel};
use crate::mux::{header_of, plan_clip, write_order, AudioParams, MuxError, MuxParams, MuxPlan};
use crate::ring::{clip_start, stream_from, trim, trim_fits, Clip, Packet, StreamKind, SEC};
use crate::seconds::{law_whole_seconds, round_to_seconds, whole_seconds};
use crate::text::{decimal, push_decimal};
use vstd::prelude::*;

verus! {

/// What is asked of the supervisor.
#[derive(Debug)]
pub enum Ctl {
    SaveClip,
    SetClipLen(u32),
    CursorChanged(bool),
    VideoRestart(&'static str),
    AudioRestart(&'static str),
    VideoLegDied(String),
    AudioLegDied(String),
    Quit,
}

/// The most bytes that the ring holds.
pub const RING_BYTE_CAP: usize = 419_430_400;

/// One second, in nanoseconds.
pub const SECOND: u64 = 1_000_000_000;

/// How long to wait before the next try, after `n` tries in a row that failed.
pub open spec fn backoff_delay(n: nat) -> int {
    if n == 0 {
        250_000_000
    } else if n == 1 {
        1_000_000_000
    } else if n == 2 {
        5_000_000_000
    } else {
        30_000_000_000
    }
}

/// How long to wait before the next try, after `n` tries in a row that failed.
pub fn backoff(n: usize) -> (d: u64)
    ensures
        d == backoff_delay(n as nat),
{
    if n == 0 {
        250_000_000
    } else if n == 1 {
        1_000_000_000
    } else if n == 2 {
        5_000_000_000
    } else {
        30_000_000_000
    }
}

/// How much time has gone by since `since`.
pub open spec fn elapsed(now: u64, since: u64) -> int {
    if now >= since {
        now - since
    } else {
        0
    }
}

/// How much time has gone by since `since`.
fn time_since(now: u64, since: u64) -> (d: u64)
    ensures
        d == elapsed(now, since),
{
    if now >= since {
        now - since
    } else {
        0
    }
}

// ---------------------------------------------------------------------------
// State
// ---------------------------------------------------------------------------

/// What the supervisor knows.
#[derive(Clone, Copy)]
pub struct Supervisor {
    /// When the video leg was built, if there is one.
    pub video_up_since: Option<u64>,
    pub video_backoff: usize,
    pub video_retry_at: Option<u64>,
    /// Whether there is an audio leg.
    pub audio: bool,
    pub audio_backoff: usize,
    pub audio_retry_at: Option<u64>,
    pub audio_up_since: Option<u64>,
    /// A save was asked for while another one was being written.
    pub pending_save: bool,
}

/// What comes of a request to save.
#[derive(Debug, Clone, Copy, PartialEq, Eq, Structural)]
pub enum SaveAction {
    /// Another save is being written; this one comes after it.
    Deferred,
    /// There is nothing to save from.
    NotRunning,
    /// A clip is written.
    Write,
}

/// What the supervisor does about a message.
#[derive(Debug, Clone, Copy, PartialEq, Eq, Structural)]
pub enum Action {
    Nothing,
    Save(SaveAction),
    SetClipLen(u32),
    SetCursor(bool),
    /// The video leg is torn down and the ring emptied.
    RestartVideo,
    /// The audio leg is torn down.
    RestartAudio,
    Quit,
}

/// What is due for the video leg.
#[derive(Debug, Clone, Copy, PartialEq, Eq, Structural)]
pub enum VideoTick {
    /// There is no leg, and it is not time to build one.
    Wait,
    /// It is time to build a leg.
    Build,
    /// There is a leg to look after.
    Watch,
}

/// What the watchdog makes of a leg.
#[derive(Debug, Clone, Copy, PartialEq, Eq, Structural)]
pub enum Watch {
    Fine,
    /// The leg never put anything out: it is torn down and the ring emptied.
    Restart,
    /// The leg has been silent; its device and its source are asked.
    Probe,
}

/// What comes of asking a silent leg.
#[derive(Debug, Clone, Copy, PartialEq, Eq, Structural)]
pub enum Probe {
    /// The leg is torn down and the ring emptied.
    Restart,
    /// All is well. Its last output is taken to be at this media time.
    Postpone(i64),
}

/// The state at the start: both legs are due at once.
pub open spec fn initial(now: u64) -> Supervisor {
    Supervisor {
        video_up_since: None,
        video_backoff: 0,
        video_retry_at: Some(now),
        audio: false,
        audio_backoff: 0,
        audio_retry_at: Some(now),
        audio_up_since: None,
        pending_save: false,
    }
}

impl Supervisor {
    /// Each leg is up, or there is a time at which it is built again.
    pub open spec fn scheduled(self) -> bool {
        &&& self.video_up_since is None ==> self.video_retry_at is Some
        &&& !self.audio ==> self.audio_retry_at is Some
    }

    /// The state once the video leg is torn down to be built again.
    pub open spec fn video_restarted(self, now: u64) -> Supervisor {
        Supervisor { video_up_since: None, video_retry_at: Some(now), ..self }
    }

    /// The state once the audio leg is torn down to be built again.
    pub open spec fn audio_restarted(self, now: u64) -> Supervisor {
        Supervisor { audio: false, audio_retry_at: Some(now), ..self }
    }

    /// The state once the audio leg has failed.
    pub open spec fn audio_failed(self, now: u64) -> Supervisor {
        Supervisor {
            audio: false,
            audio_retry_at: Some((now + backoff_delay(self.audio_backoff as nat)) as u64),
            audio_backoff: (self.audio_backoff + 1) as usize,
            ..self
        }
    }

    /// The state once a build of the video leg has come out as `ok`.
    pub open spec fn video_built(self, ok: bool, now: u64) -> Supervisor {
        if ok {
            Supervisor {
                video_up_since: Some(now),
                video_backoff: 0,
                video_retry_at: None,
                ..self
            }
        } else {
            Supervisor {
                video_retry_at: Some((now + backoff_delay(self.video_backoff as nat)) as u64),
                video_backoff: (self.video_backoff + 1) as usize,
                ..self
            }
        }
    }

    /// What comes of a request to save.
    pub open spec fn save_action(self, in_flight: bool) -> SaveAction {
        if in_flight {
            SaveAction::Deferred
        } else if self.video_up_since is None {
            SaveAction::NotRunning
        } else {
            SaveAction::Write
        }
    }

    /// The state once a save was asked for.
    pub open spec fn save_asked(self, in_flight: bool) -> Supervisor {
        Supervisor { pending_save: self.pending_save || in_flight, ..self }
    }

    /// What is done about a message.
    pub open spec fn action_on(self, msg: Ctl, in_flight: bool) -> Action {
        match msg {
            Ctl::SaveClip => Action::Save(self.save_action(in_flight)),
            Ctl::SetClipLen(n) => Action::SetClipLen(n),
            Ctl::CursorChanged(on) => if self.video_up_since is Some {
                Action::SetCursor(on)
            } else {
                Action::Nothing
            },
            Ctl::VideoRestart(_) | Ctl::VideoLegDied(_) => Action::RestartVideo,
            Ctl::AudioRestart(_) | Ctl::AudioLegDied(_) => Action::RestartAudio,
            Ctl::Quit => Action::Quit,
        }
    }

    /// The state once a message has been taken.
    pub open spec fn after(self, msg: Ctl, now: u64, in_flight: bool) -> Supervisor {
        match msg {
            Ctl::SaveClip => self.save_asked(in_flight),
            Ctl::VideoRestart(_) | Ctl::VideoLegDied(_) => self.video_restarted(now),
            Ctl::AudioRestart(_) => self.audio_restarted(now),
            Ctl::AudioLegDied(_) => self.audio_failed(now),
            _ => self,
        }
    }

    /// What is due for the video leg.
    pub open spec fn video_due(self, now: u64) -> VideoTick {
        if self.video_up_since is Some {
            VideoTick::Watch
        } else if self.video_retry_at is Some && now >= self.video_retry_at->0 {
            VideoTick::Build
        } else {
            VideoTick::Wait
        }
    }

    /// Whether the audio leg is due.
    pub open spec fn audio_due(self, now: u64) -> bool {
        !self.audio && self.audio_retry_at is Some && now >= self.audio_retry_at->0
    }

    /// The state once the audio leg has been looked after: started if it is due,
    /// its failures forgotten after a healthy minute.
    pub open spec fn audio_ticked(self, now: u64) -> Supervisor {
        if self.audio_due(now) {
            Supervisor {
                audio: true,
                audio_retry_at: None,
                audio_up_since: Some(now),
                ..self
            }
        } else if self.audio && self.audio_up_since is Some && elapsed(
            now,
            self.audio_up_since->0,
        ) > 60 * SECOND {
            Supervisor { audio_backoff: 0, ..self }
        } else {
            self
        }
    }

    /// The state once the failures of a video leg that has been up for a minute
    /// are forgotten.
    pub open spec fn video_settled(self, now: u64) -> Supervisor {
        if self.video_up_since is Some && elapsed(now, self.video_up_since->0) > 60 * SECOND {
            Supervisor { video_backoff: 0, ..self }
        } else {
            self
        }
    }

    /// What the watchdog makes of the video leg.
    pub open spec fn watched(self, last_output: int, now: u64, media_now: int) -> Watch {
        match self.video_up_since {
            None => Watch::Fine,
            Some(up_since) => if last_output == 0 {
                if elapsed(now, up_since) > 30 * SECOND {
                    Watch::Restart
                } else {
                    Watch::Fine
                }
            } else if media_now - last_output > 30 * SEC {
                Watch::Probe
            } else {
                Watch::Fine
            },
        }
    }

    /// What comes of a save that was put off.
    pub open spec fn save_taken_up(self, in_flight: bool) -> Option<SaveAction> {
        if self.pending_save && !in_flight {
            Some(self.save_action(false))
        } else {
            None
        }
    }

    /// The state once a save that was put off has been looked after.
    pub open spec fn save_ticked(self, in_flight: bool) -> Supervisor {
        Supervisor { pending_save: self.pending_save && in_flight, ..self }
    }

    /// A supervisor whose legs are due at once.
    pub fn new(now: u64) -> (s: Supervisor)
        ensures
            s == initial(now),
            s.scheduled(),
    {
        Supervisor {
            video_up_since: None,
            video_backoff: 0,
            video_retry_at: Some(now),
            audio: false,
            audio_backoff: 0,
            audio_retry_at: Some(now),
            audio_up_since: None,
            pending_save: false,
        }
    }

    /// Notes that the video leg is torn down to be built again at once.
    pub fn restart_video(&mut self, now: u64)
        ensures
            *final(self) == old(self).video_restarted(now),
            old(self).scheduled() ==> final(self).scheduled(),
    {
        self.video_up_since = None;
        self.video_retry_at = Some(now);
    }

    /// Notes how a build of the video leg came out. After a failure, hands back
    /// how long to wait.
    pub fn try_build_video(&mut self, ok: bool, now: u64) -> (delay: Option<u64>)
        requires
            old(self).video_backoff < usize::MAX,
            now + 30 * SECOND <= u64::MAX,
        ensures
            *final(self) == old(self).video_built(ok, now),
            delay is None <==> ok,
            delay matches Some(d) ==> d == backoff_delay(old(self).video_backoff as nat),
            old(self).scheduled() ==> final(self).scheduled(),
    {
        if ok {
            self.video_up_since = Some(now);
            self.video_backoff = 0;
            self.video_retry_at = None;
            None
        } else {
            let delay: u64 = backoff(self.video_backoff);
            self.video_backoff += 1;
            self.video_retry_at = Some(now + delay);
            Some(delay)
        }
    }

    /// Notes that the audio leg is torn down to be built again at once.
    pub fn restart_audio(&mut self, now: u64)
        ensures
            *final(self) == old(self).audio_restarted(now),
            old(self).scheduled() ==> final(self).scheduled(),
    {
        self.audio = false;
        self.audio_retry_at = Some(now);
    }

    /// Decides about a request to save, while a save is being written or not.
    pub fn save(&mut self, in_flight: bool) -> (a: SaveAction)
        ensures
            a == old(self).save_action(in_flight),
            *final(self) == old(self).save_asked(in_flight),
            a == SaveAction::Deferred <==> in_flight,
            a == SaveAction::Write <==> !in_flight && old(self).video_up_since is Some,
            a == SaveAction::NotRunning <==> !in_flight && old(self).video_up_since is None,
            old(self).scheduled() ==> final(self).scheduled(),
    {
        if in_flight {
            self.pending_save = true;
            return SaveAction::Deferred;
        }
        match self.video_up_since {
            None => SaveAction::NotRunning,
            Some(_) => SaveAction::Write,
        }
    }

    /// Takes a message and decides what is done about it.
    pub fn handle(&mut self, msg: &Ctl, now: u64, in_flight: bool) -> (a: Action)
        requires
            old(self).audio_backoff < usize::MAX,
            now + 30 * SECOND <= u64::MAX,
        ensures
            a == old(self).action_on(*msg, in_flight),
            *final(self) == old(self).after(*msg, now, in_flight),
            msg is SaveClip && !in_flight && old(self).video_up_since is Some ==> a == Action::Save(
                SaveAction::Write,
            ),
            old(self).scheduled() ==> final(self).scheduled(),
    {
        match msg {
            Ctl::SaveClip => Action::Save(self.save(in_flight)),
            Ctl::SetClipLen(n) => Action::SetClipLen(*n),
            Ctl::CursorChanged(on) => match self.video_up_since {
                Some(_) => Action::SetCursor(*on),
                None => Action::Nothing,
            },
            Ctl::VideoRestart(_) => {
                self.restart_video(now);
                Action::RestartVideo
            },
            Ctl::VideoLegDied(_) => {
                self.restart_video(now);
                Action::RestartVideo
            },
            Ctl::AudioRestart(_) => {
                self.restart_audio(now);
                Action::RestartAudio
            },
            Ctl::AudioLegDied(_) => {
                self.audio = false;
                let delay: u64 = backoff(self.audio_backoff);
                self.audio_backoff += 1;
                self.audio_retry_at = Some(now + delay);
                Action::RestartAudio
            },
            Ctl::Quit => Action::Quit,
        }
    }

    /// Decides what is due for the video leg.
    pub fn tick_video(&self, now: u64) -> (t: VideoTick)
        ensures
            t == self.video_due(now),
    {
        match self.video_up_since {
            Some(_) => VideoTick::Watch,
            None => match self.video_retry_at {
                Some(at) => if now >= at {
                    VideoTick::Build
                } else {
                    VideoTick::Wait
                },
                None => VideoTick::Wait,
            },
        }
    }

    /// Judges a video leg by the media time of its last output, zero if it never
    /// put anything out. A leg without output is given 30 seconds. One that has
    /// been silent for 30 seconds may have nothing to record, so it is asked.
    pub fn watchdog(&mut self, last_output: i64, now: u64, media_now: i64) -> (w: Watch)
        requires
            i64::MIN <= media_now - last_output <= i64::MAX,
        ensures
            w == old(self).watched(last_output as int, now, media_now as int),
            *final(self) == match w {
                Watch::Fine => old(self).video_settled(now),
                Watch::Restart => old(self).video_restarted(now),
                Watch::Probe => *old(self),
            },
            old(self).scheduled() ==> final(self).scheduled(),
    {
        let up_since: u64 = match self.video_up_since {
            Some(t) => t,
            None => return Watch::Fine,
        };
        if last_output == 0 {
            if time_since(now, up_since) > 30 * SECOND {
                self.restart_video(now);
                return Watch::Restart;
            }
        } else if media_now - last_output > 30 * SEC {
            return Watch::Probe;
        }
        self.settle_video(now);
        Watch::Fine
    }

    /// Takes what a silent leg's device and source had to say. If both are well
    /// the screen is just static, and the leg is asked again five seconds later.
    pub fn probed(&mut self, device_ok: bool, source_ok: bool, now: u64, media_now: i64) -> (p:
        Probe)
        requires
            media_now - 25 * SEC >= i64::MIN,
        ensures
            device_ok && source_ok ==> {
                &&& p == Probe::Postpone((media_now - 25 * SEC) as i64)
                &&& *final(self) == old(self).video_settled(now)
            },
            !(device_ok && source_ok) ==> {
                &&& p == Probe::Restart
                &&& *final(self) == old(self).video_restarted(now)
            },
            p is Postpone <==> device_ok && source_ok,
            p matches Probe::Postpone(since) ==> since == media_now - 250_000_000,
            old(self).scheduled() ==> final(self).scheduled(),
    {
        if !device_ok || !source_ok {
            self.restart_video(now);
            return Probe::Restart;
        }
        self.settle_video(now);
        Probe::Postpone(media_now - 25 * SEC)
    }

    /// Forgets the failures of a video leg that has been up for a minute.
    fn settle_video(&mut self, now: u64)
        ensures
            *final(self) == old(self).video_settled(now),
            old(self).scheduled() ==> final(self).scheduled(),
    {
        if let Some(t) = self.video_up_since {
            if self.video_backoff > 0 && time_since(now, t) > 60 * SECOND {
                self.video_backoff = 0;
            }
        }
    }

    /// Looks after the audio leg; true if it is to be started now.
    pub fn tick_audio(&mut self, now: u64) -> (start: bool)
        ensures
            start == old(self).audio_due(now),
            *final(self) == old(self).audio_ticked(now),
            old(self).scheduled() ==> final(self).scheduled(),
    {
        if !self.audio {
            if let Some(at) = self.audio_retry_at {
                if now >= at {
                    self.audio = true;
                    self.audio_retry_at = None;
                    self.audio_up_since = Some(now);
                    return true;
                }
            }
        } else if let Some(t) = self.audio_up_since {
            if self.audio_backoff > 0 && time_since(now, t) > 60 * SECOND {
                self.audio_backoff = 0;
            }
        }
        false
    }

    /// Comes back to a save that was put off, once no other is being written.
    pub fn tick_save(&mut self, in_flight: bool) -> (a: Option<SaveAction>)
        ensures
            a == old(self).save_taken_up(in_flight),
            *final(self) == old(self).save_ticked(in_flight),
            old(self).scheduled() ==> final(self).scheduled(),
    {
        if self.pending_save && !in_flight {
            self.pending_save = false;
            return Some(self.save(false));
        }
        None
    }
}

/// Whether to go on waiting, at the end, for a save that is being written.
pub fn keep_waiting(in_flight: bool, now: u64, stopped_at: u64) -> (b: bool)
    requires
        stopped_at + 10 * SECOND <= u64::MAX,
    ensures
        b == (in_flight && now < stopped_at + 10 * SECOND),
{
    in_flight && now < stopped_at + 10 * SECOND
}

/// What the supervisor was woken by.
pub enum Wakeup {
    Message(Ctl),
    /// Half a second went by.
    Timeout,
    /// Nobody is left to ask for anything.
    Disconnected,
}

/// Whether the supervisor stops.
pub fn stops(w: &Wakeup) -> (b: bool)
    ensures
        b == match *w {
            Wakeup::Message(msg) => msg is Quit,
            Wakeup::Timeout => false,
            Wakeup::Disconnected => true,
        },
{
    match w {
        Wakeup::Message(msg) => match msg {
            Ctl::Quit => true,
            _ => false,
        },
        Wakeup::Timeout => false,
        Wakeup::Disconnected => true,
    }
}

/// What the supervisor's thread does next.
pub enum Step {
    /// Looks after the video leg: builds it, watches it, or lets it be.
    Video,
    /// Looks after the audio leg.
    Audio,
    /// Looks after a save that was put off.
    Save,
    /// Waits for a message, half a second at most.
    Wait,
    /// Handles this message.
    Handle(Ctl),
    /// Tears down both legs.
    TearDown,
    /// Waits a moment for a save that is being written.
    WaitForSave,
    Exit,
}

/// What the supervisor's thread has just done.
pub enum Done {
    VideoDone,
    AudioDone,
    SaveDone,
    Woken(Wakeup),
    Handled,
    /// A handler or a part of a turn has panicked, and the panic was caught.
    Panicked,
    /// Both legs are down at `now`, while a save is being written or not. The
    /// thread stopped at `stopped_at`.
    Down { in_flight: bool, now: u64, stopped_at: u64 },
}

/// What the thread begins with: a turn, before any message.
pub open spec fn first_step() -> Step {
    Step::Video
}

/// What the thread does after `done`. A turn looks after video, then audio, then
/// the save that was put off; each message is followed by a turn, and so is half a
/// second without one. A panic ends the turn and no more.
pub open spec fn step_after(done: Done) -> Step {
    match done {
        Done::VideoDone => Step::Audio,
        Done::AudioDone => Step::Save,
        Done::SaveDone => Step::Wait,
        Done::Woken(Wakeup::Message(msg)) => if msg is Quit {
            Step::TearDown
        } else {
            Step::Handle(msg)
        },
        Done::Woken(Wakeup::Timeout) => Step::Video,
        Done::Woken(Wakeup::Disconnected) => Step::TearDown,
        Done::Handled => Step::Video,
        Done::Panicked => Step::Wait,
        Done::Down { in_flight, now, stopped_at } => if in_flight && now < stopped_at + 10 * SECOND {
            Step::WaitForSave
        } else {
            Step::Exit
        },
    }
}

/// Begins the supervisor's thread.
pub fn begin() -> (s: Step)
    ensures
        s == first_step(),
{
    Step::Video
}

/// Decides what the supervisor's thread does after `done`.
pub fn next_step(done: Done) -> (s: Step)
    requires
        done matches Done::Down { in_flight, now, stopped_at } ==> stopped_at + 10 * SECOND
            <= u64::MAX,
    ensures
        s == step_after(done),
{
    match done {
        Done::VideoDone => Step::Audio,
        Done::AudioDone => Step::Save,
        Done::SaveDone => Step::Wait,
        Done::Woken(w) => {
            if stops(&w) {
                return Step::TearDown;
            }
            match w {
                Wakeup::Message(msg) => Step::Handle(msg),
                _ => Step::Video,
            }
        },
        Done::Handled => Step::Video,
        Done::Panicked => Step::Wait,
        Done::Down { in_flight, now, stopped_at } => if keep_waiting(in_flight, now, stopped_at) {
            Step::WaitForSave
        } else {
            Step::Exit
        },
    }
}

// ---------------------------------------------------------------------------
// Reports
// ---------------------------------------------------------------------------

/// How the thread of a leg ended.
pub enum LegOutcome {
    /// It was told to stop.
    Stopped,
    /// It failed, for this reason.
    Failed(String),
    Panicked,
}

/// What the thread of the audio leg reports when it ends.
pub fn audio_report(outcome: LegOutcome) -> (r: Option<Ctl>)
    ensures
        match outcome {
            LegOutcome::Stopped => r is None,
            LegOutcome::Failed(e) => r matches Some(Ctl::AudioLegDied(m)) && m@ == e@,
            LegOutcome::Panicked => r matches Some(Ctl::AudioLegDied(m)) && m@
                == "audio thread panicked"@,
        },
{
    match outcome {
        LegOutcome::Stopped => None,
        LegOutcome::Failed(e) => Some(Ctl::AudioLegDied(e)),
        LegOutcome::Panicked => Some(Ctl::AudioLegDied("audio thread panicked".to_owned())),
    }
}

/// What the encoder's thread reports when it ends.
pub fn encoder_report(outcome: LegOutcome) -> (r: Option<Ctl>)
    ensures
        match outcome {
            LegOutcome::Stopped => r is None,
            LegOutcome::Failed(e) => r matches Some(Ctl::VideoLegDied(m)) && m@ == "encoder: "@
                + e@,
            LegOutcome::Panicked => r matches Some(Ctl::VideoLegDied(m)) && m@
                == "encoder panicked"@,
        },
{
    match outcome {
        LegOutcome::Stopped => None,
        LegOutcome::Failed(e) => {
            let mut m = "encoder: ".to_owned();
            m.append(e.as_str());
            Some(Ctl::VideoLegDied(m))
        },
        LegOutcome::Panicked => Some(Ctl::VideoLegDied("encoder panicked".to_owned())),
    }
}

/// The data flow of an endpoint that plays sound.
pub const FLOW_RENDER: i32 = 0;

/// The data flow of an endpoint that records sound.
pub const FLOW_CAPTURE: i32 = 1;

/// The role of the endpoint that games and notifications use.
pub const ROLE_CONSOLE: i32 = 0;

/// What a change of a default audio device asks for: sound is taken from the
/// console's endpoints, so a change of one of them restarts the audio leg.
pub fn default_device_changed(flow: i32, role: i32) -> (r: Option<Ctl>)
    ensures
        r is Some <==> role == ROLE_CONSOLE && (flow == FLOW_RENDER || flow == FLOW_CAPTURE),
        r matches Some(c) ==> (c matches Ctl::AudioRestart(why) && why@
            == "default audio device changed"@),
{
    if role == ROLE_CONSOLE && (flow == FLOW_RENDER || flow == FLOW_CAPTURE) {
        Some(Ctl::AudioRestart("default audio device changed"))
    } else {
        None
    }
}

/// A message for the user.
pub struct Balloon {
    pub title: String,
    pub text: String,
    pub error: bool,
}

/// How a save came out.
pub enum SaveOutcome {
    /// A clip of this length, in media time, was written.
    Saved(i64),
    /// It was not, for this reason.
    Failed(String),
}

/// Why there is nothing to write.
#[derive(Debug, Clone, Copy, PartialEq, Eq, Structural)]
pub enum SaveError {
    /// No clip can be started in what was recorded.
    BufferEmpty,
    Mux(MuxError),
}

impl SaveError {
    /// The error in words, as the user sees it. A failure of the writer has its
    /// code behind it.
    pub fn message(&self) -> (s: String)
        ensures
            s@ == match *self {
                SaveError::BufferEmpty => "buffer is empty"@,
                SaveError::Mux(_) => "no HEVC parameter sets"@ + " (0x80004005)"@,
            },
    {
        match self {
            SaveError::BufferEmpty => "buffer is empty".to_owned(),
            SaveError::Mux(e) => {
                let mut s = e.message();
                s.append(" (0x80004005)");
                s
            },
        }
    }
}

/// A clip that is ready to be written.
pub struct PreparedClip {
    pub clip: Clip,
    pub plan: MuxPlan,
}

/// Cuts the last `clip_seconds` out of what was recorded and works out how they
/// are written.
pub fn prepare_clip(snapshot: &Vec<Packet>, clip_seconds: u32, prm: &MuxParams) -> (r: Result<
    PreparedClip,
    SaveError,
>)
    requires
        trim_fits(snapshot@, clip_seconds),
    ensures
        r == Err::<PreparedClip, SaveError>(SaveError::BufferEmpty) <==> clip_start(
            snapshot@,
            clip_seconds,
        ) is None,
        clip_start(snapshot@, clip_seconds) matches Some(start) ==> {
            let video = stream_from(snapshot@, StreamKind::Video, start);
            let audio = stream_from(snapshot@, StreamKind::Audio, start);
            let with_audio = prm.audio is Some && audio.len() > 0;
            match r {
                Ok(p) => {
                    &&& p.clip.video@ == video
                    &&& p.clip.audio@ == audio
                    &&& p.clip.duration == video.last().pts + video.last().dur
                    &&& header_of(prm.seq_header, video) == Some(p.plan.seq_header@)
                    &&& p.plan.video.frame_size == prm.width * 0x1_0000_0000 + prm.height
                    &&& p.plan.video.frame_rate == prm.fps * 0x1_0000_0000 + 1
                    &&& p.plan.video.bitrate == prm.bitrate
                    &&& p.plan.video.pixel_aspect == 0x1_0000_0001
                    &&& p.plan.audio is Some <==> with_audio
                    &&& p.plan.audio matches Some(a) ==> a.same(prm.audio->0)
                    &&& p.plan.steps@ == write_order(video, audio, with_audio)
                },
                Err(e) => {
                    &&& e == SaveError::Mux(MuxError::NoParameterSets)
                    &&& header_of(prm.seq_header, video) is None
                },
            }
        },
{
    let clip: Clip = match trim(snapshot.as_slice(), clip_seconds) {
        Some(c) => c,
        None => return Err(SaveError::BufferEmpty),
    };
    match plan_clip(&clip, prm) {
        Ok(plan) => Ok(PreparedClip { clip, plan }),
        Err(e) => Err(SaveError::Mux(e)),
    }
}

/// A media time as the user sees it: in whole seconds, with a minus sign in front
/// of a time below zero, even if it is rounded to zero.
pub open spec fn seconds_text(t: int) -> Seq<char> {
    if t < 0 {
        "-"@ + decimal(whole_seconds(t) as nat)
    } else {
        decimal(whole_seconds(t) as nat)
    }
}

/// Appends a media time as the user sees it.
fn push_seconds(out: &mut String, t: i64)
    ensures
        final(out)@ == old(out)@ + seconds_text(t as int),
{
    let ghost before = out@;
    if t < 0 {
        out.append("-");
    }
    push_decimal(out, round_to_seconds(t));
    assert(out@ =~= before + seconds_text(t as int));
}

/// What the user is told once a save to `path` has come out.
pub fn save_balloon(outcome: SaveOutcome, path: &str) -> (b: Balloon)
    ensures
        match outcome {
            SaveOutcome::Saved(t) => {
                &&& b.title@ == "Clip saved"@
                &&& b.text@ == seconds_text(t as int) + " s — "@ + path@
                &&& !b.error
            },
            SaveOutcome::Failed(e) => {
                &&& b.title@ == "Clip failed"@
                &&& b.text@ == e@
                &&& b.error
            },
        },
{
    match outcome {
        SaveOutcome::Saved(t) => {
            let mut text = String::new();
            push_seconds(&mut text, t);
            assert(text@ =~= seconds_text(t as int));
            text.append(" s — ");
            text.append(path);
            Balloon { title: "Clip saved".to_owned(), text, error: false }
        },
        SaveOutcome::Failed(e) => Balloon { title: "Clip failed".to_owned(), text: e, error: true },
    }
}

/// What the user is told when there is nothing to save from.
pub fn not_running_balloon() -> (b: Balloon)
    ensures
        b.title@ == "Instant Replay"@,
        b.text@ == "Capture is not running"@,
        b.error,
{
    Balloon {
        title: "Instant Replay".to_owned(),
        text: "Capture is not running".to_owned(),
        error: true,
    }
}

// ---------------------------------------------------------------------------
// The video leg
// ---------------------------------------------------------------------------

/// Whether the screen is captured by DXGI duplication: if the user says so, or
/// if nobody says otherwise and the border of the other way cannot be removed.
pub fn use_duplication(backend: u32, border_removable: bool) -> (b: bool)
    ensures
        b == if backend == 1 {
            false
        } else if backend == 2 {
            true
        } else {
            !border_removable
        },
{
    if backend == 1 {
        false
    } else if backend == 2 {
        true
    } else {
        !border_removable
    }
}

/// What a video leg is built with.
#[derive(Clone, Copy)]
pub struct VideoPlan {
    pub out_w: u32,
    pub out_h: u32,
    pub fps: u32,
    pub bitrate: u32,
    pub gop_frames: u32,
}

/// Works out a video leg for a source of `in_w` by `in_h` pixels.
pub fn plan_video(runtime: &RuntimeConfig, in_w: u32, in_h: u32) -> (p: VideoPlan)
    requires
        runtime.bitrate_mbps * 1_000_000 <= u32::MAX,
        runtime.fps * runtime.gop_seconds <= u32::MAX,
    ensures
        (p.out_w as int, p.out_h as int) == output_dims(
            in_w as int,
            in_h as int,
            runtime.target_height as int,
        ),
        p.fps == runtime.fps,
        p.bitrate == runtime.bitrate_mbps * 1_000_000,
        p.gop_frames == runtime.fps * runtime.gop_seconds,
{
    let (out_w, out_h) = output_size(in_w, in_h, runtime.target_height());
    VideoPlan {
        out_w,
        out_h,
        fps: runtime.fps(),
        bitrate: runtime.bitrate_bps(),
        gop_frames: runtime.fps() * runtime.gop_seconds(),
    }
}

impl VideoPlan {
    /// What a clip from this leg is written with.
    pub fn mux_params(&self, seq_header: Option<Vec<u8>>, audio: Option<AudioParams>) -> (p:
        MuxParams)
        ensures
            p.width == self.out_w,
            p.height == self.out_h,
            p.fps == self.fps,
            p.bitrate == self.bitrate,
            p.seq_header == seq_header,
            p.audio == audio,
    {
        MuxParams {
            width: self.out_w,
            height: self.out_h,
            fps: self.fps,
            bitrate: self.bitrate,
            seq_header,
            audio,
        }
    }
}

/// How many conversions in a row may fail before the leg is given up.
pub const CONVERT_FAILURES: u32 = 30;

/// The way of a frame from capture to the encoder's queue. One leg asks for at
/// most one restart.
pub struct FramePath {
    pacer: Pacer,
    in_w: u32,
    in_h: u32,
    convert_fails: u32,
    restart_sent: bool,
}

/// What a frame path knows.
#[verifier::ext_equal]
pub struct FramePathModel {
    pub pacer: PacerModel,
    pub size: (u32, u32),
    pub fails: nat,
    pub sent: bool,
}

impl View for FramePath {
    type V = FramePathModel;

    closed spec fn view(&self) -> FramePathModel {
        FramePathModel {
            pacer: self.pacer@,
            size: (self.in_w, self.in_h),
            fails: self.convert_fails as nat,
            sent: self.restart_sent,
        }
    }
}

/// What is made of the size of a frame's content.
#[derive(Debug)]
pub enum ContentStep {
    /// It is that which the leg was built for.
    Same,
    /// It is another one. The frame is dropped, and this is sent to the
    /// supervisor.
    Changed(Option<Ctl>),
}

/// What happens on a frame path.
pub enum PathEvent {
    /// A frame arrives whose content has this size.
    Content((u32, u32)),
    /// A frame of the right size is handed on with its time.
    Frame(int),
    /// A conversion succeeds or fails.
    Converted(bool),
    /// The source goes.
    Closed,
}

impl FramePathModel {
    /// Whether the supervisor is told of an event.
    pub open spec fn reports(self, e: PathEvent) -> bool {
        !self.sent && match e {
            PathEvent::Content(size) => size != self.size,
            PathEvent::Frame(_) => false,
            PathEvent::Converted(ok) => !ok && self.fails + 1 == CONVERT_FAILURES,
            PathEvent::Closed => true,
        }
    }

    /// The path after an event.
    pub open spec fn after(self, e: PathEvent) -> FramePathModel {
        FramePathModel {
            sent: self.sent || self.reports(e),
            ..match e {
                PathEvent::Frame(pts) => FramePathModel { pacer: self.pacer.after(pts), ..self },
                PathEvent::Converted(ok) => FramePathModel {
                    fails: if ok {
                        0
                    } else {
                        self.fails + 1
                    },
                    ..self
                },
                _ => self,
            }
        }
    }

    /// Whether the pacer can take a frame that arrives at `pts`.
    pub open spec fn fits(self, pts: int) -> bool {
        self.pacer.fits(pts)
    }
}

impl FramePath {
    /// The path of frames of `in_w` by `in_h` pixels at `fps` frames a second.
    pub fn new(in_w: u32, in_h: u32, fps: u32) -> (p: FramePath)
        ensures
            p@ == (FramePathModel {
                pacer: PacerModel { interval: frame_interval(fps), next_due: 0 },
                size: (in_w, in_h),
                fails: 0,
                sent: false,
            }),
            0 <= p@.pacer.interval <= 10_000_000,
    {
        FramePath { pacer: Pacer::new(fps), in_w, in_h, convert_fails: 0, restart_sent: false }
    }

    /// Looks at the size of a frame's content. Another one than the leg was built
    /// for calls for a restart.
    pub fn content(&mut self, width: u32, height: u32) -> (r: ContentStep)
        ensures
            final(self)@ == old(self)@.after(PathEvent::Content((width, height))),
            r is Same <==> (width, height) == old(self)@.size,
            r matches ContentStep::Changed(told) ==> {
                &&& told is Some <==> old(self)@.reports(PathEvent::Content((width, height)))
                &&& told matches Some(c) ==> (c matches Ctl::VideoRestart(why) && why@
                    == "content size changed"@)
            },
    {
        if width == self.in_w && height == self.in_h {
            return ContentStep::Same;
        }
        if self.restart_sent {
            return ContentStep::Changed(None);
        }
        self.restart_sent = true;
        ContentStep::Changed(Some(Ctl::VideoRestart("content size changed")))
    }

    /// Whether a frame that arrives at `pts` can be taken.
    pub fn takes(&self, pts: i64) -> (b: bool)
        requires
            self@.pacer.interval >= 0,
        ensures
            b == self@.fits(pts as int),
    {
        self.pacer.takes(pts)
    }

    /// Takes a frame that arrives at `pts`: the time under which it is converted
    /// and queued, `None` if the pacer drops it.
    pub fn frame(&mut self, pts: i64) -> (r: Option<i64>)
        requires
            old(self)@.fits(pts as int),
        ensures
            final(self)@ == old(self)@.after(PathEvent::Frame(pts as int)),
            match r {
                Some(t) => old(self)@.pacer.accepted(pts as int) == Some(t as int),
                None => old(self)@.pacer.accepted(pts as int) is None,
            },
    {
        self.pacer.accept(pts)
    }

    /// Notes how a conversion came out. Hands back what is to be sent to the
    /// supervisor: that the leg has died, at the thirtieth failure in a row.
    pub fn converted(&mut self, failure: Option<String>) -> (r: Option<Ctl>)
        requires
            old(self)@.fails < u32::MAX,
        ensures
            final(self)@ == old(self)@.after(PathEvent::Converted(failure is None)),
            r is Some <==> old(self)@.reports(PathEvent::Converted(failure is None)),
            r matches Some(c) ==> (c matches Ctl::VideoLegDied(m) && m@ == "convert: "@
                + failure->0@),
    {
        match failure {
            None => {
                self.convert_fails = 0;
                None
            },
            Some(e) => {
                self.convert_fails += 1;
                if self.convert_fails == CONVERT_FAILURES && !self.restart_sent {
                    self.restart_sent = true;
                    let mut m = "convert: ".to_owned();
                    m.append(e.as_str());
                    Some(Ctl::VideoLegDied(m))
                } else {
                    None
                }
            },
        }
    }

    /// How many conversions in a row have failed.
    pub fn failures(&self) -> (n: u32)
        ensures
            n == self@.fails,
    {
        self.convert_fails
    }

    /// Notes that the source is gone. Hands back what is to be sent to the
    /// supervisor.
    pub fn closed(&mut self) -> (r: Option<Ctl>)
        ensures
            final(self)@ == old(self)@.after(PathEvent::Closed),
            r is Some <==> old(self)@.reports(PathEvent::Closed),
            r matches Some(c) ==> (c matches Ctl::VideoRestart(why) && why@
                == "capture source closed"@),
    {
        if self.restart_sent {
            return None;
        }
        self.restart_sent = true;
        Some(Ctl::VideoRestart("capture source closed"))
    }
}

// ---------------------------------------------------------------------------
// Laws
// ---------------------------------------------------------------------------

/// Law: waits grow with the failures and end at half a minute.
pub proof fn law_backoff_grows_to_half_a_minute(m: nat, n: nat)
    requires
        m <= n,
    ensures
        250_000_000 <= backoff_delay(m) <= backoff_delay(n) <= 30 * SECOND,
        n >= 3 ==> backoff_delay(n) == 30 * SECOND,
{
}

/// What happens to a supervisor.
pub enum Event {
    /// A message arrives, while a save is being written or not.
    Message(Ctl, bool),
    /// A build of the video leg succeeds or fails.
    Built(bool),
    /// The watchdog looks at the last output and at the media clock.
    Watchdog(int, int),
    /// The device and the source of a silent leg have been asked.
    Probed(bool, bool),
    /// The audio leg is looked after.
    AudioTick,
    /// A save that was put off is looked after, while another one is being
    /// written or not.
    SaveTick(bool),
}

impl Supervisor {
    /// The state after an event at `now`.
    pub open spec fn after_event(self, e: Event, now: u64) -> Supervisor {
        match e {
            Event::Message(msg, in_flight) => self.after(msg, now, in_flight),
            Event::Built(ok) => self.video_built(ok, now),
            Event::Watchdog(last_output, media_now) => match self.watched(
                last_output,
                now,
                media_now,
            ) {
                Watch::Fine => self.video_settled(now),
                Watch::Restart => self.video_restarted(now),
                Watch::Probe => self,
            },
            Event::Probed(device_ok, source_ok) => if device_ok && source_ok {
                self.video_settled(now)
            } else {
                self.video_restarted(now)
            },
            Event::AudioTick => self.audio_ticked(now),
            Event::SaveTick(in_flight) => self.save_ticked(in_flight),
        }
    }

    /// The state after a history of events, each at its time.
    pub open spec fn after_all(self, history: Seq<(Event, u64)>) -> Supervisor
        decreases history.len(),
    {
        if history.len() == 0 {
            self
        } else {
            self.after_all(history.drop_last()).after_event(history.last().0, history.last().1)
        }
    }
}

/// Law: the program never dies. Whatever has happened since it started, each leg
/// is up or is built again; half a minute after the last event at the latest, a
/// leg that is down is due.
pub proof fn law_never_dies(start: u64, history: Seq<(Event, u64)>, last: u64, now: u64)
    requires
        start <= last,
        last + 30 * SECOND <= now,
        forall|i: int| 0 <= i < history.len() ==> (#[trigger] history[i]).1 <= last,
    ensures
        ({
            let s = initial(start).after_all(history);
            &&& s.scheduled()
            &&& s.video_due(now) != VideoTick::Wait
            &&& s.audio || s.audio_due(now)
        }),
{
    lemma_history_is_scheduled(start, history, last);
}

proof fn lemma_history_is_scheduled(start: u64, history: Seq<(Event, u64)>, last: u64)
    requires
        start <= last,
        last + 30 * SECOND <= u64::MAX,
        forall|i: int| 0 <= i < history.len() ==> (#[trigger] history[i]).1 <= last,
    ensures
        ({
            let s = initial(start).after_all(history);
            &&& s.scheduled()
            &&& s.video_retry_at matches Some(t) ==> t <= last + 30 * SECOND
            &&& s.audio_retry_at matches Some(t) ==> t <= last + 30 * SECOND
        }),
    decreases history.len(),
{
    if history.len() > 0 {
        let before = history.drop_last();
        assert forall|i: int| 0 <= i < before.len() implies (#[trigger] before[i]).1 <= last by {
            assert(before[i] == history[i]);
        }
        lemma_history_is_scheduled(start, before, last);
        assert(history[history.len() - 1].1 <= last);
    }
}

/// Law: a leg that is down is built once its time has come, and a build leaves
/// the leg up or another time set, within half a minute.
pub proof fn law_due_legs_are_built(s: Supervisor, now: u64, ok: bool)
    requires
        s.scheduled(),
        now + 30 * SECOND <= u64::MAX,
    ensures
        s.video_up_since is None && now >= s.video_retry_at->0 ==> s.video_due(now)
            == VideoTick::Build,
        !s.audio && now >= s.audio_retry_at->0 ==> s.audio_due(now) && s.audio_ticked(now).audio,
        ({
            let t = s.video_built(ok, now);
            &&& t.scheduled()
            &&& ok ==> t.video_up_since is Some
            &&& !ok ==> now < t.video_retry_at->0 <= now + 30 * SECOND
        }),
{
}

/// Law: a save that was put off is not lost. Nothing that happens makes the
/// supervisor forget it, but for the turn in which it is taken up because no other
/// save is being written.
pub proof fn law_pending_save_is_kept(s: Supervisor, e: Event, now: u64)
    ensures
        s.pending_save && e != Event::SaveTick(false) ==> s.after_event(e, now).pending_save,
        e == Event::Message(Ctl::SaveClip, true) ==> s.after_event(e, now).pending_save,
        s.pending_save ==> s.save_taken_up(false) == Some(s.save_action(false)),
        s.save_taken_up(true) is None,
{
}

/// How often the audio leg has died in a history.
pub open spec fn audio_deaths(history: Seq<(Event, u64)>) -> nat
    decreases history.len(),
{
    if history.len() == 0 {
        0
    } else {
        audio_deaths(history.drop_last()) + (if is_audio_death(history.last().0) {
            1nat
        } else {
            0
        })
    }
}

/// The event tells that the audio leg has died.
pub open spec fn is_audio_death(e: Event) -> bool {
    e matches Event::Message(msg, _) && msg is AudioLegDied
}

impl Supervisor {
    /// The audio leg has been up for more than a minute at `now`.
    pub open spec fn audio_healthy(self, now: u64) -> bool {
        self.audio && self.audio_up_since is Some && elapsed(now, self.audio_up_since->0) > 60
            * SECOND
    }

    /// At no audio turn of a history has the audio leg been up for more than a
    /// minute.
    pub open spec fn no_healthy_minute(self, history: Seq<(Event, u64)>) -> bool {
        forall|i: int|
            0 <= i < history.len() && (#[trigger] history[i]).0 is AudioTick ==> !self.after_all(
                history.take(i),
            ).audio_healthy(history[i].1)
    }
}

proof fn lemma_audio_backoff(s: Supervisor, history: Seq<(Event, u64)>)
    requires
        s.audio_backoff == 0,
        s.no_healthy_minute(history),
        audio_deaths(history) <= usize::MAX,
    ensures
        s.after_all(history).audio_backoff == audio_deaths(history),
    decreases history.len(),
{
    if history.len() > 0 {
        let before = history.drop_last();
        assert forall|i: int| 0 <= i < before.len() && (
        #[trigger] before[i]).0 is AudioTick implies !s.after_all(before.take(i)).audio_healthy(
            before[i].1,
        ) by {
            assert(before[i] == history[i]);
            assert(before.take(i) =~= history.take(i));
        }
        lemma_audio_backoff(s, before);
        let last = history.len() - 1;
        assert(history.take(last) =~= before);
        assert(history[last] == history.last());
    }
}

/// Law: an audio leg that keeps dying is waited for longer and longer. After any
/// history with no healthy minute in it, the first death is followed by a wait of
/// 250 milliseconds, the second by one of a second, the third by one of five
/// seconds, and every further one by one of half a minute.
pub proof fn law_audio_retries_back_off(
    s: Supervisor,
    history: Seq<(Event, u64)>,
    death: Event,
    now: u64,
)
    requires
        s.audio_backoff == 0,
        s.no_healthy_minute(history),
        is_audio_death(death),
        audio_deaths(history) < usize::MAX,
        now + 30 * SECOND <= u64::MAX,
    ensures
        ({
            let n = audio_deaths(history.push((death, now)));
            let after = s.after_all(history.push((death, now)));
            let wait = after.audio_retry_at->0 - now;
            &&& !after.audio
            &&& after.audio_retry_at is Some
            &&& n >= 1
            &&& n == 1 ==> wait == 250_000_000
            &&& n == 2 ==> wait == SECOND
            &&& n == 3 ==> wait == 5 * SECOND
            &&& n >= 4 ==> wait == 30 * SECOND
        }),
{
    lemma_audio_backoff(s, history);
    assert(history.push((death, now)).drop_last() =~= history);
}

/// How many builds of the video leg have failed in a history.
pub open spec fn failed_builds(history: Seq<(Event, u64)>) -> nat
    decreases history.len(),
{
    if history.len() == 0 {
        0
    } else {
        failed_builds(history.drop_last()) + (if history.last().0 == Event::Built(false) {
            1nat
        } else {
            0
        })
    }
}

/// No build of the video leg has succeeded in a history.
pub open spec fn no_build_succeeded(history: Seq<(Event, u64)>) -> bool {
    forall|i: int| 0 <= i < history.len() ==> (#[trigger] history[i]).0 != Event::Built(true)
}

proof fn lemma_video_backoff(s: Supervisor, history: Seq<(Event, u64)>)
    requires
        s.video_backoff == 0,
        s.video_up_since is None,
        no_build_succeeded(history),
        failed_builds(history) <= usize::MAX,
    ensures
        s.after_all(history).video_up_since is None,
        s.after_all(history).video_backoff == failed_builds(history),
    decreases history.len(),
{
    if history.len() > 0 {
        let before = history.drop_last();
        assert forall|i: int| 0 <= i < before.len() implies (#[trigger] before[i]).0
            != Event::Built(true) by {
            assert(before[i] == history[i]);
        }
        lemma_video_backoff(s, before);
        assert(history[history.len() - 1] == history.last());
    }
}

/// Law: a video leg that cannot be built is waited for longer and longer. In a row
/// of failed builds the first is followed by a wait of 250 milliseconds, the second
/// by one of a second, the third by one of five seconds, and every further one by
/// one of half a minute, whatever else happens in between.
pub proof fn law_video_retries_back_off(s: Supervisor, history: Seq<(Event, u64)>, now: u64)
    requires
        s.video_backoff == 0,
        s.video_up_since is None,
        no_build_succeeded(history),
        failed_builds(history) < usize::MAX,
        now + 30 * SECOND <= u64::MAX,
    ensures
        ({
            let n = failed_builds(history.push((Event::Built(false), now)));
            let after = s.after_all(history.push((Event::Built(false), now)));
            let wait = after.video_retry_at->0 - now;
            &&& after.video_up_since is None
            &&& after.video_retry_at is Some
            &&& n >= 1
            &&& n == 1 ==> wait == 250_000_000
            &&& n == 2 ==> wait == SECOND
            &&& n == 3 ==> wait == 5 * SECOND
            &&& n >= 4 ==> wait == 30 * SECOND
        }),
{
    lemma_video_backoff(s, history);
    assert(history.push((Event::Built(false), now)).drop_last() =~= history);
}

/// `done` can come of the step `s`.
pub open spec fn comes_of(s: Step, done: Done) -> bool {
    match s {
        Step::Video => done is VideoDone || done is Panicked,
        Step::Audio => done is AudioDone || done is Panicked,
        Step::Save => done is SaveDone || done is Panicked,
        Step::Wait => done is Woken,
        Step::Handle(_) => done is Handled || done is Panicked,
        Step::TearDown | Step::WaitForSave => done is Down,
        Step::Exit => false,
    }
}

/// What the supervisor's thread has done, from its beginning on.
pub open spec fn is_run(trace: Seq<Done>) -> bool {
    forall|i: int|
        0 <= i < trace.len() ==> comes_of(
            if i == 0 {
                first_step()
            } else {
                step_after(trace[i - 1])
            },
            #[trigger] trace[i],
        )
}

/// The thread was told to stop.
pub open spec fn told_to_stop(done: Done) -> bool {
    match done {
        Done::Woken(Wakeup::Message(msg)) => msg is Quit,
        Done::Woken(Wakeup::Disconnected) => true,
        _ => false,
    }
}

/// Law: the thread runs until it is told to stop. Whatever comes in and whatever
/// panics, it tears down its legs and ends only after a quit message, or when nobody
/// is left who could send one; and it ends only after the legs are down.
pub proof fn law_runs_until_told_to_stop(trace: Seq<Done>)
    requires
        is_run(trace),
        trace.len() > 0,
    ensures
        ({
            let next = step_after(trace.last());
            &&& next is TearDown || next is WaitForSave || next is Exit ==> exists|i: int|
                0 <= i < trace.len() && told_to_stop(#[trigger] trace[i])
            &&& next is Exit ==> trace.last() is Down
        }),
    decreases trace.len(),
{
    let last = trace.last();
    assert(trace[trace.len() - 1] == last);
    if told_to_stop(last) {
    } else if last is Down {
        let before = trace.drop_last();
        assert(trace.len() > 1);
        assert forall|i: int| 0 <= i < before.len() implies comes_of(
            if i == 0 {
                first_step()
            } else {
                step_after(before[i - 1])
            },
            #[trigger] before[i],
        ) by {
            assert(before[i] == trace[i]);
        }
        assert(before.last() == trace[trace.len() - 2]);
        law_runs_until_told_to_stop(before);
        let i = choose|i: int| 0 <= i < before.len() && told_to_stop(#[trigger] before[i]);
        assert(trace[i] == before[i]);
    }
}

/// Law: once its legs are down, the thread waits ten seconds at most for a save that
/// is being written, and not at all if there is none.
pub proof fn law_last_wait_is_bounded(in_flight: bool, now: u64, stopped_at: u64)
    ensures
        step_after(Done::Down { in_flight, now, stopped_at }) == if in_flight && elapsed(
            now,
            stopped_at,
        ) < 10 * SECOND {
            Step::WaitForSave
        } else {
            Step::Exit
        },
{
}

/// How many of the events the supervisor is told of.
pub open spec fn reports_in(m: FramePathModel, events: Seq<PathEvent>) -> nat
    decreases events.len(),
{
    if events.len() == 0 {
        0
    } else {
        (if m.reports(events[0]) {
            1nat
        } else {
            0
        }) + reports_in(m.after(events[0]), events.skip(1))
    }
}

/// Law: a leg asks for one restart at most, whatever happens to its frames.
pub proof fn law_one_report_per_leg(m: FramePathModel, events: Seq<PathEvent>)
    ensures
        reports_in(m, events) <= 1,
        m.sent ==> reports_in(m, events) == 0,
    decreases events.len(),
{
    if events.len() > 0 {
        law_one_report_per_leg(m.after(events[0]), events.skip(1));
    }
}

/// Law: a request to save is put off exactly while another save is being written;
/// it is refused exactly when none is and there is no video leg; else a clip is
/// written, whatever the audio leg does. It is remembered if it was put off, and
/// changes nothing else.
pub proof fn law_saving_needs_video_alone(s: Supervisor, now: u64, in_flight: bool)
    ensures
        in_flight ==> s.action_on(Ctl::SaveClip, in_flight) == Action::Save(SaveAction::Deferred),
        !in_flight && s.video_up_since is Some ==> s.action_on(Ctl::SaveClip, in_flight)
            == Action::Save(SaveAction::Write),
        !in_flight && s.video_up_since is None ==> s.action_on(Ctl::SaveClip, in_flight)
            == Action::Save(SaveAction::NotRunning),
        s.action_on(Ctl::SaveClip, in_flight) == Action::Save(s.save_action(in_flight)),
        in_flight ==> s.after(Ctl::SaveClip, now, in_flight) == (Supervisor {
            pending_save: true,
            ..s
        }),
        !in_flight ==> s.after(Ctl::SaveClip, now, in_flight) == s,
        s.after(Ctl::SaveClip, now, in_flight) == s.save_asked(in_flight),
{
}

/// Law: two supervisors that agree on whether there is a video leg decide the same
/// about a request to save.
pub proof fn law_saving_depends_on_video_alone(s: Supervisor, t: Supervisor, in_flight: bool)
    requires
        s.video_up_since is Some <==> t.video_up_since is Some,
    ensures
        s.save_action(in_flight) == t.save_action(in_flight),
{
}

/// Law: a save that was put off is taken up as soon as no other one is being
/// written, once, and then it is decided as if it were asked for then. A turn without
/// one does nothing.
pub proof fn law_put_off_saves_are_taken_up_once(s: Supervisor, in_flight: bool)
    ensures
        s.save_taken_up(in_flight) is Some <==> s.pending_save && !in_flight,
        s.pending_save && !in_flight && s.video_up_since is Some ==> s.save_taken_up(in_flight)
            == Some(SaveAction::Write),
        s.pending_save && !in_flight && s.video_up_since is None ==> s.save_taken_up(in_flight)
            == Some(SaveAction::NotRunning),
        s.save_taken_up(in_flight) is Some ==> s.save_ticked(in_flight) == (Supervisor {
            pending_save: false,
            ..s
        }),
        s.save_taken_up(in_flight) is None ==> s.save_ticked(in_flight) == s,
        s.save_ticked(in_flight).save_taken_up(false) is Some ==> in_flight,
{
}

/// Law: what is done about the other messages. A clip length and the end are passed
/// on as they are, the cursor only to a leg that is there, and each message about a
/// leg tears down that leg and no other.
pub proof fn law_messages_do_what_they_say(
    s: Supervisor,
    n: u32,
    on: bool,
    why: &'static str,
    e: String,
    in_flight: bool,
)
    ensures
        s.action_on(Ctl::SetClipLen(n), in_flight) == Action::SetClipLen(n),
        s.video_up_since is Some ==> s.action_on(Ctl::CursorChanged(on), in_flight)
            == Action::SetCursor(on),
        s.video_up_since is None ==> s.action_on(Ctl::CursorChanged(on), in_flight)
            == Action::Nothing,
        s.action_on(Ctl::VideoRestart(why), in_flight) == Action::RestartVideo,
        s.action_on(Ctl::VideoLegDied(e), in_flight) == Action::RestartVideo,
        s.action_on(Ctl::AudioRestart(why), in_flight) == Action::RestartAudio,
        s.action_on(Ctl::AudioLegDied(e), in_flight) == Action::RestartAudio,
        s.action_on(Ctl::Quit, in_flight) == Action::Quit,
{
}

/// Law: what messages leave behind. A restart or a death of the video leg has it
/// built again at once and keeps its count of failures, and a restart of the audio
/// leg likewise; a death of the audio leg counts as a failure. The other leg and a
/// save that was put off are left alone, and the other messages change nothing.
pub proof fn law_messages_touch_one_leg(
    s: Supervisor,
    n: u32,
    on: bool,
    why: &'static str,
    e: String,
    now: u64,
    in_flight: bool,
)
    ensures
        s.after(Ctl::VideoRestart(why), now, in_flight) == (Supervisor {
            video_up_since: None,
            video_retry_at: Some(now),
            ..s
        }),
        s.after(Ctl::VideoLegDied(e), now, in_flight) == s.after(
            Ctl::VideoRestart(why),
            now,
            in_flight,
        ),
        s.after(Ctl::AudioRestart(why), now, in_flight) == (Supervisor {
            audio: false,
            audio_retry_at: Some(now),
            ..s
        }),
        ({
            let t = s.after(Ctl::AudioLegDied(e), now, in_flight);
            &&& !t.audio && t.audio_retry_at is Some
            &&& now + 30_000_000_000 <= u64::MAX ==> t.audio_retry_at->0 - now == (
            if s.audio_backoff == 0 {
                250_000_000int
            } else if s.audio_backoff == 1 {
                1_000_000_000
            } else if s.audio_backoff == 2 {
                5_000_000_000
            } else {
                30_000_000_000
            })
            &&& s.audio_backoff < usize::MAX ==> t.audio_backoff == s.audio_backoff + 1
            &&& t.audio_up_since == s.audio_up_since
            &&& t.video_up_since == s.video_up_since && t.video_backoff == s.video_backoff
            &&& t.video_retry_at == s.video_retry_at && t.pending_save == s.pending_save
        }),
        s.after(Ctl::SetClipLen(n), now, in_flight) == s,
        s.after(Ctl::CursorChanged(on), now, in_flight) == s,
        s.after(Ctl::Quit, now, in_flight) == s,
{
}

/// Law: after failures in a row the waits are 250 milliseconds, one second, five
/// seconds, and then always half a minute.
pub proof fn law_waits_between_tries(n: nat)
    ensures
        backoff_delay(0) == 250_000_000,
        backoff_delay(1) == 1_000_000_000,
        backoff_delay(2) == 5_000_000_000,
        n >= 3 ==> backoff_delay(n) == 30_000_000_000,
{
}

/// Law: what a build of the video leg leaves behind. One that succeeds has the leg
/// up from now on, forgets the failures and sets no other time; one that fails leaves
/// it down, counts, and sets a time. The audio leg and a save are left alone.
pub proof fn law_builds_touch_video_alone(s: Supervisor, ok: bool, now: u64)
    requires
        now + 30_000_000_000 <= u64::MAX,
        s.video_backoff < usize::MAX,
    ensures
        ({
            let t = s.video_built(ok, now);
            &&& ok ==> t.video_up_since == Some(now) && t.video_backoff == 0 && t.video_retry_at
                is None
            &&& !ok ==> t.video_up_since == s.video_up_since && t.video_backoff == s.video_backoff
                + 1
            &&& !ok && s.video_backoff == 0 ==> t.video_retry_at == Some((now + 250_000_000) as u64)
            &&& !ok && s.video_backoff == 1 ==> t.video_retry_at == Some(
                (now + 1_000_000_000) as u64,
            )
            &&& !ok && s.video_backoff == 2 ==> t.video_retry_at == Some(
                (now + 5_000_000_000) as u64,
            )
            &&& !ok && s.video_backoff >= 3 ==> t.video_retry_at == Some(
                (now + 30_000_000_000) as u64,
            )
            &&& t.audio == s.audio && t.audio_backoff == s.audio_backoff
            &&& t.audio_retry_at == s.audio_retry_at && t.audio_up_since == s.audio_up_since
            &&& t.pending_save == s.pending_save
        }),
{
}

/// Law: a leg is watched while it is there; without one, a time that has come has it
/// built, and an earlier time or none has it wait.
pub proof fn law_video_is_built_when_due(s: Supervisor, now: u64)
    ensures
        s.video_due(now) == VideoTick::Watch <==> s.video_up_since is Some,
        s.video_due(now) == VideoTick::Build <==> s.video_up_since is None && (s.video_retry_at
            matches Some(t) && t <= now),
{
}

/// Law: the audio leg is started when it is down and its time has come, and from then
/// on it is up. One that has been up for more than a minute has its failures
/// forgotten; before that, and while it is down, they are kept. The video leg and a
/// save are left alone.
pub proof fn law_audio_is_started_when_due(s: Supervisor, now: u64)
    ensures
        s.audio_due(now) <==> !s.audio && (s.audio_retry_at matches Some(t) && t <= now),
        ({
            let t = s.audio_ticked(now);
            &&& s.audio_due(now) ==> t.audio && t.audio_retry_at is None && t.audio_up_since
                == Some(now) && t.audio_backoff == s.audio_backoff
            &&& !s.audio_due(now) ==> t.audio == s.audio && t.audio_retry_at == s.audio_retry_at
                && t.audio_up_since == s.audio_up_since
            &&& s.audio && (s.audio_up_since matches Some(up) && now > up + 60_000_000_000)
                ==> t.audio_backoff == 0
            &&& !(s.audio && (s.audio_up_since matches Some(up) && now > up + 60_000_000_000))
                ==> t.audio_backoff == s.audio_backoff
            &&& t.video_up_since == s.video_up_since && t.video_backoff == s.video_backoff
            &&& t.video_retry_at == s.video_retry_at && t.pending_save == s.pending_save
        }),
{
}

/// Law: what the watchdog makes of a leg. One that never put anything out is torn
/// down once it has been up for more than half a minute; one that did is asked once
/// it has been silent for more than half a minute; any other is fine, and so is none.
pub proof fn law_when_legs_are_doubted(s: Supervisor, last_output: int, now: u64, media_now: int)
    ensures
        s.watched(last_output, now, media_now) == Watch::Restart <==> last_output == 0 && (
        s.video_up_since matches Some(up) && now > up + 30_000_000_000),
        s.watched(last_output, now, media_now) == Watch::Probe <==> last_output != 0
            && s.video_up_since is Some && media_now - last_output > 300_000_000,
{
}

/// Law: a video leg that has been up for more than a minute has its failures
/// forgotten, and nothing else changes.
pub proof fn law_healthy_video_is_forgiven(s: Supervisor, now: u64)
    ensures
        s.video_up_since matches Some(up) && now > up + 60_000_000_000 ==> s.video_settled(now) == (
        Supervisor { video_backoff: 0, ..s }),
        !(s.video_up_since matches Some(up) && now > up + 60_000_000_000) ==> s.video_settled(now)
            == s,
        s.video_restarted(now) == (Supervisor {
            video_up_since: None,
            video_retry_at: Some(now),
            ..s
        }),
        s.audio_restarted(now) == (Supervisor { audio: false, audio_retry_at: Some(now), ..s }),
{
}

/// Law: at the start nothing is up, nothing has failed, no save waits, and both legs
/// are due.
pub proof fn law_both_legs_are_due_at_the_start(now: u64)
    ensures
        ({
            let s = initial(now);
            &&& s.video_up_since is None && !s.audio && !s.pending_save
            &&& s.video_backoff == 0 && s.audio_backoff == 0
            &&& s.audio_up_since is None
            &&& s.video_retry_at == Some(now) && s.audio_retry_at == Some(now)
            &&& s.video_due(now) == VideoTick::Build && s.audio_due(now)
        }),
{
}

/// Law: each leg is up or has a time set, where the schedule is kept.
pub proof fn law_schedules_leave_no_leg_out(s: Supervisor)
    ensures
        s.scheduled() <==> (s.video_up_since is Some || s.video_retry_at is Some) && (s.audio
            || s.audio_retry_at is Some),
{
}

/// Law: how a turn goes. The thread begins with a turn. A turn looks after video,
/// then audio, then the save that was put off, and then waits. A message is handled,
/// as it came, before the next turn; half a second without one makes a turn too. A
/// panic ends the turn. A quit message and an end of all senders tear down.
pub proof fn law_how_turns_go(msg: Ctl)
    ensures
        first_step() is Video,
        step_after(Done::VideoDone) is Audio,
        step_after(Done::AudioDone) is Save,
        step_after(Done::SaveDone) is Wait,
        step_after(Done::Handled) is Video,
        step_after(Done::Panicked) is Wait,
        step_after(Done::Woken(Wakeup::Timeout)) is Video,
        step_after(Done::Woken(Wakeup::Disconnected)) is TearDown,
        msg is Quit ==> step_after(Done::Woken(Wakeup::Message(msg))) is TearDown,
        !(msg is Quit) ==> step_after(Done::Woken(Wakeup::Message(msg))) == Step::Handle(msg),
{
}

/// Law: the thread is gone ten seconds after it stopped at the latest, and before
/// that as soon as no save is being written.
pub proof fn law_the_end_is_waited_for(in_flight: bool, now: u64, stopped_at: u64)
    ensures
        step_after(Done::Down { in_flight, now, stopped_at }) is Exit <==> !in_flight || now
            >= stopped_at + 10_000_000_000,
        step_after(Done::Down { in_flight, now, stopped_at }) is WaitForSave <==> in_flight && now
            < stopped_at + 10_000_000_000,
{
}

/// Law: what the user reads of a clip's length. It is a whole number of seconds with
/// a minus sign in front of a length below zero, at most half a second off, and even
/// where two are as near; for lengths of less than fourteen years.
pub proof fn law_lengths_are_told_in_seconds(t: int) -> (n: nat)
    requires
        -4_503_599_627_370_496 < t < 4_503_599_627_370_496,
    ensures
        t >= 0 ==> seconds_text(t) == decimal(n),
        t < 0 ==> seconds_text(t) == seq!['-'] + decimal(n),
        t >= 0 ==> -5_000_000 <= n * 10_000_000 - t <= 5_000_000,
        t < 0 ==> -5_000_000 <= n * 10_000_000 + t <= 5_000_000,
        n % 2 == 1 ==> n * 10_000_000 - t != 5_000_000 && n * 10_000_000 - t != -5_000_000 && n
            * 10_000_000 + t != 5_000_000 && n * 10_000_000 + t != -5_000_000,
{
    law_whole_seconds(t);
    reveal_strlit("-");
    assert("-"@ =~= seq!['-']);
    whole_seconds(t) as nat
}

/// Law: when a leg asks for a restart. Only if it has not done so, and then if the
/// content has another size, if the source goes, or if the thirtieth conversion in a
/// row fails.
pub proof fn law_when_legs_ask_for_a_restart(m: FramePathModel, size: (u32, u32), pts: int)
    ensures
        m.sent ==> !m.reports(PathEvent::Content(size)) && !m.reports(PathEvent::Closed)
            && !m.reports(PathEvent::Converted(false)),
        !m.sent ==> (m.reports(PathEvent::Content(size)) <==> size.0 != m.size.0 || size.1
            != m.size.1),
        !m.sent ==> m.reports(PathEvent::Closed),
        !m.sent ==> (m.reports(PathEvent::Converted(false)) <==> m.fails == 29),
        !m.reports(PathEvent::Converted(true)),
        !m.reports(PathEvent::Frame(pts)),
{
}

/// Law: what a frame path remembers: how many conversions have failed in a row, that
/// it has asked for a restart, and when the next frame is due.
pub proof fn law_what_frame_paths_remember(m: FramePathModel, size: (u32, u32), pts: int)
    ensures
        m.after(PathEvent::Converted(true)).fails == 0,
        m.after(PathEvent::Converted(false)).fails == m.fails + 1,
        m.after(PathEvent::Closed).sent,
        m.sent ==> m.after(PathEvent::Content(size)).sent && m.after(
            PathEvent::Converted(true),
        ).sent && m.after(PathEvent::Converted(false)).sent && m.after(PathEvent::Frame(pts)).sent,
        !m.sent ==> !m.after(PathEvent::Content(m.size)).sent && !m.after(
            PathEvent::Converted(true),
        ).sent && !m.after(PathEvent::Frame(pts)).sent,
        !m.sent && m.fails != 29 ==> !m.after(PathEvent::Converted(false)).sent,
        m.fails == 29 ==> m.after(PathEvent::Converted(false)).sent,
        size != m.size ==> m.after(PathEvent::Content(size)).sent,
        m.after(PathEvent::Frame(pts)).pacer == m.pacer.after(pts),
        m.after(PathEvent::Frame(pts)).fails == m.fails,
        m.after(PathEvent::Content(size)).fails == m.fails,
        m.after(PathEvent::Content(size)).pacer == m.pacer,
        m.after(PathEvent::Converted(false)).pacer == m.pacer,
        m.after(PathEvent::Converted(true)).pacer == m.pacer,
        m.after(PathEvent::Content(size)).size == m.size,
        m.after(PathEvent::Frame(pts)).size == m.size,
        m.after(PathEvent::Converted(true)).size == m.size,
        m.after(PathEvent::Converted(false)).size == m.size,
        m.fits(pts) <==> m.pacer.fits(pts),
{
}

} // verus!

use clips::config::{Config, RuntimeConfig};
use clips::mux::{MuxError, MuxParams};
use clips::ring::{can_trim, Packet, Ring, StreamKind, SEC};
use clips::supervisor::{
    audio_report, backoff, begin, default_device_changed, encoder_report, keep_waiting,
    next_step, not_running_balloon, plan_video, prepare_clip, save_balloon, stops, use_duplication, Action,
    ContentStep, Ctl, Done, FramePath, LegOutcome, Probe, SaveAction, SaveError, SaveOutcome, Step, Supervisor,
    VideoTick, Wakeup, Watch, RING_BYTE_CAP, SECOND,
};

const MS: u64 = 1_000_000;

#[test]
fn waits_grow() {
    let waits: Vec<u64> = (0..6).map(backoff).collect();
    assert_eq!(
        waits,
        vec![250 * MS, SECOND, 5 * SECOND, 30 * SECOND, 30 * SECOND, 30 * SECOND]
    );
    assert_eq!(RING_BYTE_CAP, 400 * 1024 * 1024);
}

#[test]
fn both_legs_are_due_at_the_start() {
    let mut s = Supervisor::new(7);
    assert_eq!(s.tick_video(7), VideoTick::Build);
    assert!(s.tick_audio(7));
    assert!(s.audio);
    assert!(!s.tick_audio(8));
}

#[test]
fn failed_builds_are_tried_again_later_and_later() {
    let mut s = Supervisor::new(0);
    assert_eq!(s.try_build_video(false, 0), Some(250 * MS));
    assert_eq!(s.tick_video(249 * MS), VideoTick::Wait);
    assert_eq!(s.tick_video(250 * MS), VideoTick::Build);
    assert_eq!(s.try_build_video(false, 250 * MS), Some(SECOND));
    assert_eq!(s.try_build_video(false, 0), Some(5 * SECOND));
    assert_eq!(s.try_build_video(false, 0), Some(30 * SECOND));
    assert_eq!(s.try_build_video(false, 0), Some(30 * SECOND));
    assert_eq!(s.try_build_video(true, 9), None);
    assert_eq!(s.tick_video(9), VideoTick::Watch);
    assert_eq!(s.video_backoff, 0);
}

#[test]
fn messages_are_handled() {
    let mut s = Supervisor::new(0);
    assert_eq!(s.handle(&Ctl::CursorChanged(false), 1, false), Action::Nothing);
    assert_eq!(s.handle(&Ctl::SaveClip, 1, false), Action::Save(SaveAction::NotRunning));
    s.try_build_video(true, 1);
    s.tick_audio(1);
    assert_eq!(s.handle(&Ctl::CursorChanged(false), 2, false), Action::SetCursor(false));
    assert_eq!(s.handle(&Ctl::SetClipLen(15), 2, false), Action::SetClipLen(15));
    assert_eq!(s.handle(&Ctl::SaveClip, 2, false), Action::Save(SaveAction::Write));
    assert_eq!(s.handle(&Ctl::VideoRestart("x"), 5, false), Action::RestartVideo);
    assert_eq!(s.video_retry_at, Some(5));
    assert_eq!(s.tick_video(5), VideoTick::Build);
    assert_eq!(s.handle(&Ctl::AudioRestart("x"), 6, false), Action::RestartAudio);
    assert_eq!(s.audio_retry_at, Some(6));
    assert_eq!(s.handle(&Ctl::Quit, 7, false), Action::Quit);
}

#[test]
fn dead_legs_come_back() {
    let mut s = Supervisor::new(0);
    s.try_build_video(true, 0);
    s.tick_audio(0);
    let died = Ctl::VideoLegDied("gone".to_string());
    assert_eq!(s.handle(&died, 10, false), Action::RestartVideo);
    assert_eq!(s.tick_video(10), VideoTick::Build);
    let died = Ctl::AudioLegDied("gone".to_string());
    assert_eq!(s.handle(&died, 10, false), Action::RestartAudio);
    assert_eq!(s.audio_retry_at, Some(10 + 250 * MS));
    assert!(!s.tick_audio(10 + 249 * MS));
    assert!(s.tick_audio(10 + 250 * MS));
    assert_eq!(s.handle(&died, 0, false), Action::RestartAudio);
    assert_eq!(s.audio_retry_at, Some(SECOND));
    // A minute without trouble, and the count starts anew.
    assert!(s.tick_audio(SECOND));
    s.tick_audio(61 * SECOND);
    assert_eq!(s.audio_backoff, 2);
    s.tick_audio(61 * SECOND + 1);
    assert_eq!(s.audio_backoff, 0);
}

#[test]
fn saves_wait_for_each_other() {
    let mut s = Supervisor::new(0);
    s.try_build_video(true, 0);
    assert_eq!(s.handle(&Ctl::SaveClip, 1, true), Action::Save(SaveAction::Deferred));
    assert_eq!(s.handle(&Ctl::VideoRestart("x"), 2, true), Action::RestartVideo);
    assert!(s.pending_save);
    assert_eq!(s.tick_save(true), None);
    assert_eq!(s.tick_save(false), Some(SaveAction::NotRunning));
    assert_eq!(s.tick_save(false), None);
}

#[test]
fn the_watchdog_gives_a_new_leg_time() {
    let mut s = Supervisor::new(0);
    assert_eq!(s.watchdog(0, 0, 0), Watch::Fine);
    s.try_build_video(true, 0);
    assert_eq!(s.watchdog(0, 30 * SECOND, 1), Watch::Fine);
    assert_eq!(s.watchdog(0, 30 * SECOND + 1, 1), Watch::Restart);
    assert_eq!(s.video_retry_at, Some(30 * SECOND + 1));
}

#[test]
fn the_watchdog_asks_a_silent_leg() {
    let mut s = Supervisor::new(0);
    s.try_build_video(true, 0);
    assert_eq!(s.watchdog(5, 99, 5 + 30 * SEC), Watch::Fine);
    assert_eq!(s.watchdog(5, 99, 6 + 30 * SEC), Watch::Probe);
    assert_eq!(s.probed(true, true, 99, 400 * SEC), Probe::Postpone(375 * SEC));
    assert_eq!(s.tick_video(99), VideoTick::Watch);
    assert_eq!(s.probed(true, false, 99, 400 * SEC), Probe::Restart);
    assert_eq!(s.tick_video(99), VideoTick::Build);
    s.try_build_video(true, 99);
    assert_eq!(s.probed(false, true, 100, 400 * SEC), Probe::Restart);
    assert_eq!(s.video_up_since, None);
}

#[test]
fn a_healthy_minute_forgets_failures() {
    let mut s = Supervisor::new(0);
    s.try_build_video(true, 0);
    s.video_backoff = 3;
    assert_eq!(s.watchdog(5, 60 * SECOND, 5), Watch::Fine);
    assert_eq!(s.video_backoff, 3);
    assert_eq!(s.watchdog(5, 60 * SECOND + 1, 5), Watch::Fine);
    assert_eq!(s.video_backoff, 0);
}

#[test]
fn the_supervisor_stops_when_nobody_is_left() {
    assert!(stops(&Wakeup::Message(Ctl::Quit)));
    assert!(stops(&Wakeup::Disconnected));
    assert!(!stops(&Wakeup::Timeout));
    assert!(!stops(&Wakeup::Message(Ctl::SaveClip)));
    assert!(keep_waiting(true, 9, 0));
    assert!(!keep_waiting(false, 9, 0));
    assert!(!keep_waiting(true, 10 * SECOND, 0));
}

fn text_of(c: Option<Ctl>) -> String {
    match c {
        Some(Ctl::VideoLegDied(s)) => format!("video: {s}"),
        Some(Ctl::AudioLegDied(s)) => format!("audio: {s}"),
        Some(Ctl::VideoRestart(s)) => format!("video restart: {s}"),
        Some(Ctl::AudioRestart(s)) => format!("audio restart: {s}"),
        _ => String::new(),
    }
}

#[test]
fn threads_report_how_they_end() {
    assert_eq!(text_of(audio_report(LegOutcome::Stopped)), "");
    assert_eq!(text_of(audio_report(LegOutcome::Failed("no device".to_string()))), "audio: no device");
    assert_eq!(text_of(audio_report(LegOutcome::Panicked)), "audio: audio thread panicked");
    assert_eq!(text_of(encoder_report(LegOutcome::Stopped)), "");
    assert_eq!(text_of(encoder_report(LegOutcome::Failed("x".to_string()))), "video: encoder: x");
    assert_eq!(text_of(encoder_report(LegOutcome::Panicked)), "video: encoder panicked");
}

#[test]
fn new_default_devices_restart_the_sound() {
    for (flow, role, expected) in [
        (0, 0, "audio restart: default audio device changed"),
        (1, 0, "audio restart: default audio device changed"),
        (2, 0, ""),
        (0, 1, ""),
        (1, 2, ""),
    ] {
        assert_eq!(text_of(default_device_changed(flow, role)), expected);
    }
}

#[test]
fn the_user_is_told() {
    let b = save_balloon(SaveOutcome::Saved(30 * SEC + 4_000_000), "D:\\c.mp4");
    assert_eq!((b.title.as_str(), b.text.as_str(), b.error), ("Clip saved", "30 s — D:\\c.mp4", false));
    for (t, s) in [(0, "0"), (5_000_000, "0"), (5_000_001, "1"), (15_000_000, "2"), (25_000_000, "2"), (-1, "-0"), (-5_000_000, "-0"), (-15_000_000, "-2"), (-26_000_000, "-3")] {
        assert_eq!(save_balloon(SaveOutcome::Saved(t), "p").text, format!("{s} s — p"));
        assert_eq!(format!("{:.0}", t as f64 / 1e7), s);
    }
    let b = save_balloon(SaveOutcome::Failed("disk full".to_string()), "p");
    assert_eq!((b.title.as_str(), b.text.as_str(), b.error), ("Clip failed", "disk full", true));
    let b = not_running_balloon();
    assert_eq!(
        (b.title.as_str(), b.text.as_str(), b.error),
        ("Instant Replay", "Capture is not running", true)
    );
}

#[test]
fn the_backend_is_chosen() {
    assert!(!use_duplication(0, true));
    assert!(use_duplication(0, false));
    assert!(!use_duplication(1, false));
    assert!(use_duplication(2, true));
}

#[test]
fn a_leg_is_planned() {
    let rt = RuntimeConfig::from(&Config::parse("fps=120\nbitrate_mbps=25\ngop_seconds=3\n", None));
    let p = plan_video(&rt, 2560, 1440);
    assert_eq!((p.out_w, p.out_h, p.fps), (1920, 1080, 120));
    assert_eq!((p.bitrate, p.gop_frames), (25_000_000, 360));
    let m = p.mux_params(Some(vec![1]), None);
    assert_eq!((m.width, m.height, m.fps, m.bitrate), (1920, 1080, 120, 25_000_000));
    assert_eq!(m.seq_header, Some(vec![1]));
    assert!(m.audio.is_none());
}

#[test]
fn frames_are_paced_and_watched() {
    let mut p = FramePath::new(800, 600, 60);
    assert!(matches!(p.content(800, 600), ContentStep::Same));
    assert_eq!(p.frame(1_000_000), Some(1_000_000));
    assert_eq!(p.frame(1_050_000), None);
    assert_eq!(p.frame(1_170_000), Some(1_166_666));
    match p.content(1024, 768) {
        ContentStep::Changed(told) => {
            assert_eq!(text_of(told), "video restart: content size changed")
        }
        ContentStep::Same => panic!("not noticed"),
    }
    // Once is enough.
    assert!(matches!(p.content(1024, 768), ContentStep::Changed(None)));
    assert!(matches!(p.content(800, 600), ContentStep::Same));
    assert!(p.closed().is_none());
}

#[test]
fn thirty_failed_conversions_end_a_leg() {
    let mut p = FramePath::new(800, 600, 60);
    for _ in 0..29 {
        assert!(p.converted(Some("bad".to_string())).is_none());
    }
    assert!(p.converted(None).is_none());
    for _ in 0..29 {
        assert!(p.converted(Some("bad".to_string())).is_none());
    }
    assert_eq!(text_of(p.converted(Some("bad".to_string()))), "video: convert: bad");
    assert!(p.converted(Some("bad".to_string())).is_none());
    let mut p = FramePath::new(800, 600, 60);
    assert_eq!(text_of(p.closed()), "video restart: capture source closed");
    assert!(p.closed().is_none());
}

fn picture(pts: i64, keyframe: bool) -> Packet {
    let data = if keyframe { vec![0, 0, 0, 1, 0x42, 1, 5, 0, 0, 0, 1, 0x26, 1] } else { vec![1] };
    Packet { kind: StreamKind::Video, pts, dur: SEC / 60, keyframe, data: data.into() }
}

fn params() -> MuxParams {
    MuxParams { width: 800, height: 600, fps: 60, bitrate: 8_000_000, seq_header: None, audio: None }
}

#[test]
fn the_last_seconds_become_a_clip() {
    let mut ring = Ring::new(15, RING_BYTE_CAP);
    for i in 0..60 * 60 {
        ring.push(picture(SEC + i * SEC / 60, i % 120 == 0));
    }
    let snapshot = ring.snapshot();
    assert!(can_trim(&snapshot, 15));
    let p = prepare_clip(&snapshot, 15, &params()).unwrap();
    assert!(p.clip.video[0].keyframe);
    assert_eq!(p.clip.video[0].pts, 0);
    assert!(p.clip.duration >= 15 * SEC && p.clip.duration <= 18 * SEC);
    assert_eq!(p.plan.seq_header, vec![0, 0, 0, 1, 0x42, 1, 5]);
    assert_eq!(p.plan.steps.len(), p.clip.video.len());
    assert_eq!(p.plan.video.frame_size, (800u64 << 32) | 600);
}

#[test]
fn an_empty_buffer_gives_no_clip() {
    let e = prepare_clip(&vec![], 15, &params()).err().unwrap();
    assert_eq!(e, SaveError::BufferEmpty);
    assert_eq!(e.message(), "buffer is empty");
    let mut key = picture(SEC, true);
    key.data = vec![0, 0, 1, 0x26, 1].into();
    let e = prepare_clip(&vec![key], 15, &params()).err().unwrap();
    assert_eq!(e, SaveError::Mux(MuxError::NoParameterSets));
    assert_eq!(e.message(), "no HEVC parameter sets (0x80004005)");
}

fn go(done: Done) -> String {
    match next_step(done) {
        Step::Video => "video".to_string(),
        Step::Audio => "audio".to_string(),
        Step::Save => "save".to_string(),
        Step::Wait => "wait".to_string(),
        Step::Handle(msg) => format!("handle {msg:?}"),
        Step::TearDown => "tear down".to_string(),
        Step::WaitForSave => "wait for save".to_string(),
        Step::Exit => "exit".to_string(),
    }
}

#[test]
fn a_turn_has_an_order() {
    assert!(matches!(begin(), Step::Video));
    assert_eq!(go(Done::VideoDone), "audio");
    assert_eq!(go(Done::AudioDone), "save");
    assert_eq!(go(Done::SaveDone), "wait");
    assert_eq!(go(Done::Woken(Wakeup::Timeout)), "video");
    assert_eq!(go(Done::Woken(Wakeup::Message(Ctl::SetClipLen(15)))), "handle SetClipLen(15)");
    assert_eq!(go(Done::Handled), "video");
    assert_eq!(go(Done::Panicked), "wait");
}

#[test]
fn the_thread_ends_when_told_to() {
    assert_eq!(go(Done::Woken(Wakeup::Message(Ctl::Quit))), "tear down");
    assert_eq!(go(Done::Woken(Wakeup::Disconnected)), "tear down");
    let down = |in_flight, now| Done::Down { in_flight, now, stopped_at: 5 };
    assert_eq!(go(down(false, 5)), "exit");
    assert_eq!(go(down(true, 5)), "wait for save");
    assert_eq!(go(down(true, 4 + 10 * SECOND)), "wait for save");
    assert_eq!(go(down(true, 5 + 10 * SECOND)), "exit");
}

#[test]
fn an_audio_leg_that_keeps_dying_is_waited_for() {
    let mut s = Supervisor::new(0);
    let mut now = 0;
    for wait in [250 * MS, SECOND, 5 * SECOND, 30 * SECOND, 30 * SECOND] {
        assert!(s.tick_audio(now));
        now += 50 * SECOND;
        assert!(!s.tick_audio(now));
        s.handle(&Ctl::AudioLegDied("gone".to_string()), now, false);
        assert_eq!(s.audio_retry_at, Some(now + wait));
        now += wait;
    }
    // A restart in between does not count, and does not start the count anew.
    s.handle(&Ctl::AudioRestart("x"), now, false);
    s.handle(&Ctl::AudioLegDied("gone".to_string()), now, false);
    assert_eq!(s.audio_retry_at, Some(now + 30 * SECOND));
}

#[test]
fn a_frame_path_knows_its_limits() {
    let p = FramePath::new(800, 600, 60);
    assert!(p.takes(-1) && p.takes(5));
    assert!(!p.takes(i64::MAX));
}

#[test]
fn long_clips_are_rounded_in_double_precision() {
    let mut times = vec![0, 1, 999, i64::MAX, i64::MIN, i64::MIN + 1, i64::MAX - 1];
    for bits in 20..63 {
        for low in [0, 1, 5_000_000, 14_999_999, 15_000_000, 15_000_001] {
            times.push((1i64 << bits) + low - 1);
            times.push((1i64 << bits) / 10_000_000 * 10_000_000 + low - 10_000_000);
        }
    }
    // Whole and half seconds with little more or less than that.
    for secs in [3i64, 1 << 29, (1 << 30) + 1, 36_028_797_018, 900_000_000_000] {
        for off in [-2, -1, 0, 1, 2] {
            times.push(secs * 10_000_000 + 5_000_000 + off);
            times.push(-(secs * 10_000_000 + 5_000_000 + off));
        }
    }
    for t in times {
        let b = save_balloon(SaveOutcome::Saved(t), "p");
        assert_eq!(b.text, format!("{:.0} s — p", t as f64 / 1e7));
    }
    // The exact value would round up here.
    let t = 36_028_797_018 * 10_000_000 + 5_000_001;
    let text = save_balloon(SaveOutcome::Saved(t), "p").text;
    assert_eq!(text, "36028797018 s — p");
}

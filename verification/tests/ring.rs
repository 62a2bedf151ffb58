use clips::ring::{can_trim, trim, Packet, Ring, StreamKind, SEC};

fn pkt(kind: StreamKind, pts: i64, keyframe: bool) -> Packet {
    Packet {
        kind,
        pts,
        dur: SEC / 60,
        keyframe,
        data: vec![0u8; 100].into(),
    }
}

/// 60 fps video with keyframe every 120 frames, 50 Hz audio.
fn synthetic(seconds: i64) -> Vec<Packet> {
    let mut v = Vec::new();
    for i in 0..seconds * 60 {
        v.push(pkt(StreamKind::Video, i * SEC / 60, i % 120 == 0));
    }
    for i in 0..seconds * 50 {
        v.push(pkt(StreamKind::Audio, i * SEC / 50, true));
    }
    v.sort_by_key(|p| p.pts);
    v
}

#[test]
fn evicts_by_window() {
    let mut r = Ring::new(15, usize::MAX);
    for p in synthetic(60) {
        r.push(p);
    }
    let snap = r.snapshot();
    let newest = snap.iter().rev().find(|p| p.kind == StreamKind::Video).unwrap().pts;
    let oldest = snap.first().unwrap().pts;
    assert!(newest - oldest <= 18 * SEC + SEC, "window too large: {}", newest - oldest);
    assert!(newest - oldest >= 15 * SEC, "window too small: {}", newest - oldest);
}

#[test]
fn evicts_by_byte_cap() {
    let mut r = Ring::new(60, 5_000);
    for p in synthetic(10) {
        r.push(p);
    }
    assert!(r.bytes() <= 5_000);
}

#[test]
fn trim_starts_on_keyframe_and_rebases() {
    let mut r = Ring::new(30, usize::MAX);
    for p in synthetic(40) {
        r.push(p);
    }
    let clip = trim(&r.snapshot(), 30).unwrap();
    let first = &clip.video[0];
    assert!(first.keyframe);
    assert_eq!(first.pts, 0);
    // Duration within [30, 32] s: keyframe granularity is 2 s.
    assert!(clip.duration >= 30 * SEC && clip.duration <= 32 * SEC + SEC, "{}", clip.duration);
    // Audio never precedes video start.
    assert!(clip.audio.iter().all(|a| a.pts >= 0));
    // PTS strictly monotonic per stream.
    assert!(clip.video.windows(2).all(|w| w[0].pts < w[1].pts));
}

#[test]
fn trim_buffer_younger_than_window() {
    let snap = synthetic(5);
    let clip = trim(&snap, 30).unwrap();
    assert!(clip.video[0].keyframe);
    assert_eq!(clip.video[0].pts, 0);
    assert!(clip.duration <= 5 * SEC + SEC);
}

#[test]
fn trim_no_keyframe_returns_none() {
    let snap: Vec<Packet> = (0..100)
        .map(|i| pkt(StreamKind::Video, i * SEC / 60, false))
        .collect();
    assert!(trim(&snap, 30).is_none());
}

#[test]
fn trim_empty_returns_none() {
    assert!(trim(&[], 30).is_none());
    let audio_only: Vec<Packet> = (0..10).map(|i| pkt(StreamKind::Audio, i, true)).collect();
    assert!(trim(&audio_only, 30).is_none());
}

#[test]
fn clear_resets() {
    let mut r = Ring::new(30, usize::MAX);
    for p in synthetic(5) {
        r.push(p);
    }
    r.clear();
    assert_eq!(r.bytes(), 0);
    assert!(r.snapshot().is_empty());
}

#[test]
fn a_shorter_window_takes_hold_at_the_next_packet() {
    let mut r = Ring::new(60, usize::MAX);
    for p in synthetic(40) {
        r.push(p);
    }
    r.set_clip_seconds(15);
    assert_eq!(r.snapshot().len(), 40 * 110);
    r.push(pkt(StreamKind::Video, 40 * SEC, false));
    assert!(r.snapshot()[0].pts >= 22 * SEC);
    assert!(trim(&r.snapshot(), 15).unwrap().duration >= 15 * SEC);
}

#[test]
fn copies_share_the_payload() {
    let p = pkt(StreamKind::Audio, 5, true);
    let q = p.clone();
    assert!(std::sync::Arc::ptr_eq(&p.data, &q.data));
    assert_eq!((q.kind, q.pts, q.dur, q.keyframe), (p.kind, p.pts, p.dur, p.keyframe));
}

#[test]
fn a_clip_keeps_picture_and_sound_together() {
    let mut r = Ring::new(30, usize::MAX);
    for p in synthetic(50) {
        r.push(p);
    }
    let snap = r.snapshot();
    let clip = trim(&snap, 30).unwrap();
    let newest = snap.iter().rev().find(|p| p.kind == StreamKind::Video).unwrap().pts;
    let sound = snap.iter().rev().find(|p| p.kind == StreamKind::Audio).unwrap().pts;
    let (v, a) = (clip.video.last().unwrap().pts, clip.audio.last().unwrap().pts);
    assert_eq!(v - a, newest - sound);
}

#[test]
fn the_cap_is_hard() {
    let mut r = Ring::new(15, 1000);
    for p in synthetic(3) {
        assert!(r.takes(&p));
        r.push(p);
        assert!(r.bytes() <= 1000);
    }
    r.set_clip_seconds(60);
    assert_eq!(r.bytes(), 1000);
    // A packet larger than the cap leaves nothing.
    let mut big = pkt(StreamKind::Video, 4 * SEC, true);
    big.data = vec![0u8; 1001].into();
    r.push(big);
    assert_eq!(r.bytes(), 0);
    assert!(r.snapshot().is_empty());
    r.push(pkt(StreamKind::Audio, 4 * SEC, true));
    r.clear();
    assert_eq!(r.bytes(), 0);
}

#[test]
fn times_that_cannot_be_counted_are_noticed() {
    let r = Ring::new(15, 1000);
    assert!(r.takes(&pkt(StreamKind::Video, -5, true)));
    assert!(!r.takes(&pkt(StreamKind::Video, i64::MIN, true)));
    assert!(r.takes(&pkt(StreamKind::Audio, i64::MIN, true)));
    assert!(can_trim(&[], 60));
    assert!(can_trim(&synthetic(5), 60));
    assert!(can_trim(&[pkt(StreamKind::Video, -5, true)], 60));
    assert!(!can_trim(&[pkt(StreamKind::Video, i64::MIN, true)], 60));
    let mut last = pkt(StreamKind::Video, 5, true);
    last.dur = i64::MAX;
    assert!(can_trim(&[last.clone()], 0));
    assert!(!can_trim(&[pkt(StreamKind::Video, 4, true), last], 60));
    let far = [pkt(StreamKind::Video, -9, true), pkt(StreamKind::Audio, i64::MAX, true)];
    assert!(!can_trim(&far, 0));
}

#[test]
fn cutting_again_changes_nothing() {
    let clip = trim(&synthetic(60), 15).unwrap();
    let apart: Vec<Packet> = clip.video.iter().chain(clip.audio.iter()).cloned().collect();
    let mut mixed = apart.clone();
    mixed.sort_by_key(|p| p.pts);
    for packets in [apart, mixed] {
        let again = trim(&packets, 15).unwrap();
        let times = |v: &Vec<Packet>| v.iter().map(|p| p.pts).collect::<Vec<_>>();
        assert_eq!(times(&again.video), times(&clip.video));
        assert_eq!(times(&again.audio), times(&clip.audio));
        assert_eq!(again.duration, clip.duration);
    }
}

use clips::frames::{qpc_now, ticks_to_100ns, FrameQueue, Pacer, QFrame};

#[test]
fn paces_360_to_60() {
    let mut p = Pacer::new(60);
    let step = 10_000_000 / 360; // 360 Hz input
    let out: Vec<i64> = (1..=360).filter_map(|i| p.accept(i * step)).collect();
    assert!((59..=61).contains(&out.len()), "got {}", out.len());
    // Snapped: constant deltas of exactly 1/60 s within the run.
    let interval = 10_000_000 / 60;
    assert!(out.windows(2).all(|w| w[1] - w[0] == interval));
}

#[test]
fn passes_through_below_target() {
    let mut p = Pacer::new(60);
    let step = 10_000_000 / 30; // 30 Hz input
    let accepted = (1..=30).filter_map(|i| p.accept(i * step)).count();
    assert_eq!(accepted, 30);
}

#[test]
fn reanchors_after_gap() {
    let mut p = Pacer::new(60);
    assert_eq!(p.accept(10), Some(10));
    assert_eq!(p.accept(50_000_000), Some(50_000_000)); // 5 s gap re-anchors
    assert_eq!(p.accept(50_050_000), None); // 5 ms later: too soon
    assert!(p.accept(50_200_000).is_some()); // 20 ms later: due, snapped
}

#[test]
fn snapped_pts_monotonic() {
    let mut p = Pacer::new(60);
    let mut last = -1i64;
    for i in 1..1000 {
        if let Some(t) = p.accept(i * 27_000 + (i % 7) * 900) {
            assert!(t > last);
            last = t;
        }
    }
}

#[test]
fn queue_keeps_the_newest_four() {
    let mut q: FrameQueue<&str> = FrameQueue::new();
    for (i, name) in ["a", "b", "c", "d", "e", "f"].into_iter().enumerate() {
        q.push(QFrame { tex: name, pts: i as i64 });
    }
    let mut out = Vec::new();
    while let Some(f) = q.pop() {
        out.push((f.tex, f.pts));
    }
    assert_eq!(out, vec![("c", 2), ("d", 3), ("e", 4), ("f", 5)]);
    assert!(q.is_empty());
}

#[test]
fn ticks_scale_to_the_clock() {
    assert_eq!(ticks_to_100ns(24_000_000, 24_000_000), 10_000_000);
    assert_eq!(ticks_to_100ns(-5, 3), -16_666_666);
    assert_eq!(qpc_now(1, 0), 0);
    assert_eq!(qpc_now(7, 2), 35_000_000);
}

#[test]
fn a_pacer_knows_its_limits() {
    let mut p = Pacer::new(60);
    assert!(p.takes(-1) && p.takes(0) && p.takes(i64::MAX - 166_666));
    assert!(!p.takes(i64::MAX - 166_665));
    assert_eq!(p.accept(i64::MAX - 166_666), Some(i64::MAX - 166_666));
    assert!(p.takes(i64::MAX - 1));
    assert_eq!(p.accept(i64::MAX - 1), None);
}

use clips::local_time::LocalTime;
use clips::mux::{
    clip_filename, clip_path, extract_parameter_sets, interleave, plan_clip, AudioParams, MuxError, MuxParams,
};
use clips::ring::{Clip, Packet, StreamKind};

fn nal(ty: u8, payload: &[u8]) -> Vec<u8> {
    // HEVC NAL header: type in bits 6..1 of first byte.
    let mut v = vec![ty << 1, 0x01];
    v.extend_from_slice(payload);
    v
}

#[test]
fn extracts_vps_sps_pps() {
    let mut s = Vec::new();
    for (sc, ty) in [(4, 32u8), (3, 33), (4, 34), (4, 19)] {
        // 19 = IDR_W_RADL (VCL)
        s.extend_from_slice(if sc == 4 { &[0, 0, 0, 1][..] } else { &[0, 0, 1][..] });
        s.extend_from_slice(&nal(ty, &[0xAA, 0xBB]));
    }
    let ps = extract_parameter_sets(&s).unwrap();
    // Three parameter sets, each re-emitted with 4-byte start codes.
    let count = ps.windows(4).filter(|w| *w == [0, 0, 0, 1]).count();
    assert_eq!(count, 3);
    assert!(!ps.windows(2).any(|w| (w[0] >> 1) & 0x3f == 19 && w[1] == 0x01));
}

#[test]
fn none_when_no_parameter_sets() {
    let mut s = vec![0, 0, 0, 1];
    s.extend_from_slice(&nal(19, &[1, 2, 3]));
    assert!(extract_parameter_sets(&s).is_none());
    assert!(extract_parameter_sets(&[]).is_none());
}

#[test]
fn stops_at_first_vcl() {
    let mut s = Vec::new();
    s.extend_from_slice(&[0, 0, 0, 1]);
    s.extend_from_slice(&nal(33, &[1]));
    s.extend_from_slice(&[0, 0, 0, 1]);
    s.extend_from_slice(&nal(19, &[2]));
    s.extend_from_slice(&[0, 0, 0, 1]);
    s.extend_from_slice(&nal(34, &[3])); // PPS after VCL must be ignored
    let ps = extract_parameter_sets(&s).unwrap();
    let count = ps.windows(4).filter(|w| *w == [0, 0, 0, 1]).count();
    assert_eq!(count, 1);
}

#[test]
fn short_start_codes_come_out_long() {
    let s = [0, 0, 1, 0x40, 1, 7, 0, 0, 1, 0x4E, 1, 9, 0, 0, 1, 0x42, 1];
    assert_eq!(
        extract_parameter_sets(&s).unwrap(),
        vec![0, 0, 0, 1, 0x40, 1, 7, 0, 0, 0, 1, 0x42, 1]
    );
    // What comes out is taken as it is.
    let once = extract_parameter_sets(&s).unwrap();
    assert_eq!(extract_parameter_sets(&once).unwrap(), once);
}

fn packet(kind: StreamKind, pts: i64, data: &[u8]) -> Packet {
    Packet { kind, pts, dur: 10, keyframe: true, data: data.to_vec().into() }
}

fn clip(data: &[u8], audio: &[i64]) -> Clip {
    Clip {
        video: vec![
            packet(StreamKind::Video, 0, data),
            packet(StreamKind::Video, 100, &[1]),
            packet(StreamKind::Video, 200, &[2]),
        ],
        audio: audio.iter().map(|t| packet(StreamKind::Audio, *t, &[3])).collect(),
        duration: 210,
    }
}

fn params(seq_header: Option<Vec<u8>>, audio: bool) -> MuxParams {
    MuxParams {
        width: 1920,
        height: 1080,
        fps: 60,
        bitrate: 15_000_000,
        seq_header,
        audio: if audio {
            Some(AudioParams {
                sample_rate: 48_000,
                channels: 2,
                bytes_per_sec: 24_000,
                user_data: vec![0x11, 0x90],
            })
        } else {
            None
        },
    }
}

fn order(clip: &Clip, with_audio: bool) -> Vec<(StreamKind, usize)> {
    interleave(&clip.video, &clip.audio, with_audio).iter().map(|s| (s.kind, s.index)).collect()
}

#[test]
fn streams_are_written_in_the_order_of_their_times() {
    let c = clip(&[0], &[0, 50, 200, 300]);
    assert_eq!(
        order(&c, true),
        vec![
            (StreamKind::Video, 0),
            (StreamKind::Audio, 0),
            (StreamKind::Audio, 1),
            (StreamKind::Video, 1),
            (StreamKind::Video, 2),
            (StreamKind::Audio, 2),
            (StreamKind::Audio, 3),
        ]
    );
    assert_eq!(
        order(&c, false),
        vec![(StreamKind::Video, 0), (StreamKind::Video, 1), (StreamKind::Video, 2)]
    );
}

#[test]
fn a_clip_is_planned_with_the_announced_header() {
    let plan = plan_clip(&clip(&[0], &[0]), &params(Some(vec![9, 8, 7]), true)).unwrap();
    assert_eq!(plan.seq_header, vec![9, 8, 7]);
    assert_eq!(plan.video.frame_size, (1920u64 << 32) | 1080);
    assert_eq!(plan.video.frame_rate, (60u64 << 32) | 1);
    assert_eq!(plan.video.pixel_aspect, (1u64 << 32) | 1);
    assert_eq!(plan.video.bitrate, 15_000_000);
    let audio = plan.audio.unwrap();
    assert_eq!(audio.sample_rate, 48_000);
    assert_eq!(audio.user_data, vec![0x11, 0x90]);
    assert_eq!(plan.steps.len(), 4);
}

#[test]
fn a_clip_without_sound_has_no_audio_stream() {
    assert!(plan_clip(&clip(&[0], &[]), &params(Some(vec![1]), true)).unwrap().audio.is_none());
    let plan = plan_clip(&clip(&[0], &[0]), &params(Some(vec![1]), false)).unwrap();
    assert!(plan.audio.is_none());
    assert_eq!(plan.steps.len(), 3);
}

#[test]
fn the_header_comes_from_the_first_packet_if_need_be() {
    let data = [0, 0, 0, 1, 0x42, 1, 5, 0, 0, 0, 1, 0x26, 1, 6];
    let plan = plan_clip(&clip(&data, &[]), &params(None, false)).unwrap();
    assert_eq!(plan.seq_header, vec![0, 0, 0, 1, 0x42, 1, 5]);
}

#[test]
fn a_clip_without_parameter_sets_is_refused() {
    let e = plan_clip(&clip(&[0, 0, 1, 0x26, 1], &[]), &params(None, false)).err().unwrap();
    assert_eq!(e, MuxError::NoParameterSets);
    assert_eq!(e.message(), "no HEVC parameter sets");
}

#[test]
fn clips_are_named_by_the_time() {
    let t = LocalTime { year: 2026, month: 6, day: 11, hour: 18, minute: 4, second: 32, millis: 5 };
    assert_eq!(clip_filename(&t), "Clip 2026-06-11 18-04-32.mp4");
    assert_eq!(clip_path("D:\\c", &t), "D:\\c\\Clip 2026-06-11 18-04-32.mp4");
}

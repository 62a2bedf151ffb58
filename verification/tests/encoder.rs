use clips::clitest::{
    capture_exit, check_duration, check_first_sample, check_streams, encode_exit, leg_errors,
    record_config, record_exit, summarize, validate_mp4, Defect, FileFacts, FirstSample,
};
use clips::config::Config;
use clips::encoder::{
    check_async, check_found, encoded_frame, frame_duration, output_step, plan_encoder,
    video_packet, CodecProperty, CodecValue, EncodeLoop, EncodeStep, EncodedFrame, EncoderError,
    EventStep, OutputStep, VideoMeta, STREAM_CHANGE,
};
use clips::ring::StreamKind;
use clips::supervisor::Ctl;

fn frame(data: &[u8], pts: i64, keyframe: bool) -> EncodedFrame {
    EncodedFrame { data: data.to_vec().into(), pts, dur: 10, keyframe }
}

#[test]
fn pictures_become_packets() {
    let p = video_packet(frame(&[4, 5, 6], 77, true));
    assert_eq!((p.kind, p.pts, p.dur, p.keyframe), (StreamKind::Video, 77, 10, true));
    assert_eq!(&p.data[..], &[4, 5, 6]);
}

#[test]
fn samples_without_attributes_have_defaults() {
    let f = encoded_frame(vec![1].into(), None, None, None, 166_666);
    assert_eq!((f.pts, f.dur, f.keyframe), (0, 166_666, false));
    let f = encoded_frame(vec![1].into(), Some(3), Some(4), Some(1), 166_666);
    assert_eq!((f.pts, f.dur, f.keyframe), (3, 4, true));
    assert!(!encoded_frame(vec![1].into(), None, None, Some(0), 1).keyframe);
    assert_eq!(&f.data[..], &[1]);
    assert_eq!(frame_duration(60), 166_666);
    assert_eq!(frame_duration(0), 10_000_000);
}

#[test]
fn headers_are_kept() {
    let mut m = VideoMeta::default();
    assert!(m.seq_header.is_none());
    m.announce(Some(vec![1, 2]));
    m.announce(None);
    assert_eq!(m.clone().seq_header, Some(vec![1, 2]));
    m.announce(Some(vec![3]));
    assert_eq!(m.seq_header, Some(vec![3]));
}

#[test]
fn encoders_are_checked() {
    assert_eq!(check_found(0, true), Err(EncoderError::NotFound));
    assert_eq!(check_found(1, false), Err(EncoderError::NotFound));
    assert_eq!(check_found(1, true), Ok(()));
    assert_eq!(check_async(Some(1)), Ok(()));
    assert_eq!(check_async(Some(0)), Err(EncoderError::NotAsync));
    assert_eq!(check_async(None), Err(EncoderError::NotAsync));
    assert_eq!(EncoderError::NotFound.message(), "no hardware HEVC encoder found");
    assert_eq!(EncoderError::NotAsync.message(), "encoder MFT is not async");
}

#[test]
fn the_codec_is_set_up() {
    let p = plan_encoder(1920, 1080, 60, 15_000_000, 120);
    assert_eq!(p.format.frame_size, (1920u64 << 32) | 1080);
    assert_eq!(p.frame_dur, 166_666);
    assert_eq!(
        p.before_start,
        vec![
            (CodecProperty::RateControlMode, CodecValue::PeakConstrainedVbr),
            (CodecProperty::MeanBitRate, CodecValue::Number(15_000_000)),
            (CodecProperty::MaxBitRate, CodecValue::Number(25_000_000)),
            (CodecProperty::GopSize, CodecValue::Number(120)),
            (CodecProperty::LowLatency, CodecValue::Flag(true)),
            (CodecProperty::QualityVsSpeed, CodecValue::Number(70)),
        ]
    );
    assert_eq!(p.after_start, vec![(CodecProperty::ForceKeyFrame, CodecValue::Number(1))]);
    assert_eq!(CodecProperty::MaxBitRate.name(), "max_bitrate");
    assert_eq!(CodecProperty::ForceKeyFrame.name(), "force_keyframe");
}

#[test]
fn the_encoder_is_fed_when_it_asks() {
    let mut l = EncodeLoop::new();
    assert_eq!(l.next(false), EncodeStep::WaitForEvent);
    assert_eq!(l.event(601), EventStep::Nothing);
    assert_eq!(l.next(false), EncodeStep::WaitForFrame);
    assert_eq!(l.next(true), EncodeStep::Stop);
    l.fed();
    assert_eq!(l.next(false), EncodeStep::WaitForEvent);
    assert_eq!(l.event(602), EventStep::TakeOutput);
    assert_eq!(l.event(1), EventStep::Fail);
    assert_eq!(l.event(0), EventStep::Nothing);
    assert_eq!(l.next(false), EncodeStep::WaitForEvent);
}

#[test]
fn a_changed_stream_is_renegotiated() {
    assert_eq!(output_step(None), OutputStep::Take);
    assert_eq!(output_step(Some(STREAM_CHANGE)), OutputStep::Renegotiate);
    assert_eq!(output_step(Some(0x8000_4005)), OutputStep::Fail);
}

#[test]
fn an_encode_test_is_summed_up() {
    let s = summarize(&vec![frame(&[0, 0, 1, 9], 100, true), frame(&[8], 200, false)]);
    assert_eq!((s.samples, s.keys, s.span), (2, 1, 110));
    assert_eq!(s.stream, vec![0, 0, 1, 9, 8]);
    assert!(s.start_code);
    assert_eq!(encode_exit(&s), 0);
    let s = summarize(&vec![frame(&[0, 0, 0, 1], 0, false)]);
    assert!(s.start_code);
    assert_eq!(encode_exit(&s), 2);
    let s = summarize(&vec![frame(&[], 0, true)]);
    assert!(!s.start_code);
    assert_eq!(encode_exit(&s), 2);
    assert_eq!(encode_exit(&summarize(&vec![])), 2);
    assert_eq!(capture_exit(0), 2);
    assert_eq!(capture_exit(5), 0);
}

#[test]
fn a_record_test_covers_a_minute() {
    let c = record_config(Config::parse("fps=30\n", None), Some("dxgi".to_string()));
    assert_eq!((c.clip_seconds, c.backend.as_str(), c.fps), (60, "dxgi", 30));
    assert_eq!(record_config(Config::parse("", None), None).backend, "auto");
}

#[test]
fn dead_legs_are_counted() {
    let messages = vec![
        Ctl::VideoLegDied("a".to_string()),
        Ctl::SaveClip,
        Ctl::AudioLegDied("b".to_string()),
        Ctl::VideoRestart("c"),
    ];
    assert_eq!(leg_errors(&messages), 2);
    assert_eq!(leg_errors(&vec![]), 0);
    assert_eq!(record_exit(true, 0), 0);
    assert_eq!(record_exit(true, 2), 3);
    assert_eq!(record_exit(false, 0), 2);
}

#[test]
fn files_are_validated() {
    assert_eq!(check_streams(true, true, true), Ok(()));
    assert_eq!(check_streams(true, false, false), Ok(()));
    assert_eq!(check_streams(true, false, true), Err(Defect::MissingStream));
    assert_eq!(check_streams(false, true, false), Err(Defect::MissingStream));
    assert_eq!(check_duration(45_000_000, 8), Ok(()));
    assert_eq!(check_duration(44_999_999, 8), Err(Defect::DurationOutOfRange));
    assert_eq!(check_duration(105_000_000, 8), Ok(()));
    assert_eq!(check_duration(105_000_001, 8), Err(Defect::DurationOutOfRange));
    assert_eq!(check_duration(0, 0), Ok(()));
    assert_eq!(check_duration(i64::MAX, u64::MAX), Err(Defect::DurationOutOfRange));
    assert_eq!(check_first_sample(None), Err(Defect::NoFirstSample));
    let sample = |length, clean_point| Some(FirstSample { length, clean_point });
    assert_eq!(check_first_sample(sample(0, true)), Err(Defect::EmptyFirstSample));
    assert_eq!(check_first_sample(sample(9, false)), Err(Defect::NoSyncPoint));
    assert_eq!(check_first_sample(sample(9, true)), Ok(()));
    assert_eq!(Defect::MissingStream.message(), "missing stream");
    assert_eq!(Defect::DurationOutOfRange.message(), "duration out of range");
    assert_eq!(Defect::NoFirstSample.message(), "no first video sample");
    assert_eq!(Defect::EmptyFirstSample.message(), "empty first sample");
    assert_eq!(Defect::NoSyncPoint.message(), "first sample is not a sync point");
}

#[test]
fn a_whole_file_is_validated() {
    let first = Some(FirstSample { length: 9, clean_point: true });
    let good = FileFacts { video: true, second: true, duration: 80_000_000, first };
    assert_eq!(validate_mp4(&good, 8, true), Ok(()));
    let silent = FileFacts { second: false, ..good };
    assert_eq!(validate_mp4(&silent, 8, false), Ok(()));
    assert_eq!(validate_mp4(&silent, 8, true), Err(Defect::MissingStream));
    assert_eq!(validate_mp4(&good, 12, true), Err(Defect::DurationOutOfRange));
    let cut = FileFacts { first: None, ..good };
    assert_eq!(validate_mp4(&cut, 8, true), Err(Defect::NoFirstSample));
    assert_eq!(validate_mp4(&cut, 12, true), Err(Defect::DurationOutOfRange));
    let empty = FileFacts { first: Some(FirstSample { length: 0, clean_point: false }), ..good };
    assert_eq!(validate_mp4(&empty, 8, true), Err(Defect::EmptyFirstSample));
    let late = FileFacts { first: Some(FirstSample { length: 9, clean_point: false }), ..good };
    assert_eq!(validate_mp4(&late, 8, true), Err(Defect::NoSyncPoint));
}

#[test]
fn durations_compare_in_double_precision() {
    let holds = |d: i64, e: u64| {
        let s = d as f64 / 1e7;
        !(s < e as f64 - 3.5 || s > e as f64 + 2.5)
    };
    let mut secs = vec![0, 1, 3, 4, 5, 8, 60, 1 << 40, (1 << 41) - 1, 1 << 41, u64::MAX];
    for bits in 27..40 {
        secs.push((1 << bits) + 1);
    }
    for e in secs {
        let middle = (e.min(900_000_000_000) * 10_000_000) as i64;
        for edge in [middle - 35_000_000, middle, middle + 25_000_000, i64::MAX, i64::MIN] {
            for off in -300..300i64 {
                let d = edge.saturating_add(off);
                assert_eq!(check_duration(d, e).is_ok(), holds(d, e), "{d} {e}");
            }
        }
    }
}

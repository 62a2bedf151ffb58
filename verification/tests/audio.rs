use clips::audio::{
    aac_packet, audio_params, check_format, check_found, convert_pcm, device_label, drain_step,
    mic_choice, mix_fifo, output_buffer_size, parse_mix_format, pcm_duration, pcm_type,
    sample_kind, wait_ok, AudioError, AudioMixer, DrainStep, MicChoice, MixFormat, PcmData,
    SampleKind, NEED_MORE_INPUT, SUBTYPE_IEEE_FLOAT, WAVE_FORMAT_EXTENSIBLE, WAVE_FORMAT_IEEE_FLOAT,
};
use clips::ring::StreamKind;
use std::collections::VecDeque;

fn format(rate: u32, float: bool, bits: u32) -> MixFormat {
    MixFormat { rate, channels: 2, float, bits }
}

#[test]
fn mix_formats_are_read() {
    let m = parse_mix_format(WAVE_FORMAT_EXTENSIBLE, Some(SUBTYPE_IEEE_FLOAT), 48_000, 8, 32);
    assert_eq!((m.rate, m.channels, m.float, m.bits), (48_000, 8, true, 32));
    let pcm = 0x00000001_0000_0010_8000_00aa00389b71;
    assert!(!parse_mix_format(WAVE_FORMAT_EXTENSIBLE, Some(pcm), 48_000, 2, 16).float);
    assert!(!parse_mix_format(WAVE_FORMAT_EXTENSIBLE, None, 48_000, 2, 32).float);
    assert!(parse_mix_format(WAVE_FORMAT_IEEE_FLOAT, None, 48_000, 2, 32).float);
    assert!(!parse_mix_format(1, Some(SUBTYPE_IEEE_FLOAT), 44_100, 2, 16).float);
}

#[test]
fn formats_are_checked() {
    assert_eq!(check_format(&format(48_000, true, 32)), Ok(()));
    assert_eq!(check_format(&format(44_100, false, 16)), Ok(()));
    assert_eq!(check_format(&format(48_000, false, 32)), Ok(()));
    assert_eq!(check_format(&format(96_000, true, 32)), Err(AudioError::UnsupportedRate));
    assert_eq!(check_format(&format(48_000, false, 24)), Err(AudioError::UnsupportedFormat));
    assert_eq!(check_found(0, true), Err(AudioError::NoEncoder));
    assert_eq!(check_found(2, false), Err(AudioError::NoEncoder));
    assert_eq!(check_found(2, true), Ok(()));
    assert_eq!(AudioError::UnsupportedRate.message(), "unsupported mix sample rate for AAC");
    assert_eq!(AudioError::UnsupportedFormat.message(), "unsupported mix format");
    assert_eq!(AudioError::NoEncoder.message(), "no AAC encoder");
}

#[test]
fn samples_have_a_kind() {
    assert_eq!(sample_kind(&format(48_000, true, 32)), SampleKind::Float32);
    assert_eq!(sample_kind(&format(48_000, false, 16)), SampleKind::Int16);
    assert_eq!(sample_kind(&format(48_000, false, 32)), SampleKind::Int32);
    assert_eq!(sample_kind(&format(48_000, true, 64)), SampleKind::Int32);
}

#[test]
fn encoder_is_set_up() {
    let t = pcm_type(48_000);
    assert_eq!((t.channels, t.bits, t.block_align, t.avg_bytes_per_sec), (2, 16, 4, 192_000));
    assert_eq!(output_buffer_size(100), 8192);
    assert_eq!(output_buffer_size(10_000), 10_000);
    let p = audio_params(44_100, vec![1, 2]);
    assert_eq!((p.sample_rate, p.channels, p.bytes_per_sec), (44_100, 2, 24_000));
    assert_eq!(p.user_data, vec![1, 2]);
    assert_eq!(pcm_duration(96_000, 48_000), 10_000_000);
}

#[test]
fn microphones_are_named_and_chosen() {
    assert_eq!(device_label("Yeti".to_string(), 3), "Yeti");
    assert_eq!(device_label(String::new(), 0), "Microphone 1");
    assert_eq!(mic_choice("off"), MicChoice::Off);
    assert_eq!(mic_choice("default"), MicChoice::Default);
    assert_eq!(mic_choice("{0.0.1.00000000}.{abc}"), MicChoice::Device);
}

#[test]
fn outside_codes_are_told_apart() {
    assert!(wait_ok(0));
    assert!(wait_ok(258));
    assert!(!wait_ok(128));
    assert!(!wait_ok(u32::MAX));
    assert_eq!(drain_step(None), DrainStep::Take);
    assert_eq!(drain_step(Some(NEED_MORE_INPUT)), DrainStep::Done);
    assert_eq!(drain_step(Some(0x8000_4005)), DrainStep::Fail);
}

#[test]
fn sound_becomes_stereo() {
    assert_eq!(convert_pcm(&PcmData::Silent, 2, 6), vec![0, 0, 0, 0]);
    assert_eq!(convert_pcm(&PcmData::Int16(vec![1, 2, 3, 4]), 2, 2), vec![1, 2, 3, 4]);
    assert_eq!(convert_pcm(&PcmData::Int16(vec![5, 6]), 2, 1), vec![5, 5, 6, 6]);
    assert_eq!(
        convert_pcm(&PcmData::Int16(vec![1, 2, 9, 9, 3, 4, 9, 9]), 2, 4),
        vec![1, 2, 3, 4]
    );
    assert_eq!(
        convert_pcm(&PcmData::Int32(vec![0x0001_8000, -1, i32::MIN, i32::MAX]), 2, 2),
        vec![1, -1, -32768, 32767]
    );
}

#[test]
fn mixing_saturates() {
    let mut pcm = vec![100, -100, 32_000, -32_000, 7];
    let mut fifo: VecDeque<i16> = VecDeque::from(vec![1, -1, 1000, -1000]);
    mix_fifo(&mut pcm, &mut fifo);
    assert_eq!(pcm, vec![101, -101, 32_767, -32_768, 7]);
    assert!(fifo.is_empty());
    let mut fifo: VecDeque<i16> = VecDeque::from(vec![1, 2, 3]);
    mix_fifo(&mut vec![0], &mut fifo);
    assert_eq!(fifo, VecDeque::from(vec![2, 3]));
}

#[test]
fn the_first_sound_starts_the_timeline() {
    let mut m = AudioMixer::new(48_000);
    assert!(m.takes_packet(70_000_000, 480));
    let (fill, block) = m.packet(70_000_000, 480, vec![3; 960]);
    assert!(fill.is_none());
    assert_eq!(block.pts, 70_000_000);
    assert_eq!(block.pcm, vec![3; 960]);
    // Ten milliseconds later, the next block follows at once.
    let (fill, block) = m.packet(70_100_000, 480, vec![4; 960]);
    assert!(fill.is_none());
    assert_eq!(block.pts, 70_100_000);
}

#[test]
fn gaps_are_filled_with_silence() {
    let mut m = AudioMixer::new(48_000);
    m.packet(10_000_000, 480, vec![3; 960]);
    // One second of nothing.
    let (fill, block) = m.packet(20_100_000, 480, vec![4; 960]);
    let fill = fill.unwrap();
    assert_eq!(fill.pts, 10_100_000);
    assert_eq!(fill.pcm, vec![0; 96_000]);
    assert_eq!(block.pts, 20_100_000);
    // A gap of a minute is filled with no more than five seconds.
    let (fill, block) = m.packet(620_200_000, 480, vec![4; 960]);
    assert_eq!(fill.unwrap().pcm.len(), 5 * 96_000);
    assert_eq!(block.pts, 20_200_000 + 50_000_000);
}

#[test]
fn small_gaps_are_left() {
    let mut m = AudioMixer::new(48_000);
    m.packet(10_000_000, 480, vec![3; 960]);
    // 256 frames are 53333 units.
    let (fill, block) = m.packet(10_100_000 + 53_333, 480, vec![4; 960]);
    assert!(fill.is_none());
    assert_eq!(block.pts, 10_100_000);
    let (fill, _) = m.packet(10_200_000 + 53_334, 480, vec![4; 960]);
    assert_eq!(fill.unwrap().pcm.len(), 2 * 256);
}

#[test]
fn silence_is_made_up_behind_the_clock() {
    let mut m = AudioMixer::new(48_000);
    assert!(m.idle(99_000_000).is_none());
    m.packet(10_000_000, 480, vec![3; 960]);
    // 50 ms behind now, and 1024 frames more: nothing yet.
    assert!(m.idle(10_100_000 + 500_000 + 213_333).is_none());
    let b = m.idle(10_100_000 + 500_000 + 1_000_000).unwrap();
    assert_eq!(b.pts, 10_100_000);
    assert_eq!(b.pcm, vec![0; 2 * 4800]);
    // Half a second at most in one go.
    let b = m.idle(99_000_000).unwrap();
    assert_eq!(b.pts, 11_100_000);
    assert_eq!(b.pcm.len(), 48_000);
}

#[test]
fn the_microphone_is_mixed_in() {
    let mut m = AudioMixer::new(48_000);
    m.mic_samples(&vec![10, 20, 30, 40]);
    let (_, block) = m.packet(10_000_000, 1, vec![1, 2]);
    assert_eq!(block.pcm, vec![11, 22]);
    let (_, block) = m.packet(10_000_208, 2, vec![1, 2, 3, 4]);
    assert_eq!(block.pcm, vec![31, 42, 3, 4]);
    m.mic_samples(&vec![10, 20]);
    m.mic_lost();
    let (_, block) = m.packet(10_000_624, 1, vec![1, 2]);
    assert_eq!(block.pcm, vec![1, 2]);
}

#[test]
fn the_microphone_waits_no_longer_than_a_second() {
    let mut m = AudioMixer::new(44_100);
    let mut samples = vec![7; 88_200];
    samples.push(8);
    samples.push(9);
    m.mic_samples(&samples);
    let (_, block) = m.packet(1, 44_101, vec![0; 88_202]);
    assert_eq!(block.pcm[0], 7);
    assert_eq!(block.pcm[88_198], 8);
    assert_eq!(block.pcm[88_199], 9);
    assert_eq!(block.pcm[88_200], 0);
}

#[test]
fn times_that_cannot_be_counted_are_refused() {
    // Nothing has been fed, so a machine that has been up for a year is fine.
    let mut m = AudioMixer::new(48_000);
    assert!(m.takes_idle(315_360_000_000_000));
    assert!(m.idle(315_360_000_000_000).is_none());
    assert!(m.takes_idle(i64::MAX) && m.takes_idle(i64::MIN));
    assert!(m.takes_packet(315_360_000_000_000, 480));
    assert!(m.takes_packet(-5, 480));
    assert!(!m.takes_packet(i64::MAX, 480));
    assert!(m.takes_packet(i64::MAX, 0));
    // A gap of more than i64::MAX / 48000 cannot be scaled.
    m.packet(1, 0, vec![]);
    assert!(m.takes_packet(1 + i64::MAX / 48_000, 1));
    assert!(!m.takes_packet(2 + i64::MAX / 48_000, 1));
    assert!(m.takes_idle(1 + 500_000 + i64::MAX / 48_000));
    assert!(!m.takes_idle(2 + 500_000 + i64::MAX / 48_000));
    assert!(!m.takes_idle(i64::MIN));
}

#[test]
fn no_frames_need_no_channels() {
    assert!(convert_pcm(&PcmData::Int16(vec![]), 0, 0).is_empty());
    assert!(convert_pcm(&PcmData::Int32(vec![]), 0, 0).is_empty());
    assert!(convert_pcm(&PcmData::Int16(vec![1, 2]), 0, 2).is_empty());
}

#[test]
fn encoded_sound_becomes_packets() {
    let p = aac_packet(Some(5), Some(6), vec![1, 2].into(), 48_000).unwrap();
    assert_eq!((p.kind, p.pts, p.dur, p.keyframe), (StreamKind::Audio, 5, 6, true));
    assert_eq!(&p.data[..], &[1, 2]);
    let p = aac_packet(None, None, vec![1].into(), 48_000).unwrap();
    assert_eq!((p.pts, p.dur), (0, 213_333));
    assert!(aac_packet(Some(5), Some(6), vec![].into(), 48_000).is_none());
}

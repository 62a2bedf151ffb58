use clips::convert::{output_size, PoolCursor, POOL};
use clips::media::{pack, video_format};

#[test]
fn native_sizes_are_made_even() {
    assert_eq!(output_size(2560, 1440, 0), (2560, 1440));
    assert_eq!(output_size(1367, 769, 0), (1366, 768));
    assert_eq!(output_size(1920, 1080, 1440), (1920, 1080));
    assert_eq!(output_size(1920, 1080, 1080), (1920, 1080));
}

#[test]
fn larger_screens_are_scaled_down() {
    assert_eq!(output_size(3840, 2160, 1080), (1920, 1080));
    assert_eq!(output_size(3440, 1440, 1080), (2580, 1080));
    assert_eq!(output_size(2560, 1600, 1080), (1728, 1080));
    assert_eq!(output_size(1366, 768, 720), (1280, 720));
    assert_eq!(output_size(u32::MAX, u32::MAX, 720), (720, 720));
}

#[test]
fn slots_go_round() {
    let mut c = PoolCursor::new();
    let slots: Vec<usize> = (0..POOL + 2).map(|_| c.advance()).collect();
    assert_eq!(slots[0], 0);
    assert_eq!(slots[15], 15);
    assert_eq!(slots[16], 0);
    assert_eq!(slots[17], 1);
}

#[test]
fn formats_pack_two_numbers() {
    assert_eq!(pack(1, 2), 0x1_0000_0002);
    assert_eq!(pack(u32::MAX, u32::MAX), u64::MAX);
    let f = video_format(2560, 1440, 120, 25_000_000);
    assert_eq!(f.frame_size, 0xA00_0000_05A0);
    assert_eq!(f.frame_rate, 0x78_0000_0001);
}

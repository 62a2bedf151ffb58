//! Numbers that describe media formats.

use vstd::prelude::*;

verus! {

/// Two 32-bit numbers in one of 64 bits, as sizes and rates are written.
pub fn pack(hi: u32, lo: u32) -> (n: u64)
    ensures
        n == hi * 0x1_0000_0000 + lo,
{
    let h: u64 = hi as u64;
    let l: u64 = lo as u64;
    assert(((h << 32) | l) == h * 0x1_0000_0000 + l) by (bit_vector)
        requires
            h <= 0xFFFF_FFFF,
            l <= 0xFFFF_FFFF,
    ;
    (h << 32) | l
}

/// A video format: picture size, frames a second over one, bits a second, and
/// the shape of a pixel.
#[derive(Clone, Copy)]
pub struct VideoFormat {
    pub frame_size: u64,
    pub frame_rate: u64,
    pub bitrate: u32,
    pub pixel_aspect: u64,
}

/// The format of progressive video with square pixels.
pub fn video_format(width: u32, height: u32, fps: u32, bitrate: u32) -> (f: VideoFormat)
    ensures
        f.frame_size == width * 0x1_0000_0000 + height,
        f.frame_rate == fps * 0x1_0000_0000 + 1,
        f.bitrate == bitrate,
        f.pixel_aspect == 0x1_0000_0001,
{
    VideoFormat {
        frame_size: pack(width, height),
        frame_rate: pack(fps, 1),
        bitrate,
        pixel_aspect: pack(1, 1),
    }
}

} // verus!

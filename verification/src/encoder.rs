//! The hardware video encoder: what it is asked for, how its events are taken,
//! and what it puts out.

use crate::frames::frame_interval;
use crate::media::{video_format, VideoFormat};
use crate::ring::{Packet, StreamKind};
use std::sync::Arc;
use vstd::prelude::*;

verus! {

/// A picture as the encoder put it out.
pub struct EncodedFrame {
    pub data: Box<[u8]>,
    pub pts: i64,
    pub dur: i64,
    pub keyframe: bool,
}

/// What the encoder says of its stream.
pub struct VideoMeta {
    /// The parameter sets, once they were announced.
    pub seq_header: Option<Vec<u8>>,
}

impl Default for VideoMeta {
    fn default() -> (m: VideoMeta)
        ensures
            m.seq_header is None,
    {
        VideoMeta { seq_header: None }
    }
}

impl VideoMeta {
    /// The parameter sets that were announced.
    pub open spec fn header(self) -> Option<Seq<u8>> {
        match self.seq_header {
            Some(h) => Some(h@),
            None => None,
        }
    }

    /// Takes what a change of the stream announces. Without parameter sets the
    /// ones from before stay.
    pub fn announce(&mut self, header: Option<Vec<u8>>)
        ensures
            final(self).header() == match header {
                Some(h) => Some(h@),
                None => old(self).header(),
            },
    {
        if let Some(h) = header {
            self.seq_header = Some(h);
        }
    }
}

impl Clone for VideoMeta {
    fn clone(&self) -> (m: VideoMeta)
        ensures
            m.header() == self.header(),
    {
        match &self.seq_header {
            Some(h) => {
                let copy = h.clone();
                assert(copy@ =~= h@);
                VideoMeta { seq_header: Some(copy) }
            },
            None => VideoMeta { seq_header: None },
        }
    }
}

/// Moves bytes into shared memory (`Arc::from` on a boxed slice): the bytes are
/// the same.
#[verifier::external_body]
fn into_shared(data: Box<[u8]>) -> (shared: Arc<[u8]>)
    ensures
        shared@ == data@,
{
    Arc::from(data)
}

/// The packet of the ring for a picture.
pub fn video_packet(f: EncodedFrame) -> (p: Packet)
    ensures
        p.kind == StreamKind::Video,
        p.pts == f.pts,
        p.dur == f.dur,
        p.keyframe == f.keyframe,
        p.data@ == f.data@,
{
    Packet {
        kind: StreamKind::Video,
        pts: f.pts,
        dur: f.dur,
        keyframe: f.keyframe,
        data: into_shared(f.data),
    }
}

/// How long a frame lasts at `fps` frames a second.
pub fn frame_duration(fps: u32) -> (d: i64)
    ensures
        d == frame_interval(fps),
        fps == 0 ==> d == 10_000_000,
        fps > 0 ==> d as int * fps <= 10_000_000 < (d + 1) * fps,
{
    proof {
        crate::frames::law_distances_fill_a_second(fps);
    }
    if fps == 0 {
        10_000_000
    } else {
        10_000_000 / fps as i64
    }
}

/// What the encoder put out, as a picture. One without a time is at zero, one
/// without a length lasts a frame, and only a clean point is a keyframe.
pub fn encoded_frame(
    data: Box<[u8]>,
    pts: Option<i64>,
    dur: Option<i64>,
    clean_point: Option<u32>,
    frame_dur: i64,
) -> (f: EncodedFrame)
    ensures
        f.data == data,
        f.pts == match pts {
            Some(t) => t,
            None => 0,
        },
        f.dur == match dur {
            Some(d) => d,
            None => frame_dur,
        },
        f.keyframe == (clean_point == Some(1u32)),
{
    EncodedFrame {
        data,
        pts: match pts {
            Some(t) => t,
            None => 0,
        },
        dur: match dur {
            Some(d) => d,
            None => frame_dur,
        },
        keyframe: match clean_point {
            Some(n) => n == 1,
            None => false,
        },
    }
}

// ---------------------------------------------------------------------------
// Setting up
// ---------------------------------------------------------------------------

/// Why there is no encoder.
#[derive(Debug, Clone, Copy, PartialEq, Eq, Structural)]
pub enum EncoderError {
    NotFound,
    NotAsync,
}

impl EncoderError {
    /// The error in words.
    pub fn message(&self) -> (s: String)
        ensures
            s@ == match *self {
                EncoderError::NotFound => "no hardware HEVC encoder found"@,
                EncoderError::NotAsync => "encoder MFT is not async"@,
            },
    {
        match self {
            EncoderError::NotFound => "no hardware HEVC encoder found".to_owned(),
            EncoderError::NotAsync => "encoder MFT is not async".to_owned(),
        }
    }
}

/// Whether the search for encoders found one.
pub fn check_found(count: u32, listed: bool) -> (r: Result<(), EncoderError>)
    ensures
        r is Ok <==> count > 0 && listed,
        r matches Err(e) ==> e == EncoderError::NotFound,
{
    if count == 0 || !listed {
        Err(EncoderError::NotFound)
    } else {
        Ok(())
    }
}

/// Whether an encoder says that it works by events.
pub fn check_async(attribute: Option<u32>) -> (r: Result<(), EncoderError>)
    ensures
        r is Ok <==> attribute == Some(1u32),
        r matches Err(e) ==> e == EncoderError::NotAsync,
{
    match attribute {
        Some(n) => if n == 1 {
            Ok(())
        } else {
            Err(EncoderError::NotAsync)
        },
        None => Err(EncoderError::NotAsync),
    }
}

/// A property of the codec.
#[derive(Debug, Clone, Copy, PartialEq, Eq, Structural)]
pub enum CodecProperty {
    RateControlMode,
    MeanBitRate,
    MaxBitRate,
    GopSize,
    LowLatency,
    QualityVsSpeed,
    ForceKeyFrame,
}

/// The value of a property.
#[derive(Debug, Clone, Copy, PartialEq, Eq, Structural)]
pub enum CodecValue {
    Number(u32),
    Flag(bool),
    /// Variable bitrate with a bounded peak.
    PeakConstrainedVbr,
}

impl CodecProperty {
    /// The name that the log has for the property.
    pub fn name(&self) -> (s: &'static str)
        ensures
            s@ == match *self {
                CodecProperty::RateControlMode => "rate_control"@,
                CodecProperty::MeanBitRate => "mean_bitrate"@,
                CodecProperty::MaxBitRate => "max_bitrate"@,
                CodecProperty::GopSize => "gop_size"@,
                CodecProperty::LowLatency => "low_latency"@,
                CodecProperty::QualityVsSpeed => "quality_vs_speed"@,
                CodecProperty::ForceKeyFrame => "force_keyframe"@,
            },
    {
        match self {
            CodecProperty::RateControlMode => "rate_control",
            CodecProperty::MeanBitRate => "mean_bitrate",
            CodecProperty::MaxBitRate => "max_bitrate",
            CodecProperty::GopSize => "gop_size",
            CodecProperty::LowLatency => "low_latency",
            CodecProperty::QualityVsSpeed => "quality_vs_speed",
            CodecProperty::ForceKeyFrame => "force_keyframe",
        }
    }
}

/// What the encoder is set up with.
pub struct EncoderPlan {
    /// Its output; its input has the same frame size and rate.
    pub format: VideoFormat,
    pub frame_dur: i64,
    /// What is set before it starts, in this order.
    pub before_start: Vec<(CodecProperty, CodecValue)>,
    /// What is set once it has started: the first picture that can stand in a
    /// file comes within a frame and not within a whole group of them.
    pub after_start: Vec<(CodecProperty, CodecValue)>,
}

/// Works out how the encoder is set up.
pub fn plan_encoder(width: u32, height: u32, fps: u32, bitrate: u32, gop_frames: u32) -> (p:
    EncoderPlan)
    requires
        bitrate as int / 3 * 5 <= u32::MAX,
    ensures
        p.format.frame_size == width * 0x1_0000_0000 + height,
        p.format.frame_rate == fps * 0x1_0000_0000 + 1,
        p.format.bitrate == bitrate,
        p.format.pixel_aspect == 0x1_0000_0001,
        p.frame_dur == frame_interval(fps),
        p.before_start@ == seq![
            (CodecProperty::RateControlMode, CodecValue::PeakConstrainedVbr),
            (CodecProperty::MeanBitRate, CodecValue::Number(bitrate)),
            (CodecProperty::MaxBitRate, CodecValue::Number((bitrate as int / 3 * 5) as u32)),
            (CodecProperty::GopSize, CodecValue::Number(gop_frames)),
            (CodecProperty::LowLatency, CodecValue::Flag(true)),
            (CodecProperty::QualityVsSpeed, CodecValue::Number(70)),
        ],
        p.after_start@ == seq![(CodecProperty::ForceKeyFrame, CodecValue::Number(1))],
{
    let mut before: Vec<(CodecProperty, CodecValue)> = Vec::new();
    before.push((CodecProperty::RateControlMode, CodecValue::PeakConstrainedVbr));
    before.push((CodecProperty::MeanBitRate, CodecValue::Number(bitrate)));
    before.push((CodecProperty::MaxBitRate, CodecValue::Number(bitrate / 3 * 5)));
    before.push((CodecProperty::GopSize, CodecValue::Number(gop_frames)));
    before.push((CodecProperty::LowLatency, CodecValue::Flag(true)));
    before.push((CodecProperty::QualityVsSpeed, CodecValue::Number(70)));
    let mut after: Vec<(CodecProperty, CodecValue)> = Vec::new();
    after.push((CodecProperty::ForceKeyFrame, CodecValue::Number(1)));
    EncoderPlan {
        format: video_format(width, height, fps, bitrate),
        frame_dur: frame_duration(fps),
        before_start: before,
        after_start: after,
    }
}

// ---------------------------------------------------------------------------
// The loop
// ---------------------------------------------------------------------------

/// The encoder reports an error.
pub const ME_ERROR: i32 = 1;

/// The encoder takes a frame.
pub const ME_TRANSFORM_NEED_INPUT: i32 = 601;

/// The encoder has a picture ready.
pub const ME_TRANSFORM_HAVE_OUTPUT: i32 = 602;

/// What the encoding thread does next.
#[derive(Debug, Clone, Copy, PartialEq, Eq, Structural)]
pub enum EncodeStep {
    Stop,
    /// Wait for an event.
    WaitForEvent,
    /// Wait a moment for a frame, and feed it if one came.
    WaitForFrame,
}

/// What an event asks for at once.
#[derive(Debug, Clone, Copy, PartialEq, Eq, Structural)]
pub enum EventStep {
    Nothing,
    /// A picture is taken out.
    TakeOutput,
    /// The encoder has failed.
    Fail,
}

/// Where the encoding thread stands.
pub struct EncodeLoop {
    /// The encoder waits for a frame.
    pub wants_frame: bool,
}

impl EncodeLoop {
    /// At the start the encoder has asked for nothing.
    pub fn new() -> (l: EncodeLoop)
        ensures
            !l.wants_frame,
    {
        EncodeLoop { wants_frame: false }
    }

    /// What is done next, once the thread is told to stop or not.
    pub fn next(&self, stop: bool) -> (s: EncodeStep)
        ensures
            s == if stop {
                EncodeStep::Stop
            } else if self.wants_frame {
                EncodeStep::WaitForFrame
            } else {
                EncodeStep::WaitForEvent
            },
    {
        if stop {
            EncodeStep::Stop
        } else if self.wants_frame {
            EncodeStep::WaitForFrame
        } else {
            EncodeStep::WaitForEvent
        }
    }

    /// Takes an event of the encoder.
    pub fn event(&mut self, ty: i32) -> (s: EventStep)
        ensures
            s == if ty == ME_TRANSFORM_HAVE_OUTPUT {
                EventStep::TakeOutput
            } else if ty == ME_ERROR {
                EventStep::Fail
            } else {
                EventStep::Nothing
            },
            final(self).wants_frame == (old(self).wants_frame || ty == ME_TRANSFORM_NEED_INPUT),
            s == EventStep::Fail <==> ty == 1,
            s == EventStep::TakeOutput <==> ty == 602,
            final(self).wants_frame <==> old(self).wants_frame || ty == 601,
    {
        if ty == ME_TRANSFORM_NEED_INPUT {
            self.wants_frame = true;
            EventStep::Nothing
        } else if ty == ME_TRANSFORM_HAVE_OUTPUT {
            EventStep::TakeOutput
        } else if ty == ME_ERROR {
            EventStep::Fail
        } else {
            EventStep::Nothing
        }
    }

    /// Notes that a frame was fed.
    pub fn fed(&mut self)
        ensures
            !final(self).wants_frame,
    {
        self.wants_frame = false;
    }
}

/// The code by which an encoder says that its stream has changed.
pub const STREAM_CHANGE: u32 = 0xC00D_6D61;

/// What comes of asking an encoder for output.
#[derive(Debug, Clone, Copy, PartialEq, Eq, Structural)]
pub enum OutputStep {
    /// There is a picture, or none.
    Take,
    /// The new type is accepted and its parameter sets are taken.
    Renegotiate,
    Fail,
}

/// What comes of asking the encoder for output, by the code of its failure.
pub fn output_step(failure: Option<u32>) -> (s: OutputStep)
    ensures
        s == match failure {
            None => OutputStep::Take,
            Some(code) => if code == STREAM_CHANGE {
                OutputStep::Renegotiate
            } else {
                OutputStep::Fail
            },
        },
        s == OutputStep::Renegotiate <==> failure == Some(0xC00D_6D61u32),
{
    match failure {
        None => OutputStep::Take,
        Some(code) => if code == STREAM_CHANGE {
            OutputStep::Renegotiate
        } else {
            OutputStep::Fail
        },
    }
}

} // verus!

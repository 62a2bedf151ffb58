//! The sound of a clip: device formats, the microphone mixed onto the system's
//! sound, and the timeline that is fed to the encoder without gaps.

use crate::mux::AudioParams;
use crate::ring::{Packet, StreamKind, SEC};
use crate::text::{decimal, push_decimal, same_text};
use std::collections::VecDeque;
use std::sync::Arc;
use vstd::prelude::*;

verus! {

/// What the AAC encoder puts out a second.
pub const AAC_BYTES_PER_SEC: u32 = 24_000;

/// How far behind the clock silence is made up: 50 ms.
pub const SILENCE_MARGIN: i64 = 500_000;

// ---------------------------------------------------------------------------
// Formats
// ---------------------------------------------------------------------------

/// The format that a device delivers sound in.
#[derive(Clone, Copy)]
pub struct MixFormat {
    pub rate: u32,
    pub channels: u32,
    pub float: bool,
    pub bits: u32,
}

/// The tag of an extensible format, whose subformat says what its samples are.
pub const WAVE_FORMAT_EXTENSIBLE: u16 = 0xFFFE;

/// The tag of a format with floating-point samples.
pub const WAVE_FORMAT_IEEE_FLOAT: u16 = 3;

/// The subformat with floating-point samples, as a number of 128 bits.
pub const SUBTYPE_IEEE_FLOAT: u128 = 0x00000003_0000_0010_8000_00aa00389b71;

/// Reads a device's format: its samples are floats if its tag says so or, where
/// the tag leaves it to the subformat, if that does.
pub fn parse_mix_format(
    tag: u16,
    subformat: Option<u128>,
    rate: u32,
    channels: u16,
    bits: u16,
) -> (m: MixFormat)
    ensures
        m.rate == rate,
        m.channels == channels,
        m.bits == bits,
        m.float == if tag == WAVE_FORMAT_EXTENSIBLE {
            subformat == Some(SUBTYPE_IEEE_FLOAT)
        } else {
            tag == WAVE_FORMAT_IEEE_FLOAT
        },
{
    let float: bool = if tag == WAVE_FORMAT_EXTENSIBLE {
        match subformat {
            Some(id) => id == SUBTYPE_IEEE_FLOAT,
            None => false,
        }
    } else {
        tag == WAVE_FORMAT_IEEE_FLOAT
    };
    MixFormat { rate, channels: channels as u32, float, bits: bits as u32 }
}

/// Why a device cannot be recorded.
#[derive(Debug, Clone, Copy, PartialEq, Eq, Structural)]
pub enum AudioError {
    /// The AAC encoder does not take this sample rate.
    UnsupportedRate,
    /// The samples are of a kind that is not converted.
    UnsupportedFormat,
    /// There is no AAC encoder.
    NoEncoder,
}

impl AudioError {
    /// The error in words.
    pub fn message(&self) -> (s: String)
        ensures
            s@ == match *self {
                AudioError::UnsupportedRate => "unsupported mix sample rate for AAC"@,
                AudioError::UnsupportedFormat => "unsupported mix format"@,
                AudioError::NoEncoder => "no AAC encoder"@,
            },
    {
        match self {
            AudioError::UnsupportedRate => "unsupported mix sample rate for AAC".to_owned(),
            AudioError::UnsupportedFormat => "unsupported mix format".to_owned(),
            AudioError::NoEncoder => "no AAC encoder".to_owned(),
        }
    }
}

/// Whether the search for encoders found one.
pub fn check_found(count: u32, listed: bool) -> (r: Result<(), AudioError>)
    ensures
        r is Ok <==> count > 0 && listed,
        r matches Err(e) ==> e == AudioError::NoEncoder,
{
    if count == 0 || !listed {
        Err(AudioError::NoEncoder)
    } else {
        Ok(())
    }
}

/// Whether sound in the format `m` can be recorded: at 48 or 44.1 kHz, in floats
/// or in integers of 16 or 32 bits.
pub fn check_format(m: &MixFormat) -> (r: Result<(), AudioError>)
    ensures
        r == if m.rate != 48_000 && m.rate != 44_100 {
            Err::<(), AudioError>(AudioError::UnsupportedRate)
        } else if !m.float && m.bits != 16 && m.bits != 32 {
            Err(AudioError::UnsupportedFormat)
        } else {
            Ok(())
        },
{
    if m.rate != 48_000 && m.rate != 44_100 {
        return Err(AudioError::UnsupportedRate);
    }
    if !m.float && m.bits != 16 && m.bits != 32 {
        return Err(AudioError::UnsupportedFormat);
    }
    Ok(())
}

/// What a device's samples are read as.
#[derive(Debug, Clone, Copy, PartialEq, Eq, Structural)]
pub enum SampleKind {
    Float32,
    Int16,
    Int32,
}

/// What the samples of the format `m` are read as.
pub fn sample_kind(m: &MixFormat) -> (k: SampleKind)
    ensures
        k == if m.float && m.bits == 32 {
            SampleKind::Float32
        } else if m.bits == 16 {
            SampleKind::Int16
        } else {
            SampleKind::Int32
        },
{
    if m.float && m.bits == 32 {
        SampleKind::Float32
    } else if m.bits == 16 {
        SampleKind::Int16
    } else {
        SampleKind::Int32
    }
}

/// The stereo PCM that is fed to the AAC encoder.
#[derive(Clone, Copy)]
pub struct PcmType {
    pub rate: u32,
    pub channels: u32,
    pub bits: u32,
    pub block_align: u32,
    pub avg_bytes_per_sec: u32,
}

/// The encoder's input at `rate`: 16-bit stereo.
pub fn pcm_type(rate: u32) -> (t: PcmType)
    requires
        rate * 4 <= u32::MAX,
    ensures
        t == (PcmType {
            rate,
            channels: 2,
            bits: 16,
            block_align: 4,
            avg_bytes_per_sec: (rate * 4) as u32,
        }),
{
    PcmType { rate, channels: 2, bits: 16, block_align: 4, avg_bytes_per_sec: rate * 4 }
}

/// How large a buffer the encoder's packets are given, when it asks for `asked`.
pub fn output_buffer_size(asked: u32) -> (n: u32)
    ensures
        n == if asked > 8192 {
            asked
        } else {
            8192
        },
{
    if asked > 8192 {
        asked
    } else {
        8192
    }
}

/// What the file says of the sound: AAC in stereo at `rate`.
pub fn audio_params(rate: u32, user_data: Vec<u8>) -> (p: AudioParams)
    ensures
        p.sample_rate == rate,
        p.channels == 2,
        p.bytes_per_sec == AAC_BYTES_PER_SEC,
        p.user_data@ == user_data@,
{
    AudioParams { sample_rate: rate, channels: 2, bytes_per_sec: AAC_BYTES_PER_SEC, user_data }
}

/// Which microphone is mixed in.
#[derive(Debug, Clone, Copy, PartialEq, Eq, Structural)]
pub enum MicChoice {
    Off,
    /// The default one of the system.
    Default,
    /// The one whose endpoint has the id that was chosen.
    Device,
}

/// Which microphone the setting `mic` stands for.
pub fn mic_choice(mic: &str) -> (c: MicChoice)
    ensures
        c == if mic@ == "off"@ {
            MicChoice::Off
        } else if mic@ == "default"@ {
            MicChoice::Default
        } else {
            MicChoice::Device
        },
{
    if same_text(mic, "off") {
        MicChoice::Off
    } else if same_text(mic, "default") {
        MicChoice::Default
    } else {
        MicChoice::Device
    }
}

/// A wait ended because its event was set.
pub const WAIT_OBJECT_0: u32 = 0;

/// A wait ended because its time was up.
pub const WAIT_TIMEOUT: u32 = 258;

/// Whether recording goes on after a wait has ended with `code`.
pub fn wait_ok(code: u32) -> (b: bool)
    ensures
        b == (code == WAIT_OBJECT_0 || code == WAIT_TIMEOUT),
{
    code == WAIT_OBJECT_0 || code == WAIT_TIMEOUT
}

/// The code by which an encoder says that it has nothing more to put out.
pub const NEED_MORE_INPUT: u32 = 0xC00D_6D72;

/// What comes of asking the encoder for sound.
#[derive(Debug, Clone, Copy, PartialEq, Eq, Structural)]
pub enum DrainStep {
    /// There is a packet, and there may be more.
    Take,
    /// There is nothing more until the encoder is fed again.
    Done,
    Fail,
}

/// What comes of asking the encoder for sound, by the code of its failure.
pub fn drain_step(failure: Option<u32>) -> (s: DrainStep)
    ensures
        s == match failure {
            None => DrainStep::Take,
            Some(code) => if code == NEED_MORE_INPUT {
                DrainStep::Done
            } else {
                DrainStep::Fail
            },
        },
{
    match failure {
        None => DrainStep::Take,
        Some(code) => if code == NEED_MORE_INPUT {
            DrainStep::Done
        } else {
            DrainStep::Fail
        },
    }
}

/// The name of the `i`-th microphone in the menu; devices without a name are
/// numbered from one.
pub fn device_label(name: String, i: u32) -> (s: String)
    requires
        i < u32::MAX,
    ensures
        s@ == if name@.len() > 0 {
            name@
        } else {
            "Microphone "@ + decimal((i + 1) as nat)
        },
{
    if name.as_str().is_empty() {
        let mut s = "Microphone ".to_owned();
        push_decimal(&mut s, i as u64 + 1);
        s
    } else {
        name
    }
}

// ---------------------------------------------------------------------------
// Samples
// ---------------------------------------------------------------------------

/// What one capture buffer holds. Floats are brought to 16 bits before.
pub enum PcmData {
    /// Nothing was rendered.
    Silent,
    Int16(Vec<i16>),
    Int32(Vec<i32>),
}

impl PcmData {
    /// The samples on 16 bits.
    pub open spec fn samples(self) -> Seq<i16> {
        match self {
            PcmData::Silent => Seq::empty(),
            PcmData::Int16(v) => v@,
            PcmData::Int32(v) => Seq::new(v@.len(), |i: int| (v@[i] as int / 0x10000) as i16),
        }
    }
}

/// `frames` stereo frames out of samples on `ch` channels: the first two
/// channels, or the only one twice.
pub open spec fn stereo(s: Seq<i16>, frames: nat, ch: nat) -> Seq<i16> {
    Seq::new(
        frames * 2,
        |i: int|
            s[(i / 2) * ch + (if i % 2 == 1 && ch > 1 {
                1int
            } else {
                0
            })],
    )
}

/// `frames` stereo frames of silence.
pub open spec fn silence(frames: nat) -> Seq<i16> {
    Seq::new(frames * 2, |i: int| 0i16)
}

/// What `frames` frames of a capture buffer sound like in stereo.
pub open spec fn stereo_of(data: PcmData, frames: nat, ch: nat) -> Seq<i16> {
    match data {
        PcmData::Silent => silence(frames),
        _ => stereo(data.samples(), frames, ch),
    }
}

/// The upper half of a 32-bit sample.
fn narrow(x: i32) -> (y: i16)
    ensures
        y == x as int / 0x10000,
{
    assert((x >> 16) == x / 0x10000 && -0x8000 <= (x >> 16) < 0x8000) by (bit_vector);
    (x >> 16) as i16
}

/// `frames` stereo frames of silence.
fn make_silence(frames: usize) -> (v: Vec<i16>)
    requires
        frames * 2 <= usize::MAX,
    ensures
        v@ == silence(frames as nat),
{
    let mut v: Vec<i16> = Vec::new();
    let n: usize = frames * 2;
    while v.len() < n
        invariant
            n == frames * 2,
            v@.len() <= n,
            forall|i: int| 0 <= i < v@.len() ==> v@[i] == 0,
        decreases n - v@.len(),
    {
        v.push(0);
    }
    assert(v@ =~= silence(frames as nat));
    v
}

/// Where a frame's samples are.
proof fn lemma_frame_index(f: int, frames: int, ch: int)
    requires
        0 <= f < frames,
        ch >= 1,
    ensures
        0 <= f * ch,
        f * ch + ch <= frames * ch,
{
    assert(0 <= f * ch && f * ch + ch <= frames * ch) by (nonlinear_arith)
        requires
            0 <= f < frames,
            ch >= 1,
    ;
}

/// `frames` frames of samples on `ch` channels as stereo.
fn make_stereo(s: &Vec<i16>, frames: usize, ch: usize) -> (out: Vec<i16>)
    requires
        frames == 0 || ch >= 1,
        frames * ch <= s@.len(),
        frames * 2 <= usize::MAX,
    ensures
        out@ == stereo(s@, frames as nat, ch as nat),
{
    let mut out: Vec<i16> = Vec::new();
    let mut f: usize = 0;
    let n: usize = s.len();
    while f < frames
        invariant
            n == s@.len(),
            f <= frames,
            frames == 0 || ch >= 1,
            frames * ch <= s@.len(),
            frames * 2 <= usize::MAX,
            out@.len() == f * 2,
            forall|i: int|
                0 <= i < out@.len() ==> out@[i] == #[trigger] stereo(s@, frames as nat, ch as nat)[i],
        decreases frames - f,
    {
        proof {
            lemma_frame_index(f as int, frames as int, ch as int);
        }
        let l: i16 = s[f * ch];
        let r: i16 = if ch > 1 {
            s[f * ch + 1]
        } else {
            l
        };
        out.push(l);
        out.push(r);
        proof {
            assert((2 * f) / 2 == f && (2 * f) % 2 == 0);
            assert((2 * f + 1) / 2 == f && (2 * f + 1) % 2 == 1);
        }
        f += 1;
    }
    assert(out@ =~= stereo(s@, frames as nat, ch as nat));
    out
}

/// A capture buffer of `frames` frames on `channels` channels as 16-bit stereo.
pub fn convert_pcm(data: &PcmData, frames: usize, channels: u32) -> (out: Vec<i16>)
    requires
        frames * 2 <= usize::MAX,
        !(data is Silent) ==> (frames == 0 || channels >= 1) && frames * channels
            <= data.samples().len(),
    ensures
        out@ == stereo_of(*data, frames as nat, channels as nat),
{
    match data {
        PcmData::Silent => make_silence(frames),
        PcmData::Int16(v) => make_stereo(v, frames, channels as usize),
        PcmData::Int32(v) => {
            let mut s: Vec<i16> = Vec::new();
            let mut i: usize = 0;
            while i < v.len()
                invariant
                    i <= v@.len(),
                    data.samples().len() == v@.len(),
                    forall|j: int|
                        0 <= j < v@.len() ==> #[trigger] data.samples()[j] == (v@[j] as int
                            / 0x10000) as i16,
                    s@ == data.samples().take(i as int),
                decreases v@.len() - i,
            {
                s.push(narrow(v[i]));
                i += 1;
                assert(data.samples().take(i as int) =~= data.samples().take(i - 1).push(
                    data.samples()[i - 1],
                ));
            }
            assert(s@ =~= data.samples());
            make_stereo(&s, frames, channels as usize)
        },
    }
}

/// The sum of two samples, cut to what 16 bits hold.
pub open spec fn mixed_sample(a: i16, b: i16) -> i16 {
    if a + b > i16::MAX {
        i16::MAX
    } else if a + b < i16::MIN {
        i16::MIN
    } else {
        (a + b) as i16
    }
}

/// The block `pcm` with the waiting samples `fifo` on top of it, as far as they go.
pub open spec fn mixed(pcm: Seq<i16>, fifo: Seq<i16>) -> Seq<i16> {
    Seq::new(
        pcm.len(),
        |i: int|
            if i < fifo.len() {
                mixed_sample(pcm[i], fifo[i])
            } else {
                pcm[i]
            },
    )
}

/// The samples that still wait once a block of `n` has taken its share.
pub open spec fn unmixed(n: nat, fifo: Seq<i16>) -> Seq<i16> {
    if fifo.len() <= n {
        Seq::empty()
    } else {
        fifo.skip(n as int)
    }
}

/// Mixes the waiting samples onto a block.
pub fn mix_fifo(pcm: &mut Vec<i16>, fifo: &mut VecDeque<i16>)
    ensures
        final(pcm)@ == mixed(old(pcm)@, old(fifo)@),
        final(fifo)@ == unmixed(old(pcm)@.len(), old(fifo)@),
        final(pcm)@.len() == old(pcm)@.len(),
        forall|i: int|
            0 <= i < old(pcm)@.len() && i < old(fifo)@.len() ==> {
                let sum = old(pcm)@[i] + old(fifo)@[i];
                &&& -32768 <= sum <= 32767 ==> #[trigger] final(pcm)@[i] == sum
                &&& sum > 32767 ==> final(pcm)@[i] == 32767
                &&& sum < -32768 ==> final(pcm)@[i] == -32768
            },
{
    let ghost block = pcm@;
    let ghost waiting = fifo@;
    let mut i: usize = 0;
    assert(waiting.skip(0) =~= waiting);
    while i < pcm.len()
        invariant
            block == old(pcm)@,
            waiting == old(fifo)@,
            i <= pcm@.len(),
            i <= waiting.len(),
            pcm@.len() == block.len(),
            fifo@ == waiting.skip(i as int),
            forall|j: int| 0 <= j < i ==> pcm@[j] == mixed_sample(block[j], waiting[j]),
            forall|j: int| i <= j < block.len() ==> pcm@[j] == block[j],
        decreases pcm@.len() - i,
    {
        let ghost rest = fifo@;
        match fifo.pop_front() {
            Some(m) => {
                let sum: i32 = pcm[i] as i32 + m as i32;
                let cut: i32 = if sum > 32767 {
                    32767
                } else if sum < -32768 {
                    -32768
                } else {
                    sum
                };
                pcm.set(i, cut as i16);
                assert(rest.subrange(1, rest.len() as int) =~= waiting.skip(i + 1));
                i += 1;
            },
            None => {
                assert(pcm@ =~= mixed(block, waiting));
                assert(fifo@ =~= unmixed(block.len(), waiting));
                return;
            },
        }
    }
    assert(pcm@ =~= mixed(block, waiting));
    assert(fifo@ =~= unmixed(block.len(), waiting));
}

/// The newest of the waiting samples, at most a second of them in stereo.
pub open spec fn newest_second(s: Seq<i16>, rate: nat) -> Seq<i16> {
    if s.len() > rate * 2 {
        s.skip(s.len() - rate * 2)
    } else {
        s
    }
}

// ---------------------------------------------------------------------------
// The timeline
// ---------------------------------------------------------------------------

/// How long `n` frames at `rate` last.
pub open spec fn frames_100ns(n: int, rate: int) -> int {
    n * SEC / rate
}

/// How many whole frames at `rate` fit into `t`.
pub open spec fn whole_frames(t: int, rate: int) -> int {
    t * rate / (SEC as int)
}

/// The smaller of the two.
pub open spec fn lesser(a: int, b: int) -> int {
    if a < b {
        a
    } else {
        b
    }
}

/// How long `n` frames last, for numbers of this size.
fn duration_of(n: u64, rate: u32) -> (t: i64)
    requires
        rate > 0,
        n * SEC <= i64::MAX,
    ensures
        t == frames_100ns(n as int, rate as int),
        t >= 0,
{
    proof {
        vstd::arithmetic::div_mod::lemma_div_pos_is_pos(n * SEC, rate as int);
        vstd::arithmetic::div_mod::lemma_div_is_ordered_by_denominator(n * SEC, 1, rate as int);
    }
    n as i64 * SEC / rate as i64
}

/// How long a block of interleaved stereo samples lasts.
pub fn pcm_duration(samples: usize, rate: u32) -> (t: i64)
    requires
        rate > 0,
        (samples / 2) * SEC <= i64::MAX,
    ensures
        t == frames_100ns(samples as int / 2, rate as int),
{
    duration_of(samples as u64 / 2, rate)
}

/// A block of 16-bit stereo for the encoder.
pub struct PcmBlock {
    pub pts: i64,
    pub pcm: Vec<i16>,
}

/// What the audio loop carries along: the sample rate, the end of what was fed
/// to the encoder (zero before the first block), and the waiting microphone samples.
#[verifier::ext_equal]
pub struct MixerModel {
    pub rate: nat,
    pub next: int,
    pub fifo: Seq<i16>,
}

impl MixerModel {
    /// Where the timeline stands when sound stamped `qpc` comes in: the first
    /// sound starts it.
    pub open spec fn anchor(self, qpc: int) -> int {
        if self.next == 0 {
            qpc
        } else {
            self.next
        }
    }

    /// How many frames of silence go before sound stamped `qpc`: none for less
    /// than 256 frames, and never more than five seconds.
    pub open spec fn gap_frames(self, qpc: int) -> int {
        let gap = qpc - self.anchor(qpc);
        if gap > frames_100ns(256, self.rate as int) {
            lesser(whole_frames(gap, self.rate as int), self.rate as int * 5)
        } else {
            0
        }
    }

    /// Whether silence goes before sound stamped `qpc`.
    pub open spec fn has_gap(self, qpc: int) -> bool {
        qpc - self.anchor(qpc) > frames_100ns(256, self.rate as int)
    }

    /// The time that sound stamped `qpc` is fed at.
    pub open spec fn packet_pts(self, qpc: int) -> int {
        self.anchor(qpc) + frames_100ns(self.gap_frames(qpc), self.rate as int)
    }

    /// The samples that wait when sound stamped `qpc` has its turn.
    pub open spec fn fifo_behind_gap(self, qpc: int) -> Seq<i16> {
        unmixed((self.gap_frames(qpc) * 2) as nat, self.fifo)
    }

    /// The loop once `frames` frames, `len` samples, stamped `qpc` have come in.
    pub open spec fn after_packet(self, qpc: int, frames: int, len: nat) -> MixerModel {
        MixerModel {
            rate: self.rate,
            next: self.packet_pts(qpc) + frames_100ns(frames, self.rate as int),
            fifo: unmixed(len, self.fifo_behind_gap(qpc)),
        }
    }

    /// How many frames of silence are made up at `now`: none before the first
    /// sound or for less than 1024 frames, and never more than half a second.
    pub open spec fn idle_frames(self, now: int) -> int {
        let behind = now - SILENCE_MARGIN - self.next;
        if self.next > 0 && behind > frames_100ns(1024, self.rate as int) {
            lesser(whole_frames(behind, self.rate as int), self.rate as int / 2)
        } else {
            0
        }
    }

    /// Whether silence is made up at `now`.
    pub open spec fn is_behind(self, now: int) -> bool {
        self.next > 0 && now - SILENCE_MARGIN - self.next > frames_100ns(1024, self.rate as int)
    }

    /// The loop once silence has been made up at `now`.
    pub open spec fn after_idle(self, now: int) -> MixerModel {
        MixerModel {
            rate: self.rate,
            next: self.next + frames_100ns(self.idle_frames(now), self.rate as int),
            fifo: unmixed((self.idle_frames(now) * 2) as nat, self.fifo),
        }
    }

    /// The times that a packet brings can be counted in 64 bits.
    pub open spec fn packet_fits(self, qpc: int, frames: int) -> bool {
        let gap = qpc - self.anchor(qpc);
        &&& i64::MIN <= gap <= i64::MAX
        &&& gap * self.rate <= i64::MAX
        &&& self.packet_pts(qpc) <= i64::MAX
        &&& self.packet_pts(qpc) + frames_100ns(frames, self.rate as int) <= i64::MAX
    }

    /// The times that an idle turn brings can be counted in 64 bits.
    pub open spec fn idle_fits(self, now: int) -> bool {
        let behind = now - SILENCE_MARGIN - self.next;
        self.next > 0 ==> {
            &&& i64::MIN <= now - SILENCE_MARGIN
            &&& i64::MIN <= behind
            &&& behind * self.rate <= i64::MAX
            &&& self.after_idle(now).next <= i64::MAX
        }
    }
}

/// The state of the audio loop.
pub struct AudioMixer {
    rate: u32,
    next_pts: i64,
    fifo: VecDeque<i16>,
}

impl View for AudioMixer {
    type V = MixerModel;

    closed spec fn view(&self) -> MixerModel {
        MixerModel { rate: self.rate as nat, next: self.next_pts as int, fifo: self.fifo@ }
    }
}

proof fn lemma_whole_frames(t: int, rate: int)
    requires
        0 <= t,
        0 <= rate,
    ensures
        0 <= whole_frames(t, rate),
{
    assert(0 <= t * rate) by (nonlinear_arith)
        requires
            0 <= t,
            0 <= rate,
    ;
    vstd::arithmetic::div_mod::lemma_div_pos_is_pos(t * rate, SEC as int);
}

/// A time times a rate can be counted in 128 bits.
proof fn lemma_scaled_fits(t: int, rate: int)
    requires
        i64::MIN <= t <= i64::MAX,
        0 <= rate <= u32::MAX,
    ensures
        i128::MIN <= t * rate <= i128::MAX,
{
    assert(i128::MIN <= t * rate <= i128::MAX) by (nonlinear_arith)
        requires
            i64::MIN <= t <= i64::MAX,
            0 <= rate <= u32::MAX,
    ;
}

impl AudioMixer {
    /// The rate is one that the encoder takes.
    pub closed spec fn wf(self) -> bool {
        self.rate == 48_000 || self.rate == 44_100
    }

    /// A loop for sound at `rate` that has fed nothing yet.
    pub fn new(rate: u32) -> (m: AudioMixer)
        requires
            rate == 48_000 || rate == 44_100,
        ensures
            m.wf(),
            m@ == (MixerModel { rate: rate as nat, next: 0, fifo: Seq::empty() }),
    {
        AudioMixer { rate, next_pts: 0, fifo: VecDeque::new() }
    }

    /// Queues microphone samples; of more than a second, the oldest go.
    pub fn mic_samples(&mut self, samples: &Vec<i16>)
        requires
            old(self).wf(),
        ensures
            final(self).wf(),
            final(self)@ == (MixerModel {
                fifo: newest_second(old(self)@.fifo + samples@, old(self)@.rate),
                ..old(self)@
            }),
    {
        let ghost waiting = self.fifo@;
        let mut i: usize = 0;
        assert(waiting + samples@.take(0) =~= waiting);
        while i < samples.len()
            invariant
                i <= samples@.len(),
                self.rate == old(self).rate,
                self.next_pts == old(self).next_pts,
                self.fifo@ == waiting + samples@.take(i as int),
            decreases samples@.len() - i,
        {
            self.fifo.push_back(samples[i]);
            i += 1;
            assert(samples@.take(i as int) =~= samples@.take(i - 1).push(samples@[i - 1]));
            assert(self.fifo@ =~= waiting + samples@.take(i as int));
        }
        assert(samples@.take(i as int) =~= samples@);
        let ghost all = self.fifo@;
        assert(all.skip(0) =~= all);
        while self.fifo.len() as u64 > self.rate as u64 * 2
            invariant
                self.rate == old(self).rate,
                self.next_pts == old(self).next_pts,
                self.fifo@.len() <= all.len(),
                self.fifo@ == all.skip(all.len() - self.fifo@.len()),
                self.fifo@.len() >= self.rate * 2 || self.fifo@.len() == all.len(),
            decreases self.fifo@.len(),
        {
            let ghost rest = self.fifo@;
            let oldest = self.fifo.pop_front();
            assert(self.fifo@ =~= all.skip(all.len() - self.fifo@.len()));
        }
        assert(self.fifo@ =~= newest_second(all, self.rate as nat));
    }

    /// Forgets the samples of a microphone that is gone.
    pub fn mic_lost(&mut self)
        requires
            old(self).wf(),
        ensures
            final(self).wf(),
            final(self)@ == (MixerModel { fifo: Seq::empty(), ..old(self)@ }),
    {
        self.fifo.clear();
    }

    /// Silence with the waiting samples on top of it, and where it goes.
    fn silent_block(&mut self, frames: u64) -> (b: PcmBlock)
        requires
            old(self).wf(),
            frames <= 1_000_000,
            old(self)@.next + frames_100ns(frames as int, old(self)@.rate as int) <= i64::MAX,
        ensures
            final(self).wf(),
            b.pts == old(self)@.next,
            b.pcm@ == mixed(silence(frames as nat), old(self)@.fifo),
            final(self)@ == (MixerModel {
                rate: old(self)@.rate,
                next: old(self)@.next + frames_100ns(frames as int, old(self)@.rate as int),
                fifo: unmixed((frames * 2) as nat, old(self)@.fifo),
            }),
    {
        let mut pcm = make_silence(frames as usize);
        mix_fifo(&mut pcm, &mut self.fifo);
        let pts: i64 = self.next_pts;
        self.next_pts = pts + duration_of(frames, self.rate);
        PcmBlock { pts, pcm }
    }

    /// Whether a block of `frames` frames stamped `qpc` can be taken in: the times
    /// that it brings can be counted in 64 bits.
    pub fn takes_packet(&self, qpc: i64, frames: u32) -> (b: bool)
        requires
            self.wf(),
        ensures
            b == self@.packet_fits(qpc as int, frames as int),
    {
        let ghost m = self@;
        let anchor: i64 = if self.next_pts == 0 {
            qpc
        } else {
            self.next_pts
        };
        let gap: i128 = qpc as i128 - anchor as i128;
        if gap < i64::MIN as i128 || gap > i64::MAX as i128 {
            return false;
        }
        proof {
            lemma_scaled_fits(gap as int, self.rate as int);
        }
        let scaled: i128 = gap * self.rate as i128;
        if scaled > i64::MAX as i128 {
            return false;
        }
        let n: u64 = if gap > duration_of(256, self.rate) as i128 {
            proof {
                lemma_whole_frames(gap as int, self.rate as int);
            }
            let whole: u64 = (scaled as i64 / SEC) as u64;
            let most: u64 = self.rate as u64 * 5;
            if whole < most {
                whole
            } else {
                most
            }
        } else {
            0
        };
        assert(n == m.gap_frames(qpc as int));
        let pts: i128 = anchor as i128 + duration_of(n, self.rate) as i128;
        let end: i128 = pts + duration_of(frames as u64, self.rate) as i128;
        pts <= i64::MAX as i128 && end <= i64::MAX as i128
    }

    /// Whether silence can be made up at `now`: nothing has been fed yet, or the
    /// times that it brings can be counted in 64 bits.
    pub fn takes_idle(&self, now: i64) -> (b: bool)
        requires
            self.wf(),
        ensures
            b == self@.idle_fits(now as int),
    {
        let ghost m = self@;
        if self.next_pts <= 0 {
            return true;
        }
        let edge: i128 = now as i128 - SILENCE_MARGIN as i128;
        let behind: i128 = edge - self.next_pts as i128;
        if edge < i64::MIN as i128 || behind < i64::MIN as i128 {
            return false;
        }
        proof {
            lemma_scaled_fits(behind as int, self.rate as int);
        }
        let scaled: i128 = behind * self.rate as i128;
        if scaled > i64::MAX as i128 {
            return false;
        }
        let n: u64 = if behind > duration_of(1024, self.rate) as i128 {
            proof {
                lemma_whole_frames(behind as int, self.rate as int);
            }
            let whole: u64 = (scaled as i64 / SEC) as u64;
            let most: u64 = self.rate as u64 / 2;
            if whole < most {
                whole
            } else {
                most
            }
        } else {
            0
        };
        assert(n == m.idle_frames(now as int));
        let end: i128 = self.next_pts as i128 + duration_of(n, self.rate) as i128;
        end <= i64::MAX as i128
    }

    /// Takes in a captured block of `frames` frames stamped `qpc`. Hands back what
    /// is to be encoded: silence for the gap before it, if there is one, and the
    /// block itself with the microphone on top.
    pub fn packet(&mut self, qpc: i64, frames: u32, pcm: Vec<i16>) -> (r: (
        Option<PcmBlock>,
        PcmBlock,
    ))
        requires
            old(self).wf(),
            old(self)@.packet_fits(qpc as int, frames as int),
        ensures
            final(self).wf(),
            r.0 is Some <==> old(self)@.has_gap(qpc as int),
            r.0 matches Some(fill) ==> {
                &&& fill.pts == old(self)@.anchor(qpc as int)
                &&& fill.pcm@ == mixed(
                    silence(old(self)@.gap_frames(qpc as int) as nat),
                    old(self)@.fifo,
                )
            },
            r.1.pts == old(self)@.packet_pts(qpc as int),
            r.1.pcm@ == mixed(pcm@, old(self)@.fifo_behind_gap(qpc as int)),
            final(self)@ == old(self)@.after_packet(qpc as int, frames as int, pcm@.len()),
    {
        let ghost m = self@;
        if self.next_pts == 0 {
            self.next_pts = qpc;
        }
        let gap: i64 = qpc - self.next_pts;
        let slack: i64 = duration_of(256, self.rate);
        let fill: Option<PcmBlock> = if gap > slack {
            let scaled: i64 = gap * self.rate as i64;
            proof {
                lemma_whole_frames(gap as int, self.rate as int);
            }
            let whole: u64 = (scaled / SEC) as u64;
            let most: u64 = self.rate as u64 * 5;
            let n: u64 = if whole < most {
                whole
            } else {
                most
            };
            assert(n == m.gap_frames(qpc as int));
            Some(self.silent_block(n))
        } else {
            assert(frames_100ns(0, self.rate as int) == 0);
            assert(self.fifo@ =~= unmixed(0, m.fifo));
            None
        };
        let mut block = pcm;
        mix_fifo(&mut block, &mut self.fifo);
        let pts: i64 = self.next_pts;
        self.next_pts = pts + duration_of(frames as u64, self.rate);
        (fill, PcmBlock { pts, pcm: block })
    }

    /// Makes up silence when no sound has come in for a while.
    pub fn idle(&mut self, now: i64) -> (r: Option<PcmBlock>)
        requires
            old(self).wf(),
            old(self)@.idle_fits(now as int),
        ensures
            final(self).wf(),
            r is Some <==> old(self)@.is_behind(now as int),
            r matches Some(b) ==> {
                &&& b.pts == old(self)@.next
                &&& b.pcm@ == mixed(
                    silence(old(self)@.idle_frames(now as int) as nat),
                    old(self)@.fifo,
                )
                &&& final(self)@ == old(self)@.after_idle(now as int)
            },
            r is None ==> final(self)@ == old(self)@,
    {
        let ghost m = self@;
        if self.next_pts <= 0 {
            return None;
        }
        let behind: i64 = now - SILENCE_MARGIN - self.next_pts;
        if behind <= duration_of(1024, self.rate) {
            return None;
        }
        let scaled: i64 = behind * self.rate as i64;
        proof {
            lemma_whole_frames(behind as int, self.rate as int);
        }
        let whole: u64 = (scaled / SEC) as u64;
        let most: u64 = self.rate as u64 / 2;
        let n: u64 = if whole < most {
            whole
        } else {
            most
        };
        assert(n == m.idle_frames(now as int));
        Some(self.silent_block(n))
    }
}

/// The packet of the ring for what the encoder put out, unless it is empty. A
/// packet without a time is at zero, one without a length lasts 1024 frames.
pub fn aac_packet(pts: Option<i64>, dur: Option<i64>, data: Arc<[u8]>, rate: u32) -> (r: Option<
    Packet,
>)
    requires
        rate > 0,
    ensures
        r is Some <==> data@.len() > 0,
        r matches Some(p) ==> {
            &&& p.kind == StreamKind::Audio
            &&& p.keyframe
            &&& p.data == data
            &&& p.pts == match pts {
                Some(t) => t,
                None => 0,
            }
            &&& p.dur == match dur {
                Some(t) => t as int,
                None => frames_100ns(1024, rate as int),
            }
        },
{
    if data.len() == 0 {
        return None;
    }
    let t: i64 = match pts {
        Some(t) => t,
        None => 0,
    };
    let d: i64 = match dur {
        Some(d) => d,
        None => duration_of(1024, rate),
    };
    Some(Packet { kind: StreamKind::Audio, pts: t, dur: d, keyframe: true, data })
}

// ---------------------------------------------------------------------------
// Laws
// ---------------------------------------------------------------------------

/// Law: what is fed to the encoder leaves no gap and does not overlap. The
/// silence before a block ends where the block starts, and the block ends where
/// the next one starts.
#[verifier::spinoff_prover]
pub proof fn law_feed_is_contiguous(m: MixerModel, qpc: int, frames: int, pcm: Seq<i16>)
    requires
        m.rate > 0,
        pcm.len() == frames * 2,
    ensures
        ({
            let fill = mixed(silence(m.gap_frames(qpc) as nat), m.fifo);
            let block = mixed(pcm, m.fifo_behind_gap(qpc));
            &&& m.has_gap(qpc) ==> m.anchor(qpc) + frames_100ns(
                fill.len() as int / 2,
                m.rate as int,
            ) == m.packet_pts(qpc)
            &&& !m.has_gap(qpc) ==> m.anchor(qpc) == m.packet_pts(qpc)
            &&& m.packet_pts(qpc) + frames_100ns(block.len() as int / 2, m.rate as int)
                == m.after_packet(qpc, frames, pcm.len()).next
        }),
{
    let n = m.gap_frames(qpc);
    let fill = mixed(silence(n as nat), m.fifo);
    let block = mixed(pcm, m.fifo_behind_gap(qpc));
    assert(block.len() == frames * 2);
    assert(block.len() as int / 2 == frames);
    if m.has_gap(qpc) {
        lemma_slack_not_negative(256, m.rate as int);
        lemma_whole_frames(qpc - m.anchor(qpc), m.rate as int);
        assert(0 <= n);
        assert(fill.len() == n * 2);
        assert(fill.len() as int / 2 == n);
    } else {
        assert(n == 0);
        assert(frames_100ns(0, m.rate as int) == 0) by {
            assert(0 * SEC == 0);
            vstd::arithmetic::div_mod::lemma_div_basics(m.rate as int);
        }
    }
}

proof fn lemma_slack_not_negative(n: int, rate: int)
    requires
        n >= 0,
        rate > 0,
    ensures
        frames_100ns(n, rate) >= 0,
{
    vstd::arithmetic::div_mod::lemma_div_pos_is_pos(n * SEC, rate);
}

/// What happens to the audio loop.
pub enum Sound {
    /// A block of stereo samples is captured, stamped with a time.
    Captured(int, Seq<i16>),
    /// Nothing has come in at this time.
    Idle(int),
    /// Microphone samples come in.
    Mic(Seq<i16>),
    MicLost,
}

/// What is fed to the encoder: a time and a number of frames.
pub struct Fed {
    pub pts: int,
    pub frames: int,
}

impl Fed {
    /// Where it ends.
    pub open spec fn end(self, rate: nat) -> int {
        self.pts + frames_100ns(self.frames, rate as int)
    }
}

impl MixerModel {
    /// What is fed to the encoder for an event.
    pub open spec fn fed(self, e: Sound) -> Seq<Fed> {
        match e {
            Sound::Captured(qpc, pcm) => {
                let block = Fed { pts: self.packet_pts(qpc), frames: pcm.len() as int / 2 };
                if self.has_gap(qpc) {
                    seq![Fed { pts: self.anchor(qpc), frames: self.gap_frames(qpc) }, block]
                } else {
                    seq![block]
                }
            },
            Sound::Idle(now) => if self.is_behind(now) {
                seq![Fed { pts: self.next, frames: self.idle_frames(now) }]
            } else {
                Seq::empty()
            },
            _ => Seq::empty(),
        }
    }

    /// The loop after an event.
    pub open spec fn after(self, e: Sound) -> MixerModel {
        match e {
            Sound::Captured(qpc, pcm) => self.after_packet(qpc, pcm.len() as int / 2, pcm.len()),
            Sound::Idle(now) => if self.is_behind(now) {
                self.after_idle(now)
            } else {
                self
            },
            Sound::Mic(samples) => MixerModel {
                fifo: newest_second(self.fifo + samples, self.rate),
                ..self
            },
            Sound::MicLost => MixerModel { fifo: Seq::empty(), ..self },
        }
    }

    /// The loop after all of the events.
    pub open spec fn after_all(self, events: Seq<Sound>) -> MixerModel
        decreases events.len(),
    {
        if events.len() == 0 {
            self
        } else {
            self.after_all(events.drop_last()).after(events.last())
        }
    }

    /// What is fed to the encoder for all of the events.
    pub open spec fn fed_all(self, events: Seq<Sound>) -> Seq<Fed>
        decreases events.len(),
    {
        if events.len() == 0 {
            Seq::empty()
        } else {
            self.fed_all(events.drop_last()) + self.after_all(events.drop_last()).fed(events.last())
        }
    }
}

/// The blocks follow each other without gap or overlap.
pub open spec fn contiguous(blocks: Seq<Fed>, rate: nat) -> bool {
    forall|i: int|
        #![trigger blocks[i]]
        0 <= i < blocks.len() - 1 ==> blocks[i].end(rate) == blocks[i + 1].pts
}

/// A loop that has fed nothing yet.
pub open spec fn silent_mixer(rate: nat) -> MixerModel {
    MixerModel { rate, next: 0, fifo: Seq::empty() }
}

/// Law: the sound of a recording has no holes. Whatever is captured, however long
/// nothing is rendered and whatever becomes of the microphone, all that is fed to
/// the encoder follows each other without gap or overlap.
pub proof fn law_sound_has_no_holes(rate: nat, events: Seq<Sound>)
    requires
        rate > 0,
        forall|i: int|
            0 <= i < events.len() ==> (#[trigger] events[i] matches Sound::Captured(qpc, _)
                ==> qpc > 0),
    ensures
        contiguous(silent_mixer(rate).fed_all(events), rate),
{
    lemma_feed(rate, events);
}

proof fn lemma_feed(rate: nat, events: Seq<Sound>)
    requires
        rate > 0,
        forall|i: int|
            0 <= i < events.len() ==> (#[trigger] events[i] matches Sound::Captured(qpc, _)
                ==> qpc > 0),
    ensures
        ({
            let m = silent_mixer(rate).after_all(events);
            let feed = silent_mixer(rate).fed_all(events);
            &&& contiguous(feed, rate)
            &&& m.rate == rate
            &&& m.next >= 0
            &&& feed.len() == 0 ==> m.next == 0
            &&& feed.len() > 0 ==> m.next > 0 && feed.last().end(rate) == m.next
        }),
    decreases events.len(),
{
    if events.len() > 0 {
        let before = events.drop_last();
        let e = events.last();
        assert forall|i: int| 0 <= i < before.len() implies (#[trigger] before[i] matches
            Sound::Captured(qpc, _) ==> qpc > 0) by {
            assert(before[i] == events[i]);
        }
        lemma_feed(rate, before);
        let m = silent_mixer(rate).after_all(before);
        let feed = silent_mixer(rate).fed_all(before);
        let more = m.fed(e);
        assert(events[events.len() - 1] == e);
        match e {
            Sound::Captured(qpc, pcm) => {
                lemma_slack_not_negative(pcm.len() as int / 2, rate as int);
                lemma_slack_not_negative(256, rate as int);
                if m.has_gap(qpc) {
                    lemma_whole_frames(qpc - m.anchor(qpc), rate as int);
                    lemma_slack_not_negative(m.gap_frames(qpc), rate as int);
                } else {
                    vstd::arithmetic::div_mod::lemma_div_basics(rate as int);
                    assert(frames_100ns(0, rate as int) == 0);
                }
            },
            Sound::Idle(now) => {
                lemma_slack_not_negative(1024, rate as int);
                if m.is_behind(now) {
                    lemma_whole_frames(now - SILENCE_MARGIN - m.next, rate as int);
                    lemma_slack_not_negative(m.idle_frames(now), rate as int);
                }
            },
            _ => {},
        }
        let all = feed + more;
        assert forall|i: int| #![trigger all[i]] 0 <= i < all.len() - 1 implies all[i].end(rate)
            == all[i + 1].pts by {
            if i < feed.len() - 1 {
                assert(all[i] == feed[i] && all[i + 1] == feed[i + 1]);
            } else if i == feed.len() - 1 {
                assert(all[i] == feed.last() && all[i + 1] == more[0]);
            } else {
                assert(all[i] == more[i - feed.len()] && all[i + 1] == more[i + 1 - feed.len()]);
            }
        }
    }
}

/// Law: the timeline follows the clock. Sound that comes after a pause of up to
/// five seconds is fed at its time on the clock or at most 256 frames before it.
pub proof fn law_timeline_follows_the_clock(m: MixerModel, qpc: int)
    requires
        m.rate == 48_000 || m.rate == 44_100,
        0 <= qpc - m.anchor(qpc) <= 5 * SEC,
    ensures
        0 <= qpc - m.packet_pts(qpc) <= frames_100ns(256, m.rate as int),
{
    let gap = qpc - m.anchor(qpc);
    let n = m.gap_frames(qpc);
    if m.rate == 48_000 {
        assert(frames_100ns(256, m.rate as int) == 256int * 10_000_000 / 48_000);
        assert(frames_100ns(n, m.rate as int) == n * 10_000_000 / 48_000);
        if m.has_gap(qpc) {
            assert(whole_frames(gap, m.rate as int) == gap * 48_000 / 10_000_000);
            assert(n == gap * 48_000 / 10_000_000);
            assert(n * 10_000_000 <= gap * 48_000 < (n + 1) * 10_000_000);
        }
    } else {
        assert(frames_100ns(256, m.rate as int) == 256int * 10_000_000 / 44_100);
        assert(frames_100ns(n, m.rate as int) == n * 10_000_000 / 44_100);
        if m.has_gap(qpc) {
            assert(whole_frames(gap, m.rate as int) == gap * 44_100 / 10_000_000);
            assert(n == gap * 44_100 / 10_000_000);
            assert(n * 10_000_000 <= gap * 44_100 < (n + 1) * 10_000_000);
        }
    }
}

/// Law: silence that is made up moves the timeline on, and never past the margin
/// behind the clock.
pub proof fn law_idle_stays_behind_the_clock(m: MixerModel, now: int)
    requires
        m.rate == 48_000 || m.rate == 44_100,
        m.is_behind(now),
    ensures
        m.next < m.after_idle(now).next <= now - SILENCE_MARGIN,
{
    let behind = now - SILENCE_MARGIN - m.next;
    let n = m.idle_frames(now);
    if m.rate == 48_000 {
        assert(frames_100ns(1024, m.rate as int) == 1024int * 10_000_000 / 48_000);
        assert(whole_frames(behind, m.rate as int) == behind * 48_000 / 10_000_000);
        assert(0 < n && n * 10_000_000 <= behind * 48_000);
        assert(frames_100ns(n, m.rate as int) == n * 10_000_000 / 48_000);
    } else {
        assert(frames_100ns(1024, m.rate as int) == 1024int * 10_000_000 / 44_100);
        assert(whole_frames(behind, m.rate as int) == behind * 44_100 / 10_000_000);
        assert(0 < n && n * 10_000_000 <= behind * 44_100);
        assert(frames_100ns(n, m.rate as int) == n * 10_000_000 / 44_100);
    }
}

/// Law: no more than a second of the microphone waits, and it is the newest.
pub proof fn law_microphone_waits_a_second(waiting: Seq<i16>, rate: nat)
    ensures
        newest_second(waiting, rate).len() <= rate * 2,
        waiting.len() <= rate * 2 ==> newest_second(waiting, rate) == waiting,
        newest_second(waiting, rate).is_suffix_of(waiting),
{
    let kept = newest_second(waiting, rate);
    assert(waiting.subrange(waiting.len() - kept.len(), waiting.len() as int) =~= kept);
}

/// Law: mixing adds. Where a waiting sample meets one of the block, the result is
/// their sum, or the end of the range that the sum is past; the samples of the block
/// that none waits for stay, and none is added or lost.
pub proof fn law_mixing_adds(pcm: Seq<i16>, fifo: Seq<i16>, i: int)
    requires
        0 <= i < pcm.len(),
    ensures
        mixed(pcm, fifo).len() == pcm.len(),
        i < fifo.len() && -32768 <= pcm[i] + fifo[i] <= 32767 ==> mixed(pcm, fifo)[i] == pcm[i]
            + fifo[i],
        i < fifo.len() && pcm[i] + fifo[i] > 32767 ==> mixed(pcm, fifo)[i] == 32767,
        i < fifo.len() && pcm[i] + fifo[i] < -32768 ==> mixed(pcm, fifo)[i] == -32768,
        i >= fifo.len() ==> mixed(pcm, fifo)[i] == pcm[i],
{
}

/// Law: mixing two signals is the same whichever waits for the other.
pub proof fn law_mixing_is_fair(a: Seq<i16>, b: Seq<i16>)
    requires
        a.len() == b.len(),
    ensures
        mixed(a, b) == mixed(b, a),
{
    assert(mixed(a, b) =~= mixed(b, a));
}

/// Law: a block takes as many waiting samples as it has, from the front, and the
/// others wait on in their order.
pub proof fn law_blocks_take_their_share(n: nat, fifo: Seq<i16>)
    ensures
        fifo.len() <= n ==> unmixed(n, fifo).len() == 0,
        fifo.len() > n ==> unmixed(n, fifo).len() == fifo.len() - n && (forall|i: int|
            n <= i < fifo.len() ==> unmixed(n, fifo)[i - n] == #[trigger] fifo[i]),
{
}

/// Law: a capture buffer in stereo has two samples for each frame: those of its
/// first two channels, or that of its only one twice. Samples of 32 bits lose their
/// lower half. A silent buffer gives zeros.
pub proof fn law_buffers_become_stereo(data: PcmData, frames: nat, ch: nat, f: int)
    requires
        0 <= f < frames,
        ch >= 1,
        !(data is Silent) ==> frames * ch <= data.samples().len(),
    ensures
        stereo_of(data, frames, ch).len() == 2 * frames,
        data is Silent ==> stereo_of(data, frames, ch)[2 * f] == 0 && stereo_of(data, frames, ch)[2
            * f + 1] == 0,
        data matches PcmData::Int16(v) ==> {
            let out = stereo_of(data, frames, ch);
            &&& out[2 * f] == v@[f * ch]
            &&& out[2 * f + 1] == if ch >= 2 {
                v@[f * ch + 1]
            } else {
                v@[f * ch]
            }
        },
        data matches PcmData::Int32(v) ==> {
            let out = stereo_of(data, frames, ch);
            let right = if ch >= 2 {
                v@[f * ch + 1]
            } else {
                v@[f * ch]
            };
            &&& out[2 * f] * 65536 <= v@[f * ch] < (out[2 * f] + 1) * 65536
            &&& out[2 * f + 1] * 65536 <= right < (out[2 * f + 1] + 1) * 65536
        },
{
    lemma_frame_index(f, frames as int, ch as int);
    assert((2 * f) / 2 == f && (2 * f) % 2 == 0);
    assert((2 * f + 1) / 2 == f && (2 * f + 1) % 2 == 1);
}

/// Law: a buffer has as many samples as the device gave.
pub proof fn law_samples_are_counted(data: PcmData)
    ensures
        data matches PcmData::Int16(v) ==> data.samples().len() == v@.len(),
        data matches PcmData::Int32(v) ==> data.samples().len() == v@.len(),
{
}

/// Law: the microphone loses no more than it has to: of more than a second, a whole
/// second is left.
pub proof fn law_microphone_keeps_a_second(waiting: Seq<i16>, rate: nat)
    ensures
        waiting.len() >= rate * 2 ==> newest_second(waiting, rate).len() == rate * 2,
        waiting.len() < rate * 2 ==> newest_second(waiting, rate).len() == waiting.len(),
        forall|i: int|
            0 <= i < newest_second(waiting, rate).len() ==> #[trigger] newest_second(
                waiting,
                rate,
            )[i] == waiting[i + waiting.len() - newest_second(waiting, rate).len()],
{
}

/// The quotient of two numbers, cut to a whole one.
proof fn lemma_quotient(n: int, d: int)
    requires
        d > 0,
    ensures
        (n / d) * d <= n < (n / d + 1) * d,
{
    vstd::arithmetic::div_mod::lemma_fundamental_div_mod(n, d);
    vstd::arithmetic::div_mod::lemma_mod_bound(n, d);
    assert(d * (n / d) == (n / d) * d) by (nonlinear_arith);
    assert((n / d + 1) * d == (n / d) * d + d) by (nonlinear_arith);
}

/// Law: frames last as long as the rate says, cut to whole units of 100 ns.
pub proof fn law_frames_take_time(n: int, rate: int)
    requires
        rate > 0,
    ensures
        frames_100ns(n, rate) * rate <= n * 10_000_000 < (frames_100ns(n, rate) + 1) * rate,
{
    lemma_quotient(n * SEC, rate);
}

/// A whole number is above a cut quotient if it is above the quotient.
proof fn lemma_above(x: int, n: int, d: int)
    requires
        d > 0,
    ensures
        x > n / d <==> x * d > n,
{
    lemma_quotient(n, d);
    let q = n / d;
    if x > q {
        assert(x * d >= (q + 1) * d) by (nonlinear_arith)
            requires
                x >= q + 1,
                d > 0,
        ;
    } else {
        assert(x * d <= q * d) by (nonlinear_arith)
            requires
                x <= q,
                d > 0,
        ;
    }
}

/// Law: how sound that comes in is placed. The first sound starts the timeline. A
/// pause of more than 256 frames before it is filled with silence: as many whole
/// frames as fit the pause, but five seconds at most; a shorter one is not. The sound
/// goes behind the silence, and the timeline goes on behind the sound. It takes its
/// share of the waiting samples after the silence has taken its own.
pub proof fn law_how_sound_is_placed(m: MixerModel, qpc: int, frames: int, len: nat)
    requires
        m.rate > 0,
    ensures
        ({
            let anchor = if m.next == 0 {
                qpc
            } else {
                m.next
            };
            let gap = qpc - anchor;
            let n = m.gap_frames(qpc);
            let pts = m.packet_pts(qpc);
            let after = m.after_packet(qpc, frames, len);
            &&& m.anchor(qpc) == anchor
            &&& m.has_gap(qpc) <==> gap * m.rate > 2_560_000_000
            &&& !m.has_gap(qpc) ==> n == 0 && pts == anchor
            &&& m.has_gap(qpc) ==> {
                &&& 0 <= n <= 5 * m.rate
                &&& n * 10_000_000 <= gap * m.rate
                &&& n < 5 * m.rate ==> gap * m.rate < (n + 1) * 10_000_000
            }
            &&& (pts - anchor) * m.rate <= n * 10_000_000 < (pts - anchor + 1) * m.rate
            &&& (after.next - pts) * m.rate <= frames * 10_000_000 < (after.next - pts + 1) * m.rate
            &&& after.rate == m.rate
            &&& m.fifo_behind_gap(qpc) == m.fifo.skip(
                if 2 * n < m.fifo.len() {
                    2 * n
                } else {
                    m.fifo.len() as int
                },
            )
            &&& after.fifo == m.fifo.skip(
                if 2 * n + len < m.fifo.len() {
                    2 * n + len
                } else {
                    m.fifo.len() as int
                },
            )
        }),
{
    let rate = m.rate as int;
    let anchor = m.anchor(qpc);
    let gap = qpc - anchor;
    let n = m.gap_frames(qpc);
    lemma_above(gap, 256 * SEC, rate);
    lemma_quotient(gap * rate, SEC as int);
    lemma_quotient(n * SEC, rate);
    lemma_quotient(frames * SEC, rate);
    if m.has_gap(qpc) {
        lemma_slack_not_negative(256, rate);
        lemma_whole_frames(gap, rate);
    } else {
        assert(0 * SEC == 0);
        vstd::arithmetic::div_mod::lemma_div_basics(rate);
        assert(frames_100ns(0, rate) == 0);
    }
    assert(0 <= n);
    let behind = m.fifo_behind_gap(qpc);
    assert(behind =~= m.fifo.skip(
        if 2 * n < m.fifo.len() {
            2 * n
        } else {
            m.fifo.len() as int
        },
    ));
    assert(m.after_packet(qpc, frames, len).fifo =~= m.fifo.skip(
        if 2 * n + len < m.fifo.len() {
            2 * n + len
        } else {
            m.fifo.len() as int
        },
    ));
}

/// Law: how silence is made up. Once sound has come in, a timeline that is more than
/// 1024 frames and 50 milliseconds behind the clock is moved on by silence: as many
/// whole frames as it is behind the margin, but half a second at most.
pub proof fn law_how_silence_is_made_up(m: MixerModel, now: int)
    requires
        m.rate > 0,
    ensures
        ({
            let behind = now - 500_000 - m.next;
            let n = m.idle_frames(now);
            let after = m.after_idle(now);
            &&& m.is_behind(now) <==> m.next > 0 && behind * m.rate > 10_240_000_000
            &&& !m.is_behind(now) ==> n == 0
            &&& m.is_behind(now) ==> {
                &&& 0 <= n && 2 * n <= m.rate
                &&& n * 10_000_000 <= behind * m.rate
                &&& 2 * (n + 1) <= m.rate ==> behind * m.rate < (n + 1) * 10_000_000
            }
            &&& (after.next - m.next) * m.rate <= n * 10_000_000 < (after.next - m.next + 1)
                * m.rate
            &&& after.rate == m.rate
            &&& after.fifo == m.fifo.skip(
                if 2 * n < m.fifo.len() {
                    2 * n
                } else {
                    m.fifo.len() as int
                },
            )
        }),
{
    let rate = m.rate as int;
    let behind = now - 500_000 - m.next;
    let n = m.idle_frames(now);
    lemma_above(behind, 1024 * SEC, rate);
    lemma_quotient(behind * rate, SEC as int);
    lemma_quotient(n * SEC, rate);
    if m.is_behind(now) {
        lemma_slack_not_negative(1024, rate);
        lemma_whole_frames(behind, rate);
    }
    assert(0 <= n);
    assert(m.after_idle(now).fifo =~= m.fifo.skip(
        if 2 * n < m.fifo.len() {
            2 * n
        } else {
            m.fifo.len() as int
        },
    ));
}

/// Law: times that a recorder sees can always be placed: at either rate, sound that
/// comes within a hundred days of the last, at times of less than ten thousand years.
pub proof fn law_ordinary_sound_is_placed(m: MixerModel, qpc: int, frames: int)
    requires
        m.rate == 48_000 || m.rate == 44_100,
        0 <= m.next <= 0x3000_0000_0000_0000,
        0 <= qpc <= 0x3000_0000_0000_0000,
        m.next == 0 || qpc - m.next <= 86_400_000_000_000,
        0 <= frames <= 0xFFFF_FFFF,
    ensures
        m.packet_fits(qpc, frames),
{
    law_how_sound_is_placed(m, qpc, frames, 0);
}

/// Law: the clock can always be looked at: before any sound at all times, and then
/// within a hundred days of the last.
pub proof fn law_ordinary_pauses_are_filled(m: MixerModel, now: int)
    requires
        m.rate == 48_000 || m.rate == 44_100,
        m.next <= 0x3000_0000_0000_0000,
        m.next > 0 ==> 0 <= now <= 0x3000_0000_0000_0000 && now - m.next <= 86_400_000_000_000,
    ensures
        m.idle_fits(now),
{
    law_how_silence_is_made_up(m, now);
}

} // verus!

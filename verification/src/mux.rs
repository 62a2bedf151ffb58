//! What goes into an MP4 file: its formats, its header, and the order in which
//! the packets of a clip are written.

pub use crate::annexb::extract_parameter_sets;
use crate::annexb::parameter_sets;
use crate::local_time::LocalTime;
use crate::media::{video_format, VideoFormat};
use crate::ring::{Clip, Packet, StreamKind};
use crate::paths::{is_part, is_separator, join, joined};
use crate::text::{
    decimal, is_digit, law_four_digits, law_two_digits, lemma_decimal_digits, padded, push_padded,
};
use vstd::prelude::*;

verus! {

/// The sound of a clip, as the AAC encoder describes it.
pub struct AudioParams {
    pub sample_rate: u32,
    pub channels: u32,
    pub bytes_per_sec: u32,
    /// The encoder's own description of the stream.
    pub user_data: Vec<u8>,
}

impl AudioParams {
    /// The two describe the same sound.
    pub open spec fn same(self, other: AudioParams) -> bool {
        &&& self.sample_rate == other.sample_rate
        &&& self.channels == other.channels
        &&& self.bytes_per_sec == other.bytes_per_sec
        &&& self.user_data@ == other.user_data@
    }
}

/// A copy of a byte vector.
fn copy_bytes(v: &Vec<u8>) -> (w: Vec<u8>)
    ensures
        w@ == v@,
{
    let w = v.clone();
    assert(w@ =~= v@);
    w
}

impl Clone for AudioParams {
    fn clone(&self) -> (a: AudioParams)
        ensures
            a.same(*self),
    {
        AudioParams {
            sample_rate: self.sample_rate,
            channels: self.channels,
            bytes_per_sec: self.bytes_per_sec,
            user_data: copy_bytes(&self.user_data),
        }
    }
}

/// What a clip was recorded with.
pub struct MuxParams {
    pub width: u32,
    pub height: u32,
    pub fps: u32,
    pub bitrate: u32,
    /// The parameter sets, if the encoder announced them.
    pub seq_header: Option<Vec<u8>>,
    pub audio: Option<AudioParams>,
}

/// One packet to write.
#[derive(Clone, Copy)]
pub struct WriteStep {
    pub kind: StreamKind,
    pub index: usize,
}

/// How many of `n` things there are from the `i`-th on.
pub open spec fn left(n: nat, i: nat) -> nat {
    if i < n {
        (n - i) as nat
    } else {
        0
    }
}

/// The packets of two streams from `i` and `j` on, merged by their times; video
/// goes first where they are equal.
pub open spec fn merged(v: Seq<Packet>, a: Seq<Packet>, i: nat, j: nat) -> Seq<WriteStep>
    decreases left(v.len(), i) + left(a.len(), j),
{
    if i < v.len() && (j >= a.len() || v[i as int].pts <= a[j as int].pts) {
        seq![WriteStep { kind: StreamKind::Video, index: i as usize }] + merged(v, a, i + 1, j)
    } else if j < a.len() {
        seq![WriteStep { kind: StreamKind::Audio, index: j as usize }] + merged(v, a, i, j + 1)
    } else {
        Seq::empty()
    }
}

/// The order in which a clip is written. Without an audio stream it is that of
/// the video packets.
pub open spec fn write_order(v: Seq<Packet>, a: Seq<Packet>, with_audio: bool) -> Seq<WriteStep> {
    if with_audio {
        merged(v, a, 0, 0)
    } else {
        Seq::new(v.len(), |i: int| WriteStep { kind: StreamKind::Video, index: i as usize })
    }
}

/// The order in which the packets of a clip are written.
pub fn interleave(video: &Vec<Packet>, audio: &Vec<Packet>, with_audio: bool) -> (steps: Vec<
    WriteStep,
>)
    ensures
        steps@ == write_order(video@, audio@, with_audio),
{
    let mut steps: Vec<WriteStep> = Vec::new();
    let mut vi: usize = 0;
    let mut ai: usize = 0;
    if !with_audio {
        while vi < video.len()
            invariant
                vi <= video@.len(),
                steps@ == write_order(video@, audio@, false).take(vi as int),
            decreases video@.len() - vi,
        {
            steps.push(WriteStep { kind: StreamKind::Video, index: vi });
            vi += 1;
            assert(steps@ =~= write_order(video@, audio@, false).take(vi as int));
        }
        assert(steps@ =~= write_order(video@, audio@, false));
        return steps;
    }
    assert(steps@ + merged(video@, audio@, 0, 0) =~= merged(video@, audio@, 0, 0));
    while vi < video.len() || ai < audio.len()
        invariant
            vi <= video@.len(),
            ai <= audio@.len(),
            steps@ + merged(video@, audio@, vi as nat, ai as nat) == merged(video@, audio@, 0, 0),
        decreases video@.len() - vi + audio@.len() - ai,
    {
        let ghost rest = merged(video@, audio@, vi as nat, ai as nat);
        let ghost before = steps@;
        if vi < video.len() && (ai >= audio.len() || video[vi].pts <= audio[ai].pts) {
            steps.push(WriteStep { kind: StreamKind::Video, index: vi });
            vi += 1;
        } else {
            steps.push(WriteStep { kind: StreamKind::Audio, index: ai });
            ai += 1;
        }
        assert(steps@ + merged(video@, audio@, vi as nat, ai as nat) =~= before + rest);
    }
    assert(steps@ =~= steps@ + merged(video@, audio@, vi as nat, ai as nat));
    steps
}

/// Why a clip cannot be written.
#[derive(Debug, Clone, Copy, PartialEq, Eq, Structural)]
pub enum MuxError {
    /// Neither the encoder nor the first packet gives the parameter sets.
    NoParameterSets,
}

impl MuxError {
    /// The error in words.
    pub fn message(&self) -> (s: String)
        ensures
            s@ == "no HEVC parameter sets"@,
    {
        "no HEVC parameter sets".to_owned()
    }
}

/// The parameter sets that the file starts with: those that the encoder
/// announced, or else those in front of the first video packet.
pub open spec fn header_of(given: Option<Vec<u8>>, video: Seq<Packet>) -> Option<Seq<u8>> {
    match given {
        Some(h) => Some(h@),
        None => if video.len() > 0 && parameter_sets(video[0].data@).len() > 0 {
            Some(parameter_sets(video[0].data@))
        } else {
            None
        },
    }
}

/// What is to be written for a clip.
pub struct MuxPlan {
    pub video: VideoFormat,
    pub seq_header: Vec<u8>,
    /// The audio stream, if the file has one.
    pub audio: Option<AudioParams>,
    pub steps: Vec<WriteStep>,
}

/// Works out what is to be written for `clip`. The file has an audio stream if
/// there are both sound and a description of it.
pub fn plan_clip(clip: &Clip, prm: &MuxParams) -> (r: Result<MuxPlan, MuxError>)
    ensures
        r is Ok <==> header_of(prm.seq_header, clip.video@) is Some,
        r matches Err(e) ==> e == MuxError::NoParameterSets,
        r matches Ok(plan) ==> {
            let with_audio = prm.audio is Some && clip.audio@.len() > 0;
            &&& header_of(prm.seq_header, clip.video@) == Some(plan.seq_header@)
            &&& plan.video.frame_size == prm.width * 0x1_0000_0000 + prm.height
            &&& plan.video.frame_rate == prm.fps * 0x1_0000_0000 + 1
            &&& plan.video.bitrate == prm.bitrate
            &&& plan.video.pixel_aspect == 0x1_0000_0001
            &&& plan.audio is Some <==> with_audio
            &&& plan.audio matches Some(a) ==> a.same(prm.audio->0)
            &&& plan.steps@ == write_order(clip.video@, clip.audio@, with_audio)
        },
{
    let seq_header: Vec<u8> = match &prm.seq_header {
        Some(h) => copy_bytes(h),
        None => {
            if clip.video.len() == 0 {
                return Err(MuxError::NoParameterSets);
            }
            match extract_parameter_sets(&clip.video[0].data) {
                Some(h) => h,
                None => return Err(MuxError::NoParameterSets),
            }
        },
    };
    let audio: Option<AudioParams> = match &prm.audio {
        Some(a) => if clip.audio.len() > 0 {
            Some(a.clone())
        } else {
            None
        },
        None => None,
    };
    let with_audio: bool = audio.is_some();
    Ok(
        MuxPlan {
            video: video_format(prm.width, prm.height, prm.fps, prm.bitrate),
            seq_header,
            audio,
            steps: interleave(&clip.video, &clip.audio, with_audio),
        },
    )
}

/// The name of a clip that is saved at `t`.
pub open spec fn clip_name(t: LocalTime) -> Seq<char> {
    "Clip "@ + padded(t.year as nat, 4) + "-"@ + padded(t.month as nat, 2) + "-"@ + padded(
        t.day as nat,
        2,
    ) + " "@ + padded(t.hour as nat, 2) + "-"@ + padded(t.minute as nat, 2) + "-"@ + padded(
        t.second as nat,
        2,
    ) + ".mp4"@
}

/// The name of a clip that is saved at `t`, such as
/// `Clip 2026-06-11 18-04-32.mp4`.
pub fn clip_filename(t: &LocalTime) -> (name: String)
    ensures
        name@ == clip_name(*t),
{
    let mut name = "Clip ".to_owned();
    push_padded(&mut name, t.year as u64, 10, 4);
    name.append("-");
    push_padded(&mut name, t.month as u64, 10, 2);
    name.append("-");
    push_padded(&mut name, t.day as u64, 10, 2);
    name.append(" ");
    push_padded(&mut name, t.hour as u64, 10, 2);
    name.append("-");
    push_padded(&mut name, t.minute as u64, 10, 2);
    name.append("-");
    push_padded(&mut name, t.second as u64, 10, 2);
    name.append(".mp4");
    name
}

/// A text of which every character can stand in a part of a path.
spec fn harmless(s: Seq<char>) -> bool {
    forall|i: int| 0 <= i < s.len() ==> !is_separator(#[trigger] s[i]) && s[i] != ':'
}

proof fn lemma_padded_harmless(n: nat, width: nat)
    ensures
        harmless(padded(n, width)),
{
    lemma_decimal_digits(n);
    let d = decimal(n);
    assert forall|i: int| 0 <= i < padded(n, width).len() implies !is_separator(
        #[trigger] padded(n, width)[i],
    ) && padded(n, width)[i] != ':' by {
        let zeros = padded(n, width).len() - d.len();
        if i >= zeros {
            assert(padded(n, width)[i] == d[i - zeros]);
            assert(is_digit(d[i - zeros]));
        }
    }
}

/// The name of a clip is one part of a path.
proof fn lemma_clip_name_is_part(t: LocalTime)
    ensures
        is_part(clip_name(t)),
{
    reveal_strlit("Clip ");
    reveal_strlit("-");
    reveal_strlit(" ");
    reveal_strlit(".mp4");
    lemma_padded_harmless(t.year as nat, 4);
    lemma_padded_harmless(t.month as nat, 2);
    lemma_padded_harmless(t.day as nat, 2);
    lemma_padded_harmless(t.hour as nat, 2);
    lemma_padded_harmless(t.minute as nat, 2);
    lemma_padded_harmless(t.second as nat, 2);
    assert(harmless("Clip "@) && harmless("-"@) && harmless(" "@) && harmless(".mp4"@));
    assert(harmless(clip_name(t)));
    assert(clip_name(t).len() >= 9);
}

/// The path of a clip that is saved at `t` in the folder `dir`.
pub fn clip_path(dir: &str, t: &LocalTime) -> (path: String)
    ensures
        path@ == joined(dir@, clip_name(*t)),
{
    proof {
        lemma_clip_name_is_part(*t);
    }
    let name = clip_filename(t);
    join(dir, name.as_str())
}

// ---------------------------------------------------------------------------
// Laws
// ---------------------------------------------------------------------------

/// The time of the packet that a step writes.
pub open spec fn step_pts(v: Seq<Packet>, a: Seq<Packet>, s: WriteStep) -> int {
    match s.kind {
        StreamKind::Video => v[s.index as int].pts as int,
        StreamKind::Audio => a[s.index as int].pts as int,
    }
}

/// Packets in the order of their times.
pub open spec fn ordered(s: Seq<Packet>) -> bool {
    forall|i: int, j: int| 0 <= i <= j < s.len() ==> (#[trigger] s[i]).pts <= (#[trigger] s[j]).pts
}

/// The indices that the steps write of one stream, in order.
pub open spec fn indices(steps: Seq<WriteStep>, kind: StreamKind) -> Seq<usize>
    decreases steps.len(),
{
    if steps.len() == 0 {
        Seq::empty()
    } else if steps[0].kind == kind {
        seq![steps[0].index] + indices(steps.skip(1), kind)
    } else {
        indices(steps.skip(1), kind)
    }
}

/// The positions from `from` up to `to`.
pub open spec fn positions(from: nat, to: nat) -> Seq<usize> {
    Seq::new((to - from) as nat, |k: int| (from + k) as usize)
}

proof fn lemma_merged_complete(v: Seq<Packet>, a: Seq<Packet>, i: nat, j: nat)
    requires
        i <= v.len(),
        j <= a.len(),
    ensures
        indices(merged(v, a, i, j), StreamKind::Video) == positions(i, v.len()),
        indices(merged(v, a, i, j), StreamKind::Audio) == positions(j, a.len()),
    decreases v.len() - i + a.len() - j,
{
    let all = merged(v, a, i, j);
    if i < v.len() && (j >= a.len() || v[i as int].pts <= a[j as int].pts) {
        lemma_merged_complete(v, a, i + 1, j);
        assert(all.skip(1) =~= merged(v, a, i + 1, j));
        assert(seq![i as usize] + positions(i + 1, v.len()) =~= positions(i, v.len()));
    } else if j < a.len() {
        lemma_merged_complete(v, a, i, j + 1);
        assert(all.skip(1) =~= merged(v, a, i, j + 1));
        assert(seq![j as usize] + positions(j + 1, a.len()) =~= positions(j, a.len()));
    } else {
        assert(positions(i, v.len()) =~= Seq::<usize>::empty());
        assert(positions(j, a.len()) =~= Seq::<usize>::empty());
    }
}

/// Law: interleaving writes every packet of both streams once, each stream in its
/// own order.
pub proof fn law_interleaving_is_complete(v: Seq<Packet>, a: Seq<Packet>)
    ensures
        indices(write_order(v, a, true), StreamKind::Video) == positions(0, v.len()),
        indices(write_order(v, a, true), StreamKind::Audio) == positions(0, a.len()),
{
    lemma_merged_complete(v, a, 0, 0);
}

proof fn lemma_merged_ordered(v: Seq<Packet>, a: Seq<Packet>, i: nat, j: nat)
    requires
        ordered(v),
        ordered(a),
        i <= v.len() <= usize::MAX,
        j <= a.len() <= usize::MAX,
    ensures
        forall|x: int|
            0 <= x < merged(v, a, i, j).len() ==> {
                let s = #[trigger] merged(v, a, i, j)[x];
                &&& i < v.len() || j < a.len()
                &&& i < v.len() && (j >= a.len() || v[i as int].pts <= a[j as int].pts) ==> step_pts(v, a, s)
                    >= v[i as int].pts
                &&& j < a.len() && !(i < v.len() && v[i as int].pts <= a[j as int].pts) ==> step_pts(v, a, s)
                    >= a[j as int].pts
            },
        forall|x: int, y: int|
            0 <= x <= y < merged(v, a, i, j).len() ==> step_pts(
                v,
                a,
                #[trigger] merged(v, a, i, j)[x],
            ) <= step_pts(v, a, #[trigger] merged(v, a, i, j)[y]),
    decreases v.len() - i + a.len() - j,
{
    let all = merged(v, a, i, j);
    if i < v.len() && (j >= a.len() || v[i as int].pts <= a[j as int].pts) {
        lemma_merged_ordered(v, a, i + 1, j);
        let rest = merged(v, a, i + 1, j);
        assert(all.skip(1) =~= rest);
        assert forall|x: int| 0 <= x < all.len() implies step_pts(v, a, #[trigger] all[x])
            >= v[i as int].pts by {
            if x > 0 {
                assert(all[x] == rest[x - 1]);
            }
        }
        assert forall|x: int, y: int| 0 <= x <= y < all.len() implies step_pts(
            v,
            a,
            #[trigger] all[x],
        ) <= step_pts(v, a, #[trigger] all[y]) by {
            if x > 0 {
                assert(all[x] == rest[x - 1]);
                assert(all[y] == rest[y - 1]);
            }
        }
    } else if j < a.len() {
        lemma_merged_ordered(v, a, i, j + 1);
        let rest = merged(v, a, i, j + 1);
        assert(all.skip(1) =~= rest);
        assert forall|x: int| 0 <= x < all.len() implies step_pts(v, a, #[trigger] all[x])
            >= a[j as int].pts by {
            if x > 0 {
                assert(all[x] == rest[x - 1]);
            }
        }
        assert forall|x: int, y: int| 0 <= x <= y < all.len() implies step_pts(
            v,
            a,
            #[trigger] all[x],
        ) <= step_pts(v, a, #[trigger] all[y]) by {
            if x > 0 {
                assert(all[x] == rest[x - 1]);
                assert(all[y] == rest[y - 1]);
            }
        }
    }
}

/// Law: two streams in the order of their times are written in the order of the
/// times of all packets.
pub proof fn law_interleaving_is_ordered(v: Seq<Packet>, a: Seq<Packet>)
    requires
        ordered(v),
        ordered(a),
        v.len() <= usize::MAX,
        a.len() <= usize::MAX,
    ensures
        forall|x: int, y: int|
            0 <= x <= y < write_order(v, a, true).len() ==> step_pts(
                v,
                a,
                #[trigger] write_order(v, a, true)[x],
            ) <= step_pts(v, a, #[trigger] write_order(v, a, true)[y]),
{
    lemma_merged_ordered(v, a, 0, 0);
}

/// How many of the first `x` steps write a packet of one stream.
pub open spec fn written(steps: Seq<WriteStep>, x: int, kind: StreamKind) -> int {
    steps.take(x).filter(|s: WriteStep| s.kind == kind).len() as int
}

/// One more step counts for its stream and not for the other.
proof fn lemma_written_next(steps: Seq<WriteStep>, x: int)
    requires
        0 <= x < steps.len(),
    ensures
        forall|kind: StreamKind| #[trigger]
            written(steps, x + 1, kind) == written(steps, x, kind) + (if steps[x].kind == kind {
                1int
            } else {
                0
            }),
{
    reveal(Seq::filter);
    assert(steps.take(x + 1).drop_last() =~= steps.take(x));
    assert(steps.take(x + 1).last() == steps[x]);
}

/// Nothing is written before the first step.
proof fn lemma_written_none(steps: Seq<WriteStep>, kind: StreamKind)
    ensures
        written(steps, 0, kind) == 0,
{
    reveal(Seq::filter);
    assert(steps.take(0) =~= Seq::<WriteStep>::empty());
}

/// Behind a first step, one more of its stream is written.
proof fn lemma_written_behind(first: WriteStep, rest: Seq<WriteStep>, x: int, kind: StreamKind)
    requires
        0 <= x <= rest.len(),
    ensures
        written(seq![first] + rest, x + 1, kind) == written(rest, x, kind) + (if first.kind
            == kind {
            1int
        } else {
            0
        }),
    decreases x,
{
    let all = seq![first] + rest;
    if x == 0 {
        lemma_written_none(all, kind);
        lemma_written_none(rest, kind);
        lemma_written_next(all, 0);
        assert(all[0] == first);
    } else {
        lemma_written_behind(first, rest, x - 1, kind);
        lemma_written_next(all, x);
        lemma_written_next(rest, x - 1);
        assert(all[x] == rest[x - 1]);
        assert(written(all, x + 1, kind) == written(all, x, kind) + (if all[x].kind == kind {
            1int
        } else {
            0
        }));
        assert(written(rest, (x - 1) + 1, kind) == written(rest, x - 1, kind) + (if rest[x
            - 1].kind == kind {
            1int
        } else {
            0
        }));
    }
}

proof fn lemma_merged_step(v: Seq<Packet>, a: Seq<Packet>, i: nat, j: nat, x: int)
    requires
        i <= v.len() <= usize::MAX,
        j <= a.len() <= usize::MAX,
        0 <= x < merged(v, a, i, j).len(),
    ensures
        merged(v, a, i, j).len() == v.len() - i + a.len() - j,
        ({
            let steps = merged(v, a, i, j);
            let nv = i + written(steps, x, StreamKind::Video);
            let na = j + written(steps, x, StreamKind::Audio);
            &&& 0 <= nv && 0 <= na
            &&& steps[x].kind == StreamKind::Video ==> {
                &&& steps[x].index == nv
                &&& nv < v.len()
                &&& na < a.len() ==> v[nv].pts <= a[na].pts
            }
            &&& steps[x].kind == StreamKind::Audio ==> {
                &&& steps[x].index == na
                &&& na < a.len()
                &&& nv < v.len() ==> a[na].pts < v[nv].pts
            }
        }),
    decreases v.len() - i + a.len() - j,
{
    let steps = merged(v, a, i, j);
    lemma_merged_len(v, a, i, j);
    lemma_written_none(steps, StreamKind::Video);
    lemma_written_none(steps, StreamKind::Audio);
    if i < v.len() && (j >= a.len() || v[i as int].pts <= a[j as int].pts) {
        let rest = merged(v, a, i + 1, j);
        let first = WriteStep { kind: StreamKind::Video, index: i as usize };
        assert(steps == seq![first] + rest);
        if x > 0 {
            lemma_merged_step(v, a, i + 1, j, x - 1);
            lemma_written_behind(first, rest, x - 1, StreamKind::Video);
            lemma_written_behind(first, rest, x - 1, StreamKind::Audio);
            assert(steps[x] == rest[x - 1]);
        }
    } else if j < a.len() {
        let rest = merged(v, a, i, j + 1);
        let first = WriteStep { kind: StreamKind::Audio, index: j as usize };
        assert(steps == seq![first] + rest);
        if x > 0 {
            lemma_merged_step(v, a, i, j + 1, x - 1);
            lemma_written_behind(first, rest, x - 1, StreamKind::Video);
            lemma_written_behind(first, rest, x - 1, StreamKind::Audio);
            assert(steps[x] == rest[x - 1]);
        }
    }
}

proof fn lemma_merged_len(v: Seq<Packet>, a: Seq<Packet>, i: nat, j: nat)
    requires
        i <= v.len(),
        j <= a.len(),
    ensures
        merged(v, a, i, j).len() == v.len() - i + a.len() - j,
    decreases v.len() - i + a.len() - j,
{
    if i < v.len() && (j >= a.len() || v[i as int].pts <= a[j as int].pts) {
        lemma_merged_len(v, a, i + 1, j);
    } else if j < a.len() {
        lemma_merged_len(v, a, i, j + 1);
    }
}

/// Law: how a file is interleaved. Every packet is written, and each step writes the
/// next packet of its stream: of video if its time is not after that of the next
/// sound, and of sound if its time is before that of the next picture.
pub proof fn law_how_files_are_interleaved(v: Seq<Packet>, a: Seq<Packet>, x: int)
    requires
        v.len() <= usize::MAX,
        a.len() <= usize::MAX,
        0 <= x < write_order(v, a, true).len(),
    ensures
        write_order(v, a, true).len() == v.len() + a.len(),
        ({
            let steps = write_order(v, a, true);
            let nv = written(steps, x, StreamKind::Video);
            let na = written(steps, x, StreamKind::Audio);
            &&& steps[x].kind == StreamKind::Video ==> {
                &&& steps[x].index == nv
                &&& nv < v.len()
                &&& na < a.len() ==> v[nv].pts <= a[na].pts
            }
            &&& steps[x].kind == StreamKind::Audio ==> {
                &&& steps[x].index == na
                &&& na < a.len()
                &&& nv < v.len() ==> a[na].pts < v[nv].pts
            }
        }),
{
    lemma_merged_step(v, a, 0, 0, x);
}

/// Law: a file has all of its packets, whether it has sound or not.
pub proof fn law_files_hold_every_packet(v: Seq<Packet>, a: Seq<Packet>)
    requires
        v.len() <= usize::MAX,
    ensures
        write_order(v, a, true).len() == v.len() + a.len(),
        write_order(v, a, false).len() == v.len(),
        forall|i: int|
            0 <= i < v.len() ==> (#[trigger] write_order(v, a, false)[i]).kind == StreamKind::Video
                && write_order(v, a, false)[i].index == i,
{
    lemma_merged_len(v, a, 0, 0);
}

/// Law: the header of a file is what the encoder announced, whatever the packets
/// hold; without that it is what is taken out of the first video packet, and there is
/// none where that gives nothing.
pub proof fn law_headers_come_from_the_encoder_first(given: Option<Vec<u8>>, video: Seq<Packet>)
    ensures
        given matches Some(h) ==> header_of(given, video) == Some(h@),
        given is None && video.len() == 0 ==> header_of(given, video) is None,
        given is None && video.len() > 0 ==> {
            let sets = parameter_sets(video[0].data@);
            &&& sets.len() == 0 ==> header_of(given, video) is None
            &&& sets.len() > 0 ==> header_of(given, video) == Some(sets)
        },
{
}

/// Law: descriptions of sound that are the same agree in every number and byte.
pub proof fn law_same_sound(a: AudioParams, b: AudioParams)
    requires
        a.same(b),
    ensures
        a.sample_rate == b.sample_rate,
        a.channels == b.channels,
        a.bytes_per_sec == b.bytes_per_sec,
        a.user_data@ == b.user_data@,
{
}

/// Law: a clip's name tells its time to the second: `Clip`, the date with hyphens,
/// the time with hyphens, each field on its digits, and the file type.
pub proof fn law_names_tell_the_time(t: LocalTime)
    requires
        t.year < 10_000,
        t.month < 100 && t.day < 100 && t.hour < 100 && t.minute < 100 && t.second < 100,
    ensures
        ({
            let s = clip_name(t);
            &&& s.len() == 28
            &&& s.take(5) == seq!['C', 'l', 'i', 'p', ' ']
            &&& s[5] as u32 == 48 + t.year / 1000 && s[6] as u32 == 48 + t.year / 100 % 10
            &&& s[7] as u32 == 48 + t.year / 10 % 10 && s[8] as u32 == 48 + t.year % 10
            &&& s[9] == '-' && s[12] == '-' && s[15] == ' ' && s[18] == '-' && s[21] == '-'
            &&& s[10] as u32 == 48 + t.month / 10 && s[11] as u32 == 48 + t.month % 10
            &&& s[13] as u32 == 48 + t.day / 10 && s[14] as u32 == 48 + t.day % 10
            &&& s[16] as u32 == 48 + t.hour / 10 && s[17] as u32 == 48 + t.hour % 10
            &&& s[19] as u32 == 48 + t.minute / 10 && s[20] as u32 == 48 + t.minute % 10
            &&& s[22] as u32 == 48 + t.second / 10 && s[23] as u32 == 48 + t.second % 10
            &&& s.skip(24) == seq!['.', 'm', 'p', '4']
        }),
{
    reveal_strlit("Clip ");
    reveal_strlit("-");
    reveal_strlit(" ");
    reveal_strlit(".mp4");
    law_four_digits(t.year as nat);
    law_two_digits(t.month as nat);
    law_two_digits(t.day as nat);
    law_two_digits(t.hour as nat);
    law_two_digits(t.minute as nat);
    law_two_digits(t.second as nat);
    let s = clip_name(t);
    assert(s.take(5) =~= seq!['C', 'l', 'i', 'p', ' ']);
    assert(s.skip(24) =~= seq!['.', 'm', 'p', '4']);
}

} // verus!

//! The ring of encoded packets: the last seconds of compressed video and sound,
//! and the cut of a clip out of them.

use std::collections::VecDeque;
use std::sync::Arc;
use vstd::prelude::*;

verus! {

/// One second on the shared clock, whose unit is 100 ns.
pub const SEC: i64 = 10_000_000;

/// What is kept before the edge of the clip: room for a whole group of pictures.
pub const GOP_SLACK: i64 = 3 * SEC;

/// Which of the two streams a packet belongs to.
#[derive(Clone, Copy, PartialEq, Eq, Debug, Structural)]
pub enum StreamKind {
    Video,
    Audio,
}

/// One encoded packet. The payload is shared, so a copy of a packet is cheap.
pub struct Packet {
    pub kind: StreamKind,
    /// Presentation time on the clock that both streams share.
    pub pts: i64,
    pub dur: i64,
    pub keyframe: bool,
    pub data: Arc<[u8]>,
}

/// `Arc::clone` hands out the same payload again.
#[verifier::external_body]
fn share(data: &Arc<[u8]>) -> (shared: Arc<[u8]>)
    ensures
        shared == *data,
{
    data.clone()
}

impl Clone for Packet {
    fn clone(&self) -> (p: Packet)
        ensures
            p == *self,
    {
        Packet {
            kind: self.kind,
            pts: self.pts,
            dur: self.dur,
            keyframe: self.keyframe,
            data: share(&self.data),
        }
    }
}

/// How many payload bytes the packets hold together.
pub open spec fn total_bytes(s: Seq<Packet>) -> nat
    decreases s.len(),
{
    if s.len() == 0 {
        0
    } else {
        total_bytes(s.drop_last()) + s.last().data@.len()
    }
}

/// Whether the oldest of the packets `s` has to go: it is older than the window
/// before the newest video packet, or the packets hold more than `cap` bytes.
pub open spec fn overdue(s: Seq<Packet>, newest: int, window: int, cap: nat) -> bool {
    s.len() > 0 && ((newest > 0 && s[0].pts < newest - window) || total_bytes(s) > cap)
}

/// What is left of `s` once the oldest packets have gone, one by one, for as
/// long as one is overdue.
pub open spec fn retained(s: Seq<Packet>, newest: int, window: int, cap: nat) -> Seq<Packet>
    decreases s.len(),
{
    if overdue(s, newest, window, cap) {
        retained(s.skip(1), newest, window, cap)
    } else {
        s
    }
}

/// What a ring holds: its packets from the oldest to the newest, its limits, and
/// the time of the last video packet (zero before the first one).
#[verifier::ext_equal]
pub struct RingModel {
    pub packets: Seq<Packet>,
    pub window: int,
    pub byte_cap: nat,
    pub newest: int,
}

/// How far back a ring reaches for clips of `secs` seconds.
pub open spec fn window_for(secs: u32) -> int {
    secs * SEC + GOP_SLACK
}

impl RingModel {
    /// The time of the last video packet once `p` has come in.
    pub open spec fn newest_after(self, p: Packet) -> int {
        if p.kind == StreamKind::Video {
            p.pts as int
        } else {
            self.newest
        }
    }

    /// The ring once `p` has come in and what is overdue has gone.
    pub open spec fn pushed(self, p: Packet) -> RingModel {
        RingModel {
            packets: retained(
                self.packets.push(p),
                self.newest_after(p),
                self.window,
                self.byte_cap,
            ),
            newest: self.newest_after(p),
            ..self
        }
    }
}

/// The ring of encoded packets.
pub struct Ring {
    q: VecDeque<Packet>,
    bytes: usize,
    window: i64,
    byte_cap: usize,
    newest_video_pts: i64,
}

impl View for Ring {
    type V = RingModel;

    closed spec fn view(&self) -> RingModel {
        RingModel {
            packets: self.q@,
            window: self.window as int,
            byte_cap: self.byte_cap as nat,
            newest: self.newest_video_pts as int,
        }
    }
}

proof fn lemma_total_bytes_front(s: Seq<Packet>)
    requires
        s.len() > 0,
    ensures
        total_bytes(s) == s[0].data@.len() + total_bytes(s.skip(1)),
    decreases s.len(),
{
    if s.len() == 1 {
        assert(s.drop_last() =~= Seq::<Packet>::empty());
        assert(s.skip(1) =~= Seq::<Packet>::empty());
    } else {
        lemma_total_bytes_front(s.drop_last());
        assert(s.drop_last().skip(1) =~= s.skip(1).drop_last());
        assert(s.skip(1).last() == s.last());
    }
}

impl Ring {
    /// The byte count is that of the packets, and it is within the cap.
    pub closed spec fn wf(self) -> bool {
        &&& self.bytes == total_bytes(self.q@)
        &&& self.bytes <= self.byte_cap
        &&& 0 <= self.window
    }

    /// An empty ring for clips of `clip_seconds` that holds at most `byte_cap` bytes.
    pub fn new(clip_seconds: u32, byte_cap: usize) -> (r: Ring)
        ensures
            r.wf(),
            r@ == (RingModel {
                packets: Seq::empty(),
                window: window_for(clip_seconds),
                byte_cap: byte_cap as nat,
                newest: 0,
            }),
            r@.window == clip_seconds * 10_000_000 + 30_000_000,
    {
        Ring {
            q: VecDeque::new(),
            bytes: 0,
            window: clip_seconds as i64 * SEC + GOP_SLACK,
            byte_cap,
            newest_video_pts: 0,
        }
    }

    /// Changes the clip length. What is too much for it goes with the next packet.
    pub fn set_clip_seconds(&mut self, secs: u32)
        requires
            old(self).wf(),
        ensures
            final(self).wf(),
            final(self)@ == (RingModel { window: window_for(secs), ..old(self)@ }),
            final(self)@.window == secs * 10_000_000 + 30_000_000,
    {
        self.window = secs as i64 * SEC + GOP_SLACK;
    }

    /// Whether the ring can take in `p`: its bytes and the edge of its window can
    /// be counted.
    pub fn takes(&self, p: &Packet) -> (b: bool)
        requires
            self.wf(),
        ensures
            b == (total_bytes(self@.packets) + p.data@.len() <= usize::MAX && self@.newest_after(*p)
                - self@.window >= i64::MIN),
    {
        let newest: i64 = if p.kind == StreamKind::Video {
            p.pts
        } else {
            self.newest_video_pts
        };
        p.data.len() <= usize::MAX - self.bytes && newest as i128 - self.window as i128
            >= i64::MIN as i128
    }

    /// Takes in the next packet and lets go of what is overdue.
    pub fn push(&mut self, p: Packet)
        requires
            old(self).wf(),
            total_bytes(old(self)@.packets) + p.data@.len() <= usize::MAX,
            old(self)@.newest_after(p) - old(self)@.window >= i64::MIN,
        ensures
            final(self).wf(),
            final(self)@ == old(self)@.pushed(p),
    {
        let ghost model = self@;
        if p.kind == StreamKind::Video {
            self.newest_video_pts = p.pts;
        }
        let ghost all = self.q@.push(p);
        assert(all.drop_last() =~= self.q@);
        self.bytes += p.data.len();
        self.q.push_back(p);
        let cutoff: i64 = self.newest_video_pts - self.window;
        loop
            invariant
                self.bytes == total_bytes(self.q@),
                0 <= self.window,
                self.window == model.window,
                self.byte_cap == model.byte_cap,
                self.newest_video_pts == model.newest_after(p),
                cutoff == self.newest_video_pts - self.window,
                retained(all, model.newest_after(p), model.window, model.byte_cap) == retained(
                    self.q@,
                    model.newest_after(p),
                    model.window,
                    model.byte_cap,
                ),
            ensures
                self.bytes <= self.byte_cap,
                !overdue(self.q@, model.newest_after(p), model.window, model.byte_cap),
            decreases self.q@.len(),
        {
            if self.q.len() == 0 {
                break;
            }
            if !((self.newest_video_pts > 0 && self.q[0].pts < cutoff) || self.bytes
                > self.byte_cap) {
                break;
            }
            proof {
                lemma_total_bytes_front(self.q@);
            }
            let ghost before = self.q@;
            self.bytes -= self.q[0].data.len();
            let gone = self.q.pop_front();
            assert(self.q@ =~= before.skip(1));
        }
    }

    /// Drops everything: an encoder that starts anew has new parameter sets.
    pub fn clear(&mut self)
        requires
            old(self).wf(),
        ensures
            final(self).wf(),
            final(self)@ == old(self)@.cleared(),
    {
        self.q.clear();
        self.bytes = 0;
        self.newest_video_pts = 0;
    }

    /// How many payload bytes the ring holds; never more than its cap.
    pub fn bytes(&self) -> (n: usize)
        requires
            self.wf(),
        ensures
            n == total_bytes(self@.packets),
            n <= self@.byte_cap,
    {
        self.bytes
    }

    /// The packets, from the oldest to the newest.
    pub fn snapshot(&self) -> (v: Vec<Packet>)
        ensures
            v@ == self@.packets,
    {
        let mut v: Vec<Packet> = Vec::new();
        let mut i: usize = 0;
        while i < self.q.len()
            invariant
                i <= self.q@.len(),
                v@ == self.q@.take(i as int),
            decreases self.q@.len() - i,
        {
            v.push(self.q[i].clone());
            i += 1;
            assert(self.q@.take(i as int) =~= self.q@.take(i - 1).push(self.q@[i - 1]));
        }
        assert(self.q@.take(i as int) =~= self.q@);
        v
    }
}

// ---------------------------------------------------------------------------
// Clips
// ---------------------------------------------------------------------------

/// A cut of the ring, its times counted from its start.
pub struct Clip {
    pub video: Vec<Packet>,
    pub audio: Vec<Packet>,
    pub duration: i64,
}

/// A video packet.
pub open spec fn is_video(p: Packet) -> bool {
    p.kind == StreamKind::Video
}

/// A video packet that decoding can start from.
pub open spec fn is_key(p: Packet) -> bool {
    p.kind == StreamKind::Video && p.keyframe
}

/// The time of the last packet of `s` that meets `pred`.
pub open spec fn last_pts(s: Seq<Packet>, pred: spec_fn(Packet) -> bool) -> Option<i64>
    decreases s.len(),
{
    if s.len() == 0 {
        None
    } else if pred(s.last()) {
        Some(s.last().pts)
    } else {
        last_pts(s.drop_last(), pred)
    }
}

/// The time of the first packet of `s` that meets `pred`.
pub open spec fn first_pts(s: Seq<Packet>, pred: spec_fn(Packet) -> bool) -> Option<i64>
    decreases s.len(),
{
    if s.len() == 0 {
        None
    } else {
        match first_pts(s.drop_last(), pred) {
            Some(t) => Some(t),
            None => if pred(s.last()) {
                Some(s.last().pts)
            } else {
                None
            },
        }
    }
}

/// The time of the newest video packet.
pub open spec fn newest_video(s: Seq<Packet>) -> Option<i64> {
    last_pts(s, |p: Packet| is_video(p))
}

/// Where a clip of the last `secs` seconds starts: at the last keyframe that is
/// old enough, or else at the first keyframe there is.
pub open spec fn clip_start(s: Seq<Packet>, secs: u32) -> Option<i64> {
    match newest_video(s) {
        None => None,
        Some(newest) => match last_pts(
            s,
            |p: Packet| is_key(p) && p.pts <= newest - secs * SEC,
        ) {
            Some(t) => Some(t),
            None => first_pts(s, |p: Packet| is_key(p)),
        },
    }
}

/// `p` with its time counted from `start`.
pub open spec fn rebased(p: Packet, start: i64) -> Packet {
    Packet { pts: (p.pts - start) as i64, ..p }
}

/// The packets of one stream from `start` on, their times counted from there.
pub open spec fn stream_from(s: Seq<Packet>, kind: StreamKind, start: i64) -> Seq<Packet> {
    s.filter(|p: Packet| p.kind == kind && p.pts >= start).map_values(
        |p: Packet| rebased(p, start),
    )
}

/// The times that a clip of `s` is made of can be counted in 64 bits.
pub open spec fn trim_fits(s: Seq<Packet>, secs: u32) -> bool {
    &&& newest_video(s) matches Some(newest) ==> newest - secs * SEC >= i64::MIN
    &&& clip_start(s, secs) matches Some(start) ==> {
        let video = stream_from(s, StreamKind::Video, start);
        &&& forall|i: int|
            0 <= i < s.len() && (#[trigger] s[i]).pts >= start ==> s[i].pts - start <= i64::MAX
        &&& i64::MIN <= video.last().pts + video.last().dur <= i64::MAX
    }
}

/// A packet that a last time was taken from.
proof fn lemma_last_pts_found(s: Seq<Packet>, pred: spec_fn(Packet) -> bool) -> (i: int)
    requires
        last_pts(s, pred) is Some,
    ensures
        0 <= i < s.len(),
        pred(s[i]),
        last_pts(s, pred) == Some(s[i].pts),
        forall|j: int| i < j < s.len() ==> !pred(#[trigger] s[j]),
    decreases s.len(),
{
    if pred(s.last()) {
        s.len() - 1
    } else {
        let i = lemma_last_pts_found(s.drop_last(), pred);
        assert forall|j: int| i < j < s.len() implies !pred(#[trigger] s[j]) by {
            if j < s.len() - 1 {
                assert(s.drop_last()[j] == s[j]);
            }
        }
        i
    }
}

/// A packet that a first time was taken from.
proof fn lemma_first_pts_found(s: Seq<Packet>, pred: spec_fn(Packet) -> bool) -> (i: int)
    requires
        first_pts(s, pred) is Some,
    ensures
        0 <= i < s.len(),
        pred(s[i]),
        first_pts(s, pred) == Some(s[i].pts),
        forall|j: int| 0 <= j < i ==> !pred(#[trigger] s[j]),
    decreases s.len(),
{
    if first_pts(s.drop_last(), pred) is Some {
        let i = lemma_first_pts_found(s.drop_last(), pred);
        assert forall|j: int| 0 <= j < i implies !pred(#[trigger] s[j]) by {
            assert(s.drop_last()[j] == s[j]);
        }
        i
    } else {
        lemma_first_pts_none(s.drop_last(), pred);
        assert forall|j: int| 0 <= j < s.len() - 1 implies !pred(#[trigger] s[j]) by {
            assert(s.drop_last()[j] == s[j]);
        }
        s.len() - 1
    }
}

/// Where there is no first time, no packet qualifies.
proof fn lemma_first_pts_none(s: Seq<Packet>, pred: spec_fn(Packet) -> bool)
    requires
        first_pts(s, pred) is None,
    ensures
        forall|j: int| 0 <= j < s.len() ==> !pred(#[trigger] s[j]),
    decreases s.len(),
{
    if s.len() > 0 {
        lemma_first_pts_none(s.drop_last(), pred);
        assert forall|j: int| 0 <= j < s.len() implies !pred(#[trigger] s[j]) by {
            if j < s.len() - 1 {
                assert(s.drop_last()[j] == s[j]);
            }
        }
    }
}

/// Where there is no last time, no packet qualifies.
proof fn lemma_last_pts_none(s: Seq<Packet>, pred: spec_fn(Packet) -> bool)
    requires
        last_pts(s, pred) is None,
    ensures
        forall|j: int| 0 <= j < s.len() ==> !pred(#[trigger] s[j]),
    decreases s.len(),
{
    if s.len() > 0 {
        lemma_last_pts_none(s.drop_last(), pred);
        assert forall|j: int| 0 <= j < s.len() implies !pred(#[trigger] s[j]) by {
            if j < s.len() - 1 {
                assert(s.drop_last()[j] == s[j]);
            }
        }
    }
}

/// A clip starts at a keyframe of the ring.
proof fn lemma_clip_start_found(s: Seq<Packet>, secs: u32) -> (i: int)
    requires
        clip_start(s, secs) is Some,
    ensures
        0 <= i < s.len(),
        is_key(s[i]),
        clip_start(s, secs) == Some(s[i].pts),
{
    let newest = newest_video(s)->0;
    let old_enough = |p: Packet| is_key(p) && p.pts <= newest - secs * SEC;
    if last_pts(s, old_enough) is Some {
        lemma_last_pts_found(s, old_enough)
    } else {
        lemma_first_pts_found(s, |p: Packet| is_key(p))
    }
}

/// One more packet at the end of the ring is one more in its stream, if it is
/// not before the start.
proof fn lemma_stream_push(s: Seq<Packet>, p: Packet, kind: StreamKind, start: i64)
    ensures
        stream_from(s.push(p), kind, start) == if p.kind == kind && p.pts >= start {
            stream_from(s, kind, start).push(rebased(p, start))
        } else {
            stream_from(s, kind, start)
        },
{
    let pred = |q: Packet| q.kind == kind && q.pts >= start;
    let rebase = |q: Packet| rebased(q, start);
    reveal(Seq::filter);
    assert(s.push(p).drop_last() =~= s);
    if pred(p) {
        assert(s.push(p).filter(pred) =~= s.filter(pred).push(p));
        assert(s.filter(pred).push(p).map_values(rebase) =~= s.filter(pred).map_values(
            rebase,
        ).push(rebase(p)));
    }
}

/// A packet of the ring that is not before the start is in its stream.
proof fn lemma_stream_nonempty(s: Seq<Packet>, i: int, start: i64)
    requires
        0 <= i < s.len(),
        s[i].pts >= start,
    ensures
        stream_from(s, s[i].kind, start).len() > 0,
    decreases s.len(),
{
    lemma_stream_push(s.drop_last(), s.last(), s[i].kind, start);
    assert(s.drop_last().push(s.last()) =~= s);
    if i < s.len() - 1 {
        lemma_stream_nonempty(s.drop_last(), i, start);
    }
}

/// The time of the last packet that is a video packet.
fn find_newest(snapshot: &[Packet]) -> (r: Option<i64>)
    ensures
        r == newest_video(snapshot@),
{
    let ghost pred = |p: Packet| is_video(p);
    let mut i: usize = snapshot.len();
    assert(snapshot@.take(i as int) =~= snapshot@);
    while i > 0
        invariant
            i <= snapshot@.len(),
            pred == |p: Packet| is_video(p),
            newest_video(snapshot@) == last_pts(snapshot@.take(i as int), pred),
        decreases i,
    {
        let ghost head = snapshot@.take(i as int);
        assert(head.drop_last() =~= snapshot@.take(i - 1));
        assert(head.last() == snapshot@[i - 1]);
        if snapshot[i - 1].kind == StreamKind::Video {
            return Some(snapshot[i - 1].pts);
        }
        i -= 1;
    }
    None
}

/// The time of the last keyframe at or before `cut`, and that of the first
/// keyframe.
fn find_keys(snapshot: &[Packet], cut: i64) -> (r: (Option<i64>, Option<i64>))
    ensures
        r.0 == last_pts(snapshot@, |p: Packet| is_key(p) && p.pts <= cut),
        r.1 == first_pts(snapshot@, |p: Packet| is_key(p)),
{
    let ghost old_enough = |p: Packet| is_key(p) && p.pts <= cut;
    let ghost key = |p: Packet| is_key(p);
    let mut last: Option<i64> = None;
    let mut first: Option<i64> = None;
    let mut i: usize = 0;
    while i < snapshot.len()
        invariant
            i <= snapshot@.len(),
            old_enough == |p: Packet| is_key(p) && p.pts <= cut,
            key == |p: Packet| is_key(p),
            last == last_pts(snapshot@.take(i as int), old_enough),
            first == first_pts(snapshot@.take(i as int), key),
        decreases snapshot@.len() - i,
    {
        let p = &snapshot[i];
        let ghost next = snapshot@.take(i + 1);
        assert(next.drop_last() =~= snapshot@.take(i as int));
        assert(next.last() == *p);
        if p.kind == StreamKind::Video && p.keyframe {
            if p.pts <= cut {
                last = Some(p.pts);
            }
            if first.is_none() {
                first = Some(p.pts);
            }
        }
        i += 1;
    }
    assert(snapshot@.take(i as int) =~= snapshot@);
    (last, first)
}

/// Whether the last `clip_seconds` can be cut out of a snapshot: the times that
/// the clip is made of can be counted in 64 bits.
pub fn can_trim(snapshot: &[Packet], clip_seconds: u32) -> (b: bool)
    ensures
        b == trim_fits(snapshot@, clip_seconds),
{
    let newest: i64 = match find_newest(snapshot) {
        Some(t) => t,
        None => return true,
    };
    let edge: i128 = newest as i128 - clip_seconds as i128 * SEC as i128;
    if edge < i64::MIN as i128 {
        return false;
    }
    let cut: i64 = edge as i64;
    let (last, first) = find_keys(snapshot, cut);
    let ghost old_enough = |p: Packet| is_key(p) && p.pts <= newest - clip_seconds * SEC;
    assert(old_enough =~= |p: Packet| is_key(p) && p.pts <= cut);
    let start: i64 = match last {
        Some(t) => t,
        None => match first {
            Some(t) => t,
            None => return true,
        },
    };
    assert(clip_start(snapshot@, clip_seconds) == Some(start));
    let mut end: i128 = 0;
    let mut i: usize = 0;
    proof {
        reveal(Seq::filter);
        assert(stream_from(snapshot@.take(0), StreamKind::Video, start).len() == 0);
    }
    while i < snapshot.len()
        invariant
            i <= snapshot@.len(),
            clip_start(snapshot@, clip_seconds) == Some(start),
            forall|j: int|
                0 <= j < i && (#[trigger] snapshot@[j]).pts >= start ==> snapshot@[j].pts - start
                    <= i64::MAX,
            stream_from(snapshot@.take(i as int), StreamKind::Video, start).len() > 0 ==> end
                == stream_from(snapshot@.take(i as int), StreamKind::Video, start).last().pts
                + stream_from(snapshot@.take(i as int), StreamKind::Video, start).last().dur,
        decreases snapshot@.len() - i,
    {
        let p = &snapshot[i];
        proof {
            let head = snapshot@.take(i as int);
            assert(snapshot@.take(i + 1) =~= head.push(snapshot@[i as int]));
            lemma_stream_push(head, snapshot@[i as int], StreamKind::Video, start);
        }
        if p.pts >= start {
            let t: i128 = p.pts as i128 - start as i128;
            if t > i64::MAX as i128 {
                return false;
            }
            if p.kind == StreamKind::Video {
                end = t + p.dur as i128;
            }
        }
        i += 1;
    }
    assert(snapshot@.take(i as int) =~= snapshot@);
    proof {
        let k = lemma_clip_start_found(snapshot@, clip_seconds);
        lemma_stream_nonempty(snapshot@, k, start);
    }
    i64::MIN as i128 <= end && end <= i64::MAX as i128
}

/// Cuts the last `clip_seconds` out of a snapshot, from a video keyframe on, and
/// counts all times from there. `None` if no clip can be started.
pub fn trim(snapshot: &[Packet], clip_seconds: u32) -> (r: Option<Clip>)
    requires
        trim_fits(snapshot@, clip_seconds),
    ensures
        r is Some <==> clip_start(snapshot@, clip_seconds) is Some,
        r matches Some(clip) ==> {
            let start = clip_start(snapshot@, clip_seconds)->0;
            &&& clip.video@ == stream_from(snapshot@, StreamKind::Video, start)
            &&& clip.audio@ == stream_from(snapshot@, StreamKind::Audio, start)
            &&& clip.video@.len() > 0
            &&& clip.duration == clip.video@.last().pts + clip.video@.last().dur
        },
{
    let newest: i64 = match find_newest(snapshot) {
        Some(t) => t,
        None => return None,
    };
    let cut: i64 = newest - clip_seconds as i64 * SEC;
    let (last, first) = find_keys(snapshot, cut);
    let ghost old_enough = |p: Packet| is_key(p) && p.pts <= newest - clip_seconds * SEC;
    assert(old_enough =~= |p: Packet| is_key(p) && p.pts <= cut);
    let start: i64 = match last {
        Some(t) => t,
        None => match first {
            Some(t) => t,
            None => return None,
        },
    };
    assert(clip_start(snapshot@, clip_seconds) == Some(start));
    let mut video: Vec<Packet> = Vec::new();
    let mut audio: Vec<Packet> = Vec::new();
    let mut i: usize = 0;
    proof {
        reveal(Seq::filter);
        assert(snapshot@.take(0) =~= Seq::<Packet>::empty());
        assert(stream_from(snapshot@.take(0), StreamKind::Video, start) =~= video@);
        assert(stream_from(snapshot@.take(0), StreamKind::Audio, start) =~= audio@);
    }
    while i < snapshot.len()
        invariant
            i <= snapshot@.len(),
            forall|j: int|
                0 <= j < snapshot@.len() && (#[trigger] snapshot@[j]).pts >= start
                    ==> snapshot@[j].pts - start <= i64::MAX,
            video@ == stream_from(snapshot@.take(i as int), StreamKind::Video, start),
            audio@ == stream_from(snapshot@.take(i as int), StreamKind::Audio, start),
        decreases snapshot@.len() - i,
    {
        let ghost head = snapshot@.take(i as int);
        proof {
            assert(snapshot@.take(i + 1) =~= head.push(snapshot@[i as int]));
            lemma_stream_push(head, snapshot@[i as int], StreamKind::Video, start);
            lemma_stream_push(head, snapshot@[i as int], StreamKind::Audio, start);
        }
        if snapshot[i].pts >= start {
            let mut p = snapshot[i].clone();
            p.pts = p.pts - start;
            match p.kind {
                StreamKind::Video => video.push(p),
                StreamKind::Audio => audio.push(p),
            }
        }
        i += 1;
    }
    assert(snapshot@.take(i as int) =~= snapshot@);
    proof {
        let k = lemma_clip_start_found(snapshot@, clip_seconds);
        lemma_stream_nonempty(snapshot@, k, start);
    }
    let duration: i64 = video[video.len() - 1].pts + video[video.len() - 1].dur;
    Some(Clip { video, audio, duration })
}

// ---------------------------------------------------------------------------
// Laws
// ---------------------------------------------------------------------------

/// Video packets in the order of their times.
pub open spec fn video_in_order(s: Seq<Packet>) -> bool {
    forall|i: int, j: int|
        0 <= i <= j < s.len() && is_video(#[trigger] s[i]) && is_video(#[trigger] s[j]) ==> s[i].pts
            <= s[j].pts
}

/// Video packets with rising times.
pub open spec fn video_rises(s: Seq<Packet>) -> bool {
    forall|i: int, j: int|
        0 <= i < j < s.len() && is_video(#[trigger] s[i]) && is_video(#[trigger] s[j]) ==> s[i].pts
            < s[j].pts
}

/// Law: a ring lets go of its oldest packets only, and only of packets that are
/// overdue when it does.
pub proof fn law_only_the_oldest_go(s: Seq<Packet>, newest: int, window: int, cap: nat)
    ensures
        exists|k: int|
            0 <= k <= s.len() && retained(s, newest, window, cap) == #[trigger] s.skip(k) && (forall|
                j: int,
            |
                0 <= j < k ==> overdue(#[trigger] s.skip(j), newest, window, cap)),
{
    let k = lemma_retained_skip(s, newest, window, cap);
    assert(s.skip(k) == s.skip(k));
}

proof fn lemma_retained_skip(s: Seq<Packet>, newest: int, window: int, cap: nat) -> (k: int)
    ensures
        0 <= k <= s.len(),
        retained(s, newest, window, cap) == s.skip(k),
        forall|j: int| 0 <= j < k ==> overdue(#[trigger] s.skip(j), newest, window, cap),
        !overdue(s.skip(k), newest, window, cap),
    decreases s.len(),
{
    assert(s.skip(0) =~= s);
    if overdue(s, newest, window, cap) {
        let t = s.skip(1);
        let k = lemma_retained_skip(t, newest, window, cap);
        assert(t.skip(k) =~= s.skip(k + 1));
        assert forall|j: int| 0 <= j < k + 1 implies overdue(
            #[trigger] s.skip(j),
            newest,
            window,
            cap,
        ) by {
            if j > 0 {
                assert(t.skip(j - 1) =~= s.skip(j));
            }
        }
        k + 1
    } else {
        0
    }
}

/// Law: what a ring keeps is within its byte cap, and its oldest packet is within
/// the window before the newest video packet.
pub proof fn law_limits_hold(s: Seq<Packet>, newest: int, window: int, cap: nat)
    ensures
        total_bytes(retained(s, newest, window, cap)) <= cap,
        retained(s, newest, window, cap).len() > 0 && newest > 0 ==> retained(
            s,
            newest,
            window,
            cap,
        )[0].pts >= newest - window,
    decreases s.len(),
{
    if overdue(s, newest, window, cap) {
        law_limits_hold(s.skip(1), newest, window, cap);
    }
}

/// Law: a packet within the window stays as long as it and those behind it fit
/// the cap.
pub proof fn law_the_window_stays(s: Seq<Packet>, newest: int, window: int, cap: nat, i: int)
    requires
        0 <= i < s.len(),
        total_bytes(s.skip(i)) <= cap,
        s[i].pts >= newest - window,
    ensures
        retained(s, newest, window, cap).contains(s[i]),
{
    let k = lemma_retained_skip(s, newest, window, cap);
    if k > i {
        let t = s.skip(i);
        assert(overdue(t, newest, window, cap));
        assert(t[0] == s[i]);
    }
    assert(s.skip(k)[i - k] == s[i]);
}

/// What happens to a ring.
pub enum RingEvent {
    Push(Packet),
    Clear,
    SetClipSeconds(u32),
}

impl RingModel {
    /// The ring once it has been emptied.
    pub open spec fn cleared(self) -> RingModel {
        RingModel { packets: Seq::empty(), newest: 0, ..self }
    }

    /// The ring after an event.
    pub open spec fn after(self, e: RingEvent) -> RingModel {
        match e {
            RingEvent::Push(p) => self.pushed(p),
            RingEvent::Clear => self.cleared(),
            RingEvent::SetClipSeconds(secs) => RingModel { window: window_for(secs), ..self },
        }
    }

    /// The ring after all of the events.
    pub open spec fn after_all(self, events: Seq<RingEvent>) -> RingModel
        decreases events.len(),
    {
        if events.len() == 0 {
            self
        } else {
            self.after_all(events.drop_last()).after(events.last())
        }
    }
}

/// Law: the cap is hard. Whatever was pushed, cleared and set since a ring was
/// made, it holds no more bytes than its cap; and a packet that is larger than the
/// cap leaves it empty.
pub proof fn law_cap_is_hard(secs: u32, cap: nat, events: Seq<RingEvent>)
    ensures
        ({
            let m = empty_ring(secs, cap).after_all(events);
            &&& m.byte_cap == cap
            &&& total_bytes(m.packets) <= cap
            &&& events.len() > 0 && (events.last() matches RingEvent::Push(p) && p.data@.len()
                > cap) ==> m.packets.len() == 0
        }),
    decreases events.len(),
{
    if events.len() > 0 {
        law_cap_is_hard(secs, cap, events.drop_last());
        let m = empty_ring(secs, cap).after_all(events.drop_last());
        if let RingEvent::Push(p) = events.last() {
            let all = m.packets.push(p);
            law_limits_hold(all, m.newest_after(p), m.window, cap);
            if p.data@.len() > cap {
                lemma_too_large(all, m.newest_after(p), m.window, cap);
            }
        }
    }
}

/// Nothing stays where the newest packet is larger than the cap.
proof fn lemma_too_large(s: Seq<Packet>, newest: int, window: int, cap: nat)
    requires
        s.len() > 0 ==> s.last().data@.len() > cap,
    ensures
        retained(s, newest, window, cap).len() == 0,
    decreases s.len(),
{
    if s.len() > 0 {
        assert(total_bytes(s) >= s.last().data@.len());
        let t = s.skip(1);
        if t.len() > 0 {
            assert(t.last() == s.last());
        }
        lemma_too_large(t, newest, window, cap);
    }
}

/// The ring `m` once the packets `h` have come in.
pub open spec fn filled(m: RingModel, h: Seq<Packet>) -> RingModel
    decreases h.len(),
{
    if h.len() == 0 {
        m
    } else {
        filled(m, h.drop_last()).pushed(h.last())
    }
}

/// The time of the newest video packet of a history, zero before the first.
pub open spec fn newest_of(h: Seq<Packet>) -> int {
    match newest_video(h) {
        Some(t) => t as int,
        None => 0,
    }
}

/// A ring that holds nothing yet.
pub open spec fn empty_ring(secs: u32, cap: nat) -> RingModel {
    RingModel { packets: Seq::empty(), window: window_for(secs), byte_cap: cap, newest: 0 }
}

/// At the end of a history, `p` is within the window of a ring for clips of
/// `secs`: no older than the window before the newest video packet.
pub open spec fn recent(h: Seq<Packet>, p: Packet, secs: u32) -> bool {
    newest_of(h) <= 0 || p.pts >= newest_of(h) - window_for(secs)
}

/// At no time of a history do a packet within the window and those that came
/// after it hold more than `cap` bytes.
pub open spec fn window_fits(secs: u32, cap: nat, h: Seq<Packet>) -> bool {
    forall|j: int, i: int|
        0 <= j < i <= h.len() && recent(h.take(i), h[j], secs) ==> total_bytes(
            #[trigger] h.subrange(j, i),
        ) <= cap
}

/// The newest video time of a history does not go back.
proof fn lemma_newest_rises(g: Seq<Packet>, p: Packet)
    requires
        video_in_order(g.push(p)),
        newest_of(g) > 0,
    ensures
        newest_of(g) <= newest_of(g.push(p)),
{
    let h = g.push(p);
    assert(h.drop_last() =~= g);
    if is_video(p) {
        let i = lemma_last_pts_found(g, |p: Packet| is_video(p));
        assert(h[i] == g[i]);
        assert(h[h.len() - 1] == p);
    }
}

/// A beginning of a history whose window fits has a window that fits.
proof fn lemma_window_fits_before(secs: u32, cap: nat, h: Seq<Packet>)
    requires
        h.len() > 0,
        window_fits(secs, cap, h),
        video_in_order(h),
    ensures
        window_fits(secs, cap, h.drop_last()),
        video_in_order(h.drop_last()),
{
    let g = h.drop_last();
    assert forall|j: int, i: int|
        0 <= j < i <= g.len() && recent(g.take(i), g[j], secs) implies total_bytes(
        #[trigger] g.subrange(j, i),
    ) <= cap by {
        assert(g.take(i) =~= h.take(i));
        assert(g.subrange(j, i) =~= h.subrange(j, i));
    }
    assert forall|i: int, j: int|
        0 <= i <= j < g.len() && is_video(#[trigger] g[i]) && is_video(
            #[trigger] g[j],
        ) implies g[i].pts <= g[j].pts by {
        assert(g[i] == h[i] && g[j] == h[j]);
    }
}

/// A packet that leaves at the end of a history is older than the window: those
/// within it fit the cap.
proof fn lemma_leaving_is_old(secs: u32, cap: nat, h: Seq<Packet>, j: int)
    requires
        window_fits(secs, cap, h),
        0 <= j < h.len(),
        overdue(h.skip(j), newest_of(h), window_for(secs), cap),
    ensures
        !recent(h, h[j], secs),
{
    assert(h.take(h.len() as int) =~= h);
    assert(h.subrange(j, h.len() as int) =~= h.skip(j));
    assert(h.skip(j)[0] == h[j]);
}

/// How many packets have left the front after a history, if `k` had left it before
/// its last packet came.
proof fn lemma_filled_step(secs: u32, cap: nat, h: Seq<Packet>, k: int) -> (n: int)
    requires
        h.len() > 0,
        video_in_order(h),
        window_fits(secs, cap, h),
        0 <= k < h.len(),
        forall|j: int| 0 <= j < k ==> !recent(h.drop_last(), #[trigger] h[j], secs),
    ensures
        k <= n <= h.len(),
        retained(h.skip(k), newest_of(h), window_for(secs), cap) == h.skip(n),
        forall|j: int| 0 <= j < n ==> !recent(h, #[trigger] h[j], secs),
{
    let g = h.drop_last();
    assert(g.push(h.last()) =~= h);
    if newest_of(g) > 0 {
        lemma_newest_rises(g, h.last());
    }
    let rest = h.skip(k);
    let d = lemma_retained_skip(rest, newest_of(h), window_for(secs), cap);
    assert(rest.skip(d) =~= h.skip(k + d));
    assert forall|j: int| 0 <= j < k + d implies !recent(h, #[trigger] h[j], secs) by {
        if j >= k {
            assert(overdue(rest.skip(j - k), newest_of(h), window_for(secs), cap));
            assert(rest.skip(j - k) =~= h.skip(j));
            lemma_leaving_is_old(secs, cap, h, j);
        }
    }
    k + d
}

/// What a ring holds after a history: the history without packets at its front
/// that are older than the window.
#[verifier::spinoff_prover]
#[verifier::rlimit(40)]
proof fn lemma_filled(secs: u32, cap: nat, h: Seq<Packet>) -> (k: int)
    requires
        video_in_order(h),
        window_fits(secs, cap, h),
    ensures
        0 <= k <= h.len(),
        filled(empty_ring(secs, cap), h) == (RingModel {
            packets: h.skip(k),
            newest: newest_of(h),
            ..empty_ring(secs, cap)
        }),
        forall|j: int| 0 <= j < k ==> !recent(h, #[trigger] h[j], secs),
    decreases h.len(),
{
    let m = empty_ring(secs, cap);
    if h.len() == 0 {
        assert(h.skip(0) =~= m.packets);
        0
    } else {
        let g = h.drop_last();
        lemma_window_fits_before(secs, cap, h);
        let k = lemma_filled(secs, cap, g);
        assert forall|j: int| 0 <= j < k implies !recent(g, #[trigger] h[j], secs) by {
            assert(g[j] == h[j]);
        }
        let n = lemma_filled_step(secs, cap, h, k);
        assert(g.skip(k).push(h.last()) =~= h.skip(k));
        assert(filled(m, g).newest_after(h.last()) == newest_of(h));
        n
    }
}

/// Law: after any history in which video came in order and the window fitted the
/// cap, a ring holds what came in, in that order, but for packets at the front
/// that are older than the window before the newest video packet.
pub proof fn law_ring_holds_the_window(secs: u32, cap: nat, h: Seq<Packet>)
    requires
        video_in_order(h),
        window_fits(secs, cap, h),
    ensures
        exists|k: int|
            0 <= k <= h.len() && filled(empty_ring(secs, cap), h).packets == #[trigger] h.skip(k)
                && (forall|j: int| 0 <= j < k ==> !recent(h, #[trigger] h[j], secs)),
{
    let k = lemma_filled(secs, cap, h);
    assert(h.skip(k) == h.skip(k));
}

/// The packet at a position of a stream is one of the ring, at or after the
/// start, and the order is kept.
proof fn lemma_stream_source(s: Seq<Packet>, kind: StreamKind, start: i64) -> (src: Seq<int>)
    ensures
        src.len() == stream_from(s, kind, start).len(),
        forall|a: int|
            #![trigger src[a]]
            0 <= a < src.len() ==> 0 <= src[a] < s.len() && s[src[a]].kind == kind
                && s[src[a]].pts >= start && stream_from(s, kind, start)[a] == rebased(
                s[src[a]],
                start,
            ),
        forall|a: int, b: int| 0 <= a < b < src.len() ==> src[a] < src[b],
        forall|i: int|
            0 <= i < s.len() && (#[trigger] s[i]).kind == kind && s[i].pts >= start
                ==> src.contains(i),
    decreases s.len(),
{
    if s.len() == 0 {
        reveal(Seq::filter);
        Seq::empty()
    } else {
        let t = s.drop_last();
        let p = s.last();
        lemma_stream_push(t, p, kind, start);
        assert(t.push(p) =~= s);
        let src = lemma_stream_source(t, kind, start);
        assert forall|a: int| #![trigger src[a]] 0 <= a < src.len() implies t[src[a]]
            == s[src[a]] by {}
        if p.kind == kind && p.pts >= start {
            let out = src.push(s.len() - 1);
            assert forall|i: int|
                0 <= i < s.len() && (#[trigger] s[i]).kind == kind && s[i].pts
                    >= start implies out.contains(i) by {
                if i < s.len() - 1 {
                    assert(t[i] == s[i]);
                    let a = choose|a: int| 0 <= a < src.len() && src[a] == i;
                    assert(out[a] == i);
                } else {
                    assert(out[out.len() - 1] == i);
                }
            }
            out
        } else {
            assert forall|i: int|
                0 <= i < s.len() && (#[trigger] s[i]).kind == kind && s[i].pts
                    >= start implies src.contains(i) by {
                assert(t[i] == s[i]);
            }
            src
        }
    }
}

/// Law: a clip's times start at zero: none is negative, in either stream.
pub proof fn law_clip_times_start_at_zero(s: Seq<Packet>, secs: u32, kind: StreamKind, a: int)
    requires
        trim_fits(s, secs),
        clip_start(s, secs) is Some,
        0 <= a < stream_from(s, kind, clip_start(s, secs)->0).len(),
    ensures
        stream_from(s, kind, clip_start(s, secs)->0)[a].pts >= 0,
{
    let start = clip_start(s, secs)->0;
    let src = lemma_stream_source(s, kind, start);
    assert(s[src[a]].pts - start <= i64::MAX);
}

/// Law: a clip of a ring whose video times rise starts with a keyframe at time
/// zero, and its video times rise.
pub proof fn law_clip_starts_on_keyframe(s: Seq<Packet>, secs: u32)
    requires
        trim_fits(s, secs),
        clip_start(s, secs) is Some,
        video_rises(s),
    ensures
        ({
            let video = stream_from(s, StreamKind::Video, clip_start(s, secs)->0);
            &&& video.len() > 0
            &&& video[0].keyframe
            &&& video[0].pts == 0
            &&& forall|a: int, b: int|
                0 <= a < b < video.len() ==> (#[trigger] video[a]).pts < (#[trigger] video[b]).pts
        }),
{
    let start = clip_start(s, secs)->0;
    let video = stream_from(s, StreamKind::Video, start);
    let k = lemma_clip_start_found(s, secs);
    let src = lemma_stream_source(s, StreamKind::Video, start);
    assert(src.contains(k));
    let c = choose|c: int| 0 <= c < src.len() && src[c] == k;
    if c > 0 {
        assert(src[0] < src[c]);
        assert(is_video(s[src[0]]) && is_video(s[src[c]]));
        assert(s[src[0]].pts < s[k].pts);
    }
    assert(video[0] == rebased(s[src[0]], start));
    assert forall|a: int, b: int| 0 <= a < b < video.len() implies (#[trigger] video[a]).pts < (
    #[trigger] video[b]).pts by {
        assert(src[a] < src[b]);
        assert(is_video(s[src[a]]) && is_video(s[src[b]]));
        assert(s[src[a]].pts - start <= i64::MAX);
        assert(s[src[b]].pts - start <= i64::MAX);
    }
}

/// The newest video packet is the last of the clip's.
proof fn lemma_clip_end(s: Seq<Packet>, start: i64)
    requires
        newest_video(s) matches Some(t) && t >= start && t - start <= i64::MAX,
    ensures
        stream_from(s, StreamKind::Video, start).len() > 0,
        stream_from(s, StreamKind::Video, start).last().pts == newest_video(s)->0 - start,
{
    let i = lemma_last_pts_found(s, |p: Packet| is_video(p));
    let src = lemma_stream_source(s, StreamKind::Video, start);
    assert(src.contains(i));
    let c = choose|c: int| 0 <= c < src.len() && src[c] == i;
    let last = src.len() - 1;
    if c < last {
        assert(src[c] < src[last]);
        assert(is_video(s[src[last]]));
    }
}

/// Law: where there is a keyframe at most `gap` before the time that was asked
/// for, a clip reaches back for all of that time, and for at most `gap` more.
pub proof fn law_clip_length(s: Seq<Packet>, secs: u32, k: int, gap: int)
    requires
        trim_fits(s, secs),
        video_in_order(s),
        0 <= k < s.len(),
        is_key(s[k]),
        newest_video(s) is Some,
        newest_video(s)->0 - secs * SEC - gap <= s[k].pts <= newest_video(s)->0 - secs * SEC,
    ensures
        clip_start(s, secs) is Some,
        ({
            let video = stream_from(s, StreamKind::Video, clip_start(s, secs)->0);
            &&& video.len() > 0
            &&& secs * SEC <= video.last().pts <= secs * SEC + gap
        }),
{
    let newest = newest_video(s)->0;
    let old_enough = |p: Packet| is_key(p) && p.pts <= newest - secs * SEC;
    if last_pts(s, old_enough) is None {
        lemma_last_pts_none(s, old_enough);
        assert(!old_enough(s[k]));
    }
    let i = lemma_last_pts_found(s, old_enough);
    if i < k {
        assert(!old_enough(s[k]));
    }
    let start = clip_start(s, secs)->0;
    let n = lemma_last_pts_found(s, |p: Packet| is_video(p));
    assert(s[n].pts - start <= i64::MAX);
    lemma_clip_end(s, start);
}

/// Law: the ring keeps what a full clip needs. After any history in which video
/// came in order and the window fitted the cap, if the encoder set a keyframe
/// within the slack before the edge of the clip, the clip that the ring gives holds
/// all of the time that was asked for, and no more than the slack on top.
pub proof fn law_ring_gives_full_clips(secs: u32, cap: nat, h: Seq<Packet>, k: int)
    requires
        video_in_order(h),
        window_fits(secs, cap, h),
        newest_of(h) > 0,
        0 <= k < h.len(),
        is_key(h[k]),
        newest_of(h) - window_for(secs) <= h[k].pts <= newest_of(h) - secs * SEC,
        trim_fits(filled(empty_ring(secs, cap), h).packets, secs),
    ensures
        ({
            let s = filled(empty_ring(secs, cap), h).packets;
            let video = stream_from(s, StreamKind::Video, clip_start(s, secs)->0);
            &&& clip_start(s, secs) is Some
            &&& video.len() > 0
            &&& secs * SEC <= video.last().pts <= secs * SEC + GOP_SLACK
        }),
{
    let d = lemma_filled(secs, cap, h);
    let s = h.skip(d);
    assert(d <= k) by {
        if d > k {
            assert(!recent(h, h[k], secs));
        }
    }
    assert(s[k - d] == h[k]);
    assert(video_in_order(s)) by {
        assert forall|i: int, j: int|
            0 <= i <= j < s.len() && is_video(#[trigger] s[i]) && is_video(
                #[trigger] s[j],
            ) implies s[i].pts <= s[j].pts by {
            assert(s[i] == h[i + d] && s[j] == h[j + d]);
        }
    }
    lemma_newest_of_tail(h, d, k);
    law_clip_length(s, secs, k - d, GOP_SLACK as int);
}

/// Law: sound stays in sync. Between a picture and a sound of a clip lies the time
/// that lay between them when they were recorded.
pub proof fn law_clip_keeps_sync(s: Seq<Packet>, secs: u32, a: int, b: int)
    requires
        trim_fits(s, secs),
        clip_start(s, secs) is Some,
        0 <= a < stream_from(s, StreamKind::Video, clip_start(s, secs)->0).len(),
        0 <= b < stream_from(s, StreamKind::Audio, clip_start(s, secs)->0).len(),
    ensures
        ({
            let start = clip_start(s, secs)->0;
            let v = stream_from(s, StreamKind::Video, start)[a];
            let w = stream_from(s, StreamKind::Audio, start)[b];
            exists|i: int, j: int|
                0 <= i < s.len() && 0 <= j < s.len() && v == rebased(#[trigger] s[i], start) && w
                    == rebased(#[trigger] s[j], start) && v.pts - w.pts == s[i].pts - s[j].pts
        }),
{
    let start = clip_start(s, secs)->0;
    let vs = lemma_stream_source(s, StreamKind::Video, start);
    let ws = lemma_stream_source(s, StreamKind::Audio, start);
    let i = vs[a];
    let j = ws[b];
    assert(s[i].pts - start <= i64::MAX);
    assert(s[j].pts - start <= i64::MAX);
}

/// What a time is looked for by may as well leave out packets before `start`, if
/// the time that is found is not before it.
proof fn lemma_pts_from(
    s: Seq<Packet>,
    start: i64,
    p: spec_fn(Packet) -> bool,
    r: spec_fn(Packet) -> bool,
)
    requires
        forall|i: int| 0 <= i < s.len() ==> r(#[trigger] s[i]) == (p(s[i]) && s[i].pts >= start),
    ensures
        last_pts(s, p) is None ==> last_pts(s, r) is None,
        first_pts(s, p) is None ==> first_pts(s, r) is None,
        last_pts(s, p) matches Some(t) && t >= start ==> last_pts(s, r) == last_pts(s, p),
        first_pts(s, p) matches Some(t) && t >= start ==> first_pts(s, r) == first_pts(s, p),
    decreases s.len(),
{
    if s.len() > 0 {
        let t = s.drop_last();
        assert forall|i: int| 0 <= i < t.len() implies r(#[trigger] t[i]) == (p(t[i]) && t[i].pts
            >= start) by {
            assert(t[i] == s[i]);
        }
        assert(s[s.len() - 1] == s.last());
        lemma_pts_from(t, start, p, r);
    }
}

/// A time that is looked for in a stream is one of the ring, counted from `start`.
proof fn lemma_pts_in_stream(
    s: Seq<Packet>,
    start: i64,
    q: spec_fn(Packet) -> bool,
    r: spec_fn(Packet) -> bool,
)
    requires
        forall|i: int|
            0 <= i < s.len() ==> r(#[trigger] s[i]) == (is_video(s[i]) && s[i].pts >= start && q(
                rebased(s[i], start),
            )),
    ensures
        ({
            let video = stream_from(s, StreamKind::Video, start);
            &&& last_pts(video, q) == match last_pts(s, r) {
                Some(t) => Some((t - start) as i64),
                None => None,
            }
            &&& first_pts(video, q) == match first_pts(s, r) {
                Some(t) => Some((t - start) as i64),
                None => None,
            }
        }),
    decreases s.len(),
{
    if s.len() > 0 {
        let t = s.drop_last();
        assert forall|i: int| 0 <= i < t.len() implies r(#[trigger] t[i]) == (is_video(t[i])
            && t[i].pts >= start && q(rebased(t[i], start))) by {
            assert(t[i] == s[i]);
        }
        assert(s[s.len() - 1] == s.last());
        assert(t.push(s.last()) =~= s);
        lemma_pts_in_stream(t, start, q, r);
        lemma_stream_push(t, s.last(), StreamKind::Video, start);
        let before = stream_from(t, StreamKind::Video, start);
        let last = rebased(s.last(), start);
        assert(before.push(last).drop_last() =~= before);
    } else {
        reveal(Seq::filter);
        assert(stream_from(s, StreamKind::Video, start) =~= Seq::<Packet>::empty());
    }
}

/// The packets of one stream, with their times as they are.
pub open spec fn stream_of(s: Seq<Packet>, kind: StreamKind) -> Seq<Packet> {
    s.filter(|p: Packet| p.kind == kind)
}

/// Where a video packet is looked for, sound does not count.
proof fn lemma_pts_of_video(s: Seq<Packet>, q: spec_fn(Packet) -> bool)
    requires
        forall|i: int| 0 <= i < s.len() && q(#[trigger] s[i]) ==> is_video(s[i]),
    ensures
        last_pts(s, q) == last_pts(stream_of(s, StreamKind::Video), q),
        first_pts(s, q) == first_pts(stream_of(s, StreamKind::Video), q),
    decreases s.len(),
{
    reveal(Seq::filter);
    if s.len() > 0 {
        let t = s.drop_last();
        assert forall|i: int| 0 <= i < t.len() && q(#[trigger] t[i]) implies is_video(t[i]) by {
            assert(t[i] == s[i]);
        }
        assert(s[s.len() - 1] == s.last());
        lemma_pts_of_video(t, q);
        let before = stream_of(t, StreamKind::Video);
        assert(before.push(s.last()).drop_last() =~= before);
    }
}

/// A stream without times below zero is the same from zero on.
proof fn lemma_stream_from_zero(s: Seq<Packet>, kind: StreamKind)
    requires
        forall|a: int|
            0 <= a < stream_of(s, kind).len() ==> (#[trigger] stream_of(s, kind)[a]).pts >= 0,
    ensures
        stream_from(s, kind, 0) == stream_of(s, kind),
    decreases s.len(),
{
    reveal(Seq::filter);
    if s.len() > 0 {
        let t = s.drop_last();
        let before = stream_of(t, kind);
        assert(t.push(s.last()) =~= s);
        if s.last().kind == kind {
            assert(stream_of(s, kind) == before.push(s.last()));
            assert(stream_of(s, kind)[before.len() as int] == s.last());
        }
        assert forall|a: int| 0 <= a < before.len() implies (#[trigger] before[a]).pts >= 0 by {
            assert(stream_of(s, kind)[a] == before[a]);
        }
        lemma_stream_from_zero(t, kind);
        lemma_stream_push(t, s.last(), kind, 0);
        assert(rebased(s.last(), 0) == s.last());
    } else {
        assert(stream_from(s, kind, 0) =~= stream_of(s, kind));
    }
}

/// Law: cutting a clip again changes nothing. However the two streams of a clip are
/// put together, a clip of the same length cut out of them starts where they start
/// and holds all of them.
pub proof fn law_cutting_again(s: Seq<Packet>, secs: u32, t: Seq<Packet>)
    requires
        trim_fits(s, secs),
        clip_start(s, secs) is Some,
        newest_video(s)->0 >= clip_start(s, secs)->0,
        stream_of(t, StreamKind::Video) == stream_from(
            s,
            StreamKind::Video,
            clip_start(s, secs)->0,
        ),
        stream_of(t, StreamKind::Audio) == stream_from(
            s,
            StreamKind::Audio,
            clip_start(s, secs)->0,
        ),
    ensures
        trim_fits(t, secs),
        clip_start(t, secs) == Some(0i64),
        stream_from(t, StreamKind::Video, 0) == stream_from(
            s,
            StreamKind::Video,
            clip_start(s, secs)->0,
        ),
        stream_from(t, StreamKind::Audio, 0) == stream_from(
            s,
            StreamKind::Audio,
            clip_start(s, secs)->0,
        ),
{
    let start = clip_start(s, secs)->0;
    let newest = newest_video(s)->0;
    let n = lemma_last_pts_found(s, |p: Packet| is_video(p));
    assert(s[n].pts - start <= i64::MAX);
    let ago = (newest - start) as i64;

    let any = |p: Packet| is_video(p);
    let any_from = |p: Packet| is_video(p) && p.pts >= start;
    lemma_pts_from(s, start, any, any_from);
    lemma_pts_in_stream(s, start, any, any_from);
    lemma_pts_of_video(t, any);
    assert(newest_video(t) == Some(ago));

    let old = |p: Packet| is_key(p) && p.pts <= newest - secs * SEC;
    let old_from = |p: Packet| is_key(p) && p.pts <= newest - secs * SEC && p.pts >= start;
    let old_again = |p: Packet| is_key(p) && p.pts <= ago - secs * SEC;
    assert forall|i: int| 0 <= i < s.len() implies old_from(#[trigger] s[i]) == (is_video(s[i])
        && s[i].pts >= start && old_again(rebased(s[i], start))) by {
        if s[i].pts >= start {
            assert(s[i].pts - start <= i64::MAX);
        }
    }
    lemma_pts_from(s, start, old, old_from);
    lemma_pts_in_stream(s, start, old_again, old_from);
    lemma_pts_of_video(t, old_again);

    let key = |p: Packet| is_key(p);
    let key_from = |p: Packet| is_key(p) && p.pts >= start;
    lemma_pts_from(s, start, key, key_from);
    lemma_pts_in_stream(s, start, key, key_from);
    lemma_pts_of_video(t, key);
    assert(clip_start(t, secs) == Some(0i64));

    assert forall|kind: StreamKind, a: int|
        0 <= a < stream_from(s, kind, start).len() implies (#[trigger] stream_from(
        s,
        kind,
        start,
    )[a]).pts >= 0 by {
        law_clip_times_start_at_zero(s, secs, kind, a);
    }
    lemma_stream_from_zero(t, StreamKind::Video);
    lemma_stream_from_zero(t, StreamKind::Audio);
}

/// The newest video packet of a history is that of every tail with a video packet.
proof fn lemma_newest_of_tail(h: Seq<Packet>, d: int, k: int)
    requires
        0 <= d <= k < h.len(),
        is_video(h[k]),
    ensures
        newest_video(h.skip(d)) == newest_video(h),
        newest_video(h) is Some,
    decreases h.len(),
{
    let s = h.skip(d);
    assert(s.last() == h.last());
    if !is_video(h.last()) {
        assert(k < h.len() - 1);
        assert(h.drop_last().skip(d) =~= s.drop_last());
        lemma_newest_of_tail(h.drop_last(), d, k);
    }
}

/// Law: where a clip starts. With the newest video packet at `n`, it starts at the
/// last keyframe that is old enough; where none is, at the first keyframe there is;
/// and there is no clip only where there is no keyframe. `k` is that keyframe.
pub proof fn law_where_clips_start(s: Seq<Packet>, secs: u32, n: int) -> (k: int)
    requires
        0 <= n < s.len(),
        s[n].kind == StreamKind::Video,
        forall|j: int| n < j < s.len() ==> (#[trigger] s[j]).kind != StreamKind::Video,
    ensures
        clip_start(s, secs) is None ==> forall|j: int|
            0 <= j < s.len() ==> !((#[trigger] s[j]).kind == StreamKind::Video && s[j].keyframe),
        clip_start(s, secs) matches Some(t) ==> {
            &&& 0 <= k < s.len()
            &&& s[k].kind == StreamKind::Video && s[k].keyframe
            &&& s[k].pts == t
        },
        clip_start(s, secs) is Some && s[k].pts <= s[n].pts - secs * 10_000_000 ==> forall|j: int|
            k < j < s.len() && (#[trigger] s[j]).kind == StreamKind::Video && s[j].keyframe
                ==> s[j].pts > s[n].pts - secs * 10_000_000,
        clip_start(s, secs) is Some && s[k].pts > s[n].pts - secs * 10_000_000 ==> {
            &&& forall|j: int|
                0 <= j < s.len() && (#[trigger] s[j]).kind == StreamKind::Video && s[j].keyframe
                    ==> s[j].pts > s[n].pts - secs * 10_000_000
            &&& forall|j: int|
                0 <= j < k ==> !((#[trigger] s[j]).kind == StreamKind::Video && s[j].keyframe)
        },
{
    let any = |p: Packet| is_video(p);
    assert(last_pts(s, any) == Some(s[n].pts)) by {
        if last_pts(s, any) is None {
            lemma_last_pts_none(s, any);
            assert(!any(s[n]));
        }
        let i = lemma_last_pts_found(s, any);
        if i < n {
            assert(!any(s[n]));
        }
    }
    let newest = newest_video(s)->0;
    let key = |p: Packet| is_key(p);
    let old = |p: Packet| is_key(p) && p.pts <= newest - secs * SEC;
    if last_pts(s, old) is Some {
        let k = lemma_last_pts_found(s, old);
        assert forall|j: int|
            k < j < s.len() && (#[trigger] s[j]).kind == StreamKind::Video
                && s[j].keyframe implies s[j].pts > s[n].pts - secs * 10_000_000 by {
            assert(!old(s[j]));
        }
        k
    } else {
        lemma_last_pts_none(s, old);
        assert forall|j: int|
            0 <= j < s.len() && (#[trigger] s[j]).kind == StreamKind::Video
                && s[j].keyframe implies s[j].pts > s[n].pts - secs * 10_000_000 by {
            assert(!old(s[j]));
        }
        if first_pts(s, key) is Some {
            let k = lemma_first_pts_found(s, key);
            assert forall|j: int| 0 <= j < k implies !((#[trigger] s[j]).kind == StreamKind::Video
                && s[j].keyframe) by {
                assert(!key(s[j]));
            }
            k
        } else {
            lemma_first_pts_none(s, key);
            assert forall|j: int| 0 <= j < s.len() implies !((#[trigger] s[j]).kind
                == StreamKind::Video && s[j].keyframe) by {
                assert(!key(s[j]));
            }
            0
        }
    }
}

/// Law: without video there is no clip.
pub proof fn law_sound_alone_is_no_clip(s: Seq<Packet>, secs: u32)
    requires
        forall|j: int| 0 <= j < s.len() ==> (#[trigger] s[j]).kind != StreamKind::Video,
    ensures
        clip_start(s, secs) is None,
{
    let any = |p: Packet| is_video(p);
    if last_pts(s, any) is Some {
        let i = lemma_last_pts_found(s, any);
        assert(s[i].kind != StreamKind::Video);
    }
}

/// Law: a buffer that is younger than the clip is kept whole. Where no keyframe is
/// old enough and video came in order, the clip starts no later than any keyframe,
/// and so holds every picture from the first keyframe on.
pub proof fn law_young_buffers_are_kept_whole(s: Seq<Packet>, secs: u32, n: int, k: int)
    requires
        0 <= n < s.len(),
        s[n].kind == StreamKind::Video,
        forall|j: int| n < j < s.len() ==> (#[trigger] s[j]).kind != StreamKind::Video,
        forall|i: int, j: int|
            0 <= i <= j < s.len() && (#[trigger] s[i]).kind == StreamKind::Video && (
            #[trigger] s[j]).kind == StreamKind::Video ==> s[i].pts <= s[j].pts,
        0 <= k < s.len(),
        s[k].kind == StreamKind::Video && s[k].keyframe,
        forall|j: int|
            0 <= j < s.len() && (#[trigger] s[j]).kind == StreamKind::Video && s[j].keyframe
                ==> s[j].pts > s[n].pts - secs * 10_000_000,
    ensures
        clip_start(s, secs) is Some,
        clip_start(s, secs)->0 <= s[k].pts,
        forall|i: int|
            k <= i < s.len() && (#[trigger] s[i]).kind == StreamKind::Video ==> s[i].pts
                >= clip_start(s, secs)->0,
{
    let f = law_where_clips_start(s, secs, n);
    if clip_start(s, secs) is None {
        assert(!(s[k].kind == StreamKind::Video && s[k].keyframe));
    }
    assert(s[f].pts > s[n].pts - secs * 10_000_000);
    assert(f <= k);
}

/// Law: what a clip holds of a stream: every packet of the ring that is not before
/// the start, in its order, and unchanged but for its time, which is counted from
/// the start. The same start holds for picture and sound.
pub proof fn law_clips_hold_what_was_recorded(s: Seq<Packet>, kind: StreamKind, start: i64) -> (src:
    Seq<int>)
    requires
        forall|i: int|
            0 <= i < s.len() && (#[trigger] s[i]).pts >= start ==> s[i].pts - start
                <= 0x7FFF_FFFF_FFFF_FFFF,
    ensures
        src.len() == stream_from(s, kind, start).len(),
        forall|a: int|
            #![trigger src[a]]
            0 <= a < src.len() ==> {
                let p = stream_from(s, kind, start)[a];
                &&& 0 <= src[a] < s.len()
                &&& s[src[a]].kind == kind
                &&& s[src[a]].pts >= start
                &&& p.pts == s[src[a]].pts - start
                &&& p.kind == kind
                &&& p.dur == s[src[a]].dur
                &&& p.keyframe == s[src[a]].keyframe
                &&& p.data == s[src[a]].data
            },
        forall|a: int, b: int| 0 <= a < b < src.len() ==> src[a] < src[b],
        forall|i: int|
            0 <= i < s.len() && (#[trigger] s[i]).kind == kind && s[i].pts >= start
                ==> src.contains(i),
{
    let src = lemma_stream_source(s, kind, start);
    assert forall|a: int| #![trigger src[a]] 0 <= a < src.len() implies s[src[a]].pts - start
        <= 0x7FFF_FFFF_FFFF_FFFF by {
        assert(s[src[a]].pts >= start);
    }
    src
}

/// Law: times that a recorder sees can always be cut: where no time and no length
/// is negative or beyond a thousand years, every snapshot can be trimmed.
pub proof fn law_ordinary_times_can_be_cut(s: Seq<Packet>, secs: u32)
    requires
        forall|i: int|
            0 <= i < s.len() ==> 0 <= (#[trigger] s[i]).pts <= 0x1000_0000_0000_0000 && 0
                <= s[i].dur <= 0x1000_0000_0000_0000,
    ensures
        trim_fits(s, secs),
{
    if clip_start(s, secs) is Some {
        let k = lemma_clip_start_found(s, secs);
        let start = clip_start(s, secs)->0;
        lemma_stream_nonempty(s, k, start);
        let src = lemma_stream_source(s, StreamKind::Video, start);
        let last = src.len() - 1;
        assert(0 <= src[last] < s.len());
        assert(s[src[last]].pts >= start);
        assert(s[k].pts >= 0);
    }
    if newest_video(s) is Some {
        let n = lemma_last_pts_found(s, |p: Packet| is_video(p));
        assert(s[n].pts >= 0);
    }
}

/// Law: the bytes of packets add up.
pub proof fn law_bytes_add_up(s: Seq<Packet>, p: Packet)
    ensures
        total_bytes(Seq::empty()) == 0,
        total_bytes(s.push(p)) == total_bytes(s) + p.data@.len(),
{
    assert(s.push(p).drop_last() =~= s);
}

/// Law: what a push does. The packet goes to the end, and packets go from the front
/// for as long as they are too old for the newest video packet, or all that is left
/// is too large; where neither holds, no more go. The limits stay as they are.
pub proof fn law_what_a_push_does(m: RingModel, p: Packet) -> (k: int)
    ensures
        ({
            let all = m.packets.push(p);
            let newest = if p.kind == StreamKind::Video {
                p.pts as int
            } else {
                m.newest
            };
            let after = m.pushed(p);
            &&& after.newest == newest
            &&& after.window == m.window && after.byte_cap == m.byte_cap
            &&& 0 <= k <= all.len()
            &&& after.packets == all.skip(k)
            &&& forall|j: int|
                0 <= j < k ==> total_bytes(all.skip(j)) > m.byte_cap || (newest > 0 && (
                #[trigger] all[j]).pts < newest - m.window)
            &&& k < all.len() ==> total_bytes(all.skip(k)) <= m.byte_cap
            &&& k < all.len() && newest > 0 ==> all[k].pts >= newest - m.window
        }),
{
    let all = m.packets.push(p);
    let newest = m.newest_after(p);
    let k = lemma_retained_skip(all, newest, m.window, m.byte_cap);
    assert forall|j: int| 0 <= j < k implies total_bytes(all.skip(j)) > m.byte_cap || (newest > 0
        && (#[trigger] all[j]).pts < newest - m.window) by {
        assert(overdue(all.skip(j), newest, m.window, m.byte_cap));
        assert(all.skip(j)[0] == all[j]);
    }
    if k < all.len() {
        assert(all.skip(k)[0] == all[k]);
    }
    k
}

/// Law: a ring reaches three seconds further back than the clip is long.
pub proof fn law_rings_reach_past_the_clip(secs: u32)
    ensures
        window_for(secs) == secs * 10_000_000 + 30_000_000,
{
}

/// Law: a ring that was cleared has forgotten everything but its limits.
pub proof fn law_cleared_rings_are_empty(m: RingModel)
    ensures
        m.cleared().packets.len() == 0,
        m.cleared().newest == 0,
        m.cleared().window == m.window,
        m.cleared().byte_cap == m.byte_cap,
{
}

} // verus!

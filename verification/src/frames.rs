//! The bookkeeping of the server's sample frames and packets.
//!
//! Decoded samples arrive by packet, interleaved in two channels; the
//! reader keeps them in a buffer and cuts them into frames of `frame_len`
//! sample frames, from a first frame index on. A packet of audio sent to a
//! client is one such frame, encoded. What reads and decodes the media, and
//! what encodes a frame, stays outside: the functions here decide what to
//! do with each packet and each frame.

use vstd::prelude::*;

verus! {

/// Why the reader cannot go on.
#[derive(Clone, Copy, Debug, PartialEq, Eq, Structural)]
pub enum FrameError {
    /// The length of a frame was never set.
    FrameLenNotSet,
    /// The timestamp to seek to lies within the first frame.
    NotEnoughToSeek,
}

/// What to do with a packet that the media reader gave.
#[derive(Clone, Copy, Debug, PartialEq, Eq, Structural)]
pub enum PacketAction {
    /// The packet ends before the first wanted frame: read the next one.
    Skip,
    /// Decode the packet and keep its samples from this sample frame on.
    Keep(usize),
}

/// What the reader does when asked for its next frame.
#[derive(Clone, Copy, Debug, PartialEq, Eq, Structural)]
pub enum FrameStep {
    /// The length of a frame was never set.
    FrameLenNotSet,
    /// The last wanted frame was given.
    End,
    /// Read samples until a frame is buffered, and give it.
    Read,
}

/// One frame: its index, the timestamp to seek to for the packet after it,
/// and its interleaved samples.
pub struct SampleFrame<T> {
    pub idx: usize,
    pub next_seek_ts: u64,
    pub samples: Vec<T>,
}

/// The state of a reader of frames.
pub struct SampleFrames<T> {
    pub codec_sample_rate: u32,
    pub seek_start_frame_idx: usize,
    pub seek_end_frame_idx: usize,
    pub frame_cnt: usize,
    pub frame_len: usize,
    pub frame_buf: Vec<T>,
    pub curr_frame_start_ts: u64,
    pub curr_frame_dur: u64,
    pub resolved_first_offset: bool,
}

/// The index of the frame last given, when the last packet read ends at
/// `end` and `buffered` samples (two a sample frame) are still buffered:
/// the whole frames of `frame_len` sample frames consumed, less one.
pub open spec fn frame_index_of(end: int, buffered: int, frame_len: int) -> int {
    (end - buffered / 2) / frame_len - 1
}

/// Whether that index can be computed without a fault: the end fits in a
/// `u64` and a `usize`, the buffered frames do not exceed it, a frame has a
/// length, and the number of whole frames fits in an `i64`.
pub open spec fn frame_index_ok(end: int, buffered: int, frame_len: int) -> bool {
    &&& end <= u64::MAX
    &&& end <= usize::MAX
    &&& end >= buffered / 2
    &&& frame_len > 0
    &&& (end - buffered / 2) / frame_len <= i64::MAX
}

/// The end of the last packet read.
pub open spec fn packet_end<T>(s: SampleFrames<T>) -> int {
    s.curr_frame_start_ts + s.curr_frame_dur
}

/// Whether the index of the current frame can be computed without a fault.
pub open spec fn frame_index_defined<T>(s: SampleFrames<T>) -> bool {
    frame_index_ok(packet_end(s), s.frame_buf@.len() as int, s.frame_len as int)
}

/// The index of the frame last given.
pub open spec fn current_frame_index<T>(s: SampleFrames<T>) -> int {
    frame_index_of(packet_end(s), s.frame_buf@.len() as int, s.frame_len as int)
}

impl<T: Copy> SampleFrames<T> {
    /// A reader of the frames from `seek_start_frame_idx` up to
    /// `seek_end_frame_idx`, of a track at `codec_sample_rate`, with no
    /// frame length yet and nothing read.
    pub fn new(codec_sample_rate: u32, seek_start_frame_idx: usize, seek_end_frame_idx: usize) -> (res: Self)
        ensures
            res.codec_sample_rate == codec_sample_rate,
            res.seek_start_frame_idx == seek_start_frame_idx,
            res.seek_end_frame_idx == seek_end_frame_idx,
            res.frame_cnt == 0,
            res.frame_len == 0,
            res.frame_buf@.len() == 0,
            res.curr_frame_start_ts == 0,
            res.curr_frame_dur == 0,
            !res.resolved_first_offset,
    {
        SampleFrames {
            codec_sample_rate,
            seek_start_frame_idx,
            seek_end_frame_idx,
            frame_cnt: 0,
            frame_len: 0,
            frame_buf: Vec::new(),
            curr_frame_start_ts: 0,
            curr_frame_dur: 0,
            resolved_first_offset: false,
        }
    }

    /// The index of the frame last given, from the end of the last packet
    /// read and the samples still buffered.
    pub fn get_curr_frame_idx_2(&self) -> (res: i64)
        requires
            frame_index_defined(*self),
        ensures
            res == current_frame_index(*self),
            (res + 1) * self.frame_len <= packet_end(*self) - self.frame_buf@.len() / 2,
            packet_end(*self) - self.frame_buf@.len() / 2 < (res + 2) * self.frame_len,
    {
        proof {
            frame_index_counts_whole_frames(packet_end(*self), self.frame_buf@.len() as int, self.frame_len as int);
        }
        let remain_frame_len = self.frame_buf.len() / 2;
        let end: u64 = self.curr_frame_start_ts + self.curr_frame_dur;
        let curr_frame_size = end as usize - remain_frame_len;
        let whole: usize = curr_frame_size / self.frame_len;
        assert(whole as i64 == whole);
        whole as i64 - 1
    }

    /// The index of the current frame as it would be with `buffered`
    /// samples buffered, where it can be computed without a fault, and
    /// `None` where it cannot.
    pub fn checked_frame_index(&self, buffered: usize) -> (res: Option<i64>)
        ensures
            res is Some <==> frame_index_ok(packet_end(*self), buffered as int, self.frame_len as int),
            res matches Some(v) ==> v == frame_index_of(packet_end(*self), buffered as int, self.frame_len as int),
            res matches Some(v) ==> (v + 1) * self.frame_len <= packet_end(*self) - buffered / 2
                && packet_end(*self) - buffered / 2 < (v + 2) * self.frame_len,
    {
        proof {
            if frame_index_ok(packet_end(*self), buffered as int, self.frame_len as int) {
                frame_index_counts_whole_frames(packet_end(*self), buffered as int, self.frame_len as int);
            }
        }
        let end: u64 = match self.curr_frame_start_ts.checked_add(self.curr_frame_dur) {
            Some(e) => e,
            None => return None,
        };
        if (end as u128) > (usize::MAX as u128) {
            return None;
        }
        let end: usize = end as usize;
        let half: usize = buffered / 2;
        if end < half || self.frame_len == 0 {
            return None;
        }
        let whole: usize = (end - half) / self.frame_len;
        if (whole as u128) > (i64::MAX as u128) {
            return None;
        }
        Some(whole as i64 - 1)
    }

    /// The index of the next frame by count: the first wanted frame plus
    /// the frames given.
    pub fn get_curr_frame_idx(&self) -> (res: usize)
        requires
            self.seek_start_frame_idx + self.frame_cnt <= usize::MAX,
        ensures
            res == self.seek_start_frame_idx + self.frame_cnt,
    {
        self.seek_start_frame_idx + self.frame_cnt
    }

    /// Sets the length of a frame, in sample frames.
    pub fn set_frame_len(&mut self, frame_len: usize)
        ensures
            *final(self) == (SampleFrames { frame_len, ..*old(self) }),
    {
        self.frame_len = frame_len;
    }

    /// The timestamp that the media reader seeks to, so that the frame
    /// before the one at `ts` is read again: `ts` less one frame, or an
    /// error where `ts` lies within the first frame.
    pub fn seek_target(&self, ts: u64) -> (res: Result<u64, FrameError>)
        ensures
            ts < self.frame_len ==> res == Err::<u64, FrameError>(FrameError::NotEnoughToSeek),
            ts >= self.frame_len ==> res == Ok::<u64, FrameError>((ts - self.frame_len) as u64),
    {
        if (ts as u128) < (self.frame_len as u128) {
            Err(FrameError::NotEnoughToSeek)
        } else {
            Ok(ts - self.frame_len as u64)
        }
    }

    /// Whether fewer than one frame of samples is buffered.
    pub fn needs_samples(&self) -> (res: bool)
        ensures
            res == (self.frame_buf@.len() / 2 < self.frame_len),
    {
        self.frame_buf.len() / 2 < self.frame_len
    }

    /// Records the packet that starts at `ts` and lasts `dur`, and says
    /// what to do with it: skip it where it ends before the first wanted
    /// frame; else keep its samples, from the start of the first wanted
    /// frame where this is the first packet kept, from its start after that.
    pub fn accept_packet(&mut self, ts: u64, dur: u64) -> (res: PacketAction)
        requires
            ts + dur <= u64::MAX,
            old(self).frame_len * old(self).seek_start_frame_idx <= usize::MAX,
            old(self).frame_len * old(self).seek_start_frame_idx <= u64::MAX,
            !old(self).resolved_first_offset && ts + dur > old(self).frame_len * old(self).seek_start_frame_idx
                ==> ts <= old(self).frame_len * old(self).seek_start_frame_idx,
        ensures
            *final(self) == (SampleFrames { curr_frame_start_ts: ts, curr_frame_dur: dur, ..*old(self) }),
            ({
                let first = old(self).frame_len * old(self).seek_start_frame_idx;
                if ts + dur <= first {
                    res == PacketAction::Skip
                } else if !old(self).resolved_first_offset {
                    res == PacketAction::Keep((first - ts) as usize)
                } else {
                    res == PacketAction::Keep(0)
                }
            }),
    {
        self.curr_frame_start_ts = ts;
        self.curr_frame_dur = dur;
        let first: usize = self.frame_len * self.seek_start_frame_idx;
        if ts + dur <= first as u64 {
            PacketAction::Skip
        } else if !self.resolved_first_offset {
            PacketAction::Keep(first - ts as usize)
        } else {
            PacketAction::Keep(0)
        }
    }

    /// Buffers the decoded interleaved `samples` of a kept packet from the
    /// sample frame `offset` on.
    pub fn push_samples(&mut self, samples: &[T], offset: usize)
        requires
            offset * 2 <= samples@.len(),
        ensures
            final(self).frame_buf@ == old(self).frame_buf@ + samples@.skip(offset * 2),
            *final(self) == (SampleFrames { frame_buf: final(self).frame_buf, resolved_first_offset: true, ..*old(self) }),
    {
        let slen: usize = samples.len();
        assert(slen == samples@.len());
        let mut i: usize = offset * 2;
        let ghost start = self.frame_buf@;
        while i < samples.len()
            invariant
                offset * 2 <= i <= samples@.len(),
                self.frame_buf@ == start + samples@.subrange(offset * 2, i as int),
                *self == (SampleFrames { frame_buf: self.frame_buf, ..*old(self) }),
            decreases samples@.len() - i,
        {
            self.frame_buf.push(samples[i]);
            assert(samples@.subrange(offset * 2, i + 1) =~= samples@.subrange(offset * 2, i as int).push(samples@[i as int]));
            i = i + 1;
        }
        assert(samples@.subrange(offset * 2, samples@.len() as int) =~= samples@.skip(offset * 2));
        self.resolved_first_offset = true;
    }

    /// What the reader does when asked for its next frame: fail where no
    /// frame length was set, end where the last frame given is the last
    /// wanted one, else read.
    pub fn next_step(&self) -> (res: FrameStep)
        requires
            self.frame_len > 0 ==> frame_index_defined(*self),
        ensures
            self.frame_len == 0 ==> res == FrameStep::FrameLenNotSet,
            self.frame_len > 0 && (current_frame_index(*self) as usize) == self.seek_end_frame_idx ==> res == FrameStep::End,
            self.frame_len > 0 && (current_frame_index(*self) as usize) != self.seek_end_frame_idx ==> res == FrameStep::Read,
    {
        if self.frame_len == 0 {
            return FrameStep::FrameLenNotSet;
        }
        if self.get_curr_frame_idx_2() as usize == self.seek_end_frame_idx {
            FrameStep::End
        } else {
            FrameStep::Read
        }
    }

    /// Takes the next frame out of the buffer: its `2 * frame_len`
    /// interleaved samples, its index, and the timestamp to seek to for the
    /// packet after it (the start of the last packet read while samples of
    /// it stay buffered, else its end).
    pub fn take_frame(&mut self) -> (res: SampleFrame<T>)
        requires
            old(self).frame_len * 2 <= old(self).frame_buf@.len(),
            old(self).frame_cnt < usize::MAX,
            frame_index_ok(packet_end(*old(self)), old(self).frame_buf@.len() - old(self).frame_len * 2,
                old(self).frame_len as int),
            frame_index_of(packet_end(*old(self)), old(self).frame_buf@.len() - old(self).frame_len * 2,
                old(self).frame_len as int) >= 0,
        ensures
            res.samples@ == old(self).frame_buf@.take(old(self).frame_len * 2),
            final(self).frame_buf@ == old(self).frame_buf@.skip(old(self).frame_len * 2),
            *final(self) == (SampleFrames {
                frame_buf: final(self).frame_buf,
                frame_cnt: (old(self).frame_cnt + 1) as usize,
                ..*old(self)
            }),
            res.idx == current_frame_index(*final(self)),
            res.next_seek_ts == if final(self).frame_buf@.len() > 0 {
                old(self).curr_frame_start_ts
            } else {
                (old(self).curr_frame_start_ts + old(self).curr_frame_dur) as u64
            },
    {
        let blen: usize = self.frame_buf.len();
        assert(blen == self.frame_buf@.len());
        let n = self.frame_len * 2;
        let mut samples: Vec<T> = Vec::new();
        let mut rest: Vec<T> = Vec::new();
        let mut i: usize = 0;
        while i < self.frame_buf.len()
            invariant
                n == old(self).frame_len * 2,
                n <= self.frame_buf@.len(),
                i <= self.frame_buf@.len(),
                *self == *old(self),
                samples@ == self.frame_buf@.take(if i < n { i as int } else { n as int }),
                rest@ == if i < n { Seq::<T>::empty() } else { self.frame_buf@.subrange(n as int, i as int) },
            decreases self.frame_buf@.len() - i,
        {
            let v = self.frame_buf[i];
            if i < n {
                samples.push(v);
                assert(self.frame_buf@.take(i + 1) =~= self.frame_buf@.take(i as int).push(v));
            } else {
                rest.push(v);
                assert(self.frame_buf@.subrange(n as int, i + 1) =~= self.frame_buf@.subrange(n as int, i as int).push(v));
            }
            i = i + 1;
        }
        assert(rest@ =~= old(self).frame_buf@.skip(n as int));
        self.frame_buf = rest;
        self.frame_cnt = self.frame_cnt + 1;
        let next_seek_ts = if self.frame_buf.len() > 0 {
            self.curr_frame_start_ts
        } else {
            self.curr_frame_start_ts + self.curr_frame_dur
        };
        let idx = self.get_curr_frame_idx_2();
        SampleFrame { idx: idx as usize, next_seek_ts, samples }
    }
}

/// What a frame takes from the buffer, followed by what stays, is what was
/// buffered: the reader gives every kept sample once, in order.
pub proof fn frame_split_keeps_order<T>(buffered: Seq<T>, frame_len: int)
    requires
        0 <= frame_len, frame_len * 2 <= buffered.len(),
    ensures
        buffered.take(frame_len * 2) + buffered.skip(frame_len * 2) == buffered,
{
    assert(buffered.take(frame_len * 2) + buffered.skip(frame_len * 2) =~= buffered);
}

/// The frames that a request for `pkt_num` packets from the packet
/// `pkt_start_idx` on reads: from four packets before the first, so that
/// the encoder settles, or from the first where it is among the first
/// four; up to the last packet asked for.
pub fn packet_frame_window(pkt_start_idx: usize, pkt_num: usize) -> (res: (usize, usize))
    requires
        1 <= pkt_start_idx + pkt_num <= usize::MAX,
    ensures
        res.0 == if pkt_start_idx > 4 { (pkt_start_idx - 4) as usize } else { pkt_start_idx },
        res.1 == pkt_start_idx + pkt_num - 1,
{
    let seek_start_frame_idx = if pkt_start_idx > 4 { pkt_start_idx - 4 } else { pkt_start_idx };
    (seek_start_frame_idx, pkt_start_idx + pkt_num - 1)
}

/// Where the media reader seeks to before the first frame read, for a
/// request from the packet `pkt_start_idx` with frames of
/// `input_frames_max` sample frames: the start of the frame four packets
/// before it, or nowhere where it is among the first four.
pub fn packet_seek_timestamp(pkt_start_idx: usize, input_frames_max: usize) -> (res: Option<u64>)
    requires
        pkt_start_idx > 4 ==> (pkt_start_idx - 4) * input_frames_max <= usize::MAX,
    ensures
        pkt_start_idx > 4 ==> res == Some(((pkt_start_idx - 4) * input_frames_max) as u64),
        pkt_start_idx <= 4 ==> res == None::<u64>,
{
    if pkt_start_idx > 4 {
        let seek_start_idx = pkt_start_idx - 4;
        let ts: usize = seek_start_idx * input_frames_max;
        Some(ts as u64)
    } else {
        None
    }
}

/// The time, in milliseconds, that the encoder is given to settle before
/// the first packet asked for.
pub const MIN_ENCODER_PRESYNC_PKT_MS: u32 = 80;

/// The distance, as the encoder's settling counts it, from the frame
/// `curr_frame_idx` to the packet `packet_start_idx`, in milliseconds of
/// `packet_dur_ms` a packet.
pub open spec fn presync_distance_ms(packet_start_idx: usize, curr_frame_idx: i64, packet_dur_ms: u32) -> int {
    ((((packet_start_idx as i64) - curr_frame_idx) as i64) as u32) * packet_dur_ms
}

/// Whether, on the way to the packet `packet_start_idx`, the frame after
/// `curr_frame_idx` is read and dropped: while the distance is more than the
/// settling time.
pub fn presync_needs_skip(packet_start_idx: usize, curr_frame_idx: i64, packet_dur_ms: u32) -> (res: bool)
    requires
        i64::MIN <= (packet_start_idx as i64) - curr_frame_idx <= i64::MAX,
        presync_distance_ms(packet_start_idx, curr_frame_idx, packet_dur_ms) <= u32::MAX,
    ensures
        res == (presync_distance_ms(packet_start_idx, curr_frame_idx, packet_dur_ms) > MIN_ENCODER_PRESYNC_PKT_MS),
{
    let delta: i64 = packet_start_idx as i64 - curr_frame_idx;
    let distance: u32 = (delta as u32) * packet_dur_ms;
    !(distance <= MIN_ENCODER_PRESYNC_PKT_MS)
}

/// Whether, once the encoder has settled, the frame after `curr_frame_idx`
/// is read and encoded to prime the encoder: while it comes before the
/// packet just before `packet_start_idx`.
pub fn presync_needs_encode(packet_start_idx: usize, curr_frame_idx: i64) -> (res: bool)
    requires
        packet_start_idx >= 1,
    ensures
        res == (packet_start_idx - 1 > (curr_frame_idx as usize)),
{
    packet_start_idx - 1 > curr_frame_idx as usize
}

/// Splits the first `count` elements off the front of `v`.
fn split_front<T: Copy>(v: &mut Vec<T>, count: usize) -> (res: Vec<T>)
    requires
        count <= old(v)@.len(),
    ensures
        res@ == old(v)@.take(count as int),
        final(v)@ == old(v)@.skip(count as int),
{
    let mut front: Vec<T> = Vec::new();
    let mut back: Vec<T> = Vec::new();
    let mut i: usize = 0;
    while i < v.len()
        invariant
            i <= v@.len(),
            count <= v@.len(),
            *v == *old(v),
            front@ == v@.take(if i < count { i as int } else { count as int }),
            back@ == if i < count { Seq::<T>::empty() } else { v@.subrange(count as int, i as int) },
        decreases v@.len() - i,
    {
        let x = v[i];
        if i < count {
            front.push(x);
            assert(v@.take(i + 1) =~= v@.take(i as int).push(x));
        } else {
            back.push(x);
            assert(v@.subrange(count as int, i + 1) =~= v@.subrange(count as int, i as int).push(x));
        }
        i = i + 1;
    }
    assert(back@ =~= old(v)@.skip(count as int));
    *v = back;
    front
}

/// `count` copies of `fill`.
pub open spec fn padding<T>(fill: T, count: nat) -> Seq<T> {
    Seq::new(count, |i: int| fill)
}

/// The input of one resampling step, from the decoded samples of the
/// first two channels: from each, the first `needed` samples, or as many
/// as the first channel holds where it holds fewer; each padded with
/// `fill` up to `needed`.
pub fn resampler_input<T: Copy>(decoded: &mut Vec<Vec<T>>, needed: usize, fill: T) -> (res: Vec<Vec<T>>)
    requires
        old(decoded)@.len() >= 2,
        needed <= i32::MAX,
        old(decoded)@[0]@.len() <= i32::MAX,
        old(decoded)@[1]@.len() >= if needed <= old(decoded)@[0]@.len() { needed as nat } else { old(decoded)@[0]@.len() },
    ensures
        ({
            let d = if needed <= old(decoded)@[0]@.len() { needed as int } else { old(decoded)@[0]@.len() as int };
            &&& res@.len() == 2
            &&& final(decoded)@.len() == old(decoded)@.len()
            &&& forall|c: int| 0 <= c < 2 ==>
                (#[trigger] res@[c])@ == old(decoded)@[c]@.take(d) + padding(fill, (needed - d) as nat)
            &&& forall|c: int| 0 <= c < 2 ==> (#[trigger] final(decoded)@[c])@ == old(decoded)@[c]@.skip(d)
            &&& forall|c: int| 2 <= c < old(decoded)@.len() ==> #[trigger] final(decoded)@[c] == old(decoded)@[c]
        }),
{
    let len0: usize = decoded[0].len();
    let d: usize = if needed <= len0 { needed } else { len0 };
    let pad: usize = needed - d;
    let mut res: Vec<Vec<T>> = Vec::new();
    let mut c: usize = 0;
    while c < 2
        invariant
            c <= 2,
            old(decoded)@.len() >= 2,
            decoded@.len() == old(decoded)@.len(),
            d == if needed <= old(decoded)@[0]@.len() { needed as int } else { old(decoded)@[0]@.len() as int },
            pad == needed - d,
            old(decoded)@[1]@.len() >= d,
            old(decoded)@[0]@.len() >= d,
            res@.len() == c,
            forall|k: int| 0 <= k < c ==> (#[trigger] res@[k])@ == old(decoded)@[k]@.take(d as int) + padding(fill, pad as nat),
            forall|k: int| 0 <= k < c ==> (#[trigger] decoded@[k])@ == old(decoded)@[k]@.skip(d as int),
            forall|k: int| c <= k < decoded@.len() ==> #[trigger] decoded@[k] == old(decoded)@[k],
        decreases 2 - c,
    {
        assert(decoded@[c as int] == old(decoded)@[c as int]);
        let mut ch = split_front(&mut decoded[c], d);
        let mut p: usize = 0;
        let ghost taken = ch@;
        while p < pad
            invariant
                p <= pad,
                ch@ == taken + padding(fill, p as nat),
            decreases pad - p,
        {
            ch.push(fill);
            assert(taken + padding(fill, (p + 1) as nat) =~= (taken + padding(fill, p as nat)).push(fill));
            p = p + 1;
        }
        res.push(ch);
        c = c + 1;
    }
    res
}

/// The index of the frame last given counts the whole frames consumed:
/// with `end - buffered / 2` sample frames consumed, the frames up to and
/// including that index fill them whole, and one frame more would not fit.
pub proof fn frame_index_counts_whole_frames(end: int, buffered: int, frame_len: int)
    requires
        frame_len > 0,
        buffered >= 0,
        end >= buffered / 2,
    ensures
        frame_index_of(end, buffered, frame_len) >= -1,
        (frame_index_of(end, buffered, frame_len) + 1) * frame_len <= end - buffered / 2,
        end - buffered / 2 < (frame_index_of(end, buffered, frame_len) + 2) * frame_len,
{
    let c = end - buffered / 2;
    let q = c / frame_len;
    assert(q * frame_len <= c && c < (q + 1) * frame_len && q >= 0) by (nonlinear_arith)
        requires
            frame_len > 0,
            c >= 0,
            q == c / frame_len;
}

/// Once exactly `k` whole frames of any length have been consumed beyond
/// what is buffered, the frame last given is the frame `k - 1`.
pub proof fn whole_frames_give_index(k: int, buffered: int, frame_len: int)
    requires
        frame_len > 0,
        buffered >= 0,
        k >= 0,
    ensures
        frame_index_of(k * frame_len + buffered / 2, buffered, frame_len) == k - 1,
{
    assert((k * frame_len) / frame_len == k) by (nonlinear_arith)
        requires
            frame_len > 0;
}

/// Taking a frame out of the buffer, with no packet read in between,
/// moves the index of the current frame on by one.
pub proof fn taking_a_frame_advances_index(end: int, buffered: int, frame_len: int)
    requires
        frame_len > 0,
        buffered >= 2 * frame_len,
        end >= buffered / 2,
    ensures
        frame_index_of(end, buffered - 2 * frame_len, frame_len) == frame_index_of(end, buffered, frame_len) + 1,
{
    let before = end - buffered / 2;
    assert((buffered - 2 * frame_len) / 2 == buffered / 2 - frame_len);
    assert((before + frame_len) / frame_len == before / frame_len + 1) by (nonlinear_arith)
        requires
            frame_len > 0,
            before >= 0;
}

/// The frames a request gives follow one another: where the reader stood
/// at the index `frame_index_of(end, buffered, frame_len)` and then took
/// `k` frames, reading in between packets that continue one another and
/// whose `read` sample frames it kept in whole, it stands at that index plus
/// `k`. Since the reader ends exactly at the index of the last frame asked
/// for (`next_step`), a request that starts just before the frame `first`
/// gives the frames `first`, `first + 1`, ... up to the last, in order.
pub proof fn frames_follow_in_order(end: int, buffered: int, frame_len: int, read: int, k: int)
    requires
        frame_len > 0,
        buffered >= 0,
        read >= 0,
        k >= 0,
        end >= buffered / 2,
        buffered + 2 * read >= 2 * k * frame_len,
    ensures
        frame_index_of(end + read, buffered + 2 * read - 2 * k * frame_len, frame_len)
            == frame_index_of(end, buffered, frame_len) + k,
{
    let c = end - buffered / 2;
    assert((buffered + 2 * read - 2 * k * frame_len) / 2 == buffered / 2 + read - k * frame_len) by (nonlinear_arith)
        requires
            buffered >= 0;
    assert((c + k * frame_len) / frame_len == c / frame_len + k) by (nonlinear_arith)
        requires
            frame_len > 0,
            c >= 0,
            k >= 0;
}

/// What the iterator over resampled packets does next.
#[derive(Clone, Copy, Debug, PartialEq, Eq, Structural)]
pub enum IteratorStep {
    /// Read and decode another packet.
    ReadPacket,
    /// Nothing is buffered and nothing more can be read: the iteration ends.
    End,
    /// Resample and encode what is buffered.
    Emit,
}

/// What the iterator does with `buffered` decoded sample frames when the
/// resampler needs `needed`, and `reader_done` says that the reader gave
/// no more packets (or failed): read while too few are buffered and more
/// can be read; else end where nothing is buffered, and emit otherwise.
pub fn iterator_step(buffered: usize, needed: usize, reader_done: bool) -> (res: IteratorStep)
    ensures
        buffered < needed && !reader_done ==> res == IteratorStep::ReadPacket,
        (buffered >= needed || reader_done) && buffered == 0 ==> res == IteratorStep::End,
        (buffered >= needed || reader_done) && buffered > 0 ==> res == IteratorStep::Emit,
{
    if buffered < needed && !reader_done {
        IteratorStep::ReadPacket
    } else if buffered == 0 {
        IteratorStep::End
    } else {
        IteratorStep::Emit
    }
}

} // verus!

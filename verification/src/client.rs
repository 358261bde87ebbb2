//! The client's side of playback: the states it reports, what it knows of
//! an audio source, and the bookkeeping of its sample buffer.

use std::collections::VecDeque;

use vstd::prelude::*;

verus! {

/// The state of playback that the client reports.
#[derive(Clone, Copy, Debug, PartialEq, Eq, Structural)]
pub enum PlaybackStatus {
    Play,
    Pause,
    Stop,
    Error,
}

/// The number that stands for `status` where a state is kept as a number.
pub open spec fn playback_status_index(status: PlaybackStatus) -> usize {
    match status {
        PlaybackStatus::Play => 0,
        PlaybackStatus::Pause => 1,
        PlaybackStatus::Stop => 2,
        PlaybackStatus::Error => 3,
    }
}

impl PlaybackStatus {
    /// The state kept as the number `value`; numbers above three stand for
    /// no state.
    pub fn from(value: usize) -> (res: Self)
        requires
            value <= 3,
        ensures
            playback_status_index(res) == value,
    {
        match value {
            0 => PlaybackStatus::Play,
            1 => PlaybackStatus::Pause,
            2 => PlaybackStatus::Stop,
            _ => PlaybackStatus::Error,
        }
    }

    /// The number that stands for the state.
    pub fn index(&self) -> (res: usize)
        ensures
            res == playback_status_index(*self),
    {
        match self {
            PlaybackStatus::Play => 0,
            PlaybackStatus::Pause => 1,
            PlaybackStatus::Stop => 2,
            PlaybackStatus::Error => 3,
        }
    }
}

/// A state read back from its number is the state that was kept, and each
/// number up to three is the number of the state read from it.
pub proof fn playback_status_round_trip(status: PlaybackStatus, value: usize)
    ensures
        playback_status_index(status) <= 3,
        value <= 3 ==> exists|s: PlaybackStatus| playback_status_index(s) == value,
        forall|a: PlaybackStatus, b: PlaybackStatus|
            playback_status_index(a) == playback_status_index(b) ==> a == b,
{
    if value == 0 {
        assert(playback_status_index(PlaybackStatus::Play) == value);
    } else if value == 1 {
        assert(playback_status_index(PlaybackStatus::Pause) == value);
    } else if value == 2 {
        assert(playback_status_index(PlaybackStatus::Stop) == value);
    } else if value == 3 {
        assert(playback_status_index(PlaybackStatus::Error) == value);
    }
}

/// Where the client's sample buffer stands: nothing fetched yet, filling,
/// or playing.
#[derive(Clone, Copy, Debug, PartialEq, Eq, Structural)]
pub enum AudioSampleStatus {
    Init,
    FillBuffer,
    Play,
}

/// The number that stands for `status` where it is kept as a number.
pub open spec fn sample_status_index(status: AudioSampleStatus) -> usize {
    match status {
        AudioSampleStatus::Init => 0,
        AudioSampleStatus::FillBuffer => 1,
        AudioSampleStatus::Play => 2,
    }
}

impl AudioSampleStatus {
    /// The state kept as the number `value`; numbers above two stand for no
    /// state.
    pub fn from(value: usize) -> (res: Self)
        requires
            value <= 2,
        ensures
            sample_status_index(res) == value,
    {
        match value {
            0 => AudioSampleStatus::Init,
            1 => AudioSampleStatus::FillBuffer,
            _ => AudioSampleStatus::Play,
        }
    }

    /// The number that stands for the state.
    pub fn index(&self) -> (res: usize)
        ensures
            res == sample_status_index(*self),
    {
        match self {
            AudioSampleStatus::Init => 0,
            AudioSampleStatus::FillBuffer => 1,
            AudioSampleStatus::Play => 2,
        }
    }
}

/// What the client knows of an audio source from the server's metadata.
pub struct AudioSourceMetadata {
    pub bit_rate: u32,
    pub sample_rate: u32,
    pub channels: usize,
    pub content_bytes: u32,
    pub sample_frames: usize,
}

impl AudioSourceMetadata {
    /// The metadata made of the given values.
    pub fn new(bit_rate: u32, sample_rate: u32, channels: usize, content_bytes: u32, sample_frames: usize) -> (res: Self)
        ensures
            res.bit_rate == bit_rate,
            res.sample_rate == sample_rate,
            res.channels == channels,
            res.content_bytes == content_bytes,
            res.sample_frames == sample_frames,
    {
        AudioSourceMetadata { bit_rate, sample_rate, channels, content_bytes, sample_frames }
    }
}

/// An audio source: the id of its tag and its metadata.
pub struct AudioSource {
    pub id: String,
    pub metadata: AudioSourceMetadata,
}

impl AudioSource {
    /// The source of the tag `audio_tag_id`, from the fields of the
    /// server's metadata answer: its bit rate, sample rate, channel count,
    /// size in bytes and number of sample frames.
    pub fn from_meta(
        audio_tag_id: &str,
        bit_rate: u32,
        sample_rate: u32,
        channels: u32,
        size: u32,
        sample_frames: u32,
    ) -> (res: Self)
        ensures
            res.id@ == audio_tag_id@,
            res.metadata.bit_rate == bit_rate,
            res.metadata.sample_rate == sample_rate,
            res.metadata.channels == channels,
            res.metadata.content_bytes == size,
            res.metadata.sample_frames == sample_frames,
    {
        let metadata = AudioSourceMetadata::new(
            bit_rate,
            sample_rate,
            channels as usize,
            size,
            sample_frames as usize,
        );
        AudioSource { id: audio_tag_id.to_string(), metadata }
    }
}

/// The part of a source that one fetch of the sample buffer asks for: its
/// first and its last sample frame, and the position that the next fetch
/// counts from.
pub struct BufferRequest {
    pub start: u32,
    pub end: u32,
    pub next_pos: usize,
}

/// The number of sample frames in `ms` milliseconds at `sample_rate`.
pub open spec fn requested_samples(ms: u32, sample_rate: u32) -> int {
    (ms * sample_rate) / 1000
}

/// The smaller of two numbers.
pub open spec fn min_u32(a: u32, b: u32) -> u32 {
    if a <= b { a } else { b }
}

/// What a fetch of `ms` milliseconds asks for, when the last fetch reached
/// the position `last_pos` and the source has `sample_frames` frames at
/// `sample_rate`: from the last position up to `ms` milliseconds after it,
/// neither past the end of the source; a fetch that runs to its end moves
/// the position on by the frames asked for.
pub fn buffer_request(ms: u32, sample_rate: u32, last_pos: usize, sample_frames: usize) -> (res: BufferRequest)
    requires
        ms * sample_rate <= u32::MAX,
        (last_pos as u32) + requested_samples(ms, sample_rate) <= u32::MAX,
        requested_samples(ms, sample_rate) + last_pos <= usize::MAX,
    ensures
        res.start == min_u32(last_pos as u32, sample_frames as u32),
        res.end == min_u32(((last_pos as u32) + requested_samples(ms, sample_rate)) as u32, sample_frames as u32),
        res.next_pos == requested_samples(ms, sample_rate) + last_pos,
{
    let req_samples: u32 = ms * sample_rate / 1000;
    let last: u32 = last_pos as u32;
    let frames: u32 = sample_frames as u32;
    let to: u32 = last + req_samples;
    BufferRequest {
        start: if last <= frames { last } else { frames },
        end: if to <= frames { to } else { frames },
        next_pos: req_samples as usize + last_pos,
    }
}

/// What a fetch does after resampling one chunk of fetched samples.
#[derive(Clone, Copy, Debug, PartialEq, Eq, Structural)]
pub enum FillStep {
    /// Filling was asked to stop: the fetch ends here, and the next fetch
    /// counts from this position.
    Stop(usize),
    /// The chunk's resampled frames go into the buffer; so many frames have
    /// been appended in this fetch.
    Append(usize),
}

/// The step of a fetch after a chunk was resampled into `resampled`
/// frames, when the last fetch reached `last_pos`, `appended` frames were
/// appended in this fetch so far, and `stop_requested` says whether
/// filling was asked to stop: stop, and count from the last position plus
/// what was appended, or append the chunk.
pub fn buffer_fill_step(stop_requested: bool, last_pos: usize, appended: usize, resampled: usize) -> (res: FillStep)
    requires
        stop_requested ==> last_pos + appended <= usize::MAX,
        !stop_requested ==> appended + resampled <= usize::MAX,
    ensures
        stop_requested ==> res == FillStep::Stop((last_pos + appended) as usize),
        !stop_requested ==> res == FillStep::Append((appended + resampled) as usize),
{
    if stop_requested {
        FillStep::Stop(last_pos + appended)
    } else {
        FillStep::Append(appended + resampled)
    }
}

/// Consecutive fetches that run to their ends join up: where neither
/// reaches the end of the source, the next one starts where the last one
/// ended.
pub proof fn buffer_requests_join(ms: u32, sample_rate: u32, last_pos: usize, sample_frames: usize)
    requires
        ms * sample_rate <= u32::MAX,
        last_pos + 2 * requested_samples(ms, sample_rate) <= u32::MAX,
        last_pos + 2 * requested_samples(ms, sample_rate) <= sample_frames <= u32::MAX,
    ensures
        ({
            let req = requested_samples(ms, sample_rate);
            let end = min_u32(((last_pos as u32) + req) as u32, sample_frames as u32);
            let next_start = min_u32(((req + last_pos) as usize) as u32, sample_frames as u32);
            next_start == end
        }),
{
    let req = requested_samples(ms, sample_rate);
    assert(0 <= req) by (nonlinear_arith) requires req == (ms * sample_rate) / 1000;
}

/// The signed 16-bit number whose big-endian bytes are `hi` and `lo`.
pub open spec fn be_i16(hi: u8, lo: u8) -> i16 {
    let v = hi * 256 + lo;
    if v < 32768 { v as i16 } else { (v - 65536) as i16 }
}

/// `i16::from_be_bytes` of std, on the two bytes `hi` and `lo`.
pub fn i16_from_be_bytes(hi: u8, lo: u8) -> (res: i16)
    ensures
        res == be_i16(hi, lo),
{
    let v: u32 = (hi as u32) * 256 + (lo as u32);
    if v < 32768 {
        v as i16
    } else {
        (v as i32 - 65536) as i16
    }
}

/// The samples of one chunk of interleaved stereo frames, by channel.
pub struct StereoChunk {
    pub left: Vec<i16>,
    pub right: Vec<i16>,
}

/// Whether `chunk` holds the frames of `bytes`: each frame four bytes, the
/// left sample and then the right one, each big-endian.
pub open spec fn decodes(bytes: Seq<u8>, chunk: StereoChunk) -> bool {
    &&& chunk.left@.len() * 4 == bytes.len()
    &&& chunk.right@.len() == chunk.left@.len()
    &&& forall|j: int| 0 <= j < chunk.left@.len() ==>
        #[trigger] chunk.left@[j] == be_i16(bytes[4 * j], bytes[4 * j + 1])
    &&& forall|j: int| 0 <= j < chunk.right@.len() ==>
        #[trigger] chunk.right@[j] == be_i16(bytes[4 * j + 2], bytes[4 * j + 3])
}

/// Decodes the `frames` stereo frames of `bytes` that start at `start`.
fn decode_stereo_frames(bytes: &Vec<u8>, start: usize, frames: usize) -> (res: StereoChunk)
    requires
        start + 4 * frames <= bytes@.len(),
    ensures
        decodes(bytes@.subrange(start as int, start + 4 * frames), res),
{
    let ghost sub = bytes@.subrange(start as int, start + 4 * frames);
    let mut left: Vec<i16> = Vec::new();
    let mut right: Vec<i16> = Vec::new();
    let blen: usize = bytes.len();
    let mut j: usize = 0;
    while j < frames
        invariant
            j <= frames,
            blen == bytes@.len(),
            start + 4 * frames <= bytes@.len(),
            sub == bytes@.subrange(start as int, start + 4 * frames),
            left@.len() == j,
            right@.len() == j,
            forall|i: int| 0 <= i < j ==> #[trigger] left@[i] == be_i16(sub[4 * i], sub[4 * i + 1]),
            forall|i: int| 0 <= i < j ==> #[trigger] right@[i] == be_i16(sub[4 * i + 2], sub[4 * i + 3]),
        decreases frames - j,
    {
        let at = start + 4 * j;
        assert(sub[4 * j as int] == bytes@[at as int]);
        assert(sub[4 * j + 1] == bytes@[at + 1]);
        assert(sub[4 * j + 2] == bytes@[at + 2]);
        assert(sub[4 * j + 3] == bytes@[at + 3]);
        left.push(i16_from_be_bytes(bytes[at], bytes[at + 1]));
        right.push(i16_from_be_bytes(bytes[at + 2], bytes[at + 3]));
        j = j + 1;
    }
    StereoChunk { left, right }
}

/// A fetched part of a source, decoded: the full chunks of frames and the
/// bytes left over for the next fetch.
pub struct DecodedSamples {
    pub chunks: Vec<StereoChunk>,
    pub remainder: Vec<u8>,
}

/// Whether `res` holds the chunks of `frames` frames of `data`, and the
/// bytes after the last full chunk.
pub open spec fn is_chunked(data: Seq<u8>, frames: nat, res: DecodedSamples) -> bool {
    let c = 4 * frames;
    let n = data.len() / c;
    &&& res.chunks@.len() == n
    &&& forall|k: int| 0 <= k < n ==> decodes(#[trigger] data.subrange(k * c, k * c + c), res.chunks@[k])
    &&& res.remainder@ == data.skip((n * c) as int)
}

proof fn lemma_chunk_bounds(k: int, c: int, len: int)
    requires
        0 <= k,
        0 < c,
        k < len / c,
        0 <= len,
    ensures
        (k + 1) * c <= len,
        (k + 1) * c == k * c + c,
        0 <= k * c,
{
    assert((k + 1) * c == k * c + c) by (nonlinear_arith);
    assert(0 <= k * c) by (nonlinear_arith) requires 0 <= k, 0 < c;
    assert((k + 1) * c <= len) by (nonlinear_arith) requires k < len / c, 0 < c, 0 <= len, 0 <= k;
}

/// Decodes the bytes left over from the last fetch, `remain`, followed by
/// the fetched `content`: every full chunk of `frames` stereo frames, and
/// the bytes after the last full chunk, kept for the next fetch.
pub fn decode_sample_chunks(remain: &Vec<u8>, content: &Vec<u8>, frames: usize) -> (res: DecodedSamples)
    requires
        frames > 0,
        4 * frames <= usize::MAX,
        remain@.len() + content@.len() <= usize::MAX,
    ensures
        is_chunked(remain@ + content@, frames as nat, res),
{
    let mut data: Vec<u8> = remain.clone();
    data.extend_from_slice(content.as_slice());
    assert(data@ == remain@ + content@);
    let c: usize = 4 * frames;
    let dlen: usize = data.len();
    let n: usize = dlen / c;
    let mut chunks: Vec<StereoChunk> = Vec::new();
    let mut k: usize = 0;
    let mut offset: usize = 0;
    while k < n
        invariant
            c == 4 * frames,
            c > 0,
            n == data@.len() / (c as nat),
            dlen == data@.len(),
            k <= n,
            offset == k * c,
            chunks@.len() == k,
            forall|i: int| 0 <= i < k ==> decodes(#[trigger] data@.subrange(i * c, i * c + c), chunks@[i]),
        decreases n - k,
    {
        proof { lemma_chunk_bounds(k as int, c as int, data@.len() as int); }
        let chunk = decode_stereo_frames(&data, offset, frames);
        chunks.push(chunk);
        offset = offset + c;
        k = k + 1;
    }
    proof {
        assert(offset == n * c);
        assert(offset <= data@.len()) by (nonlinear_arith)
            requires offset == n * c, n == data@.len() / (c as nat), c > 0;
    }
    let mut remainder: Vec<u8> = Vec::new();
    let mut i: usize = offset;
    while i < data.len()
        invariant
            offset <= i <= data@.len(),
            remainder@ == data@.subrange(offset as int, i as int),
        decreases data@.len() - i,
    {
        remainder.push(data[i]);
        assert(data@.subrange(offset as int, i + 1) =~= data@.subrange(offset as int, i as int).push(data@[i as int]));
        i = i + 1;
    }
    assert(remainder@ =~= data@.skip(offset as int));
    DecodedSamples { chunks, remainder }
}

/// The samples buffered for each channel.
pub open spec fn channel_samples<T>(buffers: Seq<VecDeque<T>>) -> Seq<Seq<T>> {
    buffers.map_values(|d: VecDeque<T>| d@)
}

/// Drops the first `count` samples of one channel's buffer.
fn drop_front<T>(buffer: &mut VecDeque<T>, count: usize)
    requires
        count <= old(buffer)@.len(),
    ensures
        final(buffer)@ == old(buffer)@.skip(count as int),
{
    let mut i: usize = 0;
    while i < count
        invariant
            i <= count,
            count <= old(buffer)@.len(),
            buffer@ == old(buffer)@.skip(i as int),
        decreases count - i,
    {
        let _ = buffer.pop_front();
        assert(old(buffer)@.skip(i + 1) =~= old(buffer)@.skip(i as int).drop_first());
        i = i + 1;
    }
}

/// Drops up to `drain_len` samples from the front of each channel's
/// buffer: as many as the first channel holds, if it holds fewer.
pub fn drain_sample_buffer<T>(buffers: &mut Vec<VecDeque<T>>, drain_len: usize)
    requires
        old(buffers)@.len() >= 1,
        forall|c: int| 0 <= c < old(buffers)@.len() ==>
            (#[trigger] old(buffers)@[c])@.len() >= old(buffers)@[0]@.len() || old(buffers)@[c]@.len() >= drain_len,
    ensures
        final(buffers)@.len() == old(buffers)@.len(),
        forall|c: int| 0 <= c < old(buffers)@.len() ==>
            (#[trigger] final(buffers)@[c])@ == old(buffers)@[c]@.skip(
                if old(buffers)@[0]@.len() <= drain_len { old(buffers)@[0]@.len() as int } else { drain_len as int }),
{
    let first_len = buffers[0].len();
    let n = if first_len <= drain_len { first_len } else { drain_len };
    let mut c: usize = 0;
    while c < buffers.len()
        invariant
            c <= buffers@.len(),
            buffers@.len() == old(buffers)@.len(),
            n == (if old(buffers)@[0]@.len() <= drain_len { old(buffers)@[0]@.len() as int } else { drain_len as int }),
            forall|d: int| 0 <= d < old(buffers)@.len() ==>
                (#[trigger] old(buffers)@[d])@.len() >= old(buffers)@[0]@.len() || old(buffers)@[d]@.len() >= drain_len,
            forall|d: int| 0 <= d < c ==> (#[trigger] buffers@[d])@ == old(buffers)@[d]@.skip(n as int),
            forall|d: int| c <= d < buffers@.len() ==> (#[trigger] buffers@[d]) == old(buffers)@[d],
        decreases old(buffers)@.len() - c,
    {
        drop_front(&mut buffers[c], n);
        c = c + 1;
    }
}

/// The sample that playing puts in slot `i` of the output, with `channels`
/// interleaved channels: the sample of frame `i / channels` of channel
/// `i % channels`, or `silence` where that channel holds too few.
pub open spec fn played_sample<T>(bufs: Seq<Seq<T>>, channels: int, silence: T, i: int) -> T {
    let f = i / channels;
    let c = i % channels;
    if f < bufs[c].len() { bufs[c][f] } else { silence }
}

/// The smaller of two numbers.
pub open spec fn min_int(a: int, b: int) -> int {
    if a <= b { a } else { b }
}

proof fn lemma_slot(f: int, c: int, channels: int)
    requires
        0 <= f,
        0 <= c < channels,
    ensures
        (f * channels + c) / channels == f,
        (f * channels + c) % channels == c,
{
    vstd::arithmetic::div_mod::lemma_fundamental_div_mod_converse(f * channels + c, channels, f, c);
}

/// Fills `output`, frame by frame of `channels` interleaved samples: each
/// channel gives the next sample of its buffer, or `silence` where its
/// buffer is empty, and the other channels of the frame still play. Gives
/// the number of frames in which every channel had a sample, by which the
/// playback position moves.
pub fn play_for<T: Copy>(buffers: &mut Vec<VecDeque<T>>, output: &mut [T], channels: usize, silence: T) -> (played: usize)
    requires
        1 <= channels <= 255,
        old(buffers)@.len() >= channels,
        old(output)@.len() % (channels as nat) == 0,
    ensures
        ({
            let bufs = channel_samples(old(buffers)@);
            let k = (old(output)@.len() / (channels as nat)) as int;
            &&& final(output)@.len() == old(output)@.len()
            &&& forall|f: int, c: int| 0 <= f < k && 0 <= c < channels ==>
                #[trigger] final(output)@[f * channels + c] == if f < bufs[c].len() { bufs[c][f] } else { silence }
            &&& final(buffers)@.len() == old(buffers)@.len()
            &&& forall|c: int| 0 <= c < channels ==>
                #[trigger] channel_samples(final(buffers)@)[c] == bufs[c].skip(min_int(bufs[c].len() as int, k))
            &&& forall|c: int| channels <= c < old(buffers)@.len() ==> #[trigger] final(buffers)@[c] == old(buffers)@[c]
            &&& played <= k
            &&& forall|c: int| 0 <= c < channels ==> #[trigger] bufs[c].len() >= played
            &&& (played == k || exists|c: int| 0 <= c < channels && #[trigger] bufs[c].len() == played)
        }),
{
    let ghost bufs = channel_samples(buffers@);
    let ghost start_out = output@;
    let ghost cs = channels as int;
    let len: usize = output.len();
    let frames: usize = len / channels;
    let mut played: usize = 0;
    let mut f: usize = 0;
    let mut base: usize = 0;
    while f < frames
        invariant
            1 <= channels <= 255,
            cs == channels as int,
            len == output@.len(),
            len == start_out.len(),
            frames == len / channels,
            buffers@.len() == old(buffers)@.len(),
            bufs == channel_samples(old(buffers)@),
            buffers@.len() >= channels,
            f <= frames,
            base == f * channels,
            forall|i: int| 0 <= i < base ==> #[trigger] output@[i] == played_sample(bufs, cs, silence, i),
            forall|i: int| base <= i < len ==> #[trigger] output@[i] == start_out[i],
            forall|c: int| 0 <= c < channels ==>
                #[trigger] channel_samples(buffers@)[c] == bufs[c].skip(min_int(bufs[c].len() as int, f as int)),
            forall|c: int| channels <= c < buffers@.len() ==> #[trigger] buffers@[c] == old(buffers)@[c],
            played <= f,
            forall|c: int| 0 <= c < channels ==> #[trigger] bufs[c].len() >= played,
            played == f || exists|c: int| 0 <= c < channels && #[trigger] bufs[c].len() == played,
        decreases frames - f,
    {
        proof { lemma_chunk_bounds(f as int, channels as int, len as int); }
        let mut read: u8 = 0;
        let mut c: usize = 0;
        while c < channels
            invariant
                1 <= channels <= 255,
                cs == channels as int,
                len == output@.len(),
                buffers@.len() == old(buffers)@.len(),
                buffers@.len() >= channels,
                bufs == channel_samples(old(buffers)@),
                base == f * channels,
                base + channels <= len,
                f < frames,
                c <= channels,
                read <= c,
                (read == c) <==> (forall|d: int| 0 <= d < c ==> f < #[trigger] bufs[d].len()),
                forall|i: int| 0 <= i < base + c ==> #[trigger] output@[i] == played_sample(bufs, cs, silence, i),
                forall|i: int| base + c <= i < len ==> #[trigger] output@[i] == start_out[i],
                forall|d: int| 0 <= d < c ==>
                    #[trigger] channel_samples(buffers@)[d] == bufs[d].skip(min_int(bufs[d].len() as int, f + 1)),
                forall|d: int| c <= d < channels ==>
                    #[trigger] channel_samples(buffers@)[d] == bufs[d].skip(min_int(bufs[d].len() as int, f as int)),
                forall|d: int| channels <= d < buffers@.len() ==> #[trigger] buffers@[d] == old(buffers)@[d],
            decreases channels - c,
        {
            let ghost before = channel_samples(buffers@);
            proof { lemma_slot(f as int, c as int, cs); }
            assert(before[c as int] == bufs[c as int].skip(min_int(bufs[c as int].len() as int, f as int)));
            let popped = buffers[c].pop_front();
            assert(channel_samples(buffers@) =~= before.update(c as int, channel_samples(buffers@)[c as int]));
            match popped {
                Some(v) => {
                    assert(f < bufs[c as int].len());
                    assert(v == bufs[c as int][f as int]);
                    assert(channel_samples(buffers@)[c as int] =~= bufs[c as int].skip(f + 1));
                    output[base + c] = v;
                    read = read + 1;
                },
                None => {
                    assert(f >= bufs[c as int].len());
                    assert(channel_samples(buffers@)[c as int] =~= bufs[c as int].skip(bufs[c as int].len() as int));
                    output[base + c] = silence;
                },
            }
            c = c + 1;
        }
        if read / (channels as u8) == 1 {
            played = played + 1;
        }
        proof {
            if read as usize == channels {
                assert(read / (channels as u8) == 1);
            } else {
                assert(read < channels);
                let cu = channels as u8;
                assert(cu as usize == channels);
                assert(read / cu == 0) by (nonlinear_arith)
                    requires read < cu, cu >= 1;
                let d = choose|d: int| 0 <= d < channels && !(f < #[trigger] bufs[d].len());
                assert(played <= bufs[d].len());
                if played < f {
                    let e = choose|e: int| 0 <= e < channels && #[trigger] bufs[e].len() == played;
                    assert(bufs[e].len() == played);
                } else {
                    assert(bufs[d].len() == played);
                }
            }
        }
        base = base + channels;
        f = f + 1;
    }
    proof {
        let k = (start_out.len() / (channels as nat)) as int;
        assert(k == frames);
        assert forall|ff: int, c: int| 0 <= ff < k && 0 <= c < channels implies
            #[trigger] output@[ff * channels + c] == if ff < bufs[c].len() { bufs[c][ff] } else { silence } by {
            lemma_slot(ff, c, cs);
            assert(ff * channels + c < base) by (nonlinear_arith)
                requires ff < frames, 0 <= c < channels, base == frames * channels, 0 <= ff;
        }
    }
    played
}

/// Every 16-bit sample is read back from its two big-endian bytes.
pub proof fn be_i16_round_trip(v: i16)
    ensures
        be_i16((((v as u16) >> 8u16) as u8), (((v as u16) & 0xffu16) as u8)) == v,
{
    let u = v as u16;
    let hi = (u >> 8u16) as u8;
    let lo = (u & 0xffu16) as u8;
    assert(hi * 256 + lo == u) by (bit_vector)
        requires
            hi == (u >> 8u16) as u8,
            lo == (u & 0xffu16) as u8;
    assert(v >= 0 ==> u == v) by (bit_vector)
        requires
            u == v as u16;
    assert(v < 0 ==> u == v + 65536) by (bit_vector)
        requires
            u == v as u16;
}

/// Decoding loses no byte: the full chunks and the bytes kept for the next
/// fetch together are as long as the input.
pub proof fn decoded_covers_input(data: Seq<u8>, frames: nat, res: DecodedSamples)
    requires
        frames > 0,
        is_chunked(data, frames, res),
    ensures
        res.chunks@.len() * (4 * frames) + res.remainder@.len() == data.len(),
{
    let c = 4 * frames;
    let n = data.len() / c;
    assert(n * c <= data.len()) by (nonlinear_arith)
        requires
            n == data.len() / c,
            c > 0;
    assert(res.chunks@.len() * c == n * c);
}

/// The streams that the player holds, in the order they were added; the
/// first is the one that plays.
pub struct PlayerQueue<S> {
    pub streams: VecDeque<S>,
}

impl<S> PlayerQueue<S> {
    /// A player with no stream.
    pub fn new() -> (res: Self)
        ensures
            res.streams@ == Seq::<S>::empty(),
    {
        PlayerQueue { streams: VecDeque::new() }
    }

    /// Adds a stream after the others.
    pub fn add_audio(&mut self, stream: S)
        ensures
            final(self).streams@ == old(self).streams@.push(stream),
    {
        self.streams.push_back(stream);
    }

    /// Removes the stream that plays, and gives it back.
    pub fn remove_audio(&mut self) -> (res: S)
        requires
            old(self).streams@.len() > 0,
        ensures
            res == old(self).streams@[0],
            final(self).streams@ == old(self).streams@.drop_first(),
    {
        self.streams.pop_front().unwrap()
    }

    /// The stream that plays.
    pub fn current(&self) -> (res: &S)
        requires
            self.streams@.len() > 0,
        ensures
            *res == self.streams@[0],
    {
        &self.streams[0]
    }
}

/// Adding a stream does not change the stream that plays, unless none
/// did; and a stream added to an empty player is the one that a removal
/// gives back, leaving the player empty.
pub proof fn adding_keeps_current<S>(streams: Seq<S>, added: S)
    ensures
        streams.len() > 0 ==> streams.push(added)[0] == streams[0],
        streams.len() == 0 ==> streams.push(added)[0] == added,
        streams.len() == 0 ==> streams.push(added).drop_first() == Seq::<S>::empty(),
{
    if streams.len() == 0 {
        assert(streams.push(added).drop_first() =~= Seq::<S>::empty());
    }
}

} // verus!

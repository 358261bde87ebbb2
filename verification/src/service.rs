//! The server's settings, its audio service, and the parts of audio data
//! that it answers with.

use vstd::prelude::*;

verus! {

/// Where the server listens, and how it secures its connections.
pub struct Server {
    pub listen_address: String,
    pub listen_port: u32,
    pub tls: bool,
    pub cert_path: String,
    pub key_path: String,
}

/// Where the database is.
pub struct MongoDB {
    pub address: String,
}

/// The sample rate and the length of the frames that the server encodes
/// into packets.
pub struct AudioSamleFramePacket {
    pub sample_rate: u32,
    pub len: u32,
}

/// The server's settings.
pub struct Settings {
    pub server: Server,
    pub mongodb: MongoDB,
    pub audio_sample_frame_packet: AudioSamleFramePacket,
}

/// The audio service: it answers with the metadata and the data of audio
/// files.
pub struct AudioSvcImpl {}

impl AudioSvcImpl {
    /// The service.
    pub fn new() -> (res: Self) {
        AudioSvcImpl {}
    }
}

/// One packet of encoded audio: the length of the frame it encodes, where
/// the padding of the frame starts, and its encoded bytes.
pub struct OpusEncodedSample {
    pub original_frame_len: u16,
    pub padded_frame_pos: u16,
    pub encoded_data: Vec<u8>,
}

/// The part of the sound data of an audio file, four bytes a sample frame,
/// from the frame `byte_start` up to the frame `byte_end`.
pub fn audio_data_part(sound_data: &Vec<u8>, byte_start: usize, byte_end: usize) -> (res: Vec<u8>)
    requires
        byte_start <= byte_end,
        4 * byte_end <= sound_data@.len(),
    ensures
        res@ == sound_data@.subrange(4 * byte_start, 4 * byte_end),
{
    let len: usize = sound_data.len();
    assert(len == sound_data@.len());
    let from: usize = 4 * byte_start;
    let to: usize = 4 * byte_end;
    let mut res: Vec<u8> = Vec::new();
    let mut i: usize = from;
    while i < to
        invariant
            from <= i <= to,
            to <= sound_data@.len(),
            from == 4 * byte_start,
            to == 4 * byte_end,
            res@ == sound_data@.subrange(from as int, i as int),
        decreases to - i,
    {
        res.push(sound_data[i]);
        assert(sound_data@.subrange(from as int, i + 1) =~= sound_data@.subrange(from as int, i as int).push(sound_data@[i as int]));
        i = i + 1;
    }
    res
}

/// The parts of the sound data asked for one after the other join up: the
/// part up to a frame, followed by the part from it, is the part that spans
/// both.
pub proof fn data_parts_join(sound_data: Seq<u8>, start: int, middle: int, end: int)
    requires
        0 <= start <= middle <= end,
        4 * end <= sound_data.len(),
    ensures
        sound_data.subrange(4 * start, 4 * middle) + sound_data.subrange(4 * middle, 4 * end)
            == sound_data.subrange(4 * start, 4 * end),
{
    assert(sound_data.subrange(4 * start, 4 * middle) + sound_data.subrange(4 * middle, 4 * end)
        =~= sound_data.subrange(4 * start, 4 * end));
}

} // verus!

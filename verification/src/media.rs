//! What symphonia's probe finds in the bytes of an audio file: its tracks
//! and their codec parameters, and the track that the server reads.

use vstd::prelude::*;

verus! {

/// The codec parameters of one track that the server uses.
pub struct TrackParams {
    /// Whether the track has a codec (its codec type is not the null one).
    pub has_codec: bool,
    pub sample_rate: Option<u32>,
    pub n_frames: Option<u64>,
    pub bits_per_sample: Option<u32>,
    pub channels: Option<u32>,
}

/// The tracks that symphonia's default probe finds in the bytes of an
/// audio file, in its order; `None` where it finds no format it reads.
pub uninterp spec fn probed_tracks(bytes: Seq<u8>) -> Option<Seq<TrackParams>>;

/// symphonia's `Probe::format` with the default probe and options, on the
/// bytes of an audio file, its tracks' parameters taken as plain values:
/// what `probed_tracks` names.
#[verifier::external_body]
pub(crate) fn probe_tracks(bytes: Vec<u8>) -> (res: Option<Vec<TrackParams>>)
    ensures
        res matches Some(v) ==> probed_tracks(bytes@) == Some(v@),
        res is None ==> probed_tracks(bytes@) is None,
{
    let mss = symphonia::core::io::MediaSourceStream::new(Box::new(std::io::Cursor::new(bytes)), Default::default());
    let probed = symphonia::default::get_probe().format(&symphonia::core::probe::Hint::new(), mss, &Default::default(), &Default::default()).ok()?;
    Some(probed.format.tracks().iter().map(|t| TrackParams { has_codec: t.codec_params.codec != symphonia::core::codecs::CODEC_TYPE_NULL,
        sample_rate: t.codec_params.sample_rate, n_frames: t.codec_params.n_frames, bits_per_sample: t.codec_params.bits_per_sample,
        channels: t.codec_params.channels.map(|c| c.count() as u32) }).collect())
}

/// Whether index `i` holds the first track with a codec.
pub open spec fn is_first_audio_track(tracks: Seq<TrackParams>, i: int) -> bool {
    &&& 0 <= i < tracks.len()
    &&& tracks[i].has_codec
    &&& forall|j: int| 0 <= j < i ==> !(#[trigger] tracks[j]).has_codec
}

/// The index of the first track with a codec: the track the server reads;
/// `None` where no track has one.
pub fn first_audio_track(tracks: &Vec<TrackParams>) -> (res: Option<usize>)
    ensures
        res matches Some(i) ==> is_first_audio_track(tracks@, i as int),
        res is None <==> forall|j: int| 0 <= j < tracks@.len() ==> !(#[trigger] tracks@[j]).has_codec,
{
    let mut i: usize = 0;
    while i < tracks.len()
        invariant
            i <= tracks@.len(),
            forall|j: int| 0 <= j < i ==> !(#[trigger] tracks@[j]).has_codec,
        decreases tracks@.len() - i,
    {
        if tracks[i].has_codec {
            return Some(i);
        }
        i = i + 1;
    }
    None
}

/// What the server reports of an audio file's track: its bits per sample,
/// channel count, sample rate and number of frames.
pub struct TrackMeta {
    pub bit_rate: u32,
    pub channels: u32,
    pub sample_rate: u32,
    pub n_frames: u64,
}

/// The metadata of a track, where its parameters give all four values;
/// `None` where one is missing.
pub fn track_meta(t: &TrackParams) -> (res: Option<TrackMeta>)
    ensures
        res is Some <==> (t.bits_per_sample is Some && t.channels is Some && t.sample_rate is Some && t.n_frames is Some),
        res matches Some(m) ==> {
            &&& t.bits_per_sample == Some(m.bit_rate)
            &&& t.channels == Some(m.channels)
            &&& t.sample_rate == Some(m.sample_rate)
            &&& t.n_frames == Some(m.n_frames)
        },
{
    match (t.bits_per_sample, t.channels, t.sample_rate, t.n_frames) {
        (Some(bit_rate), Some(channels), Some(sample_rate), Some(n_frames)) =>
            Some(TrackMeta { bit_rate, channels, sample_rate, n_frames }),
        _ => None,
    }
}

/// The metadata of an audio file from its bytes: the probe's first track
/// with a codec, where there is one and its parameters give all four
/// values.
pub fn read_track_meta(bytes: Vec<u8>) -> (res: Option<TrackMeta>)
    ensures
        res matches Some(m) ==> exists|tracks: Seq<TrackParams>, i: int| #![trigger is_first_audio_track(tracks, i)]
            probed_tracks(bytes@) == Some(tracks) && is_first_audio_track(tracks, i)
                && tracks[i].bits_per_sample == Some(m.bit_rate) && tracks[i].channels == Some(m.channels)
                && tracks[i].sample_rate == Some(m.sample_rate) && tracks[i].n_frames == Some(m.n_frames),
        probed_tracks(bytes@) is None ==> res is None,
{
    let tracks = match probe_tracks(bytes) {
        Some(v) => v,
        None => return None,
    };
    let i = match first_audio_track(&tracks) {
        Some(i) => i,
        None => return None,
    };
    let res = track_meta(&tracks[i]);
    res
}

/// The index, among the tracks the probe finds in the bytes of an audio
/// file, of the first track with a codec: the track the server decodes;
/// `None` where the probe finds no format or no such track.
pub fn audio_track_index(bytes: Vec<u8>) -> (res: Option<usize>)
    ensures
        res matches Some(i) ==> exists|tracks: Seq<TrackParams>| #![trigger is_first_audio_track(tracks, i as int)]
            probed_tracks(bytes@) == Some(tracks) && is_first_audio_track(tracks, i as int),
        res is None <==> (probed_tracks(bytes@) matches Some(tracks) ==>
            forall|j: int| 0 <= j < tracks.len() ==> !(#[trigger] tracks[j]).has_codec),
{
    let ghost b = bytes@;
    match probe_tracks(bytes) {
        Some(tracks) => {
            let res = first_audio_track(&tracks);
            assert(probed_tracks(b) == Some(tracks@));
            res
        },
        None => None,
    }
}

} // verus!

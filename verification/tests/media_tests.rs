use cirrus::media::{audio_track_index, first_audio_track, read_track_meta, track_meta, TrackParams};

fn wav(sample_rate: u32, frames: u32) -> Vec<u8> {
    let data_len = frames * 4;
    let mut v = Vec::new();
    v.extend_from_slice(b"RIFF");
    v.extend_from_slice(&(36 + data_len).to_le_bytes());
    v.extend_from_slice(b"WAVEfmt ");
    v.extend_from_slice(&16u32.to_le_bytes());
    v.extend_from_slice(&1u16.to_le_bytes());
    v.extend_from_slice(&2u16.to_le_bytes());
    v.extend_from_slice(&sample_rate.to_le_bytes());
    v.extend_from_slice(&(sample_rate * 4).to_le_bytes());
    v.extend_from_slice(&4u16.to_le_bytes());
    v.extend_from_slice(&16u16.to_le_bytes());
    v.extend_from_slice(b"data");
    v.extend_from_slice(&data_len.to_le_bytes());
    v.extend(std::iter::repeat(0u8).take(data_len as usize));
    v
}

fn params(has_codec: bool) -> TrackParams {
    TrackParams { has_codec, sample_rate: Some(44100), n_frames: Some(10), bits_per_sample: Some(16), channels: Some(2) }
}

#[test]
fn first_track_with_codec() {
    assert_eq!(first_audio_track(&vec![params(false), params(true), params(true)]), Some(1));
    assert_eq!(first_audio_track(&vec![params(false)]), None);
    assert_eq!(first_audio_track(&vec![]), None);
}

#[test]
fn track_meta_needs_all_values() {
    let m = track_meta(&params(true)).unwrap();
    assert_eq!((m.bit_rate, m.channels, m.sample_rate, m.n_frames), (16, 2, 44100, 10));
    let mut p = params(true);
    p.n_frames = None;
    assert!(track_meta(&p).is_none());
}

#[test]
fn probe_reads_wav_bytes() {
    let bytes = wav(48000, 100);
    assert_eq!(audio_track_index(bytes.clone()), Some(0));
    let m = read_track_meta(bytes).unwrap();
    assert_eq!(m.sample_rate, 48000);
    assert_eq!(m.channels, 2);
    assert_eq!(m.bit_rate, 16);
    assert_eq!(m.n_frames, 100);
    assert_eq!(audio_track_index(vec![0, 1, 2, 3]), None);
}

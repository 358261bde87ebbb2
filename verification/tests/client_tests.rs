use cirrus::client::{buffer_fill_step, FillStep};
use std::collections::VecDeque;

use cirrus::client::{
    buffer_request, decode_sample_chunks, drain_sample_buffer, i16_from_be_bytes, play_for, AudioSampleStatus,
    AudioSource, AudioSourceMetadata, PlaybackStatus, PlayerQueue,
};

#[test]
fn playback_status_from_number() {
    assert_eq!(PlaybackStatus::from(0), PlaybackStatus::Play);
    assert_eq!(PlaybackStatus::from(1), PlaybackStatus::Pause);
    assert_eq!(PlaybackStatus::from(2), PlaybackStatus::Stop);
    assert_eq!(PlaybackStatus::from(3), PlaybackStatus::Error);
}

#[test]
fn playback_status_round_trip_on_values() {
    for s in [PlaybackStatus::Play, PlaybackStatus::Pause, PlaybackStatus::Stop, PlaybackStatus::Error] {
        assert_eq!(PlaybackStatus::from(s.index()), s);
    }
    for v in 0..4usize {
        assert_eq!(PlaybackStatus::from(v).index(), v);
    }
}

#[test]
fn sample_status_from_number() {
    assert_eq!(AudioSampleStatus::from(0), AudioSampleStatus::Init);
    assert_eq!(AudioSampleStatus::from(1), AudioSampleStatus::FillBuffer);
    assert_eq!(AudioSampleStatus::from(2), AudioSampleStatus::Play);
    assert_eq!(AudioSampleStatus::Play.index(), 2);
}

#[test]
fn source_metadata_fields() {
    let m = AudioSourceMetadata::new(16, 44100, 2, 1000, 250);
    assert_eq!(m.bit_rate, 16);
    assert_eq!(m.sample_rate, 44100);
    assert_eq!(m.channels, 2);
    assert_eq!(m.content_bytes, 1000);
    assert_eq!(m.sample_frames, 250);
    let src = AudioSource::from_meta("abc", 16, 48000, 2, 400, 100);
    assert_eq!(src.id, "abc");
    assert_eq!(src.metadata.sample_rate, 48000);
    assert_eq!(src.metadata.sample_frames, 100);
}

#[test]
fn first_buffer_request_starts_at_zero_and_is_capped() {
    let r = buffer_request(1000, 44100, 0, 1000);
    assert_eq!(r.start, 0);
    assert_eq!(r.end, 1000);
    assert_eq!(r.next_pos, 44100);
    let r = buffer_request(50000, 44100, 0, 10_000_000);
    assert_eq!(r.start, 0);
    assert_eq!(r.end, 2_205_000);
    assert_eq!(r.next_pos, 2_205_000);
}

#[test]
fn later_buffer_request_is_clamped() {
    let r = buffer_request(1000, 44100, 100, 40000);
    assert_eq!(r.start, 100);
    assert_eq!(r.end, 40000);
    assert_eq!(r.next_pos, 44200);
    let r = buffer_request(1000, 1000, 50000, 40000);
    assert_eq!(r.start, 40000);
    assert_eq!(r.end, 40000);
}

#[test]
fn big_endian_samples() {
    assert_eq!(i16_from_be_bytes(0x00, 0x01), 1);
    assert_eq!(i16_from_be_bytes(0x7f, 0xff), i16::MAX);
    assert_eq!(i16_from_be_bytes(0x80, 0x00), i16::MIN);
    assert_eq!(i16_from_be_bytes(0xff, 0xff), -1);
    for hi in [0u8, 1, 0x7f, 0x80, 0xfe, 0xff] {
        for lo in [0u8, 1, 0x80, 0xff] {
            assert_eq!(i16_from_be_bytes(hi, lo), i16::from_be_bytes([hi, lo]));
        }
    }
}

#[test]
fn decode_chunks_and_keep_remainder() {
    let remain = vec![0x00, 0x01];
    let content = vec![0x00, 0x02, 0xff, 0xff, 0x00, 0x03, 0x12];
    let d = decode_sample_chunks(&remain, &content, 1);
    assert_eq!(d.chunks.len(), 2);
    assert_eq!(d.chunks[0].left, vec![1]);
    assert_eq!(d.chunks[0].right, vec![2]);
    assert_eq!(d.chunks[1].left, vec![-1]);
    assert_eq!(d.chunks[1].right, vec![3]);
    assert_eq!(d.remainder, vec![0x12]);
    let d = decode_sample_chunks(&remain, &content, 2);
    assert_eq!(d.chunks.len(), 1);
    assert_eq!(d.chunks[0].left, vec![1, -1]);
    assert_eq!(d.chunks[0].right, vec![2, 3]);
    assert_eq!(d.remainder, vec![0x12]);
    let d = decode_sample_chunks(&vec![], &vec![1, 2, 3], 1);
    assert!(d.chunks.is_empty());
    assert_eq!(d.remainder, vec![1, 2, 3]);
}

#[test]
fn drain_takes_at_most_first_channel() {
    let mut bufs = vec![VecDeque::from(vec![1, 2, 3]), VecDeque::from(vec![4, 5, 6, 7])];
    drain_sample_buffer(&mut bufs, 2);
    assert_eq!(bufs[0], VecDeque::from(vec![3]));
    assert_eq!(bufs[1], VecDeque::from(vec![6, 7]));
    drain_sample_buffer(&mut bufs, 10);
    assert!(bufs[0].is_empty());
    assert_eq!(bufs[1], VecDeque::from(vec![7]));
}

#[test]
fn play_fills_frames_and_counts_full_ones() {
    let mut bufs = vec![VecDeque::from(vec![1, 2, 3]), VecDeque::from(vec![10, 20])];
    let mut out = vec![9; 6];
    let played = play_for(&mut bufs, &mut out, 2, 0);
    assert_eq!(out, vec![1, 10, 2, 20, 3, 0]);
    assert_eq!(played, 2);
    assert!(bufs[0].is_empty());
    assert!(bufs[1].is_empty());
}

#[test]
fn play_keeps_other_channels_playing() {
    let mut bufs = vec![VecDeque::new(), VecDeque::from(vec![5])];
    let mut out = vec![9; 4];
    let played = play_for(&mut bufs, &mut out, 2, 0);
    assert_eq!(out, vec![0, 5, 0, 0]);
    assert_eq!(played, 0);
    assert!(bufs[1].is_empty());
    let mut bufs = vec![VecDeque::from(vec![1]), VecDeque::from(vec![2, 3, 4]), VecDeque::from(vec![7])];
    let mut out = vec![9; 6];
    let played = play_for(&mut bufs, &mut out, 2, 0);
    assert_eq!(out, vec![1, 2, 0, 3, 0, 4]);
    assert_eq!(played, 1);
    assert_eq!(bufs[2], VecDeque::from(vec![7]));
}

#[test]
fn consecutive_requests_join() {
    let a = buffer_request(1000, 1000, 500, 100_000);
    let b = buffer_request(1000, 1000, a.next_pos, 100_000);
    assert_eq!(b.start, a.end);
}

#[test]
fn every_sample_reads_back_from_its_bytes() {
    for v in i16::MIN..=i16::MAX {
        let [hi, lo] = v.to_be_bytes();
        assert_eq!(i16_from_be_bytes(hi, lo), v);
    }
}

#[test]
fn decoding_loses_no_byte() {
    let content: Vec<u8> = (0..23).collect();
    for frames in 1..5usize {
        let d = decode_sample_chunks(&vec![9, 9, 9], &content, frames);
        assert_eq!(d.chunks.len() * 4 * frames + d.remainder.len(), 26);
    }
}

#[test]
fn full_buffers_fill_every_frame() {
    let mut bufs = vec![
        VecDeque::from(vec![1, 2, 3, 4]),
        VecDeque::from(vec![5, 6, 7]),
        VecDeque::from(vec![8, 9, 10, 11]),
    ];
    let mut out = vec![0; 9];
    let played = play_for(&mut bufs, &mut out, 3, -1);
    assert_eq!(played, 3);
    assert_eq!(out, vec![1, 5, 8, 2, 6, 9, 3, 7, 10]);
    assert_eq!(bufs[0], VecDeque::from(vec![4]));
    assert!(bufs[1].is_empty());
    assert_eq!(bufs[2], VecDeque::from(vec![11]));
}

#[test]
fn player_plays_streams_in_order() {
    let mut player: PlayerQueue<&str> = PlayerQueue::new();
    player.add_audio("first");
    assert_eq!(*player.current(), "first");
    player.add_audio("second");
    assert_eq!(*player.current(), "first");
    assert_eq!(player.remove_audio(), "first");
    assert_eq!(*player.current(), "second");
    assert_eq!(player.remove_audio(), "second");
    assert!(player.streams.is_empty());
}

#[test]
fn fill_step_stops_or_appends() {
    assert_eq!(buffer_fill_step(true, 100, 30, 1024), FillStep::Stop(130));
    assert_eq!(buffer_fill_step(false, 100, 30, 1024), FillStep::Append(1054));
}

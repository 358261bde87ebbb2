use cirrus::frames::{iterator_step, IteratorStep};
use cirrus::frames::{
    packet_frame_window, packet_seek_timestamp, presync_needs_encode, presync_needs_skip, resampler_input,
    FrameError, FrameStep, PacketAction, SampleFrames, MIN_ENCODER_PRESYNC_PKT_MS,
};

#[test]
fn new_reader_state() {
    let r: SampleFrames<f32> = SampleFrames::new(44100, 3, 10);
    assert_eq!(r.codec_sample_rate, 44100);
    assert_eq!(r.seek_start_frame_idx, 3);
    assert_eq!(r.seek_end_frame_idx, 10);
    assert_eq!(r.frame_len, 0);
    assert_eq!(r.get_curr_frame_idx(), 3);
    assert_eq!(r.next_step(), FrameStep::FrameLenNotSet);
}

#[test]
fn seek_target_needs_a_frame() {
    let mut r: SampleFrames<i16> = SampleFrames::new(48000, 0, 10);
    r.set_frame_len(960);
    assert_eq!(r.seek_target(100), Err(FrameError::NotEnoughToSeek));
    assert_eq!(r.seek_target(960), Ok(0));
    assert_eq!(r.seek_target(3000), Ok(2040));
}

#[test]
fn packets_before_first_frame_are_skipped() {
    let mut r: SampleFrames<i16> = SampleFrames::new(48000, 2, 10);
    r.set_frame_len(4);
    assert_eq!(r.accept_packet(0, 8), PacketAction::Skip);
    assert_eq!(r.accept_packet(6, 4), PacketAction::Keep(2));
    assert_eq!(r.curr_frame_start_ts, 6);
    assert_eq!(r.curr_frame_dur, 4);
    r.push_samples(&[0, 0, 0, 0, 1, 1, 2, 2], 2);
    assert!(r.resolved_first_offset);
    assert_eq!(r.frame_buf, vec![1, 1, 2, 2]);
    assert_eq!(r.accept_packet(10, 4), PacketAction::Keep(0));
}

#[test]
fn frames_are_cut_in_order() {
    let mut r: SampleFrames<i16> = SampleFrames::new(48000, 0, 5);
    r.set_frame_len(2);
    assert!(r.needs_samples());
    assert_eq!(r.accept_packet(0, 3), PacketAction::Keep(0));
    r.push_samples(&[1, 1, 2, 2, 3, 3], 0);
    assert!(!r.needs_samples());
    assert_eq!(r.get_curr_frame_idx_2(), -1);
    assert_eq!(r.next_step(), FrameStep::Read);
    let f = r.take_frame();
    assert_eq!(f.samples, vec![1, 1, 2, 2]);
    assert_eq!(f.idx, 0);
    assert_eq!(f.next_seek_ts, 0);
    assert_eq!(r.frame_buf, vec![3, 3]);
    assert_eq!(r.frame_cnt, 1);
    assert!(r.needs_samples());
    assert_eq!(r.accept_packet(3, 1), PacketAction::Keep(0));
    r.push_samples(&[4, 4], 0);
    let f = r.take_frame();
    assert_eq!(f.samples, vec![3, 3, 4, 4]);
    assert_eq!(f.idx, 1);
    assert_eq!(f.next_seek_ts, 4);
    assert!(r.frame_buf.is_empty());
}

#[test]
fn reader_ends_at_last_frame() {
    let mut r: SampleFrames<i16> = SampleFrames::new(48000, 0, 0);
    r.set_frame_len(2);
    r.accept_packet(0, 2);
    r.push_samples(&[1, 1, 2, 2], 0);
    let f = r.take_frame();
    assert_eq!(f.idx, 0);
    assert_eq!(r.next_step(), FrameStep::End);
}

#[test]
fn packet_window_reads_four_before() {
    assert_eq!(packet_frame_window(10, 5), (6, 14));
    assert_eq!(packet_frame_window(3, 2), (3, 4));
    assert_eq!(packet_frame_window(0, 1), (0, 0));
    assert_eq!(packet_seek_timestamp(10, 882), Some(6 * 882));
    assert_eq!(packet_seek_timestamp(4, 882), None);
}

#[test]
fn presync_decisions() {
    assert_eq!(MIN_ENCODER_PRESYNC_PKT_MS, 80);
    assert!(presync_needs_skip(100, 10, 20));
    assert!(!presync_needs_skip(100, 96, 20));
    assert!(presync_needs_skip(100, 95, 20));
    assert!(presync_needs_encode(100, 96));
    assert!(!presync_needs_encode(100, 99));
    assert!(!presync_needs_encode(100, -1));
}

#[test]
fn resampler_input_pads_short_channels() {
    let mut decoded = vec![vec![1, 2, 3], vec![4, 5, 6, 7]];
    let input = resampler_input(&mut decoded, 5, 0);
    assert_eq!(input, vec![vec![1, 2, 3, 0, 0], vec![4, 5, 6, 0, 0]]);
    assert!(decoded[0].is_empty());
    assert_eq!(decoded[1], vec![7]);
    let mut decoded = vec![vec![1, 2, 3], vec![4, 5, 6]];
    let input = resampler_input(&mut decoded, 2, 0);
    assert_eq!(input, vec![vec![1, 2], vec![4, 5]]);
    assert_eq!(decoded, vec![vec![3], vec![6]]);
}

#[test]
fn iterator_step_decisions() {
    assert_eq!(iterator_step(10, 100, false), IteratorStep::ReadPacket);
    assert_eq!(iterator_step(10, 100, true), IteratorStep::Emit);
    assert_eq!(iterator_step(0, 100, true), IteratorStep::End);
    assert_eq!(iterator_step(100, 100, false), IteratorStep::Emit);
    assert_eq!(iterator_step(0, 0, false), IteratorStep::End);
}

#[test]
fn checked_frame_index_matches_reader() {
    let mut r: SampleFrames<i16> = SampleFrames::new(48000, 0, 5);
    assert_eq!(r.checked_frame_index(0), None);
    r.set_frame_len(2);
    r.accept_packet(0, 3);
    r.push_samples(&[1, 1, 2, 2, 3, 3], 0);
    assert_eq!(r.checked_frame_index(6), Some(-1));
    assert_eq!(r.checked_frame_index(2), Some(0));
    assert_eq!(r.checked_frame_index(8), None);
    assert_eq!(r.checked_frame_index(r.frame_buf.len()), Some(r.get_curr_frame_idx_2()));
}

#[test]
fn request_gives_its_frames_in_order() {
    let mut r: SampleFrames<i16> = SampleFrames::new(48000, 2, 4);
    r.set_frame_len(2);
    let mut ts: u64 = 0;
    let mut given = Vec::new();
    loop {
        match r.next_step() {
            FrameStep::End => break,
            FrameStep::FrameLenNotSet => panic!("frame length"),
            FrameStep::Read => {},
        }
        while r.needs_samples() {
            match r.accept_packet(ts, 2) {
                PacketAction::Skip => {},
                PacketAction::Keep(offset) => r.push_samples(&[7, 7, 7, 7], offset),
            }
            ts += 2;
        }
        given.push(r.take_frame().idx);
    }
    assert_eq!(given, vec![2, 3, 4]);
}

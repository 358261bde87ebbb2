use cirrus::crud::{path_pattern, select_many, select_single, CrudError, ManySelection, SingleSelection};
use cirrus::dto::AudioTag;
use cirrus::listing::{list_audio_tags, page_skip};
use cirrus::service::{audio_data_part, AudioSvcImpl, OpusEncodedSample, Settings, Server, MongoDB, AudioSamleFramePacket};

#[test]
fn single_lookup_prefers_query() {
    match select_single(Some([1; 12]), Some("q")) {
        Ok(SingleSelection::Query(q)) => assert_eq!(q, "q"),
        _ => panic!("expected the query"),
    }
    match select_single::<&str>(Some([1; 12]), None) {
        Ok(SingleSelection::Id(i)) => assert_eq!(i, [1; 12]),
        _ => panic!("expected the id"),
    }
    match select_single::<&str>(None, None) {
        Err(e) => {
            assert_eq!(e, CrudError::ObjectIdNotSet);
            assert_eq!(e.message(), "object id is not set");
        },
        _ => panic!("expected an error"),
    }
}

#[test]
fn many_lookup_prefers_query() {
    let ids = vec![[1; 12], [2; 12]];
    match select_many(Some(&ids), Some(7)) {
        Ok(ManySelection::Query(q)) => assert_eq!(q, 7),
        _ => panic!("expected the query"),
    }
    match select_many::<i32>(Some(&ids), None) {
        Ok(ManySelection::Ids(v)) => assert_eq!(v, ids),
        _ => panic!("expected the ids"),
    }
    assert!(matches!(select_many::<i32>(None, None), Err(CrudError::ObjectIdNotSet)));
}

#[test]
fn path_pattern_anchors_prefix() {
    assert_eq!(path_pattern(",music,jazz,"), "^,music,jazz,");
    assert_eq!(path_pattern(""), "^");
}

#[test]
fn page_skip_counts_previous_pages() {
    assert_eq!(page_skip(20, 1), 0);
    assert_eq!(page_skip(20, 3), 40);
}

#[test]
fn listing_gives_hex_ids() {
    let mut tag = AudioTag::new_with(Some([0x0f, 0xa0, 1, 2, 3, 4, 5, 6, 7, 8, 9, 0xff]), [0; 12], "t.aiff", None);
    tag.artist = Some("artist".to_string());
    tag.genre = Some("genre".to_string());
    let res = list_audio_tags(&vec![tag]);
    assert_eq!(res.len(), 1);
    assert_eq!(res[0].id, "0fa0010203040506070809ff");
    assert_eq!(res[0].artist, "artist");
    assert_eq!(res[0].genre, "genre");
    assert_eq!(res[0].title, "t.aiff");
}

#[test]
fn audio_data_part_slices_frames() {
    let data: Vec<u8> = (0..16).collect();
    assert_eq!(audio_data_part(&data, 1, 3), vec![4, 5, 6, 7, 8, 9, 10, 11]);
    assert!(audio_data_part(&data, 2, 2).is_empty());
}

#[test]
fn settings_hold_values() {
    let s = Settings {
        server: Server {
            listen_address: "127.0.0.1".to_string(),
            listen_port: 50000,
            tls: false,
            cert_path: String::new(),
            key_path: String::new(),
        },
        mongodb: MongoDB { address: "mongodb://localhost".to_string() },
        audio_sample_frame_packet: AudioSamleFramePacket { sample_rate: 48000, len: 960 },
    };
    assert_eq!(s.server.listen_port, 50000);
    assert_eq!(s.audio_sample_frame_packet.len, 960);
    let _svc = AudioSvcImpl::new();
    let sample = OpusEncodedSample { original_frame_len: 960, padded_frame_pos: 0, encoded_data: vec![1, 2] };
    assert_eq!(sample.encoded_data.len(), 2);
}

#[test]
fn data_parts_join_on_values() {
    let data: Vec<u8> = (0..40).collect();
    let mut joined = audio_data_part(&data, 1, 4);
    joined.extend(audio_data_part(&data, 4, 9));
    assert_eq!(joined, audio_data_part(&data, 1, 9));
}

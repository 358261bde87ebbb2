use cirrus::dto::{AudioFile, AudioLibrary, AudioTag, GetPathKey, GetPathValue};
use cirrus::hash::get_hashed_value;
use cirrus::tag::{id3_timestamp_to_utc, optional_id3_timestamp, AudioFileMetadataPicture, Id3Tag, Id3Timestamp};
use chrono::TimeZone;
use std::collections::hash_map::DefaultHasher;
use std::hash::{Hash, Hasher};

const ID: [u8; 12] = [1, 2, 3, 4, 5, 6, 7, 8, 9, 10, 11, 12];
const OTHER: [u8; 12] = [0xaa; 12];

fn empty_id3() -> Id3Tag {
    Id3Tag {
        artist: None,
        album: None,
        album_artist: None,
        date_recorded: None,
        date_released: None,
        disc: None,
        duration: None,
        genre: None,
        pictures: Vec::new(),
        title: None,
        total_discs: None,
        total_tracks: None,
        track: None,
        year: None,
    }
}

fn date(year: i32, month: Option<u8>, day: Option<u8>) -> Id3Timestamp {
    Id3Timestamp { year, month, day, hour: None, minute: None, second: None }
}

#[test]
fn library_record_from_path() {
    let lib = AudioLibrary::new_with(ID, "/music/jazz", 42, '/');
    assert_eq!(lib.id, Some(ID));
    assert_eq!(lib.os_path, "/music/jazz");
    assert_eq!(lib.materialized_path, ",,music,jazz,");
    assert_eq!(lib.modified_timestamp, 42);
    assert_eq!(AudioLibrary::get_mat_path_key(), "materialized_path");
    assert_eq!(lib.get_mat_path_val(), ",,music,jazz,");
}

#[test]
fn library_new_on_platform() {
    let sep = std::path::MAIN_SEPARATOR;
    let path = format!("music{}jazz", sep);
    let lib = AudioLibrary::new(&path, 7);
    assert!(lib.id.is_some());
    assert_eq!(lib.os_path, "music/jazz");
    assert_eq!(lib.materialized_path, ",music,jazz,");
}

#[test]
fn library_check_modified() {
    let lib = AudioLibrary::new_with(ID, "/a", 100, '/');
    assert!(!lib.check_modified(100));
    assert!(lib.check_modified(101));
}

#[test]
fn file_record_from_path() {
    let mut f = AudioFile::new_with(ID, "/music/jazz", "song.aiff", 5, '/');
    assert_eq!(f.parent_path, ",,music,jazz,");
    assert_eq!(f.filename, "song.aiff");
    assert_eq!(f.audio_tag_refer, None);
    assert_eq!(AudioFile::get_mat_path_key(), "parent_path");
    assert_eq!(f.get_parent_os_path(), "/music/jazz");
    assert!(f.check_modified(6));
    f.update_modified_timestamp(6);
    assert_eq!(f.modified_timestamp, 6);
    assert!(!f.check_modified(6));
    f.set_audio_tag_refer(OTHER);
    assert_eq!(f.audio_tag_refer, Some(OTHER));
}

#[test]
fn tag_without_id3_uses_filename() {
    let tag = AudioTag::new_with(None, OTHER, "track01.aiff", None);
    assert_eq!(tag.id, Some(OTHER));
    assert_eq!(tag.title.as_deref(), Some("track01.aiff"));
    assert_eq!(tag.property_hash, None);
    assert_eq!(tag.artist, None);
}

#[test]
fn tag_keeps_given_id() {
    let tag = AudioTag::new_with(Some(ID), OTHER, "x.aiff", None);
    assert_eq!(tag.id, Some(ID));
}

#[test]
fn tag_from_id3_frames_and_dates() {
    let mut id3 = empty_id3();
    id3.artist = Some("Miles Davis".to_string());
    id3.title = Some("So What".to_string());
    id3.year = Some(1959);
    id3.date_recorded = Some(date(1959, Some(3), Some(2)));
    id3.date_released = Some(date(1970, None, None));
    id3.track = Some(1);
    let tag = AudioTag::new_with(None, ID, "so_what.aiff", Some(id3));
    assert_eq!(tag.artist.as_deref(), Some("Miles Davis"));
    assert_eq!(tag.title.as_deref(), Some("So What"));
    assert_eq!(tag.track, Some(1));
    assert_eq!(tag.date_released, Some(0));
    assert_eq!(tag.date_recorded, Some(-341971200));
    assert!(tag.property_hash.is_some());
}

#[test]
fn equal_properties_give_equal_hash() {
    let mut a = empty_id3();
    a.artist = Some("A".to_string());
    a.genre = Some("jazz".to_string());
    let mut b = empty_id3();
    b.artist = Some("A".to_string());
    b.genre = Some("rock".to_string());
    let ta = AudioTag::new(None, "a.aiff", Some(a));
    let tb = AudioTag::new(Some(OTHER), "b.aiff", Some(b));
    assert_eq!(ta.property_hash, tb.property_hash);
    let mut c = empty_id3();
    c.artist = Some("B".to_string());
    let tc = AudioTag::new(None, "c.aiff", Some(c));
    assert_ne!(ta.property_hash, tc.property_hash);
}

#[test]
fn id3_dates_to_utc() {
    assert_eq!(id3_timestamp_to_utc(&date(1970, None, None)), 0);
    assert_eq!(id3_timestamp_to_utc(&date(2000, Some(1), Some(1))), 946684800);
    let full = Id3Timestamp { year: 2020, month: Some(2), day: Some(29), hour: Some(12), minute: Some(30), second: Some(15) };
    assert_eq!(id3_timestamp_to_utc(&full), 1582979415);
    assert_eq!(optional_id3_timestamp(&None), None);
}

#[test]
fn hashed_value_is_deterministic() {
    let a = get_hashed_value(&[1, 2, 3]);
    let b = get_hashed_value(&[1, 2, 3]);
    assert_eq!(a, b);
    assert_ne!(a, get_hashed_value(&[3, 2, 1]));
    let mut h = DefaultHasher::new();
    [1u8, 2, 3][..].hash(&mut h);
    assert_eq!(a, h.finish() as i64);
    let mut h = DefaultHasher::new();
    let empty: &[u8] = &[];
    empty.hash(&mut h);
    assert_eq!(get_hashed_value(&[]), h.finish() as i64);
}

#[test]
fn new_records_get_fresh_ids() {
    let a = AudioFile::new("music", "a.aiff", 1);
    let b = AudioFile::new("music", "a.aiff", 1);
    assert!(a.id.is_some());
    assert_ne!(a.id, b.id);
    assert_eq!(a.filename, "a.aiff");
    let t = AudioTag::new(None, "x.aiff", None);
    assert!(t.id.is_some());
    assert_eq!(AudioTag::new(Some(ID), "x.aiff", None).id, Some(ID));
}

fn utc(t: &Id3Timestamp) -> chrono::DateTime<chrono::Utc> {
    chrono::Utc
        .with_ymd_and_hms(
            t.year,
            t.month.unwrap_or(1).into(),
            t.day.unwrap_or(1).into(),
            t.hour.unwrap_or(0).into(),
            t.minute.unwrap_or(0).into(),
            t.second.unwrap_or(0).into(),
        )
        .unwrap()
}

#[test]
fn property_hash_is_std_hash_of_properties() {
    let mut id3 = empty_id3();
    id3.artist = Some("Miles Davis".to_string());
    id3.album = Some("Kind of Blue".to_string());
    id3.date_recorded = Some(Id3Timestamp { year: 1959, month: Some(3), day: Some(2), hour: Some(14), minute: None, second: None });
    id3.year = Some(1959);
    id3.genre = Some("jazz".to_string());
    let mut h = DefaultHasher::new();
    id3.artist.hash(&mut h);
    id3.album.hash(&mut h);
    id3.date_recorded.as_ref().map(utc).hash(&mut h);
    id3.date_released.as_ref().map(utc).hash(&mut h);
    id3.title.hash(&mut h);
    id3.year.hash(&mut h);
    let expected = h.finish() as i64;
    let tag = AudioTag::new_with(None, ID, "x.aiff", Some(id3));
    assert_eq!(tag.property_hash, Some(expected));
}

#[test]
fn pictures_are_kept() {
    let mut id3 = empty_id3();
    id3.pictures.push(AudioFileMetadataPicture {
        description: "cover".to_string(),
        mime_type: "image/png".to_string(),
        picture_type: "Front cover".to_string(),
        data: vec![1, 2, 3],
    });
    let tag = AudioTag::new_with(None, ID, "x.aiff", Some(id3));
    assert_eq!(tag.pictures.len(), 1);
    assert_eq!(tag.pictures[0].description, "cover");
    assert_eq!(tag.pictures[0].data, vec![1, 2, 3]);
    assert!(AudioTag::new_with(None, ID, "x.aiff", None).pictures.is_empty());
}

#[test]
fn tag_from_bytes_reads_id3() {
    let mut t = id3::Tag::new();
    id3::TagLike::set_artist(&mut t, "Bill Evans");
    id3::TagLike::set_title(&mut t, "Peace Piece");
    id3::TagLike::set_year(&mut t, 1959);
    let mut bytes: Vec<u8> = Vec::new();
    t.write_to(&mut bytes, id3::Version::Id3v24).unwrap();
    let tag = cirrus::dto::tag_from_bytes(Some(ID), "p.aiff", &bytes).unwrap();
    assert_eq!(tag.id, Some(ID));
    assert_eq!(tag.artist.as_deref(), Some("Bill Evans"));
    assert_eq!(tag.title.as_deref(), Some("Peace Piece"));
    assert_eq!(tag.year, Some(1959));
    assert!(tag.property_hash.is_some());
    let plain = cirrus::dto::tag_from_bytes(None, "q.aiff", &[1, 2, 3]).unwrap();
    assert_eq!(plain.title.as_deref(), Some("q.aiff"));
    assert_eq!(plain.property_hash, None);
}

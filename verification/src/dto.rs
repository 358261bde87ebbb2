//! The records that the service stores for audio libraries, audio files
//! and audio tags.
//!
//! Identifiers are the twelve bytes of a database object id.

use vstd::prelude::*;

use crate::hash::{hash_tag_properties, tag_properties_hash};
pub use crate::tag::AudioFileMetadataPicture;
use crate::tag::{
    is_id3_tag_of, optional_date_is_valid, optional_date_valid, optional_date_timestamp, optional_id3_timestamp, read_id3_tag,
    Id3Tag,
};
use crate::path::{
    common_path, is_materialized_shape, is_platform_separator, main_separator, materialized,
    materialize_with, replace_separator, unmaterialized, materialized_to_path,
};

verus! {

/// The bytes of a database object id.
pub type ObjectIdBytes = [u8; 12];

/// bson's `ObjectId::new`: a new object id, made of the time, a number
/// drawn once for the process and a counter. Its bytes depend on the clock
/// and on chance, so the contract states nothing of them.
#[verifier::external_body]
pub(crate) fn new_object_id() -> (res: ObjectIdBytes) {
    bson::oid::ObjectId::new().bytes()
}

/// Gives the key under which a record keeps its materialized path.
pub trait GetPathKey {
    /// The name of the field that holds the materialized path.
    fn get_mat_path_key() -> &'static str;
}

/// Gives the materialized path that a record is filed under.
pub trait GetPathValue {
    /// The materialized path of the record.
    fn get_mat_path_val(&self) -> &str;
}

/// A stored audio library: a directory that holds audio files.
pub struct AudioLibrary {
    pub id: Option<ObjectIdBytes>,
    pub materialized_path: String,
    pub os_path: String,
    pub modified_timestamp: i64,
}

impl Clone for AudioLibrary {
    fn clone(&self) -> (res: Self)
        ensures
            res == *self,
    {
        AudioLibrary {
            id: self.id,
            materialized_path: self.materialized_path.clone(),
            os_path: self.os_path.clone(),
            modified_timestamp: self.modified_timestamp,
        }
    }
}

impl AudioLibrary {
    /// The record of the library at `path`, written with the separator
    /// `separator`, under the id `id`, last modified at
    /// `modified_timestamp`.
    pub fn new_with(id: ObjectIdBytes, path: &str, modified_timestamp: i64, separator: char) -> (res: Self)
        ensures
            res.id == Some(id),
            res.os_path@ == common_path(path@, separator),
            res.materialized_path@ == materialized(path@, separator),
            res.modified_timestamp == modified_timestamp,
    {
        AudioLibrary {
            id: Some(id),
            materialized_path: materialize_with(path, separator),
            os_path: replace_separator(path, separator),
            modified_timestamp,
        }
    }

    /// The record of the library at `path`, last modified at
    /// `modified_timestamp`, under a new id: its path in the common form
    /// and in the materialized form.
    pub fn new(path: &str, modified_timestamp: i64) -> (res: Self)
        ensures
            res.id is Some,
            res.modified_timestamp == modified_timestamp,
            exists|sep: char|
                {
                    &&& is_platform_separator(sep)
                    &&& res.os_path@ == common_path(path@, sep)
                    &&& res.materialized_path@ == materialized(path@, sep)
                },
    {
        let sep = main_separator();
        let id = new_object_id();
        let res = Self::new_with(id, path, modified_timestamp, sep);
        assert(is_platform_separator(sep) && res.os_path@ == common_path(path@, sep)
            && res.materialized_path@ == materialized(path@, sep));
        res
    }

    /// Whether the directory changed since the record was written: its
    /// modification time on disk, `local_timestamp`, differs from the
    /// stored one.
    pub fn check_modified(&self, local_timestamp: i64) -> (res: bool)
        ensures
            res == (local_timestamp != self.modified_timestamp),
    {
        local_timestamp != self.modified_timestamp
    }
}


impl GetPathKey for AudioLibrary {
    fn get_mat_path_key() -> (res: &'static str)
        ensures
            res@ == "materialized_path"@,
    {
        "materialized_path"
    }
}

impl GetPathValue for AudioLibrary {
    fn get_mat_path_val(&self) -> (res: &str)
        ensures
            res@ == self.materialized_path@,
    {
        self.materialized_path.as_str()
    }
}

/// A stored audio file: the materialized path of its directory and its
/// file name, the tag that describes it if one was made.
pub struct AudioFile {
    pub id: Option<ObjectIdBytes>,
    pub modified_timestamp: i64,
    pub parent_path: String,
    pub filename: String,
    pub audio_tag_refer: Option<ObjectIdBytes>,
}

impl Clone for AudioFile {
    fn clone(&self) -> (res: Self)
        ensures
            res == *self,
    {
        AudioFile {
            id: self.id,
            modified_timestamp: self.modified_timestamp,
            parent_path: self.parent_path.clone(),
            filename: self.filename.clone(),
            audio_tag_refer: self.audio_tag_refer,
        }
    }
}

impl AudioFile {
    /// The record of the file `filename` in the directory `parent_path`,
    /// written with the separator `separator`, under the id `id`, last
    /// modified at `modified_timestamp`, with no tag yet.
    pub fn new_with(
        id: ObjectIdBytes,
        parent_path: &str,
        filename: &str,
        modified_timestamp: i64,
        separator: char,
    ) -> (res: Self)
        ensures
            res.id == Some(id),
            res.modified_timestamp == modified_timestamp,
            res.parent_path@ == materialized(parent_path@, separator),
            res.filename@ == filename@,
            res.audio_tag_refer == None::<ObjectIdBytes>,
    {
        AudioFile {
            id: Some(id),
            modified_timestamp,
            parent_path: materialize_with(parent_path, separator),
            filename: filename.to_owned(),
            audio_tag_refer: None,
        }
    }

    /// The record of the file `filename` in the directory `parent_path`,
    /// last modified at `modified_timestamp`, under a new id, with no tag
    /// yet; the directory is stored in the materialized form.
    pub fn new(parent_path: &str, filename: &str, modified_timestamp: i64) -> (res: Self)
        ensures
            res.id is Some,
            res.modified_timestamp == modified_timestamp,
            res.filename@ == filename@,
            res.audio_tag_refer == None::<ObjectIdBytes>,
            exists|sep: char|
                is_platform_separator(sep) && res.parent_path@ == materialized(parent_path@, sep),
    {
        let sep = main_separator();
        let id = new_object_id();
        let res = Self::new_with(id, parent_path, filename, modified_timestamp, sep);
        assert(is_platform_separator(sep) && res.parent_path@ == materialized(parent_path@, sep));
        res
    }

    /// Whether the file changed since the record was written: its
    /// modification time on disk, `local_timestamp`, differs from the
    /// stored one.
    pub fn check_modified(&self, local_timestamp: i64) -> (res: bool)
        ensures
            res == (local_timestamp != self.modified_timestamp),
    {
        local_timestamp != self.modified_timestamp
    }

    /// The path of the file's directory, read back from its materialized
    /// form; the file's own path is this directory joined with the file
    /// name.
    pub fn get_parent_os_path(&self) -> (res: String)
        requires
            is_materialized_shape(self.parent_path@),
        ensures
            res@ == unmaterialized(self.parent_path@),
    {
        materialized_to_path(self.parent_path.as_str())
    }

    /// Records `timestamp`, the file's modification time on disk, as the
    /// time the record was last brought up to date.
    pub fn update_modified_timestamp(&mut self, timestamp: i64)
        ensures
            *final(self) == (AudioFile { modified_timestamp: timestamp, ..*old(self) }),
    {
        self.modified_timestamp = timestamp;
    }

    /// Points the record at the tag `tag_id` made for the file.
    pub fn set_audio_tag_refer(&mut self, tag_id: ObjectIdBytes)
        ensures
            *final(self) == (AudioFile { audio_tag_refer: Some(tag_id), ..*old(self) }),
    {
        self.audio_tag_refer = Some(tag_id);
    }
}

impl GetPathKey for AudioFile {
    fn get_mat_path_key() -> (res: &'static str)
        ensures
            res@ == "parent_path"@,
    {
        "parent_path"
    }
}

impl GetPathValue for AudioFile {
    fn get_mat_path_val(&self) -> (res: &str)
        ensures
            res@ == self.parent_path@,
    {
        self.parent_path.as_str()
    }
}


/// A stored audio tag: what the ID3 tag of an audio file says, its dates
/// as UTC timestamps, and a hash of its identifying properties.
pub struct AudioTag {
    pub id: Option<ObjectIdBytes>,
    pub property_hash: Option<i64>,
    pub artist: Option<String>,
    pub album: Option<String>,
    pub album_artist: Option<String>,
    pub date_recorded: Option<i64>,
    pub date_released: Option<i64>,
    pub disc: Option<u32>,
    pub duration: Option<u32>,
    pub genre: Option<String>,
    pub pictures: Vec<AudioFileMetadataPicture>,
    pub title: Option<String>,
    pub total_discs: Option<u32>,
    pub total_tracks: Option<u32>,
    pub track: Option<u32>,
    pub year: Option<i32>,
}

/// The id a new tag gets: the given one, else the fresh one.
pub open spec fn resolved_tag_id(id: Option<ObjectIdBytes>, fresh_id: ObjectIdBytes) -> ObjectIdBytes {
    match id {
        Some(i) => i,
        None => fresh_id,
    }
}

/// Whether the dates of an ID3 tag, where there is one, exist.
pub open spec fn id3_dates_are_valid(id3: Option<Id3Tag>) -> bool {
    match id3 {
        Some(t) => optional_date_is_valid(t.date_recorded) && optional_date_is_valid(t.date_released),
        None => true,
    }
}

/// Whether the dates of an ID3 tag, where there is one, exist: a tag can be
/// made from it.
pub fn id3_dates_valid(id3: &Option<Id3Tag>) -> (res: bool)
    ensures
        res == id3_dates_are_valid(*id3),
{
    match id3 {
        Some(t) => optional_date_valid(&t.date_recorded) && optional_date_valid(&t.date_released),
        None => true,
    }
}

/// Whether `res` is the tag made for the file `filename` from its ID3 tag
/// `id3`, under the id `id`, or `fresh_id` where none is given.
///
/// With an ID3 tag, the stored tag holds its frames, its dates as UTC
/// timestamps (a missing month or day is the first, a missing time is
/// midnight) and the hash of its artist, album, dates, title and year.
/// Without one, the tag holds only the file name as its title.
pub open spec fn made_tag(res: AudioTag, fresh_id: ObjectIdBytes, id: Option<ObjectIdBytes>, filename: Seq<char>, id3: Option<Id3Tag>) -> bool {
    &&& res.id == Some(resolved_tag_id(id, fresh_id))
    &&& match id3 {
        Some(t) => {
            &&& res.artist == t.artist
            &&& res.album == t.album
            &&& res.album_artist == t.album_artist
            &&& res.date_recorded == optional_date_timestamp(t.date_recorded)
            &&& res.date_released == optional_date_timestamp(t.date_released)
            &&& res.disc == t.disc
            &&& res.duration == t.duration
            &&& res.genre == t.genre
            &&& res.title == t.title
            &&& res.total_discs == t.total_discs
            &&& res.total_tracks == t.total_tracks
            &&& res.track == t.track
            &&& res.year == t.year
            &&& res.pictures == t.pictures
            &&& res.property_hash == Some(tag_properties_hash(t.artist, t.album,
                t.date_recorded, t.date_released, t.title, t.year))
        },
        None => {
            &&& res.property_hash == None::<i64>
            &&& res.artist == None::<String>
            &&& res.album == None::<String>
            &&& res.album_artist == None::<String>
            &&& res.date_recorded == None::<i64>
            &&& res.date_released == None::<i64>
            &&& res.disc == None::<u32>
            &&& res.duration == None::<u32>
            &&& res.genre == None::<String>
            &&& res.title matches Some(title) && title@ == filename
            &&& res.total_discs == None::<u32>
            &&& res.total_tracks == None::<u32>
            &&& res.track == None::<u32>
            &&& res.year == None::<i32>
            &&& res.pictures@.len() == 0
        },
    }
}

impl AudioTag {
    /// The tag made for the audio file `filename` from its ID3 tag `id3`,
    /// under the id `id`, or `fresh_id` where none is given.
    ///
    /// With an ID3 tag, the stored tag holds its frames, its dates as UTC
    /// timestamps (a missing month or day is the first, a missing time is
    /// midnight) and the hash of its artist, album, dates, title and year.
    /// Without one, the tag holds only the file name as its title.
    pub fn new_with(id: Option<ObjectIdBytes>, fresh_id: ObjectIdBytes, filename: &str, id3: Option<Id3Tag>) -> (res: Self)
        requires
            id3_dates_are_valid(id3),
        ensures
            made_tag(res, fresh_id, id, filename@, id3),
    {
        let id = match id {
            Some(i) => i,
            None => fresh_id,
        };
        match id3 {
            Some(t) => {
                let date_recorded = optional_id3_timestamp(&t.date_recorded);
                let date_released = optional_id3_timestamp(&t.date_released);
                let hash = hash_tag_properties(&t.artist, &t.album, &t.date_recorded, &t.date_released, &t.title, t.year);
                AudioTag {
                    id: Some(id),
                    property_hash: Some(hash),
                    artist: t.artist,
                    album: t.album,
                    album_artist: t.album_artist,
                    date_recorded,
                    date_released,
                    disc: t.disc,
                    duration: t.duration,
                    genre: t.genre,
                    pictures: t.pictures,
                    title: t.title,
                    total_discs: t.total_discs,
                    total_tracks: t.total_tracks,
                    track: t.track,
                    year: t.year,
                }
            },
            None => AudioTag {
                id: Some(id),
                property_hash: None,
                artist: None,
                album: None,
                album_artist: None,
                date_recorded: None,
                date_released: None,
                disc: None,
                duration: None,
                genre: None,
                pictures: Vec::new(),
                title: Some(filename.to_owned()),
                total_discs: None,
                total_tracks: None,
                track: None,
                year: None,
            },
        }
    }
}

impl AudioTag {
    /// The tag made for the audio file `filename` from its ID3 tag `id3`,
    /// under the id `id`, or under a new id where none is given; what it
    /// holds is as `new_with` says.
    pub fn new(id: Option<ObjectIdBytes>, filename: &str, id3: Option<Id3Tag>) -> (res: Self)
        requires
            id3_dates_are_valid(id3),
        ensures
            res.id is Some,
            id is Some ==> res.id == id,
            exists|fresh_id: ObjectIdBytes| #[trigger] made_tag(res, fresh_id, id, filename@, id3),
    {
        let fresh_id = match id {
            Some(i) => i,
            None => new_object_id(),
        };
        let res = Self::new_with(id, fresh_id, filename, id3);
        assert(made_tag(res, fresh_id, id, filename@, id3));
        res
    }
}

/// Tags made from ID3 tags that agree on artist, album, dates, title and
/// year have the same property hash, whatever their other frames, their
/// files and their ids.
pub proof fn equal_properties_equal_hash(
    a: AudioTag,
    b: AudioTag,
    fresh_a: ObjectIdBytes,
    fresh_b: ObjectIdBytes,
    id_a: Option<ObjectIdBytes>,
    id_b: Option<ObjectIdBytes>,
    file_a: Seq<char>,
    file_b: Seq<char>,
    tag_a: Id3Tag,
    tag_b: Id3Tag,
)
    requires
        made_tag(a, fresh_a, id_a, file_a, Some(tag_a)),
        made_tag(b, fresh_b, id_b, file_b, Some(tag_b)),
        tag_a.artist == tag_b.artist,
        tag_a.album == tag_b.album,
        tag_a.date_recorded == tag_b.date_recorded,
        tag_a.date_released == tag_b.date_released,
        tag_a.title == tag_b.title,
        tag_a.year == tag_b.year,
    ensures
        a.property_hash == b.property_hash,
        a.property_hash is Some,
{
}

/// The tag made for the audio file `filename` from the ID3 tag read from
/// its bytes `bytes`, under the id `id` or a new one; `None` where a date
/// of that ID3 tag does not exist, so that no tag can be made.
pub fn tag_from_bytes(id: Option<ObjectIdBytes>, filename: &str, bytes: &[u8]) -> (res: Option<AudioTag>)
    ensures
        exists|g: Option<Id3Tag>| #[trigger] is_id3_tag_of(g, bytes@)
            && (res is None <==> !id3_dates_are_valid(g))
            && (res matches Some(t) ==> (exists|fresh: ObjectIdBytes| #[trigger] made_tag(t, fresh, id, filename@, g))),
        res matches Some(t) ==> t.id is Some && (id is Some ==> t.id == id),
{
    let id3 = read_id3_tag(bytes);
    let ghost g = id3;
    if !id3_dates_valid(&id3) {
        assert(is_id3_tag_of(g, bytes@));
        return None;
    }
    let t = AudioTag::new(id, filename, id3);
    assert(is_id3_tag_of(g, bytes@));
    Some(t)
}

} // verus!

//! Pages of stored tags and the answers that list them.

use vstd::prelude::*;

use crate::dto::{AudioTag, ObjectIdBytes};

verus! {

/// One listed tag: its id in hexadecimal, its artist, genre and title.
pub struct AudioTagRes {
    pub id: String,
    pub artist: String,
    pub genre: String,
    pub title: String,
}

/// The lowercase hexadecimal digit of `v`, a number below 16.
pub open spec fn hex_digit(v: u8) -> char {
    if v < 10 {
        (48 + v) as char
    } else {
        (87 + v) as char
    }
}

/// The lowercase hexadecimal text of `bytes`: two digits a byte, the high
/// half first.
pub open spec fn hex_lower(bytes: Seq<u8>) -> Seq<char> {
    Seq::new(
        2 * bytes.len(),
        |i: int| if i % 2 == 0 { hex_digit(bytes[i / 2] / 16) } else { hex_digit(bytes[i / 2] % 16) },
    )
}

/// bson's `ObjectId::to_hex` of the object id with these bytes: its bytes
/// in lowercase hexadecimal (bson encodes them with `hex::encode`).
#[verifier::external_body]
fn object_id_hex(id: ObjectIdBytes) -> (res: String)
    ensures
        res@ == hex_lower(id@),
{
    bson::oid::ObjectId::from_bytes(id).to_hex()
}

/// Whether a stored tag can be listed: it has an id, an artist, a genre
/// and a title.
pub open spec fn is_listable(tag: AudioTag) -> bool {
    &&& tag.id is Some
    &&& tag.artist is Some
    &&& tag.genre is Some
    &&& tag.title is Some
}

/// Whether `res` lists `tag`.
pub open spec fn lists(res: AudioTagRes, tag: AudioTag) -> bool {
    &&& res.id@ == hex_lower(tag.id->0@)
    &&& res.artist@ == tag.artist->0@
    &&& res.genre@ == tag.genre->0@
    &&& res.title@ == tag.title->0@
}

/// The answers that list the stored tags `tags`, in their order.
pub fn list_audio_tags(tags: &Vec<AudioTag>) -> (res: Vec<AudioTagRes>)
    requires
        forall|i: int| 0 <= i < tags@.len() ==> is_listable(#[trigger] tags@[i]),
    ensures
        res@.len() == tags@.len(),
        forall|i: int| 0 <= i < tags@.len() ==> lists(#[trigger] res@[i], tags@[i]),
{
    let mut res: Vec<AudioTagRes> = Vec::new();
    let mut i: usize = 0;
    while i < tags.len()
        invariant
            i <= tags@.len(),
            res@.len() == i,
            forall|j: int| 0 <= j < tags@.len() ==> is_listable(#[trigger] tags@[j]),
            forall|j: int| 0 <= j < i ==> lists(#[trigger] res@[j], tags@[j]),
        decreases tags@.len() - i,
    {
        let tag = &tags[i];
        assert(is_listable(tags@[i as int]));
        let id = match tag.id {
            Some(id) => id,
            None => {
                assert(false);
                [0u8; 12]
            },
        };
        let artist = match &tag.artist {
            Some(a) => a.clone(),
            None => String::new(),
        };
        let genre = match &tag.genre {
            Some(g) => g.clone(),
            None => String::new(),
        };
        let title = match &tag.title {
            Some(t) => t.clone(),
            None => String::new(),
        };
        res.push(AudioTagRes { id: object_id_hex(id), artist, genre, title });
        i = i + 1;
    }
    res
}

/// The number of items that come before page `page` (counted from 1) when
/// each page holds `limit` items.
pub fn page_skip(limit: i64, page: u64) -> (res: u64)
    requires
        page >= 1,
        (limit as u64) * (page - 1) <= u64::MAX,
    ensures
        res == (limit as u64) * (page - 1),
{
    (limit as u64) * (page - 1)
}

} // verus!

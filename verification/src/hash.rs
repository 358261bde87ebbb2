//! Hashes in the way std's `DefaultHasher` computes them from the writes
//! that `Hash` makes: of a byte slice, and of the identifying properties of
//! a tag (its artist, album, dates of recording and release, title and
//! year).
//!
//! std's `Hash` writes a number in the byte order of the machine and a
//! `usize` or `isize` in its width; those writes are made here by std's own
//! `Hasher` methods, and named.

use std::collections::hash_map::DefaultHasher;
use std::hash::Hasher;

use chrono::TimeZone;

use vstd::prelude::*;
use vstd::std_specs::hash::DefaultHasherAdditionalSpecFns;
use vstd::utf8::encode_utf8;

use crate::tag::{
    day_or_default, is_valid_datetime, month_or_default, optional_date_is_valid, time_or_zero, Id3Timestamp,
};

verus! {

/// The writes that std's `Hasher::write_usize` makes on a `DefaultHasher`
/// for `v`: its bytes in the machine's width and byte order.
pub uninterp spec fn usize_hash_writes(v: usize) -> Seq<Seq<u8>>;

/// The writes that std's `Hasher::write_isize` makes on a `DefaultHasher`
/// for `v`: its bytes in the machine's width and byte order. An enum's
/// `Hash` writes its discriminant so.
pub uninterp spec fn isize_hash_writes(v: isize) -> Seq<Seq<u8>>;

/// The writes that std's `Hasher::write_i32` makes on a `DefaultHasher`
/// for `v`: its four bytes in the machine's byte order.
pub uninterp spec fn i32_hash_writes(v: i32) -> Seq<Seq<u8>>;

/// The writes of `Hash` for a byte slice of a length that fits a `usize`:
/// its length, then its bytes.
pub open spec fn slice_writes(target: Seq<u8>) -> Seq<Seq<u8>> {
    usize_hash_writes(target.len() as usize).push(target)
}

/// The hash of `target` as std's `DefaultHasher` computes it from the
/// writes of `Hash` for the slice, read as a signed number.
pub open spec fn hashed_value(target: Seq<u8>) -> i64 {
    DefaultHasher::spec_finish(slice_writes(target)) as i64
}

/// The writes that chrono's `Hash` makes for the UTC date and time with
/// these fields: those of its date and of its time of day, each a number
/// in the machine's byte order. chrono computes them.
pub uninterp spec fn utc_datetime_hash_writes(year: i32, month: u32, day: u32, hour: u32, minute: u32, second: u32) -> Seq<Seq<u8>>;

/// The writes of `Hash` for an optional text: the discriminant, then, for
/// a text, its UTF-8 bytes and the byte `0xff`.
pub open spec fn text_writes(o: Option<String>) -> Seq<Seq<u8>> {
    match o {
        None => isize_hash_writes(0),
        Some(s) => isize_hash_writes(1) + seq![encode_utf8(s@), seq![0xffu8]],
    }
}

/// The writes of `Hash` for an optional ID3 date, completed with the
/// defaults and taken as a UTC date and time.
pub open spec fn date_writes(o: Option<Id3Timestamp>) -> Seq<Seq<u8>> {
    match o {
        None => isize_hash_writes(0),
        Some(t) => isize_hash_writes(1) + utc_datetime_hash_writes(t.year, month_or_default(t), day_or_default(t),
            time_or_zero(t.hour), time_or_zero(t.minute), time_or_zero(t.second)),
    }
}

/// The writes of `Hash` for an optional year: the discriminant, then the
/// year as a 32-bit number.
pub open spec fn year_writes(o: Option<i32>) -> Seq<Seq<u8>> {
    match o {
        None => isize_hash_writes(0),
        Some(y) => isize_hash_writes(1) + i32_hash_writes(y),
    }
}

/// The writes of `Hash` for a tag's identifying properties, in order.
pub open spec fn property_writes(
    artist: Option<String>,
    album: Option<String>,
    date_recorded: Option<Id3Timestamp>,
    date_released: Option<Id3Timestamp>,
    title: Option<String>,
    year: Option<i32>,
) -> Seq<Seq<u8>> {
    text_writes(artist) + text_writes(album) + date_writes(date_recorded) + date_writes(date_released)
        + text_writes(title) + year_writes(year)
}

/// The hash of a tag's identifying properties, read as a signed number.
pub open spec fn tag_properties_hash(
    artist: Option<String>,
    album: Option<String>,
    date_recorded: Option<Id3Timestamp>,
    date_released: Option<Id3Timestamp>,
    title: Option<String>,
    year: Option<i32>,
) -> i64 {
    DefaultHasher::spec_finish(property_writes(artist, album, date_recorded, date_released, title, year)) as i64
}

proof fn lemma_middle_cancels(a: Seq<Seq<u8>>, x: Seq<Seq<u8>>, y: Seq<Seq<u8>>, b: Seq<Seq<u8>>)
    requires
        a + x + b == a + y + b,
    ensures
        x == y,
{
    assert((a + x + b).len() == (a + y + b).len());
    assert((a + x + b).len() == a.len() + x.len() + b.len());
    assert((a + y + b).len() == a.len() + y.len() + b.len());
    assert(x.len() == y.len());
    assert((a + x + b).subrange(a.len() as int, (a.len() + x.len()) as int)
        == (a + y + b).subrange(a.len() as int, (a.len() + y.len()) as int));
    assert(x =~= (a + x + b).subrange(a.len() as int, (a.len() + x.len()) as int));
    assert(y =~= (a + y + b).subrange(a.len() as int, (a.len() + y.len()) as int));
}

proof fn lemma_text_writes_tell_texts_apart(s1: String, s2: String)
    requires
        text_writes(Some(s1)) == text_writes(Some(s2)),
    ensures
        s1@ == s2@,
{
    let d = isize_hash_writes(1);
    assert(text_writes(Some(s1))[d.len() as int] == encode_utf8(s1@));
    assert(text_writes(Some(s2))[d.len() as int] == encode_utf8(s2@));
    vstd::utf8::encode_utf8_decode_utf8(s1@);
    vstd::utf8::encode_utf8_decode_utf8(s2@);
}

/// Two tags whose identifying properties agree but for their titles, both
/// given and different as texts, are hashed from different writes: the
/// title takes part in a tag's property hash.
pub proof fn titles_change_property_writes(
    artist: Option<String>,
    album: Option<String>,
    date_recorded: Option<Id3Timestamp>,
    date_released: Option<Id3Timestamp>,
    title1: String,
    title2: String,
    year: Option<i32>,
)
    requires
        title1@ != title2@,
    ensures
        property_writes(artist, album, date_recorded, date_released, Some(title1), year)
            != property_writes(artist, album, date_recorded, date_released, Some(title2), year),
{
    let a = text_writes(artist) + text_writes(album) + date_writes(date_recorded) + date_writes(date_released);
    let b = year_writes(year);
    if property_writes(artist, album, date_recorded, date_released, Some(title1), year)
        == property_writes(artist, album, date_recorded, date_released, Some(title2), year) {
        lemma_middle_cancels(a, text_writes(Some(title1)), text_writes(Some(title2)), b);
        lemma_text_writes_tell_texts_apart(title1, title2);
    }
}

/// Two tags whose identifying properties agree but for their artists, both
/// given and different as texts, are hashed from different writes.
pub proof fn artists_change_property_writes(
    artist1: String,
    artist2: String,
    album: Option<String>,
    date_recorded: Option<Id3Timestamp>,
    date_released: Option<Id3Timestamp>,
    title: Option<String>,
    year: Option<i32>,
)
    requires
        artist1@ != artist2@,
    ensures
        property_writes(Some(artist1), album, date_recorded, date_released, title, year)
            != property_writes(Some(artist2), album, date_recorded, date_released, title, year),
{
    let a = Seq::<Seq<u8>>::empty();
    let b = text_writes(album) + date_writes(date_recorded) + date_writes(date_released) + text_writes(title)
        + year_writes(year);
    if property_writes(Some(artist1), album, date_recorded, date_released, title, year)
        == property_writes(Some(artist2), album, date_recorded, date_released, title, year) {
        assert(a + text_writes(Some(artist1)) + b
            =~= property_writes(Some(artist1), album, date_recorded, date_released, title, year));
        assert(a + text_writes(Some(artist2)) + b
            =~= property_writes(Some(artist2), album, date_recorded, date_released, title, year));
        lemma_middle_cancels(a, text_writes(Some(artist1)), text_writes(Some(artist2)), b);
        lemma_text_writes_tell_texts_apart(artist1, artist2);
    }
}

/// Two tags whose identifying properties agree but for their albums, both
/// given and different as texts, are hashed from different writes.
pub proof fn albums_change_property_writes(
    artist: Option<String>,
    album1: String,
    album2: String,
    date_recorded: Option<Id3Timestamp>,
    date_released: Option<Id3Timestamp>,
    title: Option<String>,
    year: Option<i32>,
)
    requires
        album1@ != album2@,
    ensures
        property_writes(artist, Some(album1), date_recorded, date_released, title, year)
            != property_writes(artist, Some(album2), date_recorded, date_released, title, year),
{
    let a = text_writes(artist);
    let b = date_writes(date_recorded) + date_writes(date_released) + text_writes(title) + year_writes(year);
    if property_writes(artist, Some(album1), date_recorded, date_released, title, year)
        == property_writes(artist, Some(album2), date_recorded, date_released, title, year) {
        assert(a + text_writes(Some(album1)) + b
            =~= property_writes(artist, Some(album1), date_recorded, date_released, title, year));
        assert(a + text_writes(Some(album2)) + b
            =~= property_writes(artist, Some(album2), date_recorded, date_released, title, year));
        lemma_middle_cancels(a, text_writes(Some(album1)), text_writes(Some(album2)), b);
        lemma_text_writes_tell_texts_apart(album1, album2);
    }
}

/// std's `Hasher::write_usize` on a `DefaultHasher`: it adds the writes
/// `usize_hash_writes` names.
#[verifier::external_body]
fn hash_usize(hasher: &mut DefaultHasher, v: usize)
    ensures
        final(hasher)@ == old(hasher)@ + usize_hash_writes(v),
{
    hasher.write_usize(v)
}

/// std's `Hasher::write_isize` on a `DefaultHasher`: it adds the writes
/// `isize_hash_writes` names.
#[verifier::external_body]
fn hash_isize(hasher: &mut DefaultHasher, v: isize)
    ensures
        final(hasher)@ == old(hasher)@ + isize_hash_writes(v),
{
    hasher.write_isize(v)
}

/// std's `Hasher::write_i32` on a `DefaultHasher`: it adds the writes
/// `i32_hash_writes` names.
#[verifier::external_body]
fn hash_i32(hasher: &mut DefaultHasher, v: i32)
    ensures
        final(hasher)@ == old(hasher)@ + i32_hash_writes(v),
{
    hasher.write_i32(v)
}

/// chrono's `Hash` for `DateTime<Utc>`, on the UTC date and time with
/// these fields, made with `TimeZone::with_ymd_and_hms`: it adds the
/// writes `utc_datetime_hash_writes` names to the hasher.
#[verifier::external_body]
fn hash_utc_datetime(hasher: &mut DefaultHasher, year: i32, month: u32, day: u32, hour: u32, minute: u32, second: u32)
    requires
        is_valid_datetime(year, month, day, hour, minute, second),
    ensures
        final(hasher)@ == old(hasher)@ + utc_datetime_hash_writes(year, month, day, hour, minute, second),
{
    let t = chrono::Utc.with_ymd_and_hms(year, month, day, hour, minute, second).unwrap();
    std::hash::Hash::hash(&t, hasher);
}

/// Hashes the bytes `target` as `Hash` does for a slice, with a fresh
/// `DefaultHasher`: equal bytes give equal hashes.
pub fn get_hashed_value(target: &[u8]) -> (res: i64)
    ensures
        res == hashed_value(target@),
{
    let mut hasher = DefaultHasher::new();
    hash_usize(&mut hasher, target.len());
    hasher.write(target);
    assert(hasher@ =~= slice_writes(target@));
    hasher.finish() as i64
}

fn write_text(hasher: &mut DefaultHasher, o: &Option<String>)
    ensures
        final(hasher)@ == old(hasher)@ + text_writes(*o),
{
    match o {
        None => {
            hash_isize(hasher, 0);
        },
        Some(s) => {
            hash_isize(hasher, 1);
            hasher.write(s.as_str().as_bytes());
            let mut end: Vec<u8> = Vec::new();
            end.push(0xffu8);
            hasher.write(end.as_slice());
            assert(end@ =~= seq![0xffu8]);
            assert(final(hasher)@ =~= old(hasher)@ + text_writes(*o));
        },
    }
}

fn write_date(hasher: &mut DefaultHasher, o: &Option<Id3Timestamp>)
    requires
        optional_date_is_valid(*o),
    ensures
        final(hasher)@ == old(hasher)@ + date_writes(*o),
{
    match o {
        None => {
            hash_isize(hasher, 0);
        },
        Some(t) => {
            hash_isize(hasher, 1);
            let month: u32 = match t.month { Some(m) => m as u32, None => 1 };
            let day: u32 = match t.day { Some(d) => d as u32, None => 1 };
            let hour: u32 = match t.hour { Some(v) => v as u32, None => 0 };
            let minute: u32 = match t.minute { Some(v) => v as u32, None => 0 };
            let second: u32 = match t.second { Some(v) => v as u32, None => 0 };
            hash_utc_datetime(hasher, t.year, month, day, hour, minute, second);
            assert(final(hasher)@ =~= old(hasher)@ + date_writes(*o));
        },
    }
}

fn write_year(hasher: &mut DefaultHasher, o: Option<i32>)
    ensures
        final(hasher)@ == old(hasher)@ + year_writes(o),
{
    match o {
        None => {
            hash_isize(hasher, 0);
        },
        Some(y) => {
            hash_isize(hasher, 1);
            hash_i32(hasher, y);
            assert(final(hasher)@ =~= old(hasher)@ + year_writes(o));
        },
    }
}

/// Hashes a tag's identifying properties as `Hash` for the tag does, with
/// a fresh `DefaultHasher`: its artist, album, dates of recording and
/// release (each completed with the defaults and taken as UTC), title and
/// year, in this order.
pub fn hash_tag_properties(
    artist: &Option<String>,
    album: &Option<String>,
    date_recorded: &Option<Id3Timestamp>,
    date_released: &Option<Id3Timestamp>,
    title: &Option<String>,
    year: Option<i32>,
) -> (res: i64)
    requires
        optional_date_is_valid(*date_recorded),
        optional_date_is_valid(*date_released),
    ensures
        res == tag_properties_hash(*artist, *album, *date_recorded, *date_released, *title, year),
{
    let mut hasher = DefaultHasher::new();
    write_text(&mut hasher, artist);
    write_text(&mut hasher, album);
    write_date(&mut hasher, date_recorded);
    write_date(&mut hasher, date_released);
    write_text(&mut hasher, title);
    write_year(&mut hasher, year);
    assert(hasher@ =~= property_writes(*artist, *album, *date_recorded, *date_released, *title, year));
    hasher.finish() as i64
}

} // verus!

//! What an audio file's ID3 tag says, and how it becomes a stored tag:
//! dates written as UTC timestamps, and the bytes that identify the tag
//! for its property hash.

use chrono::TimeZone;
use id3::TagLike;

use vstd::prelude::*;

verus! {

/// A date of an ID3 tag: a year and, where the tag gives them, the month,
/// the day and the time of day.
pub struct Id3Timestamp {
    pub year: i32,
    pub month: Option<u8>,
    pub day: Option<u8>,
    pub hour: Option<u8>,
    pub minute: Option<u8>,
    pub second: Option<u8>,
}

/// A picture that the metadata of an audio file carries: its description,
/// MIME type, kind and data.
pub struct AudioFileMetadataPicture {
    pub description: String,
    pub mime_type: String,
    pub picture_type: String,
    pub data: Vec<u8>,
}

/// The frames of an ID3 tag that the stored tag keeps.
pub struct Id3Tag {
    pub artist: Option<String>,
    pub album: Option<String>,
    pub album_artist: Option<String>,
    pub date_recorded: Option<Id3Timestamp>,
    pub date_released: Option<Id3Timestamp>,
    pub disc: Option<u32>,
    pub duration: Option<u32>,
    pub genre: Option<String>,
    pub pictures: Vec<AudioFileMetadataPicture>,
    pub title: Option<String>,
    pub total_discs: Option<u32>,
    pub total_tracks: Option<u32>,
    pub track: Option<u32>,
    pub year: Option<i32>,
}

/// Whether `year` is a leap year of the proleptic Gregorian calendar.
pub open spec fn is_leap_year(year: int) -> bool {
    year % 4 == 0 && (year % 100 != 0 || year % 400 == 0)
}

/// The number of days of `month` in `year`.
pub open spec fn days_in_month(year: int, month: int) -> int {
    if month == 2 {
        if is_leap_year(year) { 29 } else { 28 }
    } else if month == 4 || month == 6 || month == 9 || month == 11 {
        30
    } else {
        31
    }
}

/// Whether the date and time exist and lie in the range of chrono's
/// dates (the years -262143 to 262142).
pub open spec fn is_valid_datetime(year: i32, month: u32, day: u32, hour: u32, minute: u32, second: u32) -> bool {
    &&& -262143 <= year <= 262142
    &&& 1 <= month <= 12
    &&& 1 <= day <= days_in_month(year as int, month as int)
    &&& hour < 24
    &&& minute < 60
    &&& second < 60
}

/// The number of days from 1970-01-01 to the date `y`-`m`-`d` of the
/// proleptic Gregorian calendar (negative before it), counted in eras of
/// 400 years that start on the first of March.
pub open spec fn days_from_civil(y: int, m: int, d: int) -> int {
    let ym = if m <= 2 { y - 1 } else { y };
    let era = ym / 400;
    let yoe = ym - era * 400;
    let mp = (m + 9) % 12;
    let doy = (153 * mp + 2) / 5 + d - 1;
    let doe = yoe * 365 + yoe / 4 - yoe / 100 + doy;
    era * 146097 + doe - 719468
}

/// The UTC timestamp of a date and time: the seconds since
/// 1970-01-01T00:00:00, leap seconds not counted.
pub open spec fn utc_timestamp(year: i32, month: u32, day: u32, hour: u32, minute: u32, second: u32) -> i64 {
    (days_from_civil(year as int, month as int, day as int) * 86400 + hour * 3600 + minute * 60 + second) as i64
}

/// chrono's `TimeZone::with_ymd_and_hms` for `Utc`, read with
/// `DateTime::timestamp`: `None` where the date or the time does not exist
/// (invalid input gives no time), else the number of non-leap seconds since
/// 1970-01-01T00:00:00 UTC, as chrono documents `timestamp`.
#[verifier::external_body]
fn utc_with_ymd_and_hms(year: i32, month: u32, day: u32, hour: u32, minute: u32, second: u32) -> (res: Option<i64>)
    ensures
        res == if is_valid_datetime(year, month, day, hour, minute, second) {
            Some(utc_timestamp(year, month, day, hour, minute, second))
        } else {
            None::<i64>
        },
{
    chrono::Utc.with_ymd_and_hms(year, month, day, hour, minute, second).single().map(|t| t.timestamp())
}

/// The month of an ID3 date; January where the tag gives none.
pub open spec fn month_or_default(t: Id3Timestamp) -> u32 {
    match t.month { Some(m) => m as u32, None => 1 }
}

/// The day of an ID3 date; the first where the tag gives none.
pub open spec fn day_or_default(t: Id3Timestamp) -> u32 {
    match t.day { Some(d) => d as u32, None => 1 }
}

/// A time field of an ID3 date; zero where the tag gives none.
pub open spec fn time_or_zero(f: Option<u8>) -> u32 {
    match f { Some(v) => v as u32, None => 0 }
}

/// Whether the ID3 date, completed with the defaults, exists.
pub open spec fn id3_date_is_valid(t: Id3Timestamp) -> bool {
    is_valid_datetime(t.year, month_or_default(t), day_or_default(t), time_or_zero(t.hour),
        time_or_zero(t.minute), time_or_zero(t.second))
}

/// The UTC timestamp of the ID3 date completed with the defaults.
pub open spec fn id3_date_timestamp(t: Id3Timestamp) -> i64 {
    utc_timestamp(t.year, month_or_default(t), day_or_default(t), time_or_zero(t.hour),
        time_or_zero(t.minute), time_or_zero(t.second))
}

/// Whether an optional ID3 date is absent or exists.
pub open spec fn optional_date_is_valid(t: Option<Id3Timestamp>) -> bool {
    match t { Some(t) => id3_date_is_valid(t), None => true }
}

/// The stored form of an optional ID3 date.
pub open spec fn optional_date_timestamp(t: Option<Id3Timestamp>) -> Option<i64> {
    match t { Some(t) => Some(id3_date_timestamp(t)), None => None }
}

fn field_or(f: Option<u8>, default: u32) -> (res: u32)
    ensures
        res == match f { Some(v) => v as u32, None => default },
{
    match f {
        Some(v) => v as u32,
        None => default,
    }
}

/// The UTC timestamp of an ID3 date: a missing month or day is the
/// first, a missing hour, minute or second is zero.
pub fn id3_timestamp_to_utc(t: &Id3Timestamp) -> (res: i64)
    requires
        id3_date_is_valid(*t),
    ensures
        res == id3_date_timestamp(*t),
{
    let month = field_or(t.month, 1);
    let day = field_or(t.day, 1);
    let hour = field_or(t.hour, 0);
    let minute = field_or(t.minute, 0);
    let second = field_or(t.second, 0);
    match utc_with_ymd_and_hms(t.year, month, day, hour, minute, second) {
        Some(ts) => ts,
        None => {
            assert(false);
            0
        },
    }
}

/// The stored form of an optional ID3 date.
pub fn optional_id3_timestamp(t: &Option<Id3Timestamp>) -> (res: Option<i64>)
    requires
        optional_date_is_valid(*t),
    ensures
        res == optional_date_timestamp(*t),
{
    match t {
        Some(t) => Some(id3_timestamp_to_utc(t)),
        None => None,
    }
}

/// Whether the date and time exist and lie in chrono's range of years.
pub fn datetime_is_valid(year: i32, month: u32, day: u32, hour: u32, minute: u32, second: u32) -> (res: bool)
    ensures
        res == is_valid_datetime(year, month, day, hour, minute, second),
{
    if year < -262143 || year > 262142 || month < 1 || month > 12 || hour >= 24 || minute >= 60 || second >= 60 {
        return false;
    }
    let shifted: u64 = (year as i64 + 400000) as u64;
    let leap: bool = shifted % 4 == 0 && (shifted % 100 != 0 || shifted % 400 == 0);
    assert(leap == is_leap_year(year as int)) by {
        assert(shifted == year + 400000);
        assert((year + 400000) % 4 == year % 4) by (nonlinear_arith);
        assert((year + 400000) % 100 == year % 100) by (nonlinear_arith);
        assert((year + 400000) % 400 == year % 400) by (nonlinear_arith);
    }
    let days: u32 = if month == 2 {
        if leap { 29 } else { 28 }
    } else if month == 4 || month == 6 || month == 9 || month == 11 {
        30
    } else {
        31
    };
    1 <= day && day <= days
}

/// Whether the ID3 date, completed with the defaults, exists.
pub fn id3_date_valid(t: &Id3Timestamp) -> (res: bool)
    ensures
        res == id3_date_is_valid(*t),
{
    datetime_is_valid(t.year, field_or(t.month, 1), field_or(t.day, 1), field_or(t.hour, 0),
        field_or(t.minute, 0), field_or(t.second, 0))
}

/// Whether an optional ID3 date is absent or exists.
pub fn optional_date_valid(t: &Option<Id3Timestamp>) -> (res: bool)
    ensures
        res == optional_date_is_valid(*t),
{
    match t {
        Some(t) => id3_date_valid(t),
        None => true,
    }
}

/// The frames of the ID3 tag that the `id3` crate reads from the bytes of
/// an audio file (an AIFF file's ID3 chunk among others), all but its dates
/// and pictures; `None` where it finds no tag.
pub uninterp spec fn id3_frames_of(bytes: Seq<u8>) -> Option<Id3Tag>;

/// The dates of recording and of release of the ID3 tag that the `id3`
/// crate reads from the bytes of an audio file; none where it finds no tag.
pub uninterp spec fn id3_dates_of(bytes: Seq<u8>) -> (Option<Id3Timestamp>, Option<Id3Timestamp>);

/// The pictures of the ID3 tag that the `id3` crate reads from the bytes of
/// an audio file, in its order; none where it finds no tag.
pub uninterp spec fn id3_pictures_of(bytes: Seq<u8>) -> Seq<AudioFileMetadataPicture>;

/// `id3::Tag::read_from2` on the bytes of an audio file, its frames but
/// the dates and pictures taken as plain values (what `id3_frames_of`
/// names), with no date and no picture.
#[verifier::external_body]
pub(crate) fn read_id3_frames(bytes: &[u8]) -> (res: Option<Id3Tag>)
    ensures
        res == id3_frames_of(bytes@),
        res matches Some(t) ==> t.pictures@.len() == 0,
{
    let t = id3::Tag::read_from2(std::io::Cursor::new(bytes)).ok()?;
    Some(Id3Tag { artist: t.artist().map(String::from), album: t.album().map(String::from), album_artist: t.album_artist().map(String::from),
        date_recorded: None, date_released: None, disc: t.disc(), duration: t.duration(),
        genre: t.genre().map(String::from), pictures: Vec::new(), title: t.title().map(String::from),
        total_discs: t.total_discs(), total_tracks: t.total_tracks(), track: t.track(), year: t.year() })
}

/// `id3::Tag::read_from2`, `date_recorded` and `date_released` on the
/// bytes of an audio file, each date taken as plain values: what
/// `id3_dates_of` names.
#[verifier::external_body]
pub(crate) fn read_id3_dates(bytes: &[u8]) -> (res: (Option<Id3Timestamp>, Option<Id3Timestamp>))
    ensures
        res == id3_dates_of(bytes@),
{
    let Ok(t) = id3::Tag::read_from2(std::io::Cursor::new(bytes)) else { return (None, None) };
    let d = |v: id3::Timestamp| Id3Timestamp { year: v.year, month: v.month, day: v.day, hour: v.hour, minute: v.minute, second: v.second };
    (t.date_recorded().map(d), t.date_released().map(d))
}

/// `id3::Tag::read_from2` and `Tag::pictures` on the bytes of an audio
/// file, each picture taken as plain values (its kind as `PictureType`
/// writes it): what `id3_pictures_of` names.
#[verifier::external_body]
pub(crate) fn read_id3_pictures(bytes: &[u8]) -> (res: Vec<AudioFileMetadataPicture>)
    ensures
        res@ == id3_pictures_of(bytes@),
{
    let Ok(t) = id3::Tag::read_from2(std::io::Cursor::new(bytes)) else { return Vec::new() };
    t.pictures().map(|v| AudioFileMetadataPicture { description: v.description.clone(), mime_type: v.mime_type.clone(),
        picture_type: v.picture_type.to_string(), data: v.data.clone() }).collect()
}

/// Whether `tag` is the ID3 tag read from the bytes of an audio file: its
/// frames, its dates and its pictures.
pub open spec fn is_id3_tag_of(tag: Option<Id3Tag>, bytes: Seq<u8>) -> bool {
    match (tag, id3_frames_of(bytes)) {
        (None, None) => true,
        (Some(g), Some(f)) => {
            &&& g == (Id3Tag {
                pictures: g.pictures,
                date_recorded: id3_dates_of(bytes).0,
                date_released: id3_dates_of(bytes).1,
                ..f
            })
            &&& g.pictures@ == id3_pictures_of(bytes)
        },
        _ => false,
    }
}

/// The ID3 tag read from the bytes of an audio file, with its dates and
/// pictures; `None` where there is none.
pub fn read_id3_tag(bytes: &[u8]) -> (res: Option<Id3Tag>)
    ensures
        is_id3_tag_of(res, bytes@),
{
    match read_id3_frames(bytes) {
        Some(mut t) => {
            let (recorded, released) = read_id3_dates(bytes);
            t.date_recorded = recorded;
            t.date_released = released;
            t.pictures = read_id3_pictures(bytes);
            Some(t)
        },
        None => None,
    }
}

} // verus!

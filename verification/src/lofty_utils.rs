//! Audio metadata adapter.
//!
//! Tag maps are plain key/value lists; a later entry with the same key
//! overrides an earlier one, as repeated inserts into a map would. From a
//! tag map two keys are derived: a short grouping key (duration plus
//! normalized title) and a full confirmation key (duration, artist, album
//! and title, with fallbacks), both built with the shared normalization.

use vstd::prelude::*;
use vstd::string::StringExecFns;
use vstd::string::StrSliceExecFns;

use crate::string_utils::normalize_option;
use crate::string_utils::spec_normalize;
use crate::string_utils::str_eq;

verus! {

/// The value of the last entry with the given key, if any.
pub open spec fn tag_value(tags: Seq<(String, String)>, key: Seq<char>) -> Option<Seq<char>>
    decreases tags.len(),
{
    if tags.len() == 0 {
        None
    } else if tags.last().0@ == key {
        Some(tags.last().1@)
    } else {
        tag_value(tags.drop_last(), key)
    }
}

/// The value of the last entry with the given key, or empty.
pub open spec fn spec_tag_or_empty(tags: Seq<(String, String)>, key: Seq<char>) -> Seq<char> {
    match tag_value(tags, key) {
        Some(v) => v,
        None => Seq::empty(),
    }
}

/// Normalization lifted to a looked-up value: a missing one is empty.
pub open spec fn spec_normalize_value(v: Option<Seq<char>>) -> Seq<char> {
    match v {
        Some(s) => spec_normalize(s),
        None => Seq::empty(),
    }
}

/// Look the key up in the tag map; the last matching entry wins.
pub fn get_tag<'a>(tags: &'a Vec<(String, String)>, key: &str) -> (r: Option<&'a String>)
    ensures
        match r {
            Some(v) => tag_value(tags@, key@) == Some(v@),
            None => tag_value(tags@, key@) is None,
        },
{
    let mut i: usize = tags.len();
    proof {
        assert(tags@.take(i as int) =~= tags@);
    }
    while i > 0
        invariant
            i <= tags@.len(),
            tag_value(tags@, key@) == tag_value(tags@.take(i as int), key@),
        decreases i,
    {
        i = i - 1;
        proof {
            assert(tags@.take(i + 1).last() == tags@[i as int]);
            assert(tags@.take(i + 1).drop_last() =~= tags@.take(i as int));
        }
        if str_eq(tags[i].0.as_str(), key) {
            return Some(&tags[i].1);
        }
    }
    proof {
        assert(tags@.take(0) =~= Seq::<(String, String)>::empty());
    }
    None
}

/// The looked-up value as an owned string, or empty when the key is absent.
pub fn tag_or_empty(tags: &Vec<(String, String)>, key: &str) -> (r: String)
    ensures
        r@ == spec_tag_or_empty(tags@, key@),
{
    match get_tag(tags, key) {
        Some(v) => v.clone(),
        None => String::new(),
    }
}

/// Relies on lofty: `Probe::open` and `Probe::read` parse the file,
/// `TaggedFileExt::primary_tag` and `Tag::items` expose its tag items, and
/// `AudioFile::properties` its duration. The result depends on what is on
/// disk, so nothing is promised of it.
#[verifier::external_body]
fn probe_file_tags(path: &String) -> Result<Vec<(String, String)>, String> {
    match lofty::probe::Probe::open(path.as_str()).and_then(|p| p.read()) {
        Err(e) => Err(format!("{}", e)),
        Ok(tf) => {
            let mut v: Vec<(String, String)> = Vec::new();
            if let Some(tag) = lofty::file::TaggedFileExt::primary_tag(&tf) {
                for item in tag.items() {
                    v.push((format!("{:?}", item.key()), item.value().text().unwrap_or("").to_string()));
                }
                let secs = lofty::file::AudioFile::properties(&tf).duration().as_secs();
                v.push(("Duration".to_string(), secs.to_string()));
            }
            Ok(v)
        },
    }
}

/// The file's tag map: a PATH pseudo-entry first, then whatever the tag
/// probe found (tag items and Duration), or the probe's error.
pub fn get_audio_tags(file: &String) -> (r: Result<Vec<(String, String)>, String>)
    ensures
        r matches Ok(v) ==> v@.len() >= 1 && v@[0].0@ == "PATH"@ && v@[0].1@ == file@,
{
    match probe_file_tags(file) {
        Err(e) => Err(e),
        Ok(items) => {
            let mut rest = items;
            let mut v: Vec<(String, String)> = Vec::new();
            v.push(("PATH".to_owned(), file.clone()));
            v.append(&mut rest);
            Ok(v)
        },
    }
}

/// The short key of a tag map, or the error naming what was missing.
pub open spec fn spec_short_key(tags: Seq<(String, String)>) -> Result<Seq<char>, Seq<char>> {
    let track = spec_normalize_value(tag_value(tags, "TrackTitle"@));
    if track.len() == 0 {
        Err("TrackTitle is empty"@)
    } else {
        let duration = spec_tag_or_empty(tags, "Duration"@);
        if duration.len() == 0 || duration == "0"@ {
            Err("Duration=0"@)
        } else {
            Ok(duration + track)
        }
    }
}

/// The grouping key in metadata mode: duration followed by the normalized
/// track title. A map without a usable title, or reporting a missing or
/// zero duration, is an error, never a candidate.
pub fn short_key_of_tags(tags: &Vec<(String, String)>) -> (r: Result<String, String>)
    ensures
        r matches Ok(k) ==> spec_short_key(tags@) == Ok::<Seq<char>, Seq<char>>(k@),
        r matches Err(e) ==> spec_short_key(tags@) == Err::<Seq<char>, Seq<char>>(e@),
{
    let track = normalize_option(get_tag(tags, "TrackTitle"));
    if track.as_str().is_empty() {
        return Err("TrackTitle is empty".to_owned());
    }
    let duration = tag_or_empty(tags, "Duration");
    if duration.as_str().is_empty() || str_eq(duration.as_str(), "0") {
        return Err("Duration=0".to_owned());
    }
    Ok(duration.concat(track.as_str()))
}

/// The full key of a tag map: duration (0 when absent), then normalized
/// artist, album and title; an empty AlbumArtist falls back to TrackArtist
/// and an empty AlbumTitle to OriginalAlbumTitle.
pub open spec fn spec_full_key(tags: Seq<(String, String)>) -> Seq<char> {
    let artist = if spec_tag_or_empty(tags, "AlbumArtist"@).len() > 0 {
        spec_tag_or_empty(tags, "AlbumArtist"@)
    } else {
        spec_tag_or_empty(tags, "TrackArtist"@)
    };
    let album = if spec_tag_or_empty(tags, "AlbumTitle"@).len() > 0 {
        spec_tag_or_empty(tags, "AlbumTitle"@)
    } else {
        spec_tag_or_empty(tags, "OriginalAlbumTitle"@)
    };
    let track = spec_normalize_value(tag_value(tags, "TrackTitle"@));
    let duration = if spec_tag_or_empty(tags, "Duration"@).len() == 0 {
        "0"@
    } else {
        spec_tag_or_empty(tags, "Duration"@)
    };
    duration + spec_normalize(artist) + spec_normalize(album) + track
}

/// The confirmation key in metadata mode, from an already-read tag map.
pub fn full_key_of_tags(tags: &Vec<(String, String)>) -> (r: String)
    ensures
        r@ == spec_full_key(tags@),
{
    let mut artist = tag_or_empty(tags, "AlbumArtist");
    if artist.as_str().is_empty() {
        artist = tag_or_empty(tags, "TrackArtist");
    }
    let mut album = tag_or_empty(tags, "AlbumTitle");
    if album.as_str().is_empty() {
        album = tag_or_empty(tags, "OriginalAlbumTitle");
    }
    let track = normalize_option(get_tag(tags, "TrackTitle"));
    let mut duration = tag_or_empty(tags, "Duration");
    if duration.as_str().is_empty() {
        duration = "0".to_owned();
    }
    let artist_n = crate::string_utils::normalize_string(&artist);
    let album_n = crate::string_utils::normalize_string(&album);
    let key = duration.concat(artist_n.as_str()).concat(album_n.as_str()).concat(track.as_str());
    key
}

/// The short grouping key of the file at `path`, read through the tag
/// probe: `Ok` only ever holds a well-formed short key of some tag map.
pub fn get_short_audio_key(file: &String) -> (r: Result<String, String>)
    ensures
        r matches Ok(k) ==> exists|tags: Seq<(String, String)>|
            spec_short_key(tags) == Ok::<Seq<char>, Seq<char>>(k@),
{
    match get_audio_tags(file) {
        Err(e) => Err(e),
        Ok(tags) => {
            let r = short_key_of_tags(&tags);
            proof {
                if r is Ok {
                    assert(spec_short_key(tags@) == Ok::<Seq<char>, Seq<char>>(r->Ok_0@));
                }
            }
            r
        },
    }
}

/// The full confirmation key of the file at `path`, read through the tag
/// probe: `Ok` only ever holds the full key of some tag map.
pub fn get_audio_key(file: &String) -> (r: Result<String, String>)
    ensures
        r matches Ok(k) ==> exists|tags: Seq<(String, String)>| spec_full_key(tags) == k@,
{
    match get_audio_tags(file) {
        Err(e) => Err(e),
        Ok(tags) => {
            let k = full_key_of_tags(&tags);
            proof {
                assert(spec_full_key(tags@) == k@);
            }
            Ok(k)
        },
    }
}

} // verus!

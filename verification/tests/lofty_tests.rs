//! Metadata key derivation from tag maps, and the tag probe's error path.

use std::io::Write;

use dupscan::lofty_utils::full_key_of_tags;
use dupscan::lofty_utils::get_audio_key;
use dupscan::lofty_utils::get_audio_tags;
use dupscan::lofty_utils::get_short_audio_key;
use dupscan::lofty_utils::get_tag;
use dupscan::lofty_utils::short_key_of_tags;
use dupscan::lofty_utils::tag_or_empty;

fn tags(pairs: &[(&str, &str)]) -> Vec<(String, String)> {
    pairs.iter().map(|(k, v)| (k.to_string(), v.to_string())).collect()
}

#[test]
fn tag_lookup_takes_the_last_entry() {
    let t = tags(&[("TrackTitle", "first"), ("TrackTitle", "second")]);
    assert_eq!(get_tag(&t, "TrackTitle").unwrap(), "second");
    assert!(get_tag(&t, "Duration").is_none());
    assert_eq!(tag_or_empty(&t, "Duration"), "");
    assert_eq!(tag_or_empty(&t, "TrackTitle"), "second");
}

#[test]
fn short_key_is_duration_then_normalized_title() {
    let t = tags(&[("Duration", "180"), ("TrackTitle", "test   live")]);
    assert_eq!(short_key_of_tags(&t).unwrap(), "180test live");
}

#[test]
fn short_key_normalizes_bracketed_annotations() {
    let t = tags(&[("Duration", "180"), ("TrackTitle", "Test (Live)")]);
    assert_eq!(short_key_of_tags(&t).unwrap(), "180test");
}

#[test]
fn short_key_rejects_missing_title() {
    let t = tags(&[("Duration", "180")]);
    assert_eq!(short_key_of_tags(&t).unwrap_err(), "TrackTitle is empty");
}

#[test]
fn short_key_rejects_zero_duration() {
    let t = tags(&[("Duration", "0"), ("TrackTitle", "song")]);
    assert_eq!(short_key_of_tags(&t).unwrap_err(), "Duration=0");
    let t2 = tags(&[("TrackTitle", "song")]);
    assert_eq!(short_key_of_tags(&t2).unwrap_err(), "Duration=0");
}

#[test]
fn full_key_applies_fallbacks_and_normalization() {
    let t = tags(&[
        ("Duration", "200"),
        ("AlbumArtist", "The Band"),
        ("AlbumTitle", "An Album"),
        ("TrackTitle", "A Song (Remastered)"),
    ]);
    assert_eq!(full_key_of_tags(&t), "200the bandan albuma song");
    // empty AlbumArtist falls back to TrackArtist, AlbumTitle to OriginalAlbumTitle
    let t2 = tags(&[
        ("TrackArtist", "Solo"),
        ("OriginalAlbumTitle", "Early"),
        ("TrackTitle", "Tune"),
    ]);
    assert_eq!(full_key_of_tags(&t2), "0soloearlytune");
}

#[test]
fn probe_fails_cleanly_on_a_non_audio_file() {
    let mut f = tempfile::Builder::new().suffix(".txt").tempfile().unwrap();
    f.write_all(b"not audio at all").unwrap();
    f.flush().unwrap();
    let path = f.path().to_str().unwrap().to_string();
    assert!(get_audio_tags(&path).is_err());
    assert!(get_short_audio_key(&path).is_err());
    assert!(get_audio_key(&path).is_err());
}

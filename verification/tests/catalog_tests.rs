//! Catalog and extension behaviour.

use dupscan::file_utils::get_extension;
use dupscan::file_utils::u64_to_string;
use dupscan::grouping::FileInfo;
use dupscan::mediatype::MediaType;

#[test]
fn media_type_uppercases_its_extension() {
    let mt = MediaType::new(".txt", "Plain text file");
    assert_eq!(mt.extension, ".TXT");
    assert_eq!(mt.description, "Plain text file");
    assert!(mt.selected);
}

#[test]
fn load_groups_has_six_groups_with_defaults() {
    let groups = MediaType::load_groups();
    assert_eq!(groups.len(), 6);
    assert_eq!(groups[0].name, "Audio");
    assert_eq!(groups[1].name, "Document");
    assert_eq!(groups[2].name, "Image");
    assert_eq!(groups[3].name, "Video");
    assert_eq!(groups[4].name, "Development");
    assert_eq!(groups[5].name, "IGNORED");
    assert!(groups[0].selected && groups[1].selected && groups[2].selected && groups[3].selected);
    assert!(!groups[4].selected && !groups[5].selected);
}

#[test]
fn known_and_selected_follow_the_flags() {
    let groups = MediaType::load_groups();
    // .TXT is a document type, enabled by default
    assert!(groups[1].is_known_extension(".TXT"));
    assert!(groups[1].is_selected(".TXT"));
    // .RS is a development type: known there, but the group is disabled
    assert!(groups[4].is_known_extension(".RS"));
    assert!(!groups[4].is_selected(".RS"));
    // nothing knows .XYZ
    for g in groups.iter() {
        assert!(!g.is_known_extension(".XYZ"));
    }
}

#[test]
fn get_extension_takes_the_last_dot_uppercased() {
    assert_eq!(get_extension("music/song.mp3"), ".MP3");
    assert_eq!(get_extension("a.txt"), ".TXT");
    assert_eq!(get_extension("archive.tar.gz"), ".GZ");
    assert_eq!(get_extension("noextension"), "");
    assert_eq!(get_extension(".gitignore"), ".GITIGNORE");
}

#[test]
fn u64_to_string_is_plain_decimal() {
    assert_eq!(u64_to_string(0), "0");
    assert_eq!(u64_to_string(7), "7");
    assert_eq!(u64_to_string(1234), "1234");
    assert_eq!(u64_to_string(u64::MAX), "18446744073709551615");
}

#[test]
fn get_key_joins_length_and_extension() {
    let fi = FileInfo::new("dir/a.txt".to_string(), 1);
    assert_eq!(fi.get_key(1), "1.TXT");
    let plain = FileInfo::new("noext".to_string(), 42);
    assert_eq!(plain.get_key(42), "42");
    assert_eq!(fi.path_to_str(), "dir/a.txt");
    assert_eq!(fi.path(), "dir/a.txt");
    assert_eq!(fi.checksum, 0);
}

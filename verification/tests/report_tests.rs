//! Report formatting: path lines and sorted tag lines.

use dupscan::messenger::DuplicateRecord;
use dupscan::report::report_lines;
use dupscan::report::sort_pairs;

fn pairs(ps: &[(&str, &str)]) -> Vec<(String, String)> {
    ps.iter().map(|(k, v)| (k.to_string(), v.to_string())).collect()
}

#[test]
fn sort_pairs_orders_by_key() {
    let sorted = sort_pairs(&pairs(&[("b", "2"), ("a", "1"), ("c", "3")]));
    let keys: Vec<&str> = sorted.iter().map(|p| p.0.as_str()).collect();
    assert_eq!(keys, vec!["a", "b", "c"]);
}

#[test]
fn sort_pairs_keeps_everything() {
    let sorted = sort_pairs(&pairs(&[("x", "1"), ("x", "2")]));
    assert_eq!(sorted.len(), 2);
    assert!(sorted.iter().all(|p| p.0 == "x"));
}

#[test]
fn report_has_one_path_line_per_bare_record() {
    let records = vec![
        DuplicateRecord { path: "/a".to_string(), tags: Vec::new() },
        DuplicateRecord { path: "/b".to_string(), tags: Vec::new() },
    ];
    assert_eq!(report_lines(&records), vec!["/a".to_string(), "/b".to_string()]);
}

#[test]
fn report_indents_and_sorts_tag_lines() {
    let records = vec![DuplicateRecord {
        path: "/song.mp3".to_string(),
        tags: pairs(&[("TrackTitle", "Tune"), ("Duration", "180")]),
    }];
    let lines = report_lines(&records);
    assert_eq!(
        lines,
        vec![
            "/song.mp3".to_string(),
            "\t\tDuration: 180".to_string(),
            "\t\tTrackTitle: Tune".to_string(),
        ]
    );
}

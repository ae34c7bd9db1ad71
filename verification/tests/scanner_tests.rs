//! End-to-end scan-engine behaviour over real directory trees.

use std::io::Read;
use std::io::Seek;
use std::io::SeekFrom;
use std::io::Write;

use dupscan::file_utils::compute_file_checksum;
use dupscan::grouping::GroupMap;
use dupscan::mediatype::MediaType;
use dupscan::mediatype::ScanType;
use dupscan::messenger::Messenger;
use dupscan::report::report_lines;
use dupscan::scanner::calc_checksum;
use dupscan::scanner::check_for_duplicates;
use dupscan::scanner::full_read_requests;
use dupscan::scanner::header_read_plan;
use dupscan::scanner::scan_walk_phase;
use tempfile::NamedTempFile;
use tempfile::TempDir;

/// A tree of named temp files whose contents we control.
struct Tree {
    dir: TempDir,
    files: Vec<(String, NamedTempFile)>,
}

impl Tree {
    fn new() -> Tree {
        Tree { dir: tempfile::tempdir().unwrap(), files: Vec::new() }
    }

    fn root(&self) -> String {
        self.dir.path().to_str().unwrap().to_string()
    }

    fn add(&mut self, suffix: &str, content: &[u8]) -> String {
        let mut f = tempfile::Builder::new().suffix(suffix).tempfile_in(self.dir.path()).unwrap();
        f.write_all(content).unwrap();
        f.flush().unwrap();
        let path = f.path().to_str().unwrap().to_string();
        self.files.push((path.clone(), f));
        path
    }

    fn read(&mut self, path: &str) -> Vec<u8> {
        let entry = self.files.iter_mut().find(|(p, _)| p == path).unwrap();
        let f = entry.1.as_file_mut();
        f.seek(SeekFrom::Start(0)).unwrap();
        let mut buf: Vec<u8> = Vec::new();
        f.read_to_end(&mut buf).unwrap();
        buf
    }

    /// Run the walk and checksum phases in content mode and hand back the
    /// grouped, checksummed map with the full-content sums.
    fn binary_scan(
        &mut self,
        m: &mut Messenger,
    ) -> (GroupMap, Vec<(String, Result<u128, String>)>) {
        let groups_cfg = MediaType::load_groups();
        let gm = scan_walk_phase(&self.root(), &ScanType::BINARY, &groups_cfg, m).unwrap();
        let mut gm = gm;
        let plan = header_read_plan(&gm);
        let mut data: Vec<Result<Vec<u8>, String>> = Vec::new();
        for p in plan.iter() {
            let mut bytes = self.read(p);
            bytes.truncate(256);
            data.push(Ok(bytes));
        }
        calc_checksum(&mut gm, &data, m);
        let wanted = full_read_requests(&gm);
        let mut fulls: Vec<(String, Result<u128, String>)> = Vec::new();
        for p in wanted.iter() {
            let bytes = self.read(p);
            fulls.push((p.clone(), Ok(compute_file_checksum(&bytes))));
        }
        (gm, fulls)
    }
}

#[test]
fn three_text_files_group_and_confirm_the_identical_pair() {
    let mut tree = Tree::new();
    let a = tree.add(".txt", b"X");
    let b = tree.add(".txt", b"X");
    let c = tree.add(".txt", b"Y");
    let mut m = Messenger::new();
    let (gm, fulls) = tree.binary_scan(&mut m);

    // one group, keyed by length 1 and extension .TXT, holding all three
    assert_eq!(gm.len(), 1);
    assert_eq!(gm.get(0).key, "1.TXT");
    assert_eq!(gm.get(0).files.len(), 3);
    // the scanned log holds one line per accepted file: its key, then its path
    assert_eq!(m.cntstd(), 3);
    for line in m.stdlog().iter() {
        assert!(line.starts_with("1.TXT : "));
    }

    // header checksums: 'X' sums to 88, 'Y' to 89
    for fi in gm.get(0).files.iter() {
        if fi.path == c {
            assert_eq!(fi.checksum, 89);
        } else {
            assert_eq!(fi.checksum, 88);
        }
    }

    let dups = check_for_duplicates(&ScanType::BINARY, &gm, &fulls, &mut m);
    let mut paths: Vec<String> = dups.iter().map(|r| r.path.clone()).collect();
    paths.sort();
    let mut expected = vec![a.clone(), b.clone()];
    expected.sort();
    assert_eq!(paths, expected);

    // the duplicate log mirrors the result, flags aligned and unset
    assert_eq!(m.cntres(), 2);
    assert_eq!(m.checked().len(), 2);
    assert!(m.checked().iter().all(|c| !c));
    assert_eq!(m.progress(), 1000);
    assert_eq!(m.info(), "Check for duplicates...");

    // the report holds exactly the two confirmed paths, one per line
    let lines = report_lines(&dups);
    let mut report = lines.clone();
    report.sort();
    assert_eq!(report, expected);
}

#[test]
fn finish_report_reports_the_written_count() {
    let mut m = Messenger::new();
    dupscan::report::finish_report(&Ok(2), &mut m);
    assert_eq!(m.info(), "2 duplicates written to file ./duplicates.log");
    dupscan::report::finish_report(&Ok(0), &mut m);
    assert_eq!(m.info(), "");
    dupscan::report::finish_report(&Err("denied".to_string()), &mut m);
    assert_eq!(
        m.errlog().last().unwrap(),
        "Could not write file ./duplicates.log due to error denied"
    );
}

#[test]
fn different_sizes_never_share_a_group() {
    let mut tree = Tree::new();
    tree.add(".txt", b"same");
    tree.add(".txt", b"same");
    tree.add(".txt", b"longer content");
    let mut m = Messenger::new();
    let (gm, _) = tree.binary_scan(&mut m);
    // the two 4-byte files group; the 14-byte file's singleton group is pruned
    assert_eq!(gm.len(), 1);
    assert_eq!(gm.get(0).key, "4.TXT");
    assert_eq!(gm.get(0).files.len(), 2);
    for fi in gm.get(0).files.iter() {
        assert_eq!(fi.size, 4);
    }
}

#[test]
fn unknown_extension_is_logged_and_never_grouped() {
    let mut tree = Tree::new();
    let path = tree.add(".xyz", b"mystery");
    let mut m = Messenger::new();
    let (gm, _) = tree.binary_scan(&mut m);
    assert_eq!(gm.len(), 0);
    assert_eq!(m.cntstd(), 0);
    assert_eq!(m.cnterr(), 1);
    assert_eq!(m.errlog()[0], format!("Extension .XYZ ignored: {}", path));
}

#[test]
fn disabled_extension_is_skipped_silently() {
    let mut tree = Tree::new();
    // .rs belongs to the Development group, which is disabled by default
    tree.add(".rs", b"fn main() {}");
    let mut m = Messenger::new();
    let (gm, _) = tree.binary_scan(&mut m);
    assert_eq!(gm.len(), 0);
    assert_eq!(m.cntstd(), 0);
    assert_eq!(m.cnterr(), 0);
}

#[test]
fn a_missing_root_fails_fast_with_one_error() {
    let groups_cfg = MediaType::load_groups();
    let mut m = Messenger::new();
    let root = "/no/such/directory/anywhere".to_string();
    let r = scan_walk_phase(&root, &ScanType::BINARY, &groups_cfg, &mut m);
    assert!(r.is_none());
    assert_eq!(m.cnterr(), 1);
    assert!(m.errlog()[0].contains("must be a directory"));
    assert_eq!(m.cntstd(), 0);
}

#[test]
fn a_file_root_fails_fast_too() {
    let mut f = tempfile::Builder::new().suffix(".txt").tempfile().unwrap();
    f.write_all(b"X").unwrap();
    f.flush().unwrap();
    let groups_cfg = MediaType::load_groups();
    let mut m = Messenger::new();
    let root = f.path().to_str().unwrap().to_string();
    assert!(scan_walk_phase(&root, &ScanType::BINARY, &groups_cfg, &mut m).is_none());
}

#[test]
fn a_stopped_scan_appends_nothing_to_the_scanned_log() {
    let mut tree = Tree::new();
    tree.add(".txt", b"X");
    tree.add(".txt", b"X");
    let groups_cfg = MediaType::load_groups();
    let mut m = Messenger::new();
    m.stop();
    let gm = scan_walk_phase(&tree.root(), &ScanType::BINARY, &groups_cfg, &mut m).unwrap();
    assert_eq!(m.cntstd(), 0);
    assert_eq!(gm.len(), 0);
    // confirmation after a stop confirms nothing either
    let dups = check_for_duplicates(&ScanType::BINARY, &gm, &Vec::new(), &mut m);
    assert_eq!(dups.len(), 0);
    assert_eq!(m.cntres(), 0);
}

#[test]
fn scanning_twice_yields_the_same_duplicate_set() {
    let mut tree = Tree::new();
    tree.add(".txt", b"dup");
    tree.add(".txt", b"dup");
    tree.add(".txt", b"odd");
    let mut paths1: Vec<String> = {
        let mut m = Messenger::new();
        let (gm, fulls) = tree.binary_scan(&mut m);
        check_for_duplicates(&ScanType::BINARY, &gm, &fulls, &mut m)
            .iter()
            .map(|r| r.path.clone())
            .collect()
    };
    let mut paths2: Vec<String> = {
        let mut m = Messenger::new();
        let (gm, fulls) = tree.binary_scan(&mut m);
        check_for_duplicates(&ScanType::BINARY, &gm, &fulls, &mut m)
            .iter()
            .map(|r| r.path.clone())
            .collect()
    };
    paths1.sort();
    paths2.sort();
    assert_eq!(paths1, paths2);
    assert_eq!(paths1.len(), 2);
}

#[test]
fn a_failed_full_read_confirms_nothing_and_is_logged() {
    let mut tree = Tree::new();
    tree.add(".txt", b"Z");
    tree.add(".txt", b"Z");
    let mut m = Messenger::new();
    let (gm, _) = tree.binary_scan(&mut m);
    // hand the confirmation phase failed reads instead of the real sums
    let wanted = full_read_requests(&gm);
    let fulls: Vec<(String, Result<u128, String>)> =
        wanted.iter().map(|p| (p.clone(), Err("permission denied".to_string()))).collect();
    let errs_before = m.cnterr();
    let dups = check_for_duplicates(&ScanType::BINARY, &gm, &fulls, &mut m);
    assert_eq!(dups.len(), 0);
    // each failed read of the header-matched pair is reported
    assert_eq!(m.cnterr(), errs_before + 2);
    assert!(m.errlog()[errs_before].starts_with("Error for file "));
    assert!(m.errlog()[errs_before].ends_with(" : permission denied"));
}

#[test]
fn a_failed_header_read_is_logged_and_leaves_the_checksum_unset() {
    let mut tree = Tree::new();
    tree.add(".txt", b"QQ");
    tree.add(".txt", b"QQ");
    let groups_cfg = MediaType::load_groups();
    let mut m = Messenger::new();
    let mut gm = scan_walk_phase(&tree.root(), &ScanType::BINARY, &groups_cfg, &mut m).unwrap();
    let plan = header_read_plan(&gm);
    assert_eq!(plan.len(), 2);
    // first header read fails, second succeeds
    let data: Vec<Result<Vec<u8>, String>> = vec![
        Err("no access".to_string()),
        Ok(tree.read(&plan[1])),
    ];
    calc_checksum(&mut gm, &data, &mut m);
    assert_eq!(m.cnterr(), 1);
    assert_eq!(
        m.errlog()[0],
        format!("Error getting checksum for file {} : no access", plan[0])
    );
    for fi in gm.get(0).files.iter() {
        if fi.path == plan[0] {
            assert_eq!(fi.checksum, 0);
        } else {
            assert_eq!(fi.checksum, (b'Q' as i64) * 2);
        }
    }
    // the unset member pairs with nothing; the sweep logs the unset pair
    let dups = check_for_duplicates(&ScanType::BINARY, &gm, &Vec::new(), &mut m);
    assert_eq!(dups.len(), 0);
    assert!(m.errlog()[1].starts_with("No checksum for file "));
}

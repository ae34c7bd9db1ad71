//! Signal-channel behaviour: logs, selection flags, progress, control.

use dupscan::messenger::get_checked_idxs;
use dupscan::messenger::DuplicateRecord;
use dupscan::messenger::Messenger;

fn record(path: &str) -> DuplicateRecord {
    DuplicateRecord { path: path.to_string(), tags: Vec::new() }
}

#[test]
fn selection_flags_stay_aligned_with_duplicates() {
    let mut m = Messenger::new();
    assert_eq!(m.cntres(), 0);
    assert_eq!(m.checked().len(), 0);
    m.push_reslog(record("a"));
    assert_eq!(m.cntres(), 1);
    assert_eq!(m.checked().len(), 1);
    assert_eq!(m.checked()[0], false);
    m.push_reslog(record("b"));
    assert_eq!(m.cntres(), 2);
    assert_eq!(m.checked().len(), 2);
}

#[test]
fn clear_empties_both_sequences() {
    let mut m = Messenger::new();
    m.push_reslog(record("a"));
    m.push_stdlog("line".to_string());
    m.push_errlog("err".to_string());
    m.clear();
    assert_eq!(m.cntres(), 0);
    assert_eq!(m.checked().len(), 0);
    assert_eq!(m.cntstd(), 0);
    assert_eq!(m.cnterr(), 0);
    assert_eq!(m.progress(), 0);
    assert_eq!(m.info(), "");
}

#[test]
fn progress_with_zero_total_is_defined() {
    let mut m = Messenger::new();
    m.set_progress(0, 0, "");
    assert_eq!(m.progress(), 0);
    m.set_progress(0, 5, "");
    assert_eq!(m.progress(), 0);
}

#[test]
fn progress_is_a_permille_fraction() {
    let mut m = Messenger::new();
    m.set_progress(10, 5, "half");
    assert_eq!(m.progress(), 500);
    assert_eq!(m.info(), "half");
    m.set_progress(10, 10, "");
    assert_eq!(m.progress(), 1000);
    // the message only changes when one is given
    assert_eq!(m.info(), "half");
}

#[test]
fn stop_sets_the_flag_and_resets_progress() {
    let mut m = Messenger::new();
    m.set_progress(4, 2, "working");
    assert!(!m.is_stopped());
    m.stop();
    assert!(m.is_stopped());
    assert!(!m.is_interrupted());
    assert_eq!(m.progress(), 0);
}

#[test]
fn interrupt_is_its_own_signal() {
    let mut m = Messenger::new();
    m.interrupt();
    assert!(m.is_interrupted());
    assert!(!m.is_stopped());
}

#[test]
fn logs_are_append_only() {
    let mut m = Messenger::new();
    m.push_stdlog("one".to_string());
    m.push_stdlog("two".to_string());
    assert_eq!(m.cntstd(), 2);
    assert_eq!(m.stdlog()[0], "one");
    assert_eq!(m.stdlog()[1], "two");
    m.push_errlog("oops".to_string());
    assert_eq!(m.errlog()[0], "oops");
    m.set_info("status".to_string());
    assert_eq!(m.info(), "status");
}

#[test]
fn checked_idxs_lists_set_positions() {
    let flags = vec![true, false, true, true, false];
    assert_eq!(get_checked_idxs(&flags), vec![0, 2, 3]);
    assert_eq!(get_checked_idxs(&Vec::new()), Vec::<usize>::new());
}

#[test]
fn delete_checked_removes_selected_records() {
    let mut m = Messenger::new();
    m.push_reslog(record("a"));
    m.push_reslog(record("b"));
    m.push_reslog(record("c"));
    m.set_checked(0, true);
    m.set_checked(2, true);
    let removed = m.delete_checked_duplicates();
    assert_eq!(removed, vec!["a".to_string(), "c".to_string()]);
    assert_eq!(m.cntres(), 1);
    assert_eq!(m.reslog()[0].path, "b");
    assert_eq!(m.checked().len(), 1);
    assert_eq!(m.checked()[0], false);
}

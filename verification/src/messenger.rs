//! Signal channel between the scan engine and its caller.
//!
//! One `Messenger` value carries the control flag, three append-only logs
//! (scanned paths, errors, confirmed duplicates), the per-duplicate
//! selection flags, a status message and a progress fraction. The scan
//! engine appends; the caller reads snapshots and flips the control flag.
//! The caller is responsible for mutual exclusion when the value is shared
//! across threads; every mutation here is a plain, whole-value operation.

use vstd::prelude::*;
use vstd::string::StringExecFns;

use crate::mediatype::Control;

verus! {

/// A confirmed duplicate: its path, and (in metadata mode) the tag map
/// captured for display, as key/value pairs.
#[derive(Debug, Clone)]
pub struct DuplicateRecord {
    pub path: String,
    pub tags: Vec<(String, String)>,
}

/// Progress as an integer fraction of 1000.
///
/// Zero total work yields 0: a scan over an empty group set reports no
/// progress rather than a division error.
pub open spec fn spec_progress(max: int, current: int) -> int {
    if max <= 0 {
        0
    } else if current >= max {
        1000
    } else {
        current * 1000 / max
    }
}

/// The elements of `s` whose aligned flag in `c` is false.
pub open spec fn unchecked_only<T>(s: Seq<T>, c: Seq<bool>) -> Seq<T>
    decreases s.len(),
{
    if s.len() == 0 || c.len() == 0 {
        Seq::empty()
    } else if c[0] {
        unchecked_only(s.skip(1), c.skip(1))
    } else {
        seq![s[0]] + unchecked_only(s.skip(1), c.skip(1))
    }
}

/// The paths of the records of `s` whose aligned flag in `c` is true.
pub open spec fn checked_paths(s: Seq<DuplicateRecord>, c: Seq<bool>) -> Seq<String>
    decreases s.len(),
{
    if s.len() == 0 || c.len() == 0 {
        Seq::empty()
    } else if c[0] {
        seq![s[0].path] + checked_paths(s.skip(1), c.skip(1))
    } else {
        checked_paths(s.skip(1), c.skip(1))
    }
}

/// The positions at which the flag vector is set, in ascending order.
pub open spec fn spec_checked_idxs(c: Seq<bool>, i: int) -> Seq<usize>
    decreases c.len() - i,
{
    if i < 0 || i >= c.len() {
        Seq::empty()
    } else if c[i] {
        seq![i as usize] + spec_checked_idxs(c, i + 1)
    } else {
        spec_checked_idxs(c, i + 1)
    }
}

/// The index positions at which the selection vector holds true.
pub fn get_checked_idxs(checked: &Vec<bool>) -> (r: Vec<usize>)
    ensures
        r@ == spec_checked_idxs(checked@, 0),
{
    let n = checked.len();
    let mut out: Vec<usize> = Vec::new();
    let mut i: usize = 0;
    while i < n
        invariant
            i <= n,
            n == checked@.len(),
            spec_checked_idxs(checked@, 0) == out@ + spec_checked_idxs(checked@, i as int),
        decreases n - i,
    {
        if checked[i] {
            proof {
                assert((out@ + seq![i]) + spec_checked_idxs(checked@, i + 1) =~= out@ + (seq![i]
                    + spec_checked_idxs(checked@, i + 1)));
            }
            out.push(i);
        }
        i = i + 1;
    }
    proof {
        assert(spec_checked_idxs(checked@, 0) =~= out@);
    }
    out
}

/// The shared state of one scan.
pub struct Messenger {
    scanner_control: Control,
    stdlog: Vec<String>,
    errlog: Vec<String>,
    reslog: Vec<DuplicateRecord>,
    checked: Vec<bool>,
    info: String,
    progress: u32,
}

impl Messenger {
    /// The selection flags stay aligned with the duplicate log, one flag
    /// per record, and progress never leaves [0, 1000]. Established by
    /// `new`, preserved by every method.
    pub open spec fn wf(&self) -> bool {
        self.checked_spec().len() == self.reslog_spec().len() && self.progress_spec() <= 1000
    }

    pub closed spec fn control_spec(&self) -> Control {
        self.scanner_control
    }

    pub closed spec fn stdlog_spec(&self) -> Seq<String> {
        self.stdlog@
    }

    pub closed spec fn errlog_spec(&self) -> Seq<String> {
        self.errlog@
    }

    pub closed spec fn reslog_spec(&self) -> Seq<DuplicateRecord> {
        self.reslog@
    }

    pub closed spec fn checked_spec(&self) -> Seq<bool> {
        self.checked@
    }

    pub closed spec fn info_spec(&self) -> Seq<char> {
        self.info@
    }

    pub closed spec fn progress_spec(&self) -> u32 {
        self.progress
    }

    /// Whether the caller has asked the scan to halt, by either signal.
    pub open spec fn cancelled_spec(&self) -> bool {
        self.control_spec() == Control::STOP || self.control_spec() == Control::INTERRUPT
    }

    /// The logs only ever grow while a scan runs: `other` extends `self`.
    pub open spec fn logs_extended(&self, other: &Self) -> bool {
        &&& self.stdlog_spec().is_prefix_of(other.stdlog_spec())
        &&& self.errlog_spec().is_prefix_of(other.errlog_spec())
        &&& self.reslog_spec().is_prefix_of(other.reslog_spec())
        &&& self.checked_spec().is_prefix_of(other.checked_spec())
    }

    pub fn new() -> (r: Messenger)
        ensures
            r.control_spec() == Control::INFO,
            r.stdlog_spec() =~= Seq::<String>::empty(),
            r.errlog_spec() =~= Seq::<String>::empty(),
            r.reslog_spec() =~= Seq::<DuplicateRecord>::empty(),
            r.checked_spec() =~= Seq::<bool>::empty(),
            r.info_spec() =~= Seq::<char>::empty(),
            r.progress_spec() == 0,
            r.wf(),
    {
        Messenger {
            scanner_control: Control::INFO,
            stdlog: Vec::new(),
            errlog: Vec::new(),
            reslog: Vec::new(),
            checked: Vec::new(),
            info: String::new(),
            progress: 0,
        }
    }

    /// Reset every field; afterwards the duplicate log and the selection
    /// flags are both empty.
    pub fn clear(&mut self)
        requires
            old(self).wf(),
        ensures
            final (self).wf(),
            final (self).control_spec() == Control::INFO,
            final (self).stdlog_spec() =~= Seq::<String>::empty(),
            final (self).errlog_spec() =~= Seq::<String>::empty(),
            final (self).reslog_spec() =~= Seq::<DuplicateRecord>::empty(),
            final (self).checked_spec() =~= Seq::<bool>::empty(),
            final (self).info_spec() =~= Seq::<char>::empty(),
            final (self).progress_spec() == 0,
    {
        self.scanner_control = Control::INFO;
        self.stdlog = Vec::new();
        self.errlog = Vec::new();
        self.reslog = Vec::new();
        self.checked = Vec::new();
        self.info = String::new();
        self.progress = 0;
    }

    /// Ask the running scan to stop; progress is reset on the way out.
    pub fn stop(&mut self)
        requires
            old(self).wf(),
        ensures
            final (self).wf(),
            final (self).control_spec() == Control::STOP,
            final (self).progress_spec() == 0,
            final (self).stdlog_spec() == old(self).stdlog_spec(),
            final (self).errlog_spec() == old(self).errlog_spec(),
            final (self).reslog_spec() == old(self).reslog_spec(),
            final (self).checked_spec() == old(self).checked_spec(),
            final (self).info_spec() == old(self).info_spec(),
    {
        self.scanner_control = Control::STOP;
        self.progress = 0;
    }

    /// Ask the running scan to stop at the next traversal step.
    pub fn interrupt(&mut self)
        requires
            old(self).wf(),
        ensures
            final (self).wf(),
            final (self).control_spec() == Control::INTERRUPT,
            final (self).progress_spec() == old(self).progress_spec(),
            final (self).stdlog_spec() == old(self).stdlog_spec(),
            final (self).errlog_spec() == old(self).errlog_spec(),
            final (self).reslog_spec() == old(self).reslog_spec(),
            final (self).checked_spec() == old(self).checked_spec(),
            final (self).info_spec() == old(self).info_spec(),
    {
        self.scanner_control = Control::INTERRUPT;
    }

    pub fn is_stopped(&self) -> (r: bool)
        ensures
            r == (self.control_spec() == Control::STOP),
    {
        match self.scanner_control {
            Control::STOP => true,
            _ => false,
        }
    }

    pub fn is_interrupted(&self) -> (r: bool)
        ensures
            r == (self.control_spec() == Control::INTERRUPT),
    {
        match self.scanner_control {
            Control::INTERRUPT => true,
            _ => false,
        }
    }

    /// Append one line to the scanned-paths log.
    pub fn push_stdlog(&mut self, line: String)
        requires
            old(self).wf(),
        ensures
            final (self).wf(),
            final (self).stdlog_spec() == old(self).stdlog_spec().push(line),
            final (self).control_spec() == old(self).control_spec(),
            final (self).errlog_spec() == old(self).errlog_spec(),
            final (self).reslog_spec() == old(self).reslog_spec(),
            final (self).checked_spec() == old(self).checked_spec(),
            final (self).info_spec() == old(self).info_spec(),
            final (self).progress_spec() == old(self).progress_spec(),
    {
        self.stdlog.push(line);
    }

    /// Append one line to the error log.
    pub fn push_errlog(&mut self, line: String)
        requires
            old(self).wf(),
        ensures
            final (self).wf(),
            final (self).errlog_spec() == old(self).errlog_spec().push(line),
            final (self).control_spec() == old(self).control_spec(),
            final (self).stdlog_spec() == old(self).stdlog_spec(),
            final (self).reslog_spec() == old(self).reslog_spec(),
            final (self).checked_spec() == old(self).checked_spec(),
            final (self).info_spec() == old(self).info_spec(),
            final (self).progress_spec() == old(self).progress_spec(),
    {
        self.errlog.push(line);
    }

    /// Append one confirmed duplicate; its selection flag starts false, so
    /// the two sequences stay aligned index for index.
    pub fn push_reslog(&mut self, rec: DuplicateRecord)
        requires
            old(self).wf(),
        ensures
            final (self).wf(),
            final (self).reslog_spec() == old(self).reslog_spec().push(rec),
            final (self).checked_spec() == old(self).checked_spec().push(false),
            final (self).checked_spec().len() == final (self).reslog_spec().len(),
            final (self).control_spec() == old(self).control_spec(),
            final (self).stdlog_spec() == old(self).stdlog_spec(),
            final (self).errlog_spec() == old(self).errlog_spec(),
            final (self).info_spec() == old(self).info_spec(),
            final (self).progress_spec() == old(self).progress_spec(),
    {
        self.reslog.push(rec);
        self.checked.push(false);
    }

    pub fn stdlog(&self) -> (r: &Vec<String>)
        ensures
            r@ == self.stdlog_spec(),
    {
        &self.stdlog
    }

    pub fn errlog(&self) -> (r: &Vec<String>)
        ensures
            r@ == self.errlog_spec(),
    {
        &self.errlog
    }

    pub fn reslog(&self) -> (r: &Vec<DuplicateRecord>)
        ensures
            r@ == self.reslog_spec(),
    {
        &self.reslog
    }

    pub fn checked(&self) -> (r: &Vec<bool>)
        ensures
            r@ == self.checked_spec(),
    {
        &self.checked
    }

    pub fn set_info(&mut self, text: String)
        requires
            old(self).wf(),
        ensures
            final (self).wf(),
            final (self).info_spec() == text@,
            final (self).control_spec() == old(self).control_spec(),
            final (self).stdlog_spec() == old(self).stdlog_spec(),
            final (self).errlog_spec() == old(self).errlog_spec(),
            final (self).reslog_spec() == old(self).reslog_spec(),
            final (self).checked_spec() == old(self).checked_spec(),
            final (self).progress_spec() == old(self).progress_spec(),
    {
        self.info = text;
    }

    pub fn info(&self) -> (r: String)
        ensures
            r@ == self.info_spec(),
    {
        self.info.clone()
    }

    pub fn cntstd(&self) -> (r: usize)
        ensures
            r == self.stdlog_spec().len(),
    {
        self.stdlog.len()
    }

    pub fn cnterr(&self) -> (r: usize)
        ensures
            r == self.errlog_spec().len(),
    {
        self.errlog.len()
    }

    pub fn cntres(&self) -> (r: usize)
        ensures
            r == self.reslog_spec().len(),
    {
        self.reslog.len()
    }

    /// Set the progress fraction to `current` of `max`, in permille, and
    /// replace the status message when one is given. A total of zero never
    /// divides: it reports 0.
    pub fn set_progress(&mut self, max: usize, current: usize, info: &str)
        requires
            old(self).wf(),
        ensures
            final (self).wf(),
            final (self).progress_spec() == spec_progress(max as int, current as int),
            final (self).info_spec() == if info@.len() > 0 {
                info@
            } else {
                old(self).info_spec()
            },
            final (self).control_spec() == old(self).control_spec(),
            final (self).stdlog_spec() == old(self).stdlog_spec(),
            final (self).errlog_spec() == old(self).errlog_spec(),
            final (self).reslog_spec() == old(self).reslog_spec(),
            final (self).checked_spec() == old(self).checked_spec(),
    {
        let p: u32 = if max == 0 {
            0
        } else if current >= max {
            1000
        } else {
            assert((current as int) * 1000 / (max as int) < 1000) by (nonlinear_arith)
                requires
                    0 < max,
                    0 <= current < max,
            ;
            let q: u128 = (current as u128) * 1000 / (max as u128);
            q as u32
        };
        self.progress = p;
        if !info.is_empty() {
            let mut text = String::new();
            text.append(info);
            self.info = text;
        }
    }

    /// The progress fraction, in permille of the phase's total work.
    pub fn progress(&self) -> (r: u32)
        requires
            self.wf(),
        ensures
            r == self.progress_spec(),
            r <= 1000,
    {
        self.progress
    }

    /// Flip one duplicate's selection flag to the given value.
    pub fn set_checked(&mut self, idx: usize, value: bool)
        requires
            old(self).wf(),
            idx < old(self).checked_spec().len(),
        ensures
            final(self).wf(),
            final(self).checked_spec() == old(self).checked_spec().update(idx as int, value),
            final(self).control_spec() == old(self).control_spec(),
            final(self).stdlog_spec() == old(self).stdlog_spec(),
            final(self).errlog_spec() == old(self).errlog_spec(),
            final(self).reslog_spec() == old(self).reslog_spec(),
            final(self).info_spec() == old(self).info_spec(),
            final(self).progress_spec() == old(self).progress_spec(),
    {
        self.checked.set(idx, value);
    }

    /// Remove every record whose selection flag is set, with its flag, and
    /// hand back the removed paths; the two sequences stay aligned.
    pub fn delete_checked_duplicates(&mut self) -> (removed: Vec<String>)
        requires
            old(self).wf(),
        ensures
            final (self).wf(),
            final (self).reslog_spec() == unchecked_only(
                old(self).reslog_spec(),
                old(self).checked_spec(),
            ),
            final (self).checked_spec() == unchecked_only(
                old(self).checked_spec(),
                old(self).checked_spec(),
            ),
            removed@ == checked_paths(old(self).reslog_spec(), old(self).checked_spec()),
            final (self).checked_spec().len() == final (self).reslog_spec().len(),
            final (self).control_spec() == old(self).control_spec(),
            final (self).stdlog_spec() == old(self).stdlog_spec(),
            final (self).errlog_spec() == old(self).errlog_spec(),
            final (self).info_spec() == old(self).info_spec(),
            final (self).progress_spec() == old(self).progress_spec(),
    {
        let ghost orig_res = self.reslog@;
        let ghost orig_chk = self.checked@;
        let ghost n = orig_res.len() as int;
        let mut removed: Vec<String> = Vec::new();
        let mut i: usize = 0;
        let ghost mut p: int = 0;
        while i < self.reslog.len()
            invariant
                0 <= p <= n,
                n == orig_res.len(),
                n == orig_chk.len(),
                i == unchecked_only(orig_res.take(p), orig_chk.take(p)).len(),
                self.reslog@ =~= unchecked_only(orig_res.take(p), orig_chk.take(p))
                    + orig_res.skip(p),
                self.checked@ =~= unchecked_only(orig_chk.take(p), orig_chk.take(p))
                    + orig_chk.skip(p),
                removed@ =~= checked_paths(orig_res.take(p), orig_chk.take(p)),
                unchecked_only(orig_chk.take(p), orig_chk.take(p)).len() == unchecked_only(
                    orig_res.take(p),
                    orig_chk.take(p),
                ).len(),
                self.control_spec() == old(self).control_spec(),
                self.stdlog_spec() == old(self).stdlog_spec(),
                self.errlog_spec() == old(self).errlog_spec(),
                self.info_spec() == old(self).info_spec(),
                self.progress_spec() == old(self).progress_spec(),
            decreases self.reslog@.len() - i,
        {
            proof {
                assert(p < n);
                assert(orig_res.take(p + 1) =~= orig_res.take(p).push(orig_res[p]));
                assert(orig_chk.take(p + 1) =~= orig_chk.take(p).push(orig_chk[p]));
                lemma_unchecked_only_snoc(orig_res.take(p), orig_chk.take(p), orig_res[p], orig_chk[p]);
                lemma_unchecked_only_snoc(orig_chk.take(p), orig_chk.take(p), orig_chk[p], orig_chk[p]);
                lemma_checked_paths_snoc(orig_res.take(p), orig_chk.take(p), orig_res[p], orig_chk[p]);
                lemma_unchecked_only_len(orig_res.take(p), orig_chk.take(p));
                lemma_unchecked_only_len(orig_chk.take(p), orig_chk.take(p));
                assert(self.checked@[i as int] == orig_chk[p]);
                assert(self.reslog@[i as int] == orig_res[p]);
            }
            if self.checked[i] {
                let rec = self.reslog.remove(i);
                let _flag = self.checked.remove(i);
                removed.push(rec.path);
                proof {
                    assert(self.reslog@ =~= unchecked_only(orig_res.take(p + 1), orig_chk.take(p + 1))
                        + orig_res.skip(p + 1));
                    assert(self.checked@ =~= unchecked_only(orig_chk.take(p + 1), orig_chk.take(p + 1))
                        + orig_chk.skip(p + 1));
                    p = p + 1;
                }
            } else {
                i = i + 1;
                proof {
                    assert(self.reslog@ =~= unchecked_only(orig_res.take(p + 1), orig_chk.take(p + 1))
                        + orig_res.skip(p + 1));
                    assert(self.checked@ =~= unchecked_only(orig_chk.take(p + 1), orig_chk.take(p + 1))
                        + orig_chk.skip(p + 1));
                    p = p + 1;
                }
            }
        }
        proof {
            assert(p == n) by {
                if p < n {
                    lemma_unchecked_only_len(orig_res.take(p), orig_chk.take(p));
                    assert(orig_res.skip(p).len() > 0);
                }
            }
            assert(orig_res.take(n) =~= orig_res);
            assert(orig_chk.take(n) =~= orig_chk);
            lemma_unchecked_only_len(orig_res, orig_chk);
            lemma_unchecked_only_len(orig_chk, orig_chk);
        }
        removed
    }
}

/// `unchecked_only` keeps as many elements of `s` as of `c`.
proof fn lemma_unchecked_only_len<T>(s: Seq<T>, c: Seq<bool>)
    requires
        s.len() == c.len(),
    ensures
        unchecked_only(s, c).len() == unchecked_only(c, c).len(),
        unchecked_only(s, c).len() <= s.len(),
    decreases s.len(),
{
    if s.len() > 0 {
        lemma_unchecked_only_len(s.skip(1), c.skip(1));
    }
}

/// Appending one flagged element extends `unchecked_only` by the element
/// exactly when its flag is down.
proof fn lemma_unchecked_only_snoc<T>(s: Seq<T>, c: Seq<bool>, x: T, f: bool)
    requires
        s.len() == c.len(),
    ensures
        f ==> unchecked_only(s.push(x), c.push(f)) =~= unchecked_only(s, c),
        !f ==> unchecked_only(s.push(x), c.push(f)) =~= unchecked_only(s, c).push(x),
    decreases s.len(),
{
    if s.len() == 0 {
        assert(s.push(x).skip(1) =~= Seq::<T>::empty());
        assert(c.push(f).skip(1) =~= Seq::<bool>::empty());
        assert(s.push(x)[0] == x);
        assert(c.push(f)[0] == f);
        assert(unchecked_only(Seq::<T>::empty(), Seq::<bool>::empty()) =~= Seq::<T>::empty());
        assert(unchecked_only(s, c) =~= Seq::<T>::empty());
        if f {
            assert(unchecked_only(s.push(x), c.push(f)) =~= unchecked_only(
                s.push(x).skip(1),
                c.push(f).skip(1),
            ));
        } else {
            assert(unchecked_only(s.push(x), c.push(f)) =~= seq![x] + unchecked_only(
                s.push(x).skip(1),
                c.push(f).skip(1),
            ));
            assert(seq![x] + Seq::<T>::empty() =~= unchecked_only(s, c).push(x));
        }
    } else {
        assert(s.push(x).skip(1) =~= s.skip(1).push(x));
        assert(c.push(f).skip(1) =~= c.skip(1).push(f));
        lemma_unchecked_only_snoc(s.skip(1), c.skip(1), x, f);
        assert(s.push(x)[0] == s[0]);
        assert(c.push(f)[0] == c[0]);
        if !c[0] {
            if f {
            } else {
                assert(seq![s[0]] + unchecked_only(s.skip(1), c.skip(1)).push(x) =~= (seq![s[0]]
                    + unchecked_only(s.skip(1), c.skip(1))).push(x));
            }
        }
    }
}

/// Appending one flagged record extends `checked_paths` by its path exactly
/// when the flag is set.
proof fn lemma_checked_paths_snoc(s: Seq<DuplicateRecord>, c: Seq<bool>, x: DuplicateRecord, f: bool)
    requires
        s.len() == c.len(),
    ensures
        f ==> checked_paths(s.push(x), c.push(f)) =~= checked_paths(s, c).push(x.path),
        !f ==> checked_paths(s.push(x), c.push(f)) =~= checked_paths(s, c),
    decreases s.len(),
{
    if s.len() == 0 {
        assert(s.push(x).skip(1) =~= Seq::<DuplicateRecord>::empty());
        assert(c.push(f).skip(1) =~= Seq::<bool>::empty());
        assert(s.push(x)[0] == x);
        assert(c.push(f)[0] == f);
        assert(checked_paths(Seq::<DuplicateRecord>::empty(), Seq::<bool>::empty())
            =~= Seq::<String>::empty());
        assert(checked_paths(s, c) =~= Seq::<String>::empty());
        if f {
            assert(checked_paths(s.push(x), c.push(f)) =~= seq![x.path] + checked_paths(
                s.push(x).skip(1),
                c.push(f).skip(1),
            ));
            assert(seq![x.path] + Seq::<String>::empty() =~= checked_paths(s, c).push(x.path));
        } else {
            assert(checked_paths(s.push(x), c.push(f)) =~= checked_paths(
                s.push(x).skip(1),
                c.push(f).skip(1),
            ));
        }
    } else {
        assert(s.push(x).skip(1) =~= s.skip(1).push(x));
        assert(c.push(f).skip(1) =~= c.skip(1).push(f));
        lemma_checked_paths_snoc(s.skip(1), c.skip(1), x, f);
        assert(s.push(x)[0] == s[0]);
        assert(c.push(f)[0] == c[0]);
        if c[0] {
            if f {
                assert(seq![s[0].path] + checked_paths(s.skip(1), c.skip(1)).push(x.path) =~= (
                seq![s[0].path] + checked_paths(s.skip(1), c.skip(1))).push(x.path));
            }
        }
    }
}

/// A field-for-field copy of a tag list.
pub fn clone_tags(tags: &Vec<(String, String)>) -> (r: Vec<(String, String)>)
    ensures
        r@ == tags@,
{
    let mut out: Vec<(String, String)> = Vec::new();
    let mut i: usize = 0;
    while i < tags.len()
        invariant
            i <= tags@.len(),
            out@ =~= tags@.take(i as int),
        decreases tags@.len() - i,
    {
        let pair = (tags[i].0.clone(), tags[i].1.clone());
        proof {
            assert(pair == tags@[i as int]);
        }
        out.push(pair);
        i = i + 1;
    }
    proof {
        assert(out@ =~= tags@);
    }
    out
}

} // verus!

//! Candidate files and their grouping by key.
//!
//! A `FileInfo` is one filesystem entry under consideration; a `GroupMap`
//! maps each grouping key to the candidates that produced it. Keys are
//! unique; a group with fewer than two members can never witness a
//! duplicate and is pruned after the walk.

use vstd::prelude::*;
use vstd::string::StringExecFns;

use crate::file_utils::get_extension;
use crate::file_utils::spec_binary_key;
use crate::file_utils::spec_extension_of;
use crate::file_utils::u64_to_string;
use crate::file_utils::wf_ext;
use crate::string_utils::str_eq;

verus! {

/// One candidate: its path, its byte length, and the header checksum once
/// computed (0 while unset).
pub struct FileInfo {
    pub path: String,
    pub size: u64,
    pub checksum: i64,
}

impl FileInfo {
    pub fn new(path: String, size: u64) -> (r: FileInfo)
        ensures
            r.path == path,
            r.size == size,
            r.checksum == 0,
    {
        FileInfo { path, size, checksum: 0 }
    }

    pub fn path(&self) -> (r: &String)
        ensures
            r == &self.path,
    {
        &self.path
    }

    pub fn path_to_str(&self) -> (r: &str)
        ensures
            r@ == self.path@,
    {
        self.path.as_str()
    }

    /// The content-mode grouping key: the byte length followed by the
    /// uppercased extension (just the length when the path has no dot).
    pub fn get_key(&self, length: u64) -> (r: String)
        ensures
            r@ == spec_binary_key(self.path@, length),
            wf_ext(spec_extension_of(self.path@)),
    {
        let ext = get_extension(self.path.as_str());
        u64_to_string(length).concat(ext.as_str())
    }
}

/// One group: the key and the candidates that produced it.
pub struct GroupEntry {
    pub key: String,
    pub files: Vec<FileInfo>,
}

/// Whether some entry of `g` carries the key `k`.
pub open spec fn spec_known_key(g: Seq<GroupEntry>, k: Seq<char>) -> bool {
    exists|i: int| 0 <= i < g.len() && g[i].key@ == k
}

/// Whether `e` occurs in `g`.
pub open spec fn entry_in(g: Seq<GroupEntry>, e: GroupEntry) -> bool {
    exists|j: int| 0 <= j < g.len() && g[j] == e
}

/// Candidate groups, keyed uniquely.
pub struct GroupMap {
    entries: Vec<GroupEntry>,
}

impl View for GroupMap {
    type V = Seq<GroupEntry>;

    closed spec fn view(&self) -> Seq<GroupEntry> {
        self.entries@
    }
}

impl GroupMap {
    /// Keys are pairwise distinct.
    pub open spec fn wf(&self) -> bool {
        forall|i: int, j: int|
            0 <= i < j < self@.len() ==> (#[trigger] self@[i].key@) != (#[trigger] self@[j].key@)
    }

    pub fn new() -> (r: GroupMap)
        ensures
            r@ =~= Seq::<GroupEntry>::empty(),
            r.wf(),
    {
        GroupMap { entries: Vec::new() }
    }

    pub fn len(&self) -> (r: usize)
        ensures
            r == self@.len(),
    {
        self.entries.len()
    }

    pub fn get(&self, i: usize) -> (r: &GroupEntry)
        requires
            i < self@.len(),
        ensures
            r == &self@[i as int],
    {
        &self.entries[i]
    }

    /// File `fi` joins the group keyed `key`; a fresh key opens a new group
    /// at the end. Every other group is untouched.
    pub fn insert(&mut self, key: String, fi: FileInfo)
        requires
            old(self).wf(),
        ensures
            final(self).wf(),
            forall|i: int|
                0 <= i < old(self)@.len() && (#[trigger] old(self)@[i]).key@ != key@ ==> final(self)@[i] == old(self)@[i],
            forall|i: int|
                0 <= i < old(self)@.len() && (#[trigger] old(self)@[i]).key@ == key@ ==> final(self)@[i].key == old(self)@[i].key && final(self)@[i].files@ == old(self)@[i].files@.push(fi),
            spec_known_key(old(self)@, key@) ==> final(self)@.len() == old(self)@.len(),
            !spec_known_key(old(self)@, key@) ==> final(self)@.len() == old(self)@.len() + 1
                && final(self)@[old(self)@.len() as int].key == key && final(self)@[old(self)@.len() as int].files@ =~= seq![fi],
    {
        let n = self.entries.len();
        let mut i: usize = 0;
        while i < n
            invariant
                i <= n,
                n == self@.len(),
                old(self).wf(),
                self@ == old(self)@,
                forall|j: int| 0 <= j < i ==> (#[trigger] self@[j].key@) != key@,
            decreases n - i,
        {
            if str_eq(self.entries[i].key.as_str(), key.as_str()) {
                let mut entry = self.entries.remove(i);
                entry.files.push(fi);
                let ghost gentry = entry;
                self.entries.insert(i, entry);
                proof {
                    assert(self@ =~= old(self)@.update(i as int, gentry));
                    assert(gentry.key == old(self)@[i as int].key);
                    assert(gentry.files@ == old(self)@[i as int].files@.push(fi));
                    assert(spec_known_key(old(self)@, key@)) by {
                        assert(old(self)@[i as int].key@ == key@);
                    }
                    assert forall|a: int, b: int|
                        0 <= a < b < self@.len() implies (#[trigger] self@[a].key@) != (
                    #[trigger] self@[b].key@) by {
                        assert(self@[a].key@ == old(self)@[a].key@);
                        assert(self@[b].key@ == old(self)@[b].key@);
                    }
                    assert forall|a: int|
                        0 <= a < old(self)@.len() && (#[trigger] old(self)@[a]).key@
                            != key@ implies self@[a] == old(self)@[a] by {}
                }
                return ;
            }
            i = i + 1;
        }
        let ghost pre = self@;
        let entry = GroupEntry { key, files: vec![fi] };
        let ghost gentry = entry;
        self.entries.push(entry);
        proof {
            assert(self@ =~= pre.push(gentry));
            assert(!spec_known_key(pre, gentry.key@)) by {
                if spec_known_key(pre, gentry.key@) {
                    let w = choose|w: int| 0 <= w < pre.len() && pre[w].key@ == gentry.key@;
                    assert(pre[w].key@ != gentry.key@);
                }
            }
            assert forall|a: int, b: int|
                0 <= a < b < self@.len() implies (#[trigger] self@[a].key@) != (
            #[trigger] self@[b].key@) by {
                if b < pre.len() {
                    assert(pre[a].key@ != pre[b].key@);
                } else {
                    assert(self@[b] == gentry);
                    assert(self@[a].key@ != gentry.key@);
                }
            }
            assert(gentry.files@ =~= seq![fi]);
        }
    }

    /// Record the header checksum of one candidate; every other group,
    /// member and field is untouched.
    pub fn set_checksum(&mut self, gi: usize, a: usize, c: i64)
        requires
            old(self).wf(),
            gi < old(self)@.len(),
            a < old(self)@[gi as int].files@.len(),
        ensures
            final(self).wf(),
            final(self)@.len() == old(self)@.len(),
            forall|i: int|
                0 <= i < old(self)@.len() && i != gi ==> final(self)@[i] == old(self)@[i],
            final(self)@[gi as int].key == old(self)@[gi as int].key,
            final(self)@[gi as int].files@.len() == old(self)@[gi as int].files@.len(),
            forall|b: int|
                0 <= b < old(self)@[gi as int].files@.len() && b != a ==> final(self)@[gi as int].files@[b]
                    == old(self)@[gi as int].files@[b],
            final(self)@[gi as int].files@[a as int].path == old(self)@[gi as int].files@[a as int].path,
            final(self)@[gi as int].files@[a as int].size == old(self)@[gi as int].files@[a as int].size,
            final(self)@[gi as int].files@[a as int].checksum == c,
    {
        let mut entry = self.entries.remove(gi);
        let f = entry.files.remove(a);
        let nf = FileInfo { path: f.path, size: f.size, checksum: c };
        let ghost gnf = nf;
        entry.files.insert(a, nf);
        proof {
            assert(entry.files@ =~= old(self)@[gi as int].files@.update(a as int, gnf));
        }
        let ghost gentry = entry;
        self.entries.insert(gi, entry);
        proof {
            assert(self@ =~= old(self)@.update(gi as int, gentry));
            assert forall|i: int, j: int|
                0 <= i < j < self@.len() implies (#[trigger] self@[i].key@) != (
            #[trigger] self@[j].key@) by {
                assert(self@[i].key@ == old(self)@[i].key@);
                assert(self@[j].key@ == old(self)@[j].key@);
            }
        }
    }

    /// Prune the groups that cannot hold a duplicate: afterwards every
    /// group has at least two members, every group of two or more members
    /// is kept, and nothing new appears.
    pub fn retain_multi(&mut self)
        requires
            old(self).wf(),
        ensures
            final(self).wf(),
            forall|i: int|
                0 <= i < final(self)@.len() ==> (#[trigger] final(self)@[i]).files@.len() >= 2,
            forall|i: int| 0 <= i < final(self)@.len() ==> entry_in(old(self)@, #[trigger] final(self)@[i]),
            forall|j: int|
                0 <= j < old(self)@.len() && (#[trigger] old(self)@[j]).files@.len() >= 2
                    ==> entry_in(final(self)@, old(self)@[j]),
    {
        let mut work: Vec<GroupEntry> = Vec::new();
        core::mem::swap(&mut work, &mut self.entries);
        let ghost orig = work@;
        let n = work.len();
        let mut kept: Vec<GroupEntry> = Vec::new();
        let ghost mut src: Seq<int> = Seq::empty();
        let mut j: usize = 0;
        while j < n
            invariant
                j <= n,
                n == orig.len(),
                orig == old(self)@,
                old(self).wf(),
                work@ =~= orig.skip(j as int),
                src.len() == kept@.len(),
                forall|a: int|
                    0 <= a < kept@.len() ==> 0 <= #[trigger] src[a] < j && kept@[a] == orig[src[a]],
                forall|a1: int, a2: int| 0 <= a1 < a2 < src.len() ==> src[a1] < src[a2],
                forall|a: int| 0 <= a < kept@.len() ==> (#[trigger] kept@[a]).files@.len() >= 2,
                forall|jb: int|
                    0 <= jb < j && (#[trigger] orig[jb]).files@.len() >= 2 ==> entry_in(
                        kept@,
                        orig[jb],
                    ),
            decreases n - j,
        {
            let e = work.remove(0);
            proof {
                assert(e == orig[j as int]);
                assert(orig.skip(j as int).remove(0) =~= orig.skip(j + 1));
            }
            if e.files.len() > 1 {
                let ghost ge = e;
                let ghost kept_pre = kept@;
                kept.push(e);
                proof {
                    src = src.push(j as int);
                    assert(kept@ == kept_pre.push(ge));
                    assert forall|jb: int|
                        0 <= jb < j + 1 && (#[trigger] orig[jb]).files@.len() >= 2 implies entry_in(
                        kept@,
                        orig[jb],
                    ) by {
                        if jb == j {
                            assert(kept@[kept@.len() - 1] == orig[jb]);
                        } else {
                            let a = choose|a: int|
                                0 <= a < kept_pre.len() && kept_pre[a] == orig[jb];
                            assert(kept@[a] == orig[jb]);
                        }
                    }
                }
            } else {
                proof {
                    assert(orig[j as int].files@.len() < 2);
                }
            }
            j = j + 1;
        }
        self.entries = kept;
        proof {
            assert forall|a: int, b: int|
                0 <= a < b < self@.len() implies (#[trigger] self@[a].key@) != (
            #[trigger] self@[b].key@) by {
                assert(self@[a] == orig[src[a]]);
                assert(self@[b] == orig[src[b]]);
                assert(src[a] < src[b]);
            }
            assert forall|i: int| 0 <= i < self@.len() implies entry_in(
                old(self)@,
                #[trigger] self@[i],
            ) by {
                assert(orig[src[i]] == self@[i]);
            }
        }
    }
}

} // verus!

//! The scan engine: directory traversal, candidate grouping, checksum
//! confirmation and duplicate-set assembly.
//!
//! The walk and the tag probe reach the outside world through trusted
//! wrappers; every decision taken on what they return is verified. File
//! contents are handed in by the caller (who alone may touch the
//! filesystem): the engine says which paths it needs, and takes the bytes
//! or checksums back as plain values.

use vstd::prelude::*;
use vstd::string::StringExecFns;

use crate::file_utils::byte_sum;
use crate::file_utils::get_extension;
use crate::file_utils::lemma_distinct_sizes_distinct_keys;
use crate::file_utils::spec_binary_key;
use crate::file_utils::spec_extension_of;
use crate::file_utils::wf_ext;
use crate::grouping::entry_in;
use crate::grouping::FileInfo;
use crate::grouping::GroupEntry;
use crate::grouping::GroupMap;
use crate::lofty_utils::get_short_audio_key;
use crate::mediatype::spec_entry_selected;
use crate::mediatype::spec_known;
use crate::mediatype::MediaGroup;
use crate::mediatype::ScanType;
use crate::messenger::DuplicateRecord;
use crate::messenger::Messenger;

verus! {

/// One filesystem entry as the walker yields it: its path, whether it is a
/// directory, and its size or the error met reading its metadata.
pub struct WalkEntry {
    pub path: String,
    pub is_dir: bool,
    pub meta: Result<u64, String>,
}

/// Relies on walkdir::WalkDir: enumerates every entry under `root`
/// (the root itself first), without following symlinks; an unreadable
/// entry comes through as the error text. What comes back depends on the
/// disk, so nothing is promised of it.
#[verifier::external_body]
fn walk_tree(root: &String) -> Vec<Result<WalkEntry, String>> {
    let mut v: Vec<Result<WalkEntry, String>> = Vec::new();
    for item in walkdir::WalkDir::new(root.as_str()) {
        v.push(match item {
            Ok(e) => Ok(WalkEntry {
                path: e.path().to_string_lossy().into_owned(),
                is_dir: e.file_type().is_dir(),
                meta: e.metadata().map(|m| m.len()).map_err(|x| format!("{}", x)),
            }),
            Err(e) => Err(format!("{}", e)),
        });
    }
    v
}

/// Whether any catalog group knows the extension.
pub open spec fn spec_catalog_known(groups: Seq<MediaGroup>, ext: Seq<char>) -> bool {
    exists|i: int| 0 <= i < groups.len() && spec_known(groups[i].media_types@, ext)
}

/// Whether some catalog group both knows the extension and has it enabled.
pub open spec fn spec_catalog_accepts(groups: Seq<MediaGroup>, ext: Seq<char>) -> bool {
    exists|i: int|
        0 <= i < groups.len() && spec_known(groups[i].media_types@, ext) && groups[i].selected
            && spec_entry_selected(groups[i].media_types@, ext)
}

fn catalog_known(groups: &Vec<MediaGroup>, ext: &str) -> (r: bool)
    ensures
        r == spec_catalog_known(groups@, ext@),
{
    let mut i: usize = 0;
    while i < groups.len()
        invariant
            i <= groups@.len(),
            forall|j: int| 0 <= j < i ==> !spec_known((#[trigger] groups@[j]).media_types@, ext@),
        decreases groups@.len() - i,
    {
        if groups[i].is_known_extension(ext) {
            return true;
        }
        i = i + 1;
    }
    false
}

fn catalog_accepts(groups: &Vec<MediaGroup>, ext: &str) -> (r: bool)
    ensures
        r == spec_catalog_accepts(groups@, ext@),
{
    let mut i: usize = 0;
    while i < groups.len()
        invariant
            i <= groups@.len(),
            forall|j: int|
                0 <= j < i ==> !(spec_known((#[trigger] groups@[j]).media_types@, ext@)
                    && groups@[j].selected && spec_entry_selected(groups@[j].media_types@, ext@)),
        decreases groups@.len() - i,
    {
        if groups[i].is_known_extension(ext) && groups[i].is_selected(ext) {
            return true;
        }
        i = i + 1;
    }
    false
}

/// In content mode every group's key records its members' byte length and
/// a well-formed extension.
pub open spec fn groups_keyed_binary(g: Seq<GroupEntry>) -> bool {
    forall|i: int, a: int|
        0 <= i < g.len() && 0 <= a < (#[trigger] g[i]).files@.len() ==> g[i].key@
            == spec_binary_key((#[trigger] g[i].files@[a]).path@, g[i].files@[a].size) && wf_ext(
            spec_extension_of(g[i].files@[a].path@),
        )
}

/// Two members of one group always have one byte length.
pub open spec fn groups_same_size(g: Seq<GroupEntry>) -> bool {
    forall|i: int, a: int, b: int|
        0 <= i < g.len() && 0 <= a < (#[trigger] g[i]).files@.len() && 0 <= b
            < g[i].files@.len() ==> (#[trigger] g[i].files@[a]).size == (
        #[trigger] g[i].files@[b]).size
}

/// No candidate of a freshly built map carries a checksum yet.
pub open spec fn groups_unset_checksums(g: Seq<GroupEntry>) -> bool {
    forall|i: int, a: int|
        0 <= i < g.len() && 0 <= a < (#[trigger] g[i]).files@.len() ==> (
        #[trigger] g[i].files@[a]).checksum == 0
}

/// Files of different byte length never share a candidate group: the
/// grouping key starts with the decimal length, so equal keys force equal
/// lengths.
pub proof fn lemma_groups_same_size(g: Seq<GroupEntry>)
    requires
        groups_keyed_binary(g),
    ensures
        groups_same_size(g),
{
    assert forall|i: int, a: int, b: int|
        0 <= i < g.len() && 0 <= a < (#[trigger] g[i]).files@.len() && 0 <= b
            < g[i].files@.len() implies (#[trigger] g[i].files@[a]).size == (
    #[trigger] g[i].files@[b]).size by {
        let fa = g[i].files@[a];
        let fb = g[i].files@[b];
        assert(g[i].key@ == spec_binary_key(fa.path@, fa.size));
        assert(g[i].key@ == spec_binary_key(fb.path@, fb.size));
        if fa.size != fb.size {
            lemma_distinct_sizes_distinct_keys(
                fa.size,
                fb.size,
                spec_extension_of(fa.path@),
                spec_extension_of(fb.path@),
            );
        }
    }
}

/// Whether a walked entry passes the filter, in either mode: a readable,
/// non-directory entry whose extension the catalog has enabled. Metadata
/// mode additionally needs a computable key before the entry is grouped.
pub open spec fn accepted_entry(e: Result<WalkEntry, String>, mg: Seq<MediaGroup>) -> bool {
    match e {
        Ok(we) => !we.is_dir && we.meta is Ok && spec_catalog_accepts(
            mg,
            spec_extension_of(we.path@),
        ),
        Err(_) => false,
    }
}

/// The scanned-log line an accepted entry produces in content mode.
pub open spec fn stdline_of(we: WalkEntry) -> Seq<char> {
    spec_binary_key(we.path@, we.meta->Ok_0) + " : "@ + we.path@
}

/// The scanned-log lines of all accepted entries, in walk order.
pub open spec fn accepted_lines(
    entries: Seq<Result<WalkEntry, String>>,
    mg: Seq<MediaGroup>,
) -> Seq<Seq<char>>
    decreases entries.len(),
{
    if entries.len() == 0 {
        Seq::empty()
    } else {
        (if accepted_entry(entries[0], mg) {
            seq![stdline_of(entries[0]->Ok_0)]
        } else {
            Seq::empty()
        }) + accepted_lines(entries.skip(1), mg)
    }
}

/// The text of each log line.
pub open spec fn log_views(s: Seq<String>) -> Seq<Seq<char>> {
    s.map_values(|x: String| x@)
}

proof fn lemma_accepted_lines_step(
    entries: Seq<Result<WalkEntry, String>>,
    mg: Seq<MediaGroup>,
    k: int,
)
    requires
        0 <= k < entries.len(),
    ensures
        accepted_lines(entries.skip(k), mg) == (if accepted_entry(entries[k], mg) {
            seq![stdline_of(entries[k]->Ok_0)]
        } else {
            Seq::<Seq<char>>::empty()
        }) + accepted_lines(entries.skip(k + 1), mg),
{
    assert(entries.skip(k)[0] == entries[k]);
    assert(entries.skip(k).skip(1) =~= entries.skip(k + 1));
}

/// The error-log lines one walked entry produces in content mode: the
/// walker's or the metadata read's error text, or the unknown-extension
/// line; a directory, a known-but-disabled entry and an accepted entry log
/// nothing.
pub open spec fn error_line_binary(
    e: Result<WalkEntry, String>,
    mg: Seq<MediaGroup>,
) -> Seq<Seq<char>> {
    match e {
        Err(t) => seq!["Error="@ + t@],
        Ok(we) => if we.is_dir {
            Seq::empty()
        } else {
            match we.meta {
                Err(t) => seq!["Error="@ + t@],
                Ok(_) => if !spec_catalog_known(mg, spec_extension_of(we.path@)) {
                    seq![
                        "Extension "@ + spec_extension_of(we.path@) + " ignored: "@ + we.path@,
                    ]
                } else {
                    Seq::empty()
                },
            }
        },
    }
}

/// The error-log lines of the whole walk in content mode, in walk order.
pub open spec fn error_lines_binary(
    entries: Seq<Result<WalkEntry, String>>,
    mg: Seq<MediaGroup>,
) -> Seq<Seq<char>>
    decreases entries.len(),
{
    if entries.len() == 0 {
        Seq::empty()
    } else {
        error_line_binary(entries[0], mg) + error_lines_binary(entries.skip(1), mg)
    }
}

proof fn lemma_error_lines_step(
    entries: Seq<Result<WalkEntry, String>>,
    mg: Seq<MediaGroup>,
    k: int,
)
    requires
        0 <= k < entries.len(),
    ensures
        error_lines_binary(entries.skip(k), mg) == error_line_binary(entries[k], mg)
            + error_lines_binary(entries.skip(k + 1), mg),
{
    assert(entries.skip(k)[0] == entries[k]);
    assert(entries.skip(k).skip(1) =~= entries.skip(k + 1));
}

/// Whether the line ends with `" : "` and the entry's path, as every
/// scanned-log line of the walk does after its grouping key.
pub open spec fn line_names_entry(line: Seq<char>, e: Result<WalkEntry, String>) -> bool {
    let tail = " : "@ + e->Ok_0.path@;
    tail.len() <= line.len() && line.skip(line.len() - tail.len()) == tail
}

/// Whether the line names the path of some accepted entry of the walk.
pub open spec fn stdlog_line_sourced(
    line: Seq<char>,
    entries: Seq<Result<WalkEntry, String>>,
    mg: Seq<MediaGroup>,
) -> bool {
    exists|k: int|
        0 <= k < entries.len() && accepted_entry(#[trigger] entries[k], mg) && line_names_entry(
            line,
            entries[k],
        )
}

/// The candidate an accepted entry yields.
pub open spec fn file_of_entry(e: Result<WalkEntry, String>) -> FileInfo {
    FileInfo { path: e->Ok_0.path, size: e->Ok_0.meta->Ok_0, checksum: 0 }
}

/// The content-mode key an accepted entry groups under.
pub open spec fn key_of_entry(e: Result<WalkEntry, String>) -> Seq<char> {
    spec_binary_key(e->Ok_0.path@, e->Ok_0.meta->Ok_0)
}

/// Whether the candidate stands among these members.
pub open spec fn member_in_files(fs: Seq<FileInfo>, f: FileInfo) -> bool {
    exists|a: int| 0 <= a < fs.len() && (#[trigger] fs[a]) == f
}

/// Whether the map holds the entry's candidate under the entry's key.
pub open spec fn entry_in_map(
    g: Seq<GroupEntry>,
    e: Result<WalkEntry, String>,
) -> bool {
    exists|gi: int|
        0 <= gi < g.len() && (#[trigger] g[gi]).key@ == key_of_entry(e) && member_in_files(
            g[gi].files@,
            file_of_entry(e),
        )
}

/// Whether the map holds both entries' candidates in one group of two or
/// more members, keyed by their shared key.
pub open spec fn pair_grouped(
    g: Seq<GroupEntry>,
    e1: Result<WalkEntry, String>,
    e2: Result<WalkEntry, String>,
) -> bool {
    exists|gi: int|
        0 <= gi < g.len() && (#[trigger] g[gi]).key@ == key_of_entry(e1) && g[gi].files@.len() >= 2
            && member_in_files(g[gi].files@, file_of_entry(e1)) && member_in_files(
            g[gi].files@,
            file_of_entry(e2),
        )
}

/// Every pair of accepted entries sharing one key is grouped together.
pub open spec fn pairs_grouped(
    g: Seq<GroupEntry>,
    entries: Seq<Result<WalkEntry, String>>,
    mg: Seq<MediaGroup>,
    upto: int,
) -> bool {
    forall|k1: int, k2: int|
        #![trigger entries[k1], entries[k2]]
        0 <= k1 < k2 < upto && k2 < entries.len() && accepted_entry(entries[k1], mg)
            && accepted_entry(entries[k2], mg) && key_of_entry(entries[k1]) == key_of_entry(
            entries[k2],
        ) ==> pair_grouped(g, entries[k1], entries[k2])
}

/// Whether this candidate is what some accepted entry of the walk yields.
pub open spec fn member_sourced(
    f: FileInfo,
    entries: Seq<Result<WalkEntry, String>>,
    mg: Seq<MediaGroup>,
) -> bool {
    exists|k: int|
        0 <= k < entries.len() && accepted_entry(#[trigger] entries[k], mg) && f == file_of_entry(
            entries[k],
        )
}

/// Every grouped candidate stems from an accepted entry of the walk.
pub open spec fn members_from_entries(
    g: Seq<GroupEntry>,
    entries: Seq<Result<WalkEntry, String>>,
    mg: Seq<MediaGroup>,
) -> bool {
    forall|gi: int, a: int|
        #![trigger g[gi].files@[a]]
        0 <= gi < g.len() && 0 <= a < g[gi].files@.len() ==> member_sourced(
            g[gi].files@[a],
            entries,
            mg,
        )
}

proof fn lemma_member_in_files_push(fs: Seq<FileInfo>, x: FileInfo, f: FileInfo)
    ensures
        member_in_files(fs, f) ==> member_in_files(fs.push(x), f),
        member_in_files(fs.push(x), x),
{
    if member_in_files(fs, f) {
        let a = choose|a: int| 0 <= a < fs.len() && (#[trigger] fs[a]) == f;
        assert(fs.push(x)[a] == f);
    }
    assert(fs.push(x)[fs.len() as int] == x);
}

/// Inserting one accepted entry's candidate keeps every grouped entry and
/// every grouped pair, grows a pair out of any earlier accepted entry of
/// the same key, and files the new entry under its key.
proof fn lemma_insert_groups_entry(
    pre: Seq<GroupEntry>,
    post: Seq<GroupEntry>,
    key: Seq<char>,
    fi: FileInfo,
    entries: Seq<Result<WalkEntry, String>>,
    mg: Seq<MediaGroup>,
    cur: int,
)
    requires
        0 <= cur < entries.len(),
        accepted_entry(entries[cur], mg),
        fi == file_of_entry(entries[cur]),
        key == key_of_entry(entries[cur]),
        forall|k: int|
            0 <= k < cur && accepted_entry(entries[k], mg) ==> entry_in_map(
                pre,
                #[trigger] entries[k],
            ),
        pairs_grouped(pre, entries, mg, cur),
        forall|i: int|
            0 <= i < pre.len() && (#[trigger] pre[i]).key@ != key ==> post[i] == pre[i],
        forall|i: int|
            0 <= i < pre.len() && (#[trigger] pre[i]).key@ == key ==> post[i].key == pre[i].key
                && post[i].files@ == pre[i].files@.push(fi),
        crate::grouping::spec_known_key(pre, key) ==> post.len() == pre.len(),
        !crate::grouping::spec_known_key(pre, key) ==> post.len() == pre.len() + 1
            && post[pre.len() as int].key@ == key && post[pre.len() as int].files@ =~= seq![fi],
    ensures
        forall|k: int|
            0 <= k < cur + 1 && accepted_entry(entries[k], mg) ==> entry_in_map(
                post,
                #[trigger] entries[k],
            ),
        pairs_grouped(post, entries, mg, cur + 1),
{
    assert forall|k: int|
        0 <= k < cur + 1 && accepted_entry(entries[k], mg) implies entry_in_map(
        post,
        #[trigger] entries[k],
    ) by {
        if k < cur {
            let gi = choose|gi: int|
                0 <= gi < pre.len() && (#[trigger] pre[gi]).key@ == key_of_entry(entries[k])
                    && member_in_files(pre[gi].files@, file_of_entry(entries[k]));
            if pre[gi].key@ == key {
                assert(post[gi].files@ == pre[gi].files@.push(fi));
                lemma_member_in_files_push(pre[gi].files@, fi, file_of_entry(entries[k]));
                assert(post[gi].key@ == key_of_entry(entries[k]));
                assert(entry_in_map(post, entries[k]));
            } else {
                assert(post[gi] == pre[gi]);
                assert(entry_in_map(post, entries[k]));
            }
        } else {
            if crate::grouping::spec_known_key(pre, key) {
                let gi = choose|gi: int| 0 <= gi < pre.len() && (#[trigger] pre[gi]).key@ == key;
                assert(post[gi].files@ == pre[gi].files@.push(fi));
                lemma_member_in_files_push(pre[gi].files@, fi, fi);
                assert(post[gi].key@ == key);
                assert(entry_in_map(post, entries[k]));
            } else {
                assert(post[pre.len() as int].key@ == key);
                assert(post[pre.len() as int].files@ =~= seq![fi]);
                assert(member_in_files(post[pre.len() as int].files@, fi)) by {
                    assert(post[pre.len() as int].files@[0] == fi);
                }
                assert(entry_in_map(post, entries[k]));
            }
        }
    }
    assert forall|k1: int, k2: int|
        #![trigger entries[k1], entries[k2]]
        0 <= k1 < k2 < cur + 1 && k2 < entries.len() && accepted_entry(entries[k1], mg)
            && accepted_entry(entries[k2], mg) && key_of_entry(entries[k1]) == key_of_entry(
            entries[k2],
        ) implies pair_grouped(post, entries[k1], entries[k2]) by {
        if k2 < cur {
            let gi = choose|gi: int|
                0 <= gi < pre.len() && (#[trigger] pre[gi]).key@ == key_of_entry(entries[k1])
                    && pre[gi].files@.len() >= 2 && member_in_files(
                    pre[gi].files@,
                    file_of_entry(entries[k1]),
                ) && member_in_files(pre[gi].files@, file_of_entry(entries[k2]));
            if pre[gi].key@ == key {
                assert(post[gi].files@ == pre[gi].files@.push(fi));
                lemma_member_in_files_push(pre[gi].files@, fi, file_of_entry(entries[k1]));
                lemma_member_in_files_push(pre[gi].files@, fi, file_of_entry(entries[k2]));
                assert(post[gi].key@ == key_of_entry(entries[k1]));
                assert(pair_grouped(post, entries[k1], entries[k2]));
            } else {
                assert(post[gi] == pre[gi]);
                assert(pair_grouped(post, entries[k1], entries[k2]));
            }
        } else {
            assert(k2 == cur);
            assert(key_of_entry(entries[k1]) == key);
            assert(entry_in_map(pre, entries[k1]));
            let gi = choose|gi: int|
                0 <= gi < pre.len() && (#[trigger] pre[gi]).key@ == key_of_entry(entries[k1])
                    && member_in_files(pre[gi].files@, file_of_entry(entries[k1]));
            assert(pre[gi].key@ == key);
            assert(post[gi].files@ == pre[gi].files@.push(fi));
            assert(pre[gi].files@.len() >= 1) by {
                let a = choose|a: int|
                    0 <= a < pre[gi].files@.len() && (#[trigger] pre[gi].files@[a])
                        == file_of_entry(entries[k1]);
            }
            lemma_member_in_files_push(pre[gi].files@, fi, file_of_entry(entries[k1]));
            lemma_member_in_files_push(pre[gi].files@, fi, fi);
            assert(post[gi].files@.len() >= 2);
            assert(post[gi].key@ == key_of_entry(entries[k1]));
            assert(pair_grouped(post, entries[k1], entries[k2]));
        }
    }
}

/// Pruning keeps every grouped pair: a group of two or more members
/// survives whole.
proof fn lemma_retain_keeps_pairs(
    pre: Seq<GroupEntry>,
    post: Seq<GroupEntry>,
    entries: Seq<Result<WalkEntry, String>>,
    mg: Seq<MediaGroup>,
    upto: int,
)
    requires
        pairs_grouped(pre, entries, mg, upto),
        forall|j: int|
            0 <= j < pre.len() && (#[trigger] pre[j]).files@.len() >= 2 ==> entry_in(post, pre[j]),
    ensures
        pairs_grouped(post, entries, mg, upto),
{
    assert forall|k1: int, k2: int|
        #![trigger entries[k1], entries[k2]]
        0 <= k1 < k2 < upto && k2 < entries.len() && accepted_entry(entries[k1], mg)
            && accepted_entry(entries[k2], mg) && key_of_entry(entries[k1]) == key_of_entry(
            entries[k2],
        ) implies pair_grouped(post, entries[k1], entries[k2]) by {
        let gi = choose|gi: int|
            0 <= gi < pre.len() && (#[trigger] pre[gi]).key@ == key_of_entry(entries[k1])
                && pre[gi].files@.len() >= 2 && member_in_files(
                pre[gi].files@,
                file_of_entry(entries[k1]),
            ) && member_in_files(pre[gi].files@, file_of_entry(entries[k2]));
        assert(entry_in(post, pre[gi]));
        let i2 = choose|i2: int| 0 <= i2 < post.len() && post[i2] == pre[gi];
        assert(post[i2].key@ == key_of_entry(entries[k1]));
        assert(pair_grouped(post, entries[k1], entries[k2]));
    }
}

/// An insert of an accepted entry's candidate keeps every member sourced
/// from the walk.
proof fn lemma_insert_keeps_members(
    pre: Seq<GroupEntry>,
    post: Seq<GroupEntry>,
    key: Seq<char>,
    fi: FileInfo,
    entries: Seq<Result<WalkEntry, String>>,
    mg: Seq<MediaGroup>,
)
    requires
        members_from_entries(pre, entries, mg),
        member_sourced(fi, entries, mg),
        forall|i: int|
            0 <= i < pre.len() && (#[trigger] pre[i]).key@ != key ==> post[i] == pre[i],
        forall|i: int|
            0 <= i < pre.len() && (#[trigger] pre[i]).key@ == key ==> post[i].key == pre[i].key
                && post[i].files@ == pre[i].files@.push(fi),
        crate::grouping::spec_known_key(pre, key) ==> post.len() == pre.len(),
        !crate::grouping::spec_known_key(pre, key) ==> post.len() == pre.len() + 1
            && post[pre.len() as int].files@ =~= seq![fi],
    ensures
        members_from_entries(post, entries, mg),
{
    assert forall|gi: int, a: int|
        #![trigger post[gi].files@[a]]
        0 <= gi < post.len() && 0 <= a < post[gi].files@.len() implies member_sourced(
        post[gi].files@[a],
        entries,
        mg,
    ) by {
        if gi < pre.len() {
            if pre[gi].key@ == key {
                assert(post[gi].files@ == pre[gi].files@.push(fi));
                if a < pre[gi].files@.len() {
                    assert(post[gi].files@[a] == pre[gi].files@[a]);
                    assert(member_sourced(pre[gi].files@[a], entries, mg));
                } else {
                    assert(post[gi].files@[a] == fi);
                }
            } else {
                assert(post[gi] == pre[gi]);
                assert(member_sourced(pre[gi].files@[a], entries, mg));
            }
        } else {
            assert(!crate::grouping::spec_known_key(pre, key)) by {
                if crate::grouping::spec_known_key(pre, key) {
                    assert(post.len() == pre.len());
                }
            }
            assert(post[gi].files@ =~= seq![fi]);
            assert(post[gi].files@[a] == fi);
        }
    }
}

/// Pruning keeps every member sourced from the walk: the kept groups all
/// stood in the map before.
proof fn lemma_retain_keeps_members(
    pre: Seq<GroupEntry>,
    post: Seq<GroupEntry>,
    entries: Seq<Result<WalkEntry, String>>,
    mg: Seq<MediaGroup>,
)
    requires
        members_from_entries(pre, entries, mg),
        forall|i: int| 0 <= i < post.len() ==> entry_in(pre, #[trigger] post[i]),
    ensures
        members_from_entries(post, entries, mg),
{
    assert forall|gi: int, a: int|
        #![trigger post[gi].files@[a]]
        0 <= gi < post.len() && 0 <= a < post[gi].files@.len() implies member_sourced(
        post[gi].files@[a],
        entries,
        mg,
    ) by {
        assert(entry_in(pre, post[gi]));
        let j = choose|j: int| 0 <= j < pre.len() && pre[j] == post[gi];
        assert(pre[j].files@[a] == post[gi].files@[a]);
        assert(member_sourced(pre[j].files@[a], entries, mg));
    }
}

/// Walk the enumerated entries: filter by catalog, compute each accepted
/// entry's grouping key, log it, and group it; then prune the groups that
/// cannot hold a duplicate. In content mode the scanned log gains exactly
/// one line per accepted entry, in walk order, and every grouped candidate
/// stems from an accepted entry. A cancelled scan appends nothing to the
/// scanned log and yields no groups.
pub fn walk_dir(
    entries: &Vec<Result<WalkEntry, String>>,
    scan_type: &ScanType,
    media_groups: &Vec<MediaGroup>,
    messenger: &mut Messenger,
) -> (groups: GroupMap)
    requires
        old(messenger).wf(),
    ensures
        final(messenger).wf(),
        old(messenger).logs_extended(final(messenger)),
        final(messenger).reslog_spec() == old(messenger).reslog_spec(),
        final(messenger).checked_spec() == old(messenger).checked_spec(),
        final(messenger).control_spec() == old(messenger).control_spec(),
        final(messenger).progress_spec() == old(messenger).progress_spec(),
        final(messenger).info_spec() == "Scanning..."@,
        old(messenger).cancelled_spec() ==> final(messenger).stdlog_spec() == old(messenger).stdlog_spec() && groups@.len() == 0,
        groups.wf(),
        forall|i: int| 0 <= i < groups@.len() ==> (#[trigger] groups@[i]).files@.len() >= 2,
        *scan_type == ScanType::BINARY ==> groups_keyed_binary(groups@) && groups_same_size(
            groups@,
        ) && groups_unset_checksums(groups@),
        (*scan_type == ScanType::BINARY && !old(messenger).cancelled_spec()) ==> log_views(
            final(messenger).stdlog_spec(),
        ) =~= log_views(old(messenger).stdlog_spec()) + accepted_lines(entries@, media_groups@),
        (*scan_type == ScanType::BINARY && !old(messenger).cancelled_spec()) ==> log_views(
            final(messenger).errlog_spec(),
        ) =~= log_views(old(messenger).errlog_spec()) + error_lines_binary(
            entries@,
            media_groups@,
        ),
        members_from_entries(groups@, entries@, media_groups@),
        forall|j: int|
            old(messenger).stdlog_spec().len() <= j < final(messenger).stdlog_spec().len()
                ==> stdlog_line_sourced(
                (#[trigger] final(messenger).stdlog_spec()[j])@,
                entries@,
                media_groups@,
            ),
        (*scan_type == ScanType::BINARY && !old(messenger).cancelled_spec()) ==> pairs_grouped(
            groups@,
            entries@,
            media_groups@,
            entries@.len() as int,
        ),
    {
        messenger.set_info("Scanning...".to_owned());
        let mut gm = GroupMap::new();
        proof {
            assert(gm@.len() == 0);
            assert(members_from_entries(gm@, entries@, media_groups@));
        }
        if messenger.is_stopped() || messenger.is_interrupted() {
            return gm;
        }
        proof {
            assert(entries@.skip(0) =~= entries@);
        }
        let n = entries.len();
        let mut e_i: usize = 0;
        while e_i < n
            invariant
                e_i <= n,
                n == entries@.len(),
                messenger.wf(),
                old(messenger).logs_extended(messenger),
                messenger.reslog_spec() == old(messenger).reslog_spec(),
                messenger.checked_spec() == old(messenger).checked_spec(),
                messenger.control_spec() == old(messenger).control_spec(),
                messenger.progress_spec() == old(messenger).progress_spec(),
                messenger.info_spec() == "Scanning..."@,
                !old(messenger).cancelled_spec(),
                gm.wf(),
                *scan_type == ScanType::BINARY ==> groups_keyed_binary(gm@)
                    && groups_unset_checksums(gm@),
                *scan_type == ScanType::BINARY ==> log_views(messenger.stdlog_spec())
                    + accepted_lines(entries@.skip(e_i as int), media_groups@) =~= log_views(
                    old(messenger).stdlog_spec(),
                ) + accepted_lines(entries@, media_groups@),
                *scan_type == ScanType::BINARY ==> log_views(messenger.errlog_spec())
                    + error_lines_binary(entries@.skip(e_i as int), media_groups@) =~= log_views(
                    old(messenger).errlog_spec(),
                ) + error_lines_binary(entries@, media_groups@),
                members_from_entries(gm@, entries@, media_groups@),
                forall|j: int|
                    old(messenger).stdlog_spec().len() <= j < messenger.stdlog_spec().len()
                        ==> stdlog_line_sourced(
                        (#[trigger] messenger.stdlog_spec()[j])@,
                        entries@,
                        media_groups@,
                    ),
                *scan_type == ScanType::BINARY ==> forall|k: int|
                    0 <= k < e_i && accepted_entry(entries@[k], media_groups@) ==> entry_in_map(
                        gm@,
                        #[trigger] entries@[k],
                    ),
                *scan_type == ScanType::BINARY ==> pairs_grouped(
                    gm@,
                    entries@,
                    media_groups@,
                    e_i as int,
                ),
            ensures
                e_i == n,
            decreases n - e_i,
        {
            let ghost pre_std = messenger.stdlog_spec();
            let ghost pre_err = messenger.errlog_spec();
            proof {
                if *scan_type == ScanType::BINARY {
                    lemma_accepted_lines_step(entries@, media_groups@, e_i as int);
                    lemma_error_lines_step(entries@, media_groups@, e_i as int);
                }
            }
            if messenger.is_stopped() || messenger.is_interrupted() {
                break ;
            }
            match &entries[e_i] {
                Err(e) => {
                    let ghost emsg = "Error="@ + e@;
                    messenger.push_errlog("Error=".to_owned().concat(e.as_str()));
                    proof {
                        assert(!accepted_entry(entries@[e_i as int], media_groups@));
                        if *scan_type == ScanType::BINARY {
                            assert(error_line_binary(entries@[e_i as int], media_groups@)
                                =~= seq![emsg]);
                            assert(log_views(messenger.errlog_spec()) =~= log_views(
                                pre_err,
                            ).push(emsg));
                            assert(log_views(messenger.errlog_spec()) =~= log_views(pre_err)
                                + error_line_binary(entries@[e_i as int], media_groups@));
                        }
                    }
                },
                Ok(we) => {
                    if we.is_dir {
                        proof {
                            assert(!accepted_entry(entries@[e_i as int], media_groups@));
                            if *scan_type == ScanType::BINARY {
                                assert(error_line_binary(entries@[e_i as int], media_groups@)
                                    =~= Seq::<Seq<char>>::empty());
                                assert(log_views(messenger.errlog_spec()) =~= log_views(pre_err)
                                    + error_line_binary(entries@[e_i as int], media_groups@));
                            }
                        }
                    } else {
                        match &we.meta {
                            Err(e) => {
                                let ghost emsg = "Error="@ + e@;
                                messenger.push_errlog("Error=".to_owned().concat(e.as_str()));
                                proof {
                                    assert(!accepted_entry(entries@[e_i as int], media_groups@));
                                    if *scan_type == ScanType::BINARY {
                                        assert(error_line_binary(
                                            entries@[e_i as int],
                                            media_groups@,
                                        ) =~= seq![emsg]);
                                        assert(log_views(messenger.errlog_spec()) =~= log_views(
                                            pre_err,
                                        ).push(emsg));
                                        assert(log_views(messenger.errlog_spec()) =~= log_views(
                                            pre_err,
                                        ) + error_line_binary(
                                            entries@[e_i as int],
                                            media_groups@,
                                        ));
                                    }
                                }
                            },
                            Ok(size) => {
                                let extension = get_extension(we.path.as_str());
                                if !catalog_known(media_groups, extension.as_str()) {
                                    let ghost emsg = "Extension "@ + spec_extension_of(we.path@)
                                        + " ignored: "@ + we.path@;
                                    let msg = "Extension ".to_owned().concat(
                                        extension.as_str(),
                                    ).concat(" ignored: ").concat(we.path.as_str());
                                    proof {
                                        assert(msg@ == emsg);
                                    }
                                    messenger.push_errlog(msg);
                                    proof {
                                        if *scan_type == ScanType::BINARY {
                                            assert(error_line_binary(
                                                entries@[e_i as int],
                                                media_groups@,
                                            ) =~= seq![emsg]);
                                            assert(log_views(messenger.errlog_spec())
                                                =~= log_views(pre_err).push(emsg));
                                            assert(log_views(messenger.errlog_spec())
                                                =~= log_views(pre_err) + error_line_binary(
                                                entries@[e_i as int],
                                                media_groups@,
                                            ));
                                        }
                                        assert(!accepted_entry(
                                            entries@[e_i as int],
                                            media_groups@,
                                        )) by {
                                            if spec_catalog_accepts(
                                                media_groups@,
                                                spec_extension_of(we.path@),
                                            ) {
                                                let w = choose|w: int|
                                                    0 <= w < media_groups@.len() && spec_known(
                                                        media_groups@[w].media_types@,
                                                        spec_extension_of(we.path@),
                                                    ) && media_groups@[w].selected
                                                        && spec_entry_selected(
                                                        media_groups@[w].media_types@,
                                                        spec_extension_of(we.path@),
                                                    );
                                                assert(spec_catalog_known(
                                                    media_groups@,
                                                    spec_extension_of(we.path@),
                                                ));
                                            }
                                        }
                                    }
                                } else if !catalog_accepts(media_groups, extension.as_str()) {
                                    // known but disabled: skipped without a log line
                                    proof {
                                        assert(!accepted_entry(
                                            entries@[e_i as int],
                                            media_groups@,
                                        ));
                                        if *scan_type == ScanType::BINARY {
                                            assert(error_line_binary(
                                                entries@[e_i as int],
                                                media_groups@,
                                            ) =~= Seq::<Seq<char>>::empty());
                                            assert(log_views(messenger.errlog_spec())
                                                =~= log_views(pre_err) + error_line_binary(
                                                entries@[e_i as int],
                                                media_groups@,
                                            ));
                                        }
                                    }
                                } else {
                                    let fi = FileInfo::new(we.path.clone(), *size);
                                    let key_res: Result<String, String> = if *scan_type
                                        == ScanType::BINARY {
                                        Ok(fi.get_key(*size))
                                    } else {
                                        get_short_audio_key(fi.path())
                                    };
                                    match key_res {
                                        Err(e) => {
                                            let msg = e.concat(" : file: ").concat(
                                                we.path.as_str(),
                                            );
                                            messenger.push_errlog(msg);
                                            proof {
                                                // in content mode the key never fails
                                                assert(*scan_type != ScanType::BINARY);
                                            }
                                        },
                                        Ok(key) => {
                                            let ghost gline = key@ + " : "@ + we.path@;
                                            let line = key.clone().concat(" : ").concat(
                                                we.path.as_str(),
                                            );
                                            messenger.push_stdlog(line);
                                            let ghost pre = gm@;
                                            let ghost gfi = fi;
                                            let ghost gkey = key@;
                                            gm.insert(key, fi);
                                            proof {
                                                assert(accepted_entry(
                                                    entries@[e_i as int],
                                                    media_groups@,
                                                ));
                                                assert(gfi == (FileInfo {
                                                    path: entries@[e_i as int]->Ok_0.path,
                                                    size: entries@[e_i as int]->Ok_0.meta->Ok_0,
                                                    checksum: 0,
                                                }));
                                                assert(member_sourced(
                                                    gfi,
                                                    entries@,
                                                    media_groups@,
                                                ));
                                                lemma_insert_keeps_members(
                                                    pre,
                                                    gm@,
                                                    gkey,
                                                    gfi,
                                                    entries@,
                                                    media_groups@,
                                                );
                                                assert(line_names_entry(
                                                    gline,
                                                    entries@[e_i as int],
                                                )) by {
                                                    let tail = " : "@ + we.path@;
                                                    assert(gline.skip(
                                                        gline.len() - tail.len(),
                                                    ) =~= tail);
                                                }
                                                assert(stdlog_line_sourced(
                                                    gline,
                                                    entries@,
                                                    media_groups@,
                                                ));
                                                assert(messenger.stdlog_spec()
                                                    == pre_std.push(line));
                                                assert forall|j: int|
                                                    old(messenger).stdlog_spec().len() <= j
                                                        < messenger.stdlog_spec().len()
                                                        implies stdlog_line_sourced(
                                                        (
                                                        #[trigger] messenger.stdlog_spec()[j])@,
                                                        entries@,
                                                        media_groups@,
                                                    ) by {
                                                    if j < pre_std.len() {
                                                        assert(messenger.stdlog_spec()[j]
                                                            == pre_std[j]);
                                                        assert(stdlog_line_sourced(
                                                            pre_std[j]@,
                                                            entries@,
                                                            media_groups@,
                                                        ));
                                                    } else {
                                                        assert(messenger.stdlog_spec()[j]@
                                                            == gline);
                                                    }
                                                }
                                                if *scan_type == ScanType::BINARY {
                                                    assert(gkey == spec_binary_key(
                                                        gfi.path@,
                                                        gfi.size,
                                                    ));
                                                    assert_insert_keeps_binary(pre, gm@, gkey, gfi);
                                                    assert(gkey == key_of_entry(
                                                        entries@[e_i as int],
                                                    ));
                                                    lemma_insert_groups_entry(
                                                        pre,
                                                        gm@,
                                                        gkey,
                                                        gfi,
                                                        entries@,
                                                        media_groups@,
                                                        e_i as int,
                                                    );
                                                    assert(gline == stdline_of(
                                                        entries@[e_i as int]->Ok_0,
                                                    ));
                                                    assert(log_views(messenger.stdlog_spec())
                                                        =~= log_views(pre_std).push(gline));
                                                    assert(error_line_binary(
                                                        entries@[e_i as int],
                                                        media_groups@,
                                                    ) =~= Seq::<Seq<char>>::empty());
                                                    assert(log_views(messenger.errlog_spec())
                                                        =~= log_views(pre_err)
                                                        + error_line_binary(
                                                        entries@[e_i as int],
                                                        media_groups@,
                                                    ));
                                                }
                                            }
                                        },
                                    }
                                }
                            },
                        }
                    }
                },
            }
            proof {
                if *scan_type == ScanType::BINARY {
                    assert(log_views(messenger.errlog_spec()) + error_lines_binary(
                        entries@.skip(e_i + 1),
                        media_groups@,
                    ) =~= log_views(old(messenger).errlog_spec()) + error_lines_binary(
                        entries@,
                        media_groups@,
                    )) by {
                        assert(log_views(messenger.errlog_spec()) =~= log_views(pre_err)
                            + error_line_binary(entries@[e_i as int], media_groups@));
                        assert((log_views(pre_err) + error_line_binary(
                            entries@[e_i as int],
                            media_groups@,
                        )) + error_lines_binary(entries@.skip(e_i + 1), media_groups@)
                            =~= log_views(pre_err) + (error_line_binary(
                            entries@[e_i as int],
                            media_groups@,
                        ) + error_lines_binary(entries@.skip(e_i + 1), media_groups@)));
                    }
                    if accepted_entry(entries@[e_i as int], media_groups@) {
                        assert(log_views(messenger.stdlog_spec()) + accepted_lines(
                            entries@.skip(e_i + 1),
                            media_groups@,
                        ) =~= (log_views(pre_std) + seq![stdline_of(entries@[e_i as int]->Ok_0)])
                            + accepted_lines(entries@.skip(e_i + 1), media_groups@));
                        assert((log_views(pre_std) + seq![stdline_of(entries@[e_i as int]->Ok_0)])
                            + accepted_lines(entries@.skip(e_i + 1), media_groups@) =~= log_views(
                            pre_std,
                        ) + (seq![stdline_of(entries@[e_i as int]->Ok_0)] + accepted_lines(
                            entries@.skip(e_i + 1),
                            media_groups@,
                        )));
                    } else {
                        assert(messenger.stdlog_spec() == pre_std);
                        assert(Seq::<Seq<char>>::empty() + accepted_lines(
                            entries@.skip(e_i + 1),
                            media_groups@,
                        ) =~= accepted_lines(entries@.skip(e_i + 1), media_groups@));
                    }
                }
            }
            e_i = e_i + 1;
        }
        let ghost pre_retain = gm@;
        gm.retain_multi();
        proof {
            lemma_retain_keeps_members(pre_retain, gm@, entries@, media_groups@);
            if *scan_type == ScanType::BINARY {
                assert(entries@.skip(n as int) =~= Seq::<Result<WalkEntry, String>>::empty());
                assert(accepted_lines(Seq::<Result<WalkEntry, String>>::empty(), media_groups@)
                    =~= Seq::<Seq<char>>::empty());
                assert(log_views(messenger.stdlog_spec()) + Seq::<Seq<char>>::empty()
                    =~= log_views(messenger.stdlog_spec()));
                assert(error_lines_binary(
                    Seq::<Result<WalkEntry, String>>::empty(),
                    media_groups@,
                ) =~= Seq::<Seq<char>>::empty());
                assert(log_views(messenger.errlog_spec()) + Seq::<Seq<char>>::empty()
                    =~= log_views(messenger.errlog_spec()));
                lemma_retain_keeps_pairs(pre_retain, gm@, entries@, media_groups@, n as int);
                assert forall|i: int, a: int|
                    0 <= i < gm@.len() && 0 <= a < (#[trigger] gm@[i]).files@.len() implies gm@[i].key@
                        == spec_binary_key(
                        (#[trigger] gm@[i].files@[a]).path@,
                        gm@[i].files@[a].size,
                    ) && wf_ext(spec_extension_of(gm@[i].files@[a].path@)) && gm@[i].files@[a].checksum
                        == 0 by {
                    assert(entry_in(pre_retain, gm@[i]));
                    let j = choose|j: int| 0 <= j < pre_retain.len() && pre_retain[j] == gm@[i];
                    assert(pre_retain[j].key@ == spec_binary_key(
                        pre_retain[j].files@[a].path@,
                        pre_retain[j].files@[a].size,
                    ));
                }
                lemma_groups_same_size(gm@);
            }
        }
        gm
    }

/// Inserting a candidate under its own content key keeps the whole map
/// keyed by size, with checksums unset.
proof fn assert_insert_keeps_binary(
    pre: Seq<GroupEntry>,
    post: Seq<GroupEntry>,
    key: Seq<char>,
    fi: FileInfo,
)
    requires
        groups_keyed_binary(pre),
        groups_unset_checksums(pre),
        key == spec_binary_key(fi.path@, fi.size),
        wf_ext(spec_extension_of(fi.path@)),
        fi.checksum == 0,
        forall|i: int|
            0 <= i < pre.len() && (#[trigger] pre[i]).key@ != key ==> post[i] == pre[i],
        forall|i: int|
            0 <= i < pre.len() && (#[trigger] pre[i]).key@ == key ==> post[i].key == pre[i].key
                && post[i].files@ == pre[i].files@.push(fi),
        crate::grouping::spec_known_key(pre, key) ==> post.len() == pre.len(),
        !crate::grouping::spec_known_key(pre, key) ==> post.len() == pre.len() + 1
            && post[pre.len() as int].key@ == key && post[pre.len() as int].files@ =~= seq![fi],
    ensures
        groups_keyed_binary(post),
        groups_unset_checksums(post),
{
    assert forall|i: int, a: int|
        0 <= i < post.len() && 0 <= a < (#[trigger] post[i]).files@.len() implies post[i].key@
            == spec_binary_key((#[trigger] post[i].files@[a]).path@, post[i].files@[a].size)
            && wf_ext(spec_extension_of(post[i].files@[a].path@)) && post[i].files@[a].checksum
            == 0 by {
        if i < pre.len() {
            if pre[i].key@ == key {
                assert(post[i].files@ == pre[i].files@.push(fi));
                if a < pre[i].files@.len() {
                    assert(post[i].files@[a] == pre[i].files@[a]);
                } else {
                    assert(post[i].files@[a] == fi);
                    assert(pre[i].key@ == key);
                }
            } else {
                assert(post[i] == pre[i]);
            }
        } else {
            assert(!crate::grouping::spec_known_key(pre, key)) by {
                if crate::grouping::spec_known_key(pre, key) {
                    assert(post.len() == pre.len());
                }
            }
            assert(post[i].files@ =~= seq![fi]);
            assert(post[i].files@[a] == fi);
        }
    }
}


/// Enumerate the tree and walk it; `None` (with one error line) when the
/// root is not an existing directory. Nothing else changes on that failure.
pub fn scan_walk_phase(
    root: &String,
    scan_type: &ScanType,
    media_groups: &Vec<MediaGroup>,
    messenger: &mut Messenger,
) -> (r: Option<GroupMap>)
    requires
        old(messenger).wf(),
    ensures
        final(messenger).wf(),
        old(messenger).logs_extended(final(messenger)),
        final(messenger).reslog_spec() == old(messenger).reslog_spec(),
        final(messenger).checked_spec() == old(messenger).checked_spec(),
        final(messenger).control_spec() == old(messenger).control_spec(),
        final(messenger).progress_spec() == old(messenger).progress_spec(),
        r is None ==> final(messenger).stdlog_spec() == old(messenger).stdlog_spec() && final(messenger).errlog_spec() == old(messenger).errlog_spec().push(
            final(messenger).errlog_spec().last(),
        ) && final(messenger).errlog_spec().last()@ == root@ + " must be a directory"@ && final(messenger).info_spec() == old(messenger).info_spec(),
        old(messenger).cancelled_spec() ==> final(messenger).stdlog_spec() == old(messenger).stdlog_spec(),
        r matches Some(g) ==> g.wf() && (forall|i: int|
            0 <= i < g@.len() ==> (#[trigger] g@[i]).files@.len() >= 2) && (*scan_type
            == ScanType::BINARY ==> groups_keyed_binary(g@) && groups_same_size(g@)
            && groups_unset_checksums(g@)),
        r matches Some(g) ==> (old(messenger).cancelled_spec() ==> g@.len() == 0),
{
    let entries = walk_tree(root);
    let root_ok: bool = if entries.len() == 0 {
        false
    } else {
        match &entries[0] {
            Ok(we) => we.is_dir,
            Err(_) => false,
        }
    };
    if !root_ok {
        let msg = root.clone().concat(" must be a directory");
        messenger.push_errlog(msg);
        return None;
    }
    Some(walk_dir(&entries, scan_type, media_groups, messenger))
}

/// The paths of a member list, in order.
pub open spec fn spec_paths(fs: Seq<FileInfo>) -> Seq<String> {
    fs.map_values(|f: FileInfo| f.path)
}

/// The paths of every member of every group, group by group.
pub open spec fn spec_flat_paths(g: Seq<GroupEntry>) -> Seq<String>
    decreases g.len(),
{
    if g.len() == 0 {
        Seq::empty()
    } else {
        spec_paths(g[0].files@) + spec_flat_paths(g.skip(1))
    }
}

proof fn lemma_flat_paths_snoc(s: Seq<GroupEntry>, e: GroupEntry)
    ensures
        spec_flat_paths(s.push(e)) =~= spec_flat_paths(s) + spec_paths(e.files@),
    decreases s.len(),
{
    if s.len() == 0 {
        assert(s.push(e).skip(1) =~= Seq::<GroupEntry>::empty());
        assert(s.push(e)[0] == e);
        assert(spec_flat_paths(Seq::<GroupEntry>::empty()) =~= Seq::<String>::empty());
        assert(spec_flat_paths(s) =~= Seq::<String>::empty());
        assert(spec_flat_paths(s.push(e)) =~= spec_paths(e.files@) + Seq::<String>::empty());
        assert(spec_paths(e.files@) + Seq::<String>::empty() =~= spec_paths(e.files@));
        assert(spec_flat_paths(s) + spec_paths(e.files@) =~= spec_paths(e.files@));
    } else {
        assert(s.push(e).skip(1) =~= s.skip(1).push(e));
        lemma_flat_paths_snoc(s.skip(1), e);
        assert(s.push(e)[0] == s[0]);
        assert(spec_flat_paths(s.push(e)) =~= spec_paths(s[0].files@) + (spec_flat_paths(s.skip(1))
            + spec_paths(e.files@)));
        assert(spec_paths(s[0].files@) + (spec_flat_paths(s.skip(1)) + spec_paths(e.files@)) =~= (
        spec_paths(s[0].files@) + spec_flat_paths(s.skip(1))) + spec_paths(e.files@));
    }
}

/// Where group `i`'s members start in the flat path list.
pub open spec fn flat_offset(g: Seq<GroupEntry>, i: int) -> int {
    spec_flat_paths(g.take(i)).len() as int
}

proof fn lemma_flat_offset_step(g: Seq<GroupEntry>, i: int)
    requires
        0 <= i < g.len(),
    ensures
        flat_offset(g, i + 1) == flat_offset(g, i) + g[i].files@.len(),
{
    assert(g.take(i + 1) =~= g.take(i).push(g[i]));
    lemma_flat_paths_snoc(g.take(i), g[i]);
}

proof fn lemma_flat_offset_total(g: Seq<GroupEntry>)
    ensures
        flat_offset(g, g.len() as int) == spec_flat_paths(g).len(),
        flat_offset(g, 0) == 0,
{
    assert(g.take(g.len() as int) =~= g);
    assert(g.take(0) =~= Seq::<GroupEntry>::empty());
}

proof fn lemma_flat_offset_mono(g: Seq<GroupEntry>, i: int, j: int)
    requires
        0 <= i <= j <= g.len(),
    ensures
        flat_offset(g, i) <= flat_offset(g, j),
    decreases j - i,
{
    if i < j {
        lemma_flat_offset_step(g, j - 1);
        lemma_flat_offset_mono(g, i, j - 1);
    }
}

/// The paths whose header bytes the confirmation phase needs, in the order
/// the checksums will be applied.
pub fn header_read_plan(groups: &GroupMap) -> (r: Vec<String>)
    ensures
        r@ =~= spec_flat_paths(groups@),
{
    let mut out: Vec<String> = Vec::new();
    let n = groups.len();
    let mut gi: usize = 0;
    proof {
        assert(groups@.take(0) =~= Seq::<GroupEntry>::empty());
    }
    while gi < n
        invariant
            gi <= n,
            n == groups@.len(),
            out@ =~= spec_flat_paths(groups@.take(gi as int)),
        decreases n - gi,
    {
        let files_len = groups.get(gi).files.len();
        let mut a: usize = 0;
        proof {
            assert(groups@[gi as int].files@.take(0) =~= Seq::<FileInfo>::empty());
            assert(spec_paths(Seq::<FileInfo>::empty()) =~= Seq::<String>::empty());
            assert(out@ =~= spec_flat_paths(groups@.take(gi as int)) + spec_paths(
                groups@[gi as int].files@.take(0),
            ));
        }
        while a < files_len
            invariant
                gi < n,
                n == groups@.len(),
                a <= files_len,
                files_len == groups@[gi as int].files@.len(),
                out@ =~= spec_flat_paths(groups@.take(gi as int)) + spec_paths(
                    groups@[gi as int].files@.take(a as int),
                ),
            decreases files_len - a,
        {
            out.push(groups.get(gi).files[a].path.clone());
            proof {
                let fs = groups@[gi as int].files@;
                assert(fs.take(a + 1) =~= fs.take(a as int).push(fs[a as int]));
                assert(spec_paths(fs.take(a + 1)) =~= spec_paths(fs.take(a as int)).push(
                    fs[a as int].path,
                ));
            }
            a = a + 1;
        }
        proof {
            let fs = groups@[gi as int].files@;
            assert(fs.take(files_len as int) =~= fs);
            assert(groups@.take(gi + 1) =~= groups@.take(gi as int).push(groups@[gi as int]));
            lemma_flat_paths_snoc(groups@.take(gi as int), groups@[gi as int]);
        }
        gi = gi + 1;
    }
    proof {
        assert(groups@.take(n as int) =~= groups@);
    }
    out
}

/// The error line for a failed header read.
pub open spec fn header_err_line(p: Seq<char>, e: Seq<char>) -> Seq<char> {
    "Error getting checksum for file "@ + p + " : "@ + e
}

/// The error lines of one group's remaining header reads, whose data
/// starts at flat position `off`.
pub open spec fn file_header_err_lines(
    files: Seq<FileInfo>,
    data: Seq<Result<Vec<u8>, String>>,
    off: int,
    a: int,
) -> Seq<Seq<char>>
    decreases files.len() - a,
{
    if a >= files.len() {
        Seq::empty()
    } else {
        (match data[off + a] {
            Ok(_) => Seq::<Seq<char>>::empty(),
            Err(e) => seq![header_err_line(files[a].path@, e@)],
        }) + file_header_err_lines(files, data, off, a + 1)
    }
}

/// The error lines of the whole checksum phase, group by group from `gi`.
pub open spec fn header_err_lines_from(
    g: Seq<GroupEntry>,
    data: Seq<Result<Vec<u8>, String>>,
    gi: int,
) -> Seq<Seq<char>>
    decreases g.len() - gi,
{
    if gi >= g.len() {
        Seq::empty()
    } else {
        file_header_err_lines(g[gi].files@, data, flat_offset(g, gi), 0) + header_err_lines_from(
            g,
            data,
            gi + 1,
        )
    }
}

/// What a candidate's checksum is after the phase: the byte sum of the
/// header read for it, or its previous value when the read failed.
pub open spec fn header_result(d: Result<Vec<u8>, String>, prev: i64) -> int {
    match d {
        Ok(b) => byte_sum(b@),
        Err(_) => prev as int,
    }
}

/// Compute every candidate's header checksum from the header bytes the
/// caller read, group by group, reporting progress; a failed read is
/// logged and leaves the candidate unset. Progress resets to 0 when the
/// scan was stopped, and nothing is touched.
pub fn calc_checksum(
    groups: &mut GroupMap,
    data: &Vec<Result<Vec<u8>, String>>,
    messenger: &mut Messenger,
)
    requires
        old(groups).wf(),
        old(messenger).wf(),
        data@.len() == spec_flat_paths(old(groups)@).len(),
        forall|i: int| 0 <= i < old(groups)@.len() ==> (#[trigger] old(groups)@[i]).files@.len() >= 2,
        forall|k: int|
            0 <= k < data@.len() ==> ((#[trigger] data@[k]) matches Ok(b) ==> b@.len()
                <= crate::file_utils::HEADER_LEN),
    ensures
        final(groups).wf(),
        final(messenger).wf(),
        old(messenger).logs_extended(final(messenger)),
        final(messenger).stdlog_spec() == old(messenger).stdlog_spec(),
        final(messenger).reslog_spec() == old(messenger).reslog_spec(),
        final(messenger).checked_spec() == old(messenger).checked_spec(),
        final(messenger).control_spec() == old(messenger).control_spec(),
        old(messenger).control_spec() == crate::mediatype::Control::STOP ==> final(groups)@ == old(groups)@ && final(messenger).progress_spec() == 0 && final(messenger).errlog_spec()
            == old(messenger).errlog_spec() && final(messenger).info_spec() == old(messenger).info_spec(),
        old(messenger).control_spec() != crate::mediatype::Control::STOP ==> {
            &&& log_views(final(messenger).errlog_spec()) =~= log_views(
                old(messenger).errlog_spec(),
            ) + header_err_lines_from(old(groups)@, data@, 0)
            &&& old(groups)@.len() > 0 ==> final(messenger).progress_spec() == 1000 && final(messenger).info_spec() == "Calculate Checksums..."@
            &&& old(groups)@.len() == 0 ==> final(messenger).progress_spec() == old(messenger).progress_spec() && final(messenger).info_spec() == old(messenger).info_spec()
            &&& final(groups)@.len() == old(groups)@.len()
            &&& forall|i: int|
                0 <= i < old(groups)@.len() ==> (#[trigger] final(groups)@[i]).key == old(groups)@[i].key && final(groups)@[i].files@.len() == old(groups)@[i].files@.len()
            &&& forall|i: int, a: int|
                0 <= i < old(groups)@.len() && 0 <= a < (#[trigger] old(groups)@[i]).files@.len() ==> (#[trigger] final(groups)@[i].files@[a]).path == old(groups)@[i].files@[a].path && final(groups)@[i].files@[a].size == old(groups)@[i].files@[a].size && final(groups)@[i].files@[a].checksum == header_result(
                    data@[flat_offset(old(groups)@, i) + a],
                    old(groups)@[i].files@[a].checksum,
                )
        },
{
    let n = groups.len();
    let total: usize = data.len();
    let mut count: usize = 0;
    let mut k: usize = 0;
    let mut gi: usize = 0;
    let ghost orig = groups@;
    proof {
        lemma_flat_offset_total(orig);
    }
    if messenger.is_stopped() {
        proof {
            reveal_strlit("");
        }
        messenger.set_progress(0, 0, "");
        return ;
    }
    while gi < n
        invariant
            gi <= n,
            n == orig.len(),
            count == gi,
            groups.wf(),
            messenger.wf(),
            old(messenger).logs_extended(messenger),
            messenger.stdlog_spec() == old(messenger).stdlog_spec(),
            messenger.reslog_spec() == old(messenger).reslog_spec(),
            messenger.checked_spec() == old(messenger).checked_spec(),
            messenger.control_spec() == old(messenger).control_spec(),
            old(messenger).control_spec() != crate::mediatype::Control::STOP,
            data@.len() == spec_flat_paths(orig).len(),
            forall|kk: int|
                0 <= kk < data@.len() ==> ((#[trigger] data@[kk]) matches Ok(b) ==> b@.len()
                    <= crate::file_utils::HEADER_LEN),
            k == flat_offset(orig, gi as int),
            total == data@.len(),
            groups@.len() == orig.len(),
            log_views(messenger.errlog_spec()) + header_err_lines_from(orig, data@, gi as int)
                =~= log_views(old(messenger).errlog_spec()) + header_err_lines_from(
                orig,
                data@,
                0,
            ),
            gi == 0 ==> messenger.progress_spec() == old(messenger).progress_spec()
                && messenger.info_spec() == old(messenger).info_spec(),
            gi > 0 ==> messenger.progress_spec() == crate::messenger::spec_progress(
                n as int,
                gi as int,
            ) && messenger.info_spec() == "Calculate Checksums..."@,
            forall|i: int| 0 <= i < orig.len() ==> (#[trigger] orig[i]).files@.len() >= 2,
            forall|i: int|
                0 <= i < orig.len() ==> (#[trigger] groups@[i]).key == orig[i].key && groups@[i].files@.len()
                    == orig[i].files@.len(),
            forall|i: int, a: int|
                gi <= i < orig.len() && 0 <= a < (#[trigger] orig[i]).files@.len() ==> (
                #[trigger] groups@[i].files@[a]) == orig[i].files@[a],
            forall|i: int, a: int|
                0 <= i < gi && 0 <= a < (#[trigger] orig[i]).files@.len() ==> (
                #[trigger] groups@[i].files@[a]).path == orig[i].files@[a].path
                    && groups@[i].files@[a].size == orig[i].files@[a].size
                    && groups@[i].files@[a].checksum == header_result(
                    data@[flat_offset(orig, i) + a],
                    orig[i].files@[a].checksum,
                ),
        ensures
            gi == n,
        decreases n - gi,
    {
        if messenger.is_stopped() {
            messenger.set_progress(0, 0, "");
            break ;
        }
        count = count + 1;
        proof {
            reveal_strlit("Calculate Checksums...");
        }
        messenger.set_progress(n, count, "Calculate Checksums...");
        let ghost pre_err_grp = messenger.errlog_spec();
        let files_len = groups.get(gi).files.len();
        proof {
            lemma_flat_offset_total(orig);
            lemma_flat_offset_step(orig, gi as int);
            lemma_flat_offset_mono(orig, gi + 1, orig.len() as int);
            lemma_flat_offset_mono(orig, 0, gi as int);
        }
        if files_len > 1 {
            let mut a: usize = 0;
            proof {
                assert(header_err_lines_from(orig, data@, gi as int) == file_header_err_lines(
                    orig[gi as int].files@,
                    data@,
                    flat_offset(orig, gi as int),
                    0,
                ) + header_err_lines_from(orig, data@, gi + 1));
                assert(log_views(messenger.errlog_spec()) + (file_header_err_lines(
                    orig[gi as int].files@,
                    data@,
                    flat_offset(orig, gi as int),
                    0,
                ) + header_err_lines_from(orig, data@, gi + 1)) =~= log_views(
                    messenger.errlog_spec(),
                ) + file_header_err_lines(
                    orig[gi as int].files@,
                    data@,
                    flat_offset(orig, gi as int),
                    0,
                ) + header_err_lines_from(orig, data@, gi + 1));
            }
            while a < files_len
                invariant
                    gi < n,
                    n == orig.len(),
                    a <= files_len,
                    files_len == orig[gi as int].files@.len(),
                    log_views(messenger.errlog_spec()) + file_header_err_lines(
                        orig[gi as int].files@,
                        data@,
                        flat_offset(orig, gi as int),
                        a as int,
                    ) + header_err_lines_from(orig, data@, gi + 1) =~= log_views(
                        old(messenger).errlog_spec(),
                    ) + header_err_lines_from(orig, data@, 0),
                    messenger.progress_spec() == crate::messenger::spec_progress(
                        n as int,
                        gi + 1,
                    ),
                    messenger.info_spec() == "Calculate Checksums..."@,
                    groups.wf(),
                    messenger.wf(),
                    old(messenger).logs_extended(messenger),
                    messenger.stdlog_spec() == old(messenger).stdlog_spec(),
                    messenger.reslog_spec() == old(messenger).reslog_spec(),
                    messenger.checked_spec() == old(messenger).checked_spec(),
                    messenger.control_spec() == old(messenger).control_spec(),
                    data@.len() == spec_flat_paths(orig).len(),
                    forall|kk: int|
                        0 <= kk < data@.len() ==> ((#[trigger] data@[kk]) matches Ok(b) ==> b@.len()
                            <= crate::file_utils::HEADER_LEN),
                    k == flat_offset(orig, gi as int) + a,
                    total == data@.len(),
                    flat_offset(orig, gi as int) + files_len <= data@.len(),
                    groups@.len() == orig.len(),
                    forall|i: int|
                        0 <= i < orig.len() ==> (#[trigger] groups@[i]).key == orig[i].key
                            && groups@[i].files@.len() == orig[i].files@.len(),
                    forall|i: int, aa: int|
                        gi < i < orig.len() && 0 <= aa < (#[trigger] orig[i]).files@.len() ==> (
                        #[trigger] groups@[i].files@[aa]) == orig[i].files@[aa],
                    forall|aa: int|
                        a <= aa < files_len ==> (#[trigger] groups@[gi as int].files@[aa])
                            == orig[gi as int].files@[aa],
                    forall|i: int, aa: int|
                        0 <= i < gi && 0 <= aa < (#[trigger] orig[i]).files@.len() ==> (
                        #[trigger] groups@[i].files@[aa]).path == orig[i].files@[aa].path
                            && groups@[i].files@[aa].size == orig[i].files@[aa].size
                            && groups@[i].files@[aa].checksum == header_result(
                            data@[flat_offset(orig, i) + aa],
                            orig[i].files@[aa].checksum,
                        ),
                    forall|aa: int|
                        0 <= aa < a ==> (#[trigger] groups@[gi as int].files@[aa]).path
                            == orig[gi as int].files@[aa].path && groups@[gi as int].files@[aa].size
                            == orig[gi as int].files@[aa].size
                            && groups@[gi as int].files@[aa].checksum == header_result(
                            data@[flat_offset(orig, gi as int) + aa],
                            orig[gi as int].files@[aa].checksum,
                        ),
                decreases files_len - a,
            {
                let ghost pre_e = messenger.errlog_spec();
                let ghost fs = orig[gi as int].files@;
                let ghost off = flat_offset(orig, gi as int);
                match &data[k] {
                    Ok(bytes) => {
                        let c = crate::file_utils::get_header_checksum(bytes);
                        groups.set_checksum(gi, a, c);
                        proof {
                            assert(log_views(messenger.errlog_spec()) =~= log_views(pre_e) + (
                            match data@[off + a] {
                                Ok(_) => Seq::<Seq<char>>::empty(),
                                Err(e) => seq![header_err_line(fs[a as int].path@, e@)],
                            }));
                        }
                    },
                    Err(e) => {
                        let msg = "Error getting checksum for file ".to_owned().concat(
                            groups.get(gi).files[a].path.as_str(),
                        ).concat(" : ").concat(e.as_str());
                        proof {
                            assert(groups@[gi as int].files@[a as int].path == fs[a as int].path);
                            assert(msg@ == header_err_line(fs[a as int].path@, e@));
                        }
                        messenger.push_errlog(msg);
                        proof {
                            assert(log_views(messenger.errlog_spec()) =~= log_views(pre_e).push(
                                header_err_line(fs[a as int].path@, e@),
                            ));
                            assert(log_views(messenger.errlog_spec()) =~= log_views(pre_e) + (
                            match data@[off + a] {
                                Ok(_) => Seq::<Seq<char>>::empty(),
                                Err(e2) => seq![header_err_line(fs[a as int].path@, e2@)],
                            }));
                        }
                    },
                }
                proof {
                    assert(file_header_err_lines(fs, data@, off, a as int) == (match data@[off
                        + a] {
                        Ok(_) => Seq::<Seq<char>>::empty(),
                        Err(e2) => seq![header_err_line(fs[a as int].path@, e2@)],
                    }) + file_header_err_lines(fs, data@, off, a + 1));
                    assert(log_views(messenger.errlog_spec()) + file_header_err_lines(
                        fs,
                        data@,
                        off,
                        a + 1,
                    ) + header_err_lines_from(orig, data@, gi + 1) =~= log_views(
                        old(messenger).errlog_spec(),
                    ) + header_err_lines_from(orig, data@, 0)) by {
                        assert((log_views(pre_e) + (match data@[off + a] {
                            Ok(_) => Seq::<Seq<char>>::empty(),
                            Err(e2) => seq![header_err_line(fs[a as int].path@, e2@)],
                        })) + file_header_err_lines(fs, data@, off, a + 1) =~= log_views(pre_e) + (
                        (match data@[off + a] {
                            Ok(_) => Seq::<Seq<char>>::empty(),
                            Err(e2) => seq![header_err_line(fs[a as int].path@, e2@)],
                        }) + file_header_err_lines(fs, data@, off, a + 1)));
                    }
                }
                k = k + 1;
                a = a + 1;
            }
            proof {
                assert(file_header_err_lines(
                    orig[gi as int].files@,
                    data@,
                    flat_offset(orig, gi as int),
                    a as int,
                ) =~= Seq::<Seq<char>>::empty());
                assert(log_views(messenger.errlog_spec()) + header_err_lines_from(
                    orig,
                    data@,
                    gi + 1,
                ) =~= log_views(old(messenger).errlog_spec()) + header_err_lines_from(
                    orig,
                    data@,
                    0,
                )) by {
                    assert(log_views(messenger.errlog_spec()) + Seq::<Seq<char>>::empty()
                        =~= log_views(messenger.errlog_spec()));
                }
            }
        }
        gi = gi + 1;
    }
    proof {
        assert(header_err_lines_from(orig, data@, n as int) =~= Seq::<Seq<char>>::empty());
        assert(log_views(messenger.errlog_spec()) =~= log_views(old(messenger).errlog_spec())
            + header_err_lines_from(orig, data@, 0)) by {
            assert(log_views(messenger.errlog_spec()) + Seq::<Seq<char>>::empty() =~= log_views(
                messenger.errlog_spec(),
            ));
        }
        if n > 0 {
            assert(messenger.progress_spec() == crate::messenger::spec_progress(n as int, n as int));
            assert(crate::messenger::spec_progress(n as int, n as int) == 1000);
        }
    }
}


/// The full-content sum recorded for a path: the first entry that carries
/// it; `None` when the path is absent or its read failed.
pub open spec fn full_sum_of(
    fulls: Seq<(String, Result<u128, String>)>,
    p: Seq<char>,
) -> Option<u128>
    decreases fulls.len(),
{
    if fulls.len() == 0 {
        None
    } else if fulls[0].0@ == p {
        match fulls[0].1 {
            Ok(v) => Some(v),
            Err(_) => None,
        }
    } else {
        full_sum_of(fulls.skip(1), p)
    }
}

/// The read error recorded for a path, if its first entry is a failure.
pub open spec fn full_err_of(
    fulls: Seq<(String, Result<u128, String>)>,
    p: Seq<char>,
) -> Option<Seq<char>>
    decreases fulls.len(),
{
    if fulls.len() == 0 {
        None
    } else if fulls[0].0@ == p {
        match fulls[0].1 {
            Ok(_) => None,
            Err(e) => Some(e@),
        }
    } else {
        full_err_of(fulls.skip(1), p)
    }
}

fn lookup_full(fulls: &Vec<(String, Result<u128, String>)>, p: &str) -> (r: Option<
    Result<u128, String>,
>)
    ensures
        full_sum_of(fulls@, p@) == (match r {
            Some(Ok(v)) => Some(v),
            _ => None::<u128>,
        }),
        full_err_of(fulls@, p@) == (match r {
            Some(Err(e)) => Some(e@),
            _ => None::<Seq<char>>,
        }),
{
    let n = fulls.len();
    let mut i: usize = 0;
    proof {
        assert(fulls@.skip(0) =~= fulls@);
    }
    while i < n
        invariant
            i <= n,
            n == fulls@.len(),
            full_sum_of(fulls@, p@) == full_sum_of(fulls@.skip(i as int), p@),
            full_err_of(fulls@, p@) == full_err_of(fulls@.skip(i as int), p@),
        decreases n - i,
    {
        proof {
            assert(fulls@.skip(i as int)[0] == fulls@[i as int]);
            assert(fulls@.skip(i as int).skip(1) =~= fulls@.skip(i + 1));
        }
        if crate::string_utils::str_eq(fulls[i].0.as_str(), p) {
            let r = match &fulls[i].1 {
                Ok(v) => Some(Ok(*v)),
                Err(e) => Some(Err(e.clone())),
            };
            return r;
        }
        i = i + 1;
    }
    proof {
        assert(fulls@.skip(n as int) =~= Seq::<(String, Result<u128, String>)>::empty());
    }
    None
}

/// Two candidates are confirmed duplicates when their header checksums are
/// set and equal and their recorded full-content sums are present and
/// equal. A failed or missing full read confirms nothing.
pub open spec fn pair_matched(
    a: FileInfo,
    b: FileInfo,
    fulls: Seq<(String, Result<u128, String>)>,
) -> bool {
    &&& a.checksum != 0
    &&& b.checksum != 0
    &&& a.checksum == b.checksum
    &&& full_sum_of(fulls, a.path@) is Some
    &&& full_sum_of(fulls, a.path@) == full_sum_of(fulls, b.path@)
}

/// Whether some record carries the path.
pub open spec fn has_path(rs: Seq<DuplicateRecord>, p: Seq<char>) -> bool {
    exists|k: int| 0 <= k < rs.len() && rs[k].path@ == p
}

fn vec_has_path(rs: &Vec<DuplicateRecord>, p: &str) -> (r: bool)
    ensures
        r == has_path(rs@, p@),
{
    let n = rs.len();
    let mut i: usize = 0;
    while i < n
        invariant
            i <= n,
            n == rs@.len(),
            forall|k: int| 0 <= k < i ==> (#[trigger] rs@[k]).path@ != p@,
        decreases n - i,
    {
        if crate::string_utils::str_eq(rs[i].path.as_str(), p) {
            proof {
                assert(rs@[i as int].path@ == p@);
            }
            return true;
        }
        i = i + 1;
    }
    proof {
        if has_path(rs@, p@) {
            let k = choose|k: int| 0 <= k < rs@.len() && rs@[k].path@ == p@;
            assert(rs@[k].path@ != p@);
        }
    }
    false
}

proof fn lemma_has_path_push(rs: Seq<DuplicateRecord>, rec: DuplicateRecord, p: Seq<char>)
    ensures
        has_path(rs.push(rec), p) == (has_path(rs, p) || rec.path@ == p),
{
    if has_path(rs, p) {
        let k = choose|k: int| 0 <= k < rs.len() && rs[k].path@ == p;
        assert(rs.push(rec)[k].path@ == p);
    }
    if rec.path@ == p {
        assert(rs.push(rec)[rs.len() as int].path@ == p);
    }
    if has_path(rs.push(rec), p) {
        let k = choose|k: int| 0 <= k < rs.push(rec).len() && rs.push(rec)[k].path@ == p;
        if k < rs.len() {
            assert(rs[k].path@ == p);
        } else {
            assert(rs.push(rec)[k] == rec);
        }
    }
}

/// Whether a pair of this member list confirms the path `p` as a
/// duplicate.
pub open spec fn group_confirms(
    files: Seq<FileInfo>,
    fulls: Seq<(String, Result<u128, String>)>,
    p: Seq<char>,
) -> bool {
    exists|i: int, j: int|
        0 <= i < j < files.len() && pair_matched(files[i], files[j], fulls) && (files[i].path@ == p
            || files[j].path@ == p)
}

/// `group_confirms` restricted to the pairs before position (bi, bj) in
/// the pairwise sweep.
spec fn confirms_before(
    files: Seq<FileInfo>,
    fulls: Seq<(String, Result<u128, String>)>,
    p: Seq<char>,
    bi: int,
    bj: int,
) -> bool {
    exists|i: int, j: int|
        0 <= i < j < files.len() && (i < bi || (i == bi && j < bj)) && pair_matched(
            files[i],
            files[j],
            fulls,
        ) && (files[i].path@ == p || files[j].path@ == p)
}

proof fn lemma_confirms_step(
    files: Seq<FileInfo>,
    fulls: Seq<(String, Result<u128, String>)>,
    p: Seq<char>,
    bi: int,
    bj: int,
)
    requires
        0 <= bi < bj,
    ensures
        confirms_before(files, fulls, p, bi, bj + 1) == (confirms_before(files, fulls, p, bi, bj)
            || (bj < files.len() && pair_matched(files[bi], files[bj], fulls) && (files[bi].path@
            == p || files[bj].path@ == p))),
{
    if confirms_before(files, fulls, p, bi, bj) {
        let (i, j) = choose|i: int, j: int|
            0 <= i < j < files.len() && (i < bi || (i == bi && j < bj)) && pair_matched(
                files[i],
                files[j],
                fulls,
            ) && (files[i].path@ == p || files[j].path@ == p);
        assert(i < bi || (i == bi && j < bj + 1));
    }
    if bj < files.len() && pair_matched(files[bi], files[bj], fulls) && (files[bi].path@ == p
        || files[bj].path@ == p) {
        assert(0 <= bi < bj < files.len() && (bi < bi || (bi == bi && bj < bj + 1)) && pair_matched(
            files[bi],
            files[bj],
            fulls,
        ) && (files[bi].path@ == p || files[bj].path@ == p));
        assert(confirms_before(files, fulls, p, bi, bj + 1));
    }
    if confirms_before(files, fulls, p, bi, bj + 1) {
        let (i, j) = choose|i: int, j: int|
            0 <= i < j < files.len() && (i < bi || (i == bi && j < bj + 1)) && pair_matched(
                files[i],
                files[j],
                fulls,
            ) && (files[i].path@ == p || files[j].path@ == p);
        if i < bi || (i == bi && j < bj) {
            assert(confirms_before(files, fulls, p, bi, bj));
        } else {
            assert(i == bi && j == bj);
        }
    }
}

proof fn lemma_confirms_rollover(
    files: Seq<FileInfo>,
    fulls: Seq<(String, Result<u128, String>)>,
    p: Seq<char>,
    bi: int,
)
    requires
        0 <= bi,
    ensures
        confirms_before(files, fulls, p, bi + 1, bi + 2) == confirms_before(
            files,
            fulls,
            p,
            bi,
            files.len() as int,
        ),
{
    if confirms_before(files, fulls, p, bi + 1, bi + 2) {
        let (i, j) = choose|i: int, j: int|
            0 <= i < j < files.len() && (i < bi + 1 || (i == bi + 1 && j < bi + 2)) && pair_matched(
                files[i],
                files[j],
                fulls,
            ) && (files[i].path@ == p || files[j].path@ == p);
        assert(i < bi || (i == bi && j < files.len()));
        assert(confirms_before(files, fulls, p, bi, files.len() as int));
    }
    if confirms_before(files, fulls, p, bi, files.len() as int) {
        let (i, j) = choose|i: int, j: int|
            0 <= i < j < files.len() && (i < bi || (i == bi && j < files.len())) && pair_matched(
                files[i],
                files[j],
                fulls,
            ) && (files[i].path@ == p || files[j].path@ == p);
        assert(i < bi + 1 || (i == bi + 1 && j < bi + 2));
        assert(confirms_before(files, fulls, p, bi + 1, bi + 2));
    }
}

/// The error line for a pair inspected while a header checksum is unset.
pub open spec fn nochk_line(p: Seq<char>) -> Seq<char> {
    "No checksum for file "@ + p
}

/// The error line for a member whose full-content read failed.
pub open spec fn full_err_line(p: Seq<char>, e: Seq<char>) -> Seq<char> {
    "Error for file "@ + p + " : "@ + e
}

/// The error-log lines one pair inspection produces: the unset-checksum
/// line, or, when the headers match, one line per member whose recorded
/// full read failed; a pair with differing headers logs nothing.
pub open spec fn pair_err_lines(
    files: Seq<FileInfo>,
    fulls: Seq<(String, Result<u128, String>)>,
    i: int,
    j: int,
) -> Seq<Seq<char>> {
    if files[i].checksum == 0 || files[j].checksum == 0 {
        seq![nochk_line(files[i].path@)]
    } else if files[i].checksum == files[j].checksum {
        (match full_err_of(fulls, files[i].path@) {
            Some(e) => seq![full_err_line(files[i].path@, e)],
            None => Seq::<Seq<char>>::empty(),
        }) + (match full_err_of(fulls, files[j].path@) {
            Some(e) => seq![full_err_line(files[j].path@, e)],
            None => Seq::<Seq<char>>::empty(),
        })
    } else {
        Seq::empty()
    }
}

/// The error lines of the remaining pairs of one sweep row.
pub open spec fn pair_err_row(
    files: Seq<FileInfo>,
    fulls: Seq<(String, Result<u128, String>)>,
    i: int,
    j: int,
) -> Seq<Seq<char>>
    decreases files.len() - j,
{
    if j >= files.len() {
        Seq::empty()
    } else {
        pair_err_lines(files, fulls, i, j) + pair_err_row(files, fulls, i, j + 1)
    }
}

/// All error lines of the pairwise sweep, row by row from `i` on.
pub open spec fn pair_err_sweep(
    files: Seq<FileInfo>,
    fulls: Seq<(String, Result<u128, String>)>,
    i: int,
) -> Seq<Seq<char>>
    decreases files.len() - i,
{
    if i + 1 >= files.len() {
        Seq::empty()
    } else {
        pair_err_row(files, fulls, i, i + 1) + pair_err_sweep(files, fulls, i + 1)
    }
}

/// All-pairs confirmation of one group in content mode: a path comes out
/// exactly when some pair with equal header checksums and equal, present
/// full-content sums contains it; each confirmed path comes out once, with
/// no tag map. The error log gains exactly the sweep's lines: one for
/// each pair met with an unset checksum, and one per failed full-content
/// read of a header-matched member; neither kind of pair confirms
/// anything.
pub fn find_duplicates_binary(
    files: &Vec<FileInfo>,
    fulls: &Vec<(String, Result<u128, String>)>,
    messenger: &mut Messenger,
) -> (dups: Vec<DuplicateRecord>)
    requires
        old(messenger).wf(),
    ensures
        final(messenger).wf(),
        old(messenger).logs_extended(final(messenger)),
        final(messenger).stdlog_spec() == old(messenger).stdlog_spec(),
        final(messenger).reslog_spec() == old(messenger).reslog_spec(),
        final(messenger).checked_spec() == old(messenger).checked_spec(),
        final(messenger).control_spec() == old(messenger).control_spec(),
        final(messenger).info_spec() == old(messenger).info_spec(),
        final(messenger).progress_spec() == old(messenger).progress_spec(),
        log_views(final(messenger).errlog_spec()) =~= log_views(old(messenger).errlog_spec())
            + pair_err_sweep(files@, fulls@, 0),
        forall|p: Seq<char>| #![auto] has_path(dups@, p) <==> group_confirms(files@, fulls@, p),
        forall|k1: int, k2: int|
            0 <= k1 < k2 < dups@.len() ==> (#[trigger] dups@[k1]).path@ != (
            #[trigger] dups@[k2]).path@,
        forall|k: int|
            0 <= k < dups@.len() ==> (#[trigger] dups@[k]).tags@ =~= Seq::<(String, String)>::empty(),
{
    let n = files.len();
    let mut dups: Vec<DuplicateRecord> = Vec::new();
    if n == 0 {
        proof {
            assert(pair_err_sweep(files@, fulls@, 0) =~= Seq::<Seq<char>>::empty());
            assert(log_views(messenger.errlog_spec()) + Seq::<Seq<char>>::empty() =~= log_views(
                messenger.errlog_spec(),
            ));
            assert forall|p: Seq<char>| #![auto]
                has_path(dups@, p) <==> group_confirms(files@, fulls@, p) by {
                if group_confirms(files@, fulls@, p) {
                    let (i, j) = choose|i: int, j: int|
                        0 <= i < j < files@.len() && pair_matched(files@[i], files@[j], fulls@) && (
                        files@[i].path@ == p || files@[j].path@ == p);
                    assert(false);
                }
                if has_path(dups@, p) {
                    let k = choose|k: int| 0 <= k < dups@.len() && dups@[k].path@ == p;
                    assert(false);
                }
            }
        }
        return dups;
    }
    let mut i: usize = 0;
    proof {
        assert forall|p: Seq<char>| #![auto]
            has_path(dups@, p) <==> confirms_before(files@, fulls@, p, 0, 1) by {
            if confirms_before(files@, fulls@, p, 0, 1) {
                let (a, b) = choose|a: int, b: int|
                    0 <= a < b < files@.len() && (a < 0 || (a == 0 && b < 1)) && pair_matched(
                        files@[a],
                        files@[b],
                        fulls@,
                    ) && (files@[a].path@ == p || files@[b].path@ == p);
                assert(false);
            }
            if has_path(dups@, p) {
                let k = choose|k: int| 0 <= k < dups@.len() && dups@[k].path@ == p;
                assert(false);
            }
        }
    }
    while i + 1 < n
        invariant
            i + 1 <= n,
            n == files@.len(),
            messenger.wf(),
            old(messenger).logs_extended(messenger),
            messenger.stdlog_spec() == old(messenger).stdlog_spec(),
            messenger.reslog_spec() == old(messenger).reslog_spec(),
            messenger.checked_spec() == old(messenger).checked_spec(),
            messenger.control_spec() == old(messenger).control_spec(),
            messenger.info_spec() == old(messenger).info_spec(),
            messenger.progress_spec() == old(messenger).progress_spec(),
            log_views(messenger.errlog_spec()) + pair_err_sweep(files@, fulls@, i as int)
                =~= log_views(old(messenger).errlog_spec()) + pair_err_sweep(files@, fulls@, 0),
            forall|p: Seq<char>| #![auto]
                has_path(dups@, p) <==> confirms_before(files@, fulls@, p, i as int, i + 1),
            forall|k1: int, k2: int|
                0 <= k1 < k2 < dups@.len() ==> (#[trigger] dups@[k1]).path@ != (
                #[trigger] dups@[k2]).path@,
            forall|k: int|
                0 <= k < dups@.len() ==> (#[trigger] dups@[k]).tags@ =~= Seq::<(
                    String,
                    String,
                )>::empty(),
        decreases n - i,
    {
        let mut j: usize = i + 1;
        proof {
            assert(pair_err_sweep(files@, fulls@, i as int) == pair_err_row(
                files@,
                fulls@,
                i as int,
                i + 1,
            ) + pair_err_sweep(files@, fulls@, i + 1));
            assert(log_views(messenger.errlog_spec()) + (pair_err_row(files@, fulls@, i as int, i + 1)
                + pair_err_sweep(files@, fulls@, i + 1)) =~= log_views(messenger.errlog_spec())
                + pair_err_row(files@, fulls@, i as int, i + 1) + pair_err_sweep(
                files@,
                fulls@,
                i + 1,
            ));
        }
        while j < n
            invariant
                i + 1 <= j <= n,
                i + 1 < n,
                n == files@.len(),
                messenger.wf(),
                old(messenger).logs_extended(messenger),
                messenger.stdlog_spec() == old(messenger).stdlog_spec(),
                messenger.reslog_spec() == old(messenger).reslog_spec(),
                messenger.checked_spec() == old(messenger).checked_spec(),
                messenger.control_spec() == old(messenger).control_spec(),
                messenger.info_spec() == old(messenger).info_spec(),
                messenger.progress_spec() == old(messenger).progress_spec(),
                log_views(messenger.errlog_spec()) + pair_err_row(files@, fulls@, i as int, j as int)
                    + pair_err_sweep(files@, fulls@, i + 1) =~= log_views(
                    old(messenger).errlog_spec(),
                ) + pair_err_sweep(files@, fulls@, 0),
                forall|p: Seq<char>| #![auto]
                    has_path(dups@, p) <==> confirms_before(files@, fulls@, p, i as int, j as int),
                forall|k1: int, k2: int|
                    0 <= k1 < k2 < dups@.len() ==> (#[trigger] dups@[k1]).path@ != (
                    #[trigger] dups@[k2]).path@,
                forall|k: int|
                    0 <= k < dups@.len() ==> (#[trigger] dups@[k]).tags@ =~= Seq::<(
                        String,
                        String,
                    )>::empty(),
            decreases n - j,
        {
            let ghost pre = dups@;
            let ghost pre_e = messenger.errlog_spec();
            let ci = files[i].checksum;
            let cj = files[j].checksum;
            let ghost fa = files@[i as int];
            let ghost fb = files@[j as int];
            if ci == 0 || cj == 0 {
                let msg = "No checksum for file ".to_owned().concat(files[i].path.as_str());
                messenger.push_errlog(msg);
                proof {
                    assert(!pair_matched(fa, fb, fulls@));
                    assert(pair_err_lines(files@, fulls@, i as int, j as int) =~= seq![
                        nochk_line(fa.path@),
                    ]);
                    assert(log_views(messenger.errlog_spec()) =~= log_views(pre_e).push(
                        nochk_line(fa.path@),
                    ));
                    assert(log_views(messenger.errlog_spec()) =~= log_views(pre_e)
                        + pair_err_lines(files@, fulls@, i as int, j as int));
                }
            } else if ci == cj {
                let si = lookup_full(fulls, files[i].path.as_str());
                if let Some(Err(e)) = &si {
                    let msg = "Error for file ".to_owned().concat(files[i].path.as_str()).concat(
                        " : ",
                    ).concat(e.as_str());
                    proof {
                        assert(msg@ == full_err_line(fa.path@, e@));
                    }
                    messenger.push_errlog(msg);
                }
                let ghost mid_e = messenger.errlog_spec();
                proof {
                    assert(log_views(mid_e) =~= log_views(pre_e) + (match full_err_of(
                        fulls@,
                        fa.path@,
                    ) {
                        Some(e) => seq![full_err_line(fa.path@, e)],
                        None => Seq::<Seq<char>>::empty(),
                    }));
                }
                let sj = lookup_full(fulls, files[j].path.as_str());
                if let Some(Err(e)) = &sj {
                    let msg = "Error for file ".to_owned().concat(files[j].path.as_str()).concat(
                        " : ",
                    ).concat(e.as_str());
                    proof {
                        assert(msg@ == full_err_line(fb.path@, e@));
                    }
                    messenger.push_errlog(msg);
                }
                proof {
                    assert(log_views(messenger.errlog_spec()) =~= log_views(mid_e) + (
                    match full_err_of(fulls@, fb.path@) {
                        Some(e) => seq![full_err_line(fb.path@, e)],
                        None => Seq::<Seq<char>>::empty(),
                    }));
                    assert(log_views(messenger.errlog_spec()) =~= log_views(pre_e)
                        + pair_err_lines(files@, fulls@, i as int, j as int));
                }
                let matched: bool = match (&si, &sj) {
                    (Some(Ok(x)), Some(Ok(y))) => *x == *y,
                    _ => false,
                };
                if matched {
                    proof {
                        assert(pair_matched(fa, fb, fulls@));
                    }
                    if !vec_has_path(&dups, files[i].path.as_str()) {
                        let rec = DuplicateRecord { path: files[i].path.clone(), tags: Vec::new() };
                        let ghost grec = rec;
                        let ghost before = dups@;
                        dups.push(rec);
                        proof {
                            assert(grec.path@ == fa.path@);
                            assert forall|p: Seq<char>| #![auto]
                                has_path(dups@, p) == (has_path(before, p) || fa.path@ == p) by {
                                lemma_has_path_push(before, grec, p);
                            }
                        }
                    }
                    if !vec_has_path(&dups, files[j].path.as_str()) {
                        let rec = DuplicateRecord { path: files[j].path.clone(), tags: Vec::new() };
                        let ghost grec = rec;
                        let ghost before = dups@;
                        dups.push(rec);
                        proof {
                            assert(grec.path@ == fb.path@);
                            assert forall|p: Seq<char>| #![auto]
                                has_path(dups@, p) == (has_path(before, p) || fb.path@ == p) by {
                                lemma_has_path_push(before, grec, p);
                            }
                        }
                    }
                } else {
                    proof {
                        assert(!pair_matched(fa, fb, fulls@));
                    }
                }
            } else {
                proof {
                    assert(!pair_matched(fa, fb, fulls@));
                    assert(pair_err_lines(files@, fulls@, i as int, j as int)
                        =~= Seq::<Seq<char>>::empty());
                    assert(log_views(messenger.errlog_spec()) =~= log_views(pre_e)
                        + pair_err_lines(files@, fulls@, i as int, j as int));
                }
            }
            proof {
                assert(pair_err_row(files@, fulls@, i as int, j as int) == pair_err_lines(
                    files@,
                    fulls@,
                    i as int,
                    j as int,
                ) + pair_err_row(files@, fulls@, i as int, j + 1));
                assert(log_views(messenger.errlog_spec()) + pair_err_row(
                    files@,
                    fulls@,
                    i as int,
                    j + 1,
                ) + pair_err_sweep(files@, fulls@, i + 1) =~= log_views(
                    old(messenger).errlog_spec(),
                ) + pair_err_sweep(files@, fulls@, 0)) by {
                    assert(log_views(pre_e) + pair_err_row(files@, fulls@, i as int, j as int)
                        + pair_err_sweep(files@, fulls@, i + 1) =~= log_views(
                        old(messenger).errlog_spec(),
                    ) + pair_err_sweep(files@, fulls@, 0));
                    assert(log_views(messenger.errlog_spec()) =~= log_views(pre_e)
                        + pair_err_lines(files@, fulls@, i as int, j as int));
                    assert((log_views(pre_e) + pair_err_lines(files@, fulls@, i as int, j as int))
                        + pair_err_row(files@, fulls@, i as int, j + 1) =~= log_views(pre_e) + (
                    pair_err_lines(files@, fulls@, i as int, j as int) + pair_err_row(
                        files@,
                        fulls@,
                        i as int,
                        j + 1,
                    )));
                }
                assert forall|p: Seq<char>| #![auto]
                    has_path(dups@, p) <==> confirms_before(
                        files@,
                        fulls@,
                        p,
                        i as int,
                        j + 1,
                    ) by {
                    assert(has_path(pre, p) <==> confirms_before(
                        files@,
                        fulls@,
                        p,
                        i as int,
                        j as int,
                    ));
                    lemma_confirms_step(files@, fulls@, p, i as int, j as int);
                    if pair_matched(fa, fb, fulls@) {
                        assert(has_path(dups@, fa.path@));
                        assert(has_path(dups@, fb.path@));
                        assert(has_path(dups@, p) == (has_path(pre, p) || fa.path@ == p
                            || fb.path@ == p));
                    } else {
                        assert(dups@ == pre);
                    }
                }
            }
            j = j + 1;
        }
        proof {
            assert(pair_err_row(files@, fulls@, i as int, j as int) =~= Seq::<Seq<char>>::empty());
            assert(log_views(messenger.errlog_spec()) + pair_err_sweep(files@, fulls@, i + 1)
                =~= log_views(old(messenger).errlog_spec()) + pair_err_sweep(
                files@,
                fulls@,
                0,
            )) by {
                assert(log_views(messenger.errlog_spec()) + Seq::<Seq<char>>::empty()
                    =~= log_views(messenger.errlog_spec()));
            }
            assert forall|p: Seq<char>| #![auto]
                has_path(dups@, p) <==> confirms_before(
                    files@,
                    fulls@,
                    p,
                    i + 1,
                    i + 2,
                ) by {
                lemma_confirms_rollover(files@, fulls@, p, i as int);
            }
        }
        i = i + 1;
    }
    proof {
        assert(pair_err_sweep(files@, fulls@, i as int) =~= Seq::<Seq<char>>::empty());
        assert(log_views(messenger.errlog_spec()) =~= log_views(old(messenger).errlog_spec())
            + pair_err_sweep(files@, fulls@, 0)) by {
            assert(log_views(messenger.errlog_spec()) + Seq::<Seq<char>>::empty() =~= log_views(
                messenger.errlog_spec(),
            ));
        }
        assert forall|p: Seq<char>| #![auto]
            has_path(dups@, p) <==> group_confirms(files@, fulls@, p) by {
            if confirms_before(files@, fulls@, p, i as int, i + 1) {
                let (a, b) = choose|a: int, b: int|
                    0 <= a < b < files@.len() && (a < i || (a == i && b < i + 1)) && pair_matched(
                        files@[a],
                        files@[b],
                        fulls@,
                    ) && (files@[a].path@ == p || files@[b].path@ == p);
                assert(group_confirms(files@, fulls@, p));
            }
            if group_confirms(files@, fulls@, p) {
                let (a, b) = choose|a: int, b: int|
                    0 <= a < b < files@.len() && pair_matched(files@[a], files@[b], fulls@) && (
                    files@[a].path@ == p || files@[b].path@ == p);
                assert(a < i || (a == i && b < i + 1));
                assert(confirms_before(files@, fulls@, p, i as int, i + 1));
            }
        }
    }
    dups
}


/// Whether this member still needs a full-content read: its header
/// checksum is set and shared with another member of the group.
pub open spec fn needs_full(files: Seq<FileInfo>, a: int) -> bool {
    files[a].checksum != 0 && exists|b: int|
        0 <= b < files.len() && b != a && files[b].checksum == files[a].checksum
}

/// Whether some listed path is `p`.
pub open spec fn path_in_list(ps: Seq<String>, p: Seq<char>) -> bool {
    exists|k: int| 0 <= k < ps.len() && ps[k]@ == p
}

proof fn lemma_path_in_push(ps: Seq<String>, x: String, p: Seq<char>)
    ensures
        path_in_list(ps, p) ==> path_in_list(ps.push(x), p),
        x@ == p ==> path_in_list(ps.push(x), p),
{
    if path_in_list(ps, p) {
        let k = choose|k: int| 0 <= k < ps.len() && ps[k]@ == p;
        assert(ps.push(x)[k]@ == p);
    }
    if x@ == p {
        assert(ps.push(x)[ps.len() as int]@ == p);
    }
}

/// Whether `p` is the path of some member still needing a full read.
pub open spec fn some_needy_path(g: Seq<GroupEntry>, p: Seq<char>) -> bool {
    exists|gi: int, a: int|
        #![trigger g[gi].files@[a]]
        0 <= gi < g.len() && 0 <= a < g[gi].files@.len() && needs_full(g[gi].files@, a)
            && g[gi].files@[a].path@ == p
}

/// The paths whose whole content the confirmation phase will compare:
/// every member that shares its set header checksum with another member of
/// its group is listed, and nothing else is.
pub fn full_read_requests(groups: &GroupMap) -> (r: Vec<String>)
    ensures
        forall|gi: int, a: int|
            0 <= gi < groups@.len() && 0 <= a < (#[trigger] groups@[gi]).files@.len() && needs_full(
                groups@[gi].files@,
                a,
            ) ==> path_in_list(r@, (#[trigger] groups@[gi].files@[a]).path@),
        forall|k: int| 0 <= k < r@.len() ==> some_needy_path(groups@, (#[trigger] r@[k])@),
{
    let mut out: Vec<String> = Vec::new();
    let n = groups.len();
    let mut gi: usize = 0;
    while gi < n
        invariant
            gi <= n,
            n == groups@.len(),
            forall|g2: int, a2: int|
                0 <= g2 < gi && 0 <= a2 < (#[trigger] groups@[g2]).files@.len() && needs_full(
                    groups@[g2].files@,
                    a2,
                ) ==> path_in_list(out@, (#[trigger] groups@[g2].files@[a2]).path@),
            forall|k: int| 0 <= k < out@.len() ==> some_needy_path(groups@, (#[trigger] out@[k])@),
        decreases n - gi,
    {
        let files_len = groups.get(gi).files.len();
        let mut a: usize = 0;
        while a < files_len
            invariant
                gi < n,
                n == groups@.len(),
                a <= files_len,
                files_len == groups@[gi as int].files@.len(),
                forall|g2: int, a2: int|
                    0 <= g2 < gi && 0 <= a2 < (#[trigger] groups@[g2]).files@.len() && needs_full(
                        groups@[g2].files@,
                        a2,
                    ) ==> path_in_list(out@, (#[trigger] groups@[g2].files@[a2]).path@),
                forall|a2: int|
                    0 <= a2 < a && needs_full(groups@[gi as int].files@, a2) ==> path_in_list(
                        out@,
                        (#[trigger] groups@[gi as int].files@[a2]).path@,
                    ),
                forall|k: int|
                    0 <= k < out@.len() ==> some_needy_path(groups@, (#[trigger] out@[k])@),
            decreases files_len - a,
        {
            let ca = groups.get(gi).files[a].checksum;
            if ca != 0 {
                let mut found = false;
                let mut b: usize = 0;
                while b < files_len
                    invariant
                        gi < n,
                        n == groups@.len(),
                        a < files_len,
                        b <= files_len,
                        files_len == groups@[gi as int].files@.len(),
                        ca == groups@[gi as int].files@[a as int].checksum,
                        ca != 0,
                        found ==> needs_full(groups@[gi as int].files@, a as int),
                        !found ==> forall|b2: int|
                            0 <= b2 < b ==> !(b2 != a && (#[trigger] groups@[gi as int].files@[b2]).checksum
                                == ca),
                    decreases files_len - b,
                {
                    if b != a && groups.get(gi).files[b].checksum == ca {
                        found = true;
                        proof {
                            assert(groups@[gi as int].files@[b as int].checksum == ca);
                            assert(needs_full(groups@[gi as int].files@, a as int)) by {
                                assert(b != a && groups@[gi as int].files@[b as int].checksum
                                    == groups@[gi as int].files@[a as int].checksum);
                            }
                        }
                        b = files_len;
                    } else {
                        b = b + 1;
                    }
                }
                if found {
                    let ghost pre = out@;
                    let p = groups.get(gi).files[a].path.clone();
                    let ghost gp = p;
                    out.push(p);
                    proof {
                        assert(some_needy_path(groups@, gp@)) by {
                            assert(needs_full(groups@[gi as int].files@, a as int)
                                && groups@[gi as int].files@[a as int].path@ == gp@);
                        }
                        assert forall|k: int|
                            0 <= k < out@.len() implies some_needy_path(
                            groups@,
                            (#[trigger] out@[k])@,
                        ) by {
                            if k < pre.len() {
                                assert(out@[k] == pre[k]);
                                assert(some_needy_path(groups@, pre[k]@));
                            } else {
                                assert(out@[k] == gp);
                            }
                        }
                        assert forall|g2: int, a2: int|
                            0 <= g2 < gi && 0 <= a2 < (#[trigger] groups@[g2]).files@.len()
                                && needs_full(groups@[g2].files@, a2) implies path_in_list(
                            out@,
                            (#[trigger] groups@[g2].files@[a2]).path@,
                        ) by {
                            lemma_path_in_push(pre, gp, groups@[g2].files@[a2].path@);
                        }
                        assert forall|a2: int|
                            0 <= a2 < a + 1 && needs_full(
                                groups@[gi as int].files@,
                                a2,
                            ) implies path_in_list(
                            out@,
                            (#[trigger] groups@[gi as int].files@[a2]).path@,
                        ) by {
                            lemma_path_in_push(pre, gp, groups@[gi as int].files@[a2].path@);
                        }
                    }
                } else {
                    proof {
                        assert(!needs_full(groups@[gi as int].files@, a as int)) by {
                            if needs_full(groups@[gi as int].files@, a as int) {
                                let b2 = choose|b2: int|
                                    0 <= b2 < groups@[gi as int].files@.len() && b2 != a
                                        && groups@[gi as int].files@[b2].checksum == ca;
                                assert(false);
                            }
                        }
                    }
                }
            } else {
                proof {
                    assert(!needs_full(groups@[gi as int].files@, a as int));
                }
            }
            a = a + 1;
        }
        gi = gi + 1;
    }
    out
}

/// The confirmation key of a probed member, if its probe succeeded.
pub open spec fn meta_key_of(
    keys: Seq<Option<(String, Vec<(String, String)>)>>,
    k: int,
) -> Option<Seq<char>> {
    match keys[k] {
        Some(p) => Some(p.0@),
        None => None,
    }
}

/// Two members are metadata duplicates when both probes succeeded and
/// their full keys are equal, character for character.
pub open spec fn pair_matched_meta(
    keys: Seq<Option<(String, Vec<(String, String)>)>>,
    a: int,
    b: int,
) -> bool {
    meta_key_of(keys, a) is Some && meta_key_of(keys, a) == meta_key_of(keys, b)
}

/// Whether a pair of this member list confirms the path `p` in metadata
/// mode.
pub open spec fn group_confirms_meta(
    files: Seq<FileInfo>,
    keys: Seq<Option<(String, Vec<(String, String)>)>>,
    p: Seq<char>,
) -> bool {
    exists|i: int, j: int|
        0 <= i < j < files.len() && pair_matched_meta(keys, i, j) && (files[i].path@ == p
            || files[j].path@ == p)
}

spec fn confirms_before_meta(
    files: Seq<FileInfo>,
    keys: Seq<Option<(String, Vec<(String, String)>)>>,
    p: Seq<char>,
    bi: int,
    bj: int,
) -> bool {
    exists|i: int, j: int|
        0 <= i < j < files.len() && (i < bi || (i == bi && j < bj)) && pair_matched_meta(keys, i, j)
            && (files[i].path@ == p || files[j].path@ == p)
}

proof fn lemma_confirms_step_meta(
    files: Seq<FileInfo>,
    keys: Seq<Option<(String, Vec<(String, String)>)>>,
    p: Seq<char>,
    bi: int,
    bj: int,
)
    requires
        0 <= bi < bj,
    ensures
        confirms_before_meta(files, keys, p, bi, bj + 1) == (confirms_before_meta(
            files,
            keys,
            p,
            bi,
            bj,
        ) || (bj < files.len() && pair_matched_meta(keys, bi, bj) && (files[bi].path@ == p
            || files[bj].path@ == p))),
{
    if confirms_before_meta(files, keys, p, bi, bj) {
        let (i, j) = choose|i: int, j: int|
            0 <= i < j < files.len() && (i < bi || (i == bi && j < bj)) && pair_matched_meta(
                keys,
                i,
                j,
            ) && (files[i].path@ == p || files[j].path@ == p);
        assert(i < bi || (i == bi && j < bj + 1));
    }
    if bj < files.len() && pair_matched_meta(keys, bi, bj) && (files[bi].path@ == p
        || files[bj].path@ == p) {
        assert(0 <= bi < bj < files.len() && (bi < bi || (bi == bi && bj < bj + 1))
            && pair_matched_meta(keys, bi, bj) && (files[bi].path@ == p || files[bj].path@ == p));
        assert(confirms_before_meta(files, keys, p, bi, bj + 1));
    }
    if confirms_before_meta(files, keys, p, bi, bj + 1) {
        let (i, j) = choose|i: int, j: int|
            0 <= i < j < files.len() && (i < bi || (i == bi && j < bj + 1)) && pair_matched_meta(
                keys,
                i,
                j,
            ) && (files[i].path@ == p || files[j].path@ == p);
        if i < bi || (i == bi && j < bj) {
            assert(confirms_before_meta(files, keys, p, bi, bj));
        } else {
            assert(i == bi && j == bj);
        }
    }
}

proof fn lemma_confirms_rollover_meta(
    files: Seq<FileInfo>,
    keys: Seq<Option<(String, Vec<(String, String)>)>>,
    p: Seq<char>,
    bi: int,
)
    requires
        0 <= bi,
    ensures
        confirms_before_meta(files, keys, p, bi + 1, bi + 2) == confirms_before_meta(
            files,
            keys,
            p,
            bi,
            files.len() as int,
        ),
{
    if confirms_before_meta(files, keys, p, bi + 1, bi + 2) {
        let (i, j) = choose|i: int, j: int|
            0 <= i < j < files.len() && (i < bi + 1 || (i == bi + 1 && j < bi + 2))
                && pair_matched_meta(keys, i, j) && (files[i].path@ == p || files[j].path@ == p);
        assert(i < bi || (i == bi && j < files.len()));
        assert(confirms_before_meta(files, keys, p, bi, files.len() as int));
    }
    if confirms_before_meta(files, keys, p, bi, files.len() as int) {
        let (i, j) = choose|i: int, j: int|
            0 <= i < j < files.len() && (i < bi || (i == bi && j < files.len()))
                && pair_matched_meta(keys, i, j) && (files[i].path@ == p || files[j].path@ == p);
        assert(i < bi + 1 || (i == bi + 1 && j < bi + 2));
        assert(confirms_before_meta(files, keys, p, bi + 1, bi + 2));
    }
}

/// Every record's path and tag map come from a probed member.
pub open spec fn recs_sourced(
    dups: Seq<DuplicateRecord>,
    files: Seq<FileInfo>,
    keys: Seq<Option<(String, Vec<(String, String)>)>>,
) -> bool {
    forall|k: int|
        0 <= k < dups.len() ==> exists|a: int|
            0 <= a < files.len() && (#[trigger] dups[k]).path == files[a].path && (
            keys[a] matches Some(pr) && dups[k].tags@ == pr.1@)
}

proof fn lemma_recs_sourced_push(
    before: Seq<DuplicateRecord>,
    rec: DuplicateRecord,
    files: Seq<FileInfo>,
    keys: Seq<Option<(String, Vec<(String, String)>)>>,
    a: int,
)
    requires
        recs_sourced(before, files, keys),
        0 <= a < files.len(),
        rec.path == files[a].path,
        keys[a] matches Some(pr) && rec.tags@ == pr.1@,
    ensures
        recs_sourced(before.push(rec), files, keys),
{
    let after = before.push(rec);
    assert forall|k: int|
        0 <= k < after.len() implies exists|aa: int|
        0 <= aa < files.len() && (#[trigger] after[k]).path == files[aa].path && (
        keys[aa] matches Some(pr) && after[k].tags@ == pr.1@) by {
        if k < before.len() {
            assert(after[k] == before[k]);
            let aa = choose|aa: int|
                0 <= aa < files.len() && (#[trigger] before[k]).path == files[aa].path && (
                keys[aa] matches Some(pr) && before[k].tags@ == pr.1@);
            assert(0 <= aa < files.len() && after[k].path == files[aa].path && (
            keys[aa] matches Some(pr) && after[k].tags@ == pr.1@));
        } else {
            assert(after[k] == rec);
            assert(0 <= a < files.len() && after[k].path == files[a].path && (
            keys[a] matches Some(pr) && after[k].tags@ == pr.1@));
        }
    }
}

/// Read the full confirmation key of every member of a group through the
/// tag probe: one entry per member; a failed probe is logged and yields
/// nothing for that member. A succeeding entry always holds the full key
/// of its own tag map.
pub fn probe_group_keys(files: &Vec<FileInfo>, messenger: &mut Messenger) -> (keys: Vec<
    Option<(String, Vec<(String, String)>)>,
>)
    requires
        old(messenger).wf(),
    ensures
        final(messenger).wf(),
        old(messenger).logs_extended(final(messenger)),
        final(messenger).stdlog_spec() == old(messenger).stdlog_spec(),
        final(messenger).reslog_spec() == old(messenger).reslog_spec(),
        final(messenger).checked_spec() == old(messenger).checked_spec(),
        final(messenger).control_spec() == old(messenger).control_spec(),
        final(messenger).info_spec() == old(messenger).info_spec(),
        final(messenger).progress_spec() == old(messenger).progress_spec(),
        keys@.len() == files@.len(),
        forall|k: int|
            0 <= k < keys@.len() ==> ((#[trigger] keys@[k]) matches Some(pr) ==> pr.0@
                == crate::lofty_utils::spec_full_key(pr.1@)),
{
    let n = files.len();
    let mut keys: Vec<Option<(String, Vec<(String, String)>)>> = Vec::new();
    let mut k: usize = 0;
    while k < n
        invariant
            k <= n,
            n == files@.len(),
            keys@.len() == k,
            messenger.wf(),
            old(messenger).logs_extended(messenger),
            messenger.stdlog_spec() == old(messenger).stdlog_spec(),
            messenger.reslog_spec() == old(messenger).reslog_spec(),
            messenger.checked_spec() == old(messenger).checked_spec(),
            messenger.control_spec() == old(messenger).control_spec(),
            messenger.info_spec() == old(messenger).info_spec(),
            messenger.progress_spec() == old(messenger).progress_spec(),
            forall|kk: int|
                0 <= kk < keys@.len() ==> ((#[trigger] keys@[kk]) matches Some(pr) ==> pr.0@
                    == crate::lofty_utils::spec_full_key(pr.1@)),
        decreases n - k,
    {
        match crate::lofty_utils::get_audio_tags(files[k].path()) {
            Err(e) => {
                let msg = "Error Could not get Key file ".to_owned().concat(
                    files[k].path.as_str(),
                ).concat(" : ").concat(e.as_str());
                messenger.push_errlog(msg);
                keys.push(None);
            },
            Ok(tags) => {
                let key = crate::lofty_utils::full_key_of_tags(&tags);
                keys.push(Some((key, tags)));
            },
        }
        k = k + 1;
    }
    keys
}

/// All-pairs confirmation of one group in metadata mode: a path comes out
/// exactly when two probed members share one full key; each confirmed path
/// comes out once, carrying the tag map its probe returned.
pub fn find_duplicates_metadata(
    files: &Vec<FileInfo>,
    keys: &Vec<Option<(String, Vec<(String, String)>)>>,
) -> (dups: Vec<DuplicateRecord>)
    requires
        keys@.len() == files@.len(),
    ensures
        forall|p: Seq<char>| #![auto] has_path(dups@, p) <==> group_confirms_meta(
            files@,
            keys@,
            p,
        ),
        forall|k1: int, k2: int|
            0 <= k1 < k2 < dups@.len() ==> (#[trigger] dups@[k1]).path@ != (
            #[trigger] dups@[k2]).path@,
        recs_sourced(dups@, files@, keys@),
{
    let n = files.len();
    let mut dups: Vec<DuplicateRecord> = Vec::new();
    if n == 0 {
        proof {
            assert forall|p: Seq<char>| #![auto]
                has_path(dups@, p) <==> group_confirms_meta(files@, keys@, p) by {
                if group_confirms_meta(files@, keys@, p) {
                    let (i, j) = choose|i: int, j: int|
                        0 <= i < j < files@.len() && pair_matched_meta(keys@, i, j) && (
                        files@[i].path@ == p || files@[j].path@ == p);
                    assert(false);
                }
                if has_path(dups@, p) {
                    let k = choose|k: int| 0 <= k < dups@.len() && dups@[k].path@ == p;
                    assert(false);
                }
            }
        }
        return dups;
    }
    let mut i: usize = 0;
    proof {
        assert forall|p: Seq<char>| #![auto]
            has_path(dups@, p) <==> confirms_before_meta(files@, keys@, p, 0, 1) by {
            if confirms_before_meta(files@, keys@, p, 0, 1) {
                let (a, b) = choose|a: int, b: int|
                    0 <= a < b < files@.len() && (a < 0 || (a == 0 && b < 1)) && pair_matched_meta(
                        keys@,
                        a,
                        b,
                    ) && (files@[a].path@ == p || files@[b].path@ == p);
                assert(false);
            }
            if has_path(dups@, p) {
                let k = choose|k: int| 0 <= k < dups@.len() && dups@[k].path@ == p;
                assert(false);
            }
        }
    }
    while i + 1 < n
        invariant
            i + 1 <= n,
            n == files@.len(),
            n == keys@.len(),
            forall|p: Seq<char>| #![auto]
                has_path(dups@, p) <==> confirms_before_meta(files@, keys@, p, i as int, i + 1),
            forall|k1: int, k2: int|
                0 <= k1 < k2 < dups@.len() ==> (#[trigger] dups@[k1]).path@ != (
                #[trigger] dups@[k2]).path@,
            recs_sourced(dups@, files@, keys@),
        decreases n - i,
    {
        let mut j: usize = i + 1;
        while j < n
            invariant
                i + 1 <= j <= n,
                i + 1 < n,
                n == files@.len(),
                n == keys@.len(),
                forall|p: Seq<char>| #![auto]
                    has_path(dups@, p) <==> confirms_before_meta(
                        files@,
                        keys@,
                        p,
                        i as int,
                        j as int,
                    ),
                forall|k1: int, k2: int|
                    0 <= k1 < k2 < dups@.len() ==> (#[trigger] dups@[k1]).path@ != (
                    #[trigger] dups@[k2]).path@,
                recs_sourced(dups@, files@, keys@),
            decreases n - j,
        {
            let ghost pre = dups@;
            let ghost fa = files@[i as int];
            let ghost fb = files@[j as int];
            let matched: bool = match (&keys[i], &keys[j]) {
                (Some(pi), Some(pj)) => crate::string_utils::str_eq(
                    pi.0.as_str(),
                    pj.0.as_str(),
                ),
                _ => false,
            };
            if matched {
                proof {
                    assert(pair_matched_meta(keys@, i as int, j as int));
                }
                if !vec_has_path(&dups, files[i].path.as_str()) {
                    let tags_i = match &keys[i] {
                        Some(pi) => crate::messenger::clone_tags(&pi.1),
                        None => Vec::new(),
                    };
                    let rec = DuplicateRecord { path: files[i].path.clone(), tags: tags_i };
                    let ghost grec = rec;
                    let ghost before = dups@;
                    dups.push(rec);
                    proof {
                        assert(grec.path@ == fa.path@);
                        assert(grec.path == fa.path);
                        assert(keys@[i as int] matches Some(pr) && grec.tags@ == pr.1@);
                        lemma_recs_sourced_push(before, grec, files@, keys@, i as int);
                        assert forall|p: Seq<char>| #![auto]
                            has_path(dups@, p) == (has_path(before, p) || fa.path@ == p) by {
                            lemma_has_path_push(before, grec, p);
                        }
                    }
                }
                if !vec_has_path(&dups, files[j].path.as_str()) {
                    let tags_j = match &keys[j] {
                        Some(pj) => crate::messenger::clone_tags(&pj.1),
                        None => Vec::new(),
                    };
                    let rec = DuplicateRecord { path: files[j].path.clone(), tags: tags_j };
                    let ghost grec = rec;
                    let ghost before = dups@;
                    dups.push(rec);
                    proof {
                        assert(grec.path@ == fb.path@);
                        assert(grec.path == fb.path);
                        assert(keys@[j as int] matches Some(pr) && grec.tags@ == pr.1@);
                        lemma_recs_sourced_push(before, grec, files@, keys@, j as int);
                        assert forall|p: Seq<char>| #![auto]
                            has_path(dups@, p) == (has_path(before, p) || fb.path@ == p) by {
                            lemma_has_path_push(before, grec, p);
                        }
                    }
                }
            } else {
                proof {
                    assert(!pair_matched_meta(keys@, i as int, j as int));
                }
            }
            proof {
                assert forall|p: Seq<char>| #![auto]
                    has_path(dups@, p) <==> confirms_before_meta(
                        files@,
                        keys@,
                        p,
                        i as int,
                        j + 1,
                    ) by {
                    assert(has_path(pre, p) <==> confirms_before_meta(
                        files@,
                        keys@,
                        p,
                        i as int,
                        j as int,
                    ));
                    lemma_confirms_step_meta(files@, keys@, p, i as int, j as int);
                    if pair_matched_meta(keys@, i as int, j as int) {
                        assert(has_path(dups@, fa.path@));
                        assert(has_path(dups@, fb.path@));
                        assert(has_path(dups@, p) == (has_path(pre, p) || fa.path@ == p
                            || fb.path@ == p));
                    } else {
                        assert(dups@ == pre);
                    }
                }
            }
            j = j + 1;
        }
        proof {
            assert forall|p: Seq<char>| #![auto]
                has_path(dups@, p) <==> confirms_before_meta(
                    files@,
                    keys@,
                    p,
                    i + 1,
                    i + 2,
                ) by {
                lemma_confirms_rollover_meta(files@, keys@, p, i as int);
            }
        }
        i = i + 1;
    }
    proof {
        assert forall|p: Seq<char>| #![auto]
            has_path(dups@, p) <==> group_confirms_meta(files@, keys@, p) by {
            if confirms_before_meta(files@, keys@, p, i as int, i + 1) {
                let (a, b) = choose|a: int, b: int|
                    0 <= a < b < files@.len() && (a < i || (a == i && b < i + 1))
                        && pair_matched_meta(keys@, a, b) && (files@[a].path@ == p
                        || files@[b].path@ == p);
                assert(group_confirms_meta(files@, keys@, p));
            }
            if group_confirms_meta(files@, keys@, p) {
                let (a, b) = choose|a: int, b: int|
                    0 <= a < b < files@.len() && pair_matched_meta(keys@, a, b) && (files@[a].path@
                        == p || files@[b].path@ == p);
                assert(a < i || (a == i && b < i + 1));
                assert(confirms_before_meta(files@, keys@, p, i as int, i + 1));
            }
        }
    }
    dups
}


/// No two candidates of the whole map share a path, as holds of any walk
/// of a real tree (each file is enumerated once).
pub open spec fn map_paths_unique(g: Seq<GroupEntry>) -> bool {
    forall|gi1: int, a1: int, gi2: int, a2: int|
        #![trigger g[gi1].files@[a1], g[gi2].files@[a2]]
        0 <= gi1 < g.len() && 0 <= a1 < g[gi1].files@.len() && 0 <= gi2 < g.len() && 0 <= a2
            < g[gi2].files@.len() && (gi1 != gi2 || a1 != a2) ==> g[gi1].files@[a1].path@
            != g[gi2].files@[a2].path@
}

/// A confirmed path always belongs to some member of the group.
proof fn lemma_confirmed_is_member_path(
    files: Seq<FileInfo>,
    fulls: Seq<(String, Result<u128, String>)>,
    p: Seq<char>,
)
    requires
        group_confirms(files, fulls, p),
    ensures
        exists|a: int| 0 <= a < files.len() && (#[trigger] files[a]).path@ == p,
{
    let (i, j) = choose|i: int, j: int|
        0 <= i < j < files.len() && pair_matched(files[i], files[j], fulls) && (files[i].path@ == p
            || files[j].path@ == p);
    if files[i].path@ == p {
        assert(files[i].path@ == p);
    } else {
        assert(files[j].path@ == p);
    }
}

/// A path is a confirmed duplicate of the whole map when some group with a
/// non-empty key confirms it (content mode).
pub open spec fn map_confirms(
    g: Seq<GroupEntry>,
    fulls: Seq<(String, Result<u128, String>)>,
    p: Seq<char>,
) -> bool {
    exists|gi: int|
        0 <= gi < g.len() && (#[trigger] g[gi]).key@.len() > 0 && group_confirms(
            g[gi].files@,
            fulls,
            p,
        )
}

spec fn map_confirms_before(
    g: Seq<GroupEntry>,
    fulls: Seq<(String, Result<u128, String>)>,
    p: Seq<char>,
    bgi: int,
) -> bool {
    exists|gi: int|
        0 <= gi < bgi && gi < g.len() && (#[trigger] g[gi]).key@.len() > 0 && group_confirms(
            g[gi].files@,
            fulls,
            p,
        )
}

proof fn lemma_map_confirms_step(
    g: Seq<GroupEntry>,
    fulls: Seq<(String, Result<u128, String>)>,
    p: Seq<char>,
    bgi: int,
)
    requires
        0 <= bgi < g.len(),
    ensures
        map_confirms_before(g, fulls, p, bgi + 1) == (map_confirms_before(g, fulls, p, bgi) || (
        g[bgi].key@.len() > 0 && group_confirms(g[bgi].files@, fulls, p))),
{
    if map_confirms_before(g, fulls, p, bgi) {
        let gi = choose|gi: int|
            0 <= gi < bgi && gi < g.len() && (#[trigger] g[gi]).key@.len() > 0 && group_confirms(
                g[gi].files@,
                fulls,
                p,
            );
        assert(0 <= gi < bgi + 1);
    }
    if g[bgi].key@.len() > 0 && group_confirms(g[bgi].files@, fulls, p) {
        assert(map_confirms_before(g, fulls, p, bgi + 1));
    }
    if map_confirms_before(g, fulls, p, bgi + 1) {
        let gi = choose|gi: int|
            0 <= gi < bgi + 1 && gi < g.len() && (#[trigger] g[gi]).key@.len() > 0
                && group_confirms(g[gi].files@, fulls, p);
        if gi < bgi {
            assert(map_confirms_before(g, fulls, p, bgi));
        } else {
            assert(gi == bgi);
        }
    }
}

proof fn lemma_prefix_push<T>(a: Seq<T>, b: Seq<T>, x: T)
    requires
        a.is_prefix_of(b),
    ensures
        a.is_prefix_of(b.push(x)),
{
    assert(b.push(x).subrange(0, a.len() as int) =~= b.subrange(0, a.len() as int));
}

/// Confirm every group with two or more members and a non-empty key,
/// pushing each confirmed record to the duplicate log as it is found; the
/// returned list mirrors what was pushed. In content mode, a path is
/// returned exactly when some group pair confirms it. A stopped scan
/// confirms nothing.
pub fn check_for_duplicates(
    scan_type: &ScanType,
    groups: &GroupMap,
    fulls: &Vec<(String, Result<u128, String>)>,
    messenger: &mut Messenger,
) -> (dups: Vec<DuplicateRecord>)
    requires
        old(messenger).wf(),
    ensures
        final(messenger).wf(),
        old(messenger).logs_extended(final(messenger)),
        final(messenger).stdlog_spec() == old(messenger).stdlog_spec(),
        final(messenger).control_spec() == old(messenger).control_spec(),
        final(messenger).reslog_spec().len() == old(messenger).reslog_spec().len() + dups@.len(),
        final(messenger).checked_spec().len() == old(messenger).checked_spec().len()
            + dups@.len(),
        forall|k: int|
            0 <= k < dups@.len() ==> #[trigger] final(messenger).checked_spec()[old(messenger).checked_spec().len() + k] == false,
        forall|k: int|
            0 <= k < dups@.len() ==> final(messenger).reslog_spec()[old(messenger).reslog_spec().len() + k].path == (#[trigger] dups@[k]).path && final(messenger).reslog_spec()[old(messenger).reslog_spec().len() + k].tags@ == dups@[k].tags@,
        old(messenger).control_spec() == crate::mediatype::Control::STOP ==> dups@.len() == 0
            && *final(messenger) == *old(messenger),
        old(messenger).control_spec() != crate::mediatype::Control::STOP ==> (groups@.len() > 0
            ==> final(messenger).progress_spec() == 1000 && final(messenger).info_spec()
            == "Check for duplicates..."@) && (groups@.len() == 0 ==> final(messenger).progress_spec() == old(messenger).progress_spec() && final(messenger).info_spec() == old(messenger).info_spec()),
        (old(messenger).control_spec() != crate::mediatype::Control::STOP && *scan_type
            == ScanType::BINARY) ==> forall|p: Seq<char>| #![auto]
            has_path(dups@, p) <==> map_confirms(groups@, fulls@, p),
        (old(messenger).control_spec() != crate::mediatype::Control::STOP && *scan_type
            == ScanType::BINARY) ==> forall|k: int|
            0 <= k < dups@.len() ==> (#[trigger] dups@[k]).tags@ =~= Seq::<(String, String)>::empty(),
        (old(messenger).control_spec() != crate::mediatype::Control::STOP && *scan_type
            == ScanType::BINARY && map_paths_unique(groups@)) ==> forall|k1: int, k2: int|
            0 <= k1 < k2 < dups@.len() ==> (#[trigger] dups@[k1]).path@ != (
            #[trigger] dups@[k2]).path@,
{
    let n = groups.len();
    let mut count: usize = 0;
    let mut dups: Vec<DuplicateRecord> = Vec::new();
    if messenger.is_stopped() {
        return dups;
    }
    let mut gi: usize = 0;
    proof {
        assert forall|p: Seq<char>| #![auto]
            has_path(dups@, p) <==> map_confirms_before(groups@, fulls@, p, 0) by {
            if has_path(dups@, p) {
                let k = choose|k: int| 0 <= k < dups@.len() && dups@[k].path@ == p;
                assert(false);
            }
            if map_confirms_before(groups@, fulls@, p, 0) {
                let g2 = choose|g2: int|
                    0 <= g2 < 0 && g2 < groups@.len() && (#[trigger] groups@[g2]).key@.len() > 0
                        && group_confirms(groups@[g2].files@, fulls@, p);
                assert(false);
            }
        }
    }
    while gi < n
        invariant
            gi <= n,
            count == gi,
            n == groups@.len(),
            messenger.wf(),
            old(messenger).logs_extended(messenger),
            messenger.stdlog_spec() == old(messenger).stdlog_spec(),
            messenger.control_spec() == old(messenger).control_spec(),
            old(messenger).control_spec() != crate::mediatype::Control::STOP,
            messenger.reslog_spec().len() == old(messenger).reslog_spec().len() + dups@.len(),
            messenger.checked_spec().len() == old(messenger).checked_spec().len() + dups@.len(),
            forall|k: int|
                0 <= k < dups@.len() ==> #[trigger] messenger.checked_spec()[old(messenger).checked_spec().len() + k] == false,
            forall|k: int|
                0 <= k < dups@.len() ==> messenger.reslog_spec()[old(messenger).reslog_spec().len() + k].path == (#[trigger] dups@[k]).path
                    && messenger.reslog_spec()[old(messenger).reslog_spec().len() + k].tags@
                    == dups@[k].tags@,
            count == 0 ==> messenger.progress_spec() == old(messenger).progress_spec()
                && messenger.info_spec() == old(messenger).info_spec(),
            count > 0 ==> messenger.progress_spec() == crate::messenger::spec_progress(
                n as int,
                count as int,
            ) && messenger.info_spec() == "Check for duplicates..."@,
            *scan_type == ScanType::BINARY ==> forall|p: Seq<char>| #![auto]
                has_path(dups@, p) <==> map_confirms_before(groups@, fulls@, p, gi as int),
            *scan_type == ScanType::BINARY ==> forall|k: int|
                0 <= k < dups@.len() ==> (#[trigger] dups@[k]).tags@ =~= Seq::<(
                    String,
                    String,
                )>::empty(),
            (*scan_type == ScanType::BINARY && map_paths_unique(groups@)) ==> forall|
                k1: int,
                k2: int,
            |
                0 <= k1 < k2 < dups@.len() ==> (#[trigger] dups@[k1]).path@ != (
                #[trigger] dups@[k2]).path@,
        ensures
            gi == n,
        decreases n - gi,
    {
        if messenger.is_stopped() {
            break ;
        }
        count = count + 1;
        proof {
            reveal_strlit("Check for duplicates...");
        }
        messenger.set_progress(n, count, "Check for duplicates...");
        let key_empty = groups.get(gi).key.as_str().is_empty();
        if !key_empty {
            let batch: Vec<DuplicateRecord> = if *scan_type == ScanType::BINARY {
                find_duplicates_binary(&groups.get(gi).files, fulls, messenger)
            } else {
                let keys = probe_group_keys(&groups.get(gi).files, messenger);
                find_duplicates_metadata(&groups.get(gi).files, &keys)
            };
            let ghost orig_new = batch@;
            let ghost pre_dups = dups@;
            let mut work = batch;
            let new_total: usize = work.len();
            let mut t: usize = 0;
            while work.len() > 0
                invariant
                    t <= orig_new.len(),
                    new_total == orig_new.len(),
                    t + work@.len() == new_total,
                    work@ =~= orig_new.skip(t as int),
                    messenger.wf(),
                    old(messenger).logs_extended(messenger),
                    messenger.stdlog_spec() == old(messenger).stdlog_spec(),
                    messenger.control_spec() == old(messenger).control_spec(),
                    count > 0,
                    n == groups@.len(),
                    messenger.progress_spec() == crate::messenger::spec_progress(
                        n as int,
                        count as int,
                    ),
                    messenger.info_spec() == "Check for duplicates..."@,
                    *scan_type == ScanType::BINARY ==> forall|kk: int|
                        0 <= kk < orig_new.len() ==> (#[trigger] orig_new[kk]).tags@ =~= Seq::<(
                            String,
                            String,
                        )>::empty(),
                    gi < n,
                    groups@[gi as int].key@.len() > 0,
                    *scan_type == ScanType::BINARY ==> (forall|p: Seq<char>| #![auto]
                        has_path(orig_new, p) <==> group_confirms(
                            groups@[gi as int].files@,
                            fulls@,
                            p,
                        )),
                    *scan_type == ScanType::BINARY ==> (forall|kk1: int, kk2: int|
                        0 <= kk1 < kk2 < orig_new.len() ==> (#[trigger] orig_new[kk1]).path@ != (
                        #[trigger] orig_new[kk2]).path@),
                    *scan_type == ScanType::BINARY ==> (forall|p: Seq<char>| #![auto]
                        has_path(pre_dups, p) <==> map_confirms_before(
                            groups@,
                            fulls@,
                            p,
                            gi as int,
                        )),
                    (*scan_type == ScanType::BINARY && map_paths_unique(groups@)) ==> (forall|
                        kk1: int,
                        kk2: int,
                    |
                        0 <= kk1 < kk2 < dups@.len() ==> (#[trigger] dups@[kk1]).path@ != (
                        #[trigger] dups@[kk2]).path@),
                    *scan_type == ScanType::BINARY ==> forall|kk: int|
                        0 <= kk < dups@.len() ==> (#[trigger] dups@[kk]).tags@ =~= Seq::<(
                            String,
                            String,
                        )>::empty(),
                    messenger.checked_spec().len() == old(messenger).checked_spec().len()
                        + dups@.len(),
                    forall|kk: int|
                        0 <= kk < dups@.len() ==> #[trigger] messenger.checked_spec()[old(messenger).checked_spec().len() + kk] == false,
                    messenger.reslog_spec().len() == old(messenger).reslog_spec().len()
                        + dups@.len(),
                    forall|k: int|
                        0 <= k < dups@.len() ==> messenger.reslog_spec()[old(messenger).reslog_spec().len() + k].path == (#[trigger] dups@[k]).path
                            && messenger.reslog_spec()[old(messenger).reslog_spec().len()
                            + k].tags@ == dups@[k].tags@,
                    dups@.len() == pre_dups.len() + t,
                    forall|k: int| 0 <= k < pre_dups.len() ==> (#[trigger] dups@[k]) == pre_dups[k],
                    forall|k: int|
                        0 <= k < t ==> (#[trigger] dups@[pre_dups.len() + k]).path@
                            == orig_new[k].path@,
                decreases work@.len(),
            {
                let rec = work.remove(0);
                proof {
                    assert(rec == orig_new[t as int]);
                    assert(orig_new.skip(t as int).remove(0) =~= orig_new.skip(t + 1));
                }
                let rc = DuplicateRecord {
                    path: rec.path.clone(),
                    tags: crate::messenger::clone_tags(&rec.tags),
                };
                let ghost grc = rc;
                let ghost before_dups = dups@;
                let ghost before_res = messenger.reslog_spec();
                let ghost before_chk = messenger.checked_spec();
                dups.push(rc);
                messenger.push_reslog(rec);
                proof {
                    assert(grc.path == orig_new[t as int].path);
                    assert(grc.tags@ == orig_new[t as int].tags@);
                    assert(dups@ == before_dups.push(grc));
                    assert forall|kk: int|
                        0 <= kk < dups@.len() implies #[trigger] messenger.checked_spec()[old(messenger).checked_spec().len() + kk] == false by {
                        if kk < before_dups.len() {
                            assert(messenger.checked_spec()[old(messenger).checked_spec().len()
                                + kk] == before_chk[old(messenger).checked_spec().len() + kk]);
                        } else {
                            assert(messenger.checked_spec()[old(messenger).checked_spec().len()
                                + kk] == false);
                        }
                    }
                    if *scan_type == ScanType::BINARY {
                        assert forall|kk: int|
                            0 <= kk < dups@.len() implies (#[trigger] dups@[kk]).tags@ =~= Seq::<(
                            String,
                            String,
                        )>::empty() by {
                            if kk < before_dups.len() {
                                assert(dups@[kk] == before_dups[kk]);
                            } else {
                                assert(dups@[kk] == grc);
                                assert(grc.tags@ == orig_new[t as int].tags@);
                            }
                        }
                        if map_paths_unique(groups@) {
                            assert forall|k1: int, k2: int|
                                0 <= k1 < k2 < dups@.len() implies (#[trigger] dups@[k1]).path@
                                != (#[trigger] dups@[k2]).path@ by {
                                if k2 < before_dups.len() {
                                    assert(dups@[k1] == before_dups[k1]);
                                    assert(dups@[k2] == before_dups[k2]);
                                } else {
                                    assert(dups@[k2] == grc);
                                    assert(grc.path@ == orig_new[t as int].path@);
                                    if k1 >= pre_dups.len() {
                                        assert(dups@[k1] == before_dups[k1]);
                                        assert(before_dups[pre_dups.len() + (k1
                                            - pre_dups.len())].path@ == orig_new[k1
                                            - pre_dups.len()].path@);
                                        assert(orig_new[k1 - pre_dups.len()].path@
                                            != orig_new[t as int].path@);
                                    } else {
                                        assert(dups@[k1] == before_dups[k1]);
                                        assert(before_dups[k1] == pre_dups[k1]);
                                        let p1 = pre_dups[k1].path@;
                                        assert(has_path(pre_dups, p1));
                                        assert(map_confirms_before(
                                            groups@,
                                            fulls@,
                                            p1,
                                            gi as int,
                                        ));
                                        let gj = choose|gj: int|
                                            0 <= gj < gi && gj < groups@.len() && (
                                            #[trigger] groups@[gj]).key@.len() > 0
                                                && group_confirms(
                                                groups@[gj].files@,
                                                fulls@,
                                                p1,
                                            );
                                        lemma_confirmed_is_member_path(
                                            groups@[gj].files@,
                                            fulls@,
                                            p1,
                                        );
                                        let aj = choose|aj: int|
                                            0 <= aj < groups@[gj].files@.len() && (
                                            #[trigger] groups@[gj].files@[aj]).path@ == p1;
                                        assert(has_path(orig_new, grc.path@)) by {
                                            assert(orig_new[t as int].path@ == grc.path@);
                                        }
                                        assert(group_confirms(
                                            groups@[gi as int].files@,
                                            fulls@,
                                            grc.path@,
                                        ));
                                        lemma_confirmed_is_member_path(
                                            groups@[gi as int].files@,
                                            fulls@,
                                            grc.path@,
                                        );
                                        let ai = choose|ai: int|
                                            0 <= ai < groups@[gi as int].files@.len() && (
                                            #[trigger] groups@[gi as int].files@[ai]).path@
                                                == grc.path@;
                                        assert(groups@[gj].files@[aj].path@
                                            != groups@[gi as int].files@[ai].path@);
                                    }
                                }
                            }
                        }
                    }
                    assert forall|k: int|
                        0 <= k < dups@.len() implies messenger.reslog_spec()[old(messenger).reslog_spec().len() + k].path == (#[trigger] dups@[k]).path
                            && messenger.reslog_spec()[old(messenger).reslog_spec().len()
                            + k].tags@ == dups@[k].tags@ by {
                        if k < before_dups.len() {
                            assert(dups@[k] == before_dups[k]);
                            assert(messenger.reslog_spec()[old(messenger).reslog_spec().len() + k]
                                == before_res[old(messenger).reslog_spec().len() + k]);
                        } else {
                            assert(dups@[k] == grc);
                            assert(messenger.reslog_spec()[old(messenger).reslog_spec().len() + k]
                                == orig_new[t as int]);
                        }
                    }
                    lemma_prefix_push(old(messenger).reslog_spec(), before_res, orig_new[t as int]);
                    assert(old(messenger).checked_spec().is_prefix_of(messenger.checked_spec()));
                    assert forall|k: int|
                        0 <= k < t + 1 implies (#[trigger] dups@[pre_dups.len() + k]).path@
                            == orig_new[k].path@ by {
                        if k < t {
                            assert(dups@[pre_dups.len() + k] == before_dups[pre_dups.len() + k]);
                        } else {
                            assert(dups@[pre_dups.len() + k] == grc);
                        }
                    }
                }
                t = t + 1;
            }
            proof {
                assert(orig_new.skip(t as int).len() == 0);
                assert(t == orig_new.len());
                if *scan_type == ScanType::BINARY {
                    assert forall|p: Seq<char>| #![auto]
                        has_path(dups@, p) <==> map_confirms_before(
                            groups@,
                            fulls@,
                            p,
                            gi + 1,
                        ) by {
                        assert(has_path(pre_dups, p) <==> map_confirms_before(
                            groups@,
                            fulls@,
                            p,
                            gi as int,
                        ));
                        assert(has_path(orig_new, p) <==> group_confirms(
                            groups@[gi as int].files@,
                            fulls@,
                            p,
                        ));
                        assert(has_path(dups@, p) == (has_path(pre_dups, p) || has_path(
                            orig_new,
                            p,
                        ))) by {
                            if has_path(dups@, p) {
                                let k = choose|k: int|
                                    0 <= k < dups@.len() && dups@[k].path@ == p;
                                if k < pre_dups.len() {
                                    assert(dups@[k] == pre_dups[k]);
                                    assert(has_path(pre_dups, p));
                                } else {
                                    assert(dups@[pre_dups.len() + (k - pre_dups.len())].path@
                                        == orig_new[k - pre_dups.len()].path@);
                                    assert(orig_new[k - pre_dups.len()].path@ == p);
                                    assert(has_path(orig_new, p));
                                }
                            }
                            if has_path(pre_dups, p) {
                                let k = choose|k: int|
                                    0 <= k < pre_dups.len() && pre_dups[k].path@ == p;
                                assert(dups@[k] == pre_dups[k]);
                                assert(has_path(dups@, p));
                            }
                            if has_path(orig_new, p) {
                                let k = choose|k: int|
                                    0 <= k < orig_new.len() && orig_new[k].path@ == p;
                                assert(dups@[pre_dups.len() + k].path@ == orig_new[k].path@);
                                assert(has_path(dups@, p));
                            }
                        }
                        lemma_map_confirms_step(groups@, fulls@, p, gi as int);
                        assert(groups@[gi as int].key@.len() > 0);
                    }
                }
            }
        } else {
            proof {
                if *scan_type == ScanType::BINARY {
                    assert forall|p: Seq<char>| #![auto]
                        has_path(dups@, p) <==> map_confirms_before(
                            groups@,
                            fulls@,
                            p,
                            gi + 1,
                        ) by {
                        assert(has_path(dups@, p) <==> map_confirms_before(
                            groups@,
                            fulls@,
                            p,
                            gi as int,
                        ));
                        lemma_map_confirms_step(groups@, fulls@, p, gi as int);
                        assert(groups@[gi as int].key@.len() == 0);
                    }
                }
            }
        }
        gi = gi + 1;
    }
    proof {
        if n > 0 {
            assert(messenger.progress_spec() == crate::messenger::spec_progress(
                n as int,
                n as int,
            ));
            assert(crate::messenger::spec_progress(n as int, n as int) == 1000);
        }
        if *scan_type == ScanType::BINARY {
            assert forall|p: Seq<char>| #![auto]
                has_path(dups@, p) <==> map_confirms(groups@, fulls@, p) by {
                assert(has_path(dups@, p) <==> map_confirms_before(
                    groups@,
                    fulls@,
                    p,
                    n as int,
                ));
                if map_confirms_before(groups@, fulls@, p, n as int) {
                    let g2 = choose|g2: int|
                        0 <= g2 < n && g2 < groups@.len() && (#[trigger] groups@[g2]).key@.len() > 0
                            && group_confirms(groups@[g2].files@, fulls@, p);
                    assert(map_confirms(groups@, fulls@, p));
                }
                if map_confirms(groups@, fulls@, p) {
                    let g2 = choose|g2: int|
                        0 <= g2 < groups@.len() && (#[trigger] groups@[g2]).key@.len() > 0
                            && group_confirms(groups@[g2].files@, fulls@, p);
                    assert(map_confirms_before(groups@, fulls@, p, n as int));
                }
            }
        }
    }
    dups
}


/// A file's header: its first `HEADER_LEN` bytes, or all of them when it
/// is shorter.
pub open spec fn header_of(content: Seq<u8>) -> Seq<u8> {
    if content.len() <= crate::file_utils::HEADER_LEN {
        content
    } else {
        content.take(crate::file_utils::HEADER_LEN as int)
    }
}

/// The candidate's recorded checksums agree with this byte content: the
/// header checksum is the byte sum of the header, and the full-content
/// sum recorded for its path is the byte sum of the whole content.
pub open spec fn file_has_content(
    f: FileInfo,
    fulls: Seq<(String, Result<u128, String>)>,
    content: Seq<u8>,
) -> bool {
    &&& f.checksum == byte_sum(header_of(content))
    &&& full_sum_of(fulls, f.path@) matches Some(s) && s == byte_sum(content)
}

/// Byte-identical files under one extension always share one grouping
/// key, and a well-keyed map therefore holds them in one group.
pub proof fn lemma_identical_files_share_group(g: Seq<GroupEntry>, gi: int, gj: int, a: int, b: int)
    requires
        groups_keyed_binary(g),
        forall|i: int, j: int|
            0 <= i < j < g.len() ==> (#[trigger] g[i].key@) != (#[trigger] g[j].key@),
        0 <= gi < g.len(),
        0 <= gj < g.len(),
        0 <= a < g[gi].files@.len(),
        0 <= b < g[gj].files@.len(),
        g[gi].files@[a].size == g[gj].files@[b].size,
        spec_extension_of(g[gi].files@[a].path@) == spec_extension_of(g[gj].files@[b].path@),
    ensures
        gi == gj,
{
    let fa = g[gi].files@[a];
    let fb = g[gj].files@[b];
    assert(g[gi].key@ == spec_binary_key(fa.path@, fa.size));
    assert(g[gj].key@ == spec_binary_key(fb.path@, fb.size));
    assert(g[gi].key@ == g[gj].key@);
    if gi < gj {
        assert(g[gi].key@ != g[gj].key@);
    }
    if gj < gi {
        assert(g[gj].key@ != g[gi].key@);
    }
}

/// Two byte-identical members of one non-empty-keyed group are both
/// reported by content-mode confirmation. The one blind spot is a header
/// that sums to 0 (for instance a file of all zero bytes), which is
/// indistinguishable from an unset checksum and confirms nothing.
pub proof fn lemma_identical_files_reported(
    g: Seq<GroupEntry>,
    fulls: Seq<(String, Result<u128, String>)>,
    dups: Seq<DuplicateRecord>,
    gi: int,
    a: int,
    b: int,
    content: Seq<u8>,
)
    requires
        forall|p: Seq<char>| #![auto] has_path(dups, p) <==> map_confirms(g, fulls, p),
        0 <= gi < g.len(),
        0 <= a < b < g[gi].files@.len(),
        g[gi].key@.len() > 0,
        file_has_content(g[gi].files@[a], fulls, content),
        file_has_content(g[gi].files@[b], fulls, content),
        byte_sum(header_of(content)) != 0,
    ensures
        has_path(dups, g[gi].files@[a].path@),
        has_path(dups, g[gi].files@[b].path@),
{
    let fa = g[gi].files@[a];
    let fb = g[gi].files@[b];
    assert(pair_matched(fa, fb, fulls));
    assert(group_confirms(g[gi].files@, fulls, fa.path@)) by {
        assert(0 <= a < b < g[gi].files@.len() && pair_matched(
            g[gi].files@[a],
            g[gi].files@[b],
            fulls,
        ) && (g[gi].files@[a].path@ == fa.path@ || g[gi].files@[b].path@ == fa.path@));
    }
    assert(group_confirms(g[gi].files@, fulls, fb.path@)) by {
        assert(0 <= a < b < g[gi].files@.len() && pair_matched(
            g[gi].files@[a],
            g[gi].files@[b],
            fulls,
        ) && (g[gi].files@[a].path@ == fb.path@ || g[gi].files@[b].path@ == fb.path@));
    }
    assert(map_confirms(g, fulls, fa.path@)) by {
        assert(0 <= gi < g.len() && g[gi].key@.len() > 0 && group_confirms(
            g[gi].files@,
            fulls,
            fa.path@,
        ));
    }
    assert(map_confirms(g, fulls, fb.path@)) by {
        assert(0 <= gi < g.len() && g[gi].key@.len() > 0 && group_confirms(
            g[gi].files@,
            fulls,
            fb.path@,
        ));
    }
}

/// Scanning an unmodified tree twice yields the same duplicate set: two
/// confirmation results over one grouped map and one checksum record hold
/// exactly the same paths, whatever order they came out in.
pub proof fn lemma_scan_idempotent(
    g: Seq<GroupEntry>,
    fulls: Seq<(String, Result<u128, String>)>,
    dups1: Seq<DuplicateRecord>,
    dups2: Seq<DuplicateRecord>,
)
    requires
        forall|p: Seq<char>| #![auto] has_path(dups1, p) <==> map_confirms(g, fulls, p),
        forall|p: Seq<char>| #![auto] has_path(dups2, p) <==> map_confirms(g, fulls, p),
    ensures
        forall|p: Seq<char>| #![auto] has_path(dups1, p) <==> has_path(dups2, p),
{
}


/// An empty tree yields an empty map: with nothing walked there is no
/// accepted entry to source a member from, and a memberless group cannot
/// reach the two-member floor.
pub proof fn lemma_no_entries_no_groups(
    g: Seq<GroupEntry>,
    entries: Seq<Result<WalkEntry, String>>,
    mg: Seq<MediaGroup>,
)
    requires
        members_from_entries(g, entries, mg),
        entries.len() == 0,
        forall|i: int| 0 <= i < g.len() ==> (#[trigger] g[i]).files@.len() >= 2,
    ensures
        g.len() == 0,
{
    if g.len() > 0 {
        assert(g[0].files@.len() >= 2);
        assert(member_sourced(g[0].files@[0], entries, mg));
        let k = choose|k: int|
            0 <= k < entries.len() && accepted_entry(#[trigger] entries[k], mg) && g[0].files@[0]
                == file_of_entry(entries[k]);
        assert(false);
    }
}

/// Byte-identical accepted files always group together: equal byte length
/// and equal extension give one grouping key, and the walked map pairs any
/// two accepted entries that share a key.
pub proof fn lemma_identical_entries_grouped(
    g: Seq<GroupEntry>,
    entries: Seq<Result<WalkEntry, String>>,
    mg: Seq<MediaGroup>,
    k1: int,
    k2: int,
)
    requires
        pairs_grouped(g, entries, mg, entries.len() as int),
        0 <= k1 < k2 < entries.len(),
        accepted_entry(entries[k1], mg),
        accepted_entry(entries[k2], mg),
        entries[k1]->Ok_0.meta->Ok_0 == entries[k2]->Ok_0.meta->Ok_0,
        spec_extension_of(entries[k1]->Ok_0.path@) == spec_extension_of(entries[k2]->Ok_0.path@),
    ensures
        pair_grouped(g, entries[k1], entries[k2]),
{
    assert(key_of_entry(entries[k1]) == key_of_entry(entries[k2]));
}

} // verus!

//! Report writer: the confirmed duplicate list as plain text lines.
//!
//! One line per duplicate path; when a record carries a tag map, each
//! key/value pair follows on its own indented line, sorted by key. The
//! caller persists the lines; a write failure is reported through the
//! signal channel and never discards the in-memory result.

use vstd::prelude::*;
use vstd::string::StringExecFns;

use crate::file_utils::dec_str;
use crate::file_utils::u64_to_string;
use crate::messenger::DuplicateRecord;
use crate::messenger::Messenger;
use crate::string_utils::chars_le;
use crate::string_utils::lemma_chars_le_total;
use crate::string_utils::lemma_chars_le_trans;
use crate::string_utils::str_le;

verus! {

/// `x` inserted into `s` before the first pair whose key is not below
/// `x`'s own key.
pub open spec fn spec_insert_pair(x: (String, String), s: Seq<(String, String)>) -> Seq<
    (String, String),
>
    decreases s.len(),
{
    if s.len() == 0 {
        seq![x]
    } else if chars_le(x.0@, s[0].0@) {
        seq![x] + s
    } else {
        seq![s[0]] + spec_insert_pair(x, s.skip(1))
    }
}

/// The pairs of `s` sorted by key by repeated insertion.
pub open spec fn spec_sort_pairs(s: Seq<(String, String)>) -> Seq<(String, String)>
    decreases s.len(),
{
    if s.len() == 0 {
        Seq::empty()
    } else {
        spec_insert_pair(s.last(), spec_sort_pairs(s.drop_last()))
    }
}

/// Inserting at the first admissible position realizes `spec_insert_pair`.
proof fn lemma_insert_at(x: (String, String), s: Seq<(String, String)>, k: int)
    requires
        0 <= k <= s.len(),
        forall|m: int| 0 <= m < k ==> !chars_le(x.0@, (#[trigger] s[m]).0@),
        k < s.len() ==> chars_le(x.0@, s[k].0@),
    ensures
        spec_insert_pair(x, s) =~= s.take(k) + seq![x] + s.skip(k),
    decreases k,
{
    if k == 0 {
        if s.len() == 0 {
            assert(spec_insert_pair(x, s) =~= seq![x]);
            assert(s.take(0) =~= Seq::<(String, String)>::empty());
            assert(s.skip(0) =~= s);
        } else {
            assert(chars_le(x.0@, s[0].0@));
            assert(s.take(0) =~= Seq::<(String, String)>::empty());
            assert(s.skip(0) =~= s);
        }
    } else {
        assert(!chars_le(x.0@, s[0].0@));
        assert forall|m: int| 0 <= m < k - 1 implies !chars_le(
            x.0@,
            (#[trigger] s.skip(1)[m]).0@,
        ) by {
            assert(s.skip(1)[m] == s[m + 1]);
            assert(!chars_le(x.0@, s[m + 1].0@));
        }
        if k - 1 < s.skip(1).len() {
            assert(s.skip(1)[k - 1] == s[k]);
        }
        lemma_insert_at(x, s.skip(1), k - 1);
        assert(s.skip(1).take(k - 1) =~= s.take(k).skip(1));
        assert(s.skip(1).skip(k - 1) =~= s.skip(k));
        assert(seq![s[0]] + (s.take(k).skip(1) + seq![x] + s.skip(k)) =~= s.take(k) + seq![x]
            + s.skip(k));
    }
}

/// Keys never descend along a sorted pair list.
pub open spec fn pairs_sorted(s: Seq<(String, String)>) -> bool {
    forall|i: int, j: int|
        0 <= i < j < s.len() ==> chars_le((#[trigger] s[i]).0@, (#[trigger] s[j]).0@)
}

/// The tag pairs sorted by key, character order on the key text.
pub fn sort_pairs(pairs: &Vec<(String, String)>) -> (r: Vec<(String, String)>)
    ensures
        r@ == spec_sort_pairs(pairs@),
        pairs_sorted(r@),
{
    let n = pairs.len();
    let mut out: Vec<(String, String)> = Vec::new();
    let mut i: usize = 0;
    proof {
        assert(pairs@.take(0) =~= Seq::<(String, String)>::empty());
    }
    while i < n
        invariant
            i <= n,
            n == pairs@.len(),
            out@ == spec_sort_pairs(pairs@.take(i as int)),
            pairs_sorted(out@),
        decreases n - i,
    {
        let x = (pairs[i].0.clone(), pairs[i].1.clone());
        let ghost gx = x;
        proof {
            assert(gx == pairs@[i as int]);
        }
        let out_len = out.len();
        let mut pos: usize = 0;
        while pos < out_len && !str_le(&x.0, &out[pos].0)
            invariant
                pos <= out_len,
                out_len == out@.len(),
                x == gx,
                forall|m: int| 0 <= m < pos ==> !chars_le(gx.0@, (#[trigger] out@[m]).0@),
            decreases out_len - pos,
        {
            pos = pos + 1;
        }
        let ghost pre = out@;
        out.insert(pos, x);
        proof {
            lemma_insert_at(gx, pre, pos as int);
            assert(out@ =~= pre.take(pos as int) + seq![gx] + pre.skip(pos as int));
            assert(out@ =~= spec_insert_pair(gx, pre));
            assert(pairs@.take(i + 1).drop_last() =~= pairs@.take(i as int));
            assert(pairs@.take(i + 1).last() == pairs@[i as int]);
            assert forall|ia: int, ja: int|
                0 <= ia < ja < out@.len() implies chars_le(
                (#[trigger] out@[ia]).0@,
                (#[trigger] out@[ja]).0@,
            ) by {
                if ja < pos {
                    assert(out@[ia] == pre[ia]);
                    assert(out@[ja] == pre[ja]);
                } else if ja == pos {
                    assert(out@[ia] == pre[ia]);
                    assert(out@[ja] == gx);
                    assert(!chars_le(gx.0@, pre[ia].0@));
                    lemma_chars_le_total(gx.0@, pre[ia].0@);
                } else {
                    assert(out@[ja] == pre[ja - 1]);
                    if ia < pos {
                        assert(out@[ia] == pre[ia]);
                        assert(chars_le(pre[ia].0@, pre[ja - 1].0@));
                    } else if ia == pos {
                        assert(out@[ia] == gx);
                        assert(pos < pre.len());
                        assert(chars_le(gx.0@, pre[pos as int].0@));
                        if pos < ja - 1 {
                            assert(chars_le(pre[pos as int].0@, pre[ja - 1].0@));
                            lemma_chars_le_trans(gx.0@, pre[pos as int].0@, pre[ja - 1].0@);
                        }
                    } else {
                        assert(out@[ia] == pre[ia - 1]);
                        assert(chars_le(pre[ia - 1].0@, pre[ja - 1].0@));
                    }
                }
            }
        }
        i = i + 1;
    }
    proof {
        assert(pairs@.take(n as int) =~= pairs@);
    }
    out
}

/// One indented `key: value` line of the report.
pub open spec fn spec_tag_line(p: (String, String)) -> Seq<char> {
    "\t\t"@ + p.0@ + ": "@ + p.1@
}

/// The lines one record contributes: its path, then its tag pairs sorted
/// by key. A key the probe reported more than once prints once per
/// occurrence; nothing is merged or dropped.
pub open spec fn spec_record_lines(r: DuplicateRecord) -> Seq<Seq<char>> {
    seq![r.path@] + spec_sort_pairs(r.tags@).map_values(|p: (String, String)| spec_tag_line(p))
}

/// The whole report, record by record.
pub open spec fn spec_report_lines(rs: Seq<DuplicateRecord>) -> Seq<Seq<char>>
    decreases rs.len(),
{
    if rs.len() == 0 {
        Seq::empty()
    } else {
        spec_record_lines(rs[0]) + spec_report_lines(rs.skip(1))
    }
}

/// The report text for the confirmed duplicates: one path per line, each
/// followed by its sorted, indented tag lines.
pub fn report_lines(records: &Vec<DuplicateRecord>) -> (r: Vec<String>)
    ensures
        r@.map_values(|s: String| s@) == spec_report_lines(records@),
{
    let n = records.len();
    let mut out: Vec<String> = Vec::new();
    let mut i: usize = 0;
    proof {
        assert(out@.map_values(|s: String| s@) =~= Seq::<Seq<char>>::empty());
        assert(records@.skip(0) =~= records@);
        assert(Seq::<Seq<char>>::empty() + spec_report_lines(records@) =~= spec_report_lines(
            records@,
        ));
    }
    while i < n
        invariant
            i <= n,
            n == records@.len(),
            spec_report_lines(records@) =~= out@.map_values(|s: String| s@) + spec_report_lines(
                records@.skip(i as int),
            ),
        decreases n - i,
    {
        proof {
            assert(records@.skip(i as int)[0] == records@[i as int]);
            assert(records@.skip(i as int).skip(1) =~= records@.skip(i + 1));
        }
        let rec = &records[i];
        let ghost pre = out@;
        out.push(rec.path.clone());
        proof {
            assert(out@.map_values(|s: String| s@) =~= pre.map_values(|s: String| s@).push(
                records@[i as int].path@,
            ));
        }
        let sorted = sort_pairs(&rec.tags);
        let m = sorted.len();
        let mut j: usize = 0;
        while j < m
            invariant
                j <= m,
                i < n,
                n == records@.len(),
                m == sorted@.len(),
                sorted@ == spec_sort_pairs(records@[i as int].tags@),
                out@.map_values(|s: String| s@) =~= pre.map_values(|s: String| s@) + seq![
                    records@[i as int].path@,
                ] + sorted@.map_values(|p: (String, String)| spec_tag_line(p)).take(j as int),
            decreases m - j,
        {
            let line = "\t\t".to_owned().concat(sorted[j].0.as_str()).concat(": ").concat(
                sorted[j].1.as_str(),
            );
            let ghost before = out@;
            out.push(line);
            proof {
                assert(out@.map_values(|s: String| s@) =~= before.map_values(|s: String| s@).push(
                    spec_tag_line(sorted@[j as int]),
                ));
                assert(sorted@.map_values(|p: (String, String)| spec_tag_line(p)).take(j + 1)
                    =~= sorted@.map_values(|p: (String, String)| spec_tag_line(p)).take(
                    j as int,
                ).push(spec_tag_line(sorted@[j as int])));
            }
            j = j + 1;
        }
        proof {
            let tag_lines = sorted@.map_values(|p: (String, String)| spec_tag_line(p));
            assert(tag_lines.take(m as int) =~= tag_lines);
            assert(out@.map_values(|s: String| s@) =~= pre.map_values(|s: String| s@)
                + spec_record_lines(records@[i as int]));
            assert(spec_report_lines(records@.skip(i as int)) =~= spec_record_lines(
                records@[i as int],
            ) + spec_report_lines(records@.skip(i + 1)));
            assert(pre.map_values(|s: String| s@) + spec_record_lines(records@[i as int])
                + spec_report_lines(records@.skip(i + 1)) =~= pre.map_values(|s: String| s@) + (
            spec_record_lines(records@[i as int]) + spec_report_lines(records@.skip(i + 1))));
        }
        i = i + 1;
    }
    proof {
        assert(records@.skip(n as int) =~= Seq::<DuplicateRecord>::empty());
        assert(spec_report_lines(Seq::<DuplicateRecord>::empty()) =~= Seq::<Seq<char>>::empty());
        assert(out@.map_values(|s: String| s@) + Seq::<Seq<char>>::empty() =~= out@.map_values(
            |s: String| s@,
        ));
    }
    out
}

/// Record the outcome of persisting the report: a success sets the status
/// message (empty when nothing was written), a failure is logged as an
/// error; the in-memory result is never touched.
pub fn finish_report(written: &Result<usize, String>, messenger: &mut Messenger)
    requires
        old(messenger).wf(),
    ensures
        final(messenger).wf(),
        old(messenger).logs_extended(final(messenger)),
        final(messenger).stdlog_spec() == old(messenger).stdlog_spec(),
        final(messenger).reslog_spec() == old(messenger).reslog_spec(),
        final(messenger).checked_spec() == old(messenger).checked_spec(),
        final(messenger).control_spec() == old(messenger).control_spec(),
        final(messenger).progress_spec() == old(messenger).progress_spec(),
        written matches Ok(n) ==> final(messenger).errlog_spec() == old(messenger).errlog_spec()
            && final(messenger).info_spec() == if n > 0 {
            dec_str(n as int) + " duplicates written to file ./duplicates.log"@
        } else {
            Seq::<char>::empty()
        },
        written matches Err(e) ==> final(messenger).info_spec() == old(messenger).info_spec()
            && final(messenger).errlog_spec().len() == old(messenger).errlog_spec().len() + 1
            && final(messenger).errlog_spec().last()@
            == "Could not write file ./duplicates.log due to error "@ + e@,
{
    match written {
        Ok(n) => {
            if *n > 0 {
                let msg = u64_to_string(*n as u64).concat(
                    " duplicates written to file ./duplicates.log",
                );
                messenger.set_info(msg);
            } else {
                messenger.set_info(String::new());
            }
        },
        Err(e) => {
            let msg = "Could not write file ./duplicates.log due to error ".to_owned().concat(
                e.as_str(),
            );
            messenger.push_errlog(msg);
        },
    }
}

} // verus!

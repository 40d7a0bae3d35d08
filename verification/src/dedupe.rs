//! The deduplicator: an order-preserving stable filter that keeps the first
//! occurrence of each distinct record key and drops every later one.
//!
//! Two records share a key when `export_type`, `specifier`, `source` and
//! `is_type_export` all agree; the line number takes no part.

use vstd::prelude::*;

use crate::types::ExportData;
use crate::types::ExportInfo;

verus! {

/// The duplicate-detection key agrees on both records.
pub open spec fn same_key(a: ExportData, b: ExportData) -> bool {
    a.export_type == b.export_type && a.specifier == b.specifier && a.source == b.source
        && a.is_type_export == b.is_type_export
}

/// First-occurrence filter: a record stays exactly when no earlier record
/// holds the same key, in original order.
pub open spec fn dedupe_spec(s: Seq<ExportData>) -> Seq<ExportData>
    decreases s.len(),
{
    if s.len() == 0 {
        s
    } else {
        let pre = dedupe_spec(s.drop_last());
        if exists|j: int| 0 <= j < s.len() - 1 && same_key(s[j], s.last()) {
            pre
        } else {
            pre.push(s.last())
        }
    }
}

/// A key occurs in `s` exactly when it occurs in `dedupe_spec(s)`, and the
/// deduplicated records all come from `s`.
pub proof fn lemma_dedupe_keys(s: Seq<ExportData>, x: ExportData)
    ensures
        (exists|j: int| 0 <= j < s.len() && same_key(s[j], x)) <==> (exists|j: int|
            0 <= j < dedupe_spec(s).len() && same_key(dedupe_spec(s)[j], x)),
        forall|j: int| 0 <= j < dedupe_spec(s).len() ==> s.contains(dedupe_spec(s)[j]),
    decreases s.len(),
{
    if s.len() > 0 {
        let pre = s.drop_last();
        let pd = dedupe_spec(pre);
        let d = dedupe_spec(s);
        lemma_dedupe_keys(pre, x);
        assert(forall|j: int| 0 <= j < pre.len() ==> pre[j] == s[j]);
        let dup = exists|j: int| 0 <= j < s.len() - 1 && same_key(s[j], s.last());
        assert forall|j: int| 0 <= j < d.len() implies s.contains(d[j]) by {
            if dup || j < d.len() - 1 {
                assert(d[j] == pd[j]);
                assert(pre.contains(pd[j]));
                let i = choose|i: int| 0 <= i < pre.len() && pre[i] == pd[j];
                assert(s[i] == d[j]);
            } else {
                assert(d[j] == s[s.len() - 1]);
            }
        }
        if exists|j: int| 0 <= j < s.len() && same_key(s[j], x) {
            let j = choose|j: int| 0 <= j < s.len() && same_key(s[j], x);
            if j == s.len() - 1 && dup {
                let j2 = choose|j2: int| 0 <= j2 < s.len() - 1 && same_key(s[j2], s.last());
                assert(same_key(pre[j2], x));
            } else if j == s.len() - 1 {
                assert(d[d.len() - 1] == s.last());
                assert(same_key(d[d.len() - 1], x));
            } else {
                assert(same_key(pre[j], x));
            }
            if j < s.len() - 1 || (j == s.len() - 1 && dup) {
                let i = choose|i: int| 0 <= i < pd.len() && same_key(pd[i], x);
                if dup {
                    assert(same_key(d[i], x));
                } else {
                    assert(d[i] == pd[i]);
                    assert(same_key(d[i], x));
                }
            }
        }
        if exists|j: int| 0 <= j < d.len() && same_key(d[j], x) {
            let j = choose|j: int| 0 <= j < d.len() && same_key(d[j], x);
            if dup || j < d.len() - 1 {
                assert(d[j] == pd[j]);
                assert(exists|i: int| 0 <= i < pd.len() && same_key(pd[i], x));
                let i = choose|i: int| 0 <= i < pre.len() && same_key(pre[i], x);
                assert(same_key(s[i], x));
            } else {
                assert(d[j] == s.last());
                assert(same_key(s[s.len() - 1], x));
            }
        }
    }
}

/// Deduplication never grows the record list.
pub proof fn lemma_dedupe_len(s: Seq<ExportData>)
    ensures
        dedupe_spec(s).len() <= s.len(),
    decreases s.len(),
{
    if s.len() > 0 {
        lemma_dedupe_len(s.drop_last());
    }
}

pub fn same_key_exec(a: &ExportInfo, b: &ExportInfo) -> (r: bool)
    ensures
        r == same_key(a@, b@),
{
    a.export_type == b.export_type && crate::text::str_eq_exec(
        a.specifier.as_str(),
        b.specifier.as_str(),
    ) && crate::text::str_eq_exec(a.source.as_str(), b.source.as_str())
        && a.is_type_export == b.is_type_export
}

/// Remove duplicate records, keeping the first occurrence of each key and
/// the relative order of everything kept.
pub fn remove_duplicates(exports: Vec<ExportInfo>) -> (r: Vec<ExportInfo>)
    ensures
        r.deep_view() == dedupe_spec(exports.deep_view()),
{
    let ghost s = exports.deep_view();
    let mut out: Vec<ExportInfo> = Vec::new();
    proof {
        assert(s.take(0) =~= Seq::<ExportData>::empty());
        assert(out.deep_view() =~= dedupe_spec(s.take(0)));
    }
    let mut idx: usize = 0;
    while idx < exports.len()
        invariant
            0 <= idx <= exports.len(),
            s == exports.deep_view(),
            s.len() == exports.len(),
            out.deep_view() == dedupe_spec(s.take(idx as int)),
        decreases exports.len() - idx,
    {
        let ghost pre = s.take(idx as int);
        let mut found = false;
        let mut gi: usize = 0;
        while gi < out.len()
            invariant
                0 <= gi <= out.len(),
                idx < exports.len(),
                s == exports.deep_view(),
                s.len() == exports.len(),
                out.deep_view() == dedupe_spec(pre),
                pre == s.take(idx as int),
                found ==> exists|j: int|
                    0 <= j < out.deep_view().len() && same_key(
                        out.deep_view()[j],
                        s[idx as int],
                    ),
                !found ==> forall|j: int|
                    0 <= j < gi ==> !same_key(out.deep_view()[j], s[idx as int]),
            ensures
                found ==> exists|j: int|
                    0 <= j < out.deep_view().len() && same_key(
                        out.deep_view()[j],
                        s[idx as int],
                    ),
                !found ==> forall|j: int|
                    0 <= j < out.deep_view().len() ==> !same_key(
                        out.deep_view()[j],
                        s[idx as int],
                    ),
            decreases out.len() - gi,
        {
            if same_key_exec(&out[gi], &exports[idx]) {
                found = true;
                proof {
                    assert(same_key(out.deep_view()[gi as int], s[idx as int]));
                }
                break;
            }
            gi = gi + 1;
        }
        proof {
            lemma_dedupe_keys(pre, s[idx as int]);
            assert(s.take(idx + 1).drop_last() =~= pre);
            assert(s.take(idx + 1).last() == s[idx as int]);
            assert(forall|j: int| 0 <= j < pre.len() ==> pre[j] == s[j]);
            if found {
                assert(exists|j: int| 0 <= j < pre.len() && same_key(pre[j], s[idx as int]));
                assert(exists|j: int|
                    0 <= j < s.take(idx + 1).len() - 1 && #[trigger] same_key(
                        s.take(idx + 1)[j],
                        s.take(idx + 1).last(),
                    ));
            } else {
                assert(forall|j: int|
                    0 <= j < pre.len() ==> !same_key(pre[j], s[idx as int]));
                assert(forall|j: int|
                    0 <= j < s.take(idx + 1).len() - 1 ==> !(#[trigger] same_key(
                        s.take(idx + 1)[j],
                        s.take(idx + 1).last(),
                    )));
            }
        }
        if !found {
            let ghost old_out = out.deep_view();
            out.push(exports[idx].clone());
            proof {
                assert(out.deep_view() =~= old_out.push(s[idx as int]));
            }
        }
        idx = idx + 1;
    }
    proof {
        assert(s.take(idx as int) =~= s);
    }
    out
}

} // verus!

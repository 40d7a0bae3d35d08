//! The grouper: partitions export records by source module, and within a
//! module into value records and type-only records.
//!
//! Modules are listed in first-seen order — the order in which each source
//! module first appears in the record sequence — which makes the grouping,
//! and so the reconstructed statement order, deterministic.

use vstd::prelude::*;

use crate::types::ExportData;
use crate::types::ExportInfo;

verus! {

/// The records of one source module, split into value re-exports and
/// type-only re-exports.
pub struct SourceGroup {
    pub source: String,
    pub value_exports: Vec<ExportInfo>,
    pub type_exports: Vec<ExportInfo>,
}

/// The mathematical content of a [`SourceGroup`].
#[verifier::ext_equal]
pub struct SourceGroupData {
    pub source: Seq<char>,
    pub value_exports: Seq<ExportData>,
    pub type_exports: Seq<ExportData>,
}

impl DeepView for SourceGroup {
    type V = SourceGroupData;

    open spec fn deep_view(&self) -> SourceGroupData {
        SourceGroupData {
            source: self.source@,
            value_exports: self.value_exports.deep_view(),
            type_exports: self.type_exports.deep_view(),
        }
    }
}

/// Every distinct source module of `s`, in the order each first appears.
pub open spec fn first_seen_sources(s: Seq<ExportData>) -> Seq<Seq<char>>
    decreases s.len(),
{
    if s.len() == 0 {
        Seq::empty()
    } else {
        let pre = first_seen_sources(s.drop_last());
        if pre.contains(s.last().source) {
            pre
        } else {
            pre.push(s.last().source)
        }
    }
}

/// Membership test for one module's records of one class.
pub open spec fn group_pred(m: Seq<char>, ty: bool) -> spec_fn(ExportData) -> bool {
    |r: ExportData| r.source == m && r.is_type_export == ty
}

/// The records of `s` with source `m` and type-only flag `ty`, in order.
pub open spec fn records_for(s: Seq<ExportData>, m: Seq<char>, ty: bool) -> Seq<ExportData> {
    s.filter(group_pred(m, ty))
}

/// One group per first-seen source module, holding that module's value and
/// type records in record order.
pub open spec fn group_spec(s: Seq<ExportData>) -> Seq<SourceGroupData> {
    first_seen_sources(s).map_values(
        |m: Seq<char>|
            SourceGroupData {
                source: m,
                value_exports: records_for(s, m, false),
                type_exports: records_for(s, m, true),
            },
    )
}

/// A module is listed exactly when some record carries it.
pub proof fn lemma_first_seen_contains(s: Seq<ExportData>, m: Seq<char>)
    ensures
        first_seen_sources(s).contains(m) <==> exists|i: int| 0 <= i < s.len() && s[i].source == m,
    decreases s.len(),
{
    if s.len() > 0 {
        let pre = s.drop_last();
        lemma_first_seen_contains(pre, m);
        assert(forall|i: int| 0 <= i < pre.len() ==> pre[i] == s[i]);
        let fs = first_seen_sources(s);
        let fp = first_seen_sources(pre);
        if fs.contains(m) {
            if !fp.contains(m) {
                assert(m == s.last().source);
                assert(s[s.len() - 1].source == m);
            } else {
                let i = choose|i: int| 0 <= i < pre.len() && pre[i].source == m;
                assert(s[i].source == m);
            }
        }
        if exists|i: int| 0 <= i < s.len() && s[i].source == m {
            let i = choose|i: int| 0 <= i < s.len() && s[i].source == m;
            if i < s.len() - 1 {
                assert(pre[i].source == m);
                if fp.contains(m) {
                    let j = choose|j: int| 0 <= j < fp.len() && fp[j] == m;
                    assert(fs[j] == m);
                }
            } else {
                if !fp.contains(m) {
                    assert(fs[fs.len() - 1] == m);
                } else {
                    let j = choose|j: int| 0 <= j < fp.len() && fp[j] == m;
                    assert(fs[j] == m);
                }
            }
        }
    }
}

/// The first-seen module list holds no module twice.
pub proof fn lemma_first_seen_distinct(s: Seq<ExportData>)
    ensures
        forall|i: int, j: int|
            0 <= i < j < first_seen_sources(s).len() ==> first_seen_sources(s)[i]
                != first_seen_sources(s)[j],
    decreases s.len(),
{
    if s.len() > 0 {
        let pre = s.drop_last();
        lemma_first_seen_distinct(pre);
        let fp = first_seen_sources(pre);
        let fs = first_seen_sources(s);
        if !fp.contains(s.last().source) {
            assert forall|i: int, j: int| 0 <= i < j < fs.len() implies fs[i] != fs[j] by {
                if j == fs.len() - 1 {
                    assert(fs[i] == fp[i]);
                    if fs[i] == s.last().source {
                        assert(fp.contains(s.last().source));
                    }
                }
            }
        }
    }
}

/// No record of `s` carries source `m`, so `m`'s record list is empty.
pub proof fn lemma_records_for_none(s: Seq<ExportData>, m: Seq<char>, ty: bool)
    requires
        forall|i: int| 0 <= i < s.len() ==> s[i].source != m,
    ensures
        records_for(s, m, ty) == Seq::<ExportData>::empty(),
    decreases s.len(),
{
    broadcast use vstd::seq_lib::group_seq_lib_default;

    let pred = group_pred(m, ty);
    if s.len() == 0 {
        s.lemma_filter_len(pred);
        assert(s.filter(pred) =~= Seq::<ExportData>::empty());
    } else {
        let pre = s.drop_last();
        assert(forall|i: int| 0 <= i < pre.len() ==> pre[i] == s[i]);
        lemma_records_for_none(pre, m, ty);
        assert(pre.push(s.last()) =~= s);
        pre.lemma_filter_push(s.last(), pred);
        assert(s.filter(pred) =~= Seq::<ExportData>::empty());
    }
}

/// Group records by source module in first-seen order, each module's
/// records split into value and type-only lists, record order kept.
#[verifier::loop_isolation(false)]
pub fn group_exports_by_source(exports: &Vec<ExportInfo>) -> (r: Vec<SourceGroup>)
    ensures
        r.deep_view() == group_spec(exports.deep_view()),
{
    broadcast use vstd::prelude::Seq::lemma_filter_push;

    let ghost s = exports.deep_view();
    let mut out: Vec<SourceGroup> = Vec::new();
    proof {
        assert(s.take(0) =~= Seq::<ExportData>::empty());
        assert(out.deep_view() =~= group_spec(s.take(0)));
    }
    let mut idx: usize = 0;
    while idx < exports.len()
        invariant
            0 <= idx <= exports.len(),
            s == exports.deep_view(),
            s.len() == exports.len(),
            out.deep_view() == group_spec(s.take(idx as int)),
        decreases exports.len() - idx,
    {
        let ghost pre = s.take(idx as int);
        let ghost rec = s[idx as int];
        let ghost fp = first_seen_sources(pre);
        proof {
            assert(out.deep_view().len() == fp.len());
            assert(forall|g: int|
                0 <= g < fp.len() ==> #[trigger] out.deep_view()[g].source == fp[g]);
            assert(s.take(idx + 1).drop_last() =~= pre);
            assert(s.take(idx + 1).last() == rec);
            assert(pre.push(rec) =~= s.take(idx + 1));
            lemma_first_seen_distinct(pre);
        }
        let mut found = false;
        let mut at: usize = 0;
        let mut gi: usize = 0;
        while gi < out.len()
            invariant
                0 <= gi <= out.len(),
                found ==> (at < out.len() && out.deep_view()[at as int].source == rec.source),
                !found ==> forall|g: int|
                    0 <= g < gi ==> #[trigger] out.deep_view()[g].source != rec.source,
            decreases out.len() - gi,
        {
            if !found && crate::text::str_eq_exec(
                out[gi].source.as_str(),
                exports[idx].source.as_str(),
            ) {
                found = true;
                at = gi;
            }
            gi = gi + 1;
        }
        let ghost cur = s.take(idx + 1);
        if found {
            proof {
                assert(fp[at as int] == rec.source);
                assert(fp.contains(rec.source));
                assert(first_seen_sources(cur) == fp);
            }
            let mut g = out.remove(at);
            let ghost old_groups = group_spec(pre);
            if exports[idx].is_type_export {
                let ghost old_list = g.type_exports.deep_view();
                g.type_exports.push(exports[idx].clone());
                proof {
                    assert(g.type_exports.deep_view() =~= old_list.push(rec));
                }
            } else {
                let ghost old_list = g.value_exports.deep_view();
                g.value_exports.push(exports[idx].clone());
                proof {
                    assert(g.value_exports.deep_view() =~= old_list.push(rec));
                }
            }
            out.insert(at, g);
            proof {
                assert forall|h: int| 0 <= h < fp.len() implies out.deep_view()[h]
                    =~= group_spec(cur)[h] by {
                    let m = fp[h];
                    assert(group_spec(cur)[h].source == m);
                    assert(pre.push(rec).filter(group_pred(m, false)) == records_for(
                        cur,
                        m,
                        false,
                    ));
                    assert(pre.push(rec).filter(group_pred(m, true)) == records_for(
                        cur,
                        m,
                        true,
                    ));
                    assert(pre.filter(group_pred(m, false)) == records_for(pre, m, false));
                    assert(pre.filter(group_pred(m, true)) == records_for(pre, m, true));
                    assert(group_pred(m, false)(rec) == (rec.source == m
                        && rec.is_type_export == false));
                    assert(group_pred(m, true)(rec) == (rec.source == m
                        && rec.is_type_export == true));
                    if h != at {
                        assert(m != rec.source);
                        assert(out.deep_view()[h] == old_groups[h]);
                        assert(records_for(cur, m, false) == records_for(pre, m, false));
                        assert(records_for(cur, m, true) == records_for(pre, m, true));
                    } else {
                        assert(out.deep_view()[h] == g.deep_view());
                        if rec.is_type_export {
                            assert(records_for(cur, m, true) == records_for(
                                pre,
                                m,
                                true,
                            ).push(rec));
                            assert(records_for(cur, m, false) == records_for(pre, m, false));
                        } else {
                            assert(records_for(cur, m, false) == records_for(
                                pre,
                                m,
                                false,
                            ).push(rec));
                            assert(records_for(cur, m, true) == records_for(pre, m, true));
                        }
                    }
                }
                assert(out.deep_view() =~= group_spec(cur));
            }
        } else {
            proof {
                assert forall|j: int| 0 <= j < fp.len() implies fp[j] != rec.source by {
                    assert(out.deep_view()[j].source == fp[j]);
                }
                assert(!fp.contains(rec.source));
                assert(first_seen_sources(cur) == fp.push(rec.source));
                lemma_first_seen_contains(pre, rec.source);
                assert(forall|i: int| 0 <= i < pre.len() ==> pre[i].source != rec.source);
                lemma_records_for_none(pre, rec.source, false);
                lemma_records_for_none(pre, rec.source, true);
            }
            let mut value_exports: Vec<ExportInfo> = Vec::new();
            let mut type_exports: Vec<ExportInfo> = Vec::new();
            if exports[idx].is_type_export {
                type_exports.push(exports[idx].clone());
            } else {
                value_exports.push(exports[idx].clone());
            }
            let g = SourceGroup {
                source: exports[idx].source.clone(),
                value_exports,
                type_exports,
            };
            let ghost old_groups = group_spec(pre);
            let ghost old_out = out.deep_view();
            out.push(g);
            proof {
                assert forall|h: int| 0 <= h < fp.len() + 1 implies out.deep_view()[h]
                    =~= group_spec(cur)[h] by {
                    let m = first_seen_sources(cur)[h];
                    assert(pre.push(rec).filter(group_pred(m, false)) == records_for(
                        cur,
                        m,
                        false,
                    ));
                    assert(pre.push(rec).filter(group_pred(m, true)) == records_for(
                        cur,
                        m,
                        true,
                    ));
                    assert(pre.filter(group_pred(m, false)) == records_for(pre, m, false));
                    assert(pre.filter(group_pred(m, true)) == records_for(pre, m, true));
                    assert(group_pred(m, false)(rec) == (rec.source == m
                        && rec.is_type_export == false));
                    assert(group_pred(m, true)(rec) == (rec.source == m
                        && rec.is_type_export == true));
                    if h < fp.len() {
                        assert(m == fp[h]);
                        assert(m != rec.source);
                        assert(out.deep_view()[h] == old_groups[h]);
                        assert(records_for(cur, m, false) == records_for(pre, m, false));
                        assert(records_for(cur, m, true) == records_for(pre, m, true));
                    } else {
                        assert(m == rec.source);
                        assert(out.deep_view()[h] == g.deep_view());
                        if rec.is_type_export {
                            assert(records_for(cur, m, true) =~= seq![rec]);
                            assert(records_for(cur, m, false) =~= Seq::<ExportData>::empty());
                            assert(g.deep_view().type_exports =~= seq![rec]);
                            assert(g.deep_view().value_exports
                                =~= Seq::<ExportData>::empty());
                        } else {
                            assert(records_for(cur, m, false) =~= seq![rec]);
                            assert(records_for(cur, m, true) =~= Seq::<ExportData>::empty());
                            assert(g.deep_view().value_exports =~= seq![rec]);
                            assert(g.deep_view().type_exports =~= Seq::<ExportData>::empty());
                        }
                    }
                }
                assert(out.deep_view() =~= group_spec(cur));
            }
        }
        idx = idx + 1;
    }
    proof {
        assert(s.take(idx as int) =~= s);
    }
    out
}

} // verus!

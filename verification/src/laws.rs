//! Laws of the pipeline stages, stated and proved once over the same spec
//! functions that the executable functions' contracts use.

use vstd::prelude::*;

use crate::dedupe::dedupe_spec;
use crate::dedupe::same_key;
use crate::pipeline::normalized_records;
use crate::render::reconstruct_spec;
use crate::sort::insert_sorted;
use crate::sort::key_le;
use crate::sort::lemma_key_le_total;
use crate::sort::lemma_key_le_trans;
use crate::sort::sort_spec;
use crate::types::BarrelLoaderOptions;
use crate::types::ExportData;
use crate::types::ExportKind;

verus! {

/// The duplicate-detection key of a record: everything but the line number.
pub open spec fn rec_key(r: ExportData) -> (ExportKind, Seq<char>, Seq<char>, bool) {
    (r.export_type, r.specifier, r.source, r.is_type_export)
}

/// The keys of a record sequence, in order.
pub open spec fn keys_of(s: Seq<ExportData>) -> Seq<(ExportKind, Seq<char>, Seq<char>, bool)> {
    s.map_values(|r: ExportData| rec_key(r))
}

/// Position of the first record of `s` whose key equals `x`'s key;
/// `s.len()` when no record does.
pub open spec fn first_pos(s: Seq<ExportData>, x: ExportData) -> int
    decreases s.len(),
{
    if s.len() == 0 {
        0
    } else if same_key(s[0], x) {
        0
    } else {
        1 + first_pos(s.drop_first(), x)
    }
}

/// `first_pos` finds the earliest record with the given key, or `s.len()`.
pub proof fn lemma_first_pos(s: Seq<ExportData>, x: ExportData)
    ensures
        0 <= first_pos(s, x) <= s.len(),
        first_pos(s, x) < s.len() ==> same_key(s[first_pos(s, x)], x),
        forall|j: int| 0 <= j < first_pos(s, x) ==> !same_key(s[j], x),
        (first_pos(s, x) < s.len()) == (exists|j: int| 0 <= j < s.len() && same_key(s[j], x)),
    decreases s.len(),
{
    if s.len() > 0 && !same_key(s[0], x) {
        lemma_first_pos(s.drop_first(), x);
        let r = s.drop_first();
        assert(forall|j: int| 0 <= j < r.len() ==> r[j] == s[j + 1]);
        if exists|j: int| 0 <= j < s.len() && same_key(s[j], x) {
            let j = choose|j: int| 0 <= j < s.len() && same_key(s[j], x);
            assert(j >= 1 && r[j - 1] == s[j]);
        }
        assert forall|j: int| 0 <= j < first_pos(s, x) implies !same_key(s[j], x) by {
            if j >= 1 {
                assert(r[j - 1] == s[j]);
                assert(!same_key(r[j - 1], x));
            }
        }
    }
}

/// Appending records never moves an existing key's first position.
proof fn lemma_first_pos_extend(s: Seq<ExportData>, x: ExportData, y: ExportData)
    requires
        exists|j: int| 0 <= j < s.len() && same_key(s[j], x),
    ensures
        first_pos(s.push(y), x) == first_pos(s, x),
    decreases s.len(),
{
    lemma_first_pos(s, x);
    if s.len() > 0 {
        if same_key(s[0], x) {
            assert(s.push(y)[0] == s[0]);
        } else {
            let r = s.drop_first();
            assert(forall|j: int| 0 <= j < r.len() ==> r[j] == s[j + 1]);
            let j = choose|j: int| 0 <= j < s.len() && same_key(s[j], x);
            assert(j >= 1 && r[j - 1] == s[j]);
            lemma_first_pos_extend(r, x, y);
            assert(s.push(y).drop_first() =~= r.push(y));
            assert(s.push(y)[0] == s[0]);
        }
    }
}

/// A key's first position is the end when the key is new.
proof fn lemma_first_pos_new(s: Seq<ExportData>, y: ExportData)
    requires
        forall|j: int| 0 <= j < s.len() ==> !same_key(s[j], y),
    ensures
        first_pos(s.push(y), y) == s.len(),
    decreases s.len(),
{
    if s.len() == 0 {
        assert(same_key(s.push(y)[0], y));
    } else {
        assert(s.push(y)[0] == s[0]);
        assert(!same_key(s.push(y)[0], y));
        let r = s.drop_first();
        assert(forall|j: int| 0 <= j < r.len() ==> r[j] == s[j + 1]);
        lemma_first_pos_new(r, y);
        assert(s.push(y).drop_first() =~= r.push(y));
    }
}

/// Law: deduplication is a stable filter. The output's length equals the
/// number of distinct record keys; no two output records share a key; and
/// the output lists keys in first-seen order: the first positions of
/// successive output records strictly increase.
pub proof fn lemma_dedupe_stable_filter(s: Seq<ExportData>)
    ensures
        dedupe_spec(s).len() == keys_of(s).to_set().len(),
        forall|i: int, j: int|
            0 <= i < j < dedupe_spec(s).len() ==> !same_key(
                dedupe_spec(s)[i],
                dedupe_spec(s)[j],
            ),
        forall|i: int, j: int|
            0 <= i < j < dedupe_spec(s).len() ==> first_pos(s, dedupe_spec(s)[i]) < first_pos(
                s,
                dedupe_spec(s)[j],
            ),
        forall|i: int| 0 <= i < dedupe_spec(s).len() ==> s.contains(dedupe_spec(s)[i]),
    decreases s.len(),
{
    broadcast use vstd::seq_lib::group_seq_lib_default;
    broadcast use vstd::set_lib::group_set_lib_default;

    if s.len() == 0 {
        assert(keys_of(s) =~= Seq::<(ExportKind, Seq<char>, Seq<char>, bool)>::empty());
        assert(keys_of(s).to_set() =~= Set::<(ExportKind, Seq<char>, Seq<char>, bool)>::empty());
        assert(keys_of(s).to_set().len() == 0);
    } else {
        let pre = s.drop_last();
        let last = s.last();
        lemma_dedupe_stable_filter(pre);
        crate::dedupe::lemma_dedupe_keys(pre, last);
        let d = dedupe_spec(s);
        let pd = dedupe_spec(pre);
        assert(forall|j: int| 0 <= j < pre.len() ==> pre[j] == s[j]);
        assert(pre.push(last) =~= s);
        assert(keys_of(s) =~= keys_of(pre).push(rec_key(last)));
        keys_of(pre).lemma_push_to_set_commute(rec_key(last));
        assert(keys_of(s).to_set() =~= keys_of(pre).to_set().insert(rec_key(last)));
        // key membership in the key set matches key existence in the records
        assert(keys_of(pre).to_set().contains(rec_key(last)) == (exists|j: int|
            0 <= j < pre.len() && same_key(pre[j], last))) by {
            if keys_of(pre).to_set().contains(rec_key(last)) {
                assert(keys_of(pre).contains(rec_key(last)));
                let j = choose|j: int|
                    0 <= j < keys_of(pre).len() && keys_of(pre)[j] == rec_key(last);
                assert(rec_key(pre[j]) == rec_key(last));
                assert(same_key(pre[j], last));
            }
            if exists|j: int| 0 <= j < pre.len() && same_key(pre[j], last) {
                let j = choose|j: int| 0 <= j < pre.len() && same_key(pre[j], last);
                assert(keys_of(pre)[j] == rec_key(pre[j]));
                assert(keys_of(pre)[j] == rec_key(last));
                assert(keys_of(pre).contains(rec_key(last)));
            }
        }
        let dup = exists|j: int| 0 <= j < s.len() - 1 && same_key(s[j], last);
        assert(dup == (exists|j: int| 0 <= j < pre.len() && same_key(pre[j], last)));
        // first positions over s agree with first positions over pre for
        // records whose key already occurs in pre
        assert forall|i: int| 0 <= i < pd.len() implies first_pos(s, pd[i]) == first_pos(
            pre,
            pd[i],
        ) by {
            assert(pre.contains(pd[i]));
            let w = choose|w: int| 0 <= w < pre.len() && pre[w] == pd[i];
            assert(same_key(pre[w], pd[i]));
            lemma_first_pos_extend(pre, pd[i], last);
        }
        if dup {
            assert(keys_of(pre).to_set().contains(rec_key(last)));
            assert(keys_of(s).to_set() =~= keys_of(pre).to_set());
            assert(d == pd);
        } else {
            assert(!keys_of(pre).to_set().contains(rec_key(last)));
            assert(keys_of(s).to_set().len() == keys_of(pre).to_set().len() + 1);
            assert(d == pd.push(last));
            assert(forall|j: int| 0 <= j < pre.len() ==> !same_key(pre[j], last));
            lemma_first_pos_new(pre, last);
            assert(first_pos(s, last) == pre.len());
            assert forall|i: int| 0 <= i < pd.len() implies #[trigger] first_pos(s, d[i])
                < first_pos(s, d[pd.len() as int]) by {
                lemma_first_pos(pre, pd[i]);
                assert(pre.contains(pd[i]));
                let w = choose|w: int| 0 <= w < pre.len() && pre[w] == pd[i];
                assert(same_key(pre[w], pd[i]));
                assert(first_pos(pre, pd[i]) < pre.len());
            }
            assert forall|i: int, j: int| 0 <= i < j < d.len() implies !same_key(
                d[i],
                d[j],
            ) by {
                if j == d.len() - 1 {
                    assert(d[i] == pd[i]);
                    assert(pre.contains(pd[i]));
                    let w = choose|w: int| 0 <= w < pre.len() && pre[w] == pd[i];
                    if same_key(d[i], d[j]) {
                        assert(same_key(pre[w], last));
                    }
                }
            }
            assert(s.contains(s[s.len() - 1]));
        }
    }
}

/// Law: deduplicating twice changes nothing beyond deduplicating once.
pub proof fn lemma_dedupe_idempotent(s: Seq<ExportData>)
    ensures
        dedupe_spec(dedupe_spec(s)) == dedupe_spec(s),
    decreases s.len(),
{
    lemma_dedupe_stable_filter(s);
    let d = dedupe_spec(s);
    lemma_dedupe_of_distinct(d);
}

/// A sequence without key duplicates deduplicates to itself.
proof fn lemma_dedupe_of_distinct(d: Seq<ExportData>)
    requires
        forall|i: int, j: int| 0 <= i < j < d.len() ==> !same_key(d[i], d[j]),
    ensures
        dedupe_spec(d) == d,
    decreases d.len(),
{
    if d.len() > 0 {
        let pre = d.drop_last();
        assert(forall|j: int| 0 <= j < pre.len() ==> pre[j] == d[j]);
        lemma_dedupe_of_distinct(pre);
        assert(forall|j: int| 0 <= j < d.len() - 1 ==> !same_key(d[j], d.last()));
        assert(dedupe_spec(d) =~= d);
    }
}

/// All of `l` compares at or below `x`, so `x` lands at the end.
proof fn lemma_insert_sorted_end(x: ExportData, l: Seq<ExportData>)
    requires
        forall|i: int| 0 <= i < l.len() ==> key_le(#[trigger] l[i], x),
    ensures
        insert_sorted(x, l) == l.push(x),
    decreases l.len(),
{
    if l.len() == 0 {
        assert(insert_sorted(x, l) =~= l.push(x));
    } else {
        let r = l.drop_first();
        assert(forall|i: int| 0 <= i < r.len() ==> r[i] == l[i + 1]);
        lemma_insert_sorted_end(x, r);
        assert(insert_sorted(x, l) =~= l.push(x));
    }
}

/// Inserting into a sorted sequence keeps it sorted and adds the element.
proof fn lemma_insert_sorted_props(x: ExportData, l: Seq<ExportData>)
    requires
        forall|i: int, j: int| 0 <= i < j < l.len() ==> key_le(#[trigger] l[i], #[trigger] l[j]),
    ensures
        forall|i: int, j: int|
            0 <= i < j < insert_sorted(x, l).len() ==> key_le(
                #[trigger] insert_sorted(x, l)[i],
                #[trigger] insert_sorted(x, l)[j],
            ),
        insert_sorted(x, l).to_multiset() == l.to_multiset().insert(x),
    decreases l.len(),
{
    broadcast use vstd::seq_lib::group_to_multiset_ensures;

    let out = insert_sorted(x, l);
    if l.len() == 0 {
        assert(out =~= seq![x]);
        assert(seq![x] =~= Seq::<ExportData>::empty().push(x));
        assert(out.to_multiset() =~= l.to_multiset().insert(x));
    } else if key_le(l[0], x) {
        let r = l.drop_first();
        assert(forall|i: int| 0 <= i < r.len() ==> r[i] == l[i + 1]);
        lemma_insert_sorted_props(x, r);
        let ir = insert_sorted(x, r);
        assert(out =~= seq![l[0]] + ir);
        // head stays below everything inserted after it
        assert forall|i: int, j: int| 0 <= i < j < out.len() implies key_le(
            #[trigger] out[i],
            #[trigger] out[j],
        ) by {
            if i == 0 {
                assert(out[0] == l[0]);
                assert(out[j] == ir[j - 1]);
                // out[j] is either x or an element of r, both at or above l[0]
                ir.to_multiset_ensures();
                assert(ir.to_multiset().contains(ir[j - 1]));
                if ir[j - 1] == x {
                    assert(key_le(l[0], out[j]));
                } else {
                    assert(r.to_multiset().insert(x).contains(ir[j - 1]));
                    assert(r.to_multiset().contains(ir[j - 1]));
                    r.to_multiset_ensures();
                    assert(r.contains(ir[j - 1]));
                    let w = choose|w: int| 0 <= w < r.len() && r[w] == ir[j - 1];
                    assert(key_le(l[0], l[w + 1]));
                }
            } else {
                assert(out[i] == ir[i - 1] && out[j] == ir[j - 1]);
            }
        }
        assert(seq![l[0]] + ir =~= ir.insert(0, l[0]));
        assert(out.to_multiset() =~= l.to_multiset().insert(x)) by {
            assert(out =~= ir.insert(0, l[0]));
            vstd::seq_lib::to_multiset_insert(ir, 0, l[0]);
            assert(out.to_multiset() =~= ir.to_multiset().insert(l[0]));
            assert(ir.to_multiset() =~= r.to_multiset().insert(x));
            assert(l =~= r.insert(0, l[0]));
            vstd::seq_lib::to_multiset_insert(r, 0, l[0]);
            assert(l.to_multiset() =~= r.to_multiset().insert(l[0]));
            assert(r.to_multiset().insert(x).insert(l[0]) =~= r.to_multiset().insert(
                l[0],
            ).insert(x));
        }
    } else {
        lemma_key_le_total(l[0], x);
        assert(out =~= seq![x] + l);
        assert forall|i: int, j: int| 0 <= i < j < out.len() implies key_le(
            #[trigger] out[i],
            #[trigger] out[j],
        ) by {
            if i == 0 {
                assert(out[j] == l[j - 1]);
                if j - 1 > 0 {
                    assert(key_le(l[0], l[j - 1]));
                    lemma_key_le_trans(x, l[0], l[j - 1]);
                } else {
                    assert(key_le(x, l[0]));
                }
            } else {
                assert(out[i] == l[i - 1] && out[j] == l[j - 1]);
            }
        }
        assert(out =~= l.insert(0, x));
        vstd::seq_lib::to_multiset_insert(l, 0, x);
    }
}

/// Law: sorting yields a sequence ordered by `(source, specifier)` under a
/// total order, holding exactly the input records (as a multiset).
pub proof fn lemma_sort_total_order(s: Seq<ExportData>)
    ensures
        forall|i: int, j: int|
            0 <= i < j < sort_spec(s).len() ==> key_le(
                #[trigger] sort_spec(s)[i],
                #[trigger] sort_spec(s)[j],
            ),
        sort_spec(s).to_multiset() == s.to_multiset(),
        sort_spec(s).len() == s.len(),
    decreases s.len(),
{
    broadcast use vstd::seq_lib::group_to_multiset_ensures;

    if s.len() > 0 {
        let pre = s.drop_last();
        lemma_sort_total_order(pre);
        lemma_insert_sorted_props(s.last(), sort_spec(pre));
        assert(pre.push(s.last()) =~= s);
        vstd::seq_lib::to_multiset_build(pre, s.last());
        assert(sort_spec(s).to_multiset() =~= s.to_multiset());
        sort_spec(s).to_multiset_ensures();
        s.to_multiset_ensures();
    }
}

/// A sequence already in order sorts to itself.
proof fn lemma_sort_of_sorted(s: Seq<ExportData>)
    requires
        forall|i: int, j: int| 0 <= i < j < s.len() ==> key_le(#[trigger] s[i], #[trigger] s[j]),
    ensures
        sort_spec(s) == s,
    decreases s.len(),
{
    if s.len() > 0 {
        let pre = s.drop_last();
        assert(forall|j: int| 0 <= j < pre.len() ==> pre[j] == s[j]);
        lemma_sort_of_sorted(pre);
        assert(forall|i: int| 0 <= i < pre.len() ==> key_le(#[trigger] pre[i], s.last()));
        lemma_insert_sorted_end(s.last(), pre);
        assert(sort_spec(s) =~= s);
    }
}

/// Law: sorting twice is sorting once.
pub proof fn lemma_sort_idempotent(s: Seq<ExportData>)
    ensures
        sort_spec(sort_spec(s)) == sort_spec(s),
{
    lemma_sort_total_order(s);
    lemma_sort_of_sorted(sort_spec(s));
}

/// Law: reconstruction of an empty record list returns the original text
/// unchanged, byte for byte.
pub proof fn lemma_reconstruct_empty_identity(orig: Seq<char>)
    ensures
        reconstruct_spec(orig, Seq::<ExportData>::empty()) == orig,
{
}

/// Sorting keeps records pairwise key-distinct: it only rearranges them.
proof fn lemma_sort_preserves_key_distinct(s: Seq<ExportData>)
    requires
        forall|i: int, j: int| 0 <= i < j < s.len() ==> !same_key(s[i], s[j]),
    ensures
        forall|i: int, j: int|
            0 <= i < j < sort_spec(s).len() ==> !same_key(sort_spec(s)[i], sort_spec(s)[j]),
{
    broadcast use vstd::seq_lib::group_to_multiset_ensures;

    lemma_sort_total_order(s);
    let t = sort_spec(s);
    assert forall|i: int, j: int| 0 <= i < j < t.len() implies !same_key(t[i], t[j]) by {
        if same_key(t[i], t[j]) {
            // find t[i] in s, then t[j] in s with the position removed
            vstd::seq_lib::to_multiset_remove(t, i);
            assert(t.remove(i).to_multiset() == s.to_multiset().remove(t[i]));
            assert(t.remove(i)[j - 1] == t[j]);
            assert(t.remove(i).to_multiset().contains(t[j]));
            s.to_multiset_ensures();
            assert(s.to_multiset().contains(t[i]));
            assert(s.contains(t[i]));
            let a = choose|a: int| 0 <= a < s.len() && s[a] == t[i];
            vstd::seq_lib::to_multiset_remove(s, a);
            assert(s.remove(a).to_multiset() == s.to_multiset().remove(t[i]));
            assert(s.remove(a).to_multiset().contains(t[j]));
            s.remove(a).to_multiset_ensures();
            assert(s.remove(a).contains(t[j]));
            let b0 = choose|b0: int| 0 <= b0 < s.remove(a).len() && s.remove(a)[b0] == t[j];
            let b = if b0 < a {
                b0
            } else {
                b0 + 1
            };
            assert(s[b] == t[j]);
            assert(b != a);
            assert(same_key(s[a], s[b]));
            if a < b {
                assert(!same_key(s[a], s[b]));
            } else {
                assert(!same_key(s[b], s[a]));
            }
        }
    }
}

/// Printable records group into printable groups.
proof fn lemma_group_spec_printable(recs: Seq<ExportData>)
    requires
        crate::render::printable_records(recs),
    ensures
        crate::render::printable_groups(crate::group::group_spec(recs)),
{
    let gs = crate::group::group_spec(recs);
    let fs = crate::group::first_seen_sources(recs);
    assert forall|g: int|
        0 <= g < gs.len() implies crate::text::lacks(#[trigger] gs[g].source, '\n')
        && crate::render::printable_records(gs[g].value_exports)
        && crate::render::printable_records(gs[g].type_exports) by {
        let m = fs[g];
        assert(gs[g].source == m);
        assert(fs.contains(m));
        crate::group::lemma_first_seen_contains(recs, m);
        let w = choose|w: int| 0 <= w < recs.len() && recs[w].source == m;
        assert(crate::text::lacks(recs[w].specifier, '\n'));
        assert(crate::text::lacks(m, '\n'));
        assert forall|i: int|
            0 <= i < gs[g].value_exports.len() implies crate::text::lacks(
            #[trigger] gs[g].value_exports[i].specifier,
            '\n',
        ) && crate::text::lacks(gs[g].value_exports[i].source, '\n') by {
            let e = gs[g].value_exports[i];
            assert(gs[g].value_exports.contains(e));
            recs.lemma_filter_contains_rev(crate::group::group_pred(m, false), e);
            assert(recs.contains(e));
            let v = choose|v: int| 0 <= v < recs.len() && recs[v] == e;
            assert(crate::text::lacks(recs[v].specifier, '\n'));
        }
        assert forall|i: int|
            0 <= i < gs[g].type_exports.len() implies crate::text::lacks(
            #[trigger] gs[g].type_exports[i].specifier,
            '\n',
        ) && crate::text::lacks(gs[g].type_exports[i].source, '\n') by {
            let e = gs[g].type_exports[i];
            assert(gs[g].type_exports.contains(e));
            recs.lemma_filter_contains_rev(crate::group::group_pred(m, true), e);
            assert(recs.contains(e));
            let v = choose|v: int| 0 <= v < recs.len() && recs[v] == e;
            assert(crate::text::lacks(recs[v].specifier, '\n'));
        }
    }
}

/// Law (the prefix half of pipeline idempotence): reprocessing keeps the
/// preserved leading content. The reconstruction of a non-empty record
/// list opens with exactly the lines that reconstruction kept from the
/// original text, so a second prefix scan keeps them verbatim again. The
/// premises exclude records whose printed fields hold a newline, and kept
/// lines ending in a carriage return, both of which line splitting could
/// not give back.
pub proof fn lemma_reconstruct_keeps_prefix(orig: Seq<char>, recs: Seq<ExportData>)
    requires
        recs.len() > 0,
        crate::render::printable_records(recs),
        forall|i: int|
            0 <= i < crate::render::kept_prefix(crate::text::split_lines(orig)).len()
                ==> (#[trigger] crate::render::kept_prefix(crate::text::split_lines(orig))[i].len()
                == 0 || crate::render::kept_prefix(crate::text::split_lines(orig))[i][crate::render::kept_prefix(
                crate::text::split_lines(orig),
            )[i].len() - 1] != '\r'),
    ensures
        crate::render::kept_prefix(crate::text::split_lines(reconstruct_spec(orig, recs)))
            == crate::render::kept_prefix(crate::text::split_lines(orig)),
{
    let ls = crate::text::split_lines(orig);
    let kept = crate::render::kept_prefix(ls);
    let gs = crate::group::group_spec(recs);
    let gen = crate::render::render_groups(gs);
    let lines = kept + gen;
    lemma_group_spec_printable(recs);
    crate::render::lemma_render_groups_lines(gs);
    // the regenerated list is non-empty: the first record's module has a
    // group, and that group holds the record
    let m0 = recs[0].source;
    let ty0 = recs[0].is_type_export;
    crate::group::lemma_first_seen_contains(recs, m0);
    let fs = crate::group::first_seen_sources(recs);
    assert(fs.contains(m0));
    let g0 = choose|g0: int| 0 <= g0 < fs.len() && fs[g0] == m0;
    assert(crate::group::group_pred(m0, ty0)(recs[0]));
    recs.lemma_filter_contains(crate::group::group_pred(m0, ty0), 0);
    assert(crate::group::records_for(recs, m0, ty0).contains(recs[0]));
    assert(gs[g0].value_exports.len() > 0 || gs[g0].type_exports.len() > 0) by {
        if ty0 {
            assert(gs[g0].type_exports == crate::group::records_for(recs, m0, true));
        } else {
            assert(gs[g0].value_exports == crate::group::records_for(recs, m0, false));
        }
    }
    crate::render::lemma_render_groups_nonempty(gs, g0);
    assert(gen.len() > 0);
    assert(lines.len() > 0);
    assert(reconstruct_spec(orig, recs) == crate::text::join_lines(
        lines.push(Seq::<char>::empty())));
    // every joined line is newline-free with no trailing carriage return
    crate::text::lemma_split_lines_lack_newline(orig);
    crate::render::lemma_kept_prefix_props(ls);
    assert forall|i: int|
        0 <= i < lines.len() implies crate::text::lacks(#[trigger] lines[i], '\n') && (
        lines[i].len() == 0 || lines[i][lines[i].len() - 1] != '\r') by {
        if i < kept.len() {
            assert(lines[i] == kept[i]);
            assert(ls.contains(kept[i]));
            let w = choose|w: int| 0 <= w < ls.len() && ls[w] == kept[i];
            assert(crate::text::lacks(ls[w], '\n'));
        } else {
            assert(lines[i] == gen[i - kept.len()]);
            assert(crate::render::statement_line(gen[i - kept.len()]));
        }
    }
    crate::text::lemma_split_of_join(lines);
    assert(crate::text::split_lines(reconstruct_spec(orig, recs)) == lines);
    // scanning the new text keeps the old prefix and stops at the first
    // regenerated statement
    crate::render::lemma_kept_prefix_all_kept(kept, gen);
    assert(crate::render::statement_line(gen[0]));
    assert(crate::render::kept_prefix(gen) =~= Seq::<Seq<char>>::empty());
    assert(kept + crate::render::kept_prefix(gen) =~= kept);
}

/// Law (one record of the round trip): a regenerated type-only statement
/// for a bare `*` namespace re-export parses back to exactly its record,
/// with the new line number. The premises say only that the module path is
/// a non-empty run of non-quote characters, which holds of every module
/// path the parser itself extracts.
#[verifier::rlimit(80)]
#[verifier::spinoff_prover]
pub proof fn lemma_namespace_line_round_trip(r: ExportData, num: int)
    requires
        r.export_type == ExportKind::Namespace,
        r.is_type_export == true,
        r.specifier == "*"@,
        r.source.len() > 0,
        forall|k: int| 0 <= k < r.source.len() ==> !crate::text::is_quote(#[trigger] r.source[k]),
    ensures
        crate::parse::parse_line_records(crate::render::render_namespace_line(r, true), num)
            == seq![
            ExportData {
                specifier: r.specifier,
                source: r.source,
                export_type: ExportKind::Namespace,
                is_type_export: true,
                line: crate::parse::sat_u32(num),
            },
        ],
{
    reveal_strlit("export type ");
    reveal_strlit("* from \"");
    reveal_strlit("\";");
    reveal_strlit("export");
    reveal_strlit("type");
    reveal_strlit("from");
    reveal_strlit("as");
    reveal_strlit("export type");
    let m = r.source;
    let head = crate::render::render_head(true);
    let lit = "* from \""@;
    let tail = "\";"@;
    let l = crate::render::render_namespace_line(r, true);
    assert(l == head + lit + m + tail);
    assert(head.len() == 12 && lit.len() == 8 && tail.len() == 2);
    assert(l.len() == 22 + m.len());
    assert forall|k: int| 0 <= k < 12 implies l[k] == head[k] by {
        assert(l[k] == ((head + lit) + m)[k]);
        assert(((head + lit) + m)[k] == (head + lit)[k]);
    }
    assert forall|j: int| 0 <= j < 8 implies l[12 + j] == lit[j] by {
        assert(l[12 + j] == ((head + lit) + m)[12 + j]);
        assert(((head + lit) + m)[12 + j] == (head + lit)[12 + j]);
    }
    assert forall|j: int| 0 <= j < m.len() implies l[20 + j] == m[j] by {
        assert(l[20 + j] == ((head + lit) + m)[20 + j]);
    }
    assert(l[20 + m.len() as int] == '\"' && l[21 + m.len() as int] == ';');
    // the rendered line is already trimmed
    assert(l[0] == 'e' && !crate::text::is_space(l[0]));
    assert(!crate::text::is_space(l[l.len() - 1]));
    crate::text::lemma_trim_identity(l);
    let tr = crate::text::trim_spec(l);
    assert(tr == l);
    // it starts with `export` and holds `export type`
    assert(crate::text::match_at(l, 0, "export"@)) by {
        assert(l.subrange(0, 6) =~= "export"@);
    }
    assert(crate::text::contains_seq(l, "export type"@)) by {
        assert(l.subrange(0, 11) =~= "export type"@);
        assert(crate::text::match_at(l, 0, "export type"@));
    }
    // the opening walk: `export `, `type `, then the star
    assert(crate::text::is_space(l[6]) && !crate::text::is_space(l[7]));
    assert(crate::text::skip_spaces(l, 7) == 7);
    assert(crate::text::skip_spaces(l, 6) == 7);
    assert(crate::text::match_at(l, 7, "type"@)) by {
        assert(l.subrange(7, 11) =~= "type"@);
    }
    assert(crate::text::is_space(l[11]) && !crate::text::is_space(l[12]));
    assert(crate::text::skip_spaces(l, 12) == 12);
    assert(crate::text::skip_spaces(l, 11) == 12);
    assert(crate::parse::match_prefix(l) == Some(12int));
    // neither brace form applies at the star
    assert(l[12] == '*');
    assert(crate::parse::match_default(l) is None);
    assert(crate::parse::match_named(l) is None);
    // the namespace walk: space, `from`, space, quote, module, quote
    assert(crate::text::is_space(l[13]) && !crate::text::is_space(l[14]));
    assert(crate::text::skip_spaces(l, 14) == 14);
    assert(crate::text::skip_spaces(l, 13) == 14);
    assert(l[14] == 'f');
    assert(!crate::text::match_at(l, 14, "as"@)) by {
        if crate::text::match_at(l, 14, "as"@) {
            assert(l.subrange(14, 16)[0] == 'a');
        }
    }
    assert(crate::text::match_at(l, 14, "from"@)) by {
        assert(l.subrange(14, 18) =~= "from"@);
    }
    assert(crate::text::is_space(l[18]) && !crate::text::is_space(l[19]));
    assert(crate::text::skip_spaces(l, 19) == 19);
    assert(crate::text::skip_spaces(l, 18) == 19);
    assert(crate::text::is_quote(l[19]));
    assert forall|k: int| 20 <= k < 20 + m.len() implies !crate::text::is_quote(l[k]) by {
        assert(l[k] == m[k - 20]);
    }
    crate::text::lemma_find_quote_at(l, 20, 20 + m.len() as int);
    assert(l.subrange(20, 20 + m.len() as int) =~= m);
    assert(crate::parse::match_from_module(l, 13) == Some(m));
    assert(crate::parse::match_namespace(l) == Some(("*"@, m)));
    assert(crate::parse::parse_line_records(l, num) =~= seq![
        ExportData {
            specifier: r.specifier,
            source: r.source,
            export_type: ExportKind::Namespace,
            is_type_export: true,
            line: crate::parse::sat_u32(num),
        },
    ]);
}

/// Law (one record of the round trip): a regenerated type-only statement
/// for a bare default re-export parses back to exactly its record, with
/// the new line number, under the same premises on the module path.
#[verifier::rlimit(80)]
#[verifier::spinoff_prover]
pub proof fn lemma_default_line_round_trip(r: ExportData, num: int)
    requires
        r.export_type == ExportKind::Default,
        r.is_type_export == true,
        r.specifier == "default"@,
        r.source.len() > 0,
        forall|k: int| 0 <= k < r.source.len() ==> !crate::text::is_quote(#[trigger] r.source[k]),
    ensures
        crate::parse::parse_line_records(crate::render::render_default_line(r, true), num)
            == seq![
            ExportData {
                specifier: r.specifier,
                source: r.source,
                export_type: ExportKind::Default,
                is_type_export: true,
                line: crate::parse::sat_u32(num),
            },
        ],
{
    reveal_strlit("export type ");
    reveal_strlit("{ default } from \"");
    reveal_strlit("\";");
    reveal_strlit("export");
    reveal_strlit("type");
    reveal_strlit("from");
    reveal_strlit("as");
    reveal_strlit("default");
    reveal_strlit("export type");
    let m = r.source;
    let head = crate::render::render_head(true);
    let lit = "{ default } from \""@;
    let tail = "\";"@;
    let l = crate::render::render_default_line(r, true);
    assert(l == head + lit + m + tail);
    assert(head.len() == 12 && lit.len() == 18 && tail.len() == 2);
    assert(l.len() == 32 + m.len());
    assert forall|k: int| 0 <= k < 12 implies l[k] == head[k] by {
        assert(l[k] == ((head + lit) + m)[k]);
        assert(((head + lit) + m)[k] == (head + lit)[k]);
    }
    assert forall|j: int| 0 <= j < 18 implies l[12 + j] == lit[j] by {
        assert(l[12 + j] == ((head + lit) + m)[12 + j]);
        assert(((head + lit) + m)[12 + j] == (head + lit)[12 + j]);
    }
    assert forall|j: int| 0 <= j < m.len() implies l[30 + j] == m[j] by {
        assert(l[30 + j] == ((head + lit) + m)[30 + j]);
    }
    assert(l[30 + m.len() as int] == '\"' && l[31 + m.len() as int] == ';');
    // the rendered line is already trimmed
    assert(l[0] == 'e' && !crate::text::is_space(l[0]));
    assert(!crate::text::is_space(l[l.len() - 1]));
    crate::text::lemma_trim_identity(l);
    // it starts with `export` and holds `export type`
    assert(crate::text::match_at(l, 0, "export"@)) by {
        assert(l.subrange(0, 6) =~= "export"@);
    }
    assert(crate::text::contains_seq(l, "export type"@)) by {
        assert(l.subrange(0, 11) =~= "export type"@);
        assert(crate::text::match_at(l, 0, "export type"@));
    }
    // the opening walk: `export `, `type `, then the brace
    assert(crate::text::is_space(l[6]) && !crate::text::is_space(l[7]));
    assert(crate::text::skip_spaces(l, 7) == 7);
    assert(crate::text::skip_spaces(l, 6) == 7);
    assert(crate::text::match_at(l, 7, "type"@)) by {
        assert(l.subrange(7, 11) =~= "type"@);
    }
    assert(crate::text::is_space(l[11]) && !crate::text::is_space(l[12]));
    assert(crate::text::skip_spaces(l, 12) == 12);
    assert(crate::text::skip_spaces(l, 11) == 12);
    assert(crate::parse::match_prefix(l) == Some(12int));
    // the default walk: brace, `default`, closing brace
    assert(l[12] == '{');
    assert(crate::text::is_space(l[13]) && !crate::text::is_space(l[14]));
    assert(crate::text::skip_spaces(l, 14) == 14);
    assert(crate::text::skip_spaces(l, 13) == 14);
    assert(crate::text::match_at(l, 14, "default"@)) by {
        assert(l.subrange(14, 21) =~= "default"@);
    }
    assert(crate::text::is_space(l[21]) && !crate::text::is_space(l[22]));
    assert(crate::text::skip_spaces(l, 22) == 22);
    assert(crate::text::skip_spaces(l, 21) == 22);
    assert(l[22] == '}');
    assert(!crate::text::match_at(l, 22, "as"@)) by {
        if crate::text::match_at(l, 22, "as"@) {
            assert(l.subrange(22, 24)[0] == 'a');
        }
    }
    // the module walk: space, `from`, space, quote, module, quote
    assert(crate::text::is_space(l[23]) && !crate::text::is_space(l[24]));
    assert(crate::text::skip_spaces(l, 24) == 24);
    assert(crate::text::skip_spaces(l, 23) == 24);
    assert(crate::text::match_at(l, 24, "from"@)) by {
        assert(l.subrange(24, 28) =~= "from"@);
    }
    assert(crate::text::is_space(l[28]) && !crate::text::is_space(l[29]));
    assert(crate::text::skip_spaces(l, 29) == 29);
    assert(crate::text::skip_spaces(l, 28) == 29);
    assert(crate::text::is_quote(l[29]));
    assert forall|k: int| 30 <= k < 30 + m.len() implies !crate::text::is_quote(l[k]) by {
        assert(l[k] == m[k - 30]);
    }
    crate::text::lemma_find_quote_at(l, 30, 30 + m.len() as int);
    assert(l.subrange(30, 30 + m.len() as int) =~= m);
    assert(crate::parse::match_from_module(l, 23) == Some(m));
    assert(crate::parse::match_default(l) == Some(("default"@, m)));
    assert(crate::parse::parse_line_records(l, num) =~= seq![
        ExportData {
            specifier: r.specifier,
            source: r.source,
            export_type: ExportKind::Default,
            is_type_export: true,
            line: crate::parse::sat_u32(num),
        },
    ]);
}

/// Law (the record-level core of pipeline idempotence): for every
/// configuration, normalizing a record list twice gives exactly what
/// normalizing it once gives.
pub proof fn lemma_normalize_idempotent(s: Seq<ExportData>, opts: BarrelLoaderOptions)
    ensures
        normalized_records(normalized_records(s, opts), opts) == normalized_records(s, opts),
{
    if opts.dedupe_on() {
        lemma_dedupe_stable_filter(s);
        let d = dedupe_spec(s);
        if opts.sort_on() {
            lemma_sort_preserves_key_distinct(d);
            let t = sort_spec(d);
            lemma_dedupe_of_distinct(t);
            lemma_sort_total_order(d);
            lemma_sort_of_sorted(t);
        } else {
            lemma_dedupe_idempotent(s);
        }
    } else {
        if opts.sort_on() {
            lemma_sort_idempotent(s);
        }
    }
}

} // verus!

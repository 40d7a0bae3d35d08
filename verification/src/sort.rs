//! The sorter: a canonical total order over export records, primary key the
//! source module path, secondary key the specifier, both compared
//! lexicographically by code point.
//!
//! The executable sort is a stable insertion sort: records whose two keys
//! tie keep their relative order, which pins the output down to a single
//! sequence and makes sorting idempotent.

use vstd::prelude::*;
use vstd::string::StrSliceExecFns;

use crate::types::ExportData;
use crate::types::ExportInfo;

verus! {

/// Strict lexicographic order on character sequences, by code point.
pub open spec fn lex_lt(a: Seq<char>, b: Seq<char>) -> bool
    decreases a.len(),
{
    if b.len() == 0 {
        false
    } else if a.len() == 0 {
        true
    } else if a[0] == b[0] {
        lex_lt(a.drop_first(), b.drop_first())
    } else {
        (a[0] as u32) < (b[0] as u32)
    }
}

/// The sort order: by source module first, then by specifier; reflexive.
pub open spec fn key_le(a: ExportData, b: ExportData) -> bool {
    lex_lt(a.source, b.source) || (a.source == b.source && (a.specifier == b.specifier || lex_lt(
        a.specifier,
        b.specifier,
    )))
}

/// `lex_lt` is a strict total order: exactly one of `a < b`, `b < a`,
/// `a == b` holds.
pub proof fn lemma_lex_lt_total(a: Seq<char>, b: Seq<char>)
    ensures
        lex_lt(a, b) || lex_lt(b, a) || a == b,
        lex_lt(a, b) ==> !lex_lt(b, a),
        lex_lt(a, b) ==> a != b,
    decreases a.len(),
{
    if a.len() > 0 && b.len() > 0 && a[0] == b[0] {
        lemma_lex_lt_total(a.drop_first(), b.drop_first());
        if a.drop_first() == b.drop_first() {
            assert forall|i: int| 0 <= i < a.len() implies a[i] == b[i] by {
                if i >= 1 {
                    assert(a.drop_first()[i - 1] == a[i]);
                    assert(b.drop_first()[i - 1] == b[i]);
                }
            }
            assert(a =~= b);
        }
    } else if a.len() > 0 && b.len() > 0 {
        vstd::utf8::char_u32_cast(a[0], a[0] as u32);
        vstd::utf8::char_u32_cast(b[0], b[0] as u32);
        assert((a[0] as u32) != (b[0] as u32));
    } else if a.len() == 0 && b.len() == 0 {
        assert(a =~= b);
    }
}

/// `lex_lt` is transitive.
pub proof fn lemma_lex_lt_trans(a: Seq<char>, b: Seq<char>, c: Seq<char>)
    requires
        lex_lt(a, b),
        lex_lt(b, c),
    ensures
        lex_lt(a, c),
    decreases a.len(),
{
    if a.len() > 0 && b.len() > 0 && c.len() > 0 && a[0] == b[0] && b[0] == c[0] {
        lemma_lex_lt_trans(a.drop_first(), b.drop_first(), c.drop_first());
    }
}

/// `key_le` is a total order on records, up to equality of the two keys.
pub proof fn lemma_key_le_total(a: ExportData, b: ExportData)
    ensures
        key_le(a, b) || key_le(b, a),
        key_le(a, a),
        (key_le(a, b) && key_le(b, a)) ==> (a.source == b.source && a.specifier == b.specifier),
{
    lemma_lex_lt_total(a.source, b.source);
    lemma_lex_lt_total(a.specifier, b.specifier);
}

/// `key_le` is transitive.
pub proof fn lemma_key_le_trans(a: ExportData, b: ExportData, c: ExportData)
    requires
        key_le(a, b),
        key_le(b, c),
    ensures
        key_le(a, c),
{
    lemma_lex_lt_total(a.source, b.source);
    lemma_lex_lt_total(b.source, c.source);
    lemma_lex_lt_total(a.specifier, b.specifier);
    lemma_lex_lt_total(b.specifier, c.specifier);
    if lex_lt(a.source, b.source) && lex_lt(b.source, c.source) {
        lemma_lex_lt_trans(a.source, b.source, c.source);
    }
    if a.source == c.source && lex_lt(a.specifier, b.specifier) && lex_lt(
        b.specifier,
        c.specifier,
    ) {
        lemma_lex_lt_trans(a.specifier, b.specifier, c.specifier);
    }
}

/// `x` placed into `l` after every element that compares at or below it.
pub open spec fn insert_sorted(x: ExportData, l: Seq<ExportData>) -> Seq<ExportData>
    decreases l.len(),
{
    if l.len() == 0 {
        seq![x]
    } else if key_le(l[0], x) {
        seq![l[0]] + insert_sorted(x, l.drop_first())
    } else {
        seq![x] + l
    }
}

/// Stable insertion sort: elements are inserted in original order, each
/// after its equals, so ties keep their relative order.
pub open spec fn sort_spec(s: Seq<ExportData>) -> Seq<ExportData>
    decreases s.len(),
{
    if s.len() == 0 {
        s
    } else {
        insert_sorted(s.last(), sort_spec(s.drop_last()))
    }
}

/// Inserting at the first position whose element exceeds `x` is what
/// `insert_sorted` does.
pub proof fn lemma_insert_sorted_at(x: ExportData, l: Seq<ExportData>, p: int)
    requires
        0 <= p <= l.len(),
        forall|j: int| 0 <= j < p ==> key_le(#[trigger] l[j], x),
        p < l.len() ==> !key_le(l[p], x),
    ensures
        insert_sorted(x, l) == l.subrange(0, p) + seq![x] + l.subrange(p, l.len() as int),
    decreases l.len(),
{
    if l.len() == 0 {
        assert(insert_sorted(x, l) =~= l.subrange(0, p) + seq![x] + l.subrange(
            p,
            l.len() as int,
        ));
    } else if p == 0 {
        assert(insert_sorted(x, l) =~= l.subrange(0, 0) + seq![x] + l.subrange(
            0,
            l.len() as int,
        ));
    } else {
        let r = l.drop_first();
        assert(forall|j: int| 0 <= j < p - 1 ==> key_le(#[trigger] r[j], x)) by {
            assert(forall|j: int| 0 <= j < p - 1 ==> r[j] == l[j + 1]);
        }
        lemma_insert_sorted_at(x, r, p - 1);
        assert(insert_sorted(x, l) =~= l.subrange(0, p) + seq![x] + l.subrange(
            p,
            l.len() as int,
        )) by {
            assert(r.subrange(0, p - 1) =~= l.subrange(1, p));
            assert(r.subrange(p - 1, r.len() as int) =~= l.subrange(p, l.len() as int));
        }
    }
}

/// Compare two strings lexicographically by code point.
pub fn lex_lt_exec(a: &str, b: &str) -> (r: bool)
    ensures
        r == lex_lt(a@, b@),
{
    let an = a.unicode_len();
    let bn = b.unicode_len();
    let mut i: usize = 0;
    proof {
        assert(a@.skip(0) =~= a@);
        assert(b@.skip(0) =~= b@);
    }
    loop
        invariant
            0 <= i,
            i <= an,
            i <= bn,
            an == a@.len(),
            bn == b@.len(),
            lex_lt(a@, b@) == lex_lt(a@.skip(i as int), b@.skip(i as int)),
        decreases an - i,
    {
        proof {
            let ra = a@.skip(i as int);
            let rb = b@.skip(i as int);
            if i < an && i < bn && a@[i as int] == b@[i as int] {
                assert(ra[0] == a@[i as int] && rb[0] == b@[i as int]);
                assert(ra.drop_first() =~= a@.skip(i + 1));
                assert(rb.drop_first() =~= b@.skip(i + 1));
            }
        }
        if i >= an || i >= bn {
            return i < bn;
        }
        let ca = a.get_char(i);
        let cb = b.get_char(i);
        if ca != cb {
            proof {
                assert(a@.skip(i as int)[0] == ca && b@.skip(i as int)[0] == cb);
            }
            return (ca as u32) < (cb as u32);
        }
        i = i + 1;
    }
}

/// Compare two records by `(source, specifier)`, at-or-below.
pub fn key_le_exec(a: &ExportInfo, b: &ExportInfo) -> (r: bool)
    ensures
        r == key_le(a@, b@),
{
    if lex_lt_exec(a.source.as_str(), b.source.as_str()) {
        return true;
    }
    if !crate::text::str_eq_exec(a.source.as_str(), b.source.as_str()) {
        return false;
    }
    crate::text::str_eq_exec(a.specifier.as_str(), b.specifier.as_str()) || lex_lt_exec(
        a.specifier.as_str(),
        b.specifier.as_str(),
    )
}

/// Sort records by source module, then by specifier; ties keep their
/// relative order (stable).
pub fn sort_exports(exports: Vec<ExportInfo>) -> (r: Vec<ExportInfo>)
    ensures
        r.deep_view() == sort_spec(exports.deep_view()),
{
    let ghost s = exports.deep_view();
    let mut out: Vec<ExportInfo> = Vec::new();
    proof {
        assert(s.take(0) =~= Seq::<ExportData>::empty());
        assert(out.deep_view() =~= sort_spec(s.take(0)));
    }
    let mut idx: usize = 0;
    while idx < exports.len()
        invariant
            0 <= idx <= exports.len(),
            s == exports.deep_view(),
            s.len() == exports.len(),
            out.deep_view() == sort_spec(s.take(idx as int)),
        decreases exports.len() - idx,
    {
        let x = exports[idx].clone();
        let mut p: usize = 0;
        while p < out.len() && key_le_exec(&out[p], &x)
            invariant
                0 <= p <= out.len(),
                x@ == s[idx as int],
                idx < exports.len(),
                s == exports.deep_view(),
                s.len() == exports.len(),
                out.deep_view() == sort_spec(s.take(idx as int)),
                forall|j: int| 0 <= j < p ==> key_le(#[trigger] out.deep_view()[j], x@),
            decreases out.len() - p,
        {
            p = p + 1;
        }
        let ghost old_out = out.deep_view();
        out.insert(p, x);
        proof {
            lemma_insert_sorted_at(s[idx as int], old_out, p as int);
            assert(out.deep_view() =~= old_out.subrange(0, p as int) + seq![s[idx as int]]
                + old_out.subrange(p as int, old_out.len() as int));
            assert(s.take(idx + 1).drop_last() =~= s.take(idx as int));
            assert(s.take(idx + 1).last() == s[idx as int]);
            assert(out.deep_view() == sort_spec(s.take(idx + 1)));
        }
        idx = idx + 1;
    }
    proof {
        assert(s.take(idx as int) =~= s);
    }
    out
}

} // verus!

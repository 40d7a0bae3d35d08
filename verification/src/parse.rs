//! The line parser: recognizes the three re-export statement shapes in a
//! single source line and yields structured export records.
//!
//! A candidate line is trimmed and must begin with `export`. Three mutually
//! exclusive patterns are then tried, each anchored at the start of the
//! trimmed line:
//!
//! * default form: `export [type] { default [as <alias>] } from "<module>"`,
//! * named form: `export [type] { <specifier list> } from "<module>"`,
//! * namespace form: `export [type] * [as <alias>] from "<module>"`.
//!
//! The default form is carved out of the named form — a brace list holding
//! exactly the token `default`, optionally aliased, is a default re-export —
//! so the default form is decided first. A named match whose specifier list
//! trims down to nothing falls through to the namespace form. A line that
//! matches no pattern contributes zero records: that is deliberate lossy
//! normalization, not an error.
//!
//! The module path must sit between two quote characters (double or single,
//! not necessarily matching) and may not be empty; anything after the
//! closing quote is ignored. The type-only flag is set when the trimmed
//! line holds the substring `export type` anywhere.

use vstd::prelude::*;
use vstd::string::StrSliceExecFns;

use crate::text::contains_exec;
use crate::text::contains_seq;
use crate::text::find_from;
use crate::text::find_quote;
use crate::text::find_quote_exec;
use crate::text::find_from_exec;
use crate::text::is_quote;
use crate::text::is_space;
use crate::text::is_space_exec;
use crate::text::lemma_find_from_bounds;
use crate::text::lemma_find_from_suffix;
use crate::text::match_at;
use crate::text::match_at_exec;
use crate::text::scan_word;
use crate::text::scan_word_exec;
use crate::text::skip_spaces;
use crate::text::skip_spaces_exec;
use crate::text::split_lines;
use crate::text::split_lines_exec;
use crate::text::trim_exec;
use crate::text::trim_spec;
use crate::types::ExportData;
use crate::types::ExportInfo;
use crate::types::ExportKind;

verus! {

/// `n` clamped into `u32`, the type of a record's line number.
pub open spec fn sat_u32(n: int) -> u32 {
    if 0 <= n <= u32::MAX {
        n as u32
    } else if n > u32::MAX {
        u32::MAX
    } else {
        0
    }
}

/// Position just past `export` (and an optional `type`), each followed by
/// at least one space, with further spaces skipped; `None` when the line
/// does not open that way.
pub open spec fn match_prefix(t: Seq<char>) -> Option<int> {
    let k = "export"@.len() as int;
    if !(match_at(t, 0, "export"@) && k < t.len() && is_space(t[k])) {
        None
    } else {
        let i = skip_spaces(t, k);
        let tk = "type"@.len() as int;
        if match_at(t, i, "type"@) && i + tk < t.len() && is_space(t[i + tk]) {
            Some(skip_spaces(t, i + tk))
        } else {
            Some(i)
        }
    }
}

/// The module path of a `from "<module>"` clause anchored at `i`: at least
/// one space, `from`, at least one space, a quote, one or more non-quote
/// characters, and a closing quote.
pub open spec fn match_from_module(t: Seq<char>, i: int) -> Option<Seq<char>> {
    if !(0 <= i && i < t.len() && is_space(t[i])) {
        None
    } else {
        let k = skip_spaces(t, i);
        if !match_at(t, k, "from"@) {
            None
        } else {
            let f = k + "from"@.len() as int;
            if !(f < t.len() && is_space(t[f])) {
                None
            } else {
                let q = skip_spaces(t, f);
                if !(q < t.len() && is_quote(t[q])) {
                    None
                } else {
                    let e = find_quote(t, q + 1);
                    if e < t.len() && e > q + 1 {
                        Some(t.subrange(q + 1, e))
                    } else {
                        None
                    }
                }
            }
        }
    }
}

/// The named form: the brace-enclosed specifier list (uninterpreted, still
/// comma separated) and the module path.
pub open spec fn match_named(t: Seq<char>) -> Option<(Seq<char>, Seq<char>)> {
    match match_prefix(t) {
        None => None,
        Some(i) => {
            if !(i < t.len() && t[i] == '{') {
                None
            } else {
                let j = find_from(t, i + 1, '}');
                if !(j < t.len() && j > i + 1) {
                    None
                } else {
                    match match_from_module(t, j + 1) {
                        None => None,
                        Some(m) => Some((t.subrange(i + 1, j), m)),
                    }
                }
            }
        },
    }
}

/// The default form: the specifier (the alias, or the literal `default`
/// when no alias is given) and the module path.
pub open spec fn match_default(t: Seq<char>) -> Option<(Seq<char>, Seq<char>)> {
    match match_prefix(t) {
        None => None,
        Some(i) => {
            if !(i < t.len() && t[i] == '{') {
                None
            } else {
                let a = skip_spaces(t, i + 1);
                if !match_at(t, a, "default"@) {
                    None
                } else {
                    let d = a + "default"@.len() as int;
                    let b = skip_spaces(t, d);
                    let asl = "as"@.len() as int;
                    if match_at(t, b, "as"@) && b + asl < t.len() && is_space(t[b + asl]) {
                        let w = skip_spaces(t, b + asl);
                        let we = scan_word(t, w);
                        if we == w {
                            None
                        } else {
                            let z = skip_spaces(t, we);
                            if !(z < t.len() && t[z] == '}') {
                                None
                            } else {
                                match match_from_module(t, z + 1) {
                                    None => None,
                                    Some(m) => Some((t.subrange(w, we), m)),
                                }
                            }
                        }
                    } else {
                        if !(b < t.len() && t[b] == '}') {
                            None
                        } else {
                            match match_from_module(t, b + 1) {
                                None => None,
                                Some(m) => Some(("default"@, m)),
                            }
                        }
                    }
                }
            }
        },
    }
}

/// The namespace form: the specifier (the alias, or the literal `*` when
/// no alias is given) and the module path.
pub open spec fn match_namespace(t: Seq<char>) -> Option<(Seq<char>, Seq<char>)> {
    match match_prefix(t) {
        None => None,
        Some(i) => {
            if !(i < t.len() && t[i] == '*') {
                None
            } else if !(i + 1 < t.len() && is_space(t[i + 1])) {
                None
            } else {
                let a = skip_spaces(t, i + 1);
                let asl = "as"@.len() as int;
                if match_at(t, a, "as"@) && a + asl < t.len() && is_space(t[a + asl]) {
                    let w = skip_spaces(t, a + asl);
                    let we = scan_word(t, w);
                    if we == w {
                        None
                    } else {
                        match match_from_module(t, we) {
                            None => None,
                            Some(m) => Some((t.subrange(w, we), m)),
                        }
                    }
                } else {
                    match match_from_module(t, i + 1) {
                        None => None,
                        Some(m) => Some(("*"@, m)),
                    }
                }
            }
        },
    }
}

fn match_prefix_exec(t: &str) -> (r: Option<usize>)
    ensures
        (r is Some) == (match_prefix(t@) is Some),
        r matches Some(i) ==> match_prefix(t@) == Some(i as int),
{
    let n = t.unicode_len();
    let kw = "export";
    let k = kw.unicode_len();
    if !(match_at_exec(t, 0, kw) && k < n && is_space_exec(t.get_char(k))) {
        return None;
    }
    let i = skip_spaces_exec(t, k);
    let tw = "type";
    let tl = tw.unicode_len();
    if match_at_exec(t, i, tw) && i + tl < n && is_space_exec(t.get_char(i + tl)) {
        Some(skip_spaces_exec(t, i + tl))
    } else {
        Some(i)
    }
}

fn match_from_module_exec(t: &str, i: usize) -> (r: Option<String>)
    requires
        i <= t@.len(),
    ensures
        (r is Some) == (match_from_module(t@, i as int) is Some),
        r matches Some(m) ==> match_from_module(t@, i as int) == Some(m@),
{
    let n = t.unicode_len();
    if !(i < n && is_space_exec(t.get_char(i))) {
        return None;
    }
    let k = skip_spaces_exec(t, i);
    let fw = "from";
    if !match_at_exec(t, k, fw) {
        return None;
    }
    let f = k + fw.unicode_len();
    if !(f < n && is_space_exec(t.get_char(f))) {
        return None;
    }
    let q = skip_spaces_exec(t, f);
    if !(q < n && crate::text::is_quote_exec(t.get_char(q))) {
        return None;
    }
    let e = find_quote_exec(t, q + 1);
    if e < n && e > q + 1 {
        Some(t.substring_char(q + 1, e).to_owned())
    } else {
        None
    }
}

/// Try the named form on the trimmed line; yields the raw brace contents
/// and the module path.
fn match_named_exec(t: &str) -> (r: Option<(String, String)>)
    ensures
        (r is Some) == (match_named(t@) is Some),
        r matches Some(p) ==> match_named(t@) == Some((p.0@, p.1@)),
{
    let n = t.unicode_len();
    let i = match match_prefix_exec(t) {
        None => {
            return None;
        },
        Some(i) => i,
    };
    if !(i < n && t.get_char(i) == '{') {
        return None;
    }
    let j = find_from_exec(t, i + 1, '}');
    if !(j < n && j > i + 1) {
        return None;
    }
    match match_from_module_exec(t, j + 1) {
        None => None,
        Some(m) => Some((t.substring_char(i + 1, j).to_owned(), m)),
    }
}

/// Try the default form on the trimmed line; yields the specifier (alias or
/// the literal `default`) and the module path.
pub fn parse_default_export(t: &str) -> (r: Option<(String, String)>)
    ensures
        (r is Some) == (match_default(t@) is Some),
        r matches Some(p) ==> match_default(t@) == Some((p.0@, p.1@)),
{
    let n = t.unicode_len();
    let i = match match_prefix_exec(t) {
        None => {
            return None;
        },
        Some(i) => i,
    };
    if !(i < n && t.get_char(i) == '{') {
        return None;
    }
    let a = skip_spaces_exec(t, i + 1);
    let dw = "default";
    if !match_at_exec(t, a, dw) {
        return None;
    }
    let d = a + dw.unicode_len();
    let b = skip_spaces_exec(t, d);
    let aw = "as";
    let asl = aw.unicode_len();
    if match_at_exec(t, b, aw) && b + asl < n && is_space_exec(t.get_char(b + asl)) {
        let w = skip_spaces_exec(t, b + asl);
        let we = scan_word_exec(t, w);
        if we == w {
            return None;
        }
        let z = skip_spaces_exec(t, we);
        if !(z < n && t.get_char(z) == '}') {
            return None;
        }
        match match_from_module_exec(t, z + 1) {
            None => None,
            Some(m) => Some((t.substring_char(w, we).to_owned(), m)),
        }
    } else {
        if !(b < n && t.get_char(b) == '}') {
            return None;
        }
        match match_from_module_exec(t, b + 1) {
            None => None,
            Some(m) => Some((dw.to_owned(), m)),
        }
    }
}

/// Try the namespace form on the trimmed line; yields the specifier (alias
/// or the literal `*`) and the module path.
pub fn parse_namespace_export(t: &str) -> (r: Option<(String, String)>)
    ensures
        (r is Some) == (match_namespace(t@) is Some),
        r matches Some(p) ==> match_namespace(t@) == Some((p.0@, p.1@)),
{
    let n = t.unicode_len();
    let i = match match_prefix_exec(t) {
        None => {
            return None;
        },
        Some(i) => i,
    };
    if !(i < n && t.get_char(i) == '*') {
        return None;
    }
    if !(i + 1 < n && is_space_exec(t.get_char(i + 1))) {
        return None;
    }
    let a = skip_spaces_exec(t, i + 1);
    let aw = "as";
    let asl = aw.unicode_len();
    if match_at_exec(t, a, aw) && a + asl < n && is_space_exec(t.get_char(a + asl)) {
        let w = skip_spaces_exec(t, a + asl);
        let we = scan_word_exec(t, w);
        if we == w {
            return None;
        }
        match match_from_module_exec(t, we) {
            None => None,
            Some(m) => Some((t.substring_char(w, we).to_owned(), m)),
        }
    } else {
        match match_from_module_exec(t, i + 1) {
            None => None,
            Some(m) => Some(("*".to_owned(), m)),
        }
    }
}

/// Splits `s` at every `','`; keeps empty segments, so the cleaner below
/// can drop them.
pub open spec fn split_commas(s: Seq<char>) -> Seq<Seq<char>>
    decreases s.len(),
{
    let i = find_from(s, 0, ',');
    if 0 <= i && i < s.len() {
        seq![s.subrange(0, i)] + split_commas(s.subrange(i + 1, s.len() as int))
    } else {
        seq![s]
    }
}

/// Trims each raw segment and drops those that trim down to nothing.
pub open spec fn clean_tokens(parts: Seq<Seq<char>>) -> Seq<Seq<char>>
    decreases parts.len(),
{
    if parts.len() == 0 {
        Seq::empty()
    } else {
        let tk = trim_spec(parts[0]);
        let rest = clean_tokens(parts.drop_first());
        if tk.len() > 0 {
            seq![tk] + rest
        } else {
            rest
        }
    }
}

/// The usable specifier tokens of a named-form brace list.
pub open spec fn named_tokens(content: Seq<char>) -> Seq<Seq<char>> {
    clean_tokens(split_commas(content))
}

/// Comma-splits the brace contents of a named form, trims each token and
/// drops empty ones.
pub fn named_tokens_exec(content: &str) -> (r: Vec<String>)
    ensures
        r.deep_view() == named_tokens(content@),
{
    let n = content.unicode_len();
    let mut out: Vec<String> = Vec::new();
    let mut pos: usize = 0;
    proof {
        assert(content@.subrange(0, n as int) =~= content@);
        assert(out.deep_view() =~= Seq::<Seq<char>>::empty());
    }
    loop
        invariant
            0 <= pos <= n,
            n == content@.len(),
            named_tokens(content@) == out.deep_view() + clean_tokens(
                split_commas(content@.subrange(pos as int, n as int)),
            ),
        ensures
            out.deep_view() == named_tokens(content@),
        decreases n - pos,
    {
        let ghost rem = content@.subrange(pos as int, n as int);
        let i = find_from_exec(content, pos, ',');
        proof {
            lemma_find_from_bounds(content@, pos as int, ',');
            lemma_find_from_suffix(content@, pos as int, pos as int, ',');
        }
        let seg_end = if i == n { n } else { i };
        let tok = trim_exec(content.substring_char(pos, seg_end));
        let ghost old_out = out.deep_view();
        let keep = tok.unicode_len() > 0;
        let tok_owned = if keep {
            Some(tok.to_owned())
        } else {
            None
        };
        if let Some(tk) = tok_owned {
            out.push(tk);
            proof {
                assert(out.deep_view() =~= old_out.push(tok@));
            }
        }
        if i == n {
            proof {
                assert(split_commas(rem) =~= seq![rem]);
                assert(rem =~= content@.subrange(pos as int, seg_end as int));
                assert(seq![rem].drop_first() =~= Seq::<Seq<char>>::empty());
                assert(clean_tokens(seq![rem].drop_first()) == Seq::<Seq<char>>::empty());
                if keep {
                    assert(clean_tokens(seq![rem]) =~= seq![trim_spec(rem)]);
                    assert(out.deep_view() =~= old_out + clean_tokens(seq![rem]));
                } else {
                    assert(clean_tokens(seq![rem]) =~= Seq::<Seq<char>>::empty());
                    assert(out.deep_view() =~= old_out + clean_tokens(seq![rem]));
                }
            }
            return out;
        }
        proof {
            let ri = (i - pos) as int;
            assert(find_from(rem, 0, ',') == ri);
            assert(rem.subrange(0, ri) =~= content@.subrange(pos as int, i as int));
            assert(rem.subrange(ri + 1, rem.len() as int) =~= content@.subrange(
                i + 1,
                n as int,
            ));
            let parts = split_commas(rem);
            assert(parts == seq![rem.subrange(0, ri)] + split_commas(
                content@.subrange(i + 1, n as int),
            ));
            assert(parts.len() > 0);
            assert(parts[0] == rem.subrange(0, ri));
            assert(parts.drop_first() =~= split_commas(content@.subrange(i + 1, n as int)));
            assert(trim_spec(parts[0]) == tok@);
            if keep {
                assert(clean_tokens(parts) =~= seq![tok@] + clean_tokens(parts.drop_first()));
                assert(out.deep_view() + clean_tokens(parts.drop_first()) =~= old_out
                    + clean_tokens(parts));
            } else {
                assert(clean_tokens(parts) =~= clean_tokens(parts.drop_first()));
            }
        }
        pos = i + 1;
    }
}

/// The specifier/module pairs a named-form match contributes.
pub open spec fn named_pairs(content: Seq<char>, m: Seq<char>) -> Seq<(Seq<char>, Seq<char>)> {
    named_tokens(content).map_values(|tk: Seq<char>| (tk, m))
}

/// Try the named form on the trimmed line; yields one specifier/module
/// pair per usable token. A match whose token list is empty counts as no
/// match, so the other forms get their turn.
pub fn parse_named_export(t: &str) -> (r: Option<Vec<(String, String)>>)
    ensures
        (r is Some) == (match_named(t@) is Some && named_tokens(match_named(t@)->Some_0.0).len()
            > 0),
        r matches Some(ps) ==> ps.deep_view() == named_pairs(
            match_named(t@)->Some_0.0,
            match_named(t@)->Some_0.1,
        ),
{
    let cm = match match_named_exec(t) {
        None => {
            return None;
        },
        Some(cm) => cm,
    };
    let toks = named_tokens_exec(cm.0.as_str());
    if toks.len() == 0 {
        return None;
    }
    let ghost want = named_pairs(cm.0@, cm.1@);
    let mut ps: Vec<(String, String)> = Vec::new();
    let mut k: usize = 0;
    while k < toks.len()
        invariant
            0 <= k <= toks.len(),
            toks.deep_view().len() == toks.len(),
            toks.deep_view() == named_tokens(cm.0@),
            want == named_pairs(cm.0@, cm.1@),
            ps.deep_view().len() == k,
            forall|j: int| 0 <= j < k ==> ps.deep_view()[j] == want[j],
        decreases toks.len() - k,
    {
        ps.push((toks[k].clone(), cm.1.clone()));
        k = k + 1;
    }
    proof {
        assert(ps.deep_view() =~= want);
    }
    Some(ps)
}

/// The records a named-form match contributes: one per usable token, all
/// sharing the module, flag and line number.
pub open spec fn named_records(toks: Seq<Seq<char>>, m: Seq<char>, ty: bool, n: u32) -> Seq<
    ExportData,
> {
    toks.map_values(
        |tk: Seq<char>|
            ExportData {
                specifier: tk,
                source: m,
                export_type: ExportKind::Named,
                is_type_export: ty,
                line: n,
            },
    )
}

/// The records one source line contributes, `num` being its 1-based index.
///
/// A line whose trimmed form does not begin with `export` contributes
/// nothing. Otherwise the default form wins first; a named match whose
/// token list is empty falls through to the namespace form; a line that
/// matches nothing contributes nothing.
pub open spec fn parse_line_records(line: Seq<char>, num: int) -> Seq<ExportData> {
    let t = trim_spec(line);
    if !match_at(t, 0, "export"@) {
        Seq::empty()
    } else {
        let ty = contains_seq(t, "export type"@);
        let n = sat_u32(num);
        match match_default(t) {
            Some((sp, m)) => seq![
                ExportData {
                    specifier: sp,
                    source: m,
                    export_type: ExportKind::Default,
                    is_type_export: ty,
                    line: n,
                },
            ],
            None => {
                let nm = match_named(t);
                if nm is Some && named_tokens(nm->Some_0.0).len() > 0 {
                    named_records(named_tokens(nm->Some_0.0), nm->Some_0.1, ty, n)
                } else {
                    match match_namespace(t) {
                        Some((sp, m)) => seq![
                            ExportData {
                                specifier: sp,
                                source: m,
                                export_type: ExportKind::Namespace,
                                is_type_export: ty,
                                line: n,
                            },
                        ],
                        None => Seq::empty(),
                    }
                }
            },
        }
    }
}

/// Build one export record; the line number saturates into `u32`.
pub fn create_export(
    specifier: String,
    source: String,
    export_type: ExportKind,
    is_type_export: bool,
    line_number: usize,
) -> (r: ExportInfo)
    ensures
        r@ == (ExportData {
            specifier: specifier@,
            source: source@,
            export_type: export_type,
            is_type_export: is_type_export,
            line: sat_u32(line_number as int),
        }),
{
    let line: u32 = if line_number <= u32::MAX as usize {
        line_number as u32
    } else {
        u32::MAX
    };
    ExportInfo { specifier, source, export_type, is_type_export, line }
}

/// Parse one source line into its export records; `line_number` is the
/// 1-based index used for diagnostics.
pub fn parse_line(line: &str, line_number: usize) -> (r: Vec<ExportInfo>)
    ensures
        r.deep_view() == parse_line_records(line@, line_number as int),
{
    let trimmed = trim_exec(line);
    let mut out: Vec<ExportInfo> = Vec::new();
    if !match_at_exec(trimmed, 0, "export") {
        proof {
            assert(out.deep_view() =~= parse_line_records(line@, line_number as int));
        }
        return out;
    }
    let is_type = contains_exec(trimmed, "export type");
    if let Some((sp, m)) = parse_default_export(trimmed) {
        out.push(create_export(sp, m, ExportKind::Default, is_type, line_number));
        proof {
            assert(out.deep_view() =~= parse_line_records(line@, line_number as int));
        }
        return out;
    }
    let named = match_named_exec(trimmed);
    if let Some((content, m)) = named {
        let toks = named_tokens_exec(content.as_str());
        if toks.len() > 0 {
            let ghost want = parse_line_records(line@, line_number as int);
            let mut k: usize = 0;
            while k < toks.len()
                invariant
                    0 <= k <= toks.len(),
                    toks.deep_view().len() == toks.len(),
                    want == named_records(
                        toks.deep_view(),
                        m@,
                        is_type,
                        sat_u32(line_number as int),
                    ),
                    out.deep_view().len() == k,
                    forall|j: int| 0 <= j < k ==> out.deep_view()[j] == want[j],
                decreases toks.len() - k,
            {
                let sp = toks[k].clone();
                out.push(create_export(sp, m.clone(), ExportKind::Named, is_type, line_number));
                k = k + 1;
            }
            proof {
                assert(out.deep_view() =~= want);
            }
            return out;
        }
    }
    if let Some((sp, m)) = parse_namespace_export(trimmed) {
        out.push(create_export(sp, m, ExportKind::Namespace, is_type, line_number));
        proof {
            assert(out.deep_view() =~= parse_line_records(line@, line_number as int));
        }
        return out;
    }
    proof {
        assert(out.deep_view() =~= parse_line_records(line@, line_number as int));
    }
    out
}

/// The records of all lines from index `i` on, each line numbered `i + 1`.
pub open spec fn parse_from(ls: Seq<Seq<char>>, i: int) -> Seq<ExportData>
    decreases ls.len() - i,
{
    if i < 0 || i >= ls.len() {
        Seq::empty()
    } else {
        parse_line_records(ls[i], i + 1) + parse_from(ls, i + 1)
    }
}

/// All export records of a source text, line by line, in order.
pub open spec fn parse_exports_spec(source: Seq<char>) -> Seq<ExportData> {
    parse_from(split_lines(source), 0)
}

/// Parse every line of `source` into export records, in line order. Lines
/// that match no export shape contribute nothing; parsing never fails.
pub fn parse_exports(source: &str) -> (r: Vec<ExportInfo>)
    ensures
        r.deep_view() == parse_exports_spec(source@),
{
    let lines = split_lines_exec(source);
    let ghost ls = lines.deep_view();
    let mut out: Vec<ExportInfo> = Vec::new();
    proof {
        assert(out.deep_view() + parse_from(ls, 0) =~= parse_from(ls, 0));
    }
    let mut idx: usize = 0;
    while idx < lines.len()
        invariant
            0 <= idx <= lines.len(),
            ls == lines.deep_view(),
            ls.len() == lines.len(),
            parse_exports_spec(source@) == out.deep_view() + parse_from(ls, idx as int),
        decreases lines.len() - idx,
    {
        let mut recs = parse_line(lines[idx].as_str(), idx + 1);
        let ghost old_out = out.deep_view();
        let ghost rv = recs.deep_view();
        out.append(&mut recs);
        proof {
            assert(out.deep_view() =~= old_out + rv);
            assert(parse_from(ls, idx as int) == parse_line_records(ls[idx as int], idx + 1)
                + parse_from(ls, idx + 1));
            assert(old_out + parse_from(ls, idx as int) =~= out.deep_view() + parse_from(
                ls,
                idx + 1,
            ));
        }
        idx = idx + 1;
    }
    proof {
        assert(parse_from(ls, idx as int) =~= Seq::<ExportData>::empty());
        assert(out.deep_view() + parse_from(ls, idx as int) =~= out.deep_view());
    }
    out
}

} // verus!

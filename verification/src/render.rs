//! The reconstructor: regenerates normalized export statements from grouped
//! records and concatenates them after the preserved leading content of the
//! original text.
//!
//! For each source module the value pass comes before the type pass, and
//! within a pass the statement order is fixed: namespace statements, then
//! default statements, then at most one combined named statement. Two
//! inputs yielding the same records per group therefore regenerate
//! byte-identical statements.

use vstd::prelude::*;
use vstd::string::StrSliceExecFns;
use vstd::string::StringExecFns;

use crate::group::SourceGroupData;
use crate::group::group_exports_by_source;
use crate::group::group_spec;
use crate::text::join_lines;
use crate::text::join_lines_exec;
use crate::text::match_at;
use crate::text::match_at_exec;
use crate::text::split_lines;
use crate::text::split_lines_exec;
use crate::text::trim_exec;
use crate::text::trim_spec;
use crate::types::ExportData;
use crate::types::ExportInfo;
use crate::types::ExportKind;

verus! {

/// The statement opening: `export ` or `export type `.
pub open spec fn render_head(ty: bool) -> Seq<char> {
    if ty {
        "export type "@
    } else {
        "export "@
    }
}

/// One namespace statement: `export [type] * [as <alias>] from "<module>";`.
pub open spec fn render_namespace_line(r: ExportData, ty: bool) -> Seq<char> {
    if r.specifier == "*"@ {
        render_head(ty) + "* from \""@ + r.source + "\";"@
    } else {
        render_head(ty) + "* as "@ + r.specifier + " from \""@ + r.source + "\";"@
    }
}

/// One default statement: `export [type] { default [as <alias>] } from
/// "<module>";`.
pub open spec fn render_default_line(r: ExportData, ty: bool) -> Seq<char> {
    if r.specifier == "default"@ {
        render_head(ty) + "{ default } from \""@ + r.source + "\";"@
    } else {
        render_head(ty) + "{ default as "@ + r.specifier + " } from \""@ + r.source + "\";"@
    }
}

/// The specifiers joined with `", "`.
pub open spec fn comma_join(toks: Seq<Seq<char>>) -> Seq<char>
    decreases toks.len(),
{
    if toks.len() == 0 {
        Seq::empty()
    } else if toks.len() == 1 {
        toks[0]
    } else {
        toks[0] + ", "@ + comma_join(toks.drop_first())
    }
}

/// The one combined named statement of a group:
/// `export [type] { <s1>, <s2>, ... } from "<module>";`.
pub open spec fn render_named_line(specs: Seq<Seq<char>>, m: Seq<char>, ty: bool) -> Seq<char> {
    render_head(ty) + "{ "@ + comma_join(specs) + " } from \""@ + m + "\";"@
}

/// Membership test for one statement shape.
pub open spec fn kind_pred(k: ExportKind) -> spec_fn(ExportData) -> bool {
    |r: ExportData| r.export_type == k
}

/// The records of `recs` with statement shape `k`, in order.
pub open spec fn of_kind(recs: Seq<ExportData>, k: ExportKind) -> Seq<ExportData> {
    recs.filter(kind_pred(k))
}

/// The specifiers of `recs`, in order.
pub open spec fn specifiers_of(recs: Seq<ExportData>) -> Seq<Seq<char>> {
    recs.map_values(|r: ExportData| r.specifier)
}

/// The statement lines of one pass over one group's records: namespace
/// statements, then default statements, then at most one combined named
/// statement.
pub open spec fn render_pass(recs: Seq<ExportData>, m: Seq<char>, ty: bool) -> Seq<Seq<char>> {
    let ns = of_kind(recs, ExportKind::Namespace).map_values(
        |r: ExportData| render_namespace_line(r, ty),
    );
    let df = of_kind(recs, ExportKind::Default).map_values(
        |r: ExportData| render_default_line(r, ty),
    );
    let nm = of_kind(recs, ExportKind::Named);
    ns + df + (if nm.len() > 0 {
        seq![render_named_line(specifiers_of(nm), m, ty)]
    } else {
        Seq::<Seq<char>>::empty()
    })
}

/// The statement lines of one group: the value pass, then the type pass.
pub open spec fn render_group(g: SourceGroupData) -> Seq<Seq<char>> {
    render_pass(g.value_exports, g.source, false) + render_pass(g.type_exports, g.source, true)
}

/// The statement lines of all groups, in group order.
pub open spec fn render_groups(gs: Seq<SourceGroupData>) -> Seq<Seq<char>>
    decreases gs.len(),
{
    if gs.len() == 0 {
        Seq::empty()
    } else {
        render_groups(gs.drop_last()) + render_group(gs.last())
    }
}

/// The leading lines kept from the original text: everything before the
/// first line whose trimmed form starts with `export`, minus blank lines
/// and lines starting with `//`.
pub open spec fn kept_prefix(ls: Seq<Seq<char>>) -> Seq<Seq<char>>
    decreases ls.len(),
{
    if ls.len() == 0 {
        Seq::empty()
    } else {
        let t = trim_spec(ls[0]);
        if match_at(t, 0, "export"@) {
            Seq::empty()
        } else {
            let keep: Seq<Seq<char>> = if t.len() > 0 && !match_at(t, 0, "//"@) {
                seq![ls[0]]
            } else {
                Seq::empty()
            };
            keep + kept_prefix(ls.drop_first())
        }
    }
}

/// The reconstructed text: unchanged when there are no records; otherwise
/// the kept prefix lines, the regenerated statement lines, and one
/// trailing empty line, joined with newlines.
pub open spec fn reconstruct_spec(orig: Seq<char>, recs: Seq<ExportData>) -> Seq<char> {
    if recs.len() == 0 {
        orig
    } else {
        let lines = kept_prefix(split_lines(orig)) + render_groups(group_spec(recs));
        if lines.len() > 0 {
            join_lines(lines.push(Seq::<char>::empty()))
        } else {
            join_lines(lines)
        }
    }
}

fn render_namespace_line_exec(r: &ExportInfo, ty: bool) -> (l: String)
    ensures
        l@ == render_namespace_line(r@, ty),
{
    let mut l = String::new();
    if ty {
        l.append("export type ");
    } else {
        l.append("export ");
    }
    if crate::text::str_eq_exec(r.specifier.as_str(), "*") {
        l.append("* from \"");
    } else {
        l.append("* as ");
        l.append(r.specifier.as_str());
        l.append(" from \"");
    }
    l.append(r.source.as_str());
    l.append("\";");
    proof {
        assert(l@ =~= render_namespace_line(r@, ty));
    }
    l
}

fn render_default_line_exec(r: &ExportInfo, ty: bool) -> (l: String)
    ensures
        l@ == render_default_line(r@, ty),
{
    let mut l = String::new();
    if ty {
        l.append("export type ");
    } else {
        l.append("export ");
    }
    if crate::text::str_eq_exec(r.specifier.as_str(), "default") {
        l.append("{ default } from \"");
    } else {
        l.append("{ default as ");
        l.append(r.specifier.as_str());
        l.append(" } from \"");
    }
    l.append(r.source.as_str());
    l.append("\";");
    proof {
        assert(l@ =~= render_default_line(r@, ty));
    }
    l
}

/// `comma_join` of one more token appends a separator and the token.
proof fn lemma_comma_join_push(toks: Seq<Seq<char>>, tk: Seq<char>)
    ensures
        toks.len() == 0 ==> comma_join(toks.push(tk)) == tk,
        toks.len() > 0 ==> comma_join(toks.push(tk)) == comma_join(toks) + ", "@ + tk,
    decreases toks.len(),
{
    if toks.len() == 0 {
        assert(toks.push(tk)[0] =~= tk);
    } else if toks.len() == 1 {
        assert(toks.push(tk).drop_first() =~= seq![tk]);
        assert(toks.push(tk)[0] == toks[0]);
        assert(comma_join(seq![tk]) == tk);
    } else {
        lemma_comma_join_push(toks.drop_first(), tk);
        assert(toks.push(tk).drop_first() =~= toks.drop_first().push(tk));
        assert(comma_join(toks) + ", "@ + tk =~= toks[0] + ", "@ + (comma_join(
            toks.drop_first(),
        ) + ", "@ + tk));
    }
}

fn comma_join_exec(toks: &Vec<String>) -> (r: String)
    ensures
        r@ == comma_join(toks.deep_view()),
{
    let mut res = String::new();
    let mut k: usize = 0;
    proof {
        assert(toks.deep_view().take(0) =~= Seq::<Seq<char>>::empty());
    }
    while k < toks.len()
        invariant
            0 <= k <= toks.len(),
            toks.deep_view().len() == toks.len(),
            res@ == comma_join(toks.deep_view().take(k as int)),
        decreases toks.len() - k,
    {
        if k > 0 {
            res.append(", ");
        }
        res.append(toks[k].as_str());
        proof {
            lemma_comma_join_push(toks.deep_view().take(k as int), toks.deep_view()[k as int]);
            assert(toks.deep_view().take(k + 1) =~= toks.deep_view().take(k as int).push(
                toks.deep_view()[k as int]));
        }
        k = k + 1;
    }
    proof {
        assert(toks.deep_view().take(toks.len() as int) =~= toks.deep_view());
    }
    res
}

/// One pass of statement generation over one group's records, with the
/// given type-only flag deciding the statement opening.
#[verifier::loop_isolation(false)]
fn generate_pass(exports: &Vec<ExportInfo>, source: &str, ty: bool) -> (r: Vec<String>)
    ensures
        r.deep_view() == render_pass(exports.deep_view(), source@, ty),
{
    broadcast use vstd::prelude::Seq::lemma_filter_push;

    let ghost s = exports.deep_view();
    let ghost ns_lines = of_kind(s, ExportKind::Namespace).map_values(
        |r: ExportData| render_namespace_line(r, ty),
    );
    let ghost df_lines = of_kind(s, ExportKind::Default).map_values(
        |r: ExportData| render_default_line(r, ty),
    );
    let mut lines: Vec<String> = Vec::new();
    proof {
        assert(s.take(0) =~= Seq::<ExportData>::empty());
        assert(of_kind(s.take(0), ExportKind::Namespace).len() == 0) by {
            s.take(0).lemma_filter_len(kind_pred(ExportKind::Namespace));
        }
        assert(lines.deep_view() =~= of_kind(s.take(0), ExportKind::Namespace).map_values(
            |r: ExportData| render_namespace_line(r, ty),
        ));
    }
    let mut k: usize = 0;
    while k < exports.len()
        invariant
            0 <= k <= exports.len(),
            lines.deep_view() == of_kind(s.take(k as int), ExportKind::Namespace).map_values(
                |r: ExportData| render_namespace_line(r, ty),
            ),
        decreases exports.len() - k,
    {
        proof {
            assert(s.take(k + 1).drop_last() =~= s.take(k as int));
            assert(s.take(k as int).push(s[k as int]) =~= s.take(k + 1));
            assert(kind_pred(ExportKind::Namespace)(s[k as int]) == (s[k as int].export_type
                == ExportKind::Namespace));
        }
        if exports[k].export_type == ExportKind::Namespace {
            let ghost old_lines = lines.deep_view();
            lines.push(render_namespace_line_exec(&exports[k], ty));
            proof {
                assert(lines.deep_view() =~= old_lines.push(
                    render_namespace_line(s[k as int], ty)));
                assert(lines.deep_view() =~= of_kind(
                    s.take(k + 1),
                    ExportKind::Namespace,
                ).map_values(|r: ExportData| render_namespace_line(r, ty)));
            }
        } else {
            proof {
                assert(lines.deep_view() =~= of_kind(
                    s.take(k + 1),
                    ExportKind::Namespace,
                ).map_values(|r: ExportData| render_namespace_line(r, ty)));
            }
        }
        k = k + 1;
    }
    proof {
        assert(s.take(exports.len() as int) =~= s);
        assert(lines.deep_view() == ns_lines);
    }
    let mut k2: usize = 0;
    while k2 < exports.len()
        invariant
            0 <= k2 <= exports.len(),
            lines.deep_view() == ns_lines + of_kind(
                s.take(k2 as int),
                ExportKind::Default,
            ).map_values(|r: ExportData| render_default_line(r, ty)),
        decreases exports.len() - k2,
    {
        proof {
            assert(s.take(k2 + 1).drop_last() =~= s.take(k2 as int));
            assert(s.take(k2 as int).push(s[k2 as int]) =~= s.take(k2 + 1));
            assert(kind_pred(ExportKind::Default)(s[k2 as int]) == (s[k2 as int].export_type
                == ExportKind::Default));
        }
        if exports[k2].export_type == ExportKind::Default {
            let ghost old_lines = lines.deep_view();
            lines.push(render_default_line_exec(&exports[k2], ty));
            proof {
                assert(lines.deep_view() =~= old_lines.push(
                    render_default_line(s[k2 as int], ty)));
                assert(lines.deep_view() =~= ns_lines + of_kind(
                    s.take(k2 + 1),
                    ExportKind::Default,
                ).map_values(|r: ExportData| render_default_line(r, ty)));
            }
        } else {
            proof {
                assert(lines.deep_view() =~= ns_lines + of_kind(
                    s.take(k2 + 1),
                    ExportKind::Default,
                ).map_values(|r: ExportData| render_default_line(r, ty)));
            }
        }
        k2 = k2 + 1;
    }
    proof {
        assert(s.take(exports.len() as int) =~= s);
        assert(lines.deep_view() == ns_lines + df_lines);
    }
    let mut named_specs: Vec<String> = Vec::new();
    let mut k3: usize = 0;
    proof {
        assert(s.take(0) =~= Seq::<ExportData>::empty());
        assert(of_kind(s.take(0), ExportKind::Named).len() == 0) by {
            s.take(0).lemma_filter_len(kind_pred(ExportKind::Named));
        }
        assert(named_specs.deep_view() =~= specifiers_of(of_kind(s.take(0), ExportKind::Named)));
    }
    while k3 < exports.len()
        invariant
            0 <= k3 <= exports.len(),
            named_specs.deep_view() == specifiers_of(of_kind(s.take(k3 as int), ExportKind::Named)),
            named_specs.deep_view().len() == of_kind(s.take(k3 as int), ExportKind::Named).len(),
            lines.deep_view() == ns_lines + df_lines,
        decreases exports.len() - k3,
    {
        proof {
            assert(s.take(k3 + 1).drop_last() =~= s.take(k3 as int));
            assert(s.take(k3 as int).push(s[k3 as int]) =~= s.take(k3 + 1));
            assert(kind_pred(ExportKind::Named)(s[k3 as int]) == (s[k3 as int].export_type
                == ExportKind::Named));
        }
        if exports[k3].export_type == ExportKind::Named {
            let ghost old_specs = named_specs.deep_view();
            named_specs.push(exports[k3].specifier.clone());
            proof {
                assert(named_specs.deep_view() =~= old_specs.push(s[k3 as int].specifier));
                assert(named_specs.deep_view() =~= specifiers_of(
                    of_kind(s.take(k3 + 1), ExportKind::Named)));
            }
        } else {
            proof {
                assert(named_specs.deep_view() =~= specifiers_of(
                    of_kind(s.take(k3 + 1), ExportKind::Named)));
            }
        }
        k3 = k3 + 1;
    }
    proof {
        assert(s.take(exports.len() as int) =~= s);
    }
    if named_specs.len() > 0 {
        let joined = comma_join_exec(&named_specs);
        let mut l = String::new();
        if ty {
            l.append("export type ");
        } else {
            l.append("export ");
        }
        l.append("{ ");
        l.append(joined.as_str());
        l.append(" } from \"");
        l.append(source);
        l.append("\";");
        proof {
            assert(l@ =~= render_named_line(specifiers_of(of_kind(s, ExportKind::Named)),
                source@, ty));
        }
        let ghost old_lines = lines.deep_view();
        lines.push(l);
        proof {
            assert(lines.deep_view() =~= old_lines.push(
                render_named_line(specifiers_of(of_kind(s, ExportKind::Named)), source@, ty)));
            assert(lines.deep_view() =~= render_pass(s, source@, ty));
        }
    } else {
        proof {
            assert(lines.deep_view() =~= render_pass(s, source@, ty));
        }
    }
    lines
}

/// Statement lines for one group's value records.
pub fn generate_value_exports(exports: &Vec<ExportInfo>, source: &str) -> (r: Vec<String>)
    ensures
        r.deep_view() == render_pass(exports.deep_view(), source@, false),
{
    generate_pass(exports, source, false)
}

/// Statement lines for one group's type-only records.
pub fn generate_type_exports(exports: &Vec<ExportInfo>, source: &str) -> (r: Vec<String>)
    ensures
        r.deep_view() == render_pass(exports.deep_view(), source@, true),
{
    generate_pass(exports, source, true)
}

/// Regenerate a barrel file's text from its export records.
///
/// With no records the original text comes back unchanged, byte for byte.
/// Otherwise the leading non-export content is kept (minus blank and `//`
/// lines), every line from the first export statement on is replaced by
/// the regenerated statements, and one trailing empty line is appended.
#[verifier::loop_isolation(false)]
pub fn reconstruct_source(original_source: &str, exports: &Vec<ExportInfo>) -> (r: String)
    ensures
        r@ == reconstruct_spec(original_source@, exports.deep_view()),
{
    if exports.len() == 0 {
        proof {
            assert(exports.deep_view().len() == 0);
        }
        return original_source.to_owned();
    }
    let src_lines = split_lines_exec(original_source);
    let ghost ls = src_lines.deep_view();
    let mut lines: Vec<String> = Vec::new();
    let mut k: usize = 0;
    let mut stopped = false;
    proof {
        assert(ls.skip(0) =~= ls);
        assert(lines.deep_view() + kept_prefix(ls.skip(0)) =~= kept_prefix(ls));
    }
    while k < src_lines.len() && !stopped
        invariant
            0 <= k <= src_lines.len(),
            !stopped ==> kept_prefix(ls) == lines.deep_view() + kept_prefix(ls.skip(k as int)),
            stopped ==> kept_prefix(ls) == lines.deep_view(),
        decreases src_lines.len() - k + (if stopped {
            0int
        } else {
            1int
        }),
    {
        let ghost rem = ls.skip(k as int);
        proof {
            assert(rem[0] == ls[k as int]);
            assert(rem.drop_first() =~= ls.skip(k + 1));
        }
        let t = trim_exec(src_lines[k].as_str());
        if match_at_exec(t, 0, "export") {
            stopped = true;
            proof {
                assert(kept_prefix(rem) =~= Seq::<Seq<char>>::empty());
                assert(lines.deep_view() + kept_prefix(rem) =~= lines.deep_view());
            }
        } else {
            if t.unicode_len() > 0 && !match_at_exec(t, 0, "//") {
                let ghost old_lines = lines.deep_view();
                lines.push(src_lines[k].clone());
                proof {
                    assert(lines.deep_view() =~= old_lines.push(ls[k as int]));
                    assert(kept_prefix(rem) =~= seq![ls[k as int]] + kept_prefix(
                        ls.skip(k + 1)));
                    assert(old_lines + kept_prefix(rem) =~= lines.deep_view() + kept_prefix(
                        ls.skip(k + 1)));
                }
            } else {
                proof {
                    assert(kept_prefix(rem) =~= kept_prefix(ls.skip(k + 1)));
                }
            }
            k = k + 1;
        }
    }
    proof {
        if !stopped {
            assert(ls.skip(k as int) =~= Seq::<Seq<char>>::empty());
            assert(kept_prefix(ls.skip(k as int)) =~= Seq::<Seq<char>>::empty());
            assert(lines.deep_view() + kept_prefix(ls.skip(k as int)) =~= lines.deep_view());
        }
        assert(lines.deep_view() == kept_prefix(ls));
    }
    let ghost kept = kept_prefix(ls);
    let groups = group_exports_by_source(exports);
    let ghost gs = groups.deep_view();
    let mut gi: usize = 0;
    proof {
        assert(gs.take(0) =~= Seq::<SourceGroupData>::empty());
        assert(lines.deep_view() =~= kept + render_groups(gs.take(0)));
    }
    while gi < groups.len()
        invariant
            0 <= gi <= groups.len(),
            lines.deep_view() == kept + render_groups(gs.take(gi as int)),
        decreases groups.len() - gi,
    {
        let mut vl = generate_value_exports(&groups[gi].value_exports, groups[gi].source.as_str());
        let mut tl = generate_type_exports(&groups[gi].type_exports, groups[gi].source.as_str());
        let ghost old_lines = lines.deep_view();
        let ghost vlv = vl.deep_view();
        let ghost tlv = tl.deep_view();
        lines.append(&mut vl);
        lines.append(&mut tl);
        proof {
            assert(lines.deep_view() =~= old_lines + vlv + tlv);
            assert(gs.take(gi + 1).drop_last() =~= gs.take(gi as int));
            assert(gs.take(gi + 1).last() == gs[gi as int]);
            assert(vlv + tlv =~= render_group(gs[gi as int]));
            assert(lines.deep_view() =~= kept + render_groups(gs.take(gi + 1)));
        }
        gi = gi + 1;
    }
    proof {
        assert(gs.take(groups.len() as int) =~= gs);
    }
    if lines.len() > 0 {
        let ghost old_lines = lines.deep_view();
        lines.push(String::new());
        proof {
            assert(lines.deep_view() =~= old_lines.push(Seq::<char>::empty()));
        }
    }
    join_lines_exec(&lines)
}

/// What holds of every regenerated statement line: it is free of newlines,
/// ends with a semicolon, and — already trimmed — starts with `export`.
pub open spec fn statement_line(l: Seq<char>) -> bool {
    &&& crate::text::lacks(l, '\n')
    &&& l.len() > 0
    &&& l[l.len() - 1] == ';'
    &&& trim_spec(l) == l
    &&& match_at(l, 0, "export"@)
}

/// What holds of every line the reconstruction keeps from the original
/// text: its trimmed form is non-empty and starts with neither `export`
/// nor `//`.
pub open spec fn kept_line(l: Seq<char>) -> bool {
    &&& !match_at(trim_spec(l), 0, "export"@)
    &&& trim_spec(l).len() > 0
    &&& !match_at(trim_spec(l), 0, "//"@)
}

/// All fields that rendering prints are free of newlines.
pub open spec fn printable_records(recs: Seq<ExportData>) -> bool {
    forall|i: int|
        0 <= i < recs.len() ==> crate::text::lacks(#[trigger] recs[i].specifier, '\n')
            && crate::text::lacks(recs[i].source, '\n')
}

/// Group contents whose rendering stays within one line each.
pub open spec fn printable_groups(gs: Seq<SourceGroupData>) -> bool {
    forall|g: int|
        0 <= g < gs.len() ==> crate::text::lacks(#[trigger] gs[g].source, '\n')
            && printable_records(gs[g].value_exports) && printable_records(gs[g].type_exports)
}

/// A line of the fixed statement shape — head, middle, closing quote and
/// semicolon — is a statement line whenever its middle holds no newline.
proof fn lemma_statement_line_shape(ty: bool, mid: Seq<char>)
    requires
        crate::text::lacks(mid, '\n'),
    ensures
        statement_line(render_head(ty) + mid + "\";"@),
{
    reveal_strlit("export ");
    reveal_strlit("export type ");
    reveal_strlit("\";");
    reveal_strlit("export");
    let head = render_head(ty);
    let tail = "\";"@;
    let l = head + mid + tail;
    assert(crate::text::lacks(head, '\n'));
    assert(crate::text::lacks(tail, '\n'));
    crate::text::lemma_lacks_concat(head, mid, '\n');
    crate::text::lemma_lacks_concat(head + mid, tail, '\n');
    assert(l[l.len() - 1] == tail[1]);
    assert(l[0] == head[0]);
    assert(!crate::text::is_space(l[0]));
    assert(!crate::text::is_space(l[l.len() - 1]));
    crate::text::lemma_trim_identity(l);
    assert(l.subrange(0, 6) =~= "export"@) by {
        assert(forall|k: int| 0 <= k < 6 ==> l[k] == head[k]);
    }
}

/// Each namespace statement is a statement line.
proof fn lemma_render_namespace_line_ok(r: ExportData, ty: bool)
    requires
        crate::text::lacks(r.specifier, '\n'),
        crate::text::lacks(r.source, '\n'),
    ensures
        statement_line(render_namespace_line(r, ty)),
{
    reveal_strlit("* from \"");
    reveal_strlit("* as ");
    reveal_strlit(" from \"");
    if r.specifier == "*"@ {
        let mid = "* from \""@ + r.source;
        crate::text::lemma_lacks_concat("* from \""@, r.source, '\n');
        lemma_statement_line_shape(ty, mid);
        assert(render_namespace_line(r, ty) =~= render_head(ty) + mid + "\";"@);
    } else {
        let mid = "* as "@ + r.specifier + " from \""@ + r.source;
        crate::text::lemma_lacks_concat("* as "@, r.specifier, '\n');
        crate::text::lemma_lacks_concat("* as "@ + r.specifier, " from \""@, '\n');
        crate::text::lemma_lacks_concat("* as "@ + r.specifier + " from \""@, r.source, '\n');
        lemma_statement_line_shape(ty, mid);
        assert(render_namespace_line(r, ty) =~= render_head(ty) + mid + "\";"@);
    }
}

/// Each default statement is a statement line.
proof fn lemma_render_default_line_ok(r: ExportData, ty: bool)
    requires
        crate::text::lacks(r.specifier, '\n'),
        crate::text::lacks(r.source, '\n'),
    ensures
        statement_line(render_default_line(r, ty)),
{
    reveal_strlit("{ default } from \"");
    reveal_strlit("{ default as ");
    reveal_strlit(" } from \"");
    if r.specifier == "default"@ {
        let mid = "{ default } from \""@ + r.source;
        crate::text::lemma_lacks_concat("{ default } from \""@, r.source, '\n');
        lemma_statement_line_shape(ty, mid);
        assert(render_default_line(r, ty) =~= render_head(ty) + mid + "\";"@);
    } else {
        let mid = "{ default as "@ + r.specifier + " } from \""@ + r.source;
        crate::text::lemma_lacks_concat("{ default as "@, r.specifier, '\n');
        crate::text::lemma_lacks_concat("{ default as "@ + r.specifier, " } from \""@, '\n');
        crate::text::lemma_lacks_concat(
            "{ default as "@ + r.specifier + " } from \""@,
            r.source,
            '\n',
        );
        lemma_statement_line_shape(ty, mid);
        assert(render_default_line(r, ty) =~= render_head(ty) + mid + "\";"@);
    }
}

/// Joining newline-free tokens yields a newline-free list.
proof fn lemma_comma_join_lacks(toks: Seq<Seq<char>>)
    requires
        forall|i: int| 0 <= i < toks.len() ==> crate::text::lacks(#[trigger] toks[i], '\n'),
    ensures
        crate::text::lacks(comma_join(toks), '\n'),
    decreases toks.len(),
{
    reveal_strlit(", ");
    if toks.len() <= 1 {
    } else {
        let rest = toks.drop_first();
        assert(forall|i: int| 0 <= i < rest.len() ==> rest[i] == toks[i + 1]);
        lemma_comma_join_lacks(rest);
        crate::text::lemma_lacks_concat(toks[0], ", "@, '\n');
        crate::text::lemma_lacks_concat(toks[0] + ", "@, comma_join(rest), '\n');
    }
}

/// The combined named statement is a statement line.
proof fn lemma_render_named_line_ok(specs: Seq<Seq<char>>, m: Seq<char>, ty: bool)
    requires
        forall|i: int| 0 <= i < specs.len() ==> crate::text::lacks(#[trigger] specs[i], '\n'),
        crate::text::lacks(m, '\n'),
    ensures
        statement_line(render_named_line(specs, m, ty)),
{
    reveal_strlit("{ ");
    reveal_strlit(" } from \"");
    lemma_comma_join_lacks(specs);
    let mid = "{ "@ + comma_join(specs) + " } from \""@ + m;
    crate::text::lemma_lacks_concat("{ "@, comma_join(specs), '\n');
    crate::text::lemma_lacks_concat("{ "@ + comma_join(specs), " } from \""@, '\n');
    crate::text::lemma_lacks_concat("{ "@ + comma_join(specs) + " } from \""@, m, '\n');
    lemma_statement_line_shape(ty, mid);
    assert(render_named_line(specs, m, ty) =~= render_head(ty) + mid + "\";"@);
}

/// Every line of one pass is a statement line, and a pass over at least
/// one record emits at least one line.
proof fn lemma_render_pass_lines(recs: Seq<ExportData>, m: Seq<char>, ty: bool)
    requires
        printable_records(recs),
        crate::text::lacks(m, '\n'),
    ensures
        forall|i: int|
            0 <= i < render_pass(recs, m, ty).len() ==> statement_line(
                #[trigger] render_pass(recs, m, ty)[i],
            ),
        recs.len() > 0 ==> render_pass(recs, m, ty).len() > 0,
{
    broadcast use vstd::prelude::Seq::lemma_filter_contains_rev;
    broadcast use vstd::prelude::Seq::lemma_filter_contains;

    let ns = of_kind(recs, ExportKind::Namespace);
    let df = of_kind(recs, ExportKind::Default);
    let nm = of_kind(recs, ExportKind::Named);
    assert forall|i: int|
        0 <= i < ns.len() implies crate::text::lacks(#[trigger] ns[i].specifier, '\n')
        && crate::text::lacks(ns[i].source, '\n') by {
        assert(ns.contains(ns[i]));
        recs.lemma_filter_contains_rev(kind_pred(ExportKind::Namespace), ns[i]);
        assert(recs.contains(ns[i]));
        let w = choose|w: int| 0 <= w < recs.len() && recs[w] == ns[i];
        assert(crate::text::lacks(recs[w].specifier, '\n'));
    }
    assert forall|i: int|
        0 <= i < df.len() implies crate::text::lacks(#[trigger] df[i].specifier, '\n')
        && crate::text::lacks(df[i].source, '\n') by {
        assert(df.contains(df[i]));
        recs.lemma_filter_contains_rev(kind_pred(ExportKind::Default), df[i]);
        assert(recs.contains(df[i]));
        let w = choose|w: int| 0 <= w < recs.len() && recs[w] == df[i];
        assert(crate::text::lacks(recs[w].specifier, '\n'));
    }
    assert forall|i: int|
        0 <= i < nm.len() implies crate::text::lacks(#[trigger] nm[i].specifier, '\n')
        && crate::text::lacks(nm[i].source, '\n') by {
        assert(nm.contains(nm[i]));
        recs.lemma_filter_contains_rev(kind_pred(ExportKind::Named), nm[i]);
        assert(recs.contains(nm[i]));
        let w = choose|w: int| 0 <= w < recs.len() && recs[w] == nm[i];
        assert(crate::text::lacks(recs[w].specifier, '\n'));
    }
    let out = render_pass(recs, m, ty);
    let nsl = ns.map_values(|r: ExportData| render_namespace_line(r, ty));
    let dfl = df.map_values(|r: ExportData| render_default_line(r, ty));
    assert forall|i: int| 0 <= i < out.len() implies statement_line(#[trigger] out[i]) by {
        if i < nsl.len() {
            assert(out[i] == render_namespace_line(ns[i], ty));
            lemma_render_namespace_line_ok(ns[i], ty);
        } else if i < nsl.len() + dfl.len() {
            assert(out[i] == render_default_line(df[i - nsl.len()], ty));
            lemma_render_default_line_ok(df[i - nsl.len()], ty);
        } else {
            assert(out[i] == render_named_line(specifiers_of(nm), m, ty));
            assert(forall|k: int|
                0 <= k < specifiers_of(nm).len() ==> #[trigger] specifiers_of(nm)[k]
                    == nm[k].specifier);
            lemma_render_named_line_ok(specifiers_of(nm), m, ty);
        }
    }
    if recs.len() > 0 {
        let r0 = recs[0];
        if r0.export_type == ExportKind::Namespace {
            assert(kind_pred(ExportKind::Namespace)(r0));
            assert(ns.contains(r0));
        } else if r0.export_type == ExportKind::Default {
            assert(kind_pred(ExportKind::Default)(r0));
            assert(df.contains(r0));
        } else {
            assert(kind_pred(ExportKind::Named)(r0));
            assert(nm.contains(r0));
        }
    }
}

/// Every regenerated line over all groups is a statement line.
pub proof fn lemma_render_groups_lines(gs: Seq<SourceGroupData>)
    requires
        printable_groups(gs),
    ensures
        forall|i: int|
            0 <= i < render_groups(gs).len() ==> statement_line(#[trigger] render_groups(gs)[i]),
    decreases gs.len(),
{
    if gs.len() > 0 {
        let pre = gs.drop_last();
        assert forall|h: int|
            0 <= h < pre.len() implies crate::text::lacks(#[trigger] pre[h].source, '\n')
            && printable_records(pre[h].value_exports) && printable_records(
            pre[h].type_exports,
        ) by {
            assert(pre[h] == gs[h]);
        }
        lemma_render_groups_lines(pre);
        let last = gs.last();
        lemma_render_pass_lines(last.value_exports, last.source, false);
        lemma_render_pass_lines(last.type_exports, last.source, true);
        let rp = render_groups(pre);
        let vl = render_pass(last.value_exports, last.source, false);
        let tl = render_pass(last.type_exports, last.source, true);
        assert forall|i: int|
            0 <= i < render_groups(gs).len() implies statement_line(
            #[trigger] render_groups(gs)[i],
        ) by {
            if i < rp.len() {
                assert(render_groups(gs)[i] == rp[i]);
            } else if i < rp.len() + vl.len() {
                assert(render_groups(gs)[i] == vl[i - rp.len()]);
            } else {
                assert(render_groups(gs)[i] == tl[i - rp.len() - vl.len()]);
            }
        }
    }
}

/// A group with a record somewhere makes the regenerated list non-empty.
pub proof fn lemma_render_groups_nonempty(gs: Seq<SourceGroupData>, g: int)
    requires
        printable_groups(gs),
        0 <= g < gs.len(),
        gs[g].value_exports.len() > 0 || gs[g].type_exports.len() > 0,
    ensures
        render_groups(gs).len() > 0,
    decreases gs.len(),
{
    lemma_render_pass_lines(gs[g].value_exports, gs[g].source, false);
    lemma_render_pass_lines(gs[g].type_exports, gs[g].source, true);
    if g == gs.len() - 1 {
        assert(render_group(gs[g]).len() > 0);
    } else {
        let pre = gs.drop_last();
        assert forall|h: int|
            0 <= h < pre.len() implies crate::text::lacks(#[trigger] pre[h].source, '\n')
            && printable_records(pre[h].value_exports) && printable_records(
            pre[h].type_exports,
        ) by {
            assert(pre[h] == gs[h]);
        }
        lemma_render_groups_nonempty(pre, g);
    }
}

/// Every line the prefix scan keeps is a kept line and comes from the
/// original line list.
pub proof fn lemma_kept_prefix_props(ls: Seq<Seq<char>>)
    ensures
        forall|i: int|
            0 <= i < kept_prefix(ls).len() ==> kept_line(#[trigger] kept_prefix(ls)[i]),
        forall|i: int|
            0 <= i < kept_prefix(ls).len() ==> ls.contains(#[trigger] kept_prefix(ls)[i]),
    decreases ls.len(),
{
    if ls.len() > 0 {
        let t = trim_spec(ls[0]);
        if !match_at(t, 0, "export"@) {
            let rest = ls.drop_first();
            lemma_kept_prefix_props(rest);
            let kp = kept_prefix(ls);
            let keep: int = if t.len() > 0 && !match_at(t, 0, "//"@) {
                1int
            } else {
                0int
            };
            assert forall|i: int| 0 <= i < kp.len() implies kept_line(#[trigger] kp[i])
                && ls.contains(kp[i]) by {
                if keep == 1 && i == 0 {
                    assert(kp[0] == ls[0]);
                    assert(ls[0] == ls[0]);
                } else {
                    assert(kp[i] == kept_prefix(rest)[i - keep]);
                    assert(rest.contains(kp[i]));
                    let w = choose|w: int| 0 <= w < rest.len() && rest[w] == kp[i];
                    assert(ls[w + 1] == kp[i]);
                }
            }
        }
    }
}

/// Scanning past lines that are all kept continues behind them.
pub proof fn lemma_kept_prefix_all_kept(a: Seq<Seq<char>>, b: Seq<Seq<char>>)
    requires
        forall|i: int| 0 <= i < a.len() ==> kept_line(#[trigger] a[i]),
    ensures
        kept_prefix(a + b) == a + kept_prefix(b),
    decreases a.len(),
{
    if a.len() == 0 {
        assert(a + b =~= b);
        assert(a + kept_prefix(b) =~= kept_prefix(b));
    } else {
        assert((a + b)[0] == a[0]);
        assert((a + b).drop_first() =~= a.drop_first() + b);
        assert(forall|i: int| 0 <= i < a.drop_first().len() ==> a.drop_first()[i] == a[i + 1]);
        lemma_kept_prefix_all_kept(a.drop_first(), b);
        assert(kept_prefix(a + b) =~= a + kept_prefix(b));
    }
}

} // verus!

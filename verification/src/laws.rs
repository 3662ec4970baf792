//! Properties that hold of every set of definition files.

use vstd::prelude::*;
use crate::definitions::{
    def_type_text, definition_files, fn_item_text, fn_items, fn_keys, module_file, module_files,
    scope_file_text, static_text, sub_module_keys, unwrap_result_type, var_items, var_keys,
    var_text,
};
use crate::engine::{Engine, Module, Scope};
use crate::type_names::{
    core_text, delimiters_of, flatten_from, flatten_type, is_type_delimiter, path_separator,
    segment_text, strip_reference, binding_sign,
};
use crate::sort::{
    index_before, is_permutation_of_range, is_sorted_order, law_sorted_order,
    sorted_order,
};
use crate::text::{
    is_whitespace, lex_lt, replace, split_last, split_pieces, starts_with, trim, trim_end,
    trim_start,
};

verus! {

// ---------------------------------------------------------------------------
// Headers
// ---------------------------------------------------------------------------

proof fn lemma_starts_with_concat(p: Seq<char>, a: Seq<char>, b: Seq<char>)
    requires
        starts_with(a, p),
    ensures
        starts_with(a + b, p),
{
    assert((a + b).subrange(0, p.len() as int) =~= a.subrange(0, p.len() as int));
}

proof fn lemma_static_header()
    ensures
        starts_with("module static;\n\n"@, "module static;"@),
{
    reveal_strlit("module static;\n\n");
    reveal_strlit("module static;");
    assert("module static;\n\n"@.subrange(0, "module static;"@.len() as int) =~= "module static;"@);
}

/// The definitions of the globally available items always start with
/// `module static;`.
pub proof fn law_static_module_header(e: Engine)
    ensures
        starts_with(static_text(e), "module static;"@),
{
    lemma_static_header();
    lemma_starts_with_concat(
        "module static;"@,
        "module static;\n\n"@,
        static_text(e).skip("module static;\n\n"@.len() as int),
    );
    assert("module static;\n\n"@ + static_text(e).skip("module static;\n\n"@.len() as int)
        =~= static_text(e));
}

/// The definitions of a scope always start with `module static;`, even when
/// the scope is empty or none was given; with no scope they hold nothing else.
pub proof fn law_scope_header(sc: Option<Scope>)
    ensures
        starts_with(scope_file_text(sc), "module static;"@),
        sc is None ==> scope_file_text(sc) == "module static;\n\n"@,
{
    lemma_static_header();
    let rest = match sc {
        Some(s) => crate::definitions::scope_text(s),
        None => Seq::empty(),
    };
    lemma_starts_with_concat("module static;"@, "module static;\n\n"@, rest);
    if sc is None {
        assert("module static;\n\n"@ + Seq::<char>::empty() =~= "module static;\n\n"@);
    }
}

/// The definitions of each module always start with `module <name>;`.
pub proof fn law_module_file_header(e: Engine, k: int)
    requires
        0 <= k < module_files(e).len(),
    ensures
        starts_with(module_files(e)[k].1, "module "@ + module_files(e)[k].0 + ";"@),
{
    reveal_strlit(";\n\n");
    reveal_strlit(";");
    let f = module_files(e)[k];
    let p = "module "@ + f.0 + ";"@;
    assert(f.1.subrange(0, p.len() as int) =~= p);
}

// ---------------------------------------------------------------------------
// Order and completeness
// ---------------------------------------------------------------------------

/// The module files list every sub-module exactly once, in name order.
pub proof fn law_module_files_sorted_and_complete(e: Engine)
    ensures
        module_files(e).len() == e.global_sub_modules@.len(),
        is_permutation_of_range(
            sorted_order(sub_module_keys(e)),
            e.global_sub_modules@.len() as int,
        ),
        forall|k: int|
            0 <= k < module_files(e).len() ==> #[trigger] module_files(e)[k] == module_file(
                e,
                sorted_order(sub_module_keys(e))[k],
            ),
        forall|p: int, q: int|
            0 <= p < q < module_files(e).len() ==> !lex_lt(
                #[trigger] module_files(e)[q].0,
                #[trigger] module_files(e)[p].0,
            ),
{
    let keys = sub_module_keys(e);
    let o = sorted_order(keys);
    law_sorted_order(keys);
    assert forall|p: int, q: int| 0 <= p < q < module_files(e).len() implies !lex_lt(
        #[trigger] module_files(e)[q].0,
        #[trigger] module_files(e)[p].0,
    ) by {
        assert(index_before(keys, o[p], o[q]));
        let a = module_files(e)[p].0;
        let b = module_files(e)[q].0;
        if lex_lt(b, a) {
            crate::text::lemma_lex_irreflexive(a);
            crate::text::lemma_lex_irreflexive(b);
            if lex_lt(a, b) {
                crate::text::lemma_lex_transitive(a, b, a);
            }
        }
    }
}

/// A module's declarations list each variable once, in name order, and
/// each function once, in key order, keeping the order of functions with
/// equal keys.
pub proof fn law_module_items_sorted_and_complete(m: Module, e: Engine)
    ensures
        var_items(m).len() == m.variables@.len(),
        fn_items(m, e).len() == m.functions@.len(),
        is_permutation_of_range(sorted_order(var_keys(m)), m.variables@.len() as int),
        is_permutation_of_range(sorted_order(fn_keys(m)), m.functions@.len() as int),
        forall|k: int|
            0 <= k < var_items(m).len() ==> #[trigger] var_items(m)[k] == var_text(
                m.variables@[sorted_order(var_keys(m))[k]]@,
            ),
        forall|k: int|
            0 <= k < fn_items(m, e).len() ==> #[trigger] fn_items(m, e)[k] == fn_item_text(
                m.functions@[sorted_order(fn_keys(m))[k]],
                e,
            ),
        is_sorted_order(sorted_order(var_keys(m)), var_keys(m)),
        is_sorted_order(sorted_order(fn_keys(m)), fn_keys(m)),
{
    law_sorted_order(var_keys(m));
    law_sorted_order(fn_keys(m));
}

/// In a well-formed engine, whose sub-module names are distinct as in a
/// map, the module files are in strictly ascending name order.
pub proof fn law_module_files_strictly_sorted(e: Engine)
    requires
        e.well_formed(),
    ensures
        forall|p: int, q: int|
            0 <= p < q < module_files(e).len() ==> lex_lt(
                #[trigger] module_files(e)[p].0,
                #[trigger] module_files(e)[q].0,
            ),
{
    let keys = sub_module_keys(e);
    let o = sorted_order(keys);
    law_sorted_order(keys);
    let names = e.global_sub_modules@.map_values(|p: (String, Module)| p.0@);
    assert forall|p: int, q: int| 0 <= p < q < module_files(e).len() implies lex_lt(
        #[trigger] module_files(e)[p].0,
        #[trigger] module_files(e)[q].0,
    ) by {
        assert(index_before(keys, o[p], o[q]));
        assert(o[p] != o[q]);
        assert(names[o[p]] != names[o[q]]) by {
            if o[p] < o[q] {
                assert(names[o[p]] != names[o[q]]);
            } else {
                assert(names[o[q]] != names[o[p]]);
            }
        }
        crate::text::lemma_lex_irreflexive(Seq::<char>::empty());
    }
}

/// In a well-formed module, whose variable names are distinct as in a map,
/// the variables are declared in strictly ascending name order.
pub proof fn law_module_variables_strictly_sorted(m: Module)
    requires
        m.well_formed(),
    ensures
        forall|p: int, q: int|
            0 <= p < q < var_items(m).len() ==> lex_lt(
                #[trigger] m.variables@[sorted_order(var_keys(m))[p]]@,
                #[trigger] m.variables@[sorted_order(var_keys(m))[q]]@,
            ),
{
    let keys = var_keys(m);
    let o = sorted_order(keys);
    law_sorted_order(keys);
    let names = m.variables@.map_values(|s: String| s@);
    assert forall|p: int, q: int| 0 <= p < q < var_items(m).len() implies lex_lt(
        #[trigger] m.variables@[o[p]]@,
        #[trigger] m.variables@[o[q]]@,
    ) by {
        assert(index_before(keys, o[p], o[q]));
        assert(o[p] != o[q]);
        assert(names[o[p]] != names[o[q]]) by {
            if o[p] < o[q] {
                assert(names[o[p]] != names[o[q]]);
            } else {
                assert(names[o[q]] != names[o[p]]);
            }
        }
        crate::text::lemma_lex_irreflexive(Seq::<char>::empty());
    }
}

/// The definition files are the two built-in files, the static file, the
/// scope file exactly when a scope is given, and then the file
/// `<name>.d.rhai` of each module file, in the same order.
pub proof fn law_definition_files(
    e: Engine,
    sc: Option<Scope>,
    builtin: Seq<char>,
    builtin_operators: Seq<char>,
)
    ensures
        ({
            let files = definition_files(e, sc, builtin, builtin_operators);
            let extra: int = if sc is Some {
                1
            } else {
                0
            };
            &&& files.len() == 3 + extra + e.global_sub_modules@.len()
            &&& files[0] == ("__builtin__.d.rhai"@, builtin)
            &&& files[1] == ("__builtin-operators__.d.rhai"@, builtin_operators)
            &&& files[2] == ("__static__.d.rhai"@, static_text(e))
            &&& sc is Some ==> files[3] == ("__scope__.d.rhai"@, scope_file_text(sc))
            &&& forall|k: int|
                0 <= k < module_files(e).len() ==> #[trigger] files[3 + extra + k] == (
                    module_files(e)[k].0 + ".d.rhai"@,
                    module_files(e)[k].1,
                )
        }),
{
    law_sorted_order(sub_module_keys(e));
}

// ---------------------------------------------------------------------------
// Type names lose their paths
// ---------------------------------------------------------------------------

/// `s` holds two colons in a row.
pub open spec fn has_path_separator(s: Seq<char>) -> bool {
    exists|i: int| 0 <= i && i + 1 < s.len() && s[i] == ':' && #[trigger] s[i + 1] == ':'
}

/// The first piece of a split is a prefix of the text.
proof fn lemma_first_piece_prefix(s: Seq<char>, pat: Seq<char>)
    ensures
        split_pieces(s, pat).len() >= 1,
        split_pieces(s, pat)[0].len() <= s.len(),
        split_pieces(s, pat)[0] == s.subrange(0, split_pieces(s, pat)[0].len() as int),
    decreases s.len(),
{
    crate::text::lemma_split_pieces_nonempty(s, pat);
    if !(pat.len() == 0 || s.len() < pat.len()) {
        if s.subrange(0, pat.len() as int) == pat {
            crate::text::lemma_split_pieces_nonempty(s.skip(pat.len() as int), pat);
        } else {
            lemma_first_piece_prefix(s.skip(1), pat);
            let rest = split_pieces(s.skip(1), pat);
            let first = seq![s[0]] + rest[0];
            assert(first =~= s.subrange(0, first.len() as int));
        }
    } else {
        assert(s.subrange(0, s.len() as int) =~= s);
    }
}

/// No piece of a split by `::` holds `::`.
proof fn lemma_pieces_without_separator(s: Seq<char>)
    ensures
        forall|k: int|
            0 <= k < split_pieces(s, path_separator()).len() ==> !has_path_separator(
                #[trigger] split_pieces(s, path_separator())[k],
            ),
    decreases s.len(),
{
    let pat = path_separator();
    let pieces = split_pieces(s, pat);
    if s.len() < 2 {
        assert(pieces == seq![s]);
        assert forall|k: int| 0 <= k < pieces.len() implies !has_path_separator(
            #[trigger] pieces[k],
        ) by {
            if has_path_separator(pieces[k]) {
                let i = choose|i: int|
                    0 <= i && i + 1 < pieces[k].len() && pieces[k][i] == ':' && #[trigger] pieces[k][i
                        + 1] == ':';
            }
        }
    } else if s.subrange(0, 2) == pat {
        let rest = s.skip(2);
        lemma_pieces_without_separator(rest);
        assert forall|k: int| 0 <= k < pieces.len() implies !has_path_separator(
            #[trigger] pieces[k],
        ) by {
            if k > 0 {
                assert(pieces[k] == split_pieces(rest, pat)[k - 1]);
            } else {
                assert(pieces[0].len() == 0);
            }
        }
    } else {
        let t = s.skip(1);
        lemma_pieces_without_separator(t);
        lemma_first_piece_prefix(t, pat);
        let rest = split_pieces(t, pat);
        let first = seq![s[0]] + rest[0];
        assert(pieces == rest.update(0, first));
        assert(!has_path_separator(first)) by {
            if has_path_separator(first) {
                let i = choose|i: int|
                    0 <= i && i + 1 < first.len() && first[i] == ':' && #[trigger] first[i + 1]
                        == ':';
                if i == 0 {
                    assert(first[1] == rest[0][0]);
                    assert(rest[0][0] == t[0]);
                    assert(s[1] == t[0]);
                    assert(s.subrange(0, 2) =~= pat);
                } else {
                    assert(first[i] == rest[0][i - 1]);
                    assert(first[i + 1] == rest[0][i]);
                    assert(has_path_separator(rest[0]));
                }
            }
        }
        assert forall|k: int| 0 <= k < pieces.len() implies !has_path_separator(
            #[trigger] pieces[k],
        ) by {
            if k > 0 {
                assert(pieces[k] == rest[k]);
            }
        }
    }
}

/// A part of a text without `::` has none either.
proof fn lemma_subrange_without_separator(s: Seq<char>, a: int, b: int)
    requires
        0 <= a <= b <= s.len(),
        !has_path_separator(s),
    ensures
        !has_path_separator(s.subrange(a, b)),
{
    let t = s.subrange(a, b);
    if has_path_separator(t) {
        let i = choose|i: int| 0 <= i && i + 1 < t.len() && t[i] == ':' && #[trigger] t[i + 1] == ':';
        assert(s[a + i] == ':' && s[a + i + 1] == ':');
    }
}

proof fn lemma_trim_start_suffix(s: Seq<char>)
    ensures
        exists|a: int| 0 <= a <= s.len() && trim_start(s) == s.subrange(a, s.len() as int),
    decreases s.len(),
{
    if s.len() > 0 && crate::text::is_whitespace(s[0]) {
        lemma_trim_start_suffix(s.skip(1));
        let a = choose|a: int|
            0 <= a <= s.skip(1).len() && trim_start(s.skip(1)) == s.skip(1).subrange(
                a,
                s.skip(1).len() as int,
            );
        assert(s.skip(1).subrange(a, s.skip(1).len() as int) =~= s.subrange(a + 1, s.len() as int));
    } else {
        assert(s.subrange(0, s.len() as int) =~= s);
    }
}

proof fn lemma_trim_end_prefix(s: Seq<char>)
    ensures
        exists|b: int| 0 <= b <= s.len() && trim_end(s) == s.subrange(0, b),
    decreases s.len(),
{
    if s.len() > 0 && crate::text::is_whitespace(s.last()) {
        lemma_trim_end_prefix(s.drop_last());
        let b = choose|b: int| 0 <= b <= s.drop_last().len() && trim_end(s.drop_last()) == s.drop_last().subrange(0, b);
        assert(s.drop_last().subrange(0, b) =~= s.subrange(0, b));
    } else {
        assert(s.subrange(0, s.len() as int) =~= s);
    }
}

proof fn lemma_trim_without_separator(s: Seq<char>)
    requires
        !has_path_separator(s),
    ensures
        !has_path_separator(trim(s)),
{
    lemma_trim_start_suffix(s);
    let a = choose|a: int| 0 <= a <= s.len() && trim_start(s) == s.subrange(a, s.len() as int);
    lemma_subrange_without_separator(s, a, s.len() as int);
    let t = trim_start(s);
    lemma_trim_end_prefix(t);
    let b = choose|b: int| 0 <= b <= t.len() && trim_end(t) == t.subrange(0, b);
    lemma_subrange_without_separator(t, 0, b);
}

/// Replacing by a non-empty text without colons adds no `::`.
proof fn lemma_replace_without_separator(s: Seq<char>, pat: Seq<char>, rep: Seq<char>)
    requires
        !has_path_separator(s),
        rep.len() > 0,
        forall|j: int| 0 <= j < rep.len() ==> rep[j] != ':',
    ensures
        !has_path_separator(replace(s, pat, rep)),
        replace(s, pat, rep).len() > 0 ==> (replace(s, pat, rep)[0] == ':' ==> s.len() > 0 && s[0] == ':'),
    decreases s.len(),
{
    let r = replace(s, pat, rep);
    if pat.len() == 0 || s.len() < pat.len() {
    } else if s.subrange(0, pat.len() as int) == pat {
        let t = s.skip(pat.len() as int);
        lemma_subrange_without_separator(s, pat.len() as int, s.len() as int);
        assert(t =~= s.subrange(pat.len() as int, s.len() as int));
        lemma_replace_without_separator(t, pat, rep);
        let u = replace(t, pat, rep);
        assert(r == rep + u);
        if has_path_separator(r) {
            let i = choose|i: int| 0 <= i && i + 1 < r.len() && r[i] == ':' && #[trigger] r[i + 1] == ':';
            if i + 1 < rep.len() {
                assert(r[i] == rep[i]);
            } else if i < rep.len() {
                assert(r[i] == rep[i]);
            } else {
                assert(r[i] == u[i - rep.len()]);
                assert(r[i + 1] == u[i - rep.len() + 1]);
                assert(u[(i - rep.len()) + 1] == ':');
                assert(has_path_separator(u));
            }
        }
        assert(r[0] == rep[0]);
    } else {
        let t = s.skip(1);
        lemma_subrange_without_separator(s, 1, s.len() as int);
        assert(t =~= s.subrange(1, s.len() as int));
        lemma_replace_without_separator(t, pat, rep);
        let u = replace(t, pat, rep);
        assert(r == seq![s[0]] + u);
        if has_path_separator(r) {
            let i = choose|i: int| 0 <= i && i + 1 < r.len() && r[i] == ':' && #[trigger] r[i + 1] == ':';
            if i == 0 {
                assert(u[0] == ':');
                assert(s[1] == ':');
                assert(s[0] == ':');
            } else {
                assert(r[i] == u[i - 1]);
                assert(r[i + 1] == u[i]);
                assert(u[(i - 1) + 1] == ':');
                assert(has_path_separator(u));
            }
        }
    }
}

/// The leading whitespace that `trim_start` removes.
pub proof fn lemma_trim_start_whitespace(s: Seq<char>)
    ensures
        trim_start(s).len() <= s.len(),
        trim_start(s) == s.skip(s.len() - trim_start(s).len()),
        forall|j: int| 0 <= j < s.len() - trim_start(s).len() ==> is_whitespace(#[trigger] s[j]),
    decreases s.len(),
{
    if s.len() > 0 && is_whitespace(s[0]) {
        lemma_trim_start_whitespace(s.skip(1));
        assert(s.skip(1).skip(s.skip(1).len() - trim_start(s.skip(1)).len()) =~= s.skip(
            s.len() - trim_start(s).len(),
        ));
        assert forall|j: int| 0 <= j < s.len() - trim_start(s).len() implies is_whitespace(
            #[trigger] s[j],
        ) by {
            if j > 0 {
                assert(s[j] == s.skip(1)[j - 1]);
            }
        }
    } else {
        assert(s.skip(0) =~= s);
    }
}

/// The trailing whitespace that `trim_end` removes.
pub proof fn lemma_trim_end_whitespace(s: Seq<char>)
    ensures
        trim_end(s).len() <= s.len(),
        trim_end(s) == s.take(trim_end(s).len() as int),
        forall|j: int| trim_end(s).len() <= j < s.len() ==> is_whitespace(#[trigger] s[j]),
    decreases s.len(),
{
    if s.len() > 0 && is_whitespace(s.last()) {
        lemma_trim_end_whitespace(s.drop_last());
        assert(s.drop_last().take(trim_end(s).len() as int) =~= s.take(trim_end(s).len() as int));
        assert forall|j: int| trim_end(s).len() <= j < s.len() implies is_whitespace(
            #[trigger] s[j],
        ) by {
            if j < s.len() - 1 {
                assert(s[j] == s.drop_last()[j]);
            }
        }
    } else {
        assert(s.take(s.len() as int) =~= s);
    }
}

/// A text without colons has no `::`.
proof fn lemma_no_colon_no_separator(s: Seq<char>)
    requires
        forall|j: int| 0 <= j < s.len() ==> #[trigger] s[j] != ':',
    ensures
        !has_path_separator(s),
{
}

/// Two texts without `::` that do not meet in two colons have none together.
proof fn lemma_concat_without_separator(a: Seq<char>, b: Seq<char>)
    requires
        !has_path_separator(a),
        !has_path_separator(b),
        a.len() == 0 || b.len() == 0 || a.last() != ':' || b[0] != ':',
    ensures
        !has_path_separator(a + b),
{
    let c = a + b;
    if has_path_separator(c) {
        let i = choose|i: int| 0 <= i && i + 1 < c.len() && c[i] == ':' && #[trigger] c[i + 1] == ':';
        if i + 1 < a.len() {
            assert(a[i] == ':' && a[i + 1] == ':');
        } else if i >= a.len() {
            assert(b[i - a.len()] == ':');
            assert(b[(i - a.len()) + 1] == ':');
        } else {
            assert(a.last() == ':');
            assert(b[0] == c[i + 1]);
        }
    }
}

/// A part of a type as written has no `::`.
proof fn lemma_segment_without_separator(s: Seq<char>)
    ensures
        !has_path_separator(segment_text(s)),
{
    let ts = trim_start(s);
    lemma_trim_start_whitespace(s);
    lemma_trim_end_whitespace(ts);
    let lead = s.take(s.len() - ts.len());
    let core = core_text(trim(s));
    let trail = ts.skip(trim(s).len() as int);
    assert forall|j: int| 0 <= j < lead.len() implies #[trigger] lead[j] != ':' by {
        assert(is_whitespace(s[j]));
    }
    lemma_no_colon_no_separator(lead);
    assert forall|j: int| 0 <= j < trail.len() implies #[trigger] trail[j] != ':' by {
        assert(trail[j] == ts[trim(s).len() + j]);
        assert(is_whitespace(ts[trim(s).len() + j]));
    }
    lemma_no_colon_no_separator(trail);
    let t = trim_start(split_last(crate::type_names::strip_reference(trim(s)), crate::type_names::binding_sign()));
    lemma_pieces_without_separator(t);
    crate::text::lemma_split_pieces_nonempty(t, path_separator());
    assert(!has_path_separator(core));
    lemma_concat_without_separator(lead, core);
    lemma_concat_without_separator(lead + core, trail);
}

/// The rest of a type with its parts written has no `::`.
proof fn lemma_flatten_without_separator(s: Seq<char>, seg: Seq<char>)
    ensures
        !has_path_separator(flatten_from(s, seg)),
    decreases s.len(),
{
    if s.len() == 0 {
        lemma_segment_without_separator(seg);
    } else if is_type_delimiter(s[0]) {
        lemma_segment_without_separator(seg);
        lemma_flatten_without_separator(s.skip(1), Seq::empty());
        let a = segment_text(seg);
        let d = seq![s[0]];
        lemma_no_colon_no_separator(d);
        lemma_concat_without_separator(a, d);
        lemma_concat_without_separator(a + d, flatten_from(s.skip(1), Seq::empty()));
    } else {
        lemma_flatten_without_separator(s.skip(1), seg.push(s[0]));
    }
}

/// A type name as written in a definition file has no path separator `::`:
/// only the last path segment of each part of a type is kept.
pub proof fn law_def_type_has_no_path(ty: Seq<char>, e: Engine)
    ensures
        !has_path_separator(def_type_text(ty, e)),
{
    let t1 = replace(e.formatted_type_name(ty), "crate::"@, ""@);
    let t2 = replace(t1, "&str"@, "String"@);
    let t3 = flatten_type(t2);
    lemma_flatten_without_separator(t2, Seq::empty());
    lemma_trim_without_separator(t3);
    let t3t = trim(t3);
    let t4 = unwrap_result_type(t3t);
    if starts_with(t3t, "RhaiResultOf<"@) {
        let rest = t3t.skip("RhaiResultOf<"@.len() as int);
        if rest.len() > 0 && rest.last() == '>' {
            lemma_subrange_without_separator(t3t, "RhaiResultOf<"@.len() as int, t3t.len() - 1);
            assert(rest.drop_last() =~= t3t.subrange("RhaiResultOf<"@.len() as int, t3t.len() - 1));
            lemma_trim_without_separator(rest.drop_last());
        }
    }
    assert(!has_path_separator(t4));
    reveal_strlit("?");
    reveal_strlit("int");
    reveal_strlit("float");
    reveal_strlit("String");
    let r1 = replace(t4, "Dynamic"@, "?"@);
    lemma_replace_without_separator(t4, "Dynamic"@, "?"@);
    let r2 = replace(r1, "INT"@, "int"@);
    lemma_replace_without_separator(r1, "INT"@, "int"@);
    let r3 = replace(r2, "FLOAT"@, "float"@);
    lemma_replace_without_separator(r2, "FLOAT"@, "float"@);
    lemma_replace_without_separator(r3, "ImmutableString"@, "String"@);
}

// ---------------------------------------------------------------------------
// Type names keep their brackets and commas
// ---------------------------------------------------------------------------

/// `s` holds no bracket, comma or semicolon.
pub open spec fn has_no_delimiter(s: Seq<char>) -> bool {
    forall|j: int| 0 <= j < s.len() ==> !is_type_delimiter(#[trigger] s[j])
}

proof fn lemma_delimiters_concat(a: Seq<char>, b: Seq<char>)
    ensures
        delimiters_of(a + b) == delimiters_of(a) + delimiters_of(b),
    decreases a.len(),
{
    if a.len() == 0 {
        assert(a + b =~= b);
    } else {
        lemma_delimiters_concat(a.skip(1), b);
        assert((a + b).skip(1) =~= a.skip(1) + b);
        if is_type_delimiter(a[0]) {
            assert(seq![a[0]] + (delimiters_of(a.skip(1)) + delimiters_of(b)) =~= seq![a[0]]
                + delimiters_of(a.skip(1)) + delimiters_of(b));
        }
    }
}

proof fn lemma_delimiters_none(s: Seq<char>)
    requires
        has_no_delimiter(s),
    ensures
        delimiters_of(s) == Seq::<char>::empty(),
    decreases s.len(),
{
    if s.len() > 0 {
        assert(has_no_delimiter(s.skip(1))) by {
            assert forall|j: int| 0 <= j < s.skip(1).len() implies !is_type_delimiter(
                #[trigger] s.skip(1)[j],
            ) by {
                assert(s.skip(1)[j] == s[j + 1]);
            }
        }
        lemma_delimiters_none(s.skip(1));
    }
}

proof fn lemma_subrange_no_delimiter(s: Seq<char>, a: int, b: int)
    requires
        has_no_delimiter(s),
        0 <= a <= b <= s.len(),
    ensures
        has_no_delimiter(s.subrange(a, b)),
{
    assert forall|j: int| 0 <= j < b - a implies !is_type_delimiter(#[trigger] s.subrange(a, b)[j]) by {
        assert(s.subrange(a, b)[j] == s[a + j]);
    }
}

proof fn lemma_trim_start_no_delimiter(s: Seq<char>)
    requires
        has_no_delimiter(s),
    ensures
        has_no_delimiter(trim_start(s)),
{
    lemma_trim_start_whitespace(s);
    lemma_subrange_no_delimiter(s, s.len() - trim_start(s).len(), s.len() as int);
    assert(s.skip(s.len() - trim_start(s).len()) =~= s.subrange(
        s.len() - trim_start(s).len(),
        s.len() as int,
    ));
}

proof fn lemma_trim_no_delimiter(s: Seq<char>)
    requires
        has_no_delimiter(s),
    ensures
        has_no_delimiter(trim(s)),
{
    lemma_trim_start_no_delimiter(s);
    let t = trim_start(s);
    lemma_trim_end_whitespace(t);
    lemma_subrange_no_delimiter(t, 0, trim_end(t).len() as int);
    assert(t.take(trim_end(t).len() as int) =~= t.subrange(0, trim_end(t).len() as int));
}

proof fn lemma_skip_no_delimiter(s: Seq<char>, k: int)
    requires
        has_no_delimiter(s),
        0 <= k <= s.len(),
    ensures
        has_no_delimiter(s.skip(k)),
{
    lemma_subrange_no_delimiter(s, k, s.len() as int);
    assert(s.skip(k) =~= s.subrange(k, s.len() as int));
}

proof fn lemma_pieces_no_delimiter(s: Seq<char>, pat: Seq<char>)
    requires
        has_no_delimiter(s),
    ensures
        forall|k: int|
            0 <= k < split_pieces(s, pat).len() ==> has_no_delimiter(
                #[trigger] split_pieces(s, pat)[k],
            ),
    decreases s.len(),
{
    let pieces = split_pieces(s, pat);
    if pat.len() == 0 || s.len() < pat.len() {
        assert(pieces == seq![s]);
    } else if s.subrange(0, pat.len() as int) == pat {
        let rest = s.skip(pat.len() as int);
        lemma_skip_no_delimiter(s, pat.len() as int);
        lemma_pieces_no_delimiter(rest, pat);
        assert forall|k: int| 0 <= k < pieces.len() implies has_no_delimiter(
            #[trigger] pieces[k],
        ) by {
            if k > 0 {
                assert(pieces[k] == split_pieces(rest, pat)[k - 1]);
            } else {
                assert(pieces[0].len() == 0);
            }
        }
    } else {
        let t = s.skip(1);
        lemma_skip_no_delimiter(s, 1);
        lemma_pieces_no_delimiter(t, pat);
        crate::text::lemma_split_pieces_nonempty(t, pat);
        let rest = split_pieces(t, pat);
        let first = seq![s[0]] + rest[0];
        assert(pieces == rest.update(0, first));
        assert(has_no_delimiter(first)) by {
            assert forall|j: int| 0 <= j < first.len() implies !is_type_delimiter(#[trigger] first[j]) by {
                if j > 0 {
                    assert(first[j] == rest[0][j - 1]);
                }
            }
        }
        assert forall|k: int| 0 <= k < pieces.len() implies has_no_delimiter(
            #[trigger] pieces[k],
        ) by {
            if k > 0 {
                assert(pieces[k] == rest[k]);
            }
        }
    }
}

proof fn lemma_split_last_no_delimiter(s: Seq<char>, pat: Seq<char>)
    requires
        has_no_delimiter(s),
    ensures
        has_no_delimiter(split_last(s, pat)),
{
    lemma_pieces_no_delimiter(s, pat);
    crate::text::lemma_split_pieces_nonempty(s, pat);
    let pieces = split_pieces(s, pat);
    assert(has_no_delimiter(pieces[pieces.len() - 1]));
}

/// A part without delimiters is written without delimiters.
proof fn lemma_segment_no_delimiter(s: Seq<char>)
    requires
        has_no_delimiter(s),
    ensures
        has_no_delimiter(segment_text(s)),
{
    let ts = trim_start(s);
    lemma_trim_start_whitespace(s);
    lemma_trim_start_no_delimiter(s);
    lemma_trim_no_delimiter(s);
    let lead = s.take(s.len() - ts.len());
    lemma_subrange_no_delimiter(s, 0, s.len() - ts.len());
    assert(lead =~= s.subrange(0, s.len() - ts.len()));
    lemma_trim_end_whitespace(ts);
    let trail = ts.skip(trim(s).len() as int);
    lemma_skip_no_delimiter(ts, trim(s).len() as int);
    let c = trim(s);
    let r = strip_reference(c);
    assert(has_no_delimiter(r)) by {
        if c.len() > 0 && c[0] == '&' {
            lemma_skip_no_delimiter(c, 1);
            lemma_trim_start_no_delimiter(c.skip(1));
            let d = trim_start(c.skip(1));
            if d.len() > 3 && d[0] == 'm' && d[1] == 'u' && d[2] == 't' && is_whitespace(d[3]) {
                lemma_skip_no_delimiter(d, 3);
                lemma_trim_start_no_delimiter(d.skip(3));
            }
        }
    }
    lemma_split_last_no_delimiter(r, binding_sign());
    lemma_trim_start_no_delimiter(split_last(r, binding_sign()));
    lemma_split_last_no_delimiter(trim_start(split_last(r, binding_sign())), path_separator());
    let core = core_text(c);
    let all = lead + core + trail;
    assert forall|j: int| 0 <= j < all.len() implies !is_type_delimiter(#[trigger] all[j]) by {
        if j < lead.len() {
            assert(all[j] == lead[j]);
        } else if j < lead.len() + core.len() {
            assert(all[j] == core[j - lead.len()]);
        } else {
            assert(all[j] == trail[j - lead.len() - core.len()]);
        }
    }
}

proof fn lemma_flatten_delimiters(s: Seq<char>, seg: Seq<char>)
    requires
        has_no_delimiter(seg),
    ensures
        delimiters_of(flatten_from(s, seg)) == delimiters_of(s),
    decreases s.len(),
{
    if s.len() == 0 {
        lemma_segment_no_delimiter(seg);
        lemma_delimiters_none(segment_text(seg));
    } else if is_type_delimiter(s[0]) {
        lemma_segment_no_delimiter(seg);
        lemma_delimiters_none(segment_text(seg));
        lemma_flatten_delimiters(s.skip(1), Seq::empty());
        let a = segment_text(seg);
        let d = seq![s[0]];
        let rest = flatten_from(s.skip(1), Seq::empty());
        lemma_delimiters_concat(a, d);
        lemma_delimiters_concat(a + d, rest);
        assert(d.skip(1) =~= Seq::<char>::empty());
        assert(delimiters_of(d) == d + delimiters_of(Seq::<char>::empty()));
        assert(Seq::<char>::empty() + d + delimiters_of(s.skip(1)) =~= seq![s[0]] + delimiters_of(
            s.skip(1),
        ));
    } else {
        assert(has_no_delimiter(seg.push(s[0]))) by {
            assert forall|j: int| 0 <= j < seg.push(s[0]).len() implies !is_type_delimiter(
                #[trigger] seg.push(s[0])[j],
            ) by {
                if j < seg.len() {
                    assert(seg.push(s[0])[j] == seg[j]);
                }
            }
        }
        lemma_flatten_delimiters(s.skip(1), seg.push(s[0]));
    }
}

/// Flattening a type keeps its generics: its brackets, commas and
/// semicolons stay, in the same order.
pub proof fn law_flatten_keeps_delimiters(s: Seq<char>)
    ensures
        delimiters_of(flatten_type(s)) == delimiters_of(s),
{
    lemma_flatten_delimiters(s, Seq::empty());
}

} // verus!

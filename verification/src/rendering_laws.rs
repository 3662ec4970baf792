//! What the rendered definitions say of their inputs: type names of custom
//! types, `fn` and `op` declarations, and how the files are put together
//! from the declarations of each module and scope variable.

use vstd::prelude::*;
use crate::definitions::{
    comment_lines, fn_head, param_name_and_type, params_text, def_type_text, fn_item_text, fn_items, fn_keys, fn_text, is_operator_name,
    module_files, module_text, scope_file_text, static_text, sub_module_keys, var_items, var_keys,
};
use crate::sort::{is_permutation_of_range, law_sorted_order, sorted_order};
use crate::engine::{type_display_name, Engine, FnAccess, FuncInfo, Module, Scope};
use crate::tokenizer::{is_ascii_alpha, is_reserved_word, is_valid_identifier};
use crate::laws::{lemma_trim_end_whitespace, lemma_trim_start_whitespace};
use crate::text::{is_whitespace, join, lemma_join_push, replace, split_last, split_pieces, starts_with, trim, trim_end, trim_start};
use crate::type_names::{
    binding_sign, core_text, flatten_from, flatten_type, is_type_delimiter, path_separator,
    segment_text, strip_reference,
};

verus! {

// ---------------------------------------------------------------------------
// Text helpers
// ---------------------------------------------------------------------------

/// `p` occurs in `s`.
pub open spec fn text_contains(s: Seq<char>, p: Seq<char>) -> bool {
    exists|i: int| 0 <= i && i + p.len() <= s.len() && #[trigger] s.subrange(i, i + p.len()) == p
}

/// `s` is made only of ASCII letters, digits and underscores.
pub open spec fn is_plain_name(s: Seq<char>) -> bool {
    forall|j: int|
        0 <= j < s.len() ==> {
            let c = #[trigger] s[j];
            ('a' <= c && c <= 'z') || ('A' <= c && c <= 'Z') || ('0' <= c && c <= '9') || c == '_'
        }
}

/// Replacing a pattern that does not occur changes nothing.
pub proof fn lemma_replace_absent(s: Seq<char>, pat: Seq<char>, rep: Seq<char>)
    requires
        pat.len() > 0,
        !text_contains(s, pat),
    ensures
        replace(s, pat, rep) == s,
    decreases s.len(),
{
    if s.len() >= pat.len() {
        assert(s.subrange(0, pat.len() as int) != pat) by {
            if s.subrange(0, pat.len() as int) == pat {
                let z: int = 0;
                assert(s.subrange(z, z + pat.len()) == pat);
            }
        }
        let t = s.skip(1);
        assert(!text_contains(t, pat)) by {
            if text_contains(t, pat) {
                let i = choose|i: int|
                    0 <= i && i + pat.len() <= t.len() && #[trigger] t.subrange(i, i + pat.len()) == pat;
                assert(t.subrange(i, i + pat.len()) =~= s.subrange(i + 1, i + 1 + pat.len()));
            }
        }
        lemma_replace_absent(t, pat, rep);
        assert(seq![s[0]] + t =~= s);
    }
}

/// Splitting by a pattern that does not occur gives the whole text.
proof fn lemma_split_absent(s: Seq<char>, pat: Seq<char>)
    requires
        pat.len() > 0,
        !text_contains(s, pat),
    ensures
        split_pieces(s, pat) == seq![s],
    decreases s.len(),
{
    if s.len() >= pat.len() {
        assert(s.subrange(0, pat.len() as int) != pat) by {
            if s.subrange(0, pat.len() as int) == pat {
                let z: int = 0;
                assert(s.subrange(z, z + pat.len()) == pat);
            }
        }
        let t = s.skip(1);
        assert(!text_contains(t, pat)) by {
            if text_contains(t, pat) {
                let i = choose|i: int|
                    0 <= i && i + pat.len() <= t.len() && #[trigger] t.subrange(i, i + pat.len()) == pat;
                assert(t.subrange(i, i + pat.len()) =~= s.subrange(i + 1, i + 1 + pat.len()));
            }
        }
        lemma_split_absent(t, pat);
        assert(seq![s[0]] + t =~= s);
        assert(seq![t].update(0, seq![s[0]] + t) =~= seq![s]);
    }
}

/// A pattern with a character that a plain name lacks does not occur in it.
proof fn lemma_absent_by_char(s: Seq<char>, pat: Seq<char>, q: int)
    requires
        is_plain_name(s),
        0 <= q < pat.len(),
        !(('a' <= pat[q] && pat[q] <= 'z') || ('A' <= pat[q] && pat[q] <= 'Z') || ('0' <= pat[q]
            && pat[q] <= '9') || pat[q] == '_'),
    ensures
        !text_contains(s, pat),
{
    if text_contains(s, pat) {
        let i = choose|i: int|
            0 <= i && i + pat.len() <= s.len() && #[trigger] s.subrange(i, i + pat.len()) == pat;
        assert(s.subrange(i, i + pat.len())[q] == s[i + q]);
    }
}

/// A plain name is flattened into itself.
proof fn lemma_flatten_plain(s: Seq<char>, seg: Seq<char>)
    requires
        is_plain_name(s),
        is_plain_name(seg),
    ensures
        flatten_from(s, seg) == segment_text(seg + s),
    decreases s.len(),
{
    if s.len() == 0 {
        assert(seg + s =~= seg);
    } else {
        assert(!is_type_delimiter(s[0]));
        let seg2 = seg.push(s[0]);
        assert(is_plain_name(seg2)) by {
            assert forall|j: int| 0 <= j < seg2.len() implies {
                let c = #[trigger] seg2[j];
                ('a' <= c && c <= 'z') || ('A' <= c && c <= 'Z') || ('0' <= c && c <= '9') || c
                    == '_'
            } by {
                if j < seg.len() {
                    assert(seg2[j] == seg[j]);
                }
            }
        }
        assert(is_plain_name(s.skip(1))) by {
            assert forall|j: int| 0 <= j < s.skip(1).len() implies {
                let c = #[trigger] s.skip(1)[j];
                ('a' <= c && c <= 'z') || ('A' <= c && c <= 'Z') || ('0' <= c && c <= '9') || c
                    == '_'
            } by {
                assert(s.skip(1)[j] == s[j + 1]);
            }
        }
        lemma_flatten_plain(s.skip(1), seg2);
        assert(seg2 + s.skip(1) =~= seg + s);
    }
}

/// A plain name is its own part of a type.
proof fn lemma_segment_plain(x: Seq<char>)
    requires
        is_plain_name(x),
    ensures
        segment_text(x) == x,
{
    lemma_trim_start_whitespace(x);
    if x.len() > 0 {
        assert(!is_whitespace(x[0]));
        assert(!is_whitespace(x.last()));
    }
    assert(trim_start(x) == x);
    lemma_trim_end_whitespace(x);
    assert(trim_end(x) == x);
    assert(trim(x) == x);
    assert(x.take(0) =~= Seq::<char>::empty());
    assert(x.skip(x.len() as int) =~= Seq::<char>::empty());
    assert(strip_reference(x) == x);
    lemma_absent_by_char(x, binding_sign(), 0);
    lemma_split_absent(x, binding_sign());
    assert(split_last(x, binding_sign()) == x);
    lemma_absent_by_char(x, path_separator(), 0);
    lemma_split_absent(x, path_separator());
    assert(core_text(x) == x);
    assert(Seq::<char>::empty() + x + Seq::<char>::empty() =~= x);
}

/// The display name registered for a type is the engine's name for it.
proof fn lemma_display_name(types: Seq<(String, String)>, ty: Seq<char>, i: int)
    requires
        0 <= i < types.len(),
        types[i].0@ == ty,
        forall|j: int| 0 <= j < i ==> types[j].0@ != ty,
    ensures
        type_display_name(types, ty) == types[i].1@,
    decreases i,
{
    if i > 0 {
        lemma_display_name(types.skip(1), ty, i - 1);
    }
}

// ---------------------------------------------------------------------------
// Laws
// ---------------------------------------------------------------------------

/// A type registered as a custom type is written by its registered display
/// name, when that name is made of ASCII letters, digits and underscores and
/// holds none of the words that get script names (`Dynamic`, `INT`, `FLOAT`,
/// `ImmutableString`).
pub proof fn law_custom_type_display_name(ty: Seq<char>, e: Engine, i: int)
    requires
        0 <= i < e.custom_types@.len(),
        e.custom_types@[i].0@ == ty,
        forall|j: int| 0 <= j < i ==> e.custom_types@[j].0@ != ty,
        is_plain_name(e.custom_types@[i].1@),
        !text_contains(e.custom_types@[i].1@, "Dynamic"@),
        !text_contains(e.custom_types@[i].1@, "INT"@),
        !text_contains(e.custom_types@[i].1@, "FLOAT"@),
        !text_contains(e.custom_types@[i].1@, "ImmutableString"@),
    ensures
        def_type_text(ty, e) == e.custom_types@[i].1@,
{
    let d = e.custom_types@[i].1@;
    lemma_display_name(e.custom_types@, ty, i);
    assert(e.formatted_type_name(ty) == d);
    reveal_strlit("crate::");
    reveal_strlit("&str");
    reveal_strlit("RhaiResultOf<");
    reveal_strlit("Dynamic");
    reveal_strlit("INT");
    reveal_strlit("FLOAT");
    reveal_strlit("ImmutableString");
    lemma_absent_by_char(d, "crate::"@, 5);
    lemma_replace_absent(d, "crate::"@, ""@);
    lemma_absent_by_char(d, "&str"@, 0);
    lemma_replace_absent(d, "&str"@, "String"@);
    lemma_flatten_plain(d, Seq::empty());
    assert(Seq::<char>::empty() + d =~= d);
    lemma_segment_plain(d);
    assert(flatten_type(d) == d);
    lemma_segment_plain(d);
    assert(trim(d) == d);
    assert(!starts_with(d, "RhaiResultOf<"@)) by {
        if starts_with(d, "RhaiResultOf<"@) {
            assert(d.subrange(0, 13)[12] == d[12]);
        }
    }
    lemma_replace_absent(d, "Dynamic"@, "?"@);
    lemma_replace_absent(d, "INT"@, "int"@);
    lemma_replace_absent(d, "FLOAT"@, "float"@);
    lemma_replace_absent(d, "ImmutableString"@, "String"@);
}

/// An ASCII letter.
pub open spec fn is_letter(c: char) -> bool {
    ('a' <= c && c <= 'z') || ('A' <= c && c <= 'Z')
}

proof fn lemma_starts_with_prefix(p: Seq<char>, r: Seq<char>)
    ensures
        starts_with(p + r, p),
{
    assert((p + r).subrange(0, p.len() as int) =~= p);
}

/// A public function whose name is made of ASCII letters (of either case),
/// digits and underscores, has a letter before any digit, and is neither a
/// reserved word nor a custom keyword is declared with `fn`.
pub proof fn law_plain_names_declared_with_fn(f: FuncInfo, e: Engine)
    requires
        f.metadata.access is Public,
        f.metadata.comments@.len() == 0,
        is_plain_name(f.metadata.name@),
        exists|j: int| 0 <= j < f.metadata.name@.len() && is_letter(#[trigger] f.metadata.name@[j]),
        forall|j: int|
            0 <= j < f.metadata.name@.len() && '0' <= #[trigger] f.metadata.name@[j] && f.metadata.name@[j]
                <= '9' ==> exists|i: int| 0 <= i < j && is_letter(#[trigger] f.metadata.name@[i]),
        !is_reserved_word(f.metadata.name@),
        !e.has_custom_keyword(f.metadata.name@),
    ensures
        starts_with(fn_item_text(f, e), "fn "@),
{
    let n = f.metadata.name@;
    assert(!n.contains('$')) by {
        if n.contains('$') {
            let j = choose|j: int| 0 <= j < n.len() && n[j] == '$';
            assert(is_plain_name(n));
            let c = n[j];
            assert(('a' <= c && c <= 'z') || ('A' <= c && c <= 'Z') || ('0' <= c && c <= '9') || c == '_');
        }
    }
    assert(is_valid_identifier(n)) by {
        let j0 = choose|j: int| 0 <= j < n.len() && is_letter(#[trigger] n[j]);
        assert(is_ascii_alpha(n[j0]));
        assert forall|i: int| 0 <= i < n.len() implies {
            ||| n[i] == '_'
            ||| is_ascii_alpha(#[trigger] n[i])
            ||| (crate::tokenizer::is_ascii_digit(n[i]) && exists|j: int|
                0 <= j < i && is_ascii_alpha(#[trigger] n[j]))
        } by {
            let c = n[i];
            assert(('a' <= c && c <= 'z') || ('A' <= c && c <= 'Z') || ('0' <= c && c <= '9') || c == '_');
            if '0' <= c && c <= '9' {
                let k = choose|k: int| 0 <= k < i && is_letter(#[trigger] n[k]);
                assert(is_ascii_alpha(n[k]));
            }
        }
    }
    assert(!is_operator_name(e, n));
    assert(comment_lines(f.metadata.comments@) =~= Seq::<char>::empty());
    let rest = crate::definitions::fn_head(n) + crate::definitions::params_text(f.metadata, e, false)
        + ") -> "@ + def_type_text(f.metadata.return_type@, e) + ";"@;
    assert(fn_item_text(f, e) =~= "fn "@ + rest);
    lemma_starts_with_prefix("fn "@, rest);
}

/// A public function is declared with `op` when its name is a custom
/// keyword, or when it holds no `$` and either holds a character other than
/// an ASCII letter, digit or underscore, or is a reserved word.
pub proof fn law_operator_names_declared_with_op(f: FuncInfo, e: Engine)
    requires
        f.metadata.access is Public,
        f.metadata.comments@.len() == 0,
        ({
            let n = f.metadata.name@;
            ||| e.has_custom_keyword(n)
            ||| (!n.contains('$') && (!is_plain_name(n) || is_reserved_word(n)))
        }),
    ensures
        starts_with(fn_item_text(f, e), "op "@),
{
    let n = f.metadata.name@;
    if !e.has_custom_keyword(n) && !is_plain_name(n) {
        assert(!is_valid_identifier(n)) by {
            let j = choose|j: int|
                0 <= j < n.len() && !({
                    let c = #[trigger] n[j];
                    ('a' <= c && c <= 'z') || ('A' <= c && c <= 'Z') || ('0' <= c && c <= '9') || c
                        == '_'
                });
            if is_valid_identifier(n) {
                assert(n[j] == '_' || is_ascii_alpha(n[j]) || crate::tokenizer::is_ascii_digit(n[j]));
            }
        }
    }
    assert(is_operator_name(e, n));
    assert(comment_lines(f.metadata.comments@) =~= Seq::<char>::empty());
    let rest = crate::definitions::fn_head(n) + crate::definitions::params_text(f.metadata, e, true)
        + ") -> "@ + def_type_text(f.metadata.return_type@, e) + ";"@;
    assert(fn_item_text(f, e) =~= "op "@ + rest);
    lemma_starts_with_prefix("op "@, rest);
}

// ---------------------------------------------------------------------------
// How the files are put together
// ---------------------------------------------------------------------------

proof fn lemma_contains_self(p: Seq<char>)
    ensures
        text_contains(p, p),
{
    let z: int = 0;
    assert(p.subrange(z, z + p.len()) =~= p);
}

proof fn lemma_contains_left(a: Seq<char>, b: Seq<char>, p: Seq<char>)
    requires
        text_contains(a, p),
    ensures
        text_contains(a + b, p),
{
    let i = choose|i: int| 0 <= i && i + p.len() <= a.len() && #[trigger] a.subrange(i, i + p.len()) == p;
    assert((a + b).subrange(i, i + p.len()) =~= a.subrange(i, i + p.len()));
}

proof fn lemma_contains_right(a: Seq<char>, b: Seq<char>, p: Seq<char>)
    requires
        text_contains(b, p),
    ensures
        text_contains(a + b, p),
{
    let i = choose|i: int| 0 <= i && i + p.len() <= b.len() && #[trigger] b.subrange(i, i + p.len()) == p;
    assert((a + b).subrange(a.len() + i, a.len() + i + p.len()) =~= b.subrange(i, i + p.len()));
}

proof fn lemma_contains_transitive(s: Seq<char>, t: Seq<char>, p: Seq<char>)
    requires
        text_contains(s, t),
        text_contains(t, p),
    ensures
        text_contains(s, p),
{
    let i = choose|i: int| 0 <= i && i + t.len() <= s.len() && #[trigger] s.subrange(i, i + t.len()) == t;
    let j = choose|j: int| 0 <= j && j + p.len() <= t.len() && #[trigger] t.subrange(j, j + p.len()) == p;
    assert(s.subrange(i + j, i + j + p.len()) =~= t.subrange(j, j + p.len()));
}

/// Each item of a joined list occurs in the joined text.
proof fn lemma_join_contains(items: Seq<Seq<char>>, sep: Seq<char>, k: int)
    requires
        0 <= k < items.len(),
    ensures
        text_contains(join(items, sep), items[k]),
    decreases items.len(),
{
    if items.len() == 1 {
        lemma_contains_self(items[0]);
    } else {
        let init = items.drop_last();
        assert(join(items, sep) == join(init, sep) + sep + items.last());
        if k < items.len() - 1 {
            lemma_join_contains(init, sep, k);
            assert(init[k] == items[k]);
            lemma_contains_left(join(init, sep), sep, items[k]);
            lemma_contains_left(join(init, sep) + sep, items.last(), items[k]);
        } else {
            lemma_contains_self(items.last());
            lemma_contains_right(join(init, sep) + sep, items.last(), items[k]);
        }
    }
}

/// A permutation of `0..n` holds every index of that range.
proof fn lemma_permutation_hits(o: Seq<int>, n: int, i: int) -> (k: int)
    requires
        is_permutation_of_range(o, n),
        0 <= i < n,
    ensures
        0 <= k < o.len(),
        o[k] == i,
{
    if !exists|k: int| 0 <= k < o.len() && o[k] == i {
        let s = o.to_set();
        o.unique_seq_to_set();
        vstd::set_lib::lemma_int_range(0, n);
        let rest = vstd::set_lib::set_int_range(0, n).remove(i);
        assert forall|x: int| s.contains(x) implies rest.contains(x) by {
            let k = choose|k: int| 0 <= k < o.len() && o[k] == x;
        }
        vstd::set_lib::lemma_len_subset(s, rest);
    }
    choose|k: int| 0 <= k < o.len() && o[k] == i
}

/// Every variable of a module is declared in the module's definitions as
/// `const <name>: ?;`.
pub proof fn law_module_declares_variable(m: Module, e: Engine, j: int)
    requires
        0 <= j < m.variables@.len(),
    ensures
        text_contains(module_text(m, e), "const "@ + m.variables@[j]@ + ": ?;"@),
{
    law_sorted_order(var_keys(m));
    let o = sorted_order(var_keys(m));
    let k = lemma_permutation_hits(o, m.variables@.len() as int, j);
    let items = var_items(m) + fn_items(m, e);
    assert(items[k] == var_items(m)[k]);
    lemma_join_contains(items, "\n\n"@, k);
}

/// Every public function of a module is declared in the module's
/// definitions, as an operator or a function as its name decides.
pub proof fn law_module_declares_function(m: Module, e: Engine, j: int)
    requires
        0 <= j < m.functions@.len(),
        m.functions@[j].metadata.access is Public,
    ensures
        text_contains(
            module_text(m, e),
            fn_text(m.functions@[j], e, is_operator_name(e, m.functions@[j].metadata.name@)),
        ),
{
    law_sorted_order(var_keys(m));
    law_sorted_order(fn_keys(m));
    let o = sorted_order(fn_keys(m));
    let k = lemma_permutation_hits(o, m.functions@.len() as int, j);
    let nv = var_items(m).len();
    let items = var_items(m) + fn_items(m, e);
    assert(items[nv + k] == fn_items(m, e)[k]);
    lemma_join_contains(items, "\n\n"@, nv + k);
}

/// The static definitions are `module static;`, a blank line, and then the
/// definitions of each global module, exactly as rendering that module on
/// its own gives them, in order, each two separated by a blank line.
pub proof fn law_static_is_global_module_definitions(e: Engine)
    ensures
        static_text(e) == "module static;\n\n"@ + join(
            Seq::new(e.global_modules@.len(), |i: int| module_text(e.global_modules@[i], e)),
            "\n\n"@,
        ),
{
}

/// Every variable and public function of every global module is declared
/// in the static definitions.
pub proof fn law_static_declares_global_items(e: Engine, i: int, j: int)
    requires
        0 <= i < e.global_modules@.len(),
    ensures
        0 <= j < e.global_modules@[i].variables@.len() ==> text_contains(
            static_text(e),
            "const "@ + e.global_modules@[i].variables@[j]@ + ": ?;"@,
        ),
        (0 <= j < e.global_modules@[i].functions@.len()
            && e.global_modules@[i].functions@[j].metadata.access is Public) ==> text_contains(
            static_text(e),
            fn_text(
                e.global_modules@[i].functions@[j],
                e,
                is_operator_name(e, e.global_modules@[i].functions@[j].metadata.name@),
            ),
        ),
{
    let m = e.global_modules@[i];
    let mods = Seq::new(e.global_modules@.len(), |i: int| module_text(e.global_modules@[i], e));
    lemma_join_contains(mods, "\n\n"@, i);
    lemma_contains_right("module static;\n\n"@, join(mods, "\n\n"@), module_text(m, e));
    if 0 <= j < m.variables@.len() {
        law_module_declares_variable(m, e, j);
        lemma_contains_transitive(static_text(e), module_text(m, e), "const "@ + m.variables@[j]@ + ": ?;"@);
    }
    if 0 <= j < m.functions@.len() && m.functions@[j].metadata.access is Public {
        law_module_declares_function(m, e, j);
        lemma_contains_transitive(
            static_text(e),
            module_text(m, e),
            fn_text(m.functions@[j], e, is_operator_name(e, m.functions@[j].metadata.name@)),
        );
    }
}

/// The file of each sub-module is `module <name>;`, a blank line, and then
/// exactly what rendering that module on its own gives; the files follow the
/// sorted order of the sub-module names.
pub proof fn law_module_file_is_module_definition(e: Engine, k: int)
    requires
        0 <= k < module_files(e).len(),
    ensures
        ({
            let i = sorted_order(sub_module_keys(e))[k];
            &&& 0 <= i < e.global_sub_modules@.len()
            &&& module_files(e)[k] == (
                e.global_sub_modules@[i].0@,
                "module "@ + e.global_sub_modules@[i].0@ + ";\n\n"@ + module_text(
                    e.global_sub_modules@[i].1,
                    e,
                ),
            )
        }),
{
    law_sorted_order(sub_module_keys(e));
}

/// The scope definitions are `module static;`, a blank line, and the
/// declaration of each scope variable in the order the variables were added:
/// the k-th is `const <name>;` or `let <name>;` for the k-th variable, each
/// two separated by a blank line.
pub proof fn law_scope_declarations_in_order(sc: Scope)
    ensures
        scope_file_text(Some(sc)) == "module static;\n\n"@ + join(
            Seq::new(
                sc.entries@.len(),
                |k: int|
                    (if sc.entries@[k].constant {
                        "const "@
                    } else {
                        "let "@
                    }) + sc.entries@[k].name@ + ";"@,
            ),
            "\n\n"@,
        ),
{
    let a = Seq::new(sc.entries@.len(), |k: int| crate::definitions::scope_entry_text(sc.entries@[k]));
    let b = Seq::new(
        sc.entries@.len(),
        |k: int|
            (if sc.entries@[k].constant {
                "const "@
            } else {
                "let "@
            }) + sc.entries@[k].name@ + ";"@,
    );
    assert(a =~= b);
}

// ---------------------------------------------------------------------------
// The declarations of a module, in order
// ---------------------------------------------------------------------------

/// A module's definitions are the declarations of its variables, in the
/// sorted order of their names, then those of its functions, in the sorted
/// order of their keys, each two separated by a blank line: a variable as
/// `const <name>: ?;`, a public function as an operator or function as its
/// name decides, and a private function as nothing.
pub proof fn law_module_text_declarations(m: Module, e: Engine)
    ensures
        module_text(m, e) == join(
            Seq::new(
                m.variables@.len(),
                |k: int| "const "@ + m.variables@[sorted_order(var_keys(m))[k]]@ + ": ?;"@,
            ) + Seq::new(
                m.functions@.len(),
                |k: int|
                    {
                        let f = m.functions@[sorted_order(fn_keys(m))[k]];
                        if f.metadata.access is Public {
                            fn_text(f, e, is_operator_name(e, f.metadata.name@))
                        } else {
                            Seq::empty()
                        }
                    },
            ),
            "\n\n"@,
        ),
{
    law_sorted_order(var_keys(m));
    law_sorted_order(fn_keys(m));
    let v = Seq::new(
        m.variables@.len(),
        |k: int| "const "@ + m.variables@[sorted_order(var_keys(m))[k]]@ + ": ?;"@,
    );
    let f = Seq::new(
        m.functions@.len(),
        |k: int|
            {
                let f = m.functions@[sorted_order(fn_keys(m))[k]];
                if f.metadata.access is Public {
                    fn_text(f, e, is_operator_name(e, f.metadata.name@))
                } else {
                    Seq::empty()
                }
            },
    );
    assert(var_items(m) =~= v);
    assert forall|k: int| 0 <= k < f.len() implies fn_items(m, e)[k] == f[k] by {
        let g = m.functions@[sorted_order(fn_keys(m))[k]];
        match g.metadata.access {
            FnAccess::Public => {},
            FnAccess::Private => {},
        }
    }
    assert(fn_items(m, e) =~= f);
}

/// Along a module's declarations, functions are ordered by name, and
/// functions of the same name by their number of parameters.
pub proof fn law_module_functions_by_name_then_arity(m: Module, p: int, q: int)
    requires
        0 <= p < q < m.functions@.len(),
    ensures
        ({
            let a = m.functions@[sorted_order(fn_keys(m))[p]].metadata;
            let b = m.functions@[sorted_order(fn_keys(m))[q]].metadata;
            &&& !crate::text::lex_lt(b.name@, a.name@)
            &&& a.name@ == b.name@ ==> a.params <= b.params
        }),
{
    law_sorted_order(fn_keys(m));
    let o = sorted_order(fn_keys(m));
    let keys = fn_keys(m);
    assert(crate::sort::index_before(keys, o[p], o[q]));
    let a = m.functions@[o[p]].metadata;
    let b = m.functions@[o[q]].metadata;
    assert(keys[o[p]].0 == a.name@);
    assert(keys[o[q]].0 == b.name@);
    if crate::text::lex_lt(b.name@, a.name@) {
        crate::text::lemma_lex_irreflexive(a.name@);
        if crate::text::lex_lt(a.name@, b.name@) {
            crate::text::lemma_lex_transitive(a.name@, b.name@, a.name@);
        }
    }
}

// ---------------------------------------------------------------------------
// References and paths are dropped from type names
// ---------------------------------------------------------------------------

/// A type name that no custom type is registered under is shown as itself.
proof fn lemma_display_unregistered(types: Seq<(String, String)>, ty: Seq<char>)
    requires
        forall|j: int| 0 <= j < types.len() ==> (#[trigger] types[j]).0@ != ty,
    ensures
        type_display_name(types, ty) == ty,
    decreases types.len(),
{
    if types.len() > 0 {
        assert forall|j: int| 0 <= j < types.skip(1).len() implies (#[trigger] types.skip(1)[j]).0@
            != ty by {
            assert(types.skip(1)[j] == types[j + 1]);
        }
        lemma_display_unregistered(types.skip(1), ty);
    }
}

/// A pattern with a character that does not occur in `s` does not occur in `s`.
proof fn lemma_absent_missing_char(s: Seq<char>, pat: Seq<char>, q: int)
    requires
        0 <= q < pat.len(),
        forall|j: int| 0 <= j < s.len() ==> s[j] != pat[q],
    ensures
        !text_contains(s, pat),
{
    if text_contains(s, pat) {
        let i = choose|i: int|
            0 <= i && i + pat.len() <= s.len() && #[trigger] s.subrange(i, i + pat.len()) == pat;
        assert(s.subrange(i, i + pat.len())[q] == s[i + q]);
    }
}

/// The script names for a type already written: its final replacements
/// change nothing when none of the words occurs.
proof fn lemma_final_replacements_absent(t: Seq<char>)
    requires
        !text_contains(t, "Dynamic"@),
        !text_contains(t, "INT"@),
        !text_contains(t, "FLOAT"@),
        !text_contains(t, "ImmutableString"@),
    ensures
        replace(replace(replace(replace(t, "Dynamic"@, "?"@), "INT"@, "int"@), "FLOAT"@, "float"@), "ImmutableString"@, "String"@) == t,
{
    reveal_strlit("Dynamic");
    reveal_strlit("INT");
    reveal_strlit("FLOAT");
    reveal_strlit("ImmutableString");
    lemma_replace_absent(t, "Dynamic"@, "?"@);
    lemma_replace_absent(t, "INT"@, "int"@);
    lemma_replace_absent(t, "FLOAT"@, "float"@);
    lemma_replace_absent(t, "ImmutableString"@, "String"@);
}

/// A plain name after `&` or `&mut ` is written as the name alone: the
/// reference marker is dropped.
pub proof fn law_reference_dropped(x: Seq<char>, e: Engine, with_mut: bool)
    requires
        x.len() > 0,
        is_plain_name(x),
        !text_contains(x, "Dynamic"@),
        !text_contains(x, "INT"@),
        !text_contains(x, "FLOAT"@),
        !text_contains(x, "ImmutableString"@),
        !text_contains((if with_mut { "&mut "@ } else { "&"@ }) + x, "&str"@),
        forall|j: int|
            0 <= j < e.custom_types@.len() ==> (#[trigger] e.custom_types@[j]).0@ != (if with_mut {
                "&mut "@
            } else {
                "&"@
            }) + x,
    ensures
        def_type_text((if with_mut { "&mut "@ } else { "&"@ }) + x, e) == x,
{
    reveal_strlit("&mut ");
    reveal_strlit("&");
    reveal_strlit("crate::");
    reveal_strlit("&str");
    reveal_strlit("RhaiResultOf<");
    let pre = if with_mut { "&mut "@ } else { "&"@ };
    let ty = pre + x;
    lemma_display_unregistered(e.custom_types@, ty);
    assert(e.formatted_type_name(ty) == ty);
    assert forall|j: int| 0 <= j < ty.len() implies ty[j] != "crate::"@[5] by {
        if j >= pre.len() {
            assert(ty[j] == x[j - pre.len()]);
        }
    }
    lemma_absent_missing_char(ty, "crate::"@, 5);
    lemma_replace_absent(ty, "crate::"@, ""@);
    lemma_replace_absent(ty, "&str"@, "String"@);
    assert forall|j: int| 0 <= j < ty.len() implies !is_type_delimiter(#[trigger] ty[j]) by {
        if j >= pre.len() {
            assert(ty[j] == x[j - pre.len()]);
        }
    }
    lemma_flatten_no_delimiter(ty, Seq::empty());
    assert(Seq::<char>::empty() + ty =~= ty);
    // The part is the whole name; it has no surrounding whitespace.
    assert(!is_whitespace(ty[0]));
    assert(ty.last() == x.last());
    assert(!is_whitespace(ty.last()));
    assert(trim_start(ty) == ty);
    assert(trim_end(ty) == ty);
    assert(ty.take(0) =~= Seq::<char>::empty());
    assert(ty.skip(ty.len() as int) =~= Seq::<char>::empty());
    // The reference marker goes.
    let d = trim_start(ty.skip(1));
    if with_mut {
        assert(ty.skip(1) =~= seq!['m', 'u', 't', ' '] + x);
        assert(d == ty.skip(1));
        assert(d.skip(3) =~= seq![' '] + x);
        assert(seq![' '].add(x).skip(1) =~= x);
        assert(trim_start(d.skip(3)) == trim_start(x));
    } else {
        assert(ty.skip(1) =~= x);
    }
    assert(trim_start(x) == x);
    assert(strip_reference(ty) == x);
    lemma_absent_by_char(x, binding_sign(), 0);
    lemma_split_absent(x, binding_sign());
    lemma_absent_by_char(x, path_separator(), 0);
    lemma_split_absent(x, path_separator());
    assert(core_text(ty) == x);
    assert(segment_text(ty) =~= x);
    assert(flatten_type(ty) == x);
    assert(trim(x) == x);
    assert(!starts_with(x, "RhaiResultOf<"@)) by {
        if starts_with(x, "RhaiResultOf<"@) {
            assert(x.subrange(0, 13)[12] == x[12]);
        }
    }
    lemma_final_replacements_absent(x);
}

/// Flattening a run without delimiters adds it to the current part.
proof fn lemma_flatten_no_delimiter(s: Seq<char>, seg: Seq<char>)
    requires
        forall|j: int| 0 <= j < s.len() ==> !is_type_delimiter(#[trigger] s[j]),
    ensures
        flatten_from(s, seg) == segment_text(seg + s),
    decreases s.len(),
{
    if s.len() == 0 {
        assert(seg + s =~= seg);
    } else {
        assert(!is_type_delimiter(s[0]));
        assert forall|j: int| 0 <= j < s.skip(1).len() implies !is_type_delimiter(
            #[trigger] s.skip(1)[j],
        ) by {
            assert(s.skip(1)[j] == s[j + 1]);
        }
        lemma_flatten_no_delimiter(s.skip(1), seg.push(s[0]));
        assert(seg.push(s[0]) + s.skip(1) =~= seg + s);
    }
}

/// Flattening a run without delimiters adds it to the current part, and
/// goes on with what follows.
proof fn lemma_flatten_run(a: Seq<char>, rest: Seq<char>, seg: Seq<char>)
    requires
        forall|j: int| 0 <= j < a.len() ==> !is_type_delimiter(#[trigger] a[j]),
    ensures
        flatten_from(a + rest, seg) == flatten_from(rest, seg + a),
    decreases a.len(),
{
    if a.len() == 0 {
        assert(a + rest =~= rest);
        assert(seg + a =~= seg);
    } else {
        assert((a + rest)[0] == a[0]);
        assert((a + rest).skip(1) =~= a.skip(1) + rest);
        assert forall|j: int| 0 <= j < a.skip(1).len() implies !is_type_delimiter(
            #[trigger] a.skip(1)[j],
        ) by {
            assert(a.skip(1)[j] == a[j + 1]);
        }
        lemma_flatten_run(a.skip(1), rest, seg.push(a[0]));
        assert(seg.push(a[0]) + a.skip(1) =~= seg + a);
    }
}

/// A path `p::x` of names without colons splits into `p` and `x`.
proof fn lemma_split_path(p: Seq<char>, x: Seq<char>)
    requires
        forall|j: int| 0 <= j < p.len() ==> p[j] != ':',
        forall|j: int| 0 <= j < x.len() ==> x[j] != ':',
    ensures
        split_pieces(p + path_separator() + x, path_separator()) == seq![p, x],
    decreases p.len(),
{
    let s = p + path_separator() + x;
    lemma_absent_missing_char(x, path_separator(), 0);
    lemma_split_absent(x, path_separator());
    if p.len() == 0 {
        assert(s =~= path_separator() + x);
        assert(s.subrange(0, 2) =~= path_separator());
        assert(s.skip(2) =~= x);
        assert(p =~= Seq::<char>::empty());
        assert(seq![Seq::<char>::empty()] + seq![x] =~= seq![p, x]);
    } else {
        assert(s[0] == p[0]);
        assert(s.subrange(0, 2) != path_separator()) by {
            assert(s.subrange(0, 2)[0] == p[0]);
        }
        assert(s.skip(1) =~= p.skip(1) + path_separator() + x);
        lemma_split_path(p.skip(1), x);
        assert(seq![s[0]] + p.skip(1) =~= p);
        assert(seq![p.skip(1), x].update(0, seq![s[0]] + p.skip(1)) =~= seq![p, x]);
    }
}

/// A pattern without the character `d` that occurs in neither `a` nor `b`
/// does not occur in `a`, `d`, `b` put together.
proof fn lemma_absent_around(a: Seq<char>, d: char, b: Seq<char>, pat: Seq<char>)
    requires
        pat.len() > 0,
        !text_contains(a, pat),
        !text_contains(b, pat),
        forall|q: int| 0 <= q < pat.len() ==> pat[q] != d,
    ensures
        !text_contains(a + seq![d] + b, pat),
{
    let s = a + seq![d] + b;
    if text_contains(s, pat) {
        let i = choose|i: int|
            0 <= i && i + pat.len() <= s.len() && #[trigger] s.subrange(i, i + pat.len()) == pat;
        if i + pat.len() <= a.len() {
            assert(s.subrange(i, i + pat.len()) =~= a.subrange(i, i + pat.len()));
        } else if i > a.len() {
            let k = i - a.len() - 1;
            assert(s.subrange(i, i + pat.len()) =~= b.subrange(k, k + pat.len()));
        } else {
            assert(s.subrange(i, i + pat.len())[a.len() - i] == d);
        }
    }
}

/// No script word occurs in a text of plain names joined by brackets.
proof fn lemma_words_absent_around(a: Seq<char>, d: char, b: Seq<char>)
    requires
        d == '<' || d == '>',
        !text_contains(a, "Dynamic"@),
        !text_contains(a, "INT"@),
        !text_contains(a, "FLOAT"@),
        !text_contains(a, "ImmutableString"@),
        !text_contains(b, "Dynamic"@),
        !text_contains(b, "INT"@),
        !text_contains(b, "FLOAT"@),
        !text_contains(b, "ImmutableString"@),
    ensures
        !text_contains(a + seq![d] + b, "Dynamic"@),
        !text_contains(a + seq![d] + b, "INT"@),
        !text_contains(a + seq![d] + b, "FLOAT"@),
        !text_contains(a + seq![d] + b, "ImmutableString"@),
{
    reveal_strlit("Dynamic");
    reveal_strlit("INT");
    reveal_strlit("FLOAT");
    reveal_strlit("ImmutableString");
    lemma_absent_around(a, d, b, "Dynamic"@);
    lemma_absent_around(a, d, b, "INT"@);
    lemma_absent_around(a, d, b, "FLOAT"@);
    lemma_absent_around(a, d, b, "ImmutableString"@);
}

/// The written part `p::x` of a type is `x`.
proof fn lemma_segment_path(p: Seq<char>, x: Seq<char>)
    requires
        is_plain_name(p),
        is_plain_name(x),
        x.len() > 0,
    ensures
        segment_text(p + path_separator() + x) == x,
{
    let mid = p + path_separator() + x;
    assert(!is_whitespace(mid[0])) by {
        if p.len() > 0 {
            assert(mid[0] == p[0]);
        }
    }
    assert(mid.last() == x.last());
    assert(!is_whitespace(mid.last()));
    assert(trim_start(mid) == mid);
    assert(trim_end(mid) == mid);
    assert(mid.take(0) =~= Seq::<char>::empty());
    assert(mid.skip(mid.len() as int) =~= Seq::<char>::empty());
    assert(mid[0] != '&') by {
        if p.len() > 0 {
            assert(mid[0] == p[0]);
        }
    }
    assert(strip_reference(mid) == mid);
    assert forall|j: int| 0 <= j < mid.len() implies mid[j] != binding_sign()[0] by {
        if j < p.len() {
            assert(mid[j] == p[j]);
        } else if j >= p.len() + 2 {
            assert(mid[j] == x[j - p.len() - 2]);
        }
    }
    lemma_absent_missing_char(mid, binding_sign(), 0);
    lemma_split_absent(mid, binding_sign());
    assert forall|j: int| 0 <= j < p.len() implies p[j] != ':' by {
        assert(is_plain_name(p));
    }
    assert forall|j: int| 0 <= j < x.len() implies x[j] != ':' by {
        assert(is_plain_name(x));
    }
    lemma_split_path(p, x);
    assert(core_text(mid) == x);
    assert(Seq::<char>::empty() + x + Seq::<char>::empty() =~= x);
}

/// Paths inside generics are dropped while the generics are kept: a plain
/// name `g` with the path `p::x` as its parameter is written `g<x>`.
pub proof fn law_path_inside_generics_dropped(g: Seq<char>, p: Seq<char>, x: Seq<char>, e: Engine)
    requires
        g.len() > 0,
        x.len() > 0,
        is_plain_name(g),
        is_plain_name(p),
        is_plain_name(x),
        g != "RhaiResultOf"@,
        !text_contains(g + "<"@ + p + "::"@ + x + ">"@, "crate::"@),
        !text_contains(g, "Dynamic"@),
        !text_contains(g, "INT"@),
        !text_contains(g, "FLOAT"@),
        !text_contains(g, "ImmutableString"@),
        !text_contains(x, "Dynamic"@),
        !text_contains(x, "INT"@),
        !text_contains(x, "FLOAT"@),
        !text_contains(x, "ImmutableString"@),
        forall|j: int|
            0 <= j < e.custom_types@.len() ==> (#[trigger] e.custom_types@[j]).0@ != g + "<"@ + p
                + "::"@ + x + ">"@,
    ensures
        def_type_text(g + "<"@ + p + "::"@ + x + ">"@, e) == g + "<"@ + x + ">"@,
{
    reveal_strlit("<");
    reveal_strlit(">");
    reveal_strlit("::");
    reveal_strlit("crate::");
    reveal_strlit("&str");
    reveal_strlit("RhaiResultOf<");
    reveal_strlit("RhaiResultOf");
    let ty = g + "<"@ + p + "::"@ + x + ">"@;
    let mid = p + path_separator() + x;
    assert("<"@ == seq!['<']);
    assert(">"@ == seq!['>']);
    assert("::"@ == path_separator());
    assert(ty =~= g + (seq!['<'] + mid + seq!['>']));
    lemma_display_unregistered(e.custom_types@, ty);
    lemma_replace_absent(ty, "crate::"@, ""@);
    assert forall|j: int| 0 <= j < ty.len() implies ty[j] != "&str"@[0] by {
        if j < g.len() {
            assert(ty[j] == g[j]);
        } else if j > g.len() && j < g.len() + 1 + mid.len() {
            let k = j - g.len() - 1;
            assert(ty[j] == mid[k]);
            if k < p.len() {
                assert(mid[k] == p[k]);
            } else if k >= p.len() + 2 {
                assert(mid[k] == x[k - p.len() - 2]);
            }
        }
    }
    lemma_absent_missing_char(ty, "&str"@, 0);
    lemma_replace_absent(ty, "&str"@, "String"@);
    // Flatten: `g`, `<`, the path, `>`.
    assert forall|j: int| 0 <= j < g.len() implies !is_type_delimiter(#[trigger] g[j]) by {
        assert(is_plain_name(g));
    }
    lemma_flatten_run(g, seq!['<'] + mid + seq!['>'], Seq::empty());
    assert(Seq::<char>::empty() + g =~= g);
    let r1 = seq!['<'] + mid + seq!['>'];
    assert(r1.skip(1) =~= mid + seq!['>']);
    assert(flatten_from(r1, g) == segment_text(g) + seq!['<'] + flatten_from(mid + seq!['>'], Seq::empty()));
    assert forall|j: int| 0 <= j < mid.len() implies !is_type_delimiter(#[trigger] mid[j]) by {
        if j < p.len() {
            assert(mid[j] == p[j]);
        } else if j >= p.len() + 2 {
            assert(mid[j] == x[j - p.len() - 2]);
        }
    }
    lemma_flatten_run(mid, seq!['>'], Seq::empty());
    assert(Seq::<char>::empty() + mid =~= mid);
    assert(seq!['>'].skip(1) =~= Seq::<char>::empty());
    assert(flatten_from(seq!['>'], mid) == segment_text(mid) + seq!['>'] + flatten_from(
        Seq::<char>::empty(),
        Seq::empty(),
    ));
    lemma_split_absent(Seq::<char>::empty(), binding_sign());
    lemma_split_absent(Seq::<char>::empty(), path_separator());
    assert(segment_text(Seq::<char>::empty()) =~= Seq::<char>::empty());
    lemma_segment_plain(g);
    lemma_segment_path(p, x);
    let t = g + seq!['<'] + x + seq!['>'];
    assert(flatten_type(ty) =~= t);
    // No surrounding whitespace, and no result wrapper.
    assert(!is_whitespace(t[0]));
    assert(trim_start(t) == t);
    assert(trim_end(t) == t);
    assert(!starts_with(t, "RhaiResultOf<"@)) by {
        if starts_with(t, "RhaiResultOf<"@) {
            let w = t.subrange(0, 13);
            if g.len() < 12 {
                assert(w[g.len() as int] == '<');
                assert("RhaiResultOf<"@[g.len() as int] != '<');
            } else if g.len() > 12 {
                assert(w[12] == g[12]);
            } else {
                assert(g =~= "RhaiResultOf"@) by {
                    assert forall|j: int| 0 <= j < 12 implies g[j] == "RhaiResultOf"@[j] by {
                        assert(w[j] == g[j]);
                    }
                }
            }
        }
    }
    lemma_words_absent_around(g, '<', x);
    reveal_strlit("Dynamic");
    reveal_strlit("INT");
    reveal_strlit("FLOAT");
    reveal_strlit("ImmutableString");
    lemma_absent_missing_char(Seq::<char>::empty(), "Dynamic"@, 0);
    lemma_absent_missing_char(Seq::<char>::empty(), "INT"@, 0);
    lemma_absent_missing_char(Seq::<char>::empty(), "FLOAT"@, 0);
    lemma_absent_missing_char(Seq::<char>::empty(), "ImmutableString"@, 0);
    lemma_words_absent_around(g + seq!['<'] + x, '>', Seq::empty());
    assert(g + seq!['<'] + x + seq!['>'] + Seq::<char>::empty() =~= t);
    lemma_final_replacements_absent(t);
    assert(t =~= g + "<"@ + x + ">"@);
}

// ---------------------------------------------------------------------------
// Script names replace `INT` and `FLOAT`
// ---------------------------------------------------------------------------

/// No character of `rep` occurs in `pat`.
pub open spec fn chars_disjoint(rep: Seq<char>, pat: Seq<char>) -> bool {
    forall|j: int, q: int| 0 <= j < rep.len() && 0 <= q < pat.len() ==> rep[j] != pat[q]
}

/// A start of a replaced text without characters of the replacement is the
/// same start of the original text.
proof fn lemma_replace_prefix(t: Seq<char>, pat: Seq<char>, rep: Seq<char>, l: int)
    requires
        pat.len() > 0,
        rep.len() > 0,
        0 <= l <= replace(t, pat, rep).len(),
        forall|j: int, q: int| 0 <= j < l && 0 <= q < rep.len() ==> replace(t, pat, rep)[j] != rep[q],
    ensures
        l <= t.len(),
        replace(t, pat, rep).take(l) == t.take(l),
    decreases t.len(),
{
    let out = replace(t, pat, rep);
    if t.len() < pat.len() {
    } else if t.subrange(0, pat.len() as int) == pat {
        if l > 0 {
            assert(out[0] == rep[0]);
        }
        assert(out.take(0) =~= t.take(0));
    } else {
        let r = replace(t.skip(1), pat, rep);
        assert(out == seq![t[0]] + r);
        if l > 0 {
            assert forall|j: int, q: int| 0 <= j < l - 1 && 0 <= q < rep.len() implies r[j] != rep[q] by {
                assert(r[j] == out[j + 1]);
            }
            lemma_replace_prefix(t.skip(1), pat, rep, l - 1);
            assert(out.take(l) =~= seq![t[0]] + r.take(l - 1));
            assert(t.take(l) =~= seq![t[0]] + t.skip(1).take(l - 1));
        } else {
            assert(out.take(0) =~= t.take(0));
        }
    }
}

proof fn lemma_contains_skip(s: Seq<char>, k: int, p: Seq<char>)
    requires
        0 <= k <= s.len(),
        text_contains(s.skip(k), p),
    ensures
        text_contains(s, p),
{
    let i = choose|i: int|
        0 <= i && i + p.len() <= s.skip(k).len() && #[trigger] s.skip(k).subrange(i, i + p.len()) == p;
    assert(s.subrange(k + i, k + i + p.len()) =~= s.skip(k).subrange(i, i + p.len()));
}

/// Replacing `pat` by a text with none of its characters leaves no `pat`.
pub proof fn lemma_replace_removes(s: Seq<char>, pat: Seq<char>, rep: Seq<char>)
    requires
        pat.len() > 0,
        rep.len() > 0,
        chars_disjoint(rep, pat),
    ensures
        !text_contains(replace(s, pat, rep), pat),
    decreases s.len(),
{
    let out = replace(s, pat, rep);
    if s.len() < pat.len() {
    } else if s.subrange(0, pat.len() as int) == pat {
        let t = s.skip(pat.len() as int);
        lemma_replace_removes(t, pat, rep);
        let r = replace(t, pat, rep);
        assert(out == rep + r);
        if text_contains(out, pat) {
            let i = choose|i: int|
                0 <= i && i + pat.len() <= out.len() && #[trigger] out.subrange(i, i + pat.len()) == pat;
            if i < rep.len() {
                assert(out.subrange(i, i + pat.len())[0] == rep[i]);
            } else {
                let k = i - rep.len();
                assert(out.subrange(i, i + pat.len()) =~= r.subrange(k, k + pat.len()));
            }
        }
    } else {
        let t = s.skip(1);
        lemma_replace_removes(t, pat, rep);
        let r = replace(t, pat, rep);
        assert(out == seq![s[0]] + r);
        if text_contains(out, pat) {
            let i = choose|i: int|
                0 <= i && i + pat.len() <= out.len() && #[trigger] out.subrange(i, i + pat.len()) == pat;
            if i == 0 {
                let l = pat.len() - 1;
                assert forall|j: int, q: int| 0 <= j < l && 0 <= q < rep.len() implies r[j] != rep[q] by {
                    assert(r[j] == out[j + 1]);
                    assert(out.subrange(0, pat.len() as int)[j + 1] == pat[j + 1]);
                }
                lemma_replace_prefix(t, pat, rep, l);
                assert(out.subrange(0, pat.len() as int) =~= seq![s[0]] + r.take(l));
                assert(s.subrange(0, pat.len() as int) =~= seq![s[0]] + t.take(l));
            } else {
                let k = i - 1;
                assert(out.subrange(i, i + pat.len()) =~= r.subrange(k, k + pat.len()));
            }
        }
    }
}

/// Replacing another pattern by a text with none of the characters of `p`
/// adds no `p`.
proof fn lemma_replace_keeps_absent(s: Seq<char>, p: Seq<char>, pat: Seq<char>, rep: Seq<char>)
    requires
        p.len() > 0,
        pat.len() > 0,
        rep.len() > 0,
        chars_disjoint(rep, p),
        !text_contains(s, p),
    ensures
        !text_contains(replace(s, pat, rep), p),
    decreases s.len(),
{
    let out = replace(s, pat, rep);
    if s.len() < pat.len() {
    } else if s.subrange(0, pat.len() as int) == pat {
        let t = s.skip(pat.len() as int);
        assert(!text_contains(t, p)) by {
            if text_contains(t, p) {
                lemma_contains_skip(s, pat.len() as int, p);
            }
        }
        lemma_replace_keeps_absent(t, p, pat, rep);
        let r = replace(t, pat, rep);
        assert(out == rep + r);
        if text_contains(out, p) {
            let i = choose|i: int|
                0 <= i && i + p.len() <= out.len() && #[trigger] out.subrange(i, i + p.len()) == p;
            if i < rep.len() {
                assert(out.subrange(i, i + p.len())[0] == rep[i]);
            } else {
                let k = i - rep.len();
                assert(out.subrange(i, i + p.len()) =~= r.subrange(k, k + p.len()));
            }
        }
    } else {
        let t = s.skip(1);
        assert(!text_contains(t, p)) by {
            if text_contains(t, p) {
                lemma_contains_skip(s, 1, p);
            }
        }
        lemma_replace_keeps_absent(t, p, pat, rep);
        let r = replace(t, pat, rep);
        assert(out == seq![s[0]] + r);
        if text_contains(out, p) {
            let i = choose|i: int|
                0 <= i && i + p.len() <= out.len() && #[trigger] out.subrange(i, i + p.len()) == p;
            if i == 0 {
                let l = p.len() - 1;
                assert forall|j: int, q: int| 0 <= j < l && 0 <= q < rep.len() implies r[j] != rep[q] by {
                    assert(r[j] == out[j + 1]);
                    assert(out.subrange(0, p.len() as int)[j + 1] == p[j + 1]);
                }
                lemma_replace_prefix(t, pat, rep, l);
                assert(out.subrange(0, p.len() as int) =~= seq![s[0]] + r.take(l));
                assert(s.subrange(0, p.len() as int) =~= seq![s[0]] + t.take(l));
                let z: int = 0;
                assert(s.subrange(z, z + p.len()) == p);
            } else {
                let k = i - 1;
                assert(out.subrange(i, i + p.len()) =~= r.subrange(k, k + p.len()));
            }
        }
    }
}

/// No written type name holds `INT` or `FLOAT`: they always get their
/// script names `int` and `float`.
pub proof fn law_no_int_or_float_left(ty: Seq<char>, e: Engine)
    ensures
        !text_contains(def_type_text(ty, e), "INT"@),
        !text_contains(def_type_text(ty, e), "FLOAT"@),
{
    reveal_strlit("INT");
    reveal_strlit("int");
    reveal_strlit("FLOAT");
    reveal_strlit("float");
    reveal_strlit("String");
    reveal_strlit("ImmutableString");
    reveal_strlit("Dynamic");
    reveal_strlit("?");
    let t1 = replace(e.formatted_type_name(ty), "crate::"@, ""@);
    let t2 = replace(t1, "&str"@, "String"@);
    let t4 = crate::definitions::unwrap_result_type(trim(flatten_type(t2)));
    let r1 = replace(t4, "Dynamic"@, "?"@);
    let r2 = replace(r1, "INT"@, "int"@);
    let r3 = replace(r2, "FLOAT"@, "float"@);
    lemma_replace_removes(r1, "INT"@, "int"@);
    lemma_replace_removes(r2, "FLOAT"@, "float"@);
    lemma_replace_keeps_absent(r2, "INT"@, "FLOAT"@, "float"@);
    lemma_replace_keeps_absent(r3, "INT"@, "ImmutableString"@, "String"@);
    lemma_replace_keeps_absent(r3, "FLOAT"@, "ImmutableString"@, "String"@);
}

// ---------------------------------------------------------------------------
// The shape of a function declaration
// ---------------------------------------------------------------------------

proof fn lemma_comment_lines_join(cs: Seq<String>)
    ensures
        comment_lines(cs) == join(cs.map_values(|c: String| c@).push(Seq::empty()), "\n"@),
    decreases cs.len(),
{
    let v = cs.map_values(|c: String| c@);
    if cs.len() == 0 {
        assert(v.push(Seq::empty()) =~= seq![Seq::<char>::empty()]);
    } else {
        lemma_comment_lines_join(cs.drop_last());
        let w = cs.drop_last().map_values(|c: String| c@);
        assert(v.drop_last() =~= w);
        // join(v + [""]) = join(v) + "\n" + "" and join(v) = join(w + [""]) with the last item.
        lemma_join_push(v, Seq::empty(), "\n"@);
        lemma_join_push(w, Seq::empty(), "\n"@);
        assert(w.push(v.last()) =~= v);
        lemma_join_push(w, v.last(), "\n"@);
        if w.len() == 0 {
            assert(join(w.push(Seq::empty()), "\n"@) == Seq::<char>::empty());
            assert(comment_lines(cs.drop_last()) =~= Seq::<char>::empty());
        }
        assert(comment_lines(cs) =~= join(v.push(Seq::empty()), "\n"@));
    }
}

/// A function declaration is its comment lines, each followed by a line
/// break, then `op ` or `fn `, the name (`get x` for a getter `get$x`, `set x`
/// for a setter `set$x`), `(`, the parameters separated by `, ` (only the
/// type of each for an operator, else `name: type`), `) -> `, the written
/// return type and `;`.
pub proof fn law_fn_declaration_shape(f: FuncInfo, e: Engine, operator: bool)
    ensures
        fn_text(f, e, operator) == join(
            f.metadata.comments@.map_values(|c: String| c@).push(Seq::empty()),
            "\n"@,
        ) + (if operator {
            "op "@
        } else {
            "fn "@
        }) + (if starts_with(f.metadata.name@, "get$"@) {
            "get "@ + f.metadata.name@.skip(4)
        } else if starts_with(f.metadata.name@, "set$"@) {
            "set "@ + f.metadata.name@.skip(4)
        } else {
            f.metadata.name@
        }) + "("@ + join(
            Seq::new(
                f.metadata.params as nat,
                |i: int|
                    {
                        let pt = param_name_and_type(f.metadata, i, e);
                        if operator {
                            pt.1
                        } else {
                            pt.0 + ": "@ + pt.1
                        }
                    },
            ),
            ", "@,
        ) + ") -> "@ + def_type_text(f.metadata.return_type@, e) + ";"@,
{
    reveal_strlit("get$");
    reveal_strlit("set$");
    lemma_comment_lines_join(f.metadata.comments@);
    let n = f.metadata.name@;
    let head = if starts_with(n, "get$"@) {
        "get "@ + n.skip(4)
    } else if starts_with(n, "set$"@) {
        "set "@ + n.skip(4)
    } else {
        n
    };
    assert(fn_head(n) == head + "("@);
    let a = Seq::new(
        f.metadata.params as nat,
        |i: int| crate::definitions::param_text(f.metadata, i, e, operator),
    );
    let b = Seq::new(
        f.metadata.params as nat,
        |i: int|
            {
                let pt = param_name_and_type(f.metadata, i, e);
                if operator {
                    pt.1
                } else {
                    pt.0 + ": "@ + pt.1
                }
            },
    );
    assert(a =~= b);
    assert(params_text(f.metadata, e, operator) == join(b, ", "@));
}

/// A parameter described as `name:type`, with a name of ASCII letters,
/// digits and underscores, has that name and the type as written by
/// `def_type_text`.
pub proof fn law_param_description(f: FuncInfo, e: Engine, i: int, name: Seq<char>, ty: Seq<char>)
    requires
        0 <= i < f.metadata.params_info@.len(),
        f.metadata.params_info@[i]@ == name + seq![':'] + ty,
        is_plain_name(name),
    ensures
        param_name_and_type(f.metadata, i, e) == (name, def_type_text(ty, e)),
{
    let s = name + seq![':'] + ty;
    let k = name.len() as int;
    assert(s[k] == ':');
    assert forall|j: int| 0 <= j < k implies s[j] != ':' by {
        assert(s[j] == name[j]);
    }
    assert(crate::text::is_first_index(s, ':', k));
    let c = choose|c: int| crate::text::is_first_index(s, ':', c);
    assert(c == k) by {
        if c < k {
            assert(s[c] != ':');
        } else if c > k {
            assert(s[k] != ':');
        }
    }
    assert(s.take(k) =~= name);
    assert(s.skip(k + 1) =~= ty);
    reveal_strlit(" ");
    assert(" "@ == seq![' ']);
    lemma_absent_by_char(name, seq![' '], 0);
    lemma_split_absent(name, seq![' ']);
}

// ---------------------------------------------------------------------------
// Type display names and trimming
// ---------------------------------------------------------------------------

/// The engine shows a type by the display name of the first custom type
/// registered under its name, and a type that none is registered under by
/// its own name.
pub proof fn law_type_display(e: Engine, ty: Seq<char>, i: int)
    ensures
        (forall|j: int| 0 <= j < e.custom_types@.len() ==> (#[trigger] e.custom_types@[j]).0@ != ty)
            ==> e.formatted_type_name(ty) == ty,
        (0 <= i < e.custom_types@.len() && e.custom_types@[i].0@ == ty && forall|j: int|
            0 <= j < i ==> (#[trigger] e.custom_types@[j]).0@ != ty) ==> e.formatted_type_name(ty)
            == e.custom_types@[i].1@,
{
    if forall|j: int| 0 <= j < e.custom_types@.len() ==> (#[trigger] e.custom_types@[j]).0@ != ty {
        lemma_display_unregistered(e.custom_types@, ty);
    }
    if 0 <= i < e.custom_types@.len() && e.custom_types@[i].0@ == ty && forall|j: int|
        0 <= j < i ==> (#[trigger] e.custom_types@[j]).0@ != ty {
        lemma_display_name(e.custom_types@, ty, i);
    }
}

proof fn lemma_trim_start_first(s: Seq<char>)
    ensures
        trim_start(s).len() > 0 ==> !is_whitespace(trim_start(s)[0]),
    decreases s.len(),
{
    if s.len() > 0 && is_whitespace(s[0]) {
        lemma_trim_start_first(s.skip(1));
    }
}

proof fn lemma_trim_end_last(s: Seq<char>)
    ensures
        trim_end(s).len() > 0 ==> !is_whitespace(trim_end(s).last()),
    decreases s.len(),
{
    if s.len() > 0 && is_whitespace(s.last()) {
        lemma_trim_end_last(s.drop_last());
    }
}

/// Trimming removes exactly the whitespace at both ends: the result is a
/// contiguous part of the text, everything before and after it is
/// whitespace, and it neither starts nor ends with whitespace.
pub proof fn law_trim(s: Seq<char>)
    ensures
        exists|a: int, b: int|
            0 <= a <= b <= s.len() && trim(s) == s.subrange(a, b) && (forall|j: int|
                0 <= j < a ==> is_whitespace(#[trigger] s[j])) && (forall|j: int|
                b <= j < s.len() ==> is_whitespace(#[trigger] s[j])),
        trim(s).len() > 0 ==> !is_whitespace(trim(s)[0]) && !is_whitespace(trim(s).last()),
{
    lemma_trim_start_whitespace(s);
    let t = trim_start(s);
    let a = s.len() - t.len();
    lemma_trim_end_whitespace(t);
    let b = a + trim_end(t).len();
    assert(trim(s) =~= s.subrange(a, b));
    assert forall|j: int| b <= j < s.len() implies is_whitespace(#[trigger] s[j]) by {
        assert(s[j] == t[j - a]);
    }
    lemma_trim_start_first(s);
    lemma_trim_end_last(t);
    if trim(s).len() > 0 {
        assert(t.len() > 0 && !is_whitespace(t[0]));
        assert(trim(s)[0] == t[0]);
        assert(!is_whitespace(trim_end(t).last()));
    }
}

} // verus!

//! Definition files for the items visible in an engine.
//!
//! A definition file declares, in script syntax, the constants, variables and
//! functions that a script can use, so that tools can check scripts against them.

use vstd::prelude::*;
use crate::engine::{Engine, FnAccess, FuncInfo, FuncMetadata, Module, Scope, ScopeEntry};
use crate::sort::{key_views, sort_keys, sorted_order, KeyView, SortKey};
use crate::text::{
    chars_eq, chars_of, concat_all, contains_char, extend_chars, join, lemma_join_concat, lemma_join_push, push_str,
    replace, replace_str, split_last, split_last_chars, split_once, split_once_chars, starts_with,
    starts_with_chars, string_from_chars, sub_chars, trim, trim_chars,
};
use crate::tokenizer::{check_function_name, is_valid_function_name};
use crate::type_names::{flatten_type, flatten_type_chars};

verus! {

// ---------------------------------------------------------------------------
// Type names
// ---------------------------------------------------------------------------

/// The type name with the `RhaiResultOf<..>` wrapper removed, when it has one.
pub open spec fn unwrap_result_type(t: Seq<char>) -> Seq<char> {
    if starts_with(t, "RhaiResultOf<"@) {
        let rest = t.skip("RhaiResultOf<"@.len() as int);
        if rest.len() > 0 && rest.last() == '>' {
            trim(rest.drop_last())
        } else {
            t
        }
    } else {
        t
    }
}

/// The name that a type is written as in a definition file. From the
/// engine's name for it, `crate::` is removed and `&str` becomes `String`;
/// then every part of the type between brackets and commas loses its `&` or
/// `&mut`, the name of an associated type (`Item=T` becomes `T`) and its path
/// (only the segment after the last `::` stays), while the brackets and commas
/// are kept; a `RhaiResultOf<T>` around the whole becomes `T`; and `Dynamic`,
/// `INT`, `FLOAT` and `ImmutableString` get their script names `?`, `int`,
/// `float` and `String`.
pub open spec fn def_type_text(ty: Seq<char>, e: Engine) -> Seq<char> {
    let t1 = replace(e.formatted_type_name(ty), "crate::"@, ""@);
    let t2 = replace(t1, "&str"@, "String"@);
    let t3 = flatten_type(t2);
    let t4 = unwrap_result_type(trim(t3));
    let r1 = replace(t4, "Dynamic"@, "?"@);
    let r2 = replace(r1, "INT"@, "int"@);
    let r3 = replace(r2, "FLOAT"@, "float"@);
    replace(r3, "ImmutableString"@, "String"@)
}

/// The name that the type `ty` is written as in a definition file.
///
/// Types are flattened: references (`&`, `&mut`) and paths are removed from
/// every part of the type while generics are kept, associated types such as
/// `Iterator<Item=T>` become plain type parameters (`Iterator<T>`), a
/// `RhaiResultOf<T>` becomes `T`, and `Dynamic`, `INT`, `FLOAT`, `&str` and
/// `ImmutableString` get their script names `?`, `int`, `float`, `String` and
/// `String`.
pub fn def_type_name(ty: &str, engine: &Engine) -> (r: String)
    ensures
        r@ == def_type_text(ty@, *engine),
{
    let formatted = engine.format_type_name(ty);
    let f = chars_of(formatted.as_str());
    proof {
        reveal_strlit("crate::");
        reveal_strlit("Dynamic");
        reveal_strlit("INT");
        reveal_strlit("FLOAT");
        reveal_strlit("&str");
        reveal_strlit("ImmutableString");
    }
    let t1 = replace_str(&f, "crate::", "");
    let t2 = replace_str(&t1, "&str", "String");
    let t3 = flatten_type_chars(&t2);
    let t3t = trim_chars(&t3);
    let wrapper = chars_of("RhaiResultOf<");
    let t4 = if starts_with_chars(&t3t, &wrapper) {
        let rest = sub_chars(&t3t, wrapper.len(), t3t.len());
        assert(rest@ =~= t3t@.skip("RhaiResultOf<"@.len() as int));
        if rest.len() > 0 && rest[rest.len() - 1] == '>' {
            let inner = sub_chars(&rest, 0, rest.len() - 1);
            assert(inner@ =~= rest@.drop_last());
            trim_chars(&inner)
        } else {
            t3t
        }
    } else {
        t3t
    };
    assert(t4@ == unwrap_result_type(t3t@));
    let r1 = replace_str(&t4, "Dynamic", "?");
    let r2 = replace_str(&r1, "INT", "int");
    let r3 = replace_str(&r2, "FLOAT", "float");
    let r4 = replace_str(&r3, "ImmutableString", "String");
    string_from_chars(&r4)
}

// ---------------------------------------------------------------------------
// Functions
// ---------------------------------------------------------------------------

/// The comment lines, each followed by a line break.
pub open spec fn comment_lines(comments: Seq<String>) -> Seq<char>
    decreases comments.len(),
{
    if comments.len() == 0 {
        Seq::empty()
    } else {
        comment_lines(comments.drop_last()) + comments.last()@ + "\n"@
    }
}

/// How a function's name and opening bracket are written: getters `get$x`
/// as `get x(`, setters `set$x` as `set x(`, others as `name(`.
pub open spec fn fn_head(name: Seq<char>) -> Seq<char> {
    if starts_with(name, "get$"@) {
        "get "@ + name.skip("get$"@.len() as int) + "("@
    } else if starts_with(name, "set$"@) {
        "set "@ + name.skip("set$"@.len() as int) + "("@
    } else {
        name + "("@
    }
}

/// The name and the written type of parameter `i`. A description such as
/// `mut x: i64` gives the last word before the first `:` as the name and the
/// rest, as written by `def_type_text`, as the type; a missing type is `?`,
/// and a missing description is `_` of type `?`.
pub open spec fn param_name_and_type(m: FuncMetadata, i: int, e: Engine) -> (Seq<char>, Seq<char>) {
    if i < m.params_info@.len() {
        let parts = split_once(m.params_info@[i]@, ':');
        (
            split_last(parts.0, " "@),
            match parts.1 {
                Some(t) => def_type_text(t, e),
                None => "?"@,
            },
        )
    } else {
        ("_"@, "?"@)
    }
}

/// How parameter `i` is written: only its type for an operator, else
/// `name: type`.
pub open spec fn param_text(m: FuncMetadata, i: int, e: Engine, operator: bool) -> Seq<char> {
    let p = param_name_and_type(m, i, e);
    if operator {
        p.1
    } else {
        p.0 + ": "@ + p.1
    }
}

/// The parameter list of a function, separated by `, `.
pub open spec fn params_text(m: FuncMetadata, e: Engine, operator: bool) -> Seq<char> {
    join(Seq::new(m.params as nat, |i: int| param_text(m, i, e, operator)), ", "@)
}

/// The declaration of a function: its comment lines, `op` or `fn`, the head,
/// the parameters, and `) -> ` with the return type and `;`.
pub open spec fn fn_text(f: FuncInfo, e: Engine, operator: bool) -> Seq<char> {
    comment_lines(f.metadata.comments@) + (if operator {
        "op "@
    } else {
        "fn "@
    }) + fn_head(f.metadata.name@) + params_text(f.metadata, e, operator) + ") -> "@
        + def_type_text(f.metadata.return_type@, e) + ";"@
}

/// A function is declared as an operator when its name is a custom keyword,
/// or when it holds no `$` and is not a valid function name.
pub open spec fn is_operator_name(e: Engine, name: Seq<char>) -> bool {
    e.has_custom_keyword(name) || (!name.contains('$') && !is_valid_function_name(name))
}

/// How parameter `i` of a function is written.
fn param_piece(m: &FuncMetadata, i: usize, engine: &Engine, operator: bool) -> (r: Vec<char>)
    ensures
        r@ == param_text(*m, i as int, *engine, operator),
{
    let ghost p = param_name_and_type(*m, i as int, *engine);
    let name;
    let ty;
    if i < m.params_info.len() {
        let info = chars_of(m.params_info[i].as_str());
        let (before, after) = split_once_chars(&info, ':');
        let space = chars_of(" ");
        proof {
            reveal_strlit(" ");
        }
        name = split_last_chars(&before, &space);
        ty = match after {
            Some(t) => {
                let ts = string_from_chars(&t);
                let d = def_type_name(ts.as_str(), engine);
                chars_of(d.as_str())
            },
            None => chars_of("?"),
        };
    } else {
        name = chars_of("_");
        ty = chars_of("?");
    }
    assert(name@ == p.0 && ty@ == p.1);
    if operator {
        ty
    } else {
        let mut r = name;
        push_str(&mut r, ": ");
        extend_chars(&mut r, &ty);
        r
    }
}

/// Whether `name` is a custom keyword of the engine.
fn check_custom_keyword(engine: &Engine, name: &Vec<char>) -> (r: bool)
    ensures
        r == engine.has_custom_keyword(name@),
{
    let mut i: usize = 0;
    while i < engine.custom_keywords.len()
        invariant
            i <= engine.custom_keywords@.len(),
            forall|j: int| 0 <= j < i ==> #[trigger] engine.custom_keywords@[j]@ != name@,
        decreases engine.custom_keywords.len() - i,
    {
        let k = chars_of(engine.custom_keywords[i].as_str());
        if chars_eq(&k, name) {
            return true;
        }
        i = i + 1;
    }
    false
}

/// Whether a function named `name` is declared as an operator.
fn check_operator(engine: &Engine, name: &Vec<char>) -> (r: bool)
    ensures
        r == is_operator_name(*engine, name@),
{
    check_custom_keyword(engine, name) || (!contains_char(name, '$') && !check_function_name(name))
}

/// Appends each comment line followed by a line break.
fn write_comments(writer: &mut Vec<char>, comments: &Vec<String>)
    ensures
        final(writer)@ == old(writer)@ + comment_lines(comments@),
{
    let mut i: usize = 0;
    assert(comments@.take(0) =~= Seq::<String>::empty());
    while i < comments.len()
        invariant
            i <= comments@.len(),
            writer@ == old(writer)@ + comment_lines(comments@.take(i as int)),
        decreases comments.len() - i,
    {
        push_str(writer, comments[i].as_str());
        push_str(writer, "\n");
        assert(comments@.take(i + 1).drop_last() =~= comments@.take(i as int));
        i = i + 1;
    }
    assert(comments@.take(comments.len() as int) =~= comments@);
}

/// Appends the head of a function declaration.
fn write_head(writer: &mut Vec<char>, name: &String)
    ensures
        final(writer)@ == old(writer)@ + fn_head(name@),
{
    let name = chars_of(name.as_str());
    let get = chars_of("get$");
    let set = chars_of("set$");
    if starts_with_chars(&name, &get) {
        push_str(writer, "get ");
        let rest = sub_chars(&name, get.len(), name.len());
        assert(rest@ =~= name@.skip("get$"@.len() as int));
        extend_chars(writer, &rest);
        push_str(writer, "(");
    } else if starts_with_chars(&name, &set) {
        push_str(writer, "set ");
        let rest = sub_chars(&name, set.len(), name.len());
        assert(rest@ =~= name@.skip("set$"@.len() as int));
        extend_chars(writer, &rest);
        push_str(writer, "(");
    } else {
        extend_chars(writer, &name);
        push_str(writer, "(");
    }
}

/// Appends the parameter list of a function.
fn write_params(writer: &mut Vec<char>, m: &FuncMetadata, engine: &Engine, operator: bool)
    ensures
        final(writer)@ == old(writer)@ + params_text(*m, *engine, operator),
{
    let ghost pieces = Seq::new(m.params as nat, |j: int| param_text(*m, j, *engine, operator));
    let mut k: usize = 0;
    let mut first = true;
    assert(pieces.take(0) =~= Seq::<Seq<char>>::empty());
    while k < m.params
        invariant
            k <= m.params,
            pieces == Seq::new(m.params as nat, |j: int| param_text(*m, j, *engine, operator)),
            first == (k == 0),
            writer@ == old(writer)@ + join(pieces.take(k as int), ", "@),
        decreases m.params - k,
    {
        if !first {
            push_str(writer, ", ");
        }
        first = false;
        let piece = param_piece(m, k, engine, operator);
        extend_chars(writer, &piece);
        proof {
            lemma_join_push(pieces.take(k as int), pieces[k as int], ", "@);
            assert(pieces.take(k as int).push(pieces[k as int]) =~= pieces.take(k + 1));
        }
        k = k + 1;
    }
    assert(pieces.take(m.params as int) =~= pieces);
}

impl FuncInfo {
    /// Writes the declaration of the function, as an operator (parameter
    /// types only, introduced by `op`) or as a function (`fn`).
    pub fn write_definition(&self, writer: &mut Vec<char>, def: &Definitions, operator: bool)
        ensures
            final(writer)@ == old(writer)@ + fn_text(*self, def.engine_view(), operator),
    {
        let m = &self.metadata;
        let engine = def.engine;
        let ghost e = def.engine_view();
        let ghost w0 = writer@;
        write_comments(writer, &m.comments);
        let ghost w1 = writer@;
        if operator {
            push_str(writer, "op ");
        } else {
            push_str(writer, "fn ");
        }
        let ghost w2 = writer@;
        write_head(writer, &m.name);
        let ghost w3 = writer@;
        write_params(writer, m, engine, operator);
        let ghost w4 = writer@;
        push_str(writer, ") -> ");
        let ret = def_type_name(m.return_type.as_str(), engine);
        let ret_chars = chars_of(ret.as_str());
        extend_chars(writer, &ret_chars);
        push_str(writer, ";");
        assert(writer@ =~= w0 + fn_text(*self, e, operator));
    }
}

// ---------------------------------------------------------------------------
// Modules
// ---------------------------------------------------------------------------

/// Variables are ordered by name.
pub open spec fn var_keys(m: Module) -> Seq<KeyView> {
    Seq::new(m.variables@.len(), |i: int| (m.variables@[i]@, 0int, Seq::<char>::empty()))
}

/// Functions are ordered by name, then by number of parameters, then by
/// their parameter descriptions and return type written one after another.
pub open spec fn fn_key(f: FuncInfo) -> KeyView {
    (
        f.metadata.name@,
        f.metadata.params as int,
        concat_all(f.metadata.params_info@.map_values(|s: String| s@)) + f.metadata.return_type@,
    )
}

/// The sort keys of a module's functions.
pub open spec fn fn_keys(m: Module) -> Seq<KeyView> {
    Seq::new(m.functions@.len(), |i: int| fn_key(m.functions@[i]))
}

/// The declaration of a variable.
pub open spec fn var_text(name: Seq<char>) -> Seq<char> {
    "const "@ + name + ": ?;"@
}

/// The declaration of a function; a private function has an empty one.
pub open spec fn fn_item_text(f: FuncInfo, e: Engine) -> Seq<char> {
    match f.metadata.access {
        FnAccess::Private => Seq::empty(),
        FnAccess::Public => fn_text(f, e, is_operator_name(e, f.metadata.name@)),
    }
}

/// The declarations of the variables, in name order.
pub open spec fn var_items(m: Module) -> Seq<Seq<char>> {
    let o = sorted_order(var_keys(m));
    Seq::new(o.len(), |k: int| var_text(m.variables@[o[k]]@))
}

/// The declarations of the functions, in key order.
pub open spec fn fn_items(m: Module, e: Engine) -> Seq<Seq<char>> {
    let o = sorted_order(fn_keys(m));
    Seq::new(o.len(), |k: int| fn_item_text(m.functions@[o[k]], e))
}

/// The declarations of a module: its variables, then its functions, each
/// two separated by a blank line.
pub open spec fn module_text(m: Module, e: Engine) -> Seq<char> {
    join(var_items(m) + fn_items(m, e), "\n\n"@)
}

/// The sort keys of a module's variables.
fn var_sort_keys(m: &Module) -> (keys: Vec<SortKey>)
    ensures
        key_views(keys@) == var_keys(*m),
{
    let mut keys: Vec<SortKey> = Vec::new();
    let mut i: usize = 0;
    while i < m.variables.len()
        invariant
            i <= m.variables@.len(),
            keys@.len() == i,
            forall|j: int| 0 <= j < i ==> (#[trigger] keys@[j])@ == var_keys(*m)[j],
        decreases m.variables.len() - i,
    {
        let name = chars_of(m.variables[i].as_str());
        let tail: Vec<char> = Vec::new();
        keys.push(SortKey { name, count: 0, tail });
        i = i + 1;
    }
    assert(key_views(keys@) =~= var_keys(*m));
    keys
}

/// The parameter descriptions written one after another.
fn concat_strings(v: &Vec<String>) -> (r: Vec<char>)
    ensures
        r@ == concat_all(v@.map_values(|s: String| s@)),
{
    let mut r: Vec<char> = Vec::new();
    let mut i: usize = 0;
    assert(v@.take(0).map_values(|s: String| s@) =~= Seq::<Seq<char>>::empty());
    while i < v.len()
        invariant
            i <= v@.len(),
            r@ == concat_all(v@.take(i as int).map_values(|s: String| s@)),
        decreases v.len() - i,
    {
        let c = chars_of(v[i].as_str());
        extend_chars(&mut r, &c);
        assert(v@.take(i + 1).map_values(|s: String| s@).drop_last() =~= v@.take(
            i as int,
        ).map_values(|s: String| s@));
        i = i + 1;
    }
    assert(v@.take(v.len() as int) =~= v@);
    r
}

/// The sort keys of a module's functions.
fn fn_sort_keys(m: &Module) -> (keys: Vec<SortKey>)
    ensures
        key_views(keys@) == fn_keys(*m),
{
    let mut keys: Vec<SortKey> = Vec::new();
    let mut i: usize = 0;
    while i < m.functions.len()
        invariant
            i <= m.functions@.len(),
            keys@.len() == i,
            forall|j: int| 0 <= j < i ==> (#[trigger] keys@[j])@ == fn_keys(*m)[j],
        decreases m.functions.len() - i,
    {
        let md = &m.functions[i].metadata;
        let name = chars_of(md.name.as_str());
        let mut tail = concat_strings(&md.params_info);
        let ret = chars_of(md.return_type.as_str());
        extend_chars(&mut tail, &ret);
        keys.push(SortKey { name, count: md.params, tail });
        i = i + 1;
    }
    assert(key_views(keys@) =~= fn_keys(*m));
    keys
}

/// Appends the variable declarations of a module.
fn write_var_items(writer: &mut Vec<char>, m: &Module)
    ensures
        final(writer)@ == old(writer)@ + join(var_items(*m), "\n\n"@),
{
    let keys = var_sort_keys(m);
    let order = sort_keys(&keys);
    let ghost items = var_items(*m);
    let ghost o = sorted_order(var_keys(*m));
    proof {
        crate::sort::law_sorted_order(var_keys(*m));
    }
    let mut k: usize = 0;
    assert(items.take(0) =~= Seq::<Seq<char>>::empty());
    while k < order.len()
        invariant
            k <= order@.len(),
            order@.len() == o.len(),
            o == sorted_order(var_keys(*m)),
            items == var_items(*m),
            crate::sort::is_permutation_of_range(o, m.variables@.len() as int),
            forall|j: int| 0 <= j < order@.len() ==> order@[j] as int == #[trigger] o[j],
            writer@ == old(writer)@ + join(items.take(k as int), "\n\n"@),
        decreases order.len() - k,
    {
        let ghost before = writer@;
        if k > 0 {
            push_str(writer, "\n\n");
        }
        let ghost after_sep = writer@;
        let idx = order[k];
        assert(idx as int == o[k as int]);
        assert(0 <= o[k as int] < m.variables@.len());
        push_str(writer, "const ");
        let name = chars_of(m.variables[idx].as_str());
        extend_chars(writer, &name);
        push_str(writer, ": ?;");
        proof {
            assert(writer@ =~= after_sep + items[k as int]);
            lemma_join_push(items.take(k as int), items[k as int], "\n\n"@);
            assert(items.take(k as int).push(items[k as int]) =~= items.take(k + 1));
        }
        k = k + 1;
    }
    assert(items.take(order.len() as int) =~= items);
}

/// Appends the function declarations of a module, preceded by a blank line
/// when `lead` is set and there is any function.
fn write_fn_items(writer: &mut Vec<char>, m: &Module, def: &Definitions, lead: bool)
    ensures
        final(writer)@ == old(writer)@ + (if lead && m.functions@.len() > 0 {
            "\n\n"@
        } else {
            Seq::empty()
        }) + join(fn_items(*m, def.engine_view()), "\n\n"@),
{
    let ghost e = def.engine_view();
    let keys = fn_sort_keys(m);
    let order = sort_keys(&keys);
    let ghost items = fn_items(*m, e);
    let ghost o = sorted_order(fn_keys(*m));
    proof {
        crate::sort::law_sorted_order(fn_keys(*m));
    }
    let ghost start = if lead && m.functions@.len() > 0 {
        old(writer)@ + "\n\n"@
    } else {
        old(writer)@
    };
    let mut k: usize = 0;
    assert(items.take(0) =~= Seq::<Seq<char>>::empty());
    while k < order.len()
        invariant
            k <= order@.len(),
            order@.len() == o.len(),
            o == sorted_order(fn_keys(*m)),
            items == fn_items(*m, e),
            e == def.engine_view(),
            crate::sort::is_permutation_of_range(o, m.functions@.len() as int),
            forall|j: int| 0 <= j < order@.len() ==> order@[j] as int == #[trigger] o[j],
            start == if lead && m.functions@.len() > 0 {
                old(writer)@ + "\n\n"@
            } else {
                old(writer)@
            },
            k == 0 ==> writer@ == old(writer)@,
            k > 0 ==> writer@ == start + join(items.take(k as int), "\n\n"@),
        decreases order.len() - k,
    {
        if k > 0 || lead {
            push_str(writer, "\n\n");
        }
        let ghost after_sep = writer@;
        let idx = order[k];
        assert(idx as int == o[k as int]);
        assert(0 <= o[k as int] < m.functions@.len());
        let f = &m.functions[idx];
        match f.metadata.access {
            FnAccess::Private => {},
            FnAccess::Public => {
                let name = chars_of(f.metadata.name.as_str());
                let operator = check_operator(def.engine, &name);
                f.write_definition(writer, def, operator);
            },
        }
        proof {
            assert(writer@ =~= after_sep + items[k as int]);
            lemma_join_push(items.take(k as int), items[k as int], "\n\n"@);
            assert(items.take(k as int).push(items[k as int]) =~= items.take(k + 1));
            if k == 0 {
                assert(items.take(0) =~= Seq::<Seq<char>>::empty());
            }
        }
        k = k + 1;
    }
    assert(items.take(order.len() as int) =~= items);
    if order.len() == 0 {
        assert(writer@ =~= old(writer)@ + Seq::<char>::empty() + join(items, "\n\n"@));
    }
}

impl Module {
    /// The declarations of the module.
    pub fn definition(&self, def: &Definitions) -> (r: String)
        ensures
            r@ == module_text(*self, def.engine_view()),
    {
        let mut s: Vec<char> = Vec::new();
        self.write_definition(&mut s, def);
        assert(s@ =~= module_text(*self, def.engine_view()));
        string_from_chars(&s)
    }

    /// Writes the declarations of the module: its variables as `const name: ?;`
    /// in name order, then its functions in order of name, number of
    /// parameters, and parameter descriptions with return type, each two
    /// separated by a blank line. A private function adds only its separator.
    pub fn write_definition(&self, writer: &mut Vec<char>, def: &Definitions)
        ensures
            final(writer)@ == old(writer)@ + module_text(*self, def.engine_view()),
    {
        let ghost e = def.engine_view();
        let ghost w0 = writer@;
        write_var_items(writer, self);
        let ghost w1 = writer@;
        let lead = self.variables.len() > 0;
        write_fn_items(writer, self, def, lead);
        proof {
            crate::sort::law_sorted_order(var_keys(*self));
            crate::sort::law_sorted_order(fn_keys(*self));
            let a = var_items(*self);
            let b = fn_items(*self, e);
            lemma_join_concat(a, b, "\n\n"@);
            assert(a.len() == self.variables@.len());
            assert(b.len() == self.functions@.len());
            if a.len() == 0 {
                assert(join(a, "\n\n"@) =~= Seq::<char>::empty());
            }
            assert(writer@ =~= w0 + module_text(*self, e));
        }
    }
}

// ---------------------------------------------------------------------------
// Scopes
// ---------------------------------------------------------------------------

/// The declaration of a scope variable: `const name;` or `let name;`.
pub open spec fn scope_entry_text(en: ScopeEntry) -> Seq<char> {
    (if en.constant {
        "const "@
    } else {
        "let "@
    }) + en.name@ + ";"@
}

/// The declarations of a scope's variables, in scope order, each two
/// separated by a blank line.
pub open spec fn scope_text(sc: Scope) -> Seq<char> {
    join(Seq::new(sc.entries@.len(), |i: int| scope_entry_text(sc.entries@[i])), "\n\n"@)
}

impl Scope {
    /// Writes the declarations of the scope's variables.
    pub fn write_definition(&self, writer: &mut Vec<char>)
        ensures
            final(writer)@ == old(writer)@ + scope_text(*self),
    {
        let ghost items = Seq::new(
            self.entries@.len(),
            |i: int| scope_entry_text(self.entries@[i]),
        );
        let mut first = true;
        let mut i: usize = 0;
        assert(items.take(0) =~= Seq::<Seq<char>>::empty());
        while i < self.entries.len()
            invariant
                i <= self.entries@.len(),
                items == Seq::new(self.entries@.len(), |i: int| scope_entry_text(self.entries@[i])),
                first == (i == 0),
                writer@ == old(writer)@ + join(items.take(i as int), "\n\n"@),
            decreases self.entries.len() - i,
        {
            let ghost before = writer@;
            if !first {
                push_str(writer, "\n\n");
            }
            first = false;
            let ghost after_sep = writer@;
            let en = &self.entries[i];
            if en.constant {
                push_str(writer, "const ");
            } else {
                push_str(writer, "let ");
            }
            push_str(writer, en.name.as_str());
            push_str(writer, ";");
            proof {
                assert(writer@ =~= after_sep + items[i as int]);
                lemma_join_push(items.take(i as int), items[i as int], "\n\n"@);
                assert(items.take(i as int).push(items[i as int]) =~= items.take(i + 1));
            }
            i = i + 1;
        }
        assert(items.take(self.entries.len() as int) =~= items);
    }
}

// ---------------------------------------------------------------------------
// The helper itself
// ---------------------------------------------------------------------------

/// Definitions helper that is used to generate definition files based on the
/// contents of an [`Engine`].
#[must_use]
pub struct Definitions<'e> {
    engine: &'e Engine,
    scope: Option<&'e Scope>,
}

impl<'e> Definitions<'e> {
    /// The engine whose items are described.
    pub closed spec fn engine_view(&self) -> Engine {
        *self.engine
    }

    /// The scope whose variables are described, if one was given.
    pub closed spec fn scope_view(&self) -> Option<Scope> {
        match self.scope {
            Some(s) => Some(*s),
            None => None,
        }
    }
}

/// The definitions of the globally available items: `module static;`, a
/// blank line, and the declarations of each global module, in order, each
/// two separated by a blank line.
pub open spec fn static_text(e: Engine) -> Seq<char> {
    "module static;\n\n"@ + join(
        Seq::new(e.global_modules@.len(), |i: int| module_text(e.global_modules@[i], e)),
        "\n\n"@,
    )
}

/// The definitions of a scope's variables: `module static;`, a blank line,
/// and the declarations of the scope's variables, if a scope was given.
pub open spec fn scope_file_text(sc: Option<Scope>) -> Seq<char> {
    "module static;\n\n"@ + match sc {
        Some(s) => scope_text(s),
        None => Seq::empty(),
    }
}

/// Sub-modules are ordered by name.
pub open spec fn sub_module_keys(e: Engine) -> Seq<KeyView> {
    Seq::new(
        e.global_sub_modules@.len(),
        |i: int| (e.global_sub_modules@[i].0@, 0int, Seq::<char>::empty()),
    )
}

/// The name of sub-module `i` and its definitions: `module <name>;`, a blank
/// line, and the declarations of the module.
pub open spec fn module_file(e: Engine, i: int) -> (Seq<char>, Seq<char>) {
    let name = e.global_sub_modules@[i].0@;
    (name, "module "@ + name + ";\n\n"@ + module_text(e.global_sub_modules@[i].1, e))
}

/// The names and definitions of all sub-modules, in name order.
pub open spec fn module_files(e: Engine) -> Seq<(Seq<char>, Seq<char>)> {
    let o = sorted_order(sub_module_keys(e));
    Seq::new(o.len(), |k: int| module_file(e, o[k]))
}

/// The values of a list of text pairs.
pub open spec fn pairs_view(v: Seq<(String, String)>) -> Seq<(Seq<char>, Seq<char>)> {
    v.map_values(|p: (String, String)| (p.0@, p.1@))
}

/// All definition files, as file names and contents: the two built-in files,
/// the static file, the scope file when a scope was given, and one file
/// `<name>.d.rhai` per sub-module in name order.
pub open spec fn definition_files(
    e: Engine,
    sc: Option<Scope>,
    builtin: Seq<char>,
    builtin_operators: Seq<char>,
) -> Seq<(Seq<char>, Seq<char>)> {
    seq![
        ("__builtin__.d.rhai"@, builtin),
        ("__builtin-operators__.d.rhai"@, builtin_operators),
        ("__static__.d.rhai"@, static_text(e)),
    ] + (if sc is Some {
        seq![("__scope__.d.rhai"@, scope_file_text(sc))]
    } else {
        Seq::empty()
    }) + module_files(e).map_values(|f: (Seq<char>, Seq<char>)| (f.0 + ".d.rhai"@, f.1))
}

/// The sort keys of the engine's sub-modules.
fn sub_module_sort_keys(engine: &Engine) -> (keys: Vec<SortKey>)
    ensures
        key_views(keys@) == sub_module_keys(*engine),
{
    let mut keys: Vec<SortKey> = Vec::new();
    let mut i: usize = 0;
    while i < engine.global_sub_modules.len()
        invariant
            i <= engine.global_sub_modules@.len(),
            keys@.len() == i,
            forall|j: int| 0 <= j < i ==> (#[trigger] keys@[j])@ == sub_module_keys(*engine)[j],
        decreases engine.global_sub_modules.len() - i,
    {
        let name = chars_of(engine.global_sub_modules[i].0.as_str());
        let tail: Vec<char> = Vec::new();
        keys.push(SortKey { name, count: 0, tail });
        i = i + 1;
    }
    assert(key_views(keys@) =~= sub_module_keys(*engine));
    keys
}

impl<'e> Definitions<'e> {
    /// Return the definitions for the globally available items of the engine.
    ///
    /// The definitions will always start with `module static;`.
    pub fn static_module(&self) -> (r: String)
        ensures
            r@ == static_text(self.engine_view()),
    {
        let ghost e = self.engine_view();
        let ghost items = Seq::new(
            e.global_modules@.len(),
            |i: int| module_text(e.global_modules@[i], e),
        );
        let mut s = chars_of("module static;\n\n");
        let ghost header = s@;
        let mut first = true;
        let mut i: usize = 0;
        assert(items.take(0) =~= Seq::<Seq<char>>::empty());
        while i < self.engine.global_modules.len()
            invariant
                e == self.engine_view(),
                i <= e.global_modules@.len(),
                items == Seq::new(
                    e.global_modules@.len(),
                    |i: int| module_text(e.global_modules@[i], e),
                ),
                header == "module static;\n\n"@,
                first == (i == 0),
                s@ == header + join(items.take(i as int), "\n\n"@),
            decreases e.global_modules@.len() - i,
        {
            let ghost before = s@;
            if !first {
                push_str(&mut s, "\n\n");
            }
            first = false;
            let ghost after_sep = s@;
            self.engine.global_modules[i].write_definition(&mut s, self);
            proof {
                assert(s@ =~= after_sep + items[i as int]);
                lemma_join_push(items.take(i as int), items[i as int], "\n\n"@);
                assert(items.take(i as int).push(items[i as int]) =~= items.take(i + 1));
            }
            i = i + 1;
        }
        assert(items.take(e.global_modules@.len() as int) =~= items);
        string_from_chars(&s)
    }

    /// Return the definitions for the available items of the scope.
    ///
    /// The definitions will always start with `module static;`, even if the
    /// scope is empty or none was provided.
    pub fn scope(&self) -> (r: String)
        ensures
            r@ == scope_file_text(self.scope_view()),
    {
        let mut s = chars_of("module static;\n\n");
        match self.scope {
            Some(sc) => {
                sc.write_definition(&mut s);
            },
            None => {
                assert(s@ =~= s@ + Seq::<char>::empty());
            },
        }
        string_from_chars(&s)
    }

    /// Return module name and definition pairs for each registered module,
    /// in name order.
    ///
    /// The definitions will always start with `module <module name>;`.
    pub fn modules(&self) -> (r: Vec<(String, String)>)
        ensures
            pairs_view(r@) == module_files(self.engine_view()),
    {
        let ghost e = self.engine_view();
        let keys = sub_module_sort_keys(self.engine);
        let order = sort_keys(&keys);
        let ghost o = sorted_order(sub_module_keys(e));
        let ghost files = module_files(e);
        proof {
            crate::sort::law_sorted_order(sub_module_keys(e));
        }
        let mut r: Vec<(String, String)> = Vec::new();
        let mut k: usize = 0;
        while k < order.len()
            invariant
                e == self.engine_view(),
                k <= order@.len(),
                order@.len() == o.len(),
                o == sorted_order(sub_module_keys(e)),
                files == module_files(e),
                crate::sort::is_permutation_of_range(o, e.global_sub_modules@.len() as int),
                forall|j: int| 0 <= j < order@.len() ==> order@[j] as int == #[trigger] o[j],
                r@.len() == k,
                forall|j: int| 0 <= j < k ==> (#[trigger] pairs_view(r@)[j]) == files[j],
            decreases order.len() - k,
        {
            let idx = order[k];
            assert(idx as int == o[k as int]);
            assert(0 <= o[k as int] < e.global_sub_modules@.len());
            let entry = &self.engine.global_sub_modules[idx];
            let mut text = chars_of("module ");
            push_str(&mut text, entry.0.as_str());
            push_str(&mut text, ";\n\n");
            let body = entry.1.definition(self);
            push_str(&mut text, body.as_str());
            let name = entry.0.clone();
            let content = string_from_chars(&text);
            let ghost old_r = r@;
            r.push((name, content));
            proof {
                assert(pairs_view(r@)[k as int] == files[k as int]);
                assert forall|j: int| 0 <= j < k + 1 implies (#[trigger] pairs_view(r@)[j]) == files[j] by {
                    if j < k {
                        assert(r@[j] == old_r[j]);
                        assert(pairs_view(old_r)[j] == files[j]);
                    }
                }
            }
            k = k + 1;
        }
        assert(pairs_view(r@) =~= files);
        r
    }

    /// Return all the definition files as (file name, content) pairs: the
    /// two built-in files with the given contents, `__static__.d.rhai`,
    /// `__scope__.d.rhai` when a scope was given, and `<name>.d.rhai` for
    /// each registered module, in name order.
    pub fn iter_files(&self, builtin: &str, builtin_operators: &str) -> (r: Vec<(String, String)>)
        ensures
            pairs_view(r@) == definition_files(
                self.engine_view(),
                self.scope_view(),
                builtin@,
                builtin_operators@,
            ),
    {
        let ghost e = self.engine_view();
        let mut r: Vec<(String, String)> = Vec::new();
        r.push(("__builtin__.d.rhai".to_owned(), builtin.to_owned()));
        r.push(("__builtin-operators__.d.rhai".to_owned(), builtin_operators.to_owned()));
        r.push(("__static__.d.rhai".to_owned(), self.static_module()));
        if self.scope.is_some() {
            r.push(("__scope__.d.rhai".to_owned(), self.scope()));
        }
        let ghost head = r@;
        let ghost fixed = seq![
            ("__builtin__.d.rhai"@, builtin@),
            ("__builtin-operators__.d.rhai"@, builtin_operators@),
            ("__static__.d.rhai"@, static_text(e)),
        ] + (if self.scope_view() is Some {
            seq![("__scope__.d.rhai"@, scope_file_text(self.scope_view()))]
        } else {
            Seq::empty()
        });
        assert(pairs_view(head) =~= fixed);
        let mods = self.modules();
        let ghost files = module_files(e).map_values(
            |f: (Seq<char>, Seq<char>)| (f.0 + ".d.rhai"@, f.1),
        );
        let mut k: usize = 0;
        while k < mods.len()
            invariant
                e == self.engine_view(),
                k <= mods@.len(),
                pairs_view(mods@) == module_files(e),
                files == module_files(e).map_values(
                    |f: (Seq<char>, Seq<char>)| (f.0 + ".d.rhai"@, f.1),
                ),
                pairs_view(head) == fixed,
                r@.len() == head.len() + k,
                forall|j: int| 0 <= j < head.len() ==> r@[j] == head[j],
                forall|j: int|
                    0 <= j < k ==> (#[trigger] pairs_view(r@)[head.len() + j]) == files[j],
            decreases mods.len() - k,
        {
            let mut name = chars_of(mods[k].0.as_str());
            push_str(&mut name, ".d.rhai");
            let file_name = string_from_chars(&name);
            let content = mods[k].1.clone();
            let ghost old_r = r@;
            assert(pairs_view(mods@)[k as int] == module_files(e)[k as int]);
            r.push((file_name, content));
            proof {
                assert forall|j: int| 0 <= j < k + 1 implies (#[trigger] pairs_view(r@)[head.len()
                    + j]) == files[j] by {
                    if j < k {
                        assert(r@[head.len() + j] == old_r[head.len() + j]);
                        assert(pairs_view(old_r)[head.len() + j] == files[j]);
                    }
                }
            }
            k = k + 1;
        }
        proof {
            assert forall|j: int| 0 <= j < r@.len() implies pairs_view(r@)[j] == (fixed + files)[j] by {
                if j < head.len() {
                    assert(pairs_view(head)[j] == fixed[j]);
                } else {
                    assert(pairs_view(r@)[head.len() + (j - head.len())] == files[j - head.len()]);
                }
            }
            assert(pairs_view(r@) =~= fixed + files);
        }
        r
    }
}

impl Engine {
    /// Return [`Definitions`] that can be used to generate definition files
    /// that contain all the visible items in the engine.
    pub fn definitions(&self) -> (r: Definitions<'_>)
        ensures
            r.engine_view() == *self,
            r.scope_view() is None,
    {
        Definitions { engine: self, scope: None }
    }

    /// Return [`Definitions`] that can be used to generate definition files
    /// that contain all the visible items in the engine and the given scope.
    pub fn definitions_with_scope<'a>(&'a self, scope: &'a Scope) -> (r: Definitions<'a>)
        ensures
            r.engine_view() == *self,
            r.scope_view() == Some(*scope),
    {
        Definitions { engine: self, scope: Some(scope) }
    }
}

} // verus!

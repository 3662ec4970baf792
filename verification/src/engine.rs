//! The parts of an engine that its definition files are written from:
//! modules with their variables and functions, custom keywords, custom type
//! names, and scopes of script variables.

use vstd::prelude::*;
use crate::text::{chars_eq, chars_of};

verus! {

/// Whether a function can be called from scripts.
pub enum FnAccess {
    /// Visible to scripts.
    Public,
    /// Hidden from scripts.
    Private,
}

/// What is known of a registered function.
pub struct FuncMetadata {
    /// Whether scripts can see the function.
    pub access: FnAccess,
    /// The function's name; getters and setters are named `get$prop` and `set$prop`.
    pub name: String,
    /// The number of parameters.
    pub params: usize,
    /// Parameter descriptions, such as `x: i64`.
    pub params_info: Vec<String>,
    /// The return type's name.
    pub return_type: String,
    /// Doc comment lines.
    pub comments: Vec<String>,
}

/// A registered function.
pub struct FuncInfo {
    /// What is known of the function.
    pub metadata: FuncMetadata,
}

/// A module: named variables and registered functions.
pub struct Module {
    /// The names of the module's variables.
    pub variables: Vec<String>,
    /// The module's functions.
    pub functions: Vec<FuncInfo>,
}

/// One variable of a scope.
pub struct ScopeEntry {
    /// The variable's name.
    pub name: String,
    /// Whether it is a constant.
    pub constant: bool,
}

/// The variables that a script can see, in the order they were added.
pub struct Scope {
    /// The variables.
    pub entries: Vec<ScopeEntry>,
}

/// The visible contents of a scripting engine.
pub struct Engine {
    /// Modules whose items are globally available, in registration order.
    pub global_modules: Vec<Module>,
    /// Named sub-modules.
    pub global_sub_modules: Vec<(String, Module)>,
    /// Custom keywords (custom operators and syntax).
    pub custom_keywords: Vec<String>,
    /// Registered custom types: a Rust type name and its display name.
    pub custom_types: Vec<(String, String)>,
}

/// No two of the names are equal.
pub open spec fn distinct_names(names: Seq<Seq<char>>) -> bool {
    forall|i: int, j: int| 0 <= i < j < names.len() ==> names[i] != names[j]
}

/// Whether no two of the names are equal.
pub fn check_distinct_names(names: &Vec<Vec<char>>) -> (r: bool)
    ensures
        r == distinct_names(names@.map_values(|v: Vec<char>| v@)),
{
    let ghost ns = names@.map_values(|v: Vec<char>| v@);
    let mut j: usize = 0;
    while j < names.len()
        invariant
            j <= names@.len(),
            ns == names@.map_values(|v: Vec<char>| v@),
            forall|a: int, b: int| 0 <= a < b < j ==> ns[a] != ns[b],
        decreases names.len() - j,
    {
        let mut i: usize = 0;
        while i < j
            invariant
                i <= j < names@.len(),
                ns == names@.map_values(|v: Vec<char>| v@),
                forall|a: int, b: int| 0 <= a < b < j ==> ns[a] != ns[b],
                forall|a: int| 0 <= a < i ==> ns[a] != ns[j as int],
            decreases j - i,
        {
            if chars_eq(&names[i], &names[j]) {
                assert(ns[i as int] == ns[j as int]);
                return false;
            }
            i = i + 1;
        }
        j = j + 1;
    }
    true
}

/// The characters of each string.
fn string_chars(v: &Vec<String>) -> (r: Vec<Vec<char>>)
    ensures
        r@.map_values(|c: Vec<char>| c@) == v@.map_values(|s: String| s@),
{
    let mut r: Vec<Vec<char>> = Vec::new();
    let mut i: usize = 0;
    while i < v.len()
        invariant
            i <= v@.len(),
            r@.len() == i,
            forall|k: int| 0 <= k < i ==> (#[trigger] r@[k])@ == v@[k]@,
        decreases v.len() - i,
    {
        r.push(chars_of(v[i].as_str()));
        i = i + 1;
    }
    assert(r@.map_values(|c: Vec<char>| c@) =~= v@.map_values(|s: String| s@));
    r
}

impl Module {
    /// Every variable name occurs once, as in a map from names to values.
    pub open spec fn well_formed(&self) -> bool {
        distinct_names(self.variables@.map_values(|s: String| s@))
    }

    /// Whether every variable name occurs once.
    pub fn check_well_formed(&self) -> (r: bool)
        ensures
            r == self.well_formed(),
    {
        let names = string_chars(&self.variables);
        check_distinct_names(&names)
    }
}

/// The display name of the first custom type registered under `name`, or
/// `name` itself when none is.
pub open spec fn type_display_name(types: Seq<(String, String)>, name: Seq<char>) -> Seq<char>
    decreases types.len(),
{
    if types.len() == 0 {
        name
    } else if types[0].0@ == name {
        types[0].1@
    } else {
        type_display_name(types.skip(1), name)
    }
}

impl Engine {
    /// Names are keys, as in maps: each sub-module name, custom keyword and
    /// custom type name occurs once, and every module is well formed.
    pub open spec fn well_formed(&self) -> bool {
        &&& distinct_names(self.global_sub_modules@.map_values(|p: (String, Module)| p.0@))
        &&& distinct_names(self.custom_keywords@.map_values(|s: String| s@))
        &&& distinct_names(self.custom_types@.map_values(|p: (String, String)| p.0@))
        &&& forall|i: int| 0 <= i < self.global_modules@.len() ==> (#[trigger] self.global_modules@[i]).well_formed()
        &&& forall|i: int|
            0 <= i < self.global_sub_modules@.len() ==> (#[trigger] self.global_sub_modules@[i]).1.well_formed()
    }

    /// Whether the engine is well formed.
    pub fn check_well_formed(&self) -> (r: bool)
        ensures
            r == self.well_formed(),
    {
        let mut sub_names: Vec<Vec<char>> = Vec::new();
        let mut i: usize = 0;
        while i < self.global_sub_modules.len()
            invariant
                i <= self.global_sub_modules@.len(),
                sub_names@.len() == i,
                forall|k: int| 0 <= k < i ==> (#[trigger] sub_names@[k])@ == self.global_sub_modules@[k].0@,
            decreases self.global_sub_modules.len() - i,
        {
            sub_names.push(chars_of(self.global_sub_modules[i].0.as_str()));
            i = i + 1;
        }
        assert(sub_names@.map_values(|c: Vec<char>| c@) =~= self.global_sub_modules@.map_values(
            |p: (String, Module)| p.0@,
        ));
        if !check_distinct_names(&sub_names) {
            return false;
        }
        let keywords = string_chars(&self.custom_keywords);
        if !check_distinct_names(&keywords) {
            return false;
        }
        let mut type_names: Vec<Vec<char>> = Vec::new();
        let mut i: usize = 0;
        while i < self.custom_types.len()
            invariant
                i <= self.custom_types@.len(),
                type_names@.len() == i,
                forall|k: int| 0 <= k < i ==> (#[trigger] type_names@[k])@ == self.custom_types@[k].0@,
            decreases self.custom_types.len() - i,
        {
            type_names.push(chars_of(self.custom_types[i].0.as_str()));
            i = i + 1;
        }
        assert(type_names@.map_values(|c: Vec<char>| c@) =~= self.custom_types@.map_values(
            |p: (String, String)| p.0@,
        ));
        if !check_distinct_names(&type_names) {
            return false;
        }
        let mut i: usize = 0;
        while i < self.global_modules.len()
            invariant
                i <= self.global_modules@.len(),
                forall|k: int| 0 <= k < i ==> (#[trigger] self.global_modules@[k]).well_formed(),
            decreases self.global_modules.len() - i,
        {
            if !self.global_modules[i].check_well_formed() {
                return false;
            }
            i = i + 1;
        }
        let mut i: usize = 0;
        while i < self.global_sub_modules.len()
            invariant
                i <= self.global_sub_modules@.len(),
                forall|k: int| 0 <= k < i ==> (#[trigger] self.global_sub_modules@[k]).1.well_formed(),
            decreases self.global_sub_modules.len() - i,
        {
            if !self.global_sub_modules[i].1.check_well_formed() {
                return false;
            }
            i = i + 1;
        }
        true
    }

    /// The name under which the engine shows the type `name`.
    pub open spec fn formatted_type_name(&self, name: Seq<char>) -> Seq<char> {
        type_display_name(self.custom_types@, name)
    }

    /// Whether `name` is a custom keyword of the engine.
    pub open spec fn has_custom_keyword(&self, name: Seq<char>) -> bool {
        exists|i: int| 0 <= i < self.custom_keywords@.len() && #[trigger] self.custom_keywords@[i]@ == name
    }

    /// The name under which the engine shows the type `name`: the display
    /// name of a registered custom type, or the name itself.
    pub fn format_type_name(&self, name: &str) -> (r: String)
        ensures
            r@ == self.formatted_type_name(name@),
    {
        let wanted = chars_of(name);
        let mut i: usize = 0;
        assert(self.custom_types@.skip(0) =~= self.custom_types@);
        while i < self.custom_types.len()
            invariant
                i <= self.custom_types@.len(),
                wanted@ == name@,
                type_display_name(self.custom_types@, name@) == type_display_name(
                    self.custom_types@.skip(i as int),
                    name@,
                ),
            decreases self.custom_types.len() - i,
        {
            let ghost rest = self.custom_types@.skip(i as int);
            let candidate = chars_of(self.custom_types[i].0.as_str());
            if chars_eq(&candidate, &wanted) {
                return self.custom_types[i].1.clone();
            }
            assert(rest.skip(1) =~= self.custom_types@.skip(i + 1));
            i = i + 1;
        }
        name.to_owned()
    }
}

} // verus!

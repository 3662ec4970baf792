//! Which names can be written as ordinary script functions.

use vstd::prelude::*;
use crate::text::chars_eq_str;

verus! {

/// An ASCII letter.
pub open spec fn is_ascii_alpha(c: char) -> bool {
    ('a' <= c && c <= 'z') || ('A' <= c && c <= 'Z')
}

/// An ASCII digit.
pub open spec fn is_ascii_digit(c: char) -> bool {
    '0' <= c && c <= '9'
}

/// A valid identifier: letters, digits and underscores, with at least one
/// letter, and no digit before the first letter.
pub open spec fn is_valid_identifier(s: Seq<char>) -> bool {
    &&& exists|i: int| 0 <= i < s.len() && is_ascii_alpha(#[trigger] s[i])
    &&& forall|i: int|
        0 <= i < s.len() ==> {
            ||| s[i] == '_'
            ||| is_ascii_alpha(#[trigger] s[i])
            ||| (is_ascii_digit(s[i]) && exists|j: int| 0 <= j < i && is_ascii_alpha(#[trigger] s[j]))
        }
}

/// The keywords, reserved words and keyword functions of the language.
pub open spec fn is_reserved_word(s: Seq<char>) -> bool {
    ||| s == "true"@
    ||| s == "false"@
    ||| s == "let"@
    ||| s == "const"@
    ||| s == "if"@
    ||| s == "else"@
    ||| s == "switch"@
    ||| s == "do"@
    ||| s == "while"@
    ||| s == "until"@
    ||| s == "loop"@
    ||| s == "for"@
    ||| s == "in"@
    ||| s == "continue"@
    ||| s == "break"@
    ||| s == "return"@
    ||| s == "throw"@
    ||| s == "try"@
    ||| s == "catch"@
    ||| s == "fn"@
    ||| s == "private"@
    ||| s == "import"@
    ||| s == "export"@
    ||| s == "as"@
    ||| s == "global"@
    ||| s == "var"@
    ||| s == "static"@
    ||| s == "shared"@
    ||| s == "with"@
    ||| s == "is"@
    ||| s == "goto"@
    ||| s == "exit"@
    ||| s == "match"@
    ||| s == "case"@
    ||| s == "default"@
    ||| s == "void"@
    ||| s == "null"@
    ||| s == "nil"@
    ||| s == "spawn"@
    ||| s == "thread"@
    ||| s == "go"@
    ||| s == "sync"@
    ||| s == "async"@
    ||| s == "await"@
    ||| s == "yield"@
    ||| s == "public"@
    ||| s == "protected"@
    ||| s == "super"@
    ||| s == "new"@
    ||| s == "use"@
    ||| s == "module"@
    ||| s == "package"@
    ||| s == "print"@
    ||| s == "debug"@
    ||| s == "type_of"@
    ||| s == "eval"@
    ||| s == "Fn"@
    ||| s == "call"@
    ||| s == "curry"@
    ||| s == "this"@
    ||| s == "is_def_var"@
    ||| s == "is_def_fn"@
    ||| s == "is_shared"@
}

/// A name that a script can define and call as an ordinary function.
pub open spec fn is_valid_function_name(s: Seq<char>) -> bool {
    is_valid_identifier(s) && !is_reserved_word(s)
}

/// Whether `s` is a valid identifier.
pub fn check_identifier(s: &Vec<char>) -> (r: bool)
    ensures
        r == is_valid_identifier(s@),
{
    let mut first_alphabetic = false;
    let mut i: usize = 0;
    while i < s.len()
        invariant
            i <= s.len(),
            first_alphabetic == exists|j: int| 0 <= j < i && is_ascii_alpha(#[trigger] s@[j]),
            forall|k: int|
                0 <= k < i ==> {
                    ||| s@[k] == '_'
                    ||| is_ascii_alpha(#[trigger] s@[k])
                    ||| (is_ascii_digit(s@[k]) && exists|j: int|
                        0 <= j < k && is_ascii_alpha(#[trigger] s@[j]))
                },
        decreases s.len() - i,
    {
        let c = s[i];
        if c == '_' {
        } else if ('a' <= c && c <= 'z') || ('A' <= c && c <= 'Z') {
            assert(is_ascii_alpha(s@[i as int]));
            first_alphabetic = true;
        } else if !first_alphabetic {
            assert(!is_valid_identifier(s@)) by {
                if is_valid_identifier(s@) {
                    let ii = i as int;
                    assert(is_ascii_digit(s@[ii]) && exists|j: int| 0 <= j < ii && is_ascii_alpha(#[trigger] s@[j]));
                }
            }
            return false;
        } else if '0' <= c && c <= '9' {
        } else {
            assert(!is_valid_identifier(s@)) by {
                if is_valid_identifier(s@) {
                    assert(s@[i as int] == '_' || is_ascii_alpha(s@[i as int]) || is_ascii_digit(s@[i as int]));
                }
            }
            return false;
        }
        i = i + 1;
    }
    first_alphabetic
}

/// Whether `s` is one of the reserved words.
pub fn check_reserved_word(s: &Vec<char>) -> (r: bool)
    ensures
        r == is_reserved_word(s@),
{
    chars_eq_str(s, "true")
        || chars_eq_str(s, "false")
        || chars_eq_str(s, "let")
        || chars_eq_str(s, "const")
        || chars_eq_str(s, "if")
        || chars_eq_str(s, "else")
        || chars_eq_str(s, "switch")
        || chars_eq_str(s, "do")
        || chars_eq_str(s, "while")
        || chars_eq_str(s, "until")
        || chars_eq_str(s, "loop")
        || chars_eq_str(s, "for")
        || chars_eq_str(s, "in")
        || chars_eq_str(s, "continue")
        || chars_eq_str(s, "break")
        || chars_eq_str(s, "return")
        || chars_eq_str(s, "throw")
        || chars_eq_str(s, "try")
        || chars_eq_str(s, "catch")
        || chars_eq_str(s, "fn")
        || chars_eq_str(s, "private")
        || chars_eq_str(s, "import")
        || chars_eq_str(s, "export")
        || chars_eq_str(s, "as")
        || chars_eq_str(s, "global")
        || chars_eq_str(s, "var")
        || chars_eq_str(s, "static")
        || chars_eq_str(s, "shared")
        || chars_eq_str(s, "with")
        || chars_eq_str(s, "is")
        || chars_eq_str(s, "goto")
        || chars_eq_str(s, "exit")
        || chars_eq_str(s, "match")
        || chars_eq_str(s, "case")
        || chars_eq_str(s, "default")
        || chars_eq_str(s, "void")
        || chars_eq_str(s, "null")
        || chars_eq_str(s, "nil")
        || chars_eq_str(s, "spawn")
        || chars_eq_str(s, "thread")
        || chars_eq_str(s, "go")
        || chars_eq_str(s, "sync")
        || chars_eq_str(s, "async")
        || chars_eq_str(s, "await")
        || chars_eq_str(s, "yield")
        || chars_eq_str(s, "public")
        || chars_eq_str(s, "protected")
        || chars_eq_str(s, "super")
        || chars_eq_str(s, "new")
        || chars_eq_str(s, "use")
        || chars_eq_str(s, "module")
        || chars_eq_str(s, "package")
        || chars_eq_str(s, "print")
        || chars_eq_str(s, "debug")
        || chars_eq_str(s, "type_of")
        || chars_eq_str(s, "eval")
        || chars_eq_str(s, "Fn")
        || chars_eq_str(s, "call")
        || chars_eq_str(s, "curry")
        || chars_eq_str(s, "this")
        || chars_eq_str(s, "is_def_var")
        || chars_eq_str(s, "is_def_fn")
        || chars_eq_str(s, "is_shared")
}

/// Whether `s` can be written as an ordinary script function.
pub fn check_function_name(s: &Vec<char>) -> (r: bool)
    ensures
        r == is_valid_function_name(s@),
{
    check_identifier(s) && !check_reserved_word(s)
}

} // verus!

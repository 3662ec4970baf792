use rhai_definitions::engine::{Engine, Module};
use rhai_definitions::sort::{sort_keys, SortKey};
use rhai_definitions::text::{
    chars_lt, replace_chars, split_last_chars, split_once_chars, trim_chars,
};
use rhai_definitions::tokenizer::{check_function_name, check_identifier};

fn cs(s: &str) -> Vec<char> {
    s.chars().collect()
}

fn st(v: &[char]) -> String {
    v.iter().collect()
}

#[test]
fn replace_is_left_to_right_and_non_overlapping() {
    assert_eq!(st(&replace_chars(&cs("aaaa"), &cs("aa"), &cs("b"))), "bb");
    assert_eq!(st(&replace_chars(&cs("aaa"), &cs("aa"), &cs("b"))), "ba");
    assert_eq!(st(&replace_chars(&cs("xINTyINT"), &cs("INT"), &cs("int"))), "xintyint");
    assert_eq!(st(&replace_chars(&cs(""), &cs("a"), &cs("b"))), "");
}

#[test]
fn split_last_takes_the_piece_after_the_last_separator() {
    assert_eq!(st(&split_last_chars(&cs("a::b::c"), &cs("::"))), "c");
    assert_eq!(st(&split_last_chars(&cs("abc"), &cs("::"))), "abc");
    assert_eq!(st(&split_last_chars(&cs("a::"), &cs("::"))), "");
    assert_eq!(st(&split_last_chars(&cs(":::"), &cs("::"))), ":");
    assert_eq!(st(&split_last_chars(&cs("mut x"), &cs(" "))), "x");
}

#[test]
fn split_once_splits_at_the_first_occurrence() {
    let (a, b) = split_once_chars(&cs("x: a: b"), ':');
    assert_eq!(st(&a), "x");
    assert_eq!(st(&b.unwrap()), " a: b");
    let (a, b) = split_once_chars(&cs("x"), ':');
    assert_eq!(st(&a), "x");
    assert!(b.is_none());
}

#[test]
fn trim_removes_unicode_whitespace() {
    assert_eq!(st(&trim_chars(&cs(" \t a b \n"))), "a b");
    assert_eq!(st(&trim_chars(&cs("\u{3000}x\u{a0}"))), "x");
    assert_eq!(st(&trim_chars(&cs("   "))), "");
}

#[test]
fn lexicographic_order_matches_string_order() {
    for (a, b) in [("a", "b"), ("a", "ab"), ("B", "a"), ("", "a"), ("ab", "ab"), ("é", "z")] {
        assert_eq!(chars_lt(&cs(a), &cs(b)), a < b, "{a} < {b}");
        assert_eq!(chars_lt(&cs(b), &cs(a)), b < a, "{b} < {a}");
    }
}

#[test]
fn sort_is_stable() {
    let key = |n: &str, c: usize| SortKey { name: cs(n), count: c, tail: Vec::new() };
    let keys = vec![key("b", 0), key("a", 1), key("a", 0), key("b", 0), key("a", 1)];
    assert_eq!(sort_keys(&keys), vec![2, 1, 4, 0, 3]);
}

#[test]
fn identifiers() {
    assert!(check_identifier(&cs("foo")));
    assert!(check_identifier(&cs("_foo1")));
    assert!(check_identifier(&cs("_1a")) == false);
    assert!(!check_identifier(&cs("1a")));
    assert!(!check_identifier(&cs("_")));
    assert!(!check_identifier(&cs("+")));
    assert!(!check_identifier(&cs("a-b")));
    assert!(check_function_name(&cs("foo")));
    assert!(!check_function_name(&cs("if")));
    assert!(!check_function_name(&cs("print")));
    assert!(!check_function_name(&cs("==")));
    assert!(!check_function_name(&cs("module")));
    assert!(!check_function_name(&cs("public")));
}

#[test]
fn well_formedness_needs_distinct_names() {
    let module = |vars: &[&str]| Module {
        variables: vars.iter().map(|s| s.to_string()).collect(),
        functions: Vec::new(),
    };
    let mut engine = Engine {
        global_modules: vec![module(&["a", "b"])],
        global_sub_modules: vec![("m".to_string(), module(&[])), ("n".to_string(), module(&[]))],
        custom_keywords: Vec::new(),
        custom_types: Vec::new(),
    };
    assert!(engine.check_well_formed());
    engine.global_sub_modules.push(("m".to_string(), module(&[])));
    assert!(!engine.check_well_formed());
    assert!(!module(&["a", "a"]).check_well_formed());
}

//! Flattening of Rust type names for definition files: every part of a type
//! between brackets and commas loses its reference marker, the name of an
//! associated type, and its path, while the brackets and commas are kept.

use vstd::prelude::*;
use crate::text::{
    char_is_whitespace, extend_chars, is_whitespace, split_last, split_last_chars, sub_chars,
    trim, trim_bounds, trim_start,
};

verus! {

// ---------------------------------------------------------------------------
// Specifications
// ---------------------------------------------------------------------------

/// The characters that separate the parts of a type: brackets, commas and
/// semicolons.
pub open spec fn is_type_delimiter(c: char) -> bool {
    c == '<' || c == '>' || c == ',' || c == '(' || c == ')' || c == '[' || c == ']' || c == ';'
}

/// Two colons, the path separator.
pub open spec fn path_separator() -> Seq<char> {
    seq![':', ':']
}

/// The equals sign of an associated type binding.
pub open spec fn binding_sign() -> Seq<char> {
    seq!['=']
}

/// A part without a leading `&` or `&mut` (and the whitespace after it).
pub open spec fn strip_reference(c: Seq<char>) -> Seq<char> {
    if c.len() > 0 && c[0] == '&' {
        let d = trim_start(c.skip(1));
        if d.len() > 3 && d[0] == 'm' && d[1] == 'u' && d[2] == 't' && is_whitespace(d[3]) {
            trim_start(d.skip(3))
        } else {
            d
        }
    } else {
        c
    }
}

/// The core of a part (without surrounding whitespace) as written: no
/// reference marker, an associated type binding `Name=T` reduced to `T`, and
/// only the last segment of a path.
pub open spec fn core_text(c: Seq<char>) -> Seq<char> {
    let r = strip_reference(c);
    let t = trim_start(split_last(r, binding_sign()));
    split_last(t, path_separator())
}

/// A part of a type as written: its surrounding whitespace is kept and its
/// core is written by `core_text`.
pub open spec fn segment_text(s: Seq<char>) -> Seq<char> {
    s.take(s.len() - trim_start(s).len()) + core_text(trim(s)) + trim_start(s).skip(
        trim(s).len() as int,
    )
}

/// The rest `s` of a type, where the part begun so far is `seg`, with each
/// part written by `segment_text` and the delimiters kept.
pub open spec fn flatten_from(s: Seq<char>, seg: Seq<char>) -> Seq<char>
    decreases s.len(),
{
    if s.len() == 0 {
        segment_text(seg)
    } else if is_type_delimiter(s[0]) {
        segment_text(seg) + seq![s[0]] + flatten_from(s.skip(1), Seq::empty())
    } else {
        flatten_from(s.skip(1), seg.push(s[0]))
    }
}

/// A type with each part between its delimiters written by `segment_text`.
pub open spec fn flatten_type(s: Seq<char>) -> Seq<char> {
    flatten_from(s, Seq::empty())
}

/// The delimiters of a type, in order: its brackets, commas and semicolons.
pub open spec fn delimiters_of(s: Seq<char>) -> Seq<char>
    decreases s.len(),
{
    if s.len() == 0 {
        Seq::empty()
    } else if is_type_delimiter(s[0]) {
        seq![s[0]] + delimiters_of(s.skip(1))
    } else {
        delimiters_of(s.skip(1))
    }
}

// ---------------------------------------------------------------------------
// Executable operations
// ---------------------------------------------------------------------------

/// Whether `c` separates the parts of a type.
pub fn char_is_type_delimiter(c: char) -> (r: bool)
    ensures
        r == is_type_delimiter(c),
{
    c == '<' || c == '>' || c == ',' || c == '(' || c == ')' || c == '[' || c == ']' || c == ';'
}

/// The whitespace-free part `c` without a leading `&` or `&mut`.
fn strip_reference_chars(c: &Vec<char>) -> (r: Vec<char>)
    ensures
        r@ == strip_reference(c@),
{
    if c.len() > 0 && c[0] == '&' {
        let rest = sub_chars(c, 1, c.len());
        assert(rest@ =~= c@.skip(1));
        let (a, _b) = trim_bounds(&rest);
        let d = sub_chars(&rest, a, rest.len());
        assert(d@ =~= rest@.skip(a as int));
        if d.len() > 3 && d[0] == 'm' && d[1] == 'u' && d[2] == 't' && char_is_whitespace(d[3]) {
            let after = sub_chars(&d, 3, d.len());
            assert(after@ =~= d@.skip(3));
            let (a2, _b2) = trim_bounds(&after);
            let r = sub_chars(&after, a2, after.len());
            assert(r@ =~= after@.skip(a2 as int));
            r
        } else {
            d
        }
    } else {
        sub_chars(c, 0, c.len())
    }
}

/// The core of a part as written.
fn core_chars(c: &Vec<char>) -> (r: Vec<char>)
    ensures
        r@ == core_text(c@),
{
    let r = strip_reference_chars(c);
    let mut eq: Vec<char> = Vec::new();
    eq.push('=');
    assert(eq@ =~= binding_sign());
    let bound = split_last_chars(&r, &eq);
    let (a, _b) = trim_bounds(&bound);
    let t = sub_chars(&bound, a, bound.len());
    assert(t@ =~= bound@.skip(a as int));
    let mut sep: Vec<char> = Vec::new();
    sep.push(':');
    sep.push(':');
    assert(sep@ =~= path_separator());
    split_last_chars(&t, &sep)
}

/// A part of a type as written.
pub fn segment_chars(s: &Vec<char>) -> (r: Vec<char>)
    ensures
        r@ == segment_text(s@),
{
    let (a, b) = trim_bounds(s);
    let mut r = sub_chars(s, 0, a);
    let core = sub_chars(s, a, b);
    let written = core_chars(&core);
    extend_chars(&mut r, &written);
    let trail = sub_chars(s, b, s.len());
    extend_chars(&mut r, &trail);
    proof {
        assert(s@.take(s@.len() - trim_start(s@).len()) =~= s@.subrange(0, a as int));
        assert(trim_start(s@).skip(trim(s@).len() as int) =~= s@.subrange(b as int, s@.len() as int));
    }
    r
}

/// A type with each part between its delimiters written as a part.
pub fn flatten_type_chars(s: &Vec<char>) -> (r: Vec<char>)
    ensures
        r@ == flatten_type(s@),
{
    let mut out: Vec<char> = Vec::new();
    let mut start: usize = 0;
    let mut i: usize = 0;
    assert(s@.skip(0) =~= s@);
    assert(s@.subrange(0, 0) =~= Seq::<char>::empty());
    assert(out@ + flatten_from(s@, Seq::empty()) =~= flatten_type(s@));
    while i < s.len()
        invariant
            start <= i <= s.len(),
            out@ + flatten_from(s@.skip(i as int), s@.subrange(start as int, i as int))
                == flatten_type(s@),
        decreases s.len() - i,
    {
        let ghost t = s@.skip(i as int);
        assert(t.skip(1) =~= s@.skip(i + 1));
        assert(t[0] == s@[i as int]);
        if char_is_type_delimiter(s[i]) {
            let seg = sub_chars(s, start, i);
            let written = segment_chars(&seg);
            extend_chars(&mut out, &written);
            out.push(s[i]);
            assert(s@.subrange(i + 1, i + 1) =~= Seq::<char>::empty());
            i = i + 1;
            start = i;
        } else {
            assert(s@.subrange(start as int, i as int).push(s@[i as int]) =~= s@.subrange(
                start as int,
                i + 1,
            ));
            i = i + 1;
        }
    }
    let seg = sub_chars(s, start, s.len());
    let written = segment_chars(&seg);
    assert(s@.skip(s.len() as int) =~= Seq::<char>::empty());
    extend_chars(&mut out, &written);
    out
}

} // verus!

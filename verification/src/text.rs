//! Character-level string utilities: conversion between `String` and
//! `Vec<char>`, and joining query terms with spaces.

use vstd::prelude::*;
use vstd::string::StrSliceExecFns;

verus! {

/// Relies on `String::push`: appends one character to the string.
#[verifier::external_body]
pub fn push_char(s: &mut String, c: char)
    ensures
        final(s)@ == old(s)@.push(c),
{
    s.push(c);
}

/// The characters of a string slice, as a vector.
pub fn chars_of(s: &str) -> (r: Vec<char>)
    ensures
        r@ == s@,
{
    let n = s.unicode_len();
    let mut v: Vec<char> = Vec::new();
    let mut i: usize = 0;
    while i < n
        invariant
            i <= n,
            n == s@.len(),
            v@ == s@.take(i as int),
        decreases n - i,
    {
        v.push(s.get_char(i));
        proof {
            assert(v@ =~= s@.take(i + 1 as int));
        }
        i = i + 1;
    }
    proof {
        assert(v@ =~= s@);
    }
    v
}

/// The string holding exactly the given characters.
pub fn string_of(v: &Vec<char>) -> (r: String)
    ensures
        r@ == v@,
{
    let mut s = String::new();
    let mut i: usize = 0;
    while i < v.len()
        invariant
            i <= v.len(),
            s@ == v@.take(i as int),
        decreases v.len() - i,
    {
        push_char(&mut s, v[i]);
        proof {
            assert(s@ =~= v@.take(i + 1 as int));
        }
        i = i + 1;
    }
    proof {
        assert(s@ =~= v@);
    }
    s
}

/// The first `i` of the terms joined by single spaces: empty for no terms,
/// no leading or trailing space otherwise.
pub open spec fn join_prefix(qs: Seq<Seq<char>>, i: int) -> Seq<char>
    decreases i,
{
    if i <= 0 {
        Seq::empty()
    } else if i == 1 {
        qs[0]
    } else {
        join_prefix(qs, i - 1) + seq![' '] + qs[i - 1]
    }
}

/// All the terms joined by single spaces.
pub open spec fn join_with_space(qs: Seq<Seq<char>>) -> Seq<char> {
    join_prefix(qs, qs.len() as int)
}

/// Joins query terms with single spaces, as the search surface hands a
/// multi-term query to the store.
pub fn join_queries(qs: &Vec<String>) -> (r: Vec<char>)
    ensures
        r@ == join_with_space(qs.deep_view()),
{
    let mut out: Vec<char> = Vec::new();
    let mut i: usize = 0;
    while i < qs.len()
        invariant
            i <= qs.len(),
            out@ == join_prefix(qs.deep_view(), i as int),
        decreases qs.len() - i,
    {
        if i > 0 {
            out.push(' ');
        }
        let mut term = chars_of(qs[i].as_str());
        proof {
            assert(qs.deep_view()[i as int] == qs[i as int]@);
        }
        out.append(&mut term);
        proof {
            if i == 0 {
                assert(out@ =~= join_prefix(qs.deep_view(), 1));
            } else {
                assert(out@ =~= join_prefix(qs.deep_view(), i + 1 as int));
            }
        }
        i = i + 1;
    }
    out
}

} // verus!

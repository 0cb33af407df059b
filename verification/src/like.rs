//! The store scopes every path query with `LIKE <pattern> ESCAPE '#'`.
//! This module defines the pattern language, the escaping that turns a
//! path prefix into a pattern, and the proof that the escaped pattern
//! matches exactly the paths extending that prefix.

use crate::text::{chars_of, string_of};
use vstd::prelude::*;

verus! {

/// Ascii-lowercase folding of a single character: the store's `LIKE`
/// comparison treats ascii letters case-insensitively.
pub open spec fn fold_char(c: char) -> char {
    if 'A' <= c && c <= 'Z' {
        (((c as u32) + 32) as char)
    } else {
        c
    }
}

/// Character equality under the store's `LIKE` comparison.
pub open spec fn like_eq(a: char, b: char) -> bool {
    fold_char(a) == fold_char(b)
}

/// `LIKE` pattern matching with `'#'` as the escape character:
/// `%` matches any run, `_` any one character, `#` makes the next
/// character literal, and everything else matches one character
/// case-insensitively for ascii.
pub open spec fn like_matches(pat: Seq<char>, text: Seq<char>) -> bool
    decreases pat.len(), text.len(),
{
    if pat.len() == 0 {
        text.len() == 0
    } else if pat[0] == '%' {
        exists|k: int| 0 <= k <= text.len() && like_matches(pat.drop_first(), text.skip(k))
    } else if pat[0] == '_' {
        text.len() > 0 && like_matches(pat.drop_first(), text.drop_first())
    } else if pat[0] == '#' {
        pat.len() >= 2 && text.len() > 0 && like_eq(pat[1], text[0]) && like_matches(
            pat.skip(2),
            text.drop_first(),
        )
    } else {
        text.len() > 0 && like_eq(pat[0], text[0]) && like_matches(
            pat.drop_first(),
            text.drop_first(),
        )
    }
}

/// How one character is written into a `LIKE` pattern so that it only
/// matches itself: `#`, `%` and `_` get the escape prefix.
pub open spec fn esc_char(c: char) -> Seq<char> {
    if c == '#' {
        seq!['#', '#']
    } else if c == '%' {
        seq!['#', '%']
    } else if c == '_' {
        seq!['#', '_']
    } else {
        seq![c]
    }
}

/// The whole string escaped for `LIKE`.
pub open spec fn escape_like(s: Seq<char>) -> Seq<char>
    decreases s.len(),
{
    if s.len() == 0 {
        Seq::empty()
    } else {
        esc_char(s[0]) + escape_like(s.drop_first())
    }
}

/// The pattern that scopes a store query to the subtree under `p`:
/// the escaped prefix followed by one unescaped `%`.
pub open spec fn like_pattern_of(p: Seq<char>) -> Seq<char> {
    escape_like(p) + seq!['%']
}

/// `p` is a prefix of `t` under the `LIKE` character comparison.
pub open spec fn folded_prefix(p: Seq<char>, t: Seq<char>) -> bool {
    p.len() <= t.len() && forall|i: int| 0 <= i < p.len() ==> like_eq(p[i], t[i])
}

proof fn lemma_escape_snoc(s: Seq<char>, i: int)
    requires
        0 <= i < s.len(),
    ensures
        escape_like(s.take(i + 1)) == escape_like(s.take(i)) + esc_char(s[i]),
    decreases i,
{
    if i == 0 {
        assert(s.take(1).drop_first() =~= Seq::<char>::empty());
        assert(s.take(1)[0] == s[0]);
        assert(escape_like(Seq::<char>::empty()) == Seq::<char>::empty());
        assert(escape_like(s.take(1)) == esc_char(s.take(1)[0]) + escape_like(
            s.take(1).drop_first(),
        ));
        assert(escape_like(s.take(1)) =~= esc_char(s[0]));
        assert(escape_like(s.take(0)) + esc_char(s[0]) =~= esc_char(s[0]));
    } else {
        let d = s.drop_first();
        lemma_escape_snoc(d, i - 1);
        assert(s.take(i + 1).drop_first() =~= d.take(i));
        assert(s.take(i).drop_first() =~= d.take(i - 1));
        assert(escape_like(s.take(i + 1)) == esc_char(s[0]) + escape_like(d.take(i)));
        assert(escape_like(s.take(i)) == esc_char(s[0]) + escape_like(d.take(i - 1)));
        assert(d[i - 1] == s[i]);
        assert(esc_char(s[0]) + (escape_like(d.take(i - 1)) + esc_char(s[i])) =~= (esc_char(s[0])
            + escape_like(d.take(i - 1))) + esc_char(s[i]));
    }
}

/// Escapes a path for use in a `LIKE` pattern and appends the trailing
/// `%`, so that the pattern selects the paths under this prefix.
pub fn path_to_like(p: &str) -> (r: String)
    ensures
        r@ == like_pattern_of(p@),
{
    let cs = chars_of(p);
    let mut out: Vec<char> = Vec::new();
    let mut i: usize = 0;
    while i < cs.len()
        invariant
            i <= cs.len(),
            cs@ == p@,
            out@ == escape_like(p@.take(i as int)),
        decreases cs.len() - i,
    {
        let c = cs[i];
        if c == '#' || c == '%' || c == '_' {
            out.push('#');
        }
        out.push(c);
        proof {
            lemma_escape_snoc(p@, i as int);
            assert(out@ =~= escape_like(p@.take(i as int)) + esc_char(p@[i as int]));
        }
        i = i + 1;
    }
    out.push('%');
    proof {
        assert(p@.take(p@.len() as int) =~= p@);
        assert(out@ =~= like_pattern_of(p@));
    }
    string_of(&out)
}

/// The escaped pattern built from `p` matches exactly the texts of which
/// `p` is a (case-folded) prefix: escaping makes `%`, `_` and `#` in the
/// path literal, and the one trailing `%` admits any extension.
pub proof fn lemma_like_pattern_exact(p: Seq<char>, t: Seq<char>)
    ensures
        like_matches(like_pattern_of(p), t) <==> folded_prefix(p, t),
    decreases p.len(),
{
    if p.len() == 0 {
        let pat = like_pattern_of(p);
        assert(escape_like(p) =~= Seq::<char>::empty());
        assert(pat =~= seq!['%']);
        assert(pat[0] == '%');
        assert(pat.drop_first() =~= Seq::<char>::empty());
        assert(like_matches(pat.drop_first(), t.skip(t.len() as int)));
        assert(like_matches(pat, t));
    } else {
        let c = p[0];
        let pat = like_pattern_of(p);
        let rest = like_pattern_of(p.drop_first());
        assert(escape_like(p) == esc_char(c) + escape_like(p.drop_first()));
        if c == '#' || c == '%' || c == '_' {
            assert(pat =~= seq!['#', c] + rest);
            assert(pat[0] == '#');
            assert(pat[1] == c);
            assert(pat.len() >= 2);
            assert(pat.skip(2) =~= rest);
            lemma_like_pattern_exact(p.drop_first(), if t.len() > 0 {
                t.drop_first()
            } else {
                t
            });
            assert(like_matches(pat, t) <==> (t.len() > 0 && like_eq(c, t[0]) && like_matches(
                rest,
                t.drop_first(),
            )));
        } else {
            assert(pat =~= seq![c] + rest);
            assert(pat[0] == c);
            assert(c != '%' && c != '_' && c != '#');
            assert(pat.drop_first() =~= rest);
            lemma_like_pattern_exact(p.drop_first(), if t.len() > 0 {
                t.drop_first()
            } else {
                t
            });
            assert(like_matches(pat, t) <==> (t.len() > 0 && like_eq(c, t[0]) && like_matches(
                rest,
                t.drop_first(),
            )));
        }
        if t.len() > 0 {
            assert(folded_prefix(p, t) <==> (like_eq(p[0], t[0]) && folded_prefix(
                p.drop_first(),
                t.drop_first(),
            ))) by {
                if like_eq(p[0], t[0]) && folded_prefix(p.drop_first(), t.drop_first()) {
                    assert forall|i: int| 0 <= i < p.len() implies like_eq(p[i], t[i]) by {
                        if i > 0 {
                            assert(like_eq(p.drop_first()[i - 1], t.drop_first()[i - 1]));
                        }
                    }
                }
                if folded_prefix(p, t) {
                    assert forall|i: int|
                        0 <= i < p.drop_first().len() implies like_eq(
                        p.drop_first()[i],
                        t.drop_first()[i],
                    ) by {
                        assert(like_eq(p[i + 1], t[i + 1]));
                    }
                }
            }
        } else {
            assert(!folded_prefix(p, t));
        }
    }
}

} // verus!

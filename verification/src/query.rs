//! The query surface's translation work: turning user terms into the one
//! query string a dialect passes to the store, and the compiled matchers
//! that the regular-expression dialect and the path exclusion use.

use crate::db::{SearchType, StoreError};
use crate::text::{chars_of, join_with_space, join_queries, string_of};
use vstd::prelude::*;

verus! {

/// How one character is written into a simple-phrase query: `*` gets a
/// backslash so the full-text engine reads it literally.
pub open spec fn star_escaped(c: char) -> Seq<char> {
    if c == '*' {
        seq!['\\', '*']
    } else {
        seq![c]
    }
}

/// The whole phrase with every `*` escaped.
pub open spec fn escape_stars(s: Seq<char>) -> Seq<char>
    decreases s.len(),
{
    if s.len() == 0 {
        Seq::empty()
    } else {
        star_escaped(s[0]) + escape_stars(s.drop_first())
    }
}

/// The one query string a dialect hands to the store: the simple dialect
/// joins the terms into a star-escaped, double-quoted phrase; every other
/// dialect passes the joined terms through verbatim.
pub open spec fn dialect_query(qs: Seq<Seq<char>>, kind: SearchType) -> Seq<char> {
    match kind {
        SearchType::Simple => seq!['"'] + escape_stars(join_with_space(qs)) + seq!['"'],
        _ => join_with_space(qs),
    }
}

proof fn lemma_escape_stars_snoc(s: Seq<char>, i: int)
    requires
        0 <= i < s.len(),
    ensures
        escape_stars(s.take(i + 1)) == escape_stars(s.take(i)) + star_escaped(s[i]),
    decreases i,
{
    if i == 0 {
        assert(s.take(1).drop_first() =~= Seq::<char>::empty());
        assert(s.take(1)[0] == s[0]);
        assert(escape_stars(Seq::<char>::empty()) == Seq::<char>::empty());
        assert(escape_stars(s.take(1)) == star_escaped(s.take(1)[0]) + escape_stars(
            s.take(1).drop_first(),
        ));
        assert(escape_stars(s.take(1)) =~= star_escaped(s[0]));
    } else {
        let d = s.drop_first();
        lemma_escape_stars_snoc(d, i - 1);
        assert(s.take(i + 1).drop_first() =~= d.take(i));
        assert(s.take(i).drop_first() =~= d.take(i - 1));
        assert(escape_stars(s.take(i + 1)) == star_escaped(s[0]) + escape_stars(d.take(i)));
        assert(escape_stars(s.take(i)) == star_escaped(s[0]) + escape_stars(d.take(i - 1)));
        assert(d[i - 1] == s[i]);
        assert(star_escaped(s[0]) + (escape_stars(d.take(i - 1)) + star_escaped(s[i])) =~= (
        star_escaped(s[0]) + escape_stars(d.take(i - 1))) + star_escaped(s[i]));
    }
}

/// Builds the query string for a dialect from the user's terms.
pub fn build_query(queries: &Vec<String>, kind: SearchType) -> (r: String)
    ensures
        r@ == dialect_query(queries.deep_view(), kind),
{
    let joined = join_queries(queries);
    match kind {
        SearchType::Simple => {
            let mut out: Vec<char> = Vec::new();
            out.push('"');
            let mut i: usize = 0;
            while i < joined.len()
                invariant
                    i <= joined.len(),
                    out@ == seq!['"'] + escape_stars(joined@.take(i as int)),
                decreases joined.len() - i,
            {
                let c = joined[i];
                if c == '*' {
                    out.push('\\');
                }
                out.push(c);
                proof {
                    lemma_escape_stars_snoc(joined@, i as int);
                    assert(out@ =~= seq!['"'] + (escape_stars(joined@.take(i as int))
                        + star_escaped(joined@[i as int])));
                }
                i = i + 1;
            }
            out.push('"');
            proof {
                assert(joined@.take(joined@.len() as int) =~= joined@);
                assert(out@ =~= seq!['"'] + escape_stars(joined@) + seq!['"']);
            }
            string_of(&out)
        },
        _ => string_of(&joined),
    }
}

#[verifier::external_type_specification]
#[verifier::external_body]
pub struct ExRegex(regex::Regex);

#[verifier::external_type_specification]
#[verifier::external_body]
pub struct ExPattern(glob::Pattern);

/// Whether a pattern is a well-formed regular expression.
pub uninterp spec fn regex_valid(pat: Seq<char>) -> bool;

/// Whether a regular expression matches somewhere in a text.
pub uninterp spec fn regex_match(pat: Seq<char>, text: Seq<char>) -> bool;

/// Whether a pattern is a well-formed glob.
pub uninterp spec fn glob_valid(pat: Seq<char>) -> bool;

/// Whether a glob matches a whole text.
pub uninterp spec fn glob_match(pat: Seq<char>, text: Seq<char>) -> bool;

/// A compiled regular expression, remembering the pattern it was built
/// from.
pub struct CompiledRegex {
    re: regex::Regex,
    pat: Ghost<Seq<char>>,
}

impl CompiledRegex {
    /// The pattern this matcher was compiled from.
    pub closed spec fn pat(self) -> Seq<char> {
        self.pat@
    }
}

/// Relies on `regex::Regex::new`: compiles exactly the well-formed
/// patterns; the error carries the parser's message.
#[verifier::external_body]
fn regex_compile(pat: &str) -> (r: Result<regex::Regex, StoreError>)
    ensures
        r is Ok ==> regex_valid(pat@),
        r matches Err(e) ==> e is QueryParse && !regex_valid(pat@),
{
    regex::Regex::new(pat).map_err(|e| StoreError::QueryParse(e.to_string()))
}

/// Compiles a regular expression, keeping hold of its pattern.
pub fn regex_new(pat: &str) -> (r: Result<CompiledRegex, StoreError>)
    ensures
        r matches Ok(c) ==> c.pat() == pat@ && regex_valid(pat@),
        r matches Err(e) ==> e is QueryParse && !regex_valid(pat@),
{
    let re = regex_compile(pat)?;
    Ok(CompiledRegex { re, pat: Ghost(pat@) })
}

/// Relies on `regex::Regex::is_match`: whether the expression matches
/// anywhere in the text; a pure function of pattern and text.
#[verifier::external_body]
pub fn regex_is_match(re: &CompiledRegex, text: &str) -> (r: bool)
    ensures
        r == regex_match(re.pat(), text@),
{
    re.re.is_match(text)
}

/// A compiled glob, remembering the pattern it was built from.
pub struct CompiledGlob {
    glob: glob::Pattern,
    pat: Ghost<Seq<char>>,
}

impl CompiledGlob {
    /// The pattern this matcher was compiled from.
    pub closed spec fn pat(self) -> Seq<char> {
        self.pat@
    }
}

/// Relies on `glob::Pattern::new`: compiles exactly the well-formed glob
/// patterns; the error carries the parser's message.
#[verifier::external_body]
fn glob_compile(pat: &str) -> (r: Result<glob::Pattern, StoreError>)
    ensures
        r is Ok ==> glob_valid(pat@),
        r matches Err(e) ==> e is QueryParse && !glob_valid(pat@),
{
    glob::Pattern::new(pat).map_err(|e| StoreError::QueryParse(e.to_string()))
}

/// Compiles a glob, keeping hold of its pattern.
pub fn glob_new(pat: &str) -> (r: Result<CompiledGlob, StoreError>)
    ensures
        r matches Ok(c) ==> c.pat() == pat@ && glob_valid(pat@),
        r matches Err(e) ==> e is QueryParse && !glob_valid(pat@),
{
    let glob = glob_compile(pat)?;
    Ok(CompiledGlob { glob, pat: Ghost(pat@) })
}

/// Relies on `glob::Pattern::matches`: whether the glob matches the whole
/// text; a pure function of pattern and text.
#[verifier::external_body]
pub fn glob_is_match(g: &CompiledGlob, text: &str) -> (r: bool)
    ensures
        r == glob_match(g.pat(), text@),
{
    g.glob.matches(text)
}

/// The plain snippet the regular-expression dialect returns: the content
/// itself up to 64 characters, with a two-dot ellipsis when it was cut.
pub open spec fn plain_snippet(c: Seq<char>) -> Seq<char> {
    if c.len() <= 64 {
        c
    } else {
        c.take(64) + seq!['.', '.']
    }
}

/// Cuts a row's content down to the plain snippet.
pub fn make_plain_snippet(content: &str) -> (r: String)
    ensures
        r@ == plain_snippet(content@),
{
    let cs = chars_of(content);
    if cs.len() <= 64 {
        string_of(&cs)
    } else {
        let mut out: Vec<char> = Vec::new();
        let mut i: usize = 0;
        while i < 64
            invariant
                i <= 64,
                cs@ == content@,
                cs@.len() > 64,
                out@ == content@.take(i as int),
            decreases 64 - i,
        {
            out.push(cs[i]);
            proof {
                assert(out@ =~= content@.take(i + 1 as int));
            }
            i = i + 1;
        }
        out.push('.');
        out.push('.');
        proof {
            assert(out@ =~= plain_snippet(content@));
        }
        string_of(&out)
    }
}

} // verus!

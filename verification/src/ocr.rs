//! The recognition adapter's decidable side: validating the language
//! code, naming the thresholding modes, bounding the page-segmentation
//! mode, and collapsing blank runs in recognized text. The engine calls
//! themselves live outside the library.

use crate::text::{chars_of, string_of};
use vstd::prelude::*;
use vstd::string::StringExecFns;

verus! {

/// An error of the recognition adapter.
#[derive(Debug)]
pub enum OcrError {
    /// The language code is not three plain ascii characters.
    InvalidLanguage,
    /// The engine could not load its language data.
    OcrInit(String),
    /// The engine failed while recognizing an image.
    OcrRuntime(String),
    /// The image could not be read or decoded.
    DecodeFailed(String),
}

impl OcrError {
    /// The fixed text describing each error, followed by any detail the
    /// engine reported.
    pub open spec fn message_spec(self) -> Seq<char> {
        match self {
            OcrError::InvalidLanguage => "invalid language code"@,
            OcrError::OcrInit(s) => "could not initialize the recognition engine: "@ + s@,
            OcrError::OcrRuntime(s) => "recognition failed: "@ + s@,
            OcrError::DecodeFailed(s) => "could not read the image: "@ + s@,
        }
    }

    /// Renders the error as text.
    pub fn message(&self) -> (r: String)
        ensures
            r@ == self.message_spec(),
    {
        match self {
            OcrError::InvalidLanguage => String::from_str("invalid language code"),
            OcrError::OcrInit(s) => String::from_str(
                "could not initialize the recognition engine: ",
            ).concat(s.as_str()),
            OcrError::OcrRuntime(s) => String::from_str("recognition failed: ").concat(s.as_str()),
            OcrError::DecodeFailed(s) => String::from_str("could not read the image: ").concat(
                s.as_str(),
            ),
        }
    }
}

/// The thresholding modes the engine offers.
#[derive(Debug, Clone, Copy, PartialEq, Eq, Structural)]
pub enum Binarization {
    Otsu,
    LeptonicaOtsu,
    Sauvola,
}

impl Binarization {
    /// The numeric code the engine's thresholding variable takes.
    pub open spec fn code_spec(self) -> u8 {
        match self {
            Binarization::Otsu => 0,
            Binarization::LeptonicaOtsu => 1,
            Binarization::Sauvola => 2,
        }
    }

    /// The numeric code the engine's thresholding variable takes.
    pub fn code(&self) -> (r: u8)
        ensures
            r == self.code_spec(),
    {
        match self {
            Binarization::Otsu => 0,
            Binarization::LeptonicaOtsu => 1,
            Binarization::Sauvola => 2,
        }
    }
}

/// A language code character the engine accepts: plain ascii, and none of
/// the path characters.
pub open spec fn lang_char_ok(c: char) -> bool {
    (c as u32) < 128 && c != '.' && c != '/' && c != '\\'
}

/// A valid language code: exactly three acceptable ascii characters.
pub open spec fn lang_ok(s: Seq<char>) -> bool {
    s.len() == 3 && (forall|i: int| 0 <= i < s.len() ==> lang_char_ok(#[trigger] s[i]))
}

/// Checks a language code: exactly three ascii characters, none of
/// `. / \`.
pub fn validate_lang(lang: &str) -> (r: Result<(), OcrError>)
    ensures
        r is Ok <==> lang_ok(lang@),
        r matches Err(e) ==> e is InvalidLanguage,
{
    let cs = chars_of(lang);
    if cs.len() != 3 {
        return Err(OcrError::InvalidLanguage);
    }
    let mut i: usize = 0;
    while i < cs.len()
        invariant
            i <= cs.len(),
            cs@ == lang@,
            cs@.len() == 3,
            forall|j: int| 0 <= j < i ==> lang_char_ok(#[trigger] lang@[j]),
        decreases cs.len() - i,
    {
        let c = cs[i];
        if (c as u32) >= 128 || c == '.' || c == '/' || c == '\\' {
            return Err(OcrError::InvalidLanguage);
        }
        i = i + 1;
    }
    Ok(())
}

/// The page-segmentation modes the engine accepts.
pub open spec fn psm_ok(psm: i64) -> bool {
    0 <= psm <= 13
}

/// Checks a page-segmentation mode: the engine knows modes 0 through 13.
pub fn validate_psm(psm: i64) -> (r: bool)
    ensures
        r == psm_ok(psm),
{
    0 <= psm && psm <= 13
}

/// The recognized text with every run of two or more consecutive newlines
/// collapsed to one.
pub open spec fn collapse_blank_runs(s: Seq<char>) -> Seq<char>
    decreases s.len(),
{
    if s.len() == 0 {
        Seq::empty()
    } else if s.len() >= 2 && s[0] == '\n' && s[1] == '\n' {
        collapse_blank_runs(s.drop_first())
    } else {
        seq![s[0]] + collapse_blank_runs(s.drop_first())
    }
}

/// Collapses every run of two or more consecutive newlines in the
/// recognized text to a single newline.
pub fn collapse_newlines(s: &str) -> (r: String)
    ensures
        r@ == collapse_blank_runs(s@),
{
    let cs = chars_of(s);
    let mut out: Vec<char> = Vec::new();
    let mut i: usize = 0;
    proof {
        assert(s@.skip(0) =~= s@);
        assert(Seq::<char>::empty() + collapse_blank_runs(s@) =~= collapse_blank_runs(s@));
    }
    while i < cs.len()
        invariant
            i <= cs.len(),
            cs@ == s@,
            collapse_blank_runs(s@) == out@ + collapse_blank_runs(s@.skip(i as int)),
        decreases cs.len() - i,
    {
        let c = cs[i];
        proof {
            let suf = s@.skip(i as int);
            assert(suf.len() == s@.len() - i);
            assert(suf[0] == s@[i as int]);
            if i + 1 < s@.len() {
                assert(suf[1] == s@[i + 1]);
            }
            assert(suf.drop_first() =~= s@.skip(i + 1 as int));
        }
        if c == '\n' && i + 1 < cs.len() && cs[i + 1] == '\n' {
            proof {
                assert(out@ + collapse_blank_runs(s@.skip(i + 1 as int)) =~= out@
                    + collapse_blank_runs(s@.skip(i as int)));
            }
        } else {
            out.push(c);
            proof {
                assert(out@ + collapse_blank_runs(s@.skip(i + 1 as int)) =~= (out@.drop_last()
                    + (seq![s@[i as int]] + collapse_blank_runs(s@.skip(i + 1 as int)))));
            }
        }
        i = i + 1;
    }
    proof {
        assert(s@.skip(s@.len() as int) =~= Seq::<char>::empty());
        assert(out@ + collapse_blank_runs(Seq::<char>::empty()) =~= out@);
    }
    string_of(&out)
}

/// A collapsed text starts with a newline exactly when the uncollapsed
/// text did.
proof fn lemma_collapse_first(s: Seq<char>)
    requires
        s.len() > 0,
        collapse_blank_runs(s).len() > 0,
    ensures
        (collapse_blank_runs(s)[0] == '\n') == (s[0] == '\n'),
    decreases s.len(),
{
    if s.len() >= 2 && s[0] == '\n' && s[1] == '\n' {
        lemma_collapse_first(s.drop_first());
    }
}

/// The collapsed text never holds two adjacent newlines: every blank run
/// really is down to one line break.
pub proof fn lemma_collapse_leaves_no_blank_run(s: Seq<char>)
    ensures
        forall|i: int|
            0 <= i < collapse_blank_runs(s).len() - 1 ==> !((#[trigger] collapse_blank_runs(s)[i])
                == '\n' && collapse_blank_runs(s)[i + 1] == '\n'),
    decreases s.len(),
{
    if s.len() == 0 {
    } else if s.len() >= 2 && s[0] == '\n' && s[1] == '\n' {
        lemma_collapse_leaves_no_blank_run(s.drop_first());
        assert(collapse_blank_runs(s) == collapse_blank_runs(s.drop_first()));
        assert forall|i: int| 0 <= i < collapse_blank_runs(s).len() - 1 implies !((
        #[trigger] collapse_blank_runs(s)[i]) == '\n' && collapse_blank_runs(s)[i + 1]
            == '\n') by {
            assert(collapse_blank_runs(s)[i] == collapse_blank_runs(s.drop_first())[i]);
            assert(collapse_blank_runs(s)[i + 1] == collapse_blank_runs(s.drop_first())[i + 1]);
        }
    } else {
        let d = s.drop_first();
        let r = collapse_blank_runs(s);
        let rd = collapse_blank_runs(d);
        lemma_collapse_leaves_no_blank_run(d);
        assert(r == seq![s[0]] + rd);
        assert forall|i: int| 0 <= i < r.len() - 1 implies !((#[trigger] r[i]) == '\n' && r[i + 1]
            == '\n') by {
            if i == 0 {
                if r[0] == '\n' && r[1] == '\n' {
                    assert(rd[0] == '\n');
                    assert(d.len() > 0 && rd.len() > 0);
                    lemma_collapse_first(d);
                    assert(d[0] == '\n');
                    assert(s[0] == '\n' && s[1] == '\n');
                    assert(false);
                }
            } else {
                assert(r[i] == rd[i - 1]);
                assert(r[i + 1] == rd[i]);
            }
        }
    }
}

} // verus!

//! The indexing pipeline's decidable side: which files are candidates,
//! which candidates are already indexed and can be skipped, how the
//! progress total grows, and the options record the driver fills in. The
//! walking, image reading and recognition themselves live outside the
//! library.

use crate::db::{StoreError, DB};
use crate::like::fold_char;
use crate::ocr::Binarization;
use crate::text::chars_of;
use vstd::prelude::*;
use vstd::string::StringExecFns;

verus! {

/// What one indexing run is asked to do.
pub struct IndexOptions {
    /// The three-character recognition language.
    pub lang: String,
    /// Verbose diagnostics.
    pub debug: bool,
    /// An optional cap on the candidates considered.
    pub limit: Option<usize>,
    /// Glob patterns whose matches are not walked into.
    pub exclude: Vec<String>,
    /// Ignore stored modtimes and recognize everything again.
    pub rescan: bool,
    /// Recurse into subdirectories.
    pub subdirs: bool,
    /// How many candidates one chunk holds.
    pub chunksize: usize,
    /// Mark-and-sweep rows whose files vanished or are excluded.
    pub cleanup: bool,
    /// Reject images wider or taller than this.
    pub max_dimensions: Option<(u32, u32)>,
    /// The engine's thresholding mode.
    pub binarization: Option<Binarization>,
    /// The engine's page-segmentation mode.
    pub psm: Option<i64>,
}

/// The built-in exclude patterns every run starts from.
pub fn default_excludes() -> (r: Vec<String>)
    ensures
        r@.len() == 2,
        r@[0]@ == "*/.cache"@,
        r@[1]@ == "*/.thumb*"@,
{
    let mut v: Vec<String> = Vec::new();
    v.push(String::from_str("*/.cache"));
    v.push(String::from_str("*/.thumb*"));
    v
}

/// One candidate the walker produced: an absolute path and the file's
/// modification time in whole seconds.
pub struct ScanEntry {
    pub path: String,
    pub mtime: u64,
}

impl Clone for ScanEntry {
    fn clone(&self) -> (r: Self)
        ensures
            r == *self,
    {
        ScanEntry { path: self.path.clone(), mtime: self.mtime }
    }
}

/// The extension of a path: the characters after the last dot of its file
/// name, none if the name has no dot or starts with its only dot.
pub open spec fn ext_rec(p: Seq<char>, acc: Seq<char>) -> Option<Seq<char>>
    decreases p.len(),
{
    if p.len() == 0 {
        None
    } else if p.last() == '/' {
        None
    } else if p.last() == '.' {
        if p.len() >= 2 && p[p.len() - 2] != '/' {
            Some(acc)
        } else {
            None
        }
    } else {
        ext_rec(p.drop_last(), seq![p.last()] + acc)
    }
}

/// The extension of a path, if it has one.
pub open spec fn extension_of(p: Seq<char>) -> Option<Seq<char>> {
    ext_rec(p, Seq::empty())
}

/// The string with each ascii letter folded to lower case.
pub open spec fn fold_seq(s: Seq<char>) -> Seq<char> {
    Seq::new(s.len(), |i: int| fold_char(s[i]))
}

/// The extensions the walker accepts, compared in lower case.
pub open spec fn is_image_ext(e: Seq<char>) -> bool {
    ||| fold_seq(e) == seq!['p', 'n', 'g']
    ||| fold_seq(e) == seq!['j', 'p', 'e', 'g']
    ||| fold_seq(e) == seq!['j', 'p', 'g']
    ||| fold_seq(e) == seq!['g', 'i', 'f']
    ||| fold_seq(e) == seq!['w', 'e', 'b', 'p']
}

/// A file the walker hands on: its extension is one of the recognized
/// image types.
pub open spec fn wanted_file(p: Seq<char>) -> bool {
    match extension_of(p) {
        Some(e) => is_image_ext(e),
        None => false,
    }
}

/// Folds one ascii letter to lower case.
fn fold_char_exec(c: char) -> (r: char)
    ensures
        r == fold_char(c),
{
    if 'A' <= c && c <= 'Z' {
        (((c as u8) + 32) as char)
    } else {
        c
    }
}

/// Whether an already-extracted extension names a recognized image type.
fn ext_is_image(ext: &Vec<char>) -> (r: bool)
    ensures
        r == is_image_ext(ext@),
{
    let mut folded: Vec<char> = Vec::new();
    let mut i: usize = 0;
    while i < ext.len()
        invariant
            i <= ext.len(),
            folded@ == fold_seq(ext@).take(i as int),
        decreases ext.len() - i,
    {
        folded.push(fold_char_exec(ext[i]));
        proof {
            assert(folded@ =~= fold_seq(ext@).take(i + 1 as int));
        }
        i = i + 1;
    }
    proof {
        assert(folded@ =~= fold_seq(ext@));
    }
    if folded.len() == 3 {
        let a = folded[0];
        let b = folded[1];
        let c = folded[2];
        let r = (a == 'p' && b == 'n' && c == 'g') || (a == 'j' && b == 'p' && c == 'g') || (a
            == 'g' && b == 'i' && c == 'f');
        proof {
            if r {
                if a == 'p' {
                    assert(folded@ =~= seq!['p', 'n', 'g']);
                } else if a == 'j' {
                    assert(folded@ =~= seq!['j', 'p', 'g']);
                } else {
                    assert(folded@ =~= seq!['g', 'i', 'f']);
                }
            }
        }
        r
    } else if folded.len() == 4 {
        let a = folded[0];
        let b = folded[1];
        let c = folded[2];
        let d = folded[3];
        let r = (a == 'j' && b == 'p' && c == 'e' && d == 'g') || (a == 'w' && b == 'e' && c == 'b'
            && d == 'p');
        proof {
            if r {
                if a == 'j' {
                    assert(folded@ =~= seq!['j', 'p', 'e', 'g']);
                } else {
                    assert(folded@ =~= seq!['w', 'e', 'b', 'p']);
                }
            }
        }
        r
    } else {
        false
    }
}

/// Whether a path's extension is one of the indexed image types:
/// `png`, `jpeg`, `jpg`, `gif` or `webp`, compared case-insensitively.
pub fn has_indexed_extension(path: &str) -> (r: bool)
    ensures
        r == wanted_file(path@),
{
    let cs = chars_of(path);
    let n = cs.len();
    let mut i: usize = n;
    proof {
        assert(path@.take(n as int) =~= path@);
        assert(path@.skip(n as int) =~= Seq::<char>::empty());
    }
    while i > 0
        invariant
            0 <= i <= n,
            cs@ == path@,
            n == path@.len(),
            extension_of(path@) == ext_rec(path@.take(i as int), path@.skip(i as int)),
            forall|j: int| i <= j < n ==> path@[j] != '.' && path@[j] != '/',
        decreases i,
    {
        let c = cs[i - 1];
        proof {
            let pre = path@.take(i as int);
            assert(pre.len() == i);
            assert(pre.last() == path@[i - 1]);
            assert(pre.drop_last() =~= path@.take(i - 1 as int));
            if i >= 2 {
                assert(pre[i - 2] == path@[i - 2]);
            }
            assert(seq![path@[i - 1]] + path@.skip(i as int) =~= path@.skip(i - 1 as int));
        }
        if c == '/' {
            return false;
        }
        if c == '.' {
            if i < 2 {
                return false;
            }
            let before = cs[i - 2];
            if before == '/' {
                return false;
            }
            let mut ext: Vec<char> = Vec::new();
            let mut j: usize = i;
            while j < n
                invariant
                    i <= j <= n,
                    cs@ == path@,
                    n == path@.len(),
                    ext@ == path@.subrange(i as int, j as int),
                decreases n - j,
            {
                ext.push(cs[j]);
                proof {
                    assert(ext@ =~= path@.subrange(i as int, j + 1 as int));
                }
                j = j + 1;
            }
            proof {
                assert(ext@ =~= path@.skip(i as int));
            }
            return ext_is_image(&ext);
        }
        i = i - 1;
    }
    proof {
        assert(path@.take(0) =~= Seq::<char>::empty());
        assert(extension_of(path@) is None);
    }
    false
}

/// Whether an image's dimensions pass the optional cap: with a cap set,
/// a candidate wider or taller than it is dropped.
pub open spec fn dims_ok(w: u32, h: u32, max: Option<(u32, u32)>) -> bool {
    match max {
        Some((mw, mh)) => !(w > mw || h > mh),
        None => true,
    }
}

/// Checks an image's dimensions against the optional cap.
pub fn dimensions_ok(w: u32, h: u32, max: Option<(u32, u32)>) -> (r: bool)
    ensures
        r == dims_ok(w, h, max),
{
    match max {
        Some((mw, mh)) => !(w > mw || h > mh),
        None => true,
    }
}

/// How much the progress total grows for a chunk: the first chunk also
/// pre-adds the next chunk's length so the bar does not jump, and the
/// total saturates rather than overflowing.
pub open spec fn progress_growth(first: bool, current: nat, upcoming: nat) -> nat {
    if first {
        if current + upcoming <= usize::MAX {
            (current + upcoming) as nat
        } else {
            usize::MAX as nat
        }
    } else {
        upcoming
    }
}

/// The amount the progress total grows by for one chunk.
pub fn progress_increment(first: bool, current: usize, upcoming: usize) -> (r: usize)
    ensures
        r == progress_growth(first, current as nat, upcoming as nat),
{
    if first {
        if current <= usize::MAX - upcoming {
            current + upcoming
        } else {
            usize::MAX
        }
    } else {
        upcoming
    }
}

/// An entry already indexed at exactly this modification time.
pub open spec fn indexed_at(
    m: Map<Seq<char>, (u64, bool, Seq<char>)>,
    p: Seq<char>,
    t: u64,
) -> bool {
    m.dom().contains(p) && m[p].0 == t
}

/// An entry the pipeline keeps for recognition: everything on a forced
/// rescan, otherwise only what is not indexed unchanged.
pub open spec fn keep_entry(
    m: Map<Seq<char>, (u64, bool, Seq<char>)>,
    rescan: bool,
    e: ScanEntry,
) -> bool {
    rescan || !indexed_at(m, e.path@, e.mtime)
}

/// The entries the pipeline keeps, in their walker order.
pub open spec fn kept_entries(
    m: Map<Seq<char>, (u64, bool, Seq<char>)>,
    rescan: bool,
    es: Seq<ScanEntry>,
) -> Seq<ScanEntry>
    decreases es.len(),
{
    if es.len() == 0 {
        Seq::empty()
    } else if keep_entry(m, rescan, es.last()) {
        kept_entries(m, rescan, es.drop_last()).push(es.last())
    } else {
        kept_entries(m, rescan, es.drop_last())
    }
}

/// Whether some skipped entry of the batch names this path: those rows
/// were seen on disk unchanged, so the pipeline clears their deletion
/// marks.
pub open spec fn skipped_path(
    es: Seq<ScanEntry>,
    m: Map<Seq<char>, (u64, bool, Seq<char>)>,
    rescan: bool,
    p: Seq<char>,
) -> bool {
    exists|i: int| 0 <= i < es.len() && (#[trigger] es[i]).path@ == p && !keep_entry(m, rescan, es[i])
}

/// The rows after the skip pass: data untouched, and the deletion mark
/// cleared on every row a skipped entry named.
pub open spec fn unmarked_by_skips(
    m: Map<Seq<char>, (u64, bool, Seq<char>)>,
    es: Seq<ScanEntry>,
    rescan: bool,
) -> Map<Seq<char>, (u64, bool, Seq<char>)> {
    Map::new(
        |p: Seq<char>| m.dom().contains(p),
        |p: Seq<char>| (m[p].0, m[p].1 && !skipped_path(es, m, rescan, p), m[p].2),
    )
}

/// Splits a chunk of candidates into the ones to recognize and the ones
/// already indexed unchanged; each skipped entry's row loses its deletion
/// mark, as the file is still present.
#[verifier::loop_isolation(false)]
pub fn filter_unchanged(db: &mut DB, entries: &Vec<ScanEntry>, rescan: bool) -> (r: Result<
    Vec<ScanEntry>,
    StoreError,
>)
    requires
        old(db).wf(),
    ensures
        final(db).wf(),
        r matches Ok(kept) ==> kept@ == kept_entries(old(db).rows(), rescan, entries@)
            && final(db).rows() == unmarked_by_skips(old(db).rows(), entries@, rescan),
{
    let ghost m0 = db.rows();
    let mut kept: Vec<ScanEntry> = Vec::new();
    let mut i: usize = 0;
    proof {
        assert(db.rows() =~= unmarked_by_skips(m0, entries@.take(0), rescan));
    }
    while i < entries.len()
        invariant
            i <= entries.len(),
            db.wf(),
            kept@ == kept_entries(m0, rescan, entries@.take(i as int)),
            db.rows() == unmarked_by_skips(m0, entries@.take(i as int), rescan),
        decreases entries.len() - i,
    {
        let e = &entries[i];
        proof {
            assert(entries@.take(i + 1 as int).drop_last() =~= entries@.take(i as int));
            assert(entries@.take(i + 1 as int).last() == entries@[i as int]);
        }
        let skip = if rescan {
            false
        } else {
            db.is_indexed(e.path.as_str(), e.mtime)?
        };
        if skip {
            db.unmark_file(e.path.as_str())?;
            proof {
                let es1 = entries@.take(i as int);
                let es2 = entries@.take(i + 1 as int);
                assert(!keep_entry(m0, rescan, entries@[i as int]));
                assert(db.rows() =~= unmarked_by_skips(m0, es2, rescan)) by {
                    assert forall|p: Seq<char>| #[trigger]
                        m0.dom().contains(p) implies (skipped_path(es2, m0, rescan, p) == (
                    skipped_path(es1, m0, rescan, p) || p == entries@[i as int].path@)) by {
                        if skipped_path(es1, m0, rescan, p) {
                            let w = choose|w: int|
                                0 <= w < es1.len() && (#[trigger] es1[w]).path@ == p
                                    && !keep_entry(m0, rescan, es1[w]);
                            assert((es2[w]).path@ == p && !keep_entry(m0, rescan, es2[w]));
                        }
                        if p == entries@[i as int].path@ {
                            assert((es2[i as int]).path@ == p && !keep_entry(
                                m0,
                                rescan,
                                es2[i as int],
                            ));
                        }
                        if skipped_path(es2, m0, rescan, p) {
                            let w = choose|w: int|
                                0 <= w < es2.len() && (#[trigger] es2[w]).path@ == p
                                    && !keep_entry(m0, rescan, es2[w]);
                            if w < i {
                                assert((es1[w]).path@ == p && !keep_entry(m0, rescan, es1[w]));
                            } else {
                                assert(es2[w] == entries@[i as int]);
                            }
                        }
                    }
                }
            }
        } else {
            kept.push(e.clone());
            proof {
                let es1 = entries@.take(i as int);
                let es2 = entries@.take(i + 1 as int);
                assert(keep_entry(m0, rescan, entries@[i as int]));
                assert(kept@ =~= kept_entries(m0, rescan, es2));
                assert(db.rows() =~= unmarked_by_skips(m0, es2, rescan)) by {
                    assert forall|p: Seq<char>| #[trigger]
                        m0.dom().contains(p) implies skipped_path(es2, m0, rescan, p)
                        == skipped_path(es1, m0, rescan, p) by {
                        if skipped_path(es1, m0, rescan, p) {
                            let w = choose|w: int|
                                0 <= w < es1.len() && (#[trigger] es1[w]).path@ == p
                                    && !keep_entry(m0, rescan, es1[w]);
                            assert((es2[w]).path@ == p && !keep_entry(m0, rescan, es2[w]));
                        }
                        if skipped_path(es2, m0, rescan, p) {
                            let w = choose|w: int|
                                0 <= w < es2.len() && (#[trigger] es2[w]).path@ == p
                                    && !keep_entry(m0, rescan, es2[w]);
                            if w < i {
                                assert((es1[w]).path@ == p && !keep_entry(m0, rescan, es1[w]));
                            } else {
                                assert(es2[w] == entries@[i as int]);
                            }
                        }
                    }
                }
            }
        }
        i = i + 1;
    }
    proof {
        assert(entries@.take(entries@.len() as int) =~= entries@);
    }
    Ok(kept)
}

} // verus!

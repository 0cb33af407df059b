//! The library's cross-cutting guarantees, stated and proved over the
//! store's model: indexing is idempotent, change detection is
//! modtime-sensitive, and a cleanup pass sweeps exactly the vanished
//! rows.

use crate::db::{mark_spec, save_one_spec, save_spec, sweep_spec, unmark_spec, OcrResult};
use crate::index::{indexed_at, keep_entry, kept_entries, ScanEntry};
use crate::like::folded_prefix;
use vstd::prelude::*;

verus! {

/// Saving a batch of recognition results for distinct paths leaves every
/// saved `(path, modtime)` pair indexed: a second pass over the same
/// unchanged files finds each of them.
pub proof fn lemma_indexing_idempotent(
    m: Map<Seq<char>, (u64, bool, Seq<char>)>,
    rs: Seq<OcrResult>,
)
    requires
        forall|i: int, j: int|
            0 <= i < j < rs.len() ==> (#[trigger] rs[i]).path@ != (#[trigger] rs[j]).path@,
    ensures
        forall|i: int|
            0 <= i < rs.len() ==> indexed_at(
                save_spec(m, rs),
                (#[trigger] rs[i]).path@,
                rs[i].modtime,
            ),
    decreases rs.len(),
{
    if rs.len() > 0 {
        let head = rs.drop_last();
        let m1 = save_spec(m, head);
        assert forall|i: int, j: int|
            0 <= i < j < head.len() implies (#[trigger] head[i]).path@ != (
        #[trigger] head[j]).path@ by {
            assert(head[i] == rs[i] && head[j] == rs[j]);
        }
        lemma_indexing_idempotent(m, head);
        assert(save_spec(m, rs) == save_one_spec(m1, rs.last()));
        assert forall|i: int| 0 <= i < rs.len() implies indexed_at(
            save_spec(m, rs),
            (#[trigger] rs[i]).path@,
            rs[i].modtime,
        ) by {
            if i == rs.len() - 1 {
            } else {
                assert(head[i] == rs[i]);
                assert(indexed_at(m1, rs[i].path@, rs[i].modtime));
                assert(rs[i].path@ != rs[rs.len() - 1].path@);
            }
        }
    }
}

/// On a pass over files that are all indexed unchanged, without a forced
/// rescan, the pipeline keeps nothing: the second run recognizes no file
/// again.
pub proof fn lemma_second_pass_skips(
    m: Map<Seq<char>, (u64, bool, Seq<char>)>,
    es: Seq<ScanEntry>,
)
    requires
        forall|i: int|
            0 <= i < es.len() ==> indexed_at(m, (#[trigger] es[i]).path@, es[i].mtime),
    ensures
        kept_entries(m, false, es) == Seq::<ScanEntry>::empty(),
    decreases es.len(),
{
    if es.len() > 0 {
        let head = es.drop_last();
        assert forall|i: int| 0 <= i < head.len() implies indexed_at(
            m,
            (#[trigger] head[i]).path@,
            head[i].mtime,
        ) by {
            assert(head[i] == es[i]);
        }
        lemma_second_pass_skips(m, head);
        assert(indexed_at(m, es[es.len() - 1].path@, es[es.len() - 1].mtime));
        assert(!keep_entry(m, false, es.last()));
    }
}

/// Touching a file's modtime makes the change detector miss, and saving
/// the fresh result updates the stored content in place: the path keeps
/// exactly one row.
pub proof fn lemma_modtime_sensitivity(
    m: Map<Seq<char>, (u64, bool, Seq<char>)>,
    r: OcrResult,
    t_old: u64,
)
    requires
        indexed_at(m, r.path@, t_old),
        t_old != r.modtime,
    ensures
        !indexed_at(m, r.path@, r.modtime),
        indexed_at(save_one_spec(m, r), r.path@, r.modtime),
        save_one_spec(m, r).dom() == m.dom(),
        save_one_spec(m, r)[r.path@].2 == r.contents@,
{
    assert(save_one_spec(m, r).dom() =~= m.dom());
}

/// A sequence of single-path unmark passes, applied in order.
pub open spec fn unmark_all(
    m: Map<Seq<char>, (u64, bool, Seq<char>)>,
    ps: Seq<Seq<char>>,
) -> Map<Seq<char>, (u64, bool, Seq<char>)>
    decreases ps.len(),
{
    if ps.len() == 0 {
        m
    } else {
        unmark_spec(unmark_all(m, ps.drop_last()), ps.last())
    }
}

proof fn lemma_unmark_all(m: Map<Seq<char>, (u64, bool, Seq<char>)>, ps: Seq<Seq<char>>)
    ensures
        unmark_all(m, ps).dom() == m.dom(),
        forall|p: Seq<char>| #[trigger]
            m.dom().contains(p) ==> unmark_all(m, ps)[p] == (
                m[p].0,
                m[p].1 && !ps.contains(p),
                m[p].2,
            ),
    decreases ps.len(),
{
    if ps.len() > 0 {
        let head = ps.drop_last();
        lemma_unmark_all(m, head);
        let mh = unmark_all(m, head);
        assert(unmark_all(m, ps) == unmark_spec(mh, ps.last()));
        assert(unmark_spec(mh, ps.last()).dom() =~= mh.dom());
        assert forall|p: Seq<char>| #[trigger] m.dom().contains(p) implies unmark_all(m, ps)[p]
            == (m[p].0, m[p].1 && !ps.contains(p), m[p].2) by {
            assert(ps.contains(p) == (head.contains(p) || p == ps.last())) by {
                if head.contains(p) {
                    let w = choose|w: int| 0 <= w < head.len() && head[w] == p;
                    assert(ps[w] == p);
                }
                if p == ps.last() {
                    assert(ps[ps.len() - 1] == p);
                }
                if ps.contains(p) {
                    let w = choose|w: int| 0 <= w < ps.len() && ps[w] == p;
                    if w < ps.len() - 1 {
                        assert(head[w] == p);
                    }
                }
            }
        }
    }
}

/// A full cleanup pass is exact: after every row under the directory is
/// marked and each still-present path under it is unmarked again, the
/// sweep removes exactly the rows under the directory whose paths are no
/// longer present; every other row survives with its data untouched.
pub proof fn lemma_mark_sweep_exact(
    m: Map<Seq<char>, (u64, bool, Seq<char>)>,
    d: Seq<char>,
    present: Seq<Seq<char>>,
)
    ensures
        ({
            let swept = sweep_spec(unmark_all(mark_spec(m, d), present));
            &&& swept.dom() == m.dom().filter(
                |p: Seq<char>| !(folded_prefix(d, p) && !present.contains(p)),
            )
            &&& forall|p: Seq<char>| #[trigger]
                swept.dom().contains(p) ==> swept[p].0 == m[p].0 && swept[p].2 == m[p].2
        }),
{
    let mm = mark_spec(m, d);
    assert(mm.dom() =~= m.dom());
    lemma_unmark_all(mm, present);
    let un = unmark_all(mm, present);
    assert forall|p: Seq<char>| #[trigger] m.dom().contains(p) implies un[p] == (
        m[p].0,
        folded_prefix(d, p) && !present.contains(p),
        m[p].2,
    ) by {
        assert(mm[p] == (m[p].0, folded_prefix(d, p), m[p].2));
    }
    let keep = |p: Seq<char>| !(folded_prefix(d, p) && !present.contains(p));
    assert(sweep_spec(un).dom() =~= m.dom().filter(keep));
}

} // verus!

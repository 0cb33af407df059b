//! The persistent index store: one table of indexed images mirrored into a
//! full-text index, behind a relational store file.
//!
//! The store's contents are modelled as a map from path to
//! `(modtime, mark_delete, content)`; the full-text mirror as a map from
//! path to content. Every operation states exactly how it transforms that
//! model.

use crate::like::{folded_prefix, like_matches, like_pattern_of};
use crate::like::path_to_like;
use crate::query::{
    build_query, dialect_query, glob_is_match, glob_match, glob_new, glob_valid,
    make_plain_snippet, plain_snippet, regex_is_match, regex_match, regex_new, regex_valid,
    CompiledGlob,
};
use rusqlite::OptionalExtension;
use vstd::prelude::*;
use vstd::string::StringExecFns;

verus! {

#[verifier::external_type_specification]
#[verifier::external_body]
pub struct ExConnection(rusqlite::Connection);

/// The rows of the `images` table: path to (modtime, mark_delete, content).
pub uninterp spec fn db_rows(conn: rusqlite::Connection) -> Map<Seq<char>, (u64, bool, Seq<char>)>;

/// The live entries of the full-text mirror, keyed by the path of the row
/// each entry shadows.
pub uninterp spec fn db_fts(conn: rusqlite::Connection) -> Map<Seq<char>, Seq<char>>;

/// The store file's schema version.
pub uninterp spec fn db_version(conn: rusqlite::Connection) -> int;

/// Every indexed row has exactly one live full-text entry with its content,
/// and no entry shadows a missing row.
pub open spec fn fts_synced(conn: rusqlite::Connection) -> bool {
    &&& db_fts(conn).dom() == db_rows(conn).dom()
    &&& forall|p: Seq<char>| #[trigger]
        db_rows(conn).dom().contains(p) ==> db_fts(conn)[p] == db_rows(conn)[p].2
}

/// A store with no rows at all, the state right after migration.
pub open spec fn empty_rows() -> Map<Seq<char>, (u64, bool, Seq<char>)> {
    Map::empty()
}

/// A full-text mirror with no entries.
pub open spec fn empty_fts() -> Map<Seq<char>, Seq<char>> {
    Map::empty()
}

/// An error surfaced by the store.
#[derive(Debug)]
pub enum StoreError {
    /// The store file is from a prerelease layout and cannot be opened.
    SchemaPreRelease,
    /// The store file's schema version is newer than this build understands.
    SchemaTooNew(i64),
    /// Reading from the store failed.
    StoreRead(String),
    /// Writing to the store failed.
    StoreWrite(String),
    /// A search query could not be compiled.
    QueryParse(String),
}

impl StoreError {
    /// The fixed text describing each error, followed by any detail the
    /// storage layer reported.
    pub open spec fn message_spec(self) -> Seq<char> {
        match self {
            StoreError::SchemaPreRelease => "your index database is from a prerelease version and should be deleted"@,
            StoreError::SchemaTooNew(_) => "index database schema version is too high"@,
            StoreError::StoreRead(s) => "failed to read from the index database: "@ + s@,
            StoreError::StoreWrite(s) => "failed to write to the index database: "@ + s@,
            StoreError::QueryParse(s) => "could not parse the search query: "@ + s@,
        }
    }

    /// Renders the error as text.
    pub fn message(&self) -> (r: String)
        ensures
            r@ == self.message_spec(),
    {
        match self {
            StoreError::SchemaPreRelease => String::from_str(
                "your index database is from a prerelease version and should be deleted",
            ),
            StoreError::SchemaTooNew(_) => String::from_str(
                "index database schema version is too high",
            ),
            StoreError::StoreRead(s) => String::from_str(
                "failed to read from the index database: ",
            ).concat(s.as_str()),
            StoreError::StoreWrite(s) => String::from_str(
                "failed to write to the index database: ",
            ).concat(s.as_str()),
            StoreError::QueryParse(s) => String::from_str(
                "could not parse the search query: ",
            ).concat(s.as_str()),
        }
    }
}

/// What opening a store at a given schema version must do.
#[derive(Debug, Clone, Copy, PartialEq, Eq, Structural)]
pub enum SchemaAction {
    /// A fresh store: run the migration and stamp the current version.
    Migrate,
    /// The current layout: use it as it is.
    Keep,
    /// A prerelease layout: refuse.
    RejectPreRelease,
    /// A layout newer than this build: refuse.
    RejectTooNew,
}

/// The dispatch on the stored schema version.
pub open spec fn schema_action_spec(v: int) -> SchemaAction {
    if v == 0 {
        SchemaAction::Migrate
    } else if v == 1 {
        SchemaAction::RejectPreRelease
    } else if v == 2 {
        SchemaAction::Keep
    } else {
        SchemaAction::RejectTooNew
    }
}

/// Decides how to treat a store file from its schema version: 0 is fresh,
/// 1 is a refused prerelease, 2 is current, and anything else is refused as
/// too new.
pub fn schema_action(v: i64) -> (r: SchemaAction)
    ensures
        r == schema_action_spec(v as int),
{
    if v == 0 {
        SchemaAction::Migrate
    } else if v == 1 {
        SchemaAction::RejectPreRelease
    } else if v == 2 {
        SchemaAction::Keep
    } else {
        SchemaAction::RejectTooNew
    }
}

/// One recognized image, ready to be persisted: its path, its file
/// modification time in whole seconds, and the recognized text.
#[derive(Debug)]
pub struct OcrResult {
    pub path: String,
    pub modtime: u64,
    pub contents: String,
}

/// One search hit: the path of the image, its stored modtime, and a
/// snippet of the matching content.
#[derive(Debug)]
pub struct SearchResult {
    pub path: String,
    pub time: u64,
    pub contents: String,
}

impl Clone for SearchResult {
    fn clone(&self) -> (r: Self)
        ensures
            r.path@ == self.path@,
            r.time == self.time,
            r.contents@ == self.contents@,
    {
        SearchResult { path: self.path.clone(), time: self.time, contents: self.contents.clone() }
    }
}

/// The query dialects the search surface accepts.
#[derive(Debug, Clone, Copy, PartialEq, Eq, Structural)]
pub enum SearchType {
    /// One literal phrase, matched anywhere in the content.
    Simple,
    /// A full-text match expression, passed through verbatim.
    Match,
    /// A glob matched against the whole content.
    Glob,
    /// A regular expression run over every row in scope.
    Regex,
}

/// The handle to an open index store.
pub struct DB {
    conn: rusqlite::Connection,
}

/// The mark a saved row keeps: an update leaves the deletion mark alone,
/// a fresh insert starts unmarked.
pub open spec fn kept_mark(m: Map<Seq<char>, (u64, bool, Seq<char>)>, p: Seq<char>) -> bool {
    if m.dom().contains(p) {
        m[p].1
    } else {
        false
    }
}

/// One upsert: the row at the path gets the new modtime and content, and
/// keeps its mark if it already existed.
pub open spec fn save_one_spec(m: Map<Seq<char>, (u64, bool, Seq<char>)>, r: OcrResult) -> Map<
    Seq<char>,
    (u64, bool, Seq<char>),
> {
    m.insert(r.path@, (r.modtime, kept_mark(m, r.path@), r.contents@))
}

/// A batch of upserts, applied in order.
pub open spec fn save_spec(m: Map<Seq<char>, (u64, bool, Seq<char>)>, rs: Seq<OcrResult>) -> Map<
    Seq<char>,
    (u64, bool, Seq<char>),
>
    decreases rs.len(),
{
    if rs.len() == 0 {
        m
    } else {
        save_one_spec(save_spec(m, rs.drop_last()), rs.last())
    }
}

/// All deletion marks cleared.
pub open spec fn clear_marks_spec(m: Map<Seq<char>, (u64, bool, Seq<char>)>) -> Map<
    Seq<char>,
    (u64, bool, Seq<char>),
> {
    Map::new(|p: Seq<char>| m.dom().contains(p), |p: Seq<char>| (m[p].0, false, m[p].2))
}

/// Marks set exactly on the rows under the directory prefix, all others
/// cleared: the state after a fresh mark pass.
pub open spec fn mark_spec(m: Map<Seq<char>, (u64, bool, Seq<char>)>, dir: Seq<char>) -> Map<
    Seq<char>,
    (u64, bool, Seq<char>),
> {
    Map::new(
        |p: Seq<char>| m.dom().contains(p),
        |p: Seq<char>| (m[p].0, folded_prefix(dir, p), m[p].2),
    )
}

/// The one row at the path, if present, unmarked.
pub open spec fn unmark_spec(m: Map<Seq<char>, (u64, bool, Seq<char>)>, path: Seq<char>) -> Map<
    Seq<char>,
    (u64, bool, Seq<char>),
> {
    if m.dom().contains(path) {
        m.insert(path, (m[path].0, false, m[path].2))
    } else {
        m
    }
}

/// The marked paths of the model.
pub open spec fn marked_set(m: Map<Seq<char>, (u64, bool, Seq<char>)>) -> Set<Seq<char>> {
    m.dom().filter(|p: Seq<char>| m[p].1)
}

/// The rows that survive a sweep: exactly the unmarked ones.
pub open spec fn sweep_spec(m: Map<Seq<char>, (u64, bool, Seq<char>)>) -> Map<
    Seq<char>,
    (u64, bool, Seq<char>),
> {
    m.restrict(m.dom().filter(|p: Seq<char>| !m[p].1))
}

/// Upserting a row while mirroring its content keeps the full-text mirror
/// in sync and the row set finite.
proof fn lemma_sync_upsert(
    m: Map<Seq<char>, (u64, bool, Seq<char>)>,
    f: Map<Seq<char>, Seq<char>>,
    p: Seq<char>,
    row: (u64, bool, Seq<char>),
)
    requires
        f.dom() == m.dom(),
        forall|q: Seq<char>| #[trigger] m.dom().contains(q) ==> f[q] == m[q].2,
        m.dom().finite(),
    ensures
        m.insert(p, row).dom().finite(),
        f.insert(p, row.2).dom() == m.insert(p, row).dom(),
        forall|q: Seq<char>| #[trigger]
            m.insert(p, row).dom().contains(q) ==> f.insert(p, row.2)[q] == m.insert(p, row)[q].2,
{
    assert(m.insert(p, row).dom() =~= m.dom().insert(p));
    assert(f.insert(p, row.2).dom() =~= f.dom().insert(p));
    assert forall|q: Seq<char>| #[trigger]
        m.insert(p, row).dom().contains(q) implies f.insert(p, row.2)[q] == m.insert(
        p,
        row,
    )[q].2 by {
        if q != p {
            assert(m.dom().contains(q));
        }
    }
}

/// A rewrite of the rows that keeps the key set and every content keeps
/// the full-text mirror in sync.
proof fn lemma_sync_replace(
    m: Map<Seq<char>, (u64, bool, Seq<char>)>,
    f: Map<Seq<char>, Seq<char>>,
    m2: Map<Seq<char>, (u64, bool, Seq<char>)>,
)
    requires
        f.dom() == m.dom(),
        forall|q: Seq<char>| #[trigger] m.dom().contains(q) ==> f[q] == m[q].2,
        m.dom().finite(),
        m2.dom() == m.dom(),
        forall|q: Seq<char>| #[trigger] m2.dom().contains(q) ==> m2[q].2 == m[q].2,
    ensures
        m2.dom().finite(),
        f.dom() == m2.dom(),
        forall|q: Seq<char>| #[trigger] m2.dom().contains(q) ==> f[q] == m2[q].2,
{
}

/// Sweeping the marked rows and restricting the mirror to the survivors
/// keeps the two in sync and finite.
proof fn lemma_sync_sweep(m: Map<Seq<char>, (u64, bool, Seq<char>)>, f: Map<Seq<char>, Seq<char>>)
    requires
        f.dom() == m.dom(),
        forall|q: Seq<char>| #[trigger] m.dom().contains(q) ==> f[q] == m[q].2,
        m.dom().finite(),
    ensures
        sweep_spec(m).dom().finite(),
        f.restrict(m.dom().filter(|p: Seq<char>| !m[p].1)).dom() == sweep_spec(m).dom(),
        forall|q: Seq<char>| #[trigger]
            sweep_spec(m).dom().contains(q) ==> f.restrict(
                m.dom().filter(|p: Seq<char>| !m[p].1),
            )[q] == sweep_spec(m)[q].2,
{
    let kept = m.dom().filter(|p: Seq<char>| !m[p].1);
    m.dom().lemma_len_filter(|p: Seq<char>| !m[p].1);
    assert(sweep_spec(m).dom() =~= kept);
    assert(f.restrict(kept).dom() =~= kept);
}

impl DB {
    /// The indexed rows, path to (modtime, mark_delete, content).
    pub closed spec fn rows(self) -> Map<Seq<char>, (u64, bool, Seq<char>)> {
        db_rows(self.conn)
    }

    /// The live entries of the full-text mirror.
    pub closed spec fn fts(self) -> Map<Seq<char>, Seq<char>> {
        db_fts(self.conn)
    }

    /// A well-formed open store: current schema, a finite set of rows, and
    /// the full-text mirror in sync with them.
    pub closed spec fn wf(self) -> bool {
        &&& db_version(self.conn) == 2
        &&& db_rows(self.conn).dom().finite()
        &&& fts_synced(self.conn)
    }

    /// Opens the store at `path`, creating the file if absent; applies the
    /// migration to a fresh store and refuses prerelease or too-new ones.
    pub fn new(path: &str) -> (r: Result<DB, StoreError>)
        ensures
            r matches Ok(db) ==> db.wf(),
            r matches Err(e) ==> (e is SchemaPreRelease || e is SchemaTooNew || e is StoreRead
                || e is StoreWrite),
    {
        let conn = open_conn(path)?;
        let mut db = DB { conn };
        configure_pragmas(&mut db)?;
        let v = read_version(&db)?;
        match schema_action(v) {
            SchemaAction::Migrate => {
                run_migration(&mut db)?;
                proof {
                    assert(empty_rows().dom() =~= Set::<Seq<char>>::empty());
                    assert(empty_fts().dom() =~= Set::<Seq<char>>::empty());
                }
                Ok(db)
            },
            SchemaAction::Keep => Ok(db),
            SchemaAction::RejectPreRelease => Err(StoreError::SchemaPreRelease),
            SchemaAction::RejectTooNew => Err(StoreError::SchemaTooNew(v)),
        }
    }

    /// Whether a path is already indexed at exactly this file modification
    /// time; a missing row is not indexed.
    pub fn is_indexed(&self, path: &str, mtime: u64) -> (r: Result<bool, StoreError>)
        ensures
            r matches Ok(b) ==> b == (self.rows().dom().contains(path@) && self.rows()[path@].0
                == mtime),
    {
        let stored = query_modtime(self, path)?;
        match stored {
            Some(t) => Ok(t == mtime),
            None => Ok(false),
        }
    }

    /// Persists a batch of recognition results in one transaction: each is
    /// upserted by path, and the count of stored rows is returned. On
    /// failure the transaction is rolled back and only well-formedness is
    /// promised: the trusted layer does not model the staged-versus-
    /// committed distinction that an exact "unchanged" clause would need.
    pub fn save_results(&mut self, results: Vec<OcrResult>) -> (r: Result<usize, StoreError>)
        requires
            old(self).wf(),
        ensures
            final(self).wf(),
            r matches Ok(n) ==> final(self).rows() == save_spec(old(self).rows(), results@)
                && n == results.len(),
    {
        begin_tx(self)?;
        let mut i: usize = 0;
        let ghost m0 = self.rows();
        while i < results.len()
            invariant
                i <= results.len(),
                self.wf(),
                self.rows() == save_spec(m0, results@.take(i as int)),
            decreases results.len() - i,
        {
            let ghost mprev = self.rows();
            let ghost fprev = self.fts();
            let res = upsert_row(self, &results[i].path, results[i].modtime, &results[i].contents);
            match res {
                Ok(_) => {
                    proof {
                        let r = results@[i as int];
                        lemma_sync_upsert(
                            mprev,
                            fprev,
                            r.path@,
                            (r.modtime, kept_mark(mprev, r.path@), r.contents@),
                        );
                        assert(results@.take(i + 1 as int).drop_last() =~= results@.take(i as int));
                        assert(results@.take(i + 1 as int).last() == results@[i as int]);
                    }
                    i = i + 1;
                },
                Err(e) => {
                    rollback_tx(self);
                    return Err(e);
                },
            }
        }
        match commit_tx(self) {
            Ok(_) => {},
            Err(e) => {
                rollback_tx(self);
                return Err(e);
            },
        }
        proof {
            assert(results@.take(results@.len() as int) =~= results@);
        }
        Ok(i)
    }

    /// Starts a cleanup pass: clears every existing deletion mark, then
    /// marks exactly the rows whose path lies under the given directory
    /// prefix.
    pub fn mark_for_deletion(&mut self, path: &str) -> (r: Result<(), StoreError>)
        requires
            old(self).wf(),
        ensures
            final(self).wf(),
            r is Ok ==> final(self).rows() == mark_spec(old(self).rows(), path@),
    {
        let ghost m0 = self.rows();
        let ghost f0 = self.fts();
        clear_marks(self)?;
        proof {
            assert(clear_marks_spec(m0).dom() =~= m0.dom());
            lemma_sync_replace(m0, f0, clear_marks_spec(m0));
        }
        let pat = path_to_like(path);
        let ghost m1 = self.rows();
        mark_matching(self, pat.as_str())?;
        proof {
            let m2 = Map::new(
                |p: Seq<char>| m1.dom().contains(p),
                |p: Seq<char>|
                    (
                        m1[p].0,
                        if like_matches(pat@, p) {
                            true
                        } else {
                            m1[p].1
                        },
                        m1[p].2,
                    ),
            );
            assert(m2.dom() =~= m1.dom());
            lemma_sync_replace(m1, f0, m2);
            assert forall|p: Seq<char>| #[trigger]
                m1.dom().contains(p) implies like_matches(pat@, p) == folded_prefix(
                path@,
                p,
            ) by {
                crate::like::lemma_like_pattern_exact(path@, p);
            }
            assert(m2 =~= mark_spec(m0, path@));
        }
        Ok(())
    }

    /// Clears the deletion mark of the one row at exactly this path; a
    /// missing row is left alone.
    pub fn unmark_file(&mut self, path: &str) -> (r: Result<(), StoreError>)
        requires
            old(self).wf(),
        ensures
            final(self).wf(),
            r is Ok ==> final(self).rows() == unmark_spec(old(self).rows(), path@),
    {
        let ghost m0 = self.rows();
        let ghost f0 = self.fts();
        let r = unmark_path(self, path);
        proof {
            if r is Ok {
                assert(unmark_spec(m0, path@).dom() =~= m0.dom());
                lemma_sync_replace(m0, f0, unmark_spec(m0, path@));
            }
        }
        r
    }

    /// Deletes every row still marked for deletion and returns how many
    /// went; their full-text entries go with them.
    pub fn sweep_deletions(&mut self) -> (r: Result<usize, StoreError>)
        requires
            old(self).wf(),
        ensures
            final(self).wf(),
            r matches Ok(n) ==> final(self).rows() == sweep_spec(old(self).rows()) && n as int
                == marked_set(old(self).rows()).len(),
    {
        let ghost m0 = self.rows();
        let ghost f0 = self.fts();
        let r = delete_marked(self);
        proof {
            if r is Ok {
                lemma_sync_sweep(m0, f0);
            }
        }
        r
    }

    /// Searches the index: the terms go through the chosen dialect, the
    /// query is scoped to paths under `path`, paths the exclusion glob
    /// shuts out are dropped, and at most `limit` hits come back in the
    /// store's rank order, rank ties newest first. The patterns the
    /// library compiles itself — the exclusion glob and the
    /// regular-expression query — fail as `QueryParse` exactly when they
    /// are malformed; whatever the store refuses, a malformed full-text
    /// match expression included, surfaces as `StoreRead`.
    #[verifier::loop_isolation(false)]
    #[verifier::rlimit(50)]
    pub fn search(
        &self,
        queries: &Vec<String>,
        path: &str,
        limit: usize,
        kind: SearchType,
        exclude_glob: Option<String>,
    ) -> (r: Result<Vec<SearchResult>, StoreError>)
        requires
            self.wf(),
        ensures
            r matches Ok(res) ==> search_ok(
                self.rows(),
                self.fts(),
                queries.deep_view(),
                path@,
                kind,
                opt_view(exclude_glob),
                limit as int,
                res@,
            ),
            r matches Err(e) ==> (e is QueryParse || e is StoreRead),
            (r matches Err(e) && e is QueryParse) <==> query_malformed(
                queries.deep_view(),
                kind,
                opt_view(exclude_glob),
            ),
    {
        let ghost ex = opt_view(exclude_glob);
        let ghost m = self.rows();
        let ghost qv = dialect_query(queries.deep_view(), kind);
        let q = build_query(queries, kind);
        let like = path_to_like(path);
        let excl: Option<CompiledGlob> = match exclude_glob {
            Some(g) => {
                proof {
                    reveal_strlit("/**");
                }
                let pat = g.concat("/**");
                proof {
                    assert(pat@ =~= exclusion_pattern(ex->0));
                }
                Some(glob_new(pat.as_str())?)
            },
            None => None,
        };
        proof {
            assert(match excl {
                Some(c) => ex is Some && c.pat() == exclusion_pattern(ex->0),
                None => ex is None,
            });
            assert(ex is Some ==> glob_valid(exclusion_pattern(ex->0)));
            assert forall|p: Seq<char>| #[trigger]
                like_matches(like@, p) == folded_prefix(path@, p) by {
                crate::like::lemma_like_pattern_exact(path@, p);
            }
        }
        match kind {
            SearchType::Regex => {
                let re = regex_new(q.as_str())?;
                let rows = query_scoped(self, like.as_str())?;
                let mut out: Vec<SearchResult> = Vec::new();
                let ghost mut idxs: Seq<int> = Seq::empty();
                let mut k: usize = 0;
                while k < rows.len() && out.len() < limit
                    invariant
                        k <= rows.len(),
                        out.len() <= limit,
                        idxs.len() == out@.len(),
                        forall|a: int| 0 <= a < idxs.len() ==> 0 <= #[trigger] idxs[a] < k,
                        forall|a: int, b: int|
                            0 <= a < b < idxs.len() ==> #[trigger] idxs[a] < #[trigger] idxs[b],
                        forall|a: int|
                            #![trigger out@[a]]
                            0 <= a < out@.len() ==> out@[a].path@ == rows@[idxs[a]].path@
                                && out@[a].time == rows@[idxs[a]].time && out@[a].contents@
                                == plain_snippet(rows@[idxs[a]].content@) && regex_match(
                                qv,
                                rows@[idxs[a]].content@,
                            ) && !excluded_by(ex, rows@[idxs[a]].path@),
                        forall|j: int|
                            0 <= j < k && regex_match(qv, #[trigger] rows@[j].content@)
                                && !excluded_by(ex, rows@[j].path@) ==> exists|a: int|
                                0 <= a < out@.len() && out@[a].path@ == rows@[j].path@,
                    decreases rows.len() - k,
                {
                    let rw = &rows[k];
                    let keep = regex_is_match(&re, rw.content.as_str());
                    let is_ex = match &excl {
                        Some(g) => glob_is_match(g, rw.path.as_str()),
                        None => false,
                    };
                    proof {
                        assert(re.pat() == qv);
                        assert(keep == regex_match(qv, rows@[k as int].content@));
                        assert(is_ex == excluded_by(ex, rows@[k as int].path@));
                    }
                    if keep && !is_ex {
                        let ghost pre = out@;
                        let ghost pidx = idxs;
                        out.push(
                            SearchResult {
                                path: rw.path.clone(),
                                time: rw.time,
                                contents: make_plain_snippet(rw.content.as_str()),
                            },
                        );
                        proof {
                            idxs = idxs.push(k as int);
                            assert(forall|a: int| 0 <= a < pre.len() ==> out@[a] == pre[a]);
                            assert(forall|a: int| 0 <= a < pidx.len() ==> idxs[a] == pidx[a]);
                            assert(idxs[out@.len() - 1] == k as int);
                            assert(out@[out@.len() - 1].path@ == rows@[k as int].path@);
                            assert(out@[out@.len() - 1].time == rows@[k as int].time);
                            assert(out@[out@.len() - 1].contents@ == plain_snippet(
                                rows@[k as int].content@,
                            ));
                            assert(regex_match(qv, rows@[k as int].content@));
                            assert(!excluded_by(ex, rows@[k as int].path@));
                            assert(exists|a: int|
                                0 <= a < out@.len() && out@[a].path@ == rows@[k as int].path@);
                            assert forall|a: int|
                                #![trigger out@[a]]
                                0 <= a < out@.len() implies out@[a].path@ == rows@[idxs[a]].path@
                                && out@[a].time == rows@[idxs[a]].time && out@[a].contents@
                                == plain_snippet(rows@[idxs[a]].content@) && regex_match(
                                qv,
                                rows@[idxs[a]].content@,
                            ) && !excluded_by(ex, rows@[idxs[a]].path@) by {
                                if a < pre.len() {
                                    assert(out@[a] == pre[a]);
                                    assert(idxs[a] == pidx[a]);
                                    assert(pre[a].path@ == rows@[pidx[a]].path@);
                                } else {
                                    assert(a == out@.len() - 1);
                                    assert(idxs[a] == k as int);
                                }
                            }
                        }
                    }
                    k = k + 1;
                }
                proof {
                    assert forall|i: int|
                        #![trigger out@[i]]
                        0 <= i < out@.len() implies search_candidate(
                        m,
                        path@,
                        kind,
                        qv,
                        ex,
                        out@[i].path@,
                    ) && hit_for_row(m, kind, qv, out@[i]) by {
                        let j = idxs[i];
                        assert(0 <= j < rows@.len());
                        assert(out@[i].path@ == rows@[j].path@);
                    }
                    assert forall|i: int, j: int|
                        #![trigger out@[i], out@[j]]
                        0 <= i < j < out@.len() implies out@[i].path@ != out@[j].path@ by {
                        let a = idxs[i];
                        let b = idxs[j];
                        assert(0 <= a < b < rows@.len());
                        assert(rows@[a].path@ != rows@[b].path@);
                    }
                    assert forall|i: int, j: int|
                        #![trigger out@[i], out@[j]]
                        0 <= i < j < out@.len() implies out@[i].time >= out@[j].time by {
                        let a = idxs[i];
                        let b = idxs[j];
                        assert(0 <= a < b < rows@.len());
                        assert(rows@[a].time >= rows@[b].time);
                    }
                    assert forall|p: Seq<char>| #[trigger]
                        search_candidate(m, path@, kind, qv, ex, p) implies (exists|i: int|
                        0 <= i < out@.len() && out@[i].path@ == p) || (out@.len() == limit as int
                        && (forall|i: int|
                        0 <= i < out@.len() ==> no_worse_than(
                            self.fts(),
                            m,
                            qv,
                            kind,
                            #[trigger] out@[i],
                            p,
                        ))) by {
                        assert(like_matches(like@, p) == folded_prefix(path@, p));
                        let j = choose|j: int| 0 <= j < rows@.len() && rows@[j].path@ == p;
                        assert(regex_match(qv, rows@[j].content@));
                        assert(!excluded_by(ex, rows@[j].path@));
                        if j < k {
                        } else {
                            assert(out@.len() == limit as int);
                            assert forall|i: int| 0 <= i < out@.len() implies no_worse_than(
                                self.fts(),
                                m,
                                qv,
                                kind,
                                #[trigger] out@[i],
                                p,
                            ) by {
                                let a = idxs[i];
                                assert(0 <= a < k);
                                assert(rows@[a].time >= rows@[j].time);
                                assert(rows@[j].time == m[p].0);
                                assert(out@[i].time == rows@[a].time);
                            }
                        }
                    }
                    assert(search_ok(
                        m,
                        self.fts(),
                        queries.deep_view(),
                        path@,
                        kind,
                        ex,
                        limit as int,
                        out@,
                    ));
                }
                Ok(out)
            },
            _ => {
                let use_glob = match kind {
                    SearchType::Glob => true,
                    _ => false,
                };
                let hits = query_fts(self, q.as_str(), like.as_str(), use_glob)?;
                let mut out: Vec<SearchResult> = Vec::new();
                let ghost mut idxs: Seq<int> = Seq::empty();
                let mut k: usize = 0;
                while k < hits.len() && out.len() < limit
                    invariant
                        k <= hits.len(),
                        out.len() <= limit,
                        idxs.len() == out@.len(),
                        forall|a: int| 0 <= a < idxs.len() ==> 0 <= #[trigger] idxs[a] < k,
                        forall|a: int, b: int|
                            0 <= a < b < idxs.len() ==> #[trigger] idxs[a] < #[trigger] idxs[b],
                        forall|a: int|
                            #![trigger out@[a]]
                            0 <= a < out@.len() ==> same_hit(out@[a], hits@[idxs[a]])
                                && !excluded_by(ex, out@[a].path@),
                        forall|j: int|
                            0 <= j < k && !excluded_by(ex, #[trigger] hits@[j].path@) ==> exists|
                                a: int,
                            |
                                0 <= a < out@.len() && out@[a].path@ == hits@[j].path@,
                    decreases hits.len() - k,
                {
                    let h = &hits[k];
                    let is_ex = match &excl {
                        Some(g) => glob_is_match(g, h.path.as_str()),
                        None => false,
                    };
                    proof {
                        assert(is_ex == excluded_by(ex, hits@[k as int].path@));
                    }
                    if !is_ex {
                        let ghost pre = out@;
                        let ghost pidx = idxs;
                        out.push(h.clone());
                        proof {
                            idxs = idxs.push(k as int);
                            assert(forall|a: int| 0 <= a < pre.len() ==> out@[a] == pre[a]);
                            assert(forall|a: int| 0 <= a < pidx.len() ==> idxs[a] == pidx[a]);
                            assert(idxs[out@.len() - 1] == k as int);
                            assert(same_hit(out@[out@.len() - 1], hits@[k as int]));
                            assert(out@[out@.len() - 1].path@ == hits@[k as int].path@);
                            assert(exists|a: int|
                                0 <= a < out@.len() && out@[a].path@ == hits@[k as int].path@);
                        }
                    }
                    k = k + 1;
                }
                proof {
                    assert forall|i: int|
                        #![trigger out@[i]]
                        0 <= i < out@.len() implies search_candidate(
                        m,
                        path@,
                        kind,
                        qv,
                        ex,
                        out@[i].path@,
                    ) && hit_for_row(m, kind, qv, out@[i]) by {
                        let j = idxs[i];
                        assert(0 <= j < hits@.len());
                        assert(same_hit(out@[i], hits@[j]));
                    }
                    assert forall|i: int, j: int|
                        #![trigger out@[i], out@[j]]
                        0 <= i < j < out@.len() implies out@[i].path@ != out@[j].path@ by {
                        let a = idxs[i];
                        let b = idxs[j];
                        assert(0 <= a < b < hits@.len());
                        assert(hits@[a].path@ != hits@[b].path@);
                    }
                    assert(use_glob == (kind is Glob));
                    if use_glob {
                        assert forall|i: int, j: int|
                            #![trigger out@[i], out@[j]]
                            0 <= i < j < out@.len() implies out@[i].time >= out@[j].time by {
                            let a = idxs[i];
                            let b = idxs[j];
                            assert(0 <= a < b < hits@.len());
                            assert(same_hit(out@[i], hits@[a]));
                            assert(same_hit(out@[j], hits@[b]));
                        }
                    } else {
                        assert forall|i: int, j: int|
                            #![trigger out@[i], out@[j]]
                            0 <= i < j < out@.len() implies fts_rank_le(
                            self.fts(),
                            qv,
                            m[out@[i].path@].2,
                            m[out@[j].path@].2,
                        ) && (fts_rank_le(self.fts(), qv, m[out@[j].path@].2, m[out@[i].path@].2)
                            ==> out@[i].time >= out@[j].time) by {
                            let a = idxs[i];
                            let b = idxs[j];
                            assert(0 <= a < b < hits@.len());
                            assert(same_hit(out@[i], hits@[a]));
                            assert(same_hit(out@[j], hits@[b]));
                        }
                    }
                    assert forall|p: Seq<char>| #[trigger]
                        search_candidate(m, path@, kind, qv, ex, p) implies (exists|i: int|
                        0 <= i < out@.len() && out@[i].path@ == p) || (out@.len() == limit as int
                        && (forall|i: int|
                        0 <= i < out@.len() ==> no_worse_than(
                            self.fts(),
                            m,
                            qv,
                            kind,
                            #[trigger] out@[i],
                            p,
                        ))) by {
                        assert(like_matches(like@, p) == folded_prefix(path@, p));
                        let j = choose|j: int| 0 <= j < hits@.len() && hits@[j].path@ == p;
                        if j < k {
                            assert(!excluded_by(ex, hits@[j].path@));
                        } else {
                            assert(out@.len() == limit as int);
                            assert forall|i: int| 0 <= i < out@.len() implies no_worse_than(
                                self.fts(),
                                m,
                                qv,
                                kind,
                                #[trigger] out@[i],
                                p,
                            ) by {
                                let a = idxs[i];
                                assert(0 <= a < k);
                                assert(same_hit(out@[i], hits@[a]));
                                assert(hits@[j].time == m[p].0);
                            }
                        }
                    }
                    assert(search_ok(
                        m,
                        self.fts(),
                        queries.deep_view(),
                        path@,
                        kind,
                        ex,
                        limit as int,
                        out@,
                    ));
                }
                Ok(out)
            },
        }
    }
}

/// Relies on `rusqlite::Connection::open`: opens the store file, creating
/// it if absent. A store already at the current layout has the mirror
/// triggers installed, so its full-text entries shadow its rows.
#[verifier::external_body]
fn open_conn(path: &str) -> (r: Result<rusqlite::Connection, StoreError>)
    ensures
        r matches Ok(c) ==> db_rows(c).dom().finite() && (db_version(c) == 2 ==> fts_synced(c)),
        r matches Err(e) ==> e is StoreRead,
{
    rusqlite::Connection::open(path).map_err(|e| StoreError::StoreRead(e.to_string()))
}

/// Relies on `rusqlite::Connection::pragma_update`: switches the store to
/// a write-ahead journal with normal durability. Touches no table.
#[verifier::external_body]
fn configure_pragmas(db: &mut DB) -> (r: Result<(), StoreError>)
    ensures
        db_rows(final(db).conn) == db_rows(old(db).conn),
        db_fts(final(db).conn) == db_fts(old(db).conn),
        db_version(final(db).conn) == db_version(old(db).conn),
        r matches Err(e) ==> e is StoreWrite,
{
    db.conn.pragma_update(None, "journal_mode", "wal").map_err(
        |e| StoreError::StoreWrite(e.to_string()),
    )?;
    db.conn.pragma_update(None, "synchronous", "normal").map_err(
        |e| StoreError::StoreWrite(e.to_string()),
    )
}

/// Relies on `rusqlite::Connection::query_row` reading
/// `pragma_user_version`: returns the store's schema version.
#[verifier::external_body]
fn read_version(db: &DB) -> (r: Result<i64, StoreError>)
    ensures
        r matches Ok(v) ==> v as int == db_version(db.conn),
        r matches Err(e) ==> e is StoreRead,
{
    db.conn.query_row("SELECT user_version FROM pragma_user_version", [], |row| row.get(0))
        .map_err(|e| StoreError::StoreRead(e.to_string()))
}

const SCHEMA_DDL: &'static str = "\
    BEGIN;\n\
    CREATE TABLE images(\n\
        id INTEGER PRIMARY KEY ASC,\n\
        path TEXT UNIQUE NOT NULL,\n\
        modtime INTEGER NOT NULL,\n\
        mark_delete BOOL DEFAULT FALSE,\n\
        content TEXT NOT NULL\n\
    );\n\
    CREATE INDEX mark_delete_idx ON images (mark_delete);\n\
    CREATE VIRTUAL TABLE images_fts USING fts5(content, content=images, content_rowid=id, tokenize='trigram case_sensitive 0');\n\
    CREATE TRIGGER images_insert AFTER INSERT ON images BEGIN\n\
        INSERT INTO images_fts (rowid, content) VALUES (new.id, new.content);\n\
    END;\n\
    CREATE TRIGGER images_delete AFTER DELETE ON images BEGIN\n\
        INSERT INTO images_fts (images_fts, rowid, content) VALUES ('delete', old.id, old.content);\n\
    END;\n\
    CREATE TRIGGER images_update AFTER UPDATE ON images BEGIN\n\
        INSERT INTO images_fts (images_fts, rowid, content) VALUES ('delete', old.id, old.content);\n\
        INSERT INTO images_fts (rowid, content) VALUES (new.id, new.content);\n\
    END;\n\
    PRAGMA user_version = 2;\n\
    COMMIT;";

/// Relies on `rusqlite::Connection::execute_batch` running the schema
/// script in one transaction: it creates the empty image table, its
/// full-text mirror and the triggers that keep them in sync, and stamps
/// the current schema version. A failure leaves the modeled rows
/// unchanged, since the script only creates empty schema objects.
#[verifier::external_body]
fn run_migration(db: &mut DB) -> (r: Result<(), StoreError>)
    ensures
        r is Ok ==> db_version(final(db).conn) == 2 && db_rows(final(db).conn) == empty_rows()
            && db_fts(final(db).conn) == empty_fts(),
        r is Err ==> db_rows(final(db).conn) == db_rows(old(db).conn) && db_fts(final(db).conn)
            == db_fts(old(db).conn) && db_version(final(db).conn) == db_version(old(db).conn),
        r matches Err(e) ==> e is StoreWrite,
{
    db.conn.execute_batch(SCHEMA_DDL).map_err(|e| StoreError::StoreWrite(e.to_string()))
}

/// Relies on `rusqlite::Connection::execute_batch` opening a transaction.
/// Touches no table.
#[verifier::external_body]
fn begin_tx(db: &mut DB) -> (r: Result<(), StoreError>)
    ensures
        db_rows(final(db).conn) == db_rows(old(db).conn),
        db_fts(final(db).conn) == db_fts(old(db).conn),
        db_version(final(db).conn) == db_version(old(db).conn),
{
    db.conn.execute_batch("BEGIN").map_err(|e| StoreError::StoreWrite(e.to_string()))
}

/// Relies on `rusqlite::Connection::execute_batch` committing the open
/// transaction: on success the staged changes, already reflected in the
/// model, become durable and no table changes. A failed commit may have
/// rolled the whole transaction back on its own; either way the store is
/// a state the mirror triggers maintained.
#[verifier::external_body]
fn commit_tx(db: &mut DB) -> (r: Result<(), StoreError>)
    requires
        db_version(old(db).conn) == 2,
    ensures
        db_version(final(db).conn) == 2,
        r is Ok ==> db_rows(final(db).conn) == db_rows(old(db).conn) && db_fts(final(db).conn)
            == db_fts(old(db).conn),
        r is Err ==> db_rows(final(db).conn).dom().finite() && fts_synced(final(db).conn),
{
    db.conn.execute_batch("COMMIT").map_err(|e| StoreError::StoreWrite(e.to_string()))
}

/// Relies on `rusqlite::Connection::execute_batch` rolling back the open
/// transaction: the store returns to a state the mirror triggers
/// maintained, so it is still in sync, at the current schema, and finite.
#[verifier::external_body]
fn rollback_tx(db: &mut DB)
    requires
        db_version(old(db).conn) == 2,
    ensures
        db_version(final(db).conn) == 2,
        db_rows(final(db).conn).dom().finite(),
        fts_synced(final(db).conn),
{
    let _ = db.conn.execute_batch("ROLLBACK");
}

/// Relies on `rusqlite::Connection::execute` running the single upsert
/// statement: the row is inserted, or on a path conflict its modtime and
/// content are updated in place with the deletion mark left alone; exactly
/// one row changes, and the triggers mirror the change into the full-text
/// table. A failed statement either has no effect or, for some storage
/// errors, takes the whole open transaction down with it; both leave a
/// state the mirror triggers maintained.
#[verifier::external_body]
fn upsert_row(db: &mut DB, path: &String, modtime: u64, content: &String) -> (r: Result<
    usize,
    StoreError,
>)
    requires
        db_version(old(db).conn) == 2,
    ensures
        db_version(final(db).conn) == 2,
        r matches Ok(n) ==> n == 1 && db_rows(final(db).conn) == db_rows(old(db).conn).insert(
            path@,
            (modtime, kept_mark(db_rows(old(db).conn), path@), content@),
        ) && db_fts(final(db).conn) == db_fts(old(db).conn).insert(path@, content@),
        r is Err ==> db_rows(final(db).conn).dom().finite() && fts_synced(final(db).conn),
{
    let t = i64::try_from(modtime).map_err(|e| StoreError::StoreWrite(e.to_string()))?;
    db.conn.execute(
        "INSERT INTO images (path, modtime, content) VALUES (?1, ?2, ?3) ON CONFLICT(path) DO UPDATE SET modtime=excluded.modtime, content=excluded.content",
        (path.as_str(), t, content.as_str()),
    ).map_err(|e| StoreError::StoreWrite(e.to_string()))
}

/// Relies on `rusqlite::Connection::query_row` with
/// `rusqlite::OptionalExtension`: the stored modtime of the row at exactly
/// this path, or `None` when no such row exists.
#[verifier::external_body]
fn query_modtime(db: &DB, path: &str) -> (r: Result<Option<u64>, StoreError>)
    ensures
        r matches Ok(m) ==> m == if db_rows(db.conn).dom().contains(path@) {
            Some(db_rows(db.conn)[path@].0)
        } else {
            None
        },
{
    let t: Option<i64> = db.conn.query_row(
        "SELECT modtime FROM images WHERE path = ?1",
        [path],
        |row| row.get(0),
    ).optional().map_err(|e| StoreError::StoreRead(e.to_string()))?;
    match t {
        None => Ok(None),
        Some(v) => Ok(Some(u64::try_from(v).map_err(|e| StoreError::StoreRead(e.to_string()))?)),
    }
}

/// Relies on `rusqlite::Connection::execute` running
/// `UPDATE images SET mark_delete = FALSE`: every deletion mark is
/// cleared; nothing else changes. On failure nothing changes.
#[verifier::external_body]
fn clear_marks(db: &mut DB) -> (r: Result<(), StoreError>)
    ensures
        db_version(final(db).conn) == db_version(old(db).conn),
        db_fts(final(db).conn) == db_fts(old(db).conn),
        r is Ok ==> db_rows(final(db).conn) == clear_marks_spec(db_rows(old(db).conn)),
        r is Err ==> db_rows(final(db).conn) == db_rows(old(db).conn),
{
    db.conn.execute("UPDATE images SET mark_delete = FALSE WHERE mark_delete = TRUE", []).map_err(
        |e| StoreError::StoreWrite(e.to_string()),
    )?;
    Ok(())
}

/// Relies on `rusqlite::Connection::execute` running
/// `UPDATE images SET mark_delete = TRUE WHERE path LIKE ?1 ESCAPE '#'`:
/// sets the mark on exactly the rows whose path matches the pattern and
/// leaves all other rows alone. On failure nothing changes.
#[verifier::external_body]
fn mark_matching(db: &mut DB, pattern: &str) -> (r: Result<(), StoreError>)
    ensures
        db_version(final(db).conn) == db_version(old(db).conn),
        db_fts(final(db).conn) == db_fts(old(db).conn),
        r is Ok ==> db_rows(final(db).conn) == Map::new(
            |p: Seq<char>| db_rows(old(db).conn).dom().contains(p),
            |p: Seq<char>|
                (
                    db_rows(old(db).conn)[p].0,
                    if like_matches(pattern@, p) {
                        true
                    } else {
                        db_rows(old(db).conn)[p].1
                    },
                    db_rows(old(db).conn)[p].2,
                ),
        ),
        r is Err ==> db_rows(final(db).conn) == db_rows(old(db).conn),
{
    db.conn.execute("UPDATE images SET mark_delete = TRUE WHERE path LIKE ?1 ESCAPE '#'", [pattern])
        .map_err(|e| StoreError::StoreWrite(e.to_string()))?;
    Ok(())
}

/// Relies on `rusqlite::Connection::execute` running
/// `UPDATE images SET mark_delete = FALSE WHERE path = ?1`: clears the
/// mark of the one row at exactly this path, if any. On failure nothing
/// changes.
#[verifier::external_body]
fn unmark_path(db: &mut DB, path: &str) -> (r: Result<(), StoreError>)
    ensures
        db_version(final(db).conn) == db_version(old(db).conn),
        db_fts(final(db).conn) == db_fts(old(db).conn),
        r is Ok ==> db_rows(final(db).conn) == unmark_spec(db_rows(old(db).conn), path@),
        r is Err ==> db_rows(final(db).conn) == db_rows(old(db).conn),
{
    db.conn.execute("UPDATE images SET mark_delete = FALSE WHERE path = ?1", [path]).map_err(
        |e| StoreError::StoreWrite(e.to_string()),
    )?;
    Ok(())
}

/// Relies on `rusqlite::Connection::execute` running
/// `DELETE FROM images WHERE mark_delete = TRUE`: removes exactly the
/// marked rows, returns how many, and the delete trigger drops each
/// removed row's full-text entry. On failure nothing changes.
#[verifier::external_body]
fn delete_marked(db: &mut DB) -> (r: Result<usize, StoreError>)
    ensures
        db_version(final(db).conn) == db_version(old(db).conn),
        r matches Ok(n) ==> db_rows(final(db).conn) == sweep_spec(db_rows(old(db).conn)) && db_fts(
            final(db).conn,
        ) == db_fts(old(db).conn).restrict(
            db_rows(old(db).conn).dom().filter(|p: Seq<char>| !db_rows(old(db).conn)[p].1),
        ) && n as int == marked_set(db_rows(old(db).conn)).len(),
        r is Err ==> db_rows(final(db).conn) == db_rows(old(db).conn) && db_fts(final(db).conn)
            == db_fts(old(db).conn),
{
    db.conn.execute("DELETE FROM images WHERE mark_delete = TRUE", []).map_err(
        |e| StoreError::StoreWrite(e.to_string()),
    )
}

/// Every indexed row of a well-formed store has exactly one live
/// full-text entry carrying its content, and no entry outlives its row:
/// in particular a sweep leaves no orphan entry behind.
pub proof fn lemma_fts_consistent(db: DB)
    requires
        db.wf(),
    ensures
        db.fts().dom() == db.rows().dom(),
        forall|p: Seq<char>| #[trigger]
            db.rows().dom().contains(p) ==> db.fts()[p] == db.rows()[p].2,
{
}

/// Whether a content satisfies the store's full-text `MATCH` operator for
/// a query.
pub uninterp spec fn fts_match(query: Seq<char>, content: Seq<char>) -> bool;

/// Whether a content satisfies the store's `GLOB` operator for a query.
pub uninterp spec fn sql_glob_match(query: Seq<char>, content: Seq<char>) -> bool;

/// The store's match-rank order for one `MATCH` query: `a` ranks at least
/// as well as `b`. The rank weighs corpus statistics, so the mirror's
/// contents are a parameter. A glob query has no match rank; its results
/// fall back to modtime order and this name is never applied to them.
pub uninterp spec fn fts_rank_le(
    corpus: Map<Seq<char>, Seq<char>>,
    query: Seq<char>,
    a: Seq<char>,
    b: Seq<char>,
) -> bool;

/// The highlighted snippet the store renders for a matching content:
/// up to 64 tokens with the matched terms in brackets, ellipsised. What
/// it renders depends on the operator the query ran under, so that is a
/// parameter too.
pub uninterp spec fn fts_snippet(glob_op: bool, query: Seq<char>, content: Seq<char>) -> Seq<char>;

/// Whether a content is selected by a dialect's query string.
pub open spec fn content_selected(kind: SearchType, q: Seq<char>, c: Seq<char>) -> bool {
    match kind {
        SearchType::Simple => fts_match(q, c),
        SearchType::Match => fts_match(q, c),
        SearchType::Glob => sql_glob_match(q, c),
        SearchType::Regex => regex_match(q, c),
    }
}

/// The glob that excludes a subtree: the user's pattern with `/**` behind
/// it.
pub open spec fn exclusion_pattern(g: Seq<char>) -> Seq<char> {
    g + seq!['/', '*', '*']
}

/// Whether a path is shut out by the optional exclusion glob.
pub open spec fn excluded_by(ex: Option<Seq<char>>, p: Seq<char>) -> bool {
    match ex {
        Some(g) => glob_match(exclusion_pattern(g), p),
        None => false,
    }
}

/// The view of an optional exclusion pattern.
pub open spec fn opt_view(o: Option<String>) -> Option<Seq<char>> {
    match o {
        Some(s) => Some(s@),
        None => None,
    }
}

/// A row the search returns: it is a stored row whose path lies in the
/// scope, whose content the query selects, and the hit carries the row's
/// modtime and its rendered snippet.
pub open spec fn search_candidate(
    m: Map<Seq<char>, (u64, bool, Seq<char>)>,
    scope: Seq<char>,
    kind: SearchType,
    q: Seq<char>,
    ex: Option<Seq<char>>,
    p: Seq<char>,
) -> bool {
    &&& m.dom().contains(p)
    &&& folded_prefix(scope, p)
    &&& content_selected(kind, q, m[p].2)
    &&& !excluded_by(ex, p)
}

/// The hit's fields are exactly those of the stored row at its path.
pub open spec fn hit_for_row(
    m: Map<Seq<char>, (u64, bool, Seq<char>)>,
    kind: SearchType,
    q: Seq<char>,
    h: SearchResult,
) -> bool {
    &&& m.dom().contains(h.path@)
    &&& h.time == m[h.path@].0
    &&& h.contents@ == if kind is Regex {
        plain_snippet(m[h.path@].2)
    } else {
        fts_snippet(kind is Glob, q, m[h.path@].2)
    }
}

/// The results come in the store's rank order, rank ties broken by newer
/// modtime first; the glob and regular-expression dialects have no match
/// rank and order by modtime alone.
pub open spec fn ranked(
    f: Map<Seq<char>, Seq<char>>,
    m: Map<Seq<char>, (u64, bool, Seq<char>)>,
    q: Seq<char>,
    kind: SearchType,
    res: Seq<SearchResult>,
) -> bool {
    forall|i: int, j: int|
        #![trigger res[i], res[j]]
        0 <= i < j < res.len() ==> if kind is Regex || kind is Glob {
            res[i].time >= res[j].time
        } else {
            fts_rank_le(f, q, m[res[i].path@].2, m[res[j].path@].2) && (fts_rank_le(
                f,
                q,
                m[res[j].path@].2,
                m[res[i].path@].2,
            ) ==> res[i].time >= res[j].time)
        }
}

/// Two hits with the same fields.
pub open spec fn same_hit(a: SearchResult, b: SearchResult) -> bool {
    a.path@ == b.path@ && a.time == b.time && a.contents@ == b.contents@
}

/// A returned hit ranks at least as well as the stored row at `p` would:
/// by the store's match rank for the full-text dialects, by modtime for
/// the glob and regular-expression dialects, whose results carry no rank.
pub open spec fn no_worse_than(
    f: Map<Seq<char>, Seq<char>>,
    m: Map<Seq<char>, (u64, bool, Seq<char>)>,
    q: Seq<char>,
    kind: SearchType,
    h: SearchResult,
    p: Seq<char>,
) -> bool {
    if kind is Regex || kind is Glob {
        h.time >= m[p].0
    } else {
        fts_rank_le(f, q, m[h.path@].2, m[p].2)
    }
}

/// The query inputs the search surface itself refuses before asking the
/// store: an exclusion glob whose pattern does not compile, or, for the
/// regular-expression dialect, a query that is no valid regular
/// expression.
pub open spec fn query_malformed(
    terms: Seq<Seq<char>>,
    kind: SearchType,
    ex: Option<Seq<char>>,
) -> bool {
    ||| (ex matches Some(g) && !glob_valid(exclusion_pattern(g)))
    ||| (kind is Regex && !regex_valid(dialect_query(terms, kind)))
}

/// Everything a successful search returns: at most `limit` hits, each a
/// stored row in scope that the dialect's query selects and the exclusion
/// admits, each path at most once, in the store's rank order; every such
/// row is present, or else the list is full and every returned hit ranks
/// at least as well as the omitted row.
pub open spec fn search_ok(
    m: Map<Seq<char>, (u64, bool, Seq<char>)>,
    f: Map<Seq<char>, Seq<char>>,
    terms: Seq<Seq<char>>,
    scope: Seq<char>,
    kind: SearchType,
    ex: Option<Seq<char>>,
    limit: int,
    res: Seq<SearchResult>,
) -> bool {
    let q = dialect_query(terms, kind);
    &&& res.len() <= limit
    &&& forall|i: int|
        #![trigger res[i]]
        0 <= i < res.len() ==> search_candidate(m, scope, kind, q, ex, res[i].path@)
            && hit_for_row(m, kind, q, res[i])
    &&& forall|i: int, j: int|
        #![trigger res[i], res[j]]
        0 <= i < j < res.len() ==> res[i].path@ != res[j].path@
    &&& ranked(f, m, q, kind, res)
    &&& forall|p: Seq<char>| #[trigger]
        search_candidate(m, scope, kind, q, ex, p) ==> (exists|i: int|
            0 <= i < res.len() && res[i].path@ == p) || (res.len() == limit && (forall|i: int|
            0 <= i < res.len() ==> no_worse_than(f, m, q, kind, #[trigger] res[i], p)))
}

/// One row of the scoped select the regular-expression dialect walks.
struct ScopedRow {
    path: String,
    time: u64,
    content: String,
}

/// Relies on `rusqlite::Statement::query_map` running the ranked
/// full-text select: one hit for exactly each row whose path matches the
/// `LIKE` pattern and whose content satisfies the operator, carrying the
/// row's modtime and the store's snippet. A `MATCH` query comes ordered
/// by match rank with newer rows first among rank ties; a glob query has
/// no rank, so its rows come newest first.
#[verifier::external_body]
fn query_fts(db: &DB, query: &str, like: &str, use_glob: bool) -> (r: Result<
    Vec<SearchResult>,
    StoreError,
>)
    requires
        fts_synced(db.conn),
    ensures
        r matches Ok(hits) ==> (forall|i: int|
            #![trigger hits@[i]]
            0 <= i < hits@.len() ==> db_rows(db.conn).dom().contains(hits@[i].path@)
                && like_matches(like@, hits@[i].path@) && (if use_glob {
                sql_glob_match(query@, db_rows(db.conn)[hits@[i].path@].2)
            } else {
                fts_match(query@, db_rows(db.conn)[hits@[i].path@].2)
            }) && hits@[i].time == db_rows(db.conn)[hits@[i].path@].0 && hits@[i].contents@
                == fts_snippet(use_glob, query@, db_rows(db.conn)[hits@[i].path@].2)),
        r matches Ok(hits) ==> (forall|i: int, j: int|
            #![trigger hits@[i], hits@[j]]
            0 <= i < j < hits@.len() ==> hits@[i].path@ != hits@[j].path@),
        r matches Ok(hits) ==> (forall|p: Seq<char>| #[trigger]
            db_rows(db.conn).dom().contains(p) && like_matches(like@, p) && (if use_glob {
                sql_glob_match(query@, db_rows(db.conn)[p].2)
            } else {
                fts_match(query@, db_rows(db.conn)[p].2)
            }) ==> exists|i: int| 0 <= i < hits@.len() && hits@[i].path@ == p),
        r matches Ok(hits) ==> (forall|i: int, j: int|
            #![trigger hits@[i], hits@[j]]
            0 <= i < j < hits@.len() ==> if use_glob {
                hits@[i].time >= hits@[j].time
            } else {
                fts_rank_le(
                    db_fts(db.conn),
                    query@,
                    db_rows(db.conn)[hits@[i].path@].2,
                    db_rows(db.conn)[hits@[j].path@].2,
                ) && (fts_rank_le(
                    db_fts(db.conn),
                    query@,
                    db_rows(db.conn)[hits@[j].path@].2,
                    db_rows(db.conn)[hits@[i].path@].2,
                ) ==> hits@[i].time >= hits@[j].time)
            }),
        r matches Err(e) ==> e is StoreRead,
{
    let op = if use_glob {
        "GLOB"
    } else {
        "MATCH"
    };
    let sql = format!(
        "SELECT snippet(images_fts, -1, '[', ']', '..', 64), images.path, images.modtime FROM images_fts INNER JOIN images ON images_fts.rowid = images.id AND images.path LIKE ?2 ESCAPE '#' WHERE images_fts.content {op} ?1 ORDER BY RANK, images.modtime DESC",
    );
    let mut stmt = db.conn.prepare_cached(&sql).map_err(|e| StoreError::StoreRead(e.to_string()))?;
    let rows = stmt.query_map((query, like), |row| {
        let t: i64 = row.get(2)?;
        let time = u64::try_from(t).map_err(|_| rusqlite::Error::IntegralValueOutOfRange(2, t))?;
        Ok(SearchResult { contents: row.get(0)?, path: row.get(1)?, time })
    }).map_err(|e| StoreError::StoreRead(e.to_string()))?;
    rows.collect::<Result<Vec<SearchResult>, rusqlite::Error>>().map_err(
        |e| StoreError::StoreRead(e.to_string()),
    )
}

/// Relies on `rusqlite::Statement::query_map` running the scoped select:
/// one row for exactly each stored row whose path matches the `LIKE`
/// pattern, carrying its modtime and content, newest first.
#[verifier::external_body]
fn query_scoped(db: &DB, like: &str) -> (r: Result<Vec<ScopedRow>, StoreError>)
    ensures
        r matches Ok(rows) ==> (forall|i: int|
            #![trigger rows@[i]]
            0 <= i < rows@.len() ==> db_rows(db.conn).dom().contains(rows@[i].path@)
                && like_matches(like@, rows@[i].path@) && rows@[i].time == db_rows(
                db.conn,
            )[rows@[i].path@].0 && rows@[i].content@ == db_rows(db.conn)[rows@[i].path@].2),
        r matches Ok(rows) ==> (forall|i: int, j: int|
            #![trigger rows@[i], rows@[j]]
            0 <= i < j < rows@.len() ==> rows@[i].path@ != rows@[j].path@),
        r matches Ok(rows) ==> (forall|p: Seq<char>| #[trigger]
            db_rows(db.conn).dom().contains(p) && like_matches(like@, p) ==> exists|i: int|
                0 <= i < rows@.len() && rows@[i].path@ == p),
        r matches Ok(rows) ==> (forall|i: int, j: int|
            #![trigger rows@[i], rows@[j]]
            0 <= i < j < rows@.len() ==> rows@[i].time >= rows@[j].time),
        r matches Err(e) ==> e is StoreRead,
{
    let mut stmt = db.conn.prepare_cached(
        "SELECT path, modtime, content FROM images WHERE path LIKE ?1 ESCAPE '#' ORDER BY modtime DESC",
    ).map_err(|e| StoreError::StoreRead(e.to_string()))?;
    let rows = stmt.query_map([like], |row| {
        let t: i64 = row.get(1)?;
        let time = u64::try_from(t).map_err(|_| rusqlite::Error::IntegralValueOutOfRange(1, t))?;
        Ok(ScopedRow { path: row.get(0)?, time, content: row.get(2)? })
    }).map_err(|e| StoreError::StoreRead(e.to_string()))?;
    rows.collect::<Result<Vec<ScopedRow>, rusqlite::Error>>().map_err(
        |e| StoreError::StoreRead(e.to_string()),
    )
}

} // verus!

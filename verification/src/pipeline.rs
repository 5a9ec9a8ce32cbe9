//! The ingestion pipeline: it reacts to filesystem notifications by
//! purging cursors of removed files and by ingesting the unread range of
//! modified files.
//!
//! Reading the file itself is the caller's part: for a modified path the
//! caller asks `begin_file_change` for the cursor, reads the bytes from
//! that offset to the end of the file, decodes them, and hands the text
//! to `apply_file_change`, which parses the lines, persists the entries
//! in file order, and only then advances the cursor by the byte length of
//! the text.  A failure anywhere in a batch leaves the cursor unchanged,
//! so the same bytes are read again on the next notification:
//! at-least-once ingestion, with duplicates possible and loss not.

use vstd::prelude::*;

use crate::cache::Cache;
use crate::entities::LogEntry;
use crate::errors::RepositoryError;
use crate::record::{
    entry_matches_model, ingest_line, model_of_line, record_of_line, EntryModel,
};
use crate::repository::{lemma_filter_take_step, LogRepository};
use crate::text::{split_lines, split_lines_vec};
use vstd::string::StringSliceAdditionalSpecFns;

verus! {

/// The kind of a filesystem notification.
#[derive(Clone, Copy, Debug, PartialEq, Eq, Structural)]
pub enum EventKind {
    Modify,
    Remove,
    Other,
}

/// One filesystem notification: a kind and the paths it concerns.
#[derive(Debug)]
pub struct FsEvent {
    pub kind: EventKind,
    pub paths: Vec<String>,
}

/// What the pipeline does with an event of a given kind.
#[derive(Clone, Copy, Debug, PartialEq, Eq, Structural)]
pub enum EventPlan {
    IngestPaths,
    PurgeCursors,
    Ignore,
}

/// Modifications are ingested, removals purge cursors, and any other
/// event kind is ignored.
pub open spec fn plan_of(kind: EventKind) -> EventPlan {
    match kind {
        EventKind::Modify => EventPlan::IngestPaths,
        EventKind::Remove => EventPlan::PurgeCursors,
        EventKind::Other => EventPlan::Ignore,
    }
}

/// What to do with an event of the given kind.
pub fn plan_for(kind: EventKind) -> (r: EventPlan)
    ensures
        r == plan_of(kind),
{
    match kind {
        EventKind::Modify => EventPlan::IngestPaths,
        EventKind::Remove => EventPlan::PurgeCursors,
        EventKind::Other => EventPlan::Ignore,
    }
}

/// The non-empty lines of an ingested text, in file order.
pub open spec fn nonempty_lines(data: Seq<char>) -> Seq<Seq<char>> {
    split_lines(data).filter(|l: Seq<char>| l.len() != 0)
}

/// Every line contributes a model.
pub open spec fn all_lines_ok(ls: Seq<Seq<char>>) -> bool {
    forall|i: int| 0 <= i < ls.len() ==> model_of_line(#[trigger] ls[i]) is Some
}

/// The models the lines contribute, in order.
pub open spec fn models_of_lines(ls: Seq<Seq<char>>) -> Seq<EntryModel> {
    Seq::new(ls.len(), |i: int| model_of_line(ls[i]).unwrap())
}

/// What a whole batch contributes: the models of its non-empty lines, or
/// `None` when any line is malformed or carries a bad timestamp.
pub open spec fn batch_models(data: Seq<char>) -> Option<Seq<EntryModel>> {
    if all_lines_ok(nonempty_lines(data)) {
        Some(models_of_lines(nonempty_lines(data)))
    } else {
        None
    }
}

/// The new store extends the old one by entries realising the models, in
/// order.
pub open spec fn entries_extend(
    old_logs: Seq<LogEntry>,
    new_logs: Seq<LogEntry>,
    ms: Seq<EntryModel>,
) -> bool {
    &&& new_logs.len() == old_logs.len() + ms.len()
    &&& new_logs.take(old_logs.len() as int) == old_logs
    &&& forall|i: int|
        0 <= i < ms.len() ==> entry_matches_model(
            #[trigger] new_logs[old_logs.len() + i],
            ms[i],
        )
}

/// The offset at which ingestion of a path begins: its cursor, or zero
/// for an unseen path.
pub open spec fn begin_offset(cursors: Map<Seq<char>, u64>, path: Seq<char>) -> u64 {
    if cursors.contains_key(path) {
        cursors[path]
    } else {
        0
    }
}

/// The paths of a notification, as texts.
pub open spec fn path_set(ps: Seq<String>) -> Set<Seq<char>> {
    Set::new(|k: Seq<char>| exists|i: int| 0 <= i < ps.len() && ps[i]@ == k)
}

/// The ingestion pipeline over an injected cursor store and log store.
pub struct IngestionPipeline<C: Cache, L: LogRepository> {
    pub cache: C,
    pub log_repo: L,
}

impl<C: Cache, L: LogRepository> IngestionPipeline<C, L> {
    /// A pipeline over the given stores.
    pub fn new(cache: C, log_repo: L) -> (r: IngestionPipeline<C, L>)
        ensures
            r.cache == cache,
            r.log_repo == log_repo,
    {
        IngestionPipeline { cache, log_repo }
    }

    /// Purges the cursors of removed paths.  Every path is attempted even
    /// when one fails; the first failure is reported.  It is not an error
    /// that a path had no cursor.
    pub fn on_files_delete(&mut self, paths: &Vec<String>) -> (r: Result<(), RepositoryError>)
        ensures
            final(self).log_repo.logs() == old(self).log_repo.logs(),
            exists|rem: Set<Seq<char>>|
                #![auto]
                rem.subset_of(path_set(paths@)) && final(self).cache.cached() == old(
                    self,
                ).cache.cached().remove_keys(rem),
            r is Ok ==> final(self).cache.cached() == old(self).cache.cached().remove_keys(
                path_set(paths@),
            ),
            r matches Err(e) ==> e == RepositoryError::StoreUnavailable,
    {
        let ghost cache0 = self.cache.cached();
        let ghost mut rem = Set::<Seq<char>>::empty();
        let mut failed = false;
        proof {
            assert(cache0.remove_keys(rem) =~= cache0);
        }
        let mut i: usize = 0;
        while i < paths.len()
            invariant
                0 <= i <= paths@.len(),
                rem.subset_of(path_set(paths@.take(i as int))),
                self.cache.cached() == cache0.remove_keys(rem),
                self.log_repo.logs() == old(self).log_repo.logs(),
                !failed ==> rem == path_set(paths@.take(i as int)),
            decreases paths@.len() - i,
        {
            let ghost pre = path_set(paths@.take(i as int));
            let ghost post = path_set(paths@.take(i + 1));
            proof {
                assert forall|k: Seq<char>| post.contains(k) implies pre.insert(
                    paths@[i as int]@,
                ).contains(k) by {
                    let j = choose|j: int|
                        0 <= j < i + 1 && (#[trigger] paths@.take(i + 1)[j])@ == k;
                    if j < i {
                        assert(paths@.take(i as int)[j]@ == k);
                    }
                }
                assert forall|k: Seq<char>| pre.insert(paths@[i as int]@).contains(k) implies post.contains(
                    k,
                ) by {
                    if pre.contains(k) {
                        let j = choose|j: int| 0 <= j < i && paths@.take(i as int)[j]@ == k;
                        assert(paths@.take(i + 1)[j]@ == k);
                    } else {
                        assert(paths@.take(i + 1)[i as int]@ == k);
                    }
                }
                assert(post =~= pre.insert(paths@[i as int]@));
            }
            match self.cache.del(paths[i].as_str()) {
                Ok(_) => {
                    proof {
                        assert(cache0.remove_keys(rem).remove(paths@[i as int]@)
                            =~= cache0.remove_keys(rem.insert(paths@[i as int]@)));
                        rem = rem.insert(paths@[i as int]@);
                    }
                },
                Err(_) => {
                    failed = true;
                },
            }
            i = i + 1;
        }
        proof {
            assert(paths@.take(paths@.len() as int) =~= paths@);
        }
        if failed {
            Err(RepositoryError::StoreUnavailable)
        } else {
            Ok(())
        }
    }

    /// Reads the cursor of a modified path, establishing it at zero when
    /// the path is unseen.  The caller then reads the file from the
    /// returned offset.
    pub fn begin_file_change(&mut self, path: &str) -> (r: Result<u64, RepositoryError>)
        ensures
            final(self).log_repo.logs() == old(self).log_repo.logs(),
            match r {
                Ok(v) => {
                    &&& v == begin_offset(old(self).cache.cached(), path@)
                    &&& final(self).cache.cached() == old(self).cache.cached().insert(path@, v)
                },
                Err(e) => e == RepositoryError::StoreUnavailable && final(self).cache.cached()
                    == old(self).cache.cached(),
            },
    {
        match self.cache.get(path) {
            Ok(v) => {
                proof {
                    assert(self.cache.cached().insert(path@, v) =~= self.cache.cached());
                }
                Ok(v)
            },
            Err(RepositoryError::NotFound) => {
                match self.cache.set(path, 0) {
                    Ok(true) => Ok(0),
                    Ok(false) => {
                        proof {
                            assert(false);
                        }
                        Err(RepositoryError::StoreUnavailable)
                    },
                    Err(e) => Err(e),
                }
            },
            Err(e) => Err(e),
        }
    }

    /// Ingests the text read from a modified path at `offset`: parses
    /// each non-empty line in file order, persists its entry, and, only
    /// after the whole batch is persisted, advances the cursor to
    /// `offset` plus the byte length of the text.  Any failure leaves the
    /// cursor unchanged, so the same bytes are re-read on the next
    /// notification; entries persisted before the failure stay, so a
    /// retry may duplicate them but never loses a line.  A cursor that
    /// would not fit its range fails the batch as a store failure before
    /// anything is persisted.
    #[verifier::rlimit(100)]
    pub fn apply_file_change(&mut self, path: &str, offset: u64, data: &str) -> (r: Result<
        (),
        RepositoryError,
    >)
        ensures
            match r {
                Ok(()) => {
                    &&& batch_models(data@) matches Some(ms) && entries_extend(
                        old(self).log_repo.logs(),
                        final(self).log_repo.logs(),
                        ms,
                    )
                    &&& old(self).cache.cached().contains_key(path@)
                    &&& final(self).cache.cached() == old(self).cache.cached().insert(
                        path@,
                        (offset + ((data.spec_bytes().len() as usize) as u64)) as u64,
                    )
                    &&& offset + ((data.spec_bytes().len() as usize) as u64) <= u64::MAX
                },
                Err(e) => {
                    &&& final(self).cache.cached() == old(self).cache.cached()
                    &&& exists|p: Seq<Seq<char>>|
                        #![trigger models_of_lines(p)]
                        p.is_prefix_of(nonempty_lines(data@)) && all_lines_ok(p)
                            && entries_extend(
                            old(self).log_repo.logs(),
                            final(self).log_repo.logs(),
                            models_of_lines(p),
                        )
                    &&& (e == RepositoryError::MalformedRecord ==> exists|i: int|
                        0 <= i < nonempty_lines(data@).len() && record_of_line(
                            #[trigger] nonempty_lines(data@)[i],
                        ) is None)
                    &&& (e == RepositoryError::InvalidTimestamp ==> exists|i: int|
                        0 <= i < nonempty_lines(data@).len() && model_of_line(
                            #[trigger] nonempty_lines(data@)[i],
                        ) is None)
                    &&& (batch_models(data@) is Some ==> e == RepositoryError::StoreUnavailable
                        || e == RepositoryError::NotFound)
                    &&& e != RepositoryError::PathInvalid
                },
            },
    {
        let byte_len: usize = data.len();
        if offset > u64::MAX - (byte_len as u64) {
            proof {
                reveal(Seq::filter);
                assert(Seq::<Seq<char>>::empty().is_prefix_of(nonempty_lines(data@))) by {
                    assert(Seq::<Seq<char>>::empty() =~= nonempty_lines(data@).take(0));
                }
                assert(models_of_lines(Seq::<Seq<char>>::empty()) =~= Seq::<EntryModel>::empty());
                assert(self.log_repo.logs().take(self.log_repo.logs().len() as int)
                    =~= self.log_repo.logs());
            }
            return Err(RepositoryError::StoreUnavailable);
        }
        let ghost nef = |l: Seq<char>| l.len() != 0;
        let ghost logs0 = self.log_repo.logs();
        let ghost cache0 = self.cache.cached();
        let lines = split_lines_vec(data);
        let ghost lsv = lines@.map_values(|l: String| l@);
        proof {
            reveal(Seq::filter);
            assert(lsv.take(0) =~= Seq::<Seq<char>>::empty());
            assert(models_of_lines(Seq::<Seq<char>>::empty().filter(nef)) =~= Seq::<
                EntryModel,
            >::empty());
            assert(logs0.take(logs0.len() as int) =~= logs0);
        }
        let mut k: usize = 0;
        while k < lines.len()
            invariant
                0 <= k <= lines@.len(),
                lsv == lines@.map_values(|l: String| l@),
                lsv == split_lines(data@),
                nef == (|l: Seq<char>| l.len() != 0),
                cache0 == old(self).cache.cached(),
                logs0 == old(self).log_repo.logs(),
                self.cache.cached() == cache0,
                all_lines_ok(lsv.take(k as int).filter(nef)),
                entries_extend(
                    logs0,
                    self.log_repo.logs(),
                    models_of_lines(lsv.take(k as int).filter(nef)),
                ),
            decreases lines@.len() - k,
        {
            let ghost pref = lsv.take(k as int).filter(nef);
            proof {
                lemma_filter_take_step(lsv, k as int, nef);
                assert(lsv[k as int] == lines@[k as int]@);
            }
            let line = &lines[k];
            if !line.as_str().is_empty() {
                match ingest_line(line.as_str()) {
                    Ok(entry) => {
                        let ghost m = model_of_line(line@)->Some_0;
                        let ghost logs_before = self.log_repo.logs();
                        match self.log_repo.create_log(entry) {
                            Ok(_) => {
                                proof {
                                    lemma_models_push(pref, lsv[k as int]);
                                    lemma_extend_push(
                                        logs0,
                                        logs_before,
                                        models_of_lines(pref),
                                        entry,
                                        m,
                                    );
                                    assert(all_lines_ok(pref.push(lsv[k as int]))) by {
                                        assert(forall|t: int|
                                            0 <= t < pref.len() ==> pref.push(lsv[k as int])[t]
                                                == pref[t]);
                                        assert(pref.push(lsv[k as int])[pref.len() as int]
                                            == lsv[k as int]);
                                    }
                                }
                            },
                            Err(e) => {
                                proof {
                                    lemma_prefix_of_filtered(lsv, k as int, nef);
                                    assert(lsv.filter(nef) == nonempty_lines(data@));
                                    assert(pref.is_prefix_of(nonempty_lines(data@))
                                        && all_lines_ok(pref) && entries_extend(
                                        logs0,
                                        self.log_repo.logs(),
                                        models_of_lines(pref),
                                    ));
                                }
                                return Err(e);
                            },
                        }
                    },
                    Err(e) => {
                        proof {
                            lemma_prefix_of_filtered(lsv, k as int, nef);
                            assert(lsv.filter(nef) == nonempty_lines(data@));
                            assert(pref.is_prefix_of(nonempty_lines(data@)) && all_lines_ok(pref)
                                && entries_extend(
                                logs0,
                                self.log_repo.logs(),
                                models_of_lines(pref),
                            ));
                            let ne = nonempty_lines(data@);
                            lsv.lemma_filter_contains(nef, k as int);
                            let w = choose|w: int| 0 <= w < ne.len() && ne[w] == lsv[k as int];
                            assert(model_of_line(ne[w]) is None);
                            if e == RepositoryError::MalformedRecord {
                                assert(record_of_line(ne[w]) is None);
                            }
                            assert(!all_lines_ok(ne));
                            assert(batch_models(data@) is None);
                        }
                        return Err(e);
                    },
                }
            }
            k = k + 1;
        }
        proof {
            assert(lsv.take(lsv.len() as int) =~= lsv);
            assert(lsv.filter(nef) == nonempty_lines(data@));
        }
        match self.cache.update(path, offset + (byte_len as u64)) {
            Ok(()) => Ok(()),
            Err(e) => {
                proof {
                    let ne = nonempty_lines(data@);
                    assert(ne.take(ne.len() as int) =~= ne);
                    assert(ne.is_prefix_of(ne) && all_lines_ok(ne) && entries_extend(
                        logs0,
                        self.log_repo.logs(),
                        models_of_lines(ne),
                    ));
                }
                Err(e)
            },
        }
    }
}

/// Appending a line with a model appends that model.
proof fn lemma_models_push(pref: Seq<Seq<char>>, l: Seq<char>)
    requires
        model_of_line(l) is Some,
    ensures
        models_of_lines(pref.push(l)) == models_of_lines(pref).push(model_of_line(l)->Some_0),
{
    assert(models_of_lines(pref.push(l)) =~= models_of_lines(pref).push(
        model_of_line(l)->Some_0,
    ));
}

/// Persisting one more entry that realises one more model keeps the
/// store an extension.
proof fn lemma_extend_push(
    old_logs: Seq<LogEntry>,
    cur: Seq<LogEntry>,
    ms: Seq<EntryModel>,
    e: LogEntry,
    m: EntryModel,
)
    requires
        entries_extend(old_logs, cur, ms),
        entry_matches_model(e, m),
    ensures
        entries_extend(old_logs, cur.push(e), ms.push(m)),
{
    assert(cur.push(e).take(old_logs.len() as int) =~= cur.take(old_logs.len() as int));
    assert forall|i: int| 0 <= i < ms.push(m).len() implies entry_matches_model(
        cur.push(e)[old_logs.len() + i],
        ms.push(m)[i],
    ) by {
        if i < ms.len() {
            assert(cur.push(e)[old_logs.len() + i] == cur[old_logs.len() + i]);
            assert(ms.push(m)[i] == ms[i]);
        } else {
            assert(cur.push(e)[old_logs.len() + i] == e);
            assert(ms.push(m)[i] == m);
        }
    }
}

/// Law: replaying a notification after its batch has advanced the cursor
/// ingests nothing.  Once the cursor of `path` stands at `offset`, the
/// re-read begins there and yields the empty remainder; an empty text
/// holds no lines and contributes no records, and reapplying the same
/// cursor value leaves the cursor store as it was.
pub proof fn lemma_replay_after_advance(cursors: Map<Seq<char>, u64>, path: Seq<char>, offset: u64)
    requires
        cursors.contains_key(path),
        cursors[path] == offset,
    ensures
        cursors.insert(path, offset) == cursors,
        batch_models(Seq::<char>::empty()) == Some(Seq::<EntryModel>::empty()),
{
    assert(cursors.insert(path, offset) =~= cursors);
    assert(split_lines(Seq::<char>::empty()) =~= Seq::<Seq<char>>::empty());
    Seq::<Seq<char>>::empty().lemma_filter_len(|l: Seq<char>| l.len() != 0);
    assert(nonempty_lines(Seq::<char>::empty()) =~= Seq::<Seq<char>>::empty());
    assert(models_of_lines(nonempty_lines(Seq::<char>::empty())) =~= Seq::<EntryModel>::empty());
}

/// Law: after a removal notification purges a path's cursor, the purged
/// store holds no cursor for that path, so the next modification of the
/// path begins at offset zero, as `begin_file_change` ensures for an
/// unseen path.
pub proof fn lemma_removal_resets_cursor(
    cursors: Map<Seq<char>, u64>,
    paths: Seq<String>,
    path: String,
)
    requires
        path_set(paths).contains(path@),
    ensures
        !cursors.remove_keys(path_set(paths)).contains_key(path@),
        begin_offset(cursors.remove_keys(path_set(paths)), path@) == 0,
{
}

/// Law: one line that is malformed or carries a bad timestamp blocks its
/// whole batch, so `apply_file_change` fails and the cursor does not
/// advance past that batch; lines persisted before the failure stay, as
/// permitted duplicates for the retry, never as losses.
pub proof fn lemma_bad_line_blocks_batch(data: Seq<char>, i: int)
    requires
        0 <= i < nonempty_lines(data).len(),
        model_of_line(nonempty_lines(data)[i]) is None,
    ensures
        batch_models(data) is None,
{
}

/// The non-empty lines of a processed prefix are a prefix of the
/// non-empty lines of the whole text.
proof fn lemma_prefix_of_filtered(ls: Seq<Seq<char>>, k: int, pred: spec_fn(Seq<char>) -> bool)
    requires
        0 <= k <= ls.len(),
    ensures
        ls.take(k).filter(pred).is_prefix_of(ls.filter(pred)),
{
    assert(ls =~= ls.take(k) + ls.skip(k));
    Seq::filter_distributes_over_add(ls.take(k), ls.skip(k), pred);
    assert(ls.filter(pred).take(ls.take(k).filter(pred).len() as int) =~= ls.take(k).filter(
        pred,
    ));
}

} // verus!



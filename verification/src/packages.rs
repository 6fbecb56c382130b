//! The operation surface: batch install and removal, and the queries.
//!
//! A batch processes its entries strictly in order, one entry's whole
//! pipeline to completion before the next begins, and stops at the first
//! failure: the entries behind it are left untouched, not even begun.

use vstd::prelude::*;

verus! {

use crate::errors::{NoBinaryIndex, OpError};
use crate::index::{Package, view_of_file};
use crate::json;
use crate::pipeline::{Action, AddPhase, AddRun, Config, Event, RemovePhase, RemoveRun, add_start,
    add_step, add_step_rel, registry_branch_view, registry_dir_view, registry_url_view,
    remove_start, remove_step, remove_step_rel};

broadcast use vstd::string::group_string_axioms;

// ---------------------------------------------------------------------------
// Batch install.
// ---------------------------------------------------------------------------
/// A batch of installs: what runs now, what waits, and what stopped it.
pub struct AddBatch {
    pub cache: bool,
    /// The entries not yet begun, in order.
    pub queue: Vec<(String, String)>,
    pub active: Option<AddRun>,
    pub failure: Option<OpError>,
}

/// Every entry was installed.
pub open spec fn add_batch_done(b: AddBatch) -> bool {
    b.active is None && b.failure is None
}

/// Begins installing the given (identifier, version) entries, strictly in
/// order. The first action asked for is the registry mirror's sync for
/// the first entry; an empty batch is done at once.
pub fn add(cfg: &Config, entries: Vec<(String, String)>) -> (r: (AddBatch, Option<Action>))
    ensures
        r.0.cache == cfg.cache_enabled,
        r.0.failure is None,
        entries@.len() == 0 ==> r.0.active is None && r.1 is None && r.0.queue@ == entries@,
        entries@.len() > 0 ==> {
            &&& r.0.active matches Some(run) && run.id@ == entries@[0].0@ && run.version@
                == entries@[0].1@ && run.cache == cfg.cache_enabled && run.phase
                is RefreshingRegistry
            &&& r.0.queue@ == entries@.drop_first()
            &&& r.1 matches Some(Action::Sync { url, dir, branch }) && url@ == registry_url_view()
                && dir.deep_view() == registry_dir_view() && branch@ == registry_branch_view()
        },
{
    let mut q = entries;
    if q.len() == 0 {
        (AddBatch { cache: cfg.cache_enabled, queue: q, active: None, failure: None }, None)
    } else {
        let ghost q0 = q@;
        let (id, ver) = q.remove(0);
        proof {
            assert(q@ =~= q0.drop_first());
        }
        let (run, act) = add_start(cfg, id, ver);
        (
            AddBatch { cache: cfg.cache_enabled, queue: q, active: Some(run), failure: None },
            Some(act),
        )
    }
}

/// One step of a batch install. The active entry consumes the event; when
/// it is installed the next entry begins, and when it fails the batch
/// stops with its error, the queue exactly as it stood — the entries
/// behind a failure are never begun.
pub fn add_batch_step(b: AddBatch, event: Event) -> (r: (AddBatch, Option<Action>))
    ensures
        r.0.cache == b.cache,
        b.failure is Some ==> r.0 == b && r.1 is None,
        b.failure is None && b.active is None ==> r.0 == b && r.1 is None,
        b.failure is None ==> (b.active matches Some(run) ==> exists|
            run2: AddRun,
            act2: Option<Action>,
        |
            {
                &&& #[trigger] add_step_rel(run, event, run2, act2)
                &&& if act2 is Some {
                    r.0.active == Some(run2) && r.0.queue == b.queue && r.0.failure is None && r.1
                        == act2
                } else if run2.phase is Failed {
                    &&& r.0.active is None
                    &&& (run2.phase matches AddPhase::Failed { error } ==> r.0.failure == Some(
                        error,
                    ))
                    &&& r.0.queue == b.queue
                    &&& r.1 is None
                } else if run2.phase matches AddPhase::Installed { .. } {
                    if b.queue@.len() == 0 {
                        r.0.active is None && r.0.failure is None && r.0.queue == b.queue && r.1
                            is None
                    } else {
                        &&& r.0.active matches Some(nrun) && nrun.id@ == b.queue@[0].0@
                            && nrun.version@ == b.queue@[0].1@ && nrun.cache == b.cache
                            && nrun.phase is RefreshingRegistry
                        &&& r.0.queue@ == b.queue@.drop_first()
                        &&& r.0.failure is None
                        &&& r.1 matches Some(Action::Sync { url, dir, branch }) && url@
                            == registry_url_view() && dir.deep_view() == registry_dir_view()
                            && branch@ == registry_branch_view()
                    }
                } else {
                    r.0.active == Some(run2) && r.0.queue == b.queue && r.0.failure is None && r.1
                        is None
                }
            }),
{
    let AddBatch { cache, queue, active, failure } = b;
    if failure.is_some() {
        return (AddBatch { cache, queue, active, failure }, None);
    }
    match active {
        None => (AddBatch { cache, queue, active: None, failure }, None),
        Some(run) => {
            let (run2, act) = add_step(run, event);
            match act {
                Some(a) => (
                    AddBatch { cache, queue, active: Some(run2), failure: None },
                    Some(a),
                ),
                None => {
                    let AddRun { id: rid, version: rver, cache: rcache, phase: rphase } = run2;
                    match rphase {
                        AddPhase::Failed { error } => (
                            AddBatch { cache, queue, active: None, failure: Some(error) },
                            None,
                        ),
                        AddPhase::Installed { name } => {
                            let ghost q0 = queue@;
                            let mut q = queue;
                            if q.len() == 0 {
                                (AddBatch { cache, queue: q, active: None, failure: None }, None)
                            } else {
                                let (nid, nver) = q.remove(0);
                                proof {
                                    assert(q@ =~= q0.drop_first());
                                }
                                let (nrun, nact) = add_start(
                                    &Config { cache_enabled: cache },
                                    nid,
                                    nver,
                                );
                                (
                                    AddBatch {
                                        cache,
                                        queue: q,
                                        active: Some(nrun),
                                        failure: None,
                                    },
                                    Some(nact),
                                )
                            }
                        },
                        p => (
                            AddBatch {
                                cache,
                                queue,
                                active: Some(
                                    AddRun { id: rid, version: rver, cache: rcache, phase: p },
                                ),
                                failure: None,
                            },
                            None,
                        ),
                    }
                },
            }
        },
    }
}

// ---------------------------------------------------------------------------
// Batch removal.
// ---------------------------------------------------------------------------
/// A batch of removals.
pub struct RemoveBatch {
    pub cache: bool,
    /// The identifiers not yet begun, in order.
    pub queue: Vec<String>,
    pub active: Option<RemoveRun>,
    pub failure: Option<OpError>,
}

/// Every entry was removed.
pub open spec fn remove_batch_done(b: RemoveBatch) -> bool {
    b.active is None && b.failure is None
}

/// Begins removing the given identifiers, strictly in order, stopping at
/// the first failure.
pub fn remove(cfg: &Config, packages: Vec<String>) -> (r: (RemoveBatch, Option<Action>))
    ensures
        r.0.cache == cfg.cache_enabled,
        r.0.failure is None,
        packages@.len() == 0 ==> r.0.active is None && r.1 is None && r.0.queue@ == packages@,
        packages@.len() > 0 ==> {
            &&& r.0.active matches Some(run) && run.id@ == packages@[0]@ && run.cache
                == cfg.cache_enabled && run.phase is ReadingIndex
            &&& r.0.queue@ == packages@.drop_first()
            &&& r.1 matches Some(Action::ReadFile { path }) && path.deep_view()
                == crate::pipeline::index_file_view()
        },
{
    let mut q = packages;
    if q.len() == 0 {
        (RemoveBatch { cache: cfg.cache_enabled, queue: q, active: None, failure: None }, None)
    } else {
        let ghost q0 = q@;
        let id = q.remove(0);
        proof {
            assert(q@ =~= q0.drop_first());
        }
        let (run, act) = remove_start(cfg, id);
        (
            RemoveBatch { cache: cfg.cache_enabled, queue: q, active: Some(run), failure: None },
            Some(act),
        )
    }
}

/// One step of a batch removal; as with installs, a failure stops the
/// batch with the queue untouched.
pub fn remove_batch_step(b: RemoveBatch, event: Event) -> (r: (RemoveBatch, Option<Action>))
    ensures
        r.0.cache == b.cache,
        b.failure is Some ==> r.0 == b && r.1 is None,
        b.failure is None && b.active is None ==> r.0 == b && r.1 is None,
        b.failure is None ==> (b.active matches Some(run) ==> exists|
            run2: RemoveRun,
            act2: Option<Action>,
        |
            {
                &&& #[trigger] remove_step_rel(run, event, run2, act2)
                &&& if act2 is Some {
                    r.0.active == Some(run2) && r.0.queue == b.queue && r.0.failure is None && r.1
                        == act2
                } else if run2.phase is Failed {
                    &&& r.0.active is None
                    &&& (run2.phase matches RemovePhase::Failed { error } ==> r.0.failure == Some(
                        error,
                    ))
                    &&& r.0.queue == b.queue
                    &&& r.1 is None
                } else if run2.phase is Removed {
                    if b.queue@.len() == 0 {
                        r.0.active is None && r.0.failure is None && r.0.queue == b.queue && r.1
                            is None
                    } else {
                        &&& r.0.active matches Some(nrun) && nrun.id@ == b.queue@[0]@ && nrun.cache
                            == b.cache && nrun.phase is ReadingIndex
                        &&& r.0.queue@ == b.queue@.drop_first()
                        &&& r.0.failure is None
                        &&& r.1 matches Some(Action::ReadFile { path }) && path.deep_view()
                            == crate::pipeline::index_file_view()
                    }
                } else {
                    r.0.active == Some(run2) && r.0.queue == b.queue && r.0.failure is None && r.1
                        is None
                }
            }),
{
    let RemoveBatch { cache, queue, active, failure } = b;
    if failure.is_some() {
        return (RemoveBatch { cache, queue, active, failure }, None);
    }
    match active {
        None => (RemoveBatch { cache, queue, active: None, failure }, None),
        Some(run) => {
            let (run2, act) = remove_step(run, event);
            match act {
                Some(a) => (
                    RemoveBatch { cache, queue, active: Some(run2), failure: None },
                    Some(a),
                ),
                None => {
                    let RemoveRun { id: rid, cache: rcache, phase: rphase } = run2;
                    match rphase {
                        RemovePhase::Failed { error } => (
                            RemoveBatch { cache, queue, active: None, failure: Some(error) },
                            None,
                        ),
                        RemovePhase::Removed => {
                            let ghost q0 = queue@;
                            let mut q = queue;
                            if q.len() == 0 {
                                (
                                    RemoveBatch { cache, queue: q, active: None, failure: None },
                                    None,
                                )
                            } else {
                                let nid = q.remove(0);
                                proof {
                                    assert(q@ =~= q0.drop_first());
                                }
                                let (nrun, nact) = remove_start(
                                    &Config { cache_enabled: cache },
                                    nid,
                                );
                                (
                                    RemoveBatch {
                                        cache,
                                        queue: q,
                                        active: Some(nrun),
                                        failure: None,
                                    },
                                    Some(nact),
                                )
                            }
                        },
                        p => (
                            RemoveBatch {
                                cache,
                                queue,
                                active: Some(RemoveRun { id: rid, cache: rcache, phase: p }),
                                failure: None,
                            },
                            None,
                        ),
                    }
                },
            }
        },
    }
}

// ---------------------------------------------------------------------------
// The queries.
// ---------------------------------------------------------------------------
/// The labels shown to a person: every version label except the pseudo
/// label that only selects a default.
pub open spec fn listed_labels(keys: Seq<Seq<char>>) -> Seq<Seq<char>>
    decreases keys.len(),
{
    if keys.len() == 0 {
        Seq::empty()
    } else if keys.last() == crate::LATEST_LABEL@ {
        listed_labels(keys.drop_last())
    } else {
        listed_labels(keys.drop_last()).push(keys.last())
    }
}

/// The version labels of a manifest, in its order, without the pseudo
/// label `latest`: it is a default selector, not a version of its own.
pub fn versions(package: &Package) -> (r: Vec<String>)
    ensures
        r.deep_view() == listed_labels(package.versions.keys_seq()),
{
    let keys = package.versions.keys();
    let latest = String::from_str(crate::LATEST_LABEL);
    let ghost ks = package.versions.keys_seq();
    let n = keys.len();
    let mut out: Vec<String> = Vec::new();
    let mut i: usize = 0;
    while i < n
        invariant
            i <= n,
            n == keys@.len(),
            keys.deep_view() == ks,
            latest@ == crate::LATEST_LABEL@,
            out.deep_view() =~= listed_labels(ks.take(i as int)),
        decreases n - i,
    {
        proof {
            assert(ks.take(i as int + 1).drop_last() =~= ks.take(i as int));
            assert(ks.take(i as int + 1).last() == ks[i as int]);
            assert(keys.deep_view()[i as int] == keys@[i as int]@);
        }
        if keys[i] == latest {
            proof {
                assert(out.deep_view() =~= listed_labels(ks.take(i as int + 1)));
            }
        } else {
            let ghost dv0 = out.deep_view();
            let ghost ov0 = out@;
            out.push(keys[i].clone());
            proof {
                assert forall|j: int| 0 <= j < out@.len() implies out.deep_view()[j] == dv0.push(
                    ks[i as int],
                )[j] by {
                    assert(out.deep_view()[j] == out@[j]@);
                    if j < ov0.len() {
                        assert(out@[j] == ov0[j]);
                        assert(dv0[j] == ov0[j]@);
                    } else {
                        assert(out@[j] == keys@[i as int]);
                    }
                }
                assert(out.deep_view() =~= dv0.push(ks[i as int]));
                assert(out.deep_view() =~= listed_labels(ks.take(i as int + 1)));
            }
        }
        i += 1;
    }
    proof {
        assert(ks.take(n as int) =~= ks);
    }
    out
}

/// The identifiers the binary index holds, in its order. The caller reads
/// the index file and passes its contents, or nothing when there is no
/// such file — then nothing was ever installed, and there is no index to
/// list.
pub fn list(index_contents: Option<&str>) -> (r: Result<Vec<String>, OpError>)
    ensures
        match r {
            Ok(ids) => view_of_file(index_contents) matches Some(t) && json::str_object_text(t)
                matches Some(ps) && ids.deep_view() == ps.map_values(
                |p: (Seq<char>, Seq<char>)| p.0,
            ),
            Err(e) => match e {
                OpError::NoIndex(_) => index_contents is None,
                OpError::FilesystemFailure(_) => view_of_file(index_contents) matches Some(t)
                    && json::str_object_text(t) is None,
                _ => false,
            },
        },
{
    match index_contents {
        None => Err(OpError::NoIndex(NoBinaryIndex)),
        Some(text) => {
            let chars = crate::text::to_chars(text);
            match json::decode_str_object(chars.as_slice()) {
                Some(t) => Ok(t.keys()),
                None => Err(
                    OpError::FilesystemFailure(
                        String::from_str("the binary index could not be decoded"),
                    ),
                ),
            }
        },
    }
}

} // verus!
//! The field protocol of composite assets. A composite's front-matter is a
//! record of fields: an inlined field carries its value in the asset's own
//! bytes; an external field carries an identifier (possibly optional, or a
//! sequence of them) that resolves to another asset. Decoding constructs a
//! futures record, issuing exactly one child load per external identifier;
//! awaiting the record completes when every child has, and the first child
//! to fail cancels the join.

use vstd::prelude::*;

use crate::error::{Error, NotFound};
use crate::handle::{AssetHandle, HandleState, PollFor};
use crate::id::AssetId;
use crate::loader::{AssetState, FetchTask, Loader};
use vstd::pervasive::VecAdditionalExecFns;

verus! {

/// An inlined field: its value is carried by the asset's own bytes.
pub enum Inlined {
    Value(u64),
}

/// An external field: identifiers of child assets to load, with the
/// child's type tag.
pub enum External {
    /// One child.
    Id { type_id: u64, id: AssetId },
    /// An optional child.
    Opt { type_id: u64, id: Option<AssetId> },
    /// A sequence of children, awaited as a join.
    List { type_id: u64, ids: Vec<AssetId> },
}

/// One field of a composite asset's decoded front-matter.
pub enum FieldInfo {
    Inlined(Inlined),
    External(External),
}

/// One field of the futures record mirroring the info record.
pub enum FieldFuture {
    /// An inlined value is immediately ready.
    Inlined(u64),
    /// The child handle of an external field.
    Child(AssetHandle),
    /// The child handle of an optional external field.
    OptChild(Option<AssetHandle>),
    /// The child handles of an external sequence field.
    ListChildren(Vec<AssetHandle>),
}

/// How many child loads the field calls for.
pub open spec fn field_child_count(f: FieldInfo) -> nat {
    match f {
        FieldInfo::Inlined(_) => 0,
        FieldInfo::External(External::Id { .. }) => 1,
        FieldInfo::External(External::Opt { id, .. }) => if id is Some {
            1nat
        } else {
            0nat
        },
        FieldInfo::External(External::List { ids, .. }) => ids@.len(),
    }
}

/// How many child handles the futures field holds.
pub open spec fn future_child_count(f: FieldFuture) -> nat {
    match f {
        FieldFuture::Inlined(_) => 0,
        FieldFuture::Child(_) => 1,
        FieldFuture::OptChild(h) => if h is Some {
            1nat
        } else {
            0nat
        },
        FieldFuture::ListChildren(hs) => hs@.len(),
    }
}

/// Total child loads a record of fields calls for.
pub open spec fn total_child_count(fields: Seq<FieldInfo>) -> nat
    decreases fields.len(),
{
    if fields.len() == 0 {
        0
    } else {
        total_child_count(fields.drop_last()) + field_child_count(fields.last())
    }
}

/// Total child handles a futures record holds.
pub open spec fn total_future_children(futures: Seq<FieldFuture>) -> nat
    decreases futures.len(),
{
    if futures.len() == 0 {
        0
    } else {
        total_future_children(futures.drop_last()) + future_child_count(futures.last())
    }
}

/// A freshly created child handle for this key.
pub open spec fn child_handle_for(h: AssetHandle, type_id: u64, id: AssetId) -> bool {
    &&& h.type_id == type_id
    &&& h.id == Some(id)
    &&& h.path is None
    &&& h.result is None
}

/// The futures field mirrors the info field: same kind, same value, and a
/// child handle bound to each external identifier.
pub open spec fn field_decoded(f: FieldInfo, fut: FieldFuture) -> bool {
    match (f, fut) {
        (FieldInfo::Inlined(Inlined::Value(v)), FieldFuture::Inlined(v2)) => v2 == v,
        (
            FieldInfo::External(External::Id { type_id, id }),
            FieldFuture::Child(h),
        ) => child_handle_for(h, type_id, id),
        (
            FieldInfo::External(External::Opt { type_id, id }),
            FieldFuture::OptChild(oh),
        ) => match (id, oh) {
            (Some(id), Some(h)) => child_handle_for(h, type_id, id),
            (None, None) => true,
            _ => false,
        },
        (
            FieldInfo::External(External::List { type_id, ids }),
            FieldFuture::ListChildren(hs),
        ) => hs@.len() == ids@.len() && forall|j: int|
            0 <= j < ids@.len() ==> child_handle_for(#[trigger] hs@[j], type_id, ids@[j]),
        _ => false,
    }
}

/// Every child handle of the futures field agrees with the cache.
pub open spec fn field_coherent(loader: &Loader, fut: FieldFuture) -> bool {
    match fut {
        FieldFuture::Inlined(_) => true,
        FieldFuture::Child(h) => h.coherent(loader),
        FieldFuture::OptChild(oh) => match oh {
            Some(h) => h.coherent(loader),
            None => true,
        },
        FieldFuture::ListChildren(hs) => forall|j: int|
            0 <= j < hs@.len() ==> (#[trigger] hs@[j]).coherent(loader),
    }
}

/// The field has resolved: every child was seen decoded or built.
pub open spec fn field_complete(fut: FieldFuture) -> bool {
    match fut {
        FieldFuture::Inlined(_) => true,
        FieldFuture::Child(h) => h.state is Loaded || h.state is Ready,
        FieldFuture::OptChild(oh) => match oh {
            Some(h) => h.state is Loaded || h.state is Ready,
            None => true,
        },
        FieldFuture::ListChildren(hs) => forall|j: int|
            0 <= j < hs@.len() ==> ((#[trigger] hs@[j]).state is Loaded || hs@[j].state is Ready),
    }
}

/// The child handle failed with exactly this error.
pub open spec fn handle_failed(h: AssetHandle, e: Error) -> bool {
    h.state == (HandleState::Error { error: e }) || (h.state is Missing && e is NotFound)
}

/// The child handle has observed a terminal failure.
pub open spec fn child_failed(h: AssetHandle) -> bool {
    h.state is Error || h.state is Missing
}

/// Some child of the field has failed.
pub open spec fn field_failed_any(fut: FieldFuture) -> bool {
    match fut {
        FieldFuture::Inlined(_) => false,
        FieldFuture::Child(h) => child_failed(h),
        FieldFuture::OptChild(oh) => match oh {
            Some(h) => child_failed(h),
            None => false,
        },
        FieldFuture::ListChildren(hs) => exists|j: int|
            0 <= j < hs@.len() && child_failed(#[trigger] hs@[j]),
    }
}

/// The field's first failed child — no child before it has failed —
/// carries this error.
pub open spec fn field_first_failure(fut: FieldFuture, e: Error) -> bool {
    match fut {
        FieldFuture::Inlined(_) => false,
        FieldFuture::Child(h) => handle_failed(h, e),
        FieldFuture::OptChild(oh) => match oh {
            Some(h) => handle_failed(h, e),
            None => false,
        },
        FieldFuture::ListChildren(hs) => exists|k: int|
            0 <= k < hs@.len() && handle_failed(#[trigger] hs@[k], e) && (forall|j: int|
                0 <= j < k ==> !child_failed(#[trigger] hs@[j])),
    }
}

/// Pointwise mirroring makes the child totals equal: a record with K
/// external identifiers holds exactly K child handles.
pub proof fn lemma_decode_child_count(fields: Seq<FieldInfo>, futures: Seq<FieldFuture>)
    requires
        futures.len() == fields.len(),
        forall|i: int| 0 <= i < fields.len() ==> field_decoded(#[trigger] fields[i], futures[i]),
    ensures
        total_future_children(futures) == total_child_count(fields),
    decreases fields.len(),
{
    if fields.len() > 0 {
        lemma_decode_child_count(fields.drop_last(), futures.drop_last());
        assert(field_decoded(fields.last(), futures.last()));
        match (fields.last(), futures.last()) {
            (FieldInfo::External(External::List { ids, .. }), FieldFuture::ListChildren(hs)) => {
                assert(hs@.len() == ids@.len());
            }
            _ => {}
        }
    }
}

/// Outcome of polling a futures record.
pub enum JoinPoll {
    /// Some child has not resolved yet.
    Pending,
    /// The first failed child's error; the join is cancelled.
    Failed { error: Error },
    /// Every child resolved.
    Ready,
}

/// Decodes a composite's info record into its futures record: each
/// external identifier is loaded through the cache — issuing exactly one
/// child load per identifier — and the fetch tasks for entries that did
/// not exist yet are handed back for the caller to run.
///
/// The handed-back tasks record exactly the entries the call created (see
/// `tasks_track`): no created entry is left without its fetch task, and no
/// task names an entry that already existed.
pub fn decode_fields(loader: &mut Loader, fields: &Vec<FieldInfo>) -> (r: (
    Vec<FieldFuture>,
    Vec<FetchTask>,
))
    requires
        old(loader).wf(),
    ensures
        final(loader).wf(),
        Loader::paths_unchanged(old(loader), final(loader)),
        r.0@.len() == fields@.len(),
        forall|i: int|
            0 <= i < fields@.len() ==> field_decoded(#[trigger] fields@[i], r.0@[i]),
        forall|i: int| 0 <= i < fields@.len() ==> field_coherent(final(loader), #[trigger] r.0@[i]),
        tasks_track(*old(loader), *final(loader), r.1@),
{
    let ghost pre = *loader;
    let mut futures: Vec<FieldFuture> = Vec::new();
    let mut tasks: Vec<FetchTask> = Vec::new();
    let n = fields.len();
    let mut i: usize = 0;
    while i < n
        invariant
            n == fields@.len(),
            i <= n,
            loader.wf(),
            Loader::paths_unchanged(&pre, loader),
            tasks_track(pre, *loader, tasks@),
            futures@.len() == i,
            forall|j: int| 0 <= j < i ==> field_decoded(#[trigger] fields@[j], futures@[j]),
            forall|j: int| 0 <= j < i ==> field_coherent(loader, #[trigger] futures@[j]),
        decreases n - i,
    {
        let fut = match &fields[i] {
            FieldInfo::Inlined(Inlined::Value(v)) => FieldFuture::Inlined(*v),
            FieldInfo::External(External::Id { type_id, id }) => {
                let h = load_child(loader, *type_id, *id, &mut tasks, Ghost(pre));
                FieldFuture::Child(h)
            }
            FieldInfo::External(External::Opt { type_id, id }) => match id {
                Some(id) => {
                    let h = load_child(loader, *type_id, *id, &mut tasks, Ghost(pre));
                    FieldFuture::OptChild(Some(h))
                }
                None => FieldFuture::OptChild(None),
            },
            FieldInfo::External(External::List { type_id, ids }) => {
                let tid = *type_id;
                let m = ids.len();
                let mut hs: Vec<AssetHandle> = Vec::new();
                let mut k: usize = 0;
                while k < m
                    invariant
                        m == ids@.len(),
                        k <= m,
                        loader.wf(),
                        Loader::paths_unchanged(&pre, loader),
                        tasks_track(pre, *loader, tasks@),
                        hs@.len() == k,
                        forall|j: int|
                            0 <= j < k ==> child_handle_for(#[trigger] hs@[j], tid, ids@[j]),
                        forall|j: int| 0 <= j < k ==> (#[trigger] hs@[j]).coherent(loader),
                        forall|j: int| 0 <= j < i ==> field_coherent(loader, #[trigger] futures@[j]),
                    decreases m - k,
                {
                    let h = load_child(loader, tid, ids[k], &mut tasks, Ghost(pre));
                    hs.push(h);
                    k += 1;
                }
                FieldFuture::ListChildren(hs)
            }
        };
        futures.push(fut);
        i += 1;
    }
    (futures, tasks)
}

/// The task list records exactly the entries created since `pre`: every
/// entry `pre` held reads unchanged in `cur`; every task names a key that
/// `pre` lacked and `cur` holds `Unloaded`; and every key that `pre`
/// lacked and `cur` holds has its task in the list.
pub open spec fn tasks_track(pre: Loader, cur: Loader, tasks: Seq<FetchTask>) -> bool {
    &&& (forall|t2: u64, id2: AssetId|
        pre.id_entry(t2, id2) is Some ==> #[trigger] cur.id_entry(t2, id2) == pre.id_entry(
            t2,
            id2,
        ))
    &&& (forall|k: int|
        0 <= k < tasks.len() ==> pre.id_entry(
            (#[trigger] tasks[k]).type_id,
            tasks[k].id,
        ) is None && cur.id_entry(tasks[k].type_id, tasks[k].id) matches Some(
            AssetState::Unloaded { .. },
        ))
    &&& (forall|t2: u64, id2: AssetId|
        (pre.id_entry(t2, id2) is None && #[trigger] cur.id_entry(t2, id2) is Some)
            ==> exists|k: int|
            0 <= k < tasks.len() && (#[trigger] tasks[k]).type_id == t2 && tasks[k].id == id2)
}

/// Loads one child asset, recording the fetch task if its entry is new:
/// the task list keeps tracking exactly the entries created since `pre0`.
fn load_child(
    loader: &mut Loader,
    type_id: u64,
    id: AssetId,
    tasks: &mut Vec<FetchTask>,
    Ghost(pre0): Ghost<Loader>,
) -> (h: AssetHandle)
    requires
        old(loader).wf(),
        tasks_track(pre0, *old(loader), old(tasks)@),
    ensures
        final(loader).wf(),
        Loader::paths_unchanged(old(loader), final(loader)),
        forall|t2: u64, id2: AssetId|
            old(loader).id_entry(t2, id2) is Some ==> #[trigger] final(loader).id_entry(t2, id2)
                == old(loader).id_entry(t2, id2),
        tasks_track(pre0, *final(loader), final(tasks)@),
        child_handle_for(h, type_id, id),
        h.coherent(final(loader)),
{
    let ghost pre = *loader;
    let (h, task) = loader.load_with_id(type_id, id);
    proof {
        assert forall|t2: u64, id2: AssetId|
            pre.id_entry(t2, id2) is Some implies #[trigger] loader.id_entry(t2, id2)
            == pre.id_entry(t2, id2) by {
            if t2 == type_id && id2 == id {
            }
        }
        assert forall|t2: u64, id2: AssetId|
            pre0.id_entry(t2, id2) is Some implies #[trigger] loader.id_entry(t2, id2)
            == pre0.id_entry(t2, id2) by {
            assert(pre.id_entry(t2, id2) == pre0.id_entry(t2, id2));
            assert(loader.id_entry(t2, id2) == pre.id_entry(t2, id2));
        }
    }
    match task {
        Some(t) => {
            tasks.push(t);
            proof {
                assert(tasks@.drop_last() =~= old(tasks)@);
                assert forall|k: int| 0 <= k < old(tasks)@.len() implies tasks@[k] == old(
                    tasks,
                )@[k] by {
                    assert(tasks@.drop_last()[k] == tasks@[k]);
                }
                assert(pre.id_entry(type_id, id) is None);
                assert(pre0.id_entry(type_id, id) is None) by {
                    if pre0.id_entry(type_id, id) is Some {
                        assert(pre.id_entry(type_id, id) == pre0.id_entry(type_id, id));
                    }
                }
                assert forall|k: int|
                    0 <= k < tasks@.len() implies pre0.id_entry(
                    (#[trigger] tasks@[k]).type_id,
                    tasks@[k].id,
                ) is None && loader.id_entry(tasks@[k].type_id, tasks@[k].id) matches Some(
                    AssetState::Unloaded { .. },
                ) by {
                    if k < old(tasks)@.len() {
                        assert(tasks@[k] == old(tasks)@[k]);
                        assert(pre.id_entry(tasks@[k].type_id, tasks@[k].id) matches Some(
                            AssetState::Unloaded { .. },
                        ));
                        assert(!(tasks@[k].type_id == type_id && tasks@[k].id == id));
                        assert(loader.id_entry(tasks@[k].type_id, tasks@[k].id)
                            == pre.id_entry(tasks@[k].type_id, tasks@[k].id));
                    } else {
                        assert(tasks@[k] == tasks@.last());
                    }
                }
                assert forall|t2: u64, id2: AssetId|
                    (pre0.id_entry(t2, id2) is None && #[trigger] loader.id_entry(
                        t2,
                        id2,
                    ) is Some) implies exists|k: int|
                    0 <= k < tasks@.len() && (#[trigger] tasks@[k]).type_id == t2 && tasks@[k].id
                        == id2 by {
                    if t2 == type_id && id2 == id {
                        let k = tasks@.len() - 1;
                        assert(0 <= k < tasks@.len() && tasks@[k].type_id == t2 && tasks@[k].id
                            == id2);
                    } else {
                        assert(loader.id_entry(t2, id2) == pre.id_entry(t2, id2));
                        let k = choose|k: int|
                            0 <= k < old(tasks)@.len() && (#[trigger] old(tasks)@[k]).type_id
                                == t2 && old(tasks)@[k].id == id2;
                        assert(tasks@[k].type_id == t2 && tasks@[k].id == id2);
                    }
                }
            }
        }
        None => {
            proof {
                assert(pre.id_entry(type_id, id) is Some);
                assert forall|k: int|
                    0 <= k < tasks@.len() implies pre0.id_entry(
                    (#[trigger] tasks@[k]).type_id,
                    tasks@[k].id,
                ) is None && loader.id_entry(tasks@[k].type_id, tasks@[k].id) matches Some(
                    AssetState::Unloaded { .. },
                ) by {
                    assert(pre.id_entry(tasks@[k].type_id, tasks@[k].id) matches Some(
                        AssetState::Unloaded { .. },
                    ));
                    assert(loader.id_entry(tasks@[k].type_id, tasks@[k].id) == pre.id_entry(
                        tasks@[k].type_id,
                        tasks@[k].id,
                    ));
                }
                assert forall|t2: u64, id2: AssetId|
                    (pre0.id_entry(t2, id2) is None && #[trigger] loader.id_entry(
                        t2,
                        id2,
                    ) is Some) implies exists|k: int|
                    0 <= k < tasks@.len() && (#[trigger] tasks@[k]).type_id == t2 && tasks@[k].id
                        == id2 by {
                    assert(loader.id_entry(t2, id2) == pre.id_entry(t2, id2)) by {
                        if t2 == type_id && id2 == id {
                        }
                    }
                }
            }
        }
    }
    h
}

/// Polls every child of a futures record once, without parking wakers.
/// Reports `Ready` exactly when every child has resolved; the first failed
/// child cancels the join with its error. Never changes the cache.
pub fn poll_fields(loader: &mut Loader, futures: &mut Vec<FieldFuture>) -> (r: JoinPoll)
    requires
        old(loader).wf(),
        forall|i: int|
            0 <= i < old(futures)@.len() ==> field_coherent(old(loader), #[trigger] old(
                futures,
            )@[i]),
    ensures
        *final(loader) == *old(loader),
        final(futures)@.len() == old(futures)@.len(),
        forall|i: int|
            0 <= i < final(futures)@.len() ==> field_coherent(
                final(loader),
                #[trigger] final(futures)@[i],
            ),
        (r is Ready) == (forall|i: int|
            0 <= i < final(futures)@.len() ==> field_complete(#[trigger] final(futures)@[i])),
        r is Pending ==> forall|i: int|
            0 <= i < final(futures)@.len() ==> !field_failed_any(#[trigger] final(futures)@[i]),
        r matches JoinPoll::Failed { error } ==> exists|i: int|
            0 <= i < final(futures)@.len() && field_first_failure(
                #[trigger] final(futures)@[i],
                error,
            ) && (forall|j: int| 0 <= j < i ==> !field_failed_any(#[trigger] final(futures)@[j])),
    {
        let n = futures.len();
        let mut i: usize = 0;
        let mut all_complete: bool = true;
        let ghost mut witness: int = 0int;
        while i < n
            invariant
                n == futures@.len(),
                i <= n,
                loader.wf(),
                *loader == *old(loader),
                futures@.len() == old(futures)@.len(),
                forall|j: int|
                    0 <= j < futures@.len() ==> field_coherent(loader, #[trigger] futures@[j]),
                forall|j: int| 0 <= j < i ==> !field_failed_any(#[trigger] futures@[j]),
                all_complete ==> forall|j: int|
                    0 <= j < i ==> field_complete(#[trigger] futures@[j]),
                !all_complete ==> 0 <= witness < i && !field_complete(futures@[witness]),
            decreases n - i,
        {
            let mut elem = FieldFuture::Inlined(0);
            futures.set_and_swap(i, &mut elem);
            match elem {
                FieldFuture::Inlined(v) => {
                    futures.set(i, FieldFuture::Inlined(v));
                }
                FieldFuture::Child(mut h) => {
                    let st = poll_child(loader, &mut h);
                    futures.set(i, FieldFuture::Child(h));
                    match st {
                        JoinPoll::Failed { error } => {
                            proof {
                                assert(field_first_failure(futures@[i as int], error));
                                assert(!field_complete(futures@[i as int]));
                            }
                            return JoinPoll::Failed { error };
                        }
                        JoinPoll::Pending => {
                            all_complete = false;
                            proof {
                                witness = i as int;
                            }
                        }
                        JoinPoll::Ready => {}
                    }
                }
                FieldFuture::OptChild(None) => {
                    futures.set(i, FieldFuture::OptChild(None));
                }
                FieldFuture::OptChild(Some(mut h)) => {
                    let st = poll_child(loader, &mut h);
                    futures.set(i, FieldFuture::OptChild(Some(h)));
                    match st {
                        JoinPoll::Failed { error } => {
                            proof {
                                assert(field_first_failure(futures@[i as int], error));
                                assert(!field_complete(futures@[i as int]));
                            }
                            return JoinPoll::Failed { error };
                        }
                        JoinPoll::Pending => {
                            all_complete = false;
                            proof {
                                witness = i as int;
                            }
                        }
                        JoinPoll::Ready => {}
                    }
                }
                FieldFuture::ListChildren(mut hs) => {
                    let st = poll_children_list(loader, &mut hs);
                    futures.set(i, FieldFuture::ListChildren(hs));
                    match st {
                        JoinPoll::Failed { error } => {
                            proof {
                                assert(field_first_failure(futures@[i as int], error));
                                assert(!field_complete(futures@[i as int]));
                            }
                            return JoinPoll::Failed { error };
                        }
                        JoinPoll::Pending => {
                            all_complete = false;
                            proof {
                                witness = i as int;
                            }
                        }
                        JoinPoll::Ready => {}
                    }
                }
            }
            i += 1;
        }
        if all_complete {
            JoinPoll::Ready
        } else {
            JoinPoll::Pending
        }
    }

/// Polls every handle of an external sequence field once.
fn poll_children_list(loader: &mut Loader, hs: &mut Vec<AssetHandle>) -> (r: JoinPoll)
    requires
        old(loader).wf(),
        forall|j: int| 0 <= j < old(hs)@.len() ==> (#[trigger] old(hs)@[j]).coherent(old(loader)),
    ensures
        *final(loader) == *old(loader),
        final(hs)@.len() == old(hs)@.len(),
        forall|j: int| 0 <= j < final(hs)@.len() ==> (#[trigger] final(hs)@[j]).coherent(final(loader)),
        (r is Ready) == (forall|j: int|
            0 <= j < final(hs)@.len() ==> ((#[trigger] final(hs)@[j]).state is Loaded
                || final(hs)@[j].state is Ready)),
        r is Pending ==> forall|j: int|
            0 <= j < final(hs)@.len() ==> !child_failed(#[trigger] final(hs)@[j]),
        r matches JoinPoll::Failed { error } ==> field_first_failure(
            FieldFuture::ListChildren(*final(hs)),
            error,
        ) && !field_complete(FieldFuture::ListChildren(*final(hs))),
{
    let m = hs.len();
    let mut k: usize = 0;
    let mut seq_complete: bool = true;
    let ghost mut seq_witness: int = 0int;
    while k < m
        invariant
            m == hs@.len(),
            hs@.len() == old(hs)@.len(),
            k <= m,
            loader.wf(),
            *loader == *old(loader),
            forall|j: int| 0 <= j < hs@.len() ==> (#[trigger] hs@[j]).coherent(loader),
            forall|j: int| 0 <= j < k ==> !child_failed(#[trigger] hs@[j]),
            seq_complete ==> forall|j: int|
                0 <= j < k ==> ((#[trigger] hs@[j]).state is Loaded || hs@[j].state is Ready),
            !seq_complete ==> 0 <= seq_witness < k && !(hs@[seq_witness].state is Loaded) && !(
            hs@[seq_witness].state is Ready),
        decreases m - k,
    {
        match poll_child(loader, &mut hs[k]) {
            JoinPoll::Failed { error } => {
                proof {
                    assert(handle_failed(hs@[k as int], error));
                    let w = FieldFuture::ListChildren(*hs);
                    match w {
                        FieldFuture::ListChildren(inner) => {
                            assert(inner == *hs);
                            assert(0 <= (k as int) && (k as int) < inner@.len() && handle_failed(
                                inner@[k as int],
                                error,
                            ) && (forall|j: int|
                                0 <= j < k as int ==> !child_failed(#[trigger] inner@[j])));
                        }
                        _ => {}
                    }
                    assert(field_first_failure(w, error));
                    assert(!field_complete(w));
                }
                return JoinPoll::Failed { error };
            }
            JoinPoll::Pending => {
                seq_complete = false;
                proof {
                    seq_witness = k as int;
                }
            }
            JoinPoll::Ready => {}
        }
        k += 1;
    }
    if seq_complete {
        JoinPoll::Ready
    } else {
        JoinPoll::Pending
    }
}

/// Polls one child handle up to `Loaded`, without parking a waker.
fn poll_child(loader: &mut Loader, h: &mut AssetHandle) -> (r: JoinPoll)
    requires
        old(loader).wf(),
        old(h).coherent(old(loader)),
    ensures
        *final(loader) == *old(loader),
        final(h).coherent(final(loader)),
        match r {
            JoinPoll::Ready => final(h).state is Loaded || final(h).state is Ready,
            JoinPoll::Pending => final(h).state is Searching || final(h).state is Loading,
            JoinPoll::Failed { error } => handle_failed(*final(h), error),
        },
{
    if !loader.poll(h, PollFor::Load, None) {
        return JoinPoll::Pending;
    }
    match &h.state {
        HandleState::Loaded => JoinPoll::Ready,
        HandleState::Ready { .. } => JoinPoll::Ready,
        HandleState::Error { error } => JoinPoll::Failed { error: error.clone() },
        HandleState::Missing => JoinPoll::Failed {
            error: Error::NotFound(
                NotFound {
                    path: match &h.path {
                        Some(p) => Some(p.clone()),
                        None => None,
                    },
                    id: h.id,
                },
            ),
        },
        _ => unreached(),
    }
}

} // verus!

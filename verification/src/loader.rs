//! The sharded, deduplicating cache at the core of the loader.
//!
//! Two tables, each split into a power-of-two number of shards: one keyed
//! by (type tag, identifier), one keyed by (type tag, path). An entry is
//! created on first request and never evicted. The loader itself performs
//! no I/O: a request either binds a handle to an existing entry or inserts
//! a fresh `Unloaded` entry and hands back a task description; the caller
//! runs the task (walking sources, decoding) and commits its outcome with
//! `apply_load_outcome` / `apply_find_outcome`, which advance the entry's
//! state machine and hand back the wakers to wake.
//!
//! Wakers, decoded values and built assets are carried as opaque `u64`
//! tokens owned by the embedding runtime.

use vstd::prelude::*;

use crate::error::Error;
use crate::handle::{AssetHandle, HandleState, PollFor};
use crate::id::AssetId;
use crate::key::{
    hash_id_key_erased, hash_path_key_erased, is_pow2, shard_count, shard_index,
    spec_hash_id_key, spec_hash_path_key, Key, PathKey, TypeKey,
};

verus! {

/// State machine of an id-keyed cache entry.
pub enum AssetState {
    /// A fetch task is in flight; `wakers` are woken when it commits.
    Unloaded { wakers: Vec<u64> },
    /// Bytes decoded. `decoded` is consumed by the first successful build;
    /// `version` and `source` never change once this state is entered.
    Loaded { decoded: Option<u64>, version: u64, source: usize, wakers: Vec<u64> },
    /// Built asset, memoised; `version` and `source` are the `Loaded` snapshot.
    Ready { asset: u64, version: u64, source: usize },
    /// Every source reported the asset missing.
    Missing,
    /// Terminal, shared error.
    Error { error: Error },
}

/// State machine of a path-keyed cache entry.
pub enum PathState {
    /// A find task is in flight. `id_wakers` wait for the id to be known;
    /// `asset_wakers` wait for the asset itself and are handed to the
    /// id-keyed entry when the path resolves.
    Unloaded { asset_wakers: Vec<u64>, id_wakers: Vec<u64> },
    /// Path resolution finished; consumers re-key to the id table.
    Loaded { id: AssetId },
    /// No source had this path.
    Missing,
}

/// Is the entry in a state it can never leave?
pub open spec fn is_terminal(s: AssetState) -> bool {
    s is Ready || s is Missing || s is Error
}

/// Position of a state in the entry's staged order.
pub open spec fn state_rank(s: AssetState) -> int {
    match s {
        AssetState::Unloaded { .. } => 0,
        AssetState::Loaded { .. } => 1,
        AssetState::Ready { .. } => 2,
        AssetState::Missing => 2,
        AssetState::Error { .. } => 2,
    }
}

/// Outcome of a fetch task: the source walk and decode, reduced to what the
/// cache must remember.
pub enum LoadOutcome {
    /// A source or the decoder failed.
    Error { error: Error },
    /// Every source answered "not present".
    Missing,
    /// Bytes of version `version` came from source `source` and decoded to
    /// the value named by `decoded`.
    Loaded { decoded: u64, version: u64, source: usize },
}

/// The entry state that committing `o` moves an `Unloaded` entry to.
pub open spec fn outcome_applied(o: LoadOutcome, st: AssetState) -> bool {
    match o {
        LoadOutcome::Error { error } => st == (AssetState::Error { error }),
        LoadOutcome::Missing => st == AssetState::Missing,
        LoadOutcome::Loaded { decoded, version, source } => st matches AssetState::Loaded {
            decoded: d, version: v, source: s, wakers,
        } && d == Some(decoded) && v == version && s == source && wakers@.len() == 0,
    }
}

/// A waker parked on a pending entry is woken exactly once: the list a
/// transition drains holds each parked waker exactly as often as it was
/// parked, one more time for the freshly parked one.
pub proof fn lemma_waker_woken_exactly_once(parked: Seq<u64>, w: u64, drained: Seq<u64>)
    requires
        drained == parked.push(w),
    ensures
        drained.to_multiset().count(w) == parked.to_multiset().count(w) + 1,
        forall|v: u64|
            v != w ==> #[trigger] drained.to_multiset().count(v) == parked.to_multiset().count(v),
{
    parked.to_multiset_ensures();
    assert(drained.to_multiset() =~= parked.to_multiset().insert(w));
}

/// Committing a fetch outcome always advances an `Unloaded` entry (never
/// back): the staged order is monotone, and the entry is decoded or
/// terminal afterwards.
pub proof fn lemma_commit_advances(o: LoadOutcome, st: AssetState)
    requires
        outcome_applied(o, st),
    ensures
        state_rank(st) >= 1,
{
}

/// Background task to fetch and decode the asset with this id.
pub struct FetchTask {
    pub type_id: u64,
    pub id: AssetId,
}

/// Background task to resolve this path to an id.
pub struct FindTask {
    pub type_id: u64,
    pub path: String,
}

/// A task the caller must run after a cache miss.
pub enum SpawnTask {
    Fetch(FetchTask),
    Find(FindTask),
}

// ---------------------------------------------------------------------------
// Spec-level lookup in a shard, deterministic thanks to key uniqueness.
// ---------------------------------------------------------------------------

/// Entry `i` of the shard carries exactly this id key.
pub open spec fn id_key_at(s: Seq<(TypeKey, AssetState)>, type_id: u64, id: AssetId, i: int) -> bool {
    0 <= i < s.len() && s[i].0.type_id == type_id && s[i].0.id == id
}

/// The shard holds the id key somewhere.
pub open spec fn id_has_key(s: Seq<(TypeKey, AssetState)>, type_id: u64, id: AssetId) -> bool {
    exists|i: int| id_key_at(s, type_id, id, i)
}

/// The state stored under the id key, if any.
pub open spec fn id_find(s: Seq<(TypeKey, AssetState)>, type_id: u64, id: AssetId) -> Option<
    AssetState,
> {
    if id_has_key(s, type_id, id) {
        Some(s[choose|i: int| id_key_at(s, type_id, id, i)].1)
    } else {
        None
    }
}

/// No two entries of the shard share a key.
pub open spec fn id_unique(s: Seq<(TypeKey, AssetState)>) -> bool {
    forall|i: int, j: int|
        0 <= i < s.len() && 0 <= j < s.len() && i != j ==> !(#[trigger] s[i].0.type_id
            == #[trigger] s[j].0.type_id && s[i].0.id == s[j].0.id)
}

/// Entry `i` of the shard carries exactly this path key.
pub open spec fn path_key_at(
    s: Seq<(PathKey, PathState)>,
    type_id: u64,
    path: Seq<char>,
    i: int,
) -> bool {
    0 <= i < s.len() && s[i].0.type_id == type_id && s[i].0.path@ == path
}

/// The shard holds the path key somewhere.
pub open spec fn path_has_key(s: Seq<(PathKey, PathState)>, type_id: u64, path: Seq<char>) -> bool {
    exists|i: int| path_key_at(s, type_id, path, i)
}

/// The state stored under the path key, if any.
pub open spec fn path_find(s: Seq<(PathKey, PathState)>, type_id: u64, path: Seq<char>) -> Option<
    PathState,
> {
    if path_has_key(s, type_id, path) {
        Some(s[choose|i: int| path_key_at(s, type_id, path, i)].1)
    } else {
        None
    }
}

/// No two entries of the shard share a key.
pub open spec fn path_unique(s: Seq<(PathKey, PathState)>) -> bool {
    forall|i: int, j: int|
        0 <= i < s.len() && 0 <= j < s.len() && i != j ==> !(#[trigger] s[i].0.type_id
            == #[trigger] s[j].0.type_id && s[i].0.path@ == s[j].0.path@)
}

// ---------------------------------------------------------------------------
// Lemmas about shard lookup under update and insertion.
// ---------------------------------------------------------------------------

/// With unique keys, a lookup reads the one matching slot.
proof fn lemma_id_find_at(s: Seq<(TypeKey, AssetState)>, type_id: u64, id: AssetId, i: int)
    requires
        id_unique(s),
        id_key_at(s, type_id, id, i),
    ensures
        id_find(s, type_id, id) == Some(s[i].1),
{
    let j = choose|j: int| id_key_at(s, type_id, id, j);
    assert(id_key_at(s, type_id, id, j));
    assert(j == i);
}

/// Updating the state in the matching slot changes that key's lookup and
/// no other, and keeps keys unique.
proof fn lemma_id_find_update(
    s: Seq<(TypeKey, AssetState)>,
    type_id: u64,
    id: AssetId,
    i: int,
    st: AssetState,
)
    requires
        id_unique(s),
        id_key_at(s, type_id, id, i),
    ensures
        id_unique(s.update(i, (s[i].0, st))),
        id_find(s.update(i, (s[i].0, st)), type_id, id) == Some(st),
        forall|t2: u64, id2: AssetId|
            !(t2 == type_id && id2 == id) ==> #[trigger] id_find(
                s.update(i, (s[i].0, st)),
                t2,
                id2,
            ) == id_find(s, t2, id2),
{
    let s2 = s.update(i, (s[i].0, st));
    assert(id_key_at(s2, type_id, id, i));
    lemma_id_find_at(s2, type_id, id, i);
    assert forall|t2: u64, id2: AssetId| !(t2 == type_id && id2 == id) implies #[trigger] id_find(
        s2,
        t2,
        id2,
    ) == id_find(s, t2, id2) by {
        assert(forall|k: int| id_key_at(s2, t2, id2, k) == id_key_at(s, t2, id2, k));
        if id_has_key(s, t2, id2) {
            let k = choose|k: int| id_key_at(s, t2, id2, k);
            assert(id_key_at(s2, t2, id2, k));
            assert(k != i);
            lemma_id_find_at(s, t2, id2, k);
            lemma_id_find_at(s2, t2, id2, k);
        }
    }
}

/// Appending a fresh key adds that key's lookup and changes no other.
proof fn lemma_id_find_push(
    s: Seq<(TypeKey, AssetState)>,
    type_id: u64,
    id: AssetId,
    st: AssetState,
)
    requires
        id_unique(s),
        !id_has_key(s, type_id, id),
    ensures
        id_unique(s.push((TypeKey { type_id, id }, st))),
        id_find(s.push((TypeKey { type_id, id }, st)), type_id, id) == Some(st),
        forall|t2: u64, id2: AssetId|
            !(t2 == type_id && id2 == id) ==> #[trigger] id_find(
                s.push((TypeKey { type_id, id }, st)),
                t2,
                id2,
            ) == id_find(s, t2, id2),
{
    let s2 = s.push((TypeKey { type_id, id }, st));
    assert forall|i: int, j: int|
        0 <= i < s2.len() && 0 <= j < s2.len() && i != j implies !(#[trigger] s2[i].0.type_id
        == #[trigger] s2[j].0.type_id && s2[i].0.id == s2[j].0.id) by {
        if i < s.len() && j < s.len() {
            assert(!(s[i].0.type_id == s[j].0.type_id && s[i].0.id == s[j].0.id));
        } else if i < s.len() {
            assert(!id_key_at(s, type_id, id, i));
        } else {
            assert(!id_key_at(s, type_id, id, j));
        }
    }
    assert(id_key_at(s2, type_id, id, s.len() as int));
    lemma_id_find_at(s2, type_id, id, s.len() as int);
    assert forall|t2: u64, id2: AssetId| !(t2 == type_id && id2 == id) implies #[trigger] id_find(
        s2,
        t2,
        id2,
    ) == id_find(s, t2, id2) by {
        assert(forall|k: int|
            0 <= k < s.len() ==> id_key_at(s2, t2, id2, k) == id_key_at(s, t2, id2, k));
        if id_has_key(s, t2, id2) {
            let k = choose|k: int| id_key_at(s, t2, id2, k);
            assert(id_key_at(s2, t2, id2, k));
            lemma_id_find_at(s, t2, id2, k);
            lemma_id_find_at(s2, t2, id2, k);
        } else {
            assert(!id_has_key(s2, t2, id2)) by {
                if id_has_key(s2, t2, id2) {
                    let k = choose|k: int| id_key_at(s2, t2, id2, k);
                    assert(k == s.len() as int);
                    assert(t2 == type_id && id2 == id);
                }
            }
        }
    }
}

/// With unique keys, a lookup reads the one matching slot.
proof fn lemma_path_find_at(s: Seq<(PathKey, PathState)>, type_id: u64, path: Seq<char>, i: int)
    requires
        path_unique(s),
        path_key_at(s, type_id, path, i),
    ensures
        path_find(s, type_id, path) == Some(s[i].1),
{
    let j = choose|j: int| path_key_at(s, type_id, path, j);
    assert(path_key_at(s, type_id, path, j));
    assert(j == i);
}

/// Updating the state in the matching slot changes that key's lookup and
/// no other, and keeps keys unique.
proof fn lemma_path_find_update(
    s: Seq<(PathKey, PathState)>,
    type_id: u64,
    path: Seq<char>,
    i: int,
    st: PathState,
)
    requires
        path_unique(s),
        path_key_at(s, type_id, path, i),
    ensures
        path_unique(s.update(i, (s[i].0, st))),
        path_find(s.update(i, (s[i].0, st)), type_id, path) == Some(st),
        forall|t2: u64, p2: Seq<char>|
            !(t2 == type_id && p2 == path) ==> #[trigger] path_find(
                s.update(i, (s[i].0, st)),
                t2,
                p2,
            ) == path_find(s, t2, p2),
{
    let s2 = s.update(i, (s[i].0, st));
    assert(path_key_at(s2, type_id, path, i));
    lemma_path_find_at(s2, type_id, path, i);
    assert forall|t2: u64, p2: Seq<char>|
        !(t2 == type_id && p2 == path) implies #[trigger] path_find(s2, t2, p2) == path_find(
        s,
        t2,
        p2,
    ) by {
        assert(forall|k: int| path_key_at(s2, t2, p2, k) == path_key_at(s, t2, p2, k));
        if path_has_key(s, t2, p2) {
            let k = choose|k: int| path_key_at(s, t2, p2, k);
            assert(path_key_at(s2, t2, p2, k));
            assert(k != i);
            lemma_path_find_at(s, t2, p2, k);
            lemma_path_find_at(s2, t2, p2, k);
        }
    }
}

/// Appending a fresh key adds that key's lookup and changes no other.
proof fn lemma_path_find_push(
    s: Seq<(PathKey, PathState)>,
    key: PathKey,
    type_id: u64,
    path: Seq<char>,
    st: PathState,
)
    requires
        path_unique(s),
        !path_has_key(s, type_id, path),
        key.type_id == type_id,
        key.path@ == path,
    ensures
        path_unique(s.push((key, st))),
        path_find(s.push((key, st)), type_id, path) == Some(st),
        forall|t2: u64, p2: Seq<char>|
            !(t2 == type_id && p2 == path) ==> #[trigger] path_find(s.push((key, st)), t2, p2)
                == path_find(s, t2, p2),
{
    let s2 = s.push((key, st));
    assert forall|i: int, j: int|
        0 <= i < s2.len() && 0 <= j < s2.len() && i != j implies !(#[trigger] s2[i].0.type_id
        == #[trigger] s2[j].0.type_id && s2[i].0.path@ == s2[j].0.path@) by {
        if i < s.len() && j < s.len() {
            assert(!(s[i].0.type_id == s[j].0.type_id && s[i].0.path@ == s[j].0.path@));
        } else if i < s.len() {
            assert(!path_key_at(s, type_id, path, i));
        } else {
            assert(!path_key_at(s, type_id, path, j));
        }
    }
    assert(path_key_at(s2, type_id, path, s.len() as int));
    lemma_path_find_at(s2, type_id, path, s.len() as int);
    assert forall|t2: u64, p2: Seq<char>|
        !(t2 == type_id && p2 == path) implies #[trigger] path_find(s2, t2, p2) == path_find(
        s,
        t2,
        p2,
    ) by {
        assert(forall|k: int|
            0 <= k < s.len() ==> path_key_at(s2, t2, p2, k) == path_key_at(s, t2, p2, k));
        if path_has_key(s, t2, p2) {
            let k = choose|k: int| path_key_at(s, t2, p2, k);
            assert(path_key_at(s2, t2, p2, k));
            lemma_path_find_at(s, t2, p2, k);
            lemma_path_find_at(s2, t2, p2, k);
        } else {
            assert(!path_has_key(s2, t2, p2)) by {
                if path_has_key(s2, t2, p2) {
                    let k = choose|k: int| path_key_at(s2, t2, p2, k);
                    assert(k == s.len() as int);
                    assert(t2 == type_id && p2 == path);
                }
            }
        }
    }
}

// ---------------------------------------------------------------------------
// Frame lemmas: a single-slot change of one table, lifted to the loader.
// ---------------------------------------------------------------------------

/// One id-table slot changed its state under an unchanged key: the loader
/// stays well-formed, reads that key as the new state, and reads everything
/// else as before.
proof fn lemma_loader_id_update(
    pre: Loader,
    post: Loader,
    type_id: u64,
    id: AssetId,
    si: int,
    i: int,
    st: AssetState,
)
    requires
        pre.wf(),
        si == pre.id_shard_of(type_id, id),
        id_key_at(pre.id_shards@[si]@, type_id, id, i),
        post.num_shards == pre.num_shards,
        post.path_shards == pre.path_shards,
        post.id_shards@.len() == pre.id_shards@.len(),
        post.id_shards@[si]@ == pre.id_shards@[si]@.update(
            i,
            (pre.id_shards@[si]@[i].0, st),
        ),
        forall|sj: int|
            0 <= sj < pre.id_shards@.len() && sj != si ==> #[trigger] post.id_shards@[sj]@
                == pre.id_shards@[sj]@,
    ensures
        post.wf(),
        post.id_entry(type_id, id) == Some(st),
        Loader::ids_unchanged_except(&pre, &post, type_id, id),
        Loader::paths_unchanged(&pre, &post),
{
    let s = pre.id_shards@[si]@;
    let s2 = post.id_shards@[si]@;
    lemma_id_find_update(s, type_id, id, i, st);
    assert forall|t2: u64, id2: AssetId| !(t2 == type_id && id2 == id) implies #[trigger] post
        .id_entry(t2, id2) == pre.id_entry(t2, id2) by {
        if pre.id_shard_of(t2, id2) == si {
            assert(id_find(s2, t2, id2) == id_find(s, t2, id2));
        }
    }
    assert forall|t2: u64, p2: Seq<char>| #[trigger] post.path_entry(t2, p2) == pre.path_entry(
        t2,
        p2,
    ) by {}
    assert(post.wf()) by {
        assert forall|sj: int, j: int|
            0 <= sj < post.num_shards && 0 <= j < post.id_shards@[sj]@.len()
            implies post.id_shard_of(
            (#[trigger] post.id_shards@[sj]@[j]).0.type_id,
            post.id_shards@[sj]@[j].0.id,
        ) == sj by {
            assert(post.id_shards@[sj]@[j].0 == pre.id_shards@[sj]@[j].0);
        }
        assert forall|sj: int, j: int|
            0 <= sj < post.num_shards && 0 <= j < post.path_shards@[sj]@.len()
            implies ((#[trigger] post.path_shards@[sj]@[j]).1 matches PathState::Loaded { id: lid }
            ==> post.id_entry(post.path_shards@[sj]@[j].0.type_id, lid) is Some) by {
            match post.path_shards@[sj]@[j].1 {
                PathState::Loaded { id: lid } => {
                    let t = post.path_shards@[sj]@[j].0.type_id;
                    assert(pre.id_entry(t, lid) is Some);
                    if t == type_id && lid == id {
                    } else {
                        assert(post.id_entry(t, lid) == pre.id_entry(t, lid));
                    }
                }
                _ => {}
            }
        }
    }
}

/// A fresh key appended to one id-table shard: the loader stays
/// well-formed, reads the new key as the new state, and reads everything
/// else as before.
proof fn lemma_loader_id_push(
    pre: Loader,
    post: Loader,
    type_id: u64,
    id: AssetId,
    si: int,
    st: AssetState,
)
    requires
        pre.wf(),
        si == pre.id_shard_of(type_id, id),
        !id_has_key(pre.id_shards@[si]@, type_id, id),
        post.num_shards == pre.num_shards,
        post.path_shards == pre.path_shards,
        post.id_shards@.len() == pre.id_shards@.len(),
        post.id_shards@[si]@ == pre.id_shards@[si]@.push((TypeKey { type_id, id }, st)),
        forall|sj: int|
            0 <= sj < pre.id_shards@.len() && sj != si ==> #[trigger] post.id_shards@[sj]@
                == pre.id_shards@[sj]@,
    ensures
        post.wf(),
        post.id_entry(type_id, id) == Some(st),
        Loader::ids_unchanged_except(&pre, &post, type_id, id),
        Loader::paths_unchanged(&pre, &post),
{
    let s = pre.id_shards@[si]@;
    let s2 = post.id_shards@[si]@;
    lemma_id_find_push(s, type_id, id, st);
    assert forall|t2: u64, id2: AssetId| !(t2 == type_id && id2 == id) implies #[trigger] post
        .id_entry(t2, id2) == pre.id_entry(t2, id2) by {
        if pre.id_shard_of(t2, id2) == si {
            assert(id_find(s2, t2, id2) == id_find(s, t2, id2));
        }
    }
    assert forall|t2: u64, p2: Seq<char>| #[trigger] post.path_entry(t2, p2) == pre.path_entry(
        t2,
        p2,
    ) by {}
    assert(post.wf()) by {
        assert forall|sj: int, j: int|
            0 <= sj < post.num_shards && 0 <= j < post.id_shards@[sj]@.len()
            implies post.id_shard_of(
            (#[trigger] post.id_shards@[sj]@[j]).0.type_id,
            post.id_shards@[sj]@[j].0.id,
        ) == sj by {
            if sj == si && j == s.len() {
                assert(post.id_shards@[sj]@[j].0 == TypeKey { type_id, id });
            } else {
                assert(post.id_shards@[sj]@[j].0 == pre.id_shards@[sj]@[j].0);
            }
        }
        assert forall|sj: int, j: int|
            0 <= sj < post.num_shards && 0 <= j < post.path_shards@[sj]@.len()
            implies ((#[trigger] post.path_shards@[sj]@[j]).1 matches PathState::Loaded { id: lid }
            ==> post.id_entry(post.path_shards@[sj]@[j].0.type_id, lid) is Some) by {
            match post.path_shards@[sj]@[j].1 {
                PathState::Loaded { id: lid } => {
                    let t = post.path_shards@[sj]@[j].0.type_id;
                    assert(pre.id_entry(t, lid) is Some);
                    if t == type_id && lid == id {
                    } else {
                        assert(post.id_entry(t, lid) == pre.id_entry(t, lid));
                    }
                }
                _ => {}
            }
        }
    }
}

/// One path-table slot changed its state under an unchanged key: the
/// loader stays well-formed (a newly `Loaded` path needs its id entry
/// present already), reads that key as the new state, and reads everything
/// else as before.
proof fn lemma_loader_path_update(
    pre: Loader,
    post: Loader,
    type_id: u64,
    path: Seq<char>,
    si: int,
    i: int,
    st: PathState,
)
    requires
        pre.wf(),
        si == pre.path_shard_of(type_id, path),
        path_key_at(pre.path_shards@[si]@, type_id, path, i),
        post.num_shards == pre.num_shards,
        post.id_shards == pre.id_shards,
        post.path_shards@.len() == pre.path_shards@.len(),
        post.path_shards@[si]@ == pre.path_shards@[si]@.update(
            i,
            (pre.path_shards@[si]@[i].0, st),
        ),
        forall|sj: int|
            0 <= sj < pre.path_shards@.len() && sj != si ==> #[trigger] post.path_shards@[sj]@
                == pre.path_shards@[sj]@,
        st matches PathState::Loaded { id } ==> pre.id_entry(type_id, id) is Some,
    ensures
        post.wf(),
        post.path_entry(type_id, path) == Some(st),
        Loader::paths_unchanged_except(&pre, &post, type_id, path),
        Loader::ids_unchanged(&pre, &post),
{
    let s = pre.path_shards@[si]@;
    let s2 = post.path_shards@[si]@;
    lemma_path_find_update(s, type_id, path, i, st);
    assert forall|t2: u64, p2: Seq<char>| !(t2 == type_id && p2 == path) implies #[trigger] post
        .path_entry(t2, p2) == pre.path_entry(t2, p2) by {
        if pre.path_shard_of(t2, p2) == si {
            assert(path_find(s2, t2, p2) == path_find(s, t2, p2));
        }
    }
    assert forall|t2: u64, id2: AssetId| #[trigger] post.id_entry(t2, id2) == pre.id_entry(
        t2,
        id2,
    ) by {}
    assert(post.wf()) by {
        assert forall|sj: int, j: int|
            0 <= sj < post.num_shards && 0 <= j < post.path_shards@[sj]@.len()
            implies post.path_shard_of(
            (#[trigger] post.path_shards@[sj]@[j]).0.type_id,
            post.path_shards@[sj]@[j].0.path@,
        ) == sj by {
            assert(post.path_shards@[sj]@[j].0 == pre.path_shards@[sj]@[j].0);
        }
        assert forall|sj: int, j: int|
            0 <= sj < post.num_shards && 0 <= j < post.path_shards@[sj]@.len()
            implies ((#[trigger] post.path_shards@[sj]@[j]).1 matches PathState::Loaded { id: lid }
            ==> post.id_entry(post.path_shards@[sj]@[j].0.type_id, lid) is Some) by {
            match post.path_shards@[sj]@[j].1 {
                PathState::Loaded { id: lid } => {
                    let t = post.path_shards@[sj]@[j].0.type_id;
                    if sj == si && j == i {
                        assert(post.id_entry(t, lid) == pre.id_entry(t, lid));
                    } else {
                        assert(post.path_shards@[sj]@[j] == pre.path_shards@[sj]@[j]);
                        assert(pre.id_entry(t, lid) is Some);
                        assert(post.id_entry(t, lid) == pre.id_entry(t, lid));
                    }
                }
                _ => {}
            }
        }
    }
}

/// A fresh key appended to one path-table shard: the loader stays
/// well-formed, reads the new key as the new state, and reads everything
/// else as before.
proof fn lemma_loader_path_push(
    pre: Loader,
    post: Loader,
    key: PathKey,
    type_id: u64,
    path: Seq<char>,
    si: int,
    st: PathState,
)
    requires
        pre.wf(),
        si == pre.path_shard_of(type_id, path),
        !path_has_key(pre.path_shards@[si]@, type_id, path),
        key.type_id == type_id,
        key.path@ == path,
        post.num_shards == pre.num_shards,
        post.id_shards == pre.id_shards,
        post.path_shards@.len() == pre.path_shards@.len(),
        post.path_shards@[si]@ == pre.path_shards@[si]@.push((key, st)),
        forall|sj: int|
            0 <= sj < pre.path_shards@.len() && sj != si ==> #[trigger] post.path_shards@[sj]@
                == pre.path_shards@[sj]@,
        st matches PathState::Loaded { id } ==> pre.id_entry(type_id, id) is Some,
    ensures
        post.wf(),
        post.path_entry(type_id, path) == Some(st),
        Loader::paths_unchanged_except(&pre, &post, type_id, path),
        Loader::ids_unchanged(&pre, &post),
{
    let s = pre.path_shards@[si]@;
    let s2 = post.path_shards@[si]@;
    lemma_path_find_push(s, key, type_id, path, st);
    assert forall|t2: u64, p2: Seq<char>| !(t2 == type_id && p2 == path) implies #[trigger] post
        .path_entry(t2, p2) == pre.path_entry(t2, p2) by {
        if pre.path_shard_of(t2, p2) == si {
            assert(path_find(s2, t2, p2) == path_find(s, t2, p2));
        }
    }
    assert forall|t2: u64, id2: AssetId| #[trigger] post.id_entry(t2, id2) == pre.id_entry(
        t2,
        id2,
    ) by {}
    assert(post.wf()) by {
        assert forall|sj: int, j: int|
            0 <= sj < post.num_shards && 0 <= j < post.path_shards@[sj]@.len()
            implies post.path_shard_of(
            (#[trigger] post.path_shards@[sj]@[j]).0.type_id,
            post.path_shards@[sj]@[j].0.path@,
        ) == sj by {
            if sj == si && j == s.len() {
                assert(post.path_shards@[sj]@[j].0 == key);
            } else {
                assert(post.path_shards@[sj]@[j].0 == pre.path_shards@[sj]@[j].0);
            }
        }
        assert forall|sj: int, j: int|
            0 <= sj < post.num_shards && 0 <= j < post.path_shards@[sj]@.len()
            implies ((#[trigger] post.path_shards@[sj]@[j]).1 matches PathState::Loaded { id: lid }
            ==> post.id_entry(post.path_shards@[sj]@[j].0.type_id, lid) is Some) by {
            match post.path_shards@[sj]@[j].1 {
                PathState::Loaded { id: lid } => {
                    let t = post.path_shards@[sj]@[j].0.type_id;
                    if sj == si && j == s.len() {
                        assert(post.id_entry(t, lid) == pre.id_entry(t, lid));
                    } else {
                        assert(post.path_shards@[sj]@[j] == pre.path_shards@[sj]@[j]);
                        assert(pre.id_entry(t, lid) is Some);
                        assert(post.id_entry(t, lid) == pre.id_entry(t, lid));
                    }
                }
                _ => {}
            }
        }
    }
}

// ---------------------------------------------------------------------------
// Exec lookup of a key's slot within a shard.
// ---------------------------------------------------------------------------

/// Finds the slot holding the id key, if any.
fn find_id_index(shard: &Vec<(TypeKey, AssetState)>, type_id: u64, id: AssetId) -> (r: Option<
    usize,
>)
    ensures
        match r {
            Some(i) => id_key_at(shard@, type_id, id, i as int),
            None => !id_has_key(shard@, type_id, id),
        },
{
    let n = shard.len();
    let mut i: usize = 0;
    while i < n
        invariant
            n == shard@.len(),
            i <= n,
            forall|j: int| 0 <= j < i ==> !id_key_at(shard@, type_id, id, j),
        decreases n - i,
    {
        if shard[i].0.eq_key_erased(type_id, id) {
            return Some(i);
        }
        i += 1;
    }
    None
}

/// Finds the slot holding the path key, if any.
fn find_path_index(shard: &Vec<(PathKey, PathState)>, type_id: u64, path: &str) -> (r: Option<
    usize,
>)
    ensures
        match r {
            Some(i) => path_key_at(shard@, type_id, path@, i as int),
            None => !path_has_key(shard@, type_id, path@),
        },
{
    let n = shard.len();
    let mut i: usize = 0;
    while i < n
        invariant
            n == shard@.len(),
            i <= n,
            forall|j: int| 0 <= j < i ==> !path_key_at(shard@, type_id, path@, j),
        decreases n - i,
    {
        if shard[i].0.eq_key_erased(type_id, path) {
            return Some(i);
        }
        i += 1;
    }
    None
}

/// What a request handle observes of an id-keyed entry at bind time.
pub open spec fn observe_id_entry(e: AssetState, h: HandleState) -> bool {
    match e {
        AssetState::Unloaded { .. } => h == HandleState::Loading,
        AssetState::Loaded { .. } => h == HandleState::Loaded,
        AssetState::Ready { asset, .. } => h == (HandleState::Ready { asset }),
        AssetState::Missing => h == HandleState::Missing,
        AssetState::Error { error } => h == (HandleState::Error { error }),
    }
}

// ---------------------------------------------------------------------------
// The loader.
// ---------------------------------------------------------------------------

/// The shared cache: one id-keyed and one path-keyed table, sharded.
pub struct Loader {
    num_shards: usize,
    id_shards: Vec<Vec<(TypeKey, AssetState)>>,
    path_shards: Vec<Vec<(PathKey, PathState)>>,
}

impl Loader {
    /// Number of shards of each table.
    pub closed spec fn spec_num_shards(&self) -> int {
        self.num_shards as int
    }

    /// Shard of the id table that the key hashes to.
    pub closed spec fn id_shard_of(&self, type_id: u64, id: AssetId) -> int {
        spec_hash_id_key(type_id, id.spec_value()) as int % self.spec_num_shards()
    }

    /// Shard of the path table that the key hashes to.
    pub closed spec fn path_shard_of(&self, type_id: u64, path: Seq<char>) -> int {
        spec_hash_path_key(type_id, path) as int % self.spec_num_shards()
    }

    /// The id-keyed entry for the key, if one was ever created.
    pub closed spec fn id_entry(&self, type_id: u64, id: AssetId) -> Option<AssetState> {
        id_find(self.id_shards@[self.id_shard_of(type_id, id)]@, type_id, id)
    }

    /// The path-keyed entry for the key, if one was ever created.
    pub closed spec fn path_entry(&self, type_id: u64, path: Seq<char>) -> Option<PathState> {
        path_find(self.path_shards@[self.path_shard_of(type_id, path)]@, type_id, path)
    }

    /// Well-formedness: shard counts agree, every entry sits in the shard
    /// its key hashes to, keys are unique, and a resolved path entry always
    /// has its id-keyed entry (they share it from the moment of handoff).
    pub closed spec fn wf(&self) -> bool {
        &&& self.num_shards > 0
        &&& is_pow2(self.num_shards as int)
        &&& self.id_shards@.len() == self.num_shards
        &&& self.path_shards@.len() == self.num_shards
        &&& forall|si: int|
            0 <= si < self.num_shards ==> id_unique(#[trigger] self.id_shards@[si]@)
        &&& forall|si: int, i: int|
            0 <= si < self.num_shards && 0 <= i < self.id_shards@[si]@.len()
                ==> self.id_shard_of(
                (#[trigger] self.id_shards@[si]@[i]).0.type_id,
                self.id_shards@[si]@[i].0.id,
            ) == si
        &&& forall|si: int|
            0 <= si < self.num_shards ==> path_unique(#[trigger] self.path_shards@[si]@)
        &&& forall|si: int, i: int|
            0 <= si < self.num_shards && 0 <= i < self.path_shards@[si]@.len()
                ==> self.path_shard_of(
                (#[trigger] self.path_shards@[si]@[i]).0.type_id,
                self.path_shards@[si]@[i].0.path@,
            ) == si
        &&& forall|si: int, i: int|
            0 <= si < self.num_shards && 0 <= i < self.path_shards@[si]@.len()
                ==> ((#[trigger] self.path_shards@[si]@[i]).1 matches PathState::Loaded { id }
                ==> self.id_entry(self.path_shards@[si]@[i].0.type_id, id) is Some)
    }

    /// Every id-keyed entry reads the same in `post` as in `pre`.
    pub open spec fn ids_unchanged(pre: &Loader, post: &Loader) -> bool {
        forall|t2: u64, id2: AssetId|
            #[trigger] post.id_entry(t2, id2) == pre.id_entry(t2, id2)
    }

    /// Every id-keyed entry but the named one reads the same in `post`.
    pub open spec fn ids_unchanged_except(
        pre: &Loader,
        post: &Loader,
        type_id: u64,
        id: AssetId,
    ) -> bool {
        forall|t2: u64, id2: AssetId|
            !(t2 == type_id && id2 == id) ==> #[trigger] post.id_entry(t2, id2) == pre.id_entry(
                t2,
                id2,
            )
    }

    /// Every path-keyed entry reads the same in `post` as in `pre`.
    pub open spec fn paths_unchanged(pre: &Loader, post: &Loader) -> bool {
        forall|t2: u64, p2: Seq<char>|
            #[trigger] post.path_entry(t2, p2) == pre.path_entry(t2, p2)
    }

    /// Every path-keyed entry but the named one reads the same in `post`.
    pub open spec fn paths_unchanged_except(
        pre: &Loader,
        post: &Loader,
        type_id: u64,
        path: Seq<char>,
    ) -> bool {
        forall|t2: u64, p2: Seq<char>|
            !(t2 == type_id && p2 == path) ==> #[trigger] post.path_entry(t2, p2)
                == pre.path_entry(t2, p2)
    }
}

/// Relies on num_cpus::get: the number of logical CPUs, documented to be
/// at least 1.
#[verifier::external_body]
fn cpu_count() -> (r: usize)
    ensures
        r >= 1,
{
    num_cpus::get()
}

/// Configuration for a [`Loader`]: the shard count (rounded up to a power
/// of two and capped at 512). The ordered source list that fetch tasks
/// walk lives with the embedding runtime; tasks reference sources by
/// index.
pub struct LoaderBuilder {
    pub num_shards: usize,
}

impl LoaderBuilder {
    /// Default shard count: eight per CPU (before rounding), never less
    /// than eight nor more than the cap of 512.
    pub fn new() -> (r: LoaderBuilder)
        ensures
            8 <= r.num_shards <= 512,
    {
        let cpus = cpu_count();
        let num_shards = if cpus >= 64 {
            512
        } else {
            8 * cpus
        };
        LoaderBuilder { num_shards }
    }

    /// Requests a shard count; the builder rounds it up to a power of two
    /// and caps it at 512.
    pub fn set_num_shards(&mut self, num_shards: usize) -> (r: &mut LoaderBuilder)
        ensures
            r.num_shards == num_shards,
            *final(self) == *final(r),
    {
        self.num_shards = num_shards;
        self
    }

    /// As `set_num_shards`, by value.
    pub fn with_num_shards(self, num_shards: usize) -> (r: LoaderBuilder)
        ensures
            r.num_shards == num_shards,
    {
        LoaderBuilder { num_shards }
    }

    /// Builds the loader with both tables empty.
    pub fn build(self) -> (r: Loader)
        ensures
            r.wf(),
            1 <= r.spec_num_shards() <= 512,
            self.num_shards >= 512 ==> r.spec_num_shards() == 512,
            self.num_shards < 512 ==> r.spec_num_shards() >= self.num_shards,
            forall|t: u64, id: AssetId| #[trigger] r.id_entry(t, id) is None,
            forall|t: u64, p: Seq<char>| #[trigger] r.path_entry(t, p) is None,
    {
        let n = shard_count(self.num_shards);
        let mut id_shards: Vec<Vec<(TypeKey, AssetState)>> = Vec::new();
        let mut path_shards: Vec<Vec<(PathKey, PathState)>> = Vec::new();
        let mut i: usize = 0;
        while i < n
            invariant
                i <= n,
                id_shards@.len() == i,
                path_shards@.len() == i,
                forall|si: int| 0 <= si < i ==> (#[trigger] id_shards@[si]@).len() == 0,
                forall|si: int| 0 <= si < i ==> (#[trigger] path_shards@[si]@).len() == 0,
            decreases n - i,
        {
            id_shards.push(Vec::new());
            path_shards.push(Vec::new());
            i += 1;
        }
        let loader = Loader { num_shards: n, id_shards, path_shards };
        proof {
            assert forall|t: u64, id: AssetId| #[trigger] loader.id_entry(t, id) is None by {
                let si = loader.id_shard_of(t, id);
                assert(0 <= si < n);
                assert(!id_has_key(loader.id_shards@[si]@, t, id));
            }
            assert forall|t: u64, p: Seq<char>| #[trigger] loader.path_entry(t, p) is None by {
                let si = loader.path_shard_of(t, p);
                assert(0 <= si < n);
                assert(!path_has_key(loader.path_shards@[si]@, t, p));
            }
        }
        loader
    }
}

impl Loader {
    /// A builder with the default configuration.
    pub fn builder() -> (r: LoaderBuilder)
        ensures
            8 <= r.num_shards <= 512,
    {
        LoaderBuilder::new()
    }

    /// Requests the asset with this id. Binds a handle to the entry for
    /// (`type_id`, `id`); on the first request for that key — and only
    /// then — the entry is created `Unloaded` and a fetch task is handed
    /// back for the caller to run.
    pub fn load_with_id(&mut self, type_id: u64, id: AssetId) -> (r: (
        AssetHandle,
        Option<FetchTask>,
    ))
        requires
            old(self).wf(),
        ensures
            final(self).wf(),
            Loader::paths_unchanged(old(self), final(self)),
            Loader::ids_unchanged_except(old(self), final(self), type_id, id),
            // the source chain is walked only on first request for the key
            (r.1 is Some) == (old(self).id_entry(type_id, id) is None),
            r.1 matches Some(t) ==> t.type_id == type_id && t.id == id,
            match old(self).id_entry(type_id, id) {
                None => final(self).id_entry(type_id, id) matches Some(
                    AssetState::Unloaded { wakers },
                ) && wakers@.len() == 0,
                Some(e) => final(self).id_entry(type_id, id) == Some(e),
            },
            r.0.type_id == type_id,
            r.0.id == Some(id),
            r.0.path is None,
            r.0.result is None,
            final(self).id_entry(type_id, id) matches Some(e2) && observe_id_entry(e2, r.0.state),
            r.0.coherent(final(self)),
    {
        let h = hash_id_key_erased(type_id, id);
        let si = shard_index(h, self.num_shards);
        let idx = find_id_index(&self.id_shards[si], type_id, id);
        match idx {
            Some(i) => {
                proof {
                    lemma_id_find_at(self.id_shards@[si as int]@, type_id, id, i as int);
                }
                let hstate = match &self.id_shards[si][i].1 {
                    AssetState::Unloaded { .. } => HandleState::Loading,
                    AssetState::Loaded { .. } => HandleState::Loaded,
                    AssetState::Ready { asset, .. } => HandleState::Ready { asset: *asset },
                    AssetState::Missing => HandleState::Missing,
                    AssetState::Error { error } => HandleState::Error { error: error.clone() },
                };
                let handle = AssetHandle {
                    type_id,
                    id: Some(id),
                    path: None,
                    state: hstate,
                    result: None,
                };
                (handle, None)
            }
            None => {
                let ghost pre = *self;
                let new_state = AssetState::Unloaded { wakers: Vec::new() };
                let ghost gstate = new_state;
                let shard = &mut self.id_shards[si];
                shard.push((TypeKey { type_id, id }, new_state));
                proof {
                    lemma_loader_id_push(pre, *self, type_id, id, si as int, gstate);
                }
                let handle = AssetHandle {
                    type_id,
                    id: Some(id),
                    path: None,
                    state: HandleState::Loading,
                    result: None,
                };
                (handle, Some(FetchTask { type_id, id }))
            }
        }
    }

    /// Commits the outcome of a fetch task. The entry must still be
    /// `Unloaded`: only the task that created it advances it. Its wakers
    /// are drained and returned — each exactly once — for the caller to
    /// wake after the new state is published; the entry moves to `Loaded`,
    /// `Missing` or `Error` and never transitions again.
    pub fn apply_load_outcome(&mut self, type_id: u64, id: AssetId, outcome: LoadOutcome) -> (wakers: Vec<u64>)
        requires
            old(self).wf(),
            old(self).id_entry(type_id, id) matches Some(e) && e is Unloaded,
        ensures
            final(self).wf(),
            Loader::paths_unchanged(old(self), final(self)),
            Loader::ids_unchanged_except(old(self), final(self), type_id, id),
            old(self).id_entry(type_id, id) matches Some(AssetState::Unloaded { wakers: pre_w })
                ==> wakers@ == pre_w@,
            final(self).id_entry(type_id, id) matches Some(st) && outcome_applied(outcome, st),
    {
        let h = hash_id_key_erased(type_id, id);
        let si = shard_index(h, self.num_shards);
        let idx = find_id_index(&self.id_shards[si], type_id, id);
        let i = match idx {
            Some(i) => i,
            None => unreached(),
        };
        proof {
            lemma_id_find_at(self.id_shards@[si as int]@, type_id, id, i as int);
        }
        let new_state = match outcome {
            LoadOutcome::Error { error } => AssetState::Error { error },
            LoadOutcome::Missing => AssetState::Missing,
            LoadOutcome::Loaded { decoded, version, source } => AssetState::Loaded {
                decoded: Some(decoded),
                version,
                source,
                wakers: Vec::new(),
            },
        };
        let ghost gstate = new_state;
        let ghost pre = *self;
        let shard = &mut self.id_shards[si];
        let slot = &mut shard[i];
        let mut taken = AssetState::Missing;
        core::mem::swap(&mut slot.1, &mut taken);
        slot.1 = new_state;
        let wakers = match taken {
            AssetState::Unloaded { wakers } => wakers,
            _ => unreached(),
        };
        proof {
            assert(self.id_shards@[si as int]@ == pre.id_shards@[si as int]@.update(
                i as int,
                (pre.id_shards@[si as int]@[i as int].0, gstate),
            ));
            lemma_loader_id_update(pre, *self, type_id, id, si as int, i as int, gstate);
        }
        wakers
    }

    /// Requests an asset by key. An id key behaves as `load_with_id`. A
    /// path key binds a handle to the path entry: on first request the
    /// entry is created `Unloaded` and a find task is handed back; a
    /// resolved path re-keys to the id table and shares its entry; a
    /// missing path yields a handle that reports not-found.
    pub fn load(&mut self, type_id: u64, key: Key) -> (r: (AssetHandle, Option<SpawnTask>))
        requires
            old(self).wf(),
        ensures
            final(self).wf(),
            r.0.type_id == type_id,
            r.0.result is None,
            r.0.coherent(final(self)),
            match key {
                Key::Id(id) => {
                    &&& Loader::paths_unchanged(old(self), final(self))
                    &&& Loader::ids_unchanged_except(old(self), final(self), type_id, id)
                    &&& (r.1 is Some) == (old(self).id_entry(type_id, id) is None)
                    &&& (r.1 matches Some(t) ==> t matches SpawnTask::Fetch(f) && f.type_id
                        == type_id && f.id == id)
                    &&& match old(self).id_entry(type_id, id) {
                        None => final(self).id_entry(type_id, id) matches Some(
                            AssetState::Unloaded { wakers },
                        ) && wakers@.len() == 0,
                        Some(e) => final(self).id_entry(type_id, id) == Some(e),
                    }
                    &&& r.0.id == Some(id)
                    &&& r.0.path is None
                    &&& (final(self).id_entry(type_id, id) matches Some(e2) && observe_id_entry(
                        e2,
                        r.0.state,
                    ))
                },
                Key::Path(path) => match old(self).path_entry(type_id, path@) {
                    None => {
                        &&& final(self).path_entry(type_id, path@) matches Some(
                            PathState::Unloaded { asset_wakers, id_wakers },
                        ) && asset_wakers@.len() == 0 && id_wakers@.len() == 0
                        &&& Loader::paths_unchanged_except(old(self), final(self), type_id, path@)
                        &&& Loader::ids_unchanged(old(self), final(self))
                        &&& (r.1 matches Some(t) && t matches SpawnTask::Find(f) && f.type_id
                            == type_id && f.path@ == path@)
                        &&& r.0.state is Searching
                        &&& r.0.id is None
                        &&& (r.0.path matches Some(p) && p@ == path@)
                    },
                    Some(PathState::Unloaded { .. }) => {
                        &&& *final(self) == *old(self)
                        &&& r.1 is None
                        &&& r.0.state is Searching
                        &&& r.0.id is None
                        &&& (r.0.path matches Some(p) && p@ == path@)
                    },
                    Some(PathState::Loaded { id }) => {
                        &&& Loader::paths_unchanged(old(self), final(self))
                        &&& Loader::ids_unchanged(old(self), final(self))
                        &&& r.1 is None
                        &&& r.0.id == Some(id)
                        &&& (final(self).id_entry(type_id, id) matches Some(e2)
                            && observe_id_entry(e2, r.0.state))
                    },
                    Some(PathState::Missing) => {
                        &&& *final(self) == *old(self)
                        &&& r.1 is None
                        &&& r.0.state is Missing
                        &&& r.0.id is None
                        &&& (r.0.path matches Some(p) && p@ == path@)
                    },
                },
            },
    {
        match key {
            Key::Id(id) => {
                let (handle, task) = self.load_with_id(type_id, id);
                let spawn = match task {
                    Some(t) => Some(SpawnTask::Fetch(t)),
                    None => None,
                };
                (handle, spawn)
            }
            Key::Path(path) => {
                let h = hash_path_key_erased(type_id, path.as_str());
                let si = shard_index(h, self.num_shards);
                let idx = find_path_index(&self.path_shards[si], type_id, path.as_str());
                match idx {
                    Some(i) => {
                        proof {
                            lemma_path_find_at(
                                self.path_shards@[si as int]@,
                                type_id,
                                path@,
                                i as int,
                            );
                        }
                        let opt_loaded: Option<AssetId> = match &self.path_shards[si][i].1 {
                            PathState::Loaded { id } => Some(*id),
                            _ => None,
                        };
                        if let Some(id) = opt_loaded {
                            let ghost pre = *self;
                            let (handle, task) = self.load_with_id(type_id, id);
                            proof {
                                assert(pre.id_entry(type_id, id) is Some);
                                assert(task is None);
                                assert forall|t2: u64, id2: AssetId| #[trigger] self.id_entry(
                                    t2,
                                    id2,
                                ) == pre.id_entry(t2, id2) by {
                                    if t2 == type_id && id2 == id {
                                    }
                                }
                            }
                            return (handle, None);
                        }
                        let missing = match &self.path_shards[si][i].1 {
                            PathState::Missing => true,
                            _ => false,
                        };
                        if missing {
                            let handle = AssetHandle {
                                type_id,
                                id: None,
                                path: Some(path),
                                state: HandleState::Missing,
                                result: None,
                            };
                            return (handle, None);
                        }
                        let handle = AssetHandle {
                            type_id,
                            id: None,
                            path: Some(path),
                            state: HandleState::Searching,
                            result: None,
                        };
                        (handle, None)
                    }
                    None => {
                        let ghost pre = *self;
                        let key_path = path.clone();
                        let task_path = path.clone();
                        let pkey = PathKey { type_id, path: key_path };
                        let ghost gkey = pkey;
                        let new_state = PathState::Unloaded {
                            asset_wakers: Vec::new(),
                            id_wakers: Vec::new(),
                        };
                        let ghost gstate = new_state;
                        let shard = &mut self.path_shards[si];
                        shard.push((pkey, new_state));
                        proof {
                            lemma_loader_path_push(
                                pre,
                                *self,
                                gkey,
                                type_id,
                                path@,
                                si as int,
                                gstate,
                            );
                        }
                        let handle = AssetHandle {
                            type_id,
                            id: None,
                            path: Some(path),
                            state: HandleState::Searching,
                            result: None,
                        };
                        (handle, Some(SpawnTask::Find(FindTask { type_id, path: task_path })))
                    }
                }
            }
        }
    }

    /// Commits the outcome of a find task: the two-phase path-to-id
    /// handoff. The path entry must still be `Unloaded`. On failure it
    /// becomes `Missing` and every registered waker is returned. On
    /// success it becomes `Loaded` and the asset waiters are carried over:
    /// into a freshly created id entry (with a fetch task handed back),
    /// appended to a still-`Unloaded` id entry, or — when the id entry is
    /// already past `Unloaded` — returned to be woken at once. Each waker
    /// ends up in exactly one place.
    pub fn apply_find_outcome(&mut self, type_id: u64, path: &str, found: Option<AssetId>) -> (r: (Vec<u64>, Option<FetchTask>))
        requires
            old(self).wf(),
            old(self).path_entry(type_id, path@) matches Some(p) && p is Unloaded,
        ensures
            final(self).wf(),
            Loader::paths_unchanged_except(old(self), final(self), type_id, path@),
            match found {
                None => final(self).path_entry(type_id, path@) == Some(PathState::Missing),
                Some(id) => final(self).path_entry(type_id, path@) == Some(
                    PathState::Loaded { id },
                ),
            },
            r.1 matches Some(t) ==> (found matches Some(id) && t.type_id == type_id && t.id == id),
            old(self).path_entry(type_id, path@) matches Some(
                PathState::Unloaded { asset_wakers: aw, id_wakers: iw },
            ) ==> match found {
                None => {
                    &&& r.0@ == iw@ + aw@
                    &&& Loader::ids_unchanged(old(self), final(self))
                    &&& r.1 is None
                },
                Some(id) => {
                    &&& Loader::ids_unchanged_except(old(self), final(self), type_id, id)
                    &&& match old(self).id_entry(type_id, id) {
                        None => {
                            &&& final(self).id_entry(type_id, id) matches Some(
                                AssetState::Unloaded { wakers },
                            ) && wakers@ == aw@
                            &&& r.0@ == iw@
                            &&& r.1 is Some
                        },
                        Some(AssetState::Unloaded { wakers: ow }) => {
                            &&& final(self).id_entry(type_id, id) matches Some(
                                AssetState::Unloaded { wakers },
                            ) && wakers@ == ow@ + aw@
                            &&& r.0@ == iw@
                            &&& r.1 is None
                        },
                        Some(e) => {
                            &&& final(self).id_entry(type_id, id) == Some(e)
                            &&& r.0@ == iw@ + aw@
                            &&& r.1 is None
                        },
                    }
                },
            },
    {
        let h = hash_path_key_erased(type_id, path);
        let psi = shard_index(h, self.num_shards);
        let pidx = find_path_index(&self.path_shards[psi], type_id, path);
        let pi = match pidx {
            Some(i) => i,
            None => unreached(),
        };
        proof {
            lemma_path_find_at(self.path_shards@[psi as int]@, type_id, path@, pi as int);
        }
        // Drain both waker lists; the entry parks at `Missing` while the
        // id table is updated and is given its final state below.
        let ghost pre = *self;
        let pshard = &mut self.path_shards[psi];
        let pslot = &mut pshard[pi];
        let mut taken = PathState::Missing;
        core::mem::swap(&mut pslot.1, &mut taken);
        let (mut asset_wakers, mut id_wakers) = match taken {
            PathState::Unloaded { asset_wakers, id_wakers } => (asset_wakers, id_wakers),
            _ => unreached(),
        };
        proof {
            lemma_loader_path_update(
                pre,
                *self,
                type_id,
                path@,
                psi as int,
                pi as int,
                PathState::Missing,
            );
        }
        let id = match found {
            None => {
                // Not found: the path entry is `Missing` for good; wake
                // everyone who was waiting on either list.
                id_wakers.append(&mut asset_wakers);
                return (id_wakers, None);
            }
            Some(id) => id,
        };
        let ghost mid1 = *self;
        // Phase two: carry the asset waiters over to the id entry.
        let ih = hash_id_key_erased(type_id, id);
        let isi = shard_index(ih, self.num_shards);
        let iidx = find_id_index(&self.id_shards[isi], type_id, id);
        let mut task: Option<FetchTask> = None;
        match iidx {
            None => {
                // Never requested by id: create the entry with the
                // drained asset waiters and fetch it ourselves.
                let new_state = AssetState::Unloaded { wakers: asset_wakers };
                let ghost gstate = new_state;
                let ishard = &mut self.id_shards[isi];
                ishard.push((TypeKey { type_id, id }, new_state));
                task = Some(FetchTask { type_id, id });
                proof {
                    lemma_loader_id_push(mid1, *self, type_id, id, isi as int, gstate);
                }
            }
            Some(j) => {
                proof {
                    lemma_id_find_at(self.id_shards@[isi as int]@, type_id, id, j as int);
                }
                let ishard = &mut self.id_shards[isi];
                let islot = &mut ishard[j];
                let mut itaken = AssetState::Missing;
                core::mem::swap(&mut islot.1, &mut itaken);
                match itaken {
                    AssetState::Unloaded { mut wakers } => {
                        // Still in flight: the asset waiters join its list.
                        wakers.append(&mut asset_wakers);
                        let st = AssetState::Unloaded { wakers };
                        let ghost gstate = st;
                        islot.1 = st;
                        proof {
                            lemma_loader_id_update(
                                mid1,
                                *self,
                                type_id,
                                id,
                                isi as int,
                                j as int,
                                gstate,
                            );
                        }
                    }
                    other => {
                        // Past `Unloaded`: put the state back untouched and
                        // wake the asset waiters; they will re-poll and
                        // observe it.
                        let ghost gstate = other;
                        islot.1 = other;
                        id_wakers.append(&mut asset_wakers);
                        proof {
                            lemma_loader_id_update(
                                mid1,
                                *self,
                                type_id,
                                id,
                                isi as int,
                                j as int,
                                gstate,
                            );
                        }
                    }
                }
            }
        }
        let ghost mid2 = *self;
        // The id entry exists now: publish the resolution on the path entry.
        let pshard2 = &mut self.path_shards[psi];
        let pslot2 = &mut pshard2[pi];
        pslot2.1 = PathState::Loaded { id };
        proof {
            assert(path_key_at(mid2.path_shards@[psi as int]@, type_id, path@, pi as int));
            lemma_loader_path_update(
                mid2,
                *self,
                type_id,
                path@,
                psi as int,
                pi as int,
                PathState::Loaded { id },
            );
        }
        (id_wakers, task)
    }

    /// Reads the terminal outcome of an id-keyed entry: the built asset,
    /// a not-found error carrying the request's key, or the shared error.
    pub fn get_outcome(&self, type_id: u64, id: AssetId, path: &Option<String>) -> (r: Result<
        u64,
        Error,
    >)
        requires
            self.wf(),
            self.id_entry(type_id, id) matches Some(e) && is_terminal(e),
        ensures
            match self.id_entry(type_id, id) {
                Some(AssetState::Ready { asset, .. }) => r == Ok::<u64, Error>(asset),
                Some(AssetState::Missing) => r matches Err(Error::NotFound(nf)) && nf.id
                    == Some(id) && nf.path == *path,
                Some(AssetState::Error { error }) => r == Err::<u64, Error>(error),
                _ => false,
            },
    {
        let h = hash_id_key_erased(type_id, id);
        let si = shard_index(h, self.num_shards);
        let idx = find_id_index(&self.id_shards[si], type_id, id);
        let i = match idx {
            Some(i) => i,
            None => unreached(),
        };
        proof {
            lemma_id_find_at(self.id_shards@[si as int]@, type_id, id, i as int);
        }
        match &self.id_shards[si][i].1 {
            AssetState::Ready { asset, .. } => Ok(*asset),
            AssetState::Missing => {
                let path2 = match path {
                    Some(p) => Some(p.clone()),
                    None => None,
                };
                Err(Error::NotFound(crate::error::NotFound { path: path2, id: Some(id) }))
            }
            AssetState::Error { error } => Err(error.clone()),
            _ => unreached(),
        }
    }
}

/// What a caller holding a loaded handle must do next to obtain the asset.
pub enum BuildStep {
    /// The asset was already built; this is the memoised value.
    Built { asset: u64 },
    /// The decoded value was handed out — to this caller alone — for the
    /// asset's build; the caller commits with `finish_build`.
    Run { decoded: u64, version: u64, source: usize },
    /// Another caller holds the decoded value and is building; re-poll.
    Pending,
    /// The entry is missing.
    Missing,
    /// The entry failed; the shared error.
    Failed { error: Error },
}

impl Loader {
    /// Starts building a loaded entry. The decoded value is yielded at
    /// most once: the first caller gets `Run` and the cell is emptied, so
    /// a racing builder sees `Pending` and later the memoised `Built`.
    pub fn begin_build(&mut self, type_id: u64, id: AssetId) -> (r: BuildStep)
        requires
            old(self).wf(),
            old(self).id_entry(type_id, id) matches Some(e) && state_rank(e) >= 1,
        ensures
            final(self).wf(),
            Loader::paths_unchanged(old(self), final(self)),
            Loader::ids_unchanged_except(old(self), final(self), type_id, id),
            match old(self).id_entry(type_id, id) {
                Some(AssetState::Loaded { decoded: Some(d), version, source, wakers: ow }) => {
                    &&& r == (BuildStep::Run { decoded: d, version, source })
                    &&& final(self).id_entry(type_id, id) matches Some(
                        AssetState::Loaded { decoded: d2, version: v2, source: s2, wakers: nw },
                    ) && d2 is None && v2 == version && s2 == source && nw@ == ow@
                },
                Some(AssetState::Loaded { decoded: None, .. }) => r == BuildStep::Pending
                    && final(self).id_entry(type_id, id) == old(self).id_entry(type_id, id),
                Some(AssetState::Ready { asset, .. }) => r == (BuildStep::Built { asset })
                    && final(self).id_entry(type_id, id) == old(self).id_entry(type_id, id),
                Some(AssetState::Missing) => r == BuildStep::Missing && final(self).id_entry(
                    type_id,
                    id,
                ) == old(self).id_entry(type_id, id),
                Some(AssetState::Error { error }) => r == (BuildStep::Failed { error })
                    && final(self).id_entry(type_id, id) == old(self).id_entry(type_id, id),
                _ => false,
            },
    {
        let ih = hash_id_key_erased(type_id, id);
        let isi = shard_index(ih, self.num_shards);
        let iidx = find_id_index(&self.id_shards[isi], type_id, id);
        let j = match iidx {
            Some(j) => j,
            None => unreached(),
        };
        proof {
            lemma_id_find_at(self.id_shards@[isi as int]@, type_id, id, j as int);
        }
        let take_decoded = match &self.id_shards[isi][j].1 {
            AssetState::Loaded { decoded: Some(_), .. } => true,
            _ => false,
        };
        if take_decoded {
            let ghost pre = *self;
            let ishard = &mut self.id_shards[isi];
            let islot = &mut ishard[j];
            let mut taken = AssetState::Missing;
            core::mem::swap(&mut islot.1, &mut taken);
            let (d, version, source, wakers) = match taken {
                AssetState::Loaded { decoded: Some(d), version, source, wakers } => (
                    d,
                    version,
                    source,
                    wakers,
                ),
                _ => unreached(),
            };
            let st = AssetState::Loaded { decoded: None, version, source, wakers };
            let ghost gst = st;
            islot.1 = st;
            proof {
                lemma_loader_id_update(pre, *self, type_id, id, isi as int, j as int, gst);
            }
            return BuildStep::Run { decoded: d, version, source };
        }
        match &self.id_shards[isi][j].1 {
            AssetState::Loaded { .. } => BuildStep::Pending,
            AssetState::Ready { asset, .. } => BuildStep::Built { asset: *asset },
            AssetState::Missing => BuildStep::Missing,
            AssetState::Error { error } => BuildStep::Failed { error: error.clone() },
            AssetState::Unloaded { .. } => unreached(),
        }
    }

    /// Commits a build. The entry must still be `Loaded`; it becomes
    /// `Ready` with the built asset — keeping the `Loaded` snapshot's
    /// version and source untouched — or `Error`, and never transitions
    /// again. The wakers parked on it are drained and returned, each
    /// exactly once, to be woken after the new state is published.
    pub fn finish_build(&mut self, type_id: u64, id: AssetId, outcome: Result<u64, Error>) -> (wakers: Vec<u64>)
        requires
            old(self).wf(),
            old(self).id_entry(type_id, id) matches Some(e) && e is Loaded,
        ensures
            final(self).wf(),
            Loader::paths_unchanged(old(self), final(self)),
            Loader::ids_unchanged_except(old(self), final(self), type_id, id),
            old(self).id_entry(type_id, id) matches Some(
                AssetState::Loaded { version, source, wakers: ow, .. },
            ) ==> {
                &&& wakers@ == ow@
                &&& match outcome {
                    Ok(asset) => final(self).id_entry(type_id, id) == Some(
                        AssetState::Ready { asset, version, source },
                    ),
                    Err(error) => final(self).id_entry(type_id, id) == Some(
                        AssetState::Error { error },
                    ),
                }
            },
    {
        let ih = hash_id_key_erased(type_id, id);
        let isi = shard_index(ih, self.num_shards);
        let iidx = find_id_index(&self.id_shards[isi], type_id, id);
        let j = match iidx {
            Some(j) => j,
            None => unreached(),
        };
        proof {
            lemma_id_find_at(self.id_shards@[isi as int]@, type_id, id, j as int);
        }
        let ghost pre = *self;
        let ishard = &mut self.id_shards[isi];
        let islot = &mut ishard[j];
        let mut taken = AssetState::Missing;
        core::mem::swap(&mut islot.1, &mut taken);
        let (version, source, wakers) = match taken {
            AssetState::Loaded { version, source, wakers, .. } => (version, source, wakers),
            _ => unreached(),
        };
        let st = match outcome {
            Ok(asset) => AssetState::Ready { asset, version, source },
            Err(error) => AssetState::Error { error },
        };
        let ghost gst = st;
        islot.1 = st;
        proof {
            lemma_loader_id_update(pre, *self, type_id, id, isi as int, j as int, gst);
        }
        wakers
    }
}

impl Loader {
    /// A path entry resolved to an id always has its id-keyed entry: a
    /// load by path and a load by that id share one entry from the moment
    /// of the handoff.
    pub proof fn lemma_path_loaded_has_id_entry(&self, type_id: u64, path: Seq<char>, id: AssetId)
        requires
            self.wf(),
            self.path_entry(type_id, path) == Some(PathState::Loaded { id }),
        ensures
            self.id_entry(type_id, id) is Some,
    {
        let si = self.path_shard_of(type_id, path);
        let s = self.path_shards@[si]@;
        assert(path_has_key(s, type_id, path));
        let i = choose|i: int| path_key_at(s, type_id, path, i);
        assert(s[i].1 == PathState::Loaded { id });
        assert(self.id_entry(s[i].0.type_id, id) is Some);
    }
}

// ---------------------------------------------------------------------------
// Polling.
// ---------------------------------------------------------------------------

/// View of an optional path.
pub open spec fn opt_str_view(p: Option<String>) -> Seq<char> {
    match p {
        Some(s) => s@,
        None => Seq::empty(),
    }
}

/// One poll step against an id-keyed entry, exactly: whether the poll is
/// done, what the handle observes afterwards, and that the cache changed
/// only by parking the given waker on a non-terminal entry.
pub open spec fn id_stage(
    pre: &Loader,
    post: &Loader,
    type_id: u64,
    id: AssetId,
    poll_for: PollFor,
    waker: Option<u64>,
    state1: HandleState,
    state2: HandleState,
    done: bool,
) -> bool {
    match pre.id_entry(type_id, id) {
        Some(AssetState::Unloaded { wakers: ow }) => {
            &&& !done
            &&& state2 == state1
            &&& match waker {
                Some(w) => {
                    &&& post.id_entry(type_id, id) matches Some(
                        AssetState::Unloaded { wakers: nw },
                    ) && nw@ == ow@.push(w)
                    &&& Loader::ids_unchanged_except(pre, post, type_id, id)
                    &&& Loader::paths_unchanged(pre, post)
                },
                None => post == pre,
            }
        },
        Some(AssetState::Loaded { decoded: d, version: v, source: sc, wakers: ow }) => {
            if poll_for is Ready {
                &&& !done
                &&& state2 is Loaded
                &&& match waker {
                    Some(w) => {
                        &&& post.id_entry(type_id, id) matches Some(
                            AssetState::Loaded { decoded: d2, version: v2, source: s2, wakers: nw },
                        ) && d2 == d && v2 == v && s2 == sc && nw@ == ow@.push(w)
                        &&& Loader::ids_unchanged_except(pre, post, type_id, id)
                        &&& Loader::paths_unchanged(pre, post)
                    },
                    None => post == pre,
                }
            } else {
                done && state2 is Loaded && post == pre
            }
        },
        Some(AssetState::Ready { .. }) => done && state2 is Loaded && post == pre,
        Some(AssetState::Missing) => done && state2 is Missing && post == pre,
        Some(AssetState::Error { error }) => done && state2 == (HandleState::Error { error })
            && post == pre,
        None => false,
    }
}

/// A poll of a handle whose id is already known.
pub open spec fn id_phase(
    pre: &Loader,
    post: &Loader,
    h1: AssetHandle,
    h2: AssetHandle,
    poll_for: PollFor,
    waker: Option<u64>,
    done: bool,
) -> bool {
    if poll_for is Id {
        done && post == pre && h2 == h1
    } else if h1.state is Loaded && poll_for is Load {
        done && post == pre && h2 == h1
    } else {
        &&& h1.id matches Some(id) && h2.id == h1.id && id_stage(
            pre,
            post,
            h1.type_id,
            id,
            poll_for,
            waker,
            h1.state,
            h2.state,
            done,
        )
    }
}

impl Loader {
    /// Polls a handle for progress towards `poll_for`. Advances the handle
    /// to reflect the entry; when the entry is not far enough along, parks
    /// the given waker on it (to be woken — exactly once — when the entry
    /// transitions) and reports not done. Never touches the cache beyond
    /// that one waker list; with no waker it never touches it at all.
    pub fn poll(&mut self, handle: &mut AssetHandle, poll_for: PollFor, waker: Option<u64>) -> (done: bool)
        requires
            old(self).wf(),
            old(handle).coherent(old(self)),
        ensures
            final(self).wf(),
            final(handle).coherent(final(self)),
            final(handle).type_id == old(handle).type_id,
            final(handle).path == old(handle).path,
            final(handle).result == old(handle).result,
            (old(handle).id matches Some(i) ==> final(handle).id == Some(i)),
            waker is None ==> *final(self) == *old(self),
            match old(handle).state {
                HandleState::Ready { .. } => done && *final(self) == *old(self) && *final(handle)
                    == *old(handle),
                HandleState::Error { .. } => done && *final(self) == *old(self) && *final(handle)
                    == *old(handle),
                HandleState::Missing => done && *final(self) == *old(self) && *final(handle)
                    == *old(handle),
                HandleState::Loading => id_phase(
                    old(self),
                    final(self),
                    *old(handle),
                    *final(handle),
                    poll_for,
                    waker,
                    done,
                ),
                HandleState::Loaded => id_phase(
                    old(self),
                    final(self),
                    *old(handle),
                    *final(handle),
                    poll_for,
                    waker,
                    done,
                ),
                HandleState::Searching => {
                    let tid = old(handle).type_id;
                    let p = opt_str_view(old(handle).path);
                    match old(self).path_entry(tid, p) {
                        Some(PathState::Unloaded { asset_wakers: aw, id_wakers: iw }) => {
                            &&& !done
                            &&& *final(handle) == *old(handle)
                            &&& match waker {
                                Some(w) => {
                                    &&& final(self).path_entry(tid, p) matches Some(
                                        PathState::Unloaded { asset_wakers: aw2, id_wakers: iw2 },
                                    ) && (if poll_for is Ready {
                                        aw2@ == aw@.push(w) && iw2@ == iw@
                                    } else {
                                        aw2@ == aw@ && iw2@ == iw@.push(w)
                                    })
                                    &&& Loader::paths_unchanged_except(
                                        old(self),
                                        final(self),
                                        tid,
                                        p,
                                    )
                                    &&& Loader::ids_unchanged(old(self), final(self))
                                },
                                None => *final(self) == *old(self),
                            }
                        },
                        Some(PathState::Missing) => {
                            &&& done
                            &&& final(handle).state is Missing
                            &&& final(handle).id is None
                            &&& *final(self) == *old(self)
                        },
                        Some(PathState::Loaded { id }) => {
                            &&& final(handle).id == Some(id)
                            &&& if poll_for is Id {
                                done && final(handle).state is Loading && *final(self) == *old(
                                    self,
                                )
                            } else {
                                id_stage(
                                    old(self),
                                    final(self),
                                    tid,
                                    id,
                                    poll_for,
                                    waker,
                                    HandleState::Loading,
                                    final(handle).state,
                                    done,
                                )
                            }
                        },
                        None => false,
                    }
                },
            },
    {
        let type_id = handle.type_id;
        match &handle.state {
            HandleState::Ready { .. } => return true,
            HandleState::Error { .. } => return true,
            HandleState::Missing => return true,
            _ => {}
        }
        let searching = match &handle.state {
            HandleState::Searching => true,
            _ => false,
        };
        if searching {
            let ph = match &handle.path {
                Some(p) => hash_path_key_erased(type_id, p.as_str()),
                None => unreached(),
            };
            let psi = shard_index(ph, self.num_shards);
            let pidx = match &handle.path {
                Some(p) => find_path_index(&self.path_shards[psi], type_id, p.as_str()),
                None => unreached(),
            };
            let pi = match pidx {
                Some(i) => i,
                None => unreached(),
            };
            let ghost gpath = opt_str_view(handle.path);
            proof {
                lemma_path_find_at(self.path_shards@[psi as int]@, type_id, gpath, pi as int);
            }
            let opt_loaded: Option<AssetId> = match &self.path_shards[psi][pi].1 {
                PathState::Loaded { id } => Some(*id),
                _ => None,
            };
            match opt_loaded {
                Some(id) => {
                    handle.id = Some(id);
                    handle.state = HandleState::Loading;
                    if let PollFor::Id = poll_for {
                        return true;
                    }
                }
                None => {
                    let missing = match &self.path_shards[psi][pi].1 {
                        PathState::Missing => true,
                        _ => false,
                    };
                    if missing {
                        handle.state = HandleState::Missing;
                        return true;
                    }
                    // Path entry still unresolved: park the waker, if any.
                    if let Some(w) = waker {
                        let ghost pre = *self;
                        let pshard = &mut self.path_shards[psi];
                        let pslot = &mut pshard[pi];
                        let mut taken = PathState::Missing;
                        core::mem::swap(&mut pslot.1, &mut taken);
                        let (mut aw, mut iw) = match taken {
                            PathState::Unloaded { asset_wakers, id_wakers } => (
                                asset_wakers,
                                id_wakers,
                            ),
                            _ => unreached(),
                        };
                        match poll_for {
                            PollFor::Ready => aw.push(w),
                            _ => iw.push(w),
                        }
                        let st = PathState::Unloaded { asset_wakers: aw, id_wakers: iw };
                        let ghost gst = st;
                        pslot.1 = st;
                        proof {
                            lemma_loader_path_update(
                                pre,
                                *self,
                                type_id,
                                gpath,
                                psi as int,
                                pi as int,
                                gst,
                            );
                        }
                    }
                    return false;
                }
            }
        } else {
            if let PollFor::Id = poll_for {
                return true;
            }
            let loaded_already = match &handle.state {
                HandleState::Loaded => true,
                _ => false,
            };
            if loaded_already {
                if let PollFor::Load = poll_for {
                    return true;
                }
            }
        }
        // The id is known; read the id-keyed entry.
        let id = match handle.id {
            Some(id) => id,
            None => unreached(),
        };
        let ih = hash_id_key_erased(type_id, id);
        let isi = shard_index(ih, self.num_shards);
        let iidx = find_id_index(&self.id_shards[isi], type_id, id);
        let j = match iidx {
            Some(j) => j,
            None => unreached(),
        };
        proof {
            lemma_id_find_at(self.id_shards@[isi as int]@, type_id, id, j as int);
        }
        let is_unloaded = match &self.id_shards[isi][j].1 {
            AssetState::Unloaded { .. } => true,
            _ => false,
        };
        let is_loaded = match &self.id_shards[isi][j].1 {
            AssetState::Loaded { .. } => true,
            _ => false,
        };
        let ready_wanted = match poll_for {
            PollFor::Ready => true,
            _ => false,
        };
        if is_unloaded || (is_loaded && ready_wanted) {
            // Not far enough along: park the waker on the entry.
            if let Some(w) = waker {
                let ghost pre = *self;
                let ishard = &mut self.id_shards[isi];
                let islot = &mut ishard[j];
                let mut taken = AssetState::Missing;
                core::mem::swap(&mut islot.1, &mut taken);
                let st = match taken {
                    AssetState::Unloaded { mut wakers } => {
                        wakers.push(w);
                        AssetState::Unloaded { wakers }
                    }
                    AssetState::Loaded { decoded, version, source, mut wakers } => {
                        wakers.push(w);
                        AssetState::Loaded { decoded, version, source, wakers }
                    }
                    _ => unreached(),
                };
                let ghost gst = st;
                islot.1 = st;
                proof {
                    lemma_loader_id_update(pre, *self, type_id, id, isi as int, j as int, gst);
                }
            }
            if is_loaded {
                handle.state = HandleState::Loaded;
            }
            return false;
        }
        match &self.id_shards[isi][j].1 {
            AssetState::Loaded { .. } => {
                handle.state = HandleState::Loaded;
                true
            }
            AssetState::Ready { .. } => {
                handle.state = HandleState::Loaded;
                true
            }
            AssetState::Missing => {
                handle.state = HandleState::Missing;
                true
            }
            AssetState::Error { error } => {
                let e = error.clone();
                handle.state = HandleState::Error { error: e };
                true
            }
            AssetState::Unloaded { .. } => unreached(),
        }
    }
}

} // verus!

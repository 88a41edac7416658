//! Handles: cheap references through which callers observe a cache entry.
//!
//! A handle records the key it was requested with and the last entry state
//! it observed; polling advances it against the loader and registers a
//! waker token when the entry is not far enough along. Once a terminal
//! outcome is observed it is cached on the handle, and later polls return
//! it without touching the cache again.

use vstd::prelude::*;

use crate::error::{Error, NotFound};
use crate::id::AssetId;
use crate::loader::{state_rank, AssetState, BuildStep, Loader, PathState};

verus! {

/// What a poll is waiting for.
#[derive(Clone, Copy, PartialEq, Eq, Structural, Debug)]
pub enum PollFor {
    /// The identifier of a path-requested asset.
    Id,
    /// The asset decoded (ready to build).
    Load,
    /// The asset built.
    Ready,
}

/// What a handle has observed of its entry so far.
pub enum HandleState {
    /// Requested by path; the path entry has not resolved yet.
    Searching,
    /// The id is known; the id entry was last seen `Unloaded`.
    Loading,
    /// The id entry was last seen `Loaded` or later.
    Loaded,
    /// Terminal: the built asset.
    Ready { asset: u64 },
    /// Terminal: the shared error.
    Error { error: Error },
    /// Terminal: no source had the key.
    Missing,
}

/// Handle returned from a load request. Polling surfaces live here.
pub struct AssetHandle {
    /// Type tag of the requested asset.
    pub type_id: u64,
    /// The identifier, as soon as it is known.
    pub id: Option<AssetId>,
    /// The path, when requested by path.
    pub path: Option<String>,
    /// Last observed progress.
    pub state: HandleState,
    /// Cached terminal build outcome; later polls return it unchanged.
    pub result: Option<Result<u64, Error>>,
}

impl AssetHandle {
    /// The id-keyed entry the handle is bound to, once the id is known.
    pub open spec fn entry(&self, loader: &Loader) -> Option<AssetState> {
        match self.id {
            Some(id) => loader.id_entry(self.type_id, id),
            None => None,
        }
    }

    /// The handle's observation agrees with the cache: what it has seen is
    /// at most as far along as the entry, and a terminal observation is
    /// exactly the entry's terminal state. All callers observing one entry
    /// therefore agree on the outcome.
    pub open spec fn coherent(&self, loader: &Loader) -> bool {
        match self.state {
            HandleState::Searching => {
                &&& self.id is None
                &&& (self.path matches Some(p) && loader.path_entry(self.type_id, p@) is Some)
            },
            HandleState::Loading => self.entry(loader) is Some,
            HandleState::Loaded => self.entry(loader) matches Some(e) && state_rank(e) >= 1
                && !(e is Missing),
            HandleState::Ready { asset } => self.entry(loader) matches Some(
                AssetState::Ready { asset: a, .. },
            ) && a == asset,
            HandleState::Error { error } => self.entry(loader) matches Some(
                AssetState::Error { error: e },
            ) && e == error,
            HandleState::Missing => match self.id {
                Some(_) => self.entry(loader) == Some(AssetState::Missing),
                None => self.path matches Some(p) && loader.path_entry(self.type_id, p@)
                    == Some(PathState::Missing),
            },
        }
    }
}

/// Two handles bound to the same key that have both observed a terminal
/// outcome observed the same one: the entry determines it for every
/// caller.
pub proof fn lemma_terminal_outcome_agrees(loader: &Loader, h1: &AssetHandle, h2: &AssetHandle)
    requires
        h1.coherent(loader),
        h2.coherent(loader),
        h1.type_id == h2.type_id,
        h1.id == h2.id,
        h1.id is Some,
        h1.state is Ready || h1.state is Error || h1.state is Missing,
        h2.state is Ready || h2.state is Error || h2.state is Missing,
    ensures
        h1.state == h2.state,
{
}

impl Clone for HandleState {
    fn clone(&self) -> (r: Self)
        ensures
            r == *self,
    {
        match self {
            HandleState::Searching => HandleState::Searching,
            HandleState::Loading => HandleState::Loading,
            HandleState::Loaded => HandleState::Loaded,
            HandleState::Ready { asset } => HandleState::Ready { asset: *asset },
            HandleState::Error { error } => HandleState::Error { error: error.clone() },
            HandleState::Missing => HandleState::Missing,
        }
    }
}

/// Copies an optional path.
fn dup_opt_string(p: &Option<String>) -> (r: Option<String>)
    ensures
        r == *p,
{
    match p {
        Some(s) => Some(s.clone()),
        None => None,
    }
}

/// Copies a cached outcome.
fn dup_result(r: &Result<u64, Error>) -> (r2: Result<u64, Error>)
    ensures
        r2 == *r,
{
    match r {
        Ok(a) => Ok(*a),
        Err(e) => Err(e.clone()),
    }
}

impl Clone for AssetHandle {
    fn clone(&self) -> (r: Self)
        ensures
            r == *self,
    {
        AssetHandle {
            type_id: self.type_id,
            id: self.id,
            path: dup_opt_string(&self.path),
            state: self.state.clone(),
            result: match &self.result {
                Some(res) => Some(dup_result(res)),
                None => None,
            },
        }
    }
}

/// A handle whose entry is known to be decoded (or past it): the asset can
/// be built from it.
pub struct LoadedAsset {
    /// Cached outcome, once the asset was built through this handle.
    pub result: Option<Result<u64, Error>>,
    /// The underlying handle.
    pub handle: AssetHandle,
}

/// A handle with the asset type erased, so that handles to different asset
/// types can be kept and driven in one collection.
pub struct AssetDriver {
    pub handle: AssetHandle,
}

impl AssetHandle {
    /// Polls for the asset's identifier. Resolves as soon as the path
    /// entry does — or immediately when the id is already known — and to
    /// an error when the key turns out missing or failed.
    pub fn poll_id(&mut self, loader: &mut Loader, waker: Option<u64>) -> (r: Option<Result<
        AssetId,
        Error,
    >>)
        requires
            old(loader).wf(),
            old(self).coherent(old(loader)),
        ensures
            final(loader).wf(),
            final(self).coherent(final(loader)),
            final(self).type_id == old(self).type_id,
            final(self).path == old(self).path,
            final(self).result == old(self).result,
            waker is None ==> *final(loader) == *old(loader),
            old(self).id matches Some(i) ==> r == Some(Ok::<AssetId, Error>(i)) && *final(self)
                == *old(self) && *final(loader) == *old(loader),
            match r {
                Some(Ok(i)) => final(self).id == Some(i),
                Some(Err(e)) => (e matches Error::NotFound(nf) && nf.id is None && nf.path == old(
                    self,
                ).path && final(self).state is Missing) || final(self).state == (
                HandleState::Error { error: e }),
                None => {
                    &&& final(self).id is None
                    &&& final(self).state is Searching
                    &&& (final(self).path matches Some(p) && final(loader).path_entry(
                        final(self).type_id,
                        p@,
                    ) matches Some(PathState::Unloaded { .. }))
                },
            },
    {
        if let Some(id) = self.id {
            return Some(Ok(id));
        }
        if !loader.poll(self, PollFor::Id, waker) {
            return None;
        }
        if let Some(id) = self.id {
            return Some(Ok(id));
        }
        match &self.state {
            HandleState::Missing => Some(
                Err(Error::NotFound(NotFound { id: None, path: dup_opt_string(&self.path) })),
            ),
            HandleState::Error { error } => Some(Err(error.clone())),
            _ => unreached(),
        }
    }

    /// Polls for the asset to be decoded. Resolves to a buildable handle,
    /// or to the entry's error, or to not-found.
    pub fn poll_loaded(&mut self, loader: &mut Loader, waker: Option<u64>) -> (r: Option<Result<
        LoadedAsset,
        Error,
    >>)
        requires
            old(loader).wf(),
            old(self).coherent(old(loader)),
        ensures
            final(loader).wf(),
            final(self).coherent(final(loader)),
            final(self).type_id == old(self).type_id,
            final(self).path == old(self).path,
            final(self).result == old(self).result,
            waker is None ==> *final(loader) == *old(loader),
            old(self).result matches Some(res) ==> *final(self) == *old(self) && *final(loader)
                == *old(loader) && match res {
                Ok(a) => r matches Some(Ok(la)) && la.result == Some(Ok::<u64, Error>(a))
                    && la.handle == *old(self),
                Err(e) => r == Some(Err::<LoadedAsset, Error>(e)),
            },
            match r {
                Some(Ok(la)) => la.handle == *final(self) && (final(self).state is Loaded
                    || final(self).state is Ready || la.result is Some),
                Some(Err(e)) => (e matches Error::NotFound(nf) && nf.id == final(self).id
                    && nf.path == old(self).path && (old(self).result is None
                    ==> final(self).state is Missing)) || final(self).state == (
                HandleState::Error { error: e }) || old(self).result == Some(
                    Err::<u64, Error>(e),
                ),
                None => !(final(self).state is Loaded) && !(final(self).state is Ready)
                    && match final(self).id {
                    Some(id) => final(loader).id_entry(final(self).type_id, id) matches Some(
                        AssetState::Unloaded { .. },
                    ),
                    None => final(self).path matches Some(p) && final(loader).path_entry(
                        final(self).type_id,
                        p@,
                    ) matches Some(PathState::Unloaded { .. }),
                },
            },
    {
        if let Some(res) = &self.result {
            let out = dup_result(res);
            return match out {
                Ok(a) => Some(
                    Ok(LoadedAsset { result: Some(Ok(a)), handle: self.clone() }),
                ),
                Err(e) => Some(Err(e)),
            };
        }
        if !loader.poll(self, PollFor::Load, waker) {
            return None;
        }
        match &self.state {
            HandleState::Error { error } => Some(Err(error.clone())),
            HandleState::Missing => Some(
                Err(Error::NotFound(NotFound { id: self.id, path: dup_opt_string(&self.path) })),
            ),
            HandleState::Loaded => Some(
                Ok(LoadedAsset { result: None, handle: self.clone() }),
            ),
            HandleState::Ready { .. } => Some(
                Ok(LoadedAsset { result: None, handle: self.clone() }),
            ),
            _ => unreached(),
        }
    }

    /// Polls for the built asset. Once a terminal outcome is observed it
    /// is cached on the handle, and every later poll returns exactly that
    /// outcome without touching the cache.
    pub fn poll_ready(&mut self, loader: &mut Loader, waker: Option<u64>) -> (r: Option<Result<
        u64,
        Error,
    >>)
        requires
            old(loader).wf(),
            old(self).coherent(old(loader)),
        ensures
            final(loader).wf(),
            final(self).coherent(final(loader)),
            final(self).type_id == old(self).type_id,
            final(self).path == old(self).path,
            waker is None ==> *final(loader) == *old(loader),
            old(self).result matches Some(res) ==> r == Some(res) && *final(self) == *old(self)
                && *final(loader) == *old(loader),
            match r {
                Some(res) => final(self).result == Some(res) && (old(self).result is None
                    ==> match res {
                    Ok(a) => final(self).entry(final(loader)) matches Some(
                        AssetState::Ready { asset, .. },
                    ) && asset == a,
                    Err(e) => (e matches Error::NotFound(nf) && nf.id == final(self).id
                        && nf.path == final(self).path) || (final(self).entry(final(loader))
                        matches Some(AssetState::Error { error }) && error == e),
                }),
                None => final(self).result is None && match final(self).id {
                    Some(id) => final(loader).id_entry(final(self).type_id, id) matches Some(e)
                        && (e is Unloaded || e is Loaded),
                    None => final(self).path matches Some(p) && final(loader).path_entry(
                        final(self).type_id,
                        p@,
                    ) matches Some(PathState::Unloaded { .. }),
                },
            },
    {
        if let Some(res) = &self.result {
            return Some(dup_result(res));
        }
        if !loader.poll(self, PollFor::Ready, waker) {
            return None;
        }
        let out: Result<u64, Error> = match &self.state {
            HandleState::Error { error } => Err(error.clone()),
            HandleState::Missing => Err(
                Error::NotFound(NotFound { id: self.id, path: dup_opt_string(&self.path) }),
            ),
            HandleState::Loaded => {
                let id = match self.id {
                    Some(id) => id,
                    None => unreached(),
                };
                loader.get_outcome(self.type_id, id, &self.path)
            }
            HandleState::Ready { asset } => Ok(*asset),
            _ => unreached(),
        };
        self.result = Some(dup_result(&out));
        Some(out)
    }

    /// Do the two handles certainly reference the same asset? True when
    /// their ids agree, or their paths agree; false otherwise — two
    /// handles may still reference one asset when one was fetched by id
    /// and the other's path has not resolved yet.
    pub fn same_asset(&self, other: &AssetHandle) -> (r: bool)
        ensures
            r == {
                ||| (self.id matches Some(a) && other.id matches Some(b) && a == b)
                ||| (self.id is None || other.id is None) && (self.path matches Some(p)
                    && other.path matches Some(q) && p@ == q@)
            },
    {
        match (self.id, other.id) {
            (Some(a), Some(b)) => a == b,
            _ => match (&self.path, &other.path) {
                (Some(p), Some(q)) => crate::key::str_eq(p.as_str(), q.as_str()),
                _ => false,
            },
        }
    }

    /// Erases the asset type, keeping only what is needed to drive the
    /// entry to its end.
    pub fn driver(self) -> (r: AssetDriver)
        ensures
            r.handle == self,
    {
        AssetDriver { handle: self }
    }

    /// Polls for the asset to be decoded and, once it is, starts a build:
    /// the decoded value is handed out at most once over all callers, a
    /// racing caller sees `Pending` and later the memoised result.
    pub fn poll_build_step(&mut self, loader: &mut Loader, waker: Option<u64>) -> (r: Option<
        BuildStep,
    >)
        requires
            old(loader).wf(),
            old(self).coherent(old(loader)),
        ensures
            final(loader).wf(),
            final(self).coherent(final(loader)),
            final(self).type_id == old(self).type_id,
            final(self).path == old(self).path,
            final(self).result == old(self).result,
            old(self).result matches Some(res) ==> *final(self) == *old(self) && *final(loader)
                == *old(loader) && match res {
                Ok(a) => r == Some(BuildStep::Built { asset: a }),
                Err(e) => r == Some(BuildStep::Failed { error: e }),
            },
            old(self).result is None ==> match r {
                Some(step) => match step {
                    BuildStep::Run { decoded, version, source } => {
                        &&& final(self).state is Loaded
                        &&& final(self).entry(final(loader)) matches Some(
                            AssetState::Loaded { decoded: d2, version: v2, source: s2, .. },
                        ) && d2 is None && v2 == version && s2 == source
                    },
                    BuildStep::Pending => final(self).state is Loaded && (final(self).entry(
                        final(loader),
                    ) matches Some(AssetState::Loaded { decoded: d2, .. }) && d2 is None),
                    BuildStep::Built { asset } => final(self).entry(final(loader)) matches Some(
                        AssetState::Ready { asset: a2, .. },
                    ) && a2 == asset,
                    BuildStep::Missing => final(self).state is Missing,
                    BuildStep::Failed { error } => final(self).state == (
                    HandleState::Error { error }),
                },
                None => final(self).result is None && match final(self).id {
                    Some(id) => final(loader).id_entry(final(self).type_id, id) matches Some(
                        AssetState::Unloaded { .. },
                    ),
                    None => final(self).path matches Some(p) && final(loader).path_entry(
                        final(self).type_id,
                        p@,
                    ) matches Some(PathState::Unloaded { .. }),
                },
            },
    {
        if let Some(res) = &self.result {
            return match dup_result(res) {
                Ok(a) => Some(BuildStep::Built { asset: a }),
                Err(e) => Some(BuildStep::Failed { error: e }),
            };
        }
        if !loader.poll(self, PollFor::Load, waker) {
            return None;
        }
        match &self.state {
            HandleState::Missing => Some(BuildStep::Missing),
            HandleState::Error { error } => Some(BuildStep::Failed { error: error.clone() }),
            HandleState::Ready { asset } => Some(BuildStep::Built { asset: *asset }),
            HandleState::Loaded => {
                let id = match self.id {
                    Some(id) => id,
                    None => unreached(),
                };
                match loader.begin_build(self.type_id, id) {
                    BuildStep::Failed { error } => {
                        let e2 = error.clone();
                        self.state = HandleState::Error { error: e2 };
                        Some(BuildStep::Failed { error })
                    }
                    step => Some(step),
                }
            }
            _ => unreached(),
        }
    }

    /// Commits the outcome of a build started with `poll_build_step`. The
    /// entry becomes `Ready` or `Error` for good — keeping its version and
    /// source snapshot — the outcome is cached on this handle, and the
    /// entry's parked wakers are returned to be woken.
    pub fn finish_build(&mut self, loader: &mut Loader, outcome: Result<u64, Error>) -> (wakers:
        Vec<u64>)
        requires
            old(loader).wf(),
            old(self).coherent(old(loader)),
            old(self).state is Loaded,
            old(self).entry(old(loader)) matches Some(e) && e is Loaded,
        ensures
            final(loader).wf(),
            final(self).coherent(final(loader)),
            final(self).result == Some(outcome),
            final(self).type_id == old(self).type_id,
            final(self).path == old(self).path,
            final(self).id == old(self).id,
            Loader::paths_unchanged(old(loader), final(loader)),
            (old(self).id matches Some(id) && Loader::ids_unchanged_except(
                old(loader),
                final(loader),
                old(self).type_id,
                id,
            )),
            old(self).entry(old(loader)) matches Some(
                AssetState::Loaded { version, source, wakers: ow, .. },
            ) ==> {
                &&& wakers@ == ow@
                &&& match outcome {
                    Ok(asset) => final(self).entry(final(loader)) == Some(
                        AssetState::Ready { asset, version, source },
                    ),
                    Err(error) => final(self).entry(final(loader)) == Some(
                        AssetState::Error { error },
                    ),
                }
            },
    {
        let id = match self.id {
            Some(id) => id,
            None => unreached(),
        };
        let cached = dup_result(&outcome);
        let wakers = loader.finish_build(self.type_id, id, outcome);
        self.result = Some(cached);
        wakers
    }
}

impl LoadedAsset {
    /// Builds the loaded asset: either its memoised outcome is returned at
    /// once, or the decoded value is handed out for the caller's build.
    pub fn begin_build(&mut self, loader: &mut Loader) -> (r: BuildStep)
        requires
            old(loader).wf(),
            old(self).handle.coherent(old(loader)),
            old(self).result is Some || old(self).handle.state is Loaded || old(
                self,
            ).handle.state is Ready,
        ensures
            final(loader).wf(),
            final(self).handle.coherent(final(loader)),
            final(self).handle == old(self).handle,
            final(self).result == old(self).result,
            old(self).result matches Some(res) ==> *final(loader) == *old(loader) && match res {
                Ok(a) => r == (BuildStep::Built { asset: a }),
                Err(e) => r == (BuildStep::Failed { error: e }),
            },
            old(self).result is None ==> match r {
                BuildStep::Run { decoded, version, source } => final(self).handle.entry(
                    final(loader),
                ) matches Some(AssetState::Loaded { decoded: d2, version: v2, source: s2, .. })
                    && d2 is None && v2 == version && s2 == source,
                BuildStep::Pending => final(self).handle.entry(final(loader)) matches Some(
                    AssetState::Loaded { decoded: d2, .. },
                ) && d2 is None,
                BuildStep::Built { asset } => final(self).handle.entry(final(loader))
                    matches Some(AssetState::Ready { asset: a2, .. }) && a2 == asset,
                BuildStep::Missing => false,
                BuildStep::Failed { error } => final(self).handle.entry(final(loader))
                    matches Some(AssetState::Error { error: e2 }) && e2 == error,
            },
    {
        if let Some(res) = &self.result {
            return match dup_result(res) {
                Ok(a) => BuildStep::Built { asset: a },
                Err(e) => BuildStep::Failed { error: e },
            };
        }
        match &self.handle.state {
            HandleState::Ready { asset } => BuildStep::Built { asset: *asset },
            HandleState::Loaded => {
                let id = match self.handle.id {
                    Some(id) => id,
                    None => unreached(),
                };
                loader.begin_build(self.handle.type_id, id)
            }
            _ => unreached(),
        }
    }

    /// Commits the outcome of a build started with `begin_build`; as
    /// `AssetHandle::finish_build`, with the outcome memoised here.
    pub fn finish_build(&mut self, loader: &mut Loader, outcome: Result<u64, Error>) -> (wakers:
        Vec<u64>)
        requires
            old(loader).wf(),
            old(self).handle.coherent(old(loader)),
            old(self).handle.state is Loaded,
            old(self).handle.entry(old(loader)) matches Some(e) && e is Loaded,
        ensures
            final(loader).wf(),
            final(self).handle.coherent(final(loader)),
            final(self).result == Some(outcome),
            final(self).handle == old(self).handle,
            Loader::paths_unchanged(old(loader), final(loader)),
            (old(self).handle.id matches Some(id) && Loader::ids_unchanged_except(
                old(loader),
                final(loader),
                old(self).handle.type_id,
                id,
            )),
            old(self).handle.entry(old(loader)) matches Some(
                AssetState::Loaded { version, source, wakers: ow, .. },
            ) ==> {
                &&& wakers@ == ow@
                &&& match outcome {
                    Ok(asset) => final(self).handle.entry(final(loader)) == Some(
                        AssetState::Ready { asset, version, source },
                    ),
                    Err(error) => final(self).handle.entry(final(loader)) == Some(
                        AssetState::Error { error },
                    ),
                }
            },
    {
        let id = match self.handle.id {
            Some(id) => id,
            None => unreached(),
        };
        let cached = dup_result(&outcome);
        let wakers = loader.finish_build(self.handle.type_id, id, outcome);
        self.result = Some(cached);
        wakers
    }
}

impl AssetDriver {
    /// Polls the erased handle up to `Loaded`.
    pub fn poll_loaded(&mut self, loader: &mut Loader, waker: Option<u64>) -> (done: bool)
        requires
            old(loader).wf(),
            old(self).handle.coherent(old(loader)),
        ensures
            final(loader).wf(),
            final(self).handle.coherent(final(loader)),
            waker is None ==> *final(loader) == *old(loader),
            done == (final(self).handle.state is Loaded || final(self).handle.state is Ready
                || final(self).handle.state is Missing || final(self).handle.state is Error),
            !done ==> match final(self).handle.id {
                Some(id) => final(loader).id_entry(final(self).handle.type_id, id) matches Some(
                    AssetState::Unloaded { .. },
                ),
                None => final(self).handle.path matches Some(p) && final(loader).path_entry(
                    final(self).handle.type_id,
                    p@,
                ) matches Some(PathState::Unloaded { .. }),
            },
    {
        loader.poll(&mut self.handle, PollFor::Load, waker)
    }

    /// Polls and starts a build, as `AssetHandle::poll_build_step`.
    pub fn poll_build_step(&mut self, loader: &mut Loader, waker: Option<u64>) -> (r: Option<
        BuildStep,
    >)
        requires
            old(loader).wf(),
            old(self).handle.coherent(old(loader)),
        ensures
            final(loader).wf(),
            final(self).handle.coherent(final(loader)),
            old(self).handle.result matches Some(res) ==> *final(self) == *old(self)
                && *final(loader) == *old(loader) && match res {
                Ok(a) => r == Some(BuildStep::Built { asset: a }),
                Err(e) => r == Some(BuildStep::Failed { error: e }),
            },
            old(self).handle.result is None ==> match r {
                Some(step) => match step {
                    BuildStep::Run { decoded, version, source } => {
                        &&& final(self).handle.state is Loaded
                        &&& final(self).handle.entry(final(loader)) matches Some(
                            AssetState::Loaded { decoded: d2, version: v2, source: s2, .. },
                        ) && d2 is None && v2 == version && s2 == source
                    },
                    BuildStep::Pending => final(self).handle.state is Loaded
                        && (final(self).handle.entry(final(loader)) matches Some(
                        AssetState::Loaded { decoded: d2, .. },
                    ) && d2 is None),
                    BuildStep::Built { asset } => final(self).handle.entry(final(loader))
                        matches Some(AssetState::Ready { asset: a2, .. }) && a2 == asset,
                    BuildStep::Missing => final(self).handle.state is Missing,
                    BuildStep::Failed { error } => final(self).handle.state == (
                    HandleState::Error { error }),
                },
                None => final(self).handle.result is None && match final(self).handle.id {
                    Some(id) => final(loader).id_entry(final(self).handle.type_id, id)
                        matches Some(AssetState::Unloaded { .. }),
                    None => final(self).handle.path matches Some(p) && final(loader).path_entry(
                        final(self).handle.type_id,
                        p@,
                    ) matches Some(PathState::Unloaded { .. }),
                },
            },
    {
        self.handle.poll_build_step(loader, waker)
    }

    /// Commits a build, as `AssetHandle::finish_build`.
    pub fn finish_build(&mut self, loader: &mut Loader, outcome: Result<u64, Error>) -> (wakers:
        Vec<u64>)
        requires
            old(loader).wf(),
            old(self).handle.coherent(old(loader)),
            old(self).handle.state is Loaded,
            old(self).handle.entry(old(loader)) matches Some(e) && e is Loaded,
        ensures
            final(loader).wf(),
            final(self).handle.coherent(final(loader)),
            final(self).handle.result == Some(outcome),
            old(self).handle.entry(old(loader)) matches Some(
                AssetState::Loaded { version, source, wakers: ow, .. },
            ) ==> {
                &&& wakers@ == ow@
                &&& match outcome {
                    Ok(asset) => final(self).handle.entry(final(loader)) == Some(
                        AssetState::Ready { asset, version, source },
                    ),
                    Err(error) => final(self).handle.entry(final(loader)) == Some(
                        AssetState::Error { error },
                    ),
                }
            },
    {
        self.handle.finish_build(loader, outcome)
    }
}

} // verus!

//! The source boundary: pluggable backends that translate paths and ids to
//! byte blobs, tried in a fixed priority order. The first source that
//! answers wins; an error is never swallowed by trying the next source.

use vstd::prelude::*;

use crate::error::Error;
use crate::id::AssetId;

verus! {

/// Asset bytes handed back by a source, with the source's opaque version.
/// Equal `(source, version)` pairs mean the same artifact.
pub struct AssetData {
    /// Serialized asset data.
    pub bytes: Vec<u8>,
    /// Opaque version, interpreted only by the source that produced it.
    pub version: u64,
}

/// A backend for asset raw data. Implemented by the embedding application;
/// the loader only fixes how the chain of sources is walked.
pub trait Source {
    /// Translates a path to an id for the named asset type. A source that
    /// does not know the path answers `None`; it never fails loudly.
    fn find(&mut self, path: &str, asset: &str) -> (r: Option<AssetId>);

    /// Loads the bytes for an id. `None` means "not present here, try the
    /// next source"; an error aborts the whole load.
    fn load(&mut self, id: AssetId) -> (r: Result<Option<AssetData>, Error>);

    /// Loads the bytes only when a version newer than `version` exists.
    fn update(&mut self, id: AssetId, version: u64) -> (r: Result<Option<AssetData>, Error>);
}

/// The walk over the source chain, as decisions: which source to ask
/// next, and what each source's answer does to the walk. This fixes the
/// priority policy exactly: sources are asked one at a time in order, the
/// first with data wins with its index, "not present" advances to the
/// next source, and an error aborts at once — never swallowed by trying
/// the next source.
pub struct SourceWalk {
    /// How many sources the chain has.
    pub num_sources: usize,
    /// The source to consult next.
    pub next: usize,
}

impl SourceWalk {
    /// A walk at the front of the chain.
    pub fn new(num_sources: usize) -> (r: SourceWalk)
        ensures
            r.num_sources == num_sources,
            r.next == 0,
    {
        SourceWalk { num_sources, next: 0 }
    }

    /// The source to ask now; `None` when the chain is exhausted.
    pub fn current(&self) -> (r: Option<usize>)
        ensures
            self.next < self.num_sources ==> r == Some(self.next),
            self.next >= self.num_sources ==> r is None,
    {
        if self.next < self.num_sources {
            Some(self.next)
        } else {
            None
        }
    }

    /// Feeds the current source's find answer: the first source that
    /// knows the path wins, an unknowing one passes to the next.
    pub fn feed_find(&mut self, outcome: Option<AssetId>) -> (r: Option<Option<AssetId>>)
        requires
            old(self).next < old(self).num_sources,
        ensures
            final(self).num_sources == old(self).num_sources,
            match outcome {
                Some(id) => r == Some(Some(id)) && final(self).next == old(self).next,
                None => final(self).next == old(self).next + 1 && (
                if old(self).next + 1 < old(self).num_sources {
                    r is None
                } else {
                    r == Some(Option::<AssetId>::None)
                }),
            },
    {
        match outcome {
            Some(id) => Some(Some(id)),
            None => {
                self.next = self.next + 1;
                if self.next < self.num_sources {
                    None
                } else {
                    Some(None)
                }
            }
        }
    }

    /// Feeds the current source's load answer. Data wins with the index
    /// it came from; "not present" moves on; an error ends the walk as
    /// that error.
    pub fn feed_load(&mut self, outcome: Result<Option<AssetData>, Error>) -> (r: Option<
        Result<Option<(AssetData, usize)>, Error>,
    >)
        requires
            old(self).next < old(self).num_sources,
        ensures
            final(self).num_sources == old(self).num_sources,
            match outcome {
                Err(e) => r == Some(Err::<Option<(AssetData, usize)>, Error>(e))
                    && final(self).next == old(self).next,
                Ok(Some(data)) => (r matches Some(Ok(Some((d, idx)))) && d == data
                    && idx == old(self).next) && final(self).next == old(self).next,
                Ok(None) => final(self).next == old(self).next + 1 && (
                if old(self).next + 1 < old(self).num_sources {
                    r is None
                } else {
                    r == Some(Ok::<Option<(AssetData, usize)>, Error>(None))
                }),
            },
    {
        match outcome {
            Err(e) => Some(Err(e)),
            Ok(Some(data)) => Some(Ok(Some((data, self.next)))),
            Ok(None) => {
                self.next = self.next + 1;
                if self.next < self.num_sources {
                    None
                } else {
                    Some(Ok(None))
                }
            }
        }
    }
}

/// Walks the source list in priority order for an id: the first source
/// with data wins and its index is reported; an error aborts at once.
pub fn load_from_sources<S: Source>(sources: &mut Vec<S>, id: AssetId) -> (r: Result<
    Option<(AssetData, usize)>,
    Error,
>)
    ensures
        r matches Ok(Some((d, idx))) ==> idx < final(sources)@.len(),
        old(sources)@.len() == 0 ==> r == Ok::<Option<(AssetData, usize)>, Error>(None),
{
    let n = sources.len();
    let mut walk = SourceWalk::new(n);
    loop
        invariant
            n == sources@.len(),
            n == old(sources)@.len(),
            walk.num_sources == n,
            walk.next <= n,
        decreases n - walk.next,
    {
        let i = match walk.current() {
            Some(i) => i,
            None => {
                return Ok(None);
            }
        };
        let outcome = sources[i].load(id);
        match walk.feed_load(outcome) {
            Some(done) => {
                return done;
            }
            None => {}
        }
    }
}

/// Walks the source list in priority order for a path: the first source
/// that knows it wins. A find never fails.
pub fn find_in_sources<S: Source>(sources: &mut Vec<S>, path: &str, asset: &str) -> (r: Option<
    AssetId,
>)
    ensures
        old(sources)@.len() == 0 ==> r is None,
{
    let n = sources.len();
    let mut walk = SourceWalk::new(n);
    loop
        invariant
            n == sources@.len(),
            n == old(sources)@.len(),
            walk.num_sources == n,
            walk.next <= n,
        decreases n - walk.next,
    {
        let i = match walk.current() {
            Some(i) => i,
            None => {
                return None;
            }
        };
        let outcome = sources[i].find(path, asset);
        match walk.feed_find(outcome) {
            Some(done) => {
                return done;
            }
            None => {}
        }
    }
}

} // verus!

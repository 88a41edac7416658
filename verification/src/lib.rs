//! Asset loader core: a sharded, deduplicating cache that resolves asset
//! keys — a 64-bit identifier or a path — to ready asset values through a
//! staged per-entry state machine (unloaded, loaded, ready, or terminally
//! missing/failed), so that any number of concurrent requesters of one
//! key progress on a single backing fetch and decode.
//!
//! The cache itself performs no I/O and spawns nothing: a request binds a
//! handle to an entry and, on the first request for a key, hands back a
//! task description. The embedding runtime runs the task — walking the
//! prioritised source chain, calling the asset's decoder — and commits
//! its outcome back into the cache, which advances the entry for good and
//! hands out the parked wakers, each exactly once. Wakers, decoded values
//! and built assets are carried as opaque tokens owned by that runtime;
//! the runtime wraps each shard in its own lock and performs the waking.
//!
//! Alongside the cache live the boundary protocols it is built on: the
//! identifier's 16-digit hex codec, the field protocol of composite
//! assets, the importer plugin boundary with its length-prefixed byte
//! layout, and the offline store's content-hash naming.

pub mod asset;
pub mod error;
pub mod field;
pub mod handle;
pub mod id;
pub mod import;
pub mod key;
pub mod loader;
pub mod source;
pub mod store;
pub mod typed_id;

pub use asset::{AssetBuild, LeafAsset, TrivialAsset};
pub use error::{Error, ErrorKind, NotFound};
pub use field::{External, FieldFuture, FieldInfo, Inlined, JoinPoll};
pub use id::{AssetId, ParseAssetIdError, ZeroIDError};
pub use import::{Dependencies, Dependency, ImportError, ImporterFFI, Sources};
pub use handle::{AssetDriver, AssetHandle, HandleState, LoadedAsset, PollFor};
pub use key::{Key, PathKey, TypeKey};
pub use loader::{AssetState, BuildStep, FetchTask, FindTask, LoadOutcome, Loader, LoaderBuilder, PathState, SpawnTask};
pub use source::{AssetData, Source, SourceWalk};
pub use store::{IdGen, Sha256Hash, StoreInfo};
pub use typed_id::TypedAssetId;

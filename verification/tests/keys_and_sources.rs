//! Key hashing, shard selection and the source-chain walk.

use argosy::key::{hash_id_key_erased, hash_path_key_erased, shard_count, shard_index, str_eq};
use argosy::source::{find_in_sources, load_from_sources, SourceWalk};
use argosy::{AssetData, AssetId, Error, PathKey, Source, TypeKey};

#[test]
fn id_key_hash_is_deterministic() {
    let id = AssetId::new(5).unwrap();
    let h1 = hash_id_key_erased(1, id);
    let h2 = hash_id_key_erased(1, id);
    assert_eq!(h1, h2);
    // The type tag tells two asset types apart under the same id.
    assert_ne!(hash_id_key_erased(1, id), hash_id_key_erased(2, id));
}

#[test]
fn path_key_hash_is_deterministic() {
    let h1 = hash_path_key_erased(1, "textures/a");
    let h2 = hash_path_key_erased(1, "textures/a");
    assert_eq!(h1, h2);
    assert_ne!(hash_path_key_erased(1, "textures/a"), hash_path_key_erased(1, "textures/b"));
}

#[test]
fn shard_count_rounds_up_capped() {
    assert_eq!(shard_count(0), 1);
    assert_eq!(shard_count(1), 1);
    assert_eq!(shard_count(5), 8);
    assert_eq!(shard_count(8), 8);
    assert_eq!(shard_count(512), 512);
    assert_eq!(shard_count(100_000), 512);
}

#[test]
fn shard_index_stays_in_range() {
    for h in [0u64, 1, u64::MAX, 0xdead_beef] {
        assert!(shard_index(h, 8) < 8);
    }
    assert_eq!(shard_index(13, 8), 5);
}

#[test]
fn keys_compare_by_tag_and_value() {
    let id = AssetId::new(9).unwrap();
    let k = TypeKey::new(4, id);
    assert!(k.eq_key_erased(4, id));
    assert!(!k.eq_key_erased(5, id));
    let pk = PathKey::new(4, "a/b".to_string());
    assert!(pk.eq_key_erased(4, "a/b"));
    assert!(!pk.eq_key_erased(4, "a/c"));
    assert!(!pk.eq_key_erased(3, "a/b"));
    assert!(str_eq("", ""));
    assert!(!str_eq("x", ""));
}

#[test]
fn walk_stops_at_first_data() {
    let mut walk = SourceWalk::new(3);
    assert_eq!(walk.current(), Some(0));
    // Source 0 has nothing; the walk moves on.
    assert!(walk.feed_load(Ok(None)).is_none());
    assert_eq!(walk.current(), Some(1));
    // Source 1 answers: its data and index win.
    let done = walk.feed_load(Ok(Some(AssetData { bytes: b"x".to_vec(), version: 4 })));
    match done {
        Some(Ok(Some((data, idx)))) => {
            assert_eq!(data.bytes, b"x");
            assert_eq!(data.version, 4);
            assert_eq!(idx, 1);
        }
        _ => panic!("the first source with data wins"),
    }
}

#[test]
fn walk_propagates_errors() {
    let mut walk = SourceWalk::new(2);
    let done = walk.feed_load(Err(Error::Source { payload: 3 }));
    match done {
        Some(Err(e)) => assert_eq!(e, Error::Source { payload: 3 }),
        _ => panic!("an error is never swallowed by trying the next source"),
    }
}

#[test]
fn walk_exhausts_to_none() {
    let mut walk = SourceWalk::new(1);
    let done = walk.feed_load(Ok(None));
    assert!(matches!(done, Some(Ok(None))));
    assert_eq!(walk.current(), None);
}

struct ErringSource;

impl Source for ErringSource {
    fn find(&mut self, _path: &str, _asset: &str) -> Option<AssetId> {
        AssetId::new(8)
    }

    fn load(&mut self, _id: AssetId) -> Result<Option<AssetData>, Error> {
        Err(Error::Source { payload: 1 })
    }

    fn update(&mut self, _id: AssetId, _version: u64) -> Result<Option<AssetData>, Error> {
        Ok(None)
    }
}

#[test]
fn load_aborts_on_source_error() {
    let id = AssetId::new(1).unwrap();
    let mut sources = vec![ErringSource];
    assert!(load_from_sources(&mut sources, id).is_err());
}

#[test]
fn find_takes_first_answer() {
    let mut sources = vec![ErringSource, ErringSource];
    let found = find_in_sources(&mut sources, "p", "asset");
    assert_eq!(found.map(|i| i.value()), Some(8));
}

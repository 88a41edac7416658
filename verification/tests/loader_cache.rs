//! The deduplicating cache: one fetch per key, shared terminal outcomes,
//! wakers woken exactly once, and memoised handles.

use argosy::{
    AssetData, AssetId, BuildStep, Error, ErrorKind, HandleState, Key, LoadOutcome, Loader,
    LoaderBuilder, NotFound, Source, SpawnTask,
};
use argosy::source::load_from_sources;

struct CountingSource {
    /// The one asset this source serves: (id value, bytes, version).
    data: Option<(u64, Vec<u8>, u64)>,
    finds: u32,
    loads: u32,
}

impl CountingSource {
    fn empty() -> CountingSource {
        CountingSource { data: None, finds: 0, loads: 0 }
    }

    fn with(id: u64, bytes: &[u8], version: u64) -> CountingSource {
        CountingSource { data: Some((id, bytes.to_vec(), version)), finds: 0, loads: 0 }
    }
}

impl Source for CountingSource {
    fn find(&mut self, _path: &str, _asset: &str) -> Option<AssetId> {
        self.finds += 1;
        None
    }

    fn load(&mut self, id: AssetId) -> Result<Option<AssetData>, Error> {
        self.loads += 1;
        match &self.data {
            Some((v, bytes, version)) if *v == id.value() => Ok(Some(AssetData {
                bytes: bytes.clone(),
                version: *version,
            })),
            _ => Ok(None),
        }
    }

    fn update(&mut self, _id: AssetId, _version: u64) -> Result<Option<AssetData>, Error> {
        Ok(None)
    }
}

fn small_loader() -> Loader {
    LoaderBuilder::new().with_num_shards(4).build()
}

#[test]
fn first_source_with_data_wins() {
    // Two sources; only the second has id 1. Both are consulted once; the
    // second one's data and index come back.
    let id = AssetId::new(1).unwrap();
    let mut sources = vec![CountingSource::empty(), CountingSource::with(1, b"{}", 0)];
    let r = load_from_sources(&mut sources, id).unwrap().unwrap();
    assert_eq!(r.0.bytes, b"{}".to_vec());
    assert_eq!(r.0.version, 0);
    assert_eq!(r.1, 1);
    assert_eq!(sources[0].loads, 1);
    assert_eq!(sources[1].loads, 1);
}

#[test]
fn load_with_id_and_build_to_ready() {
    let mut loader = small_loader();
    let id = AssetId::new(1).unwrap();
    let (mut h, task) = loader.load_with_id(7, id);
    let task = task.expect("first request must fetch");
    assert_eq!(task.type_id, 7);
    assert_eq!(task.id.value(), 1);

    // The fetch task runs: walk sources, decode, commit.
    let mut sources = vec![CountingSource::empty(), CountingSource::with(1, b"{}", 0)];
    let fetched = load_from_sources(&mut sources, task.id).unwrap().unwrap();
    let outcome = LoadOutcome::Loaded { decoded: 10, version: fetched.0.version, source: fetched.1 };
    let wakers = loader.apply_load_outcome(task.type_id, task.id, outcome);
    assert!(wakers.is_empty());

    // The awaiter sees the decoded entry and builds it.
    let mut la = h.poll_loaded(&mut loader, None).unwrap().unwrap();
    match la.begin_build(&mut loader) {
        BuildStep::Run { decoded, version, source } => {
            assert_eq!(decoded, 10);
            assert_eq!(version, 0);
            assert_eq!(source, 1);
            let wakers = la.finish_build(&mut loader, Ok(55));
            assert!(wakers.is_empty());
        }
        _ => panic!("expected to run the build"),
    }
    assert_eq!(h.poll_ready(&mut loader, None), Some(Ok(55)));
    assert_eq!(sources[0].loads, 1);
    assert_eq!(sources[1].loads, 1);
}

#[test]
fn source_chain_consulted_once_per_key() {
    // Five requests for the same key: only the first hands back a fetch
    // task, so the source chain runs at most once however many callers
    // wait.
    let mut loader = small_loader();
    let id = AssetId::new(42).unwrap();
    let mut handles = Vec::new();
    let mut tasks = 0;
    for _ in 0..5 {
        let (h, task) = loader.load_with_id(3, id);
        if task.is_some() {
            tasks += 1;
        }
        handles.push(h);
    }
    assert_eq!(tasks, 1);

    // Decode once; every awaiter completes with the same value.
    loader.apply_load_outcome(3, id, LoadOutcome::Loaded { decoded: 9, version: 0, source: 0 });
    let mut la = handles[0].poll_loaded(&mut loader, None).unwrap().unwrap();
    match la.begin_build(&mut loader) {
        BuildStep::Run { .. } => {
            la.finish_build(&mut loader, Ok(90));
        }
        _ => panic!("expected to run the build"),
    }
    for h in handles.iter_mut() {
        assert_eq!(h.poll_ready(&mut loader, None), Some(Ok(90)));
    }
}

#[test]
fn missing_is_memoised() {
    // Every source answers "not present": the entry resolves missing, and
    // a second load shares it without a new fetch task.
    let mut loader = small_loader();
    let id = AssetId::new(99).unwrap();
    let (mut h, task) = loader.load_with_id(3, id);
    assert!(task.is_some());

    let mut sources = vec![CountingSource::empty()];
    let fetched = load_from_sources(&mut sources, id).unwrap();
    assert!(fetched.is_none());
    assert_eq!(sources[0].loads, 1);
    loader.apply_load_outcome(3, id, LoadOutcome::Missing);

    match h.poll_ready(&mut loader, None) {
        Some(Err(e)) => {
            assert!(e.is_not_found());
            let nf = e.get_not_found().unwrap();
            assert_eq!(nf.id.map(|i| i.value()), Some(99));
            assert_eq!(nf.path, None);
        }
        other => panic!("expected the not-found error, got {:?}", other.is_some()),
    }

    let (mut h2, task2) = loader.load_with_id(3, id);
    assert!(task2.is_none());
    match h2.poll_ready(&mut loader, None) {
        Some(Err(e)) => assert!(e.is_not_found()),
        _ => panic!("expected the memoised not-found error"),
    }
    // No further source consultation happened.
    assert_eq!(sources[0].loads, 1);
}

#[test]
fn decode_error_is_shared() {
    // Two callers of a failing key observe the same error value.
    let mut loader = small_loader();
    let id = AssetId::new(7).unwrap();
    let (mut h1, task) = loader.load_with_id(5, id);
    let (mut h2, _) = loader.load_with_id(5, id);
    assert!(task.is_some());

    let error = Error::Decode { type_id: 5, payload: 1234 };
    loader.apply_load_outcome(5, id, LoadOutcome::Error { error });

    let e1 = h1.poll_ready(&mut loader, None).unwrap().unwrap_err();
    let e2 = h2.poll_ready(&mut loader, None).unwrap().unwrap_err();
    assert_eq!(e1, e2);
    assert!(e1.is_decode_error(5));
    assert!(!e1.is_decode_error(6));
    assert!(e1.is(ErrorKind::Decode));
    assert_eq!(e1.downcast_ref(ErrorKind::Decode), Some(1234));
    assert_eq!(e1.downcast_ref(ErrorKind::Build), None);
}

#[test]
fn wakers_drain_exactly_once() {
    // Wakers registered while the entry is pending come back exactly once
    // when it transitions.
    let mut loader = small_loader();
    let id = AssetId::new(2).unwrap();
    let (mut h, _task) = loader.load_with_id(1, id);
    assert!(h.poll_ready(&mut loader, Some(71)).is_none());
    assert!(h.poll_ready(&mut loader, Some(72)).is_none());

    let wakers =
        loader.apply_load_outcome(1, id, LoadOutcome::Loaded { decoded: 0, version: 0, source: 0 });
    assert_eq!(wakers, vec![71, 72]);

    // Waiting for the build now parks on the decoded entry.
    assert!(h.poll_ready(&mut loader, Some(73)).is_none());
    let mut h2 = h.clone();
    match h.poll_build_step(&mut loader, None) {
        Some(BuildStep::Run { .. }) => {
            let wakers = h.finish_build(&mut loader, Ok(8));
            assert_eq!(wakers, vec![73]);
        }
        _ => panic!("expected to run the build"),
    }
    assert_eq!(h2.poll_ready(&mut loader, None), Some(Ok(8)));
}

#[test]
fn terminal_poll_leaves_cache_alone() {
    // Once a handle cached its outcome, polling again returns the same
    // outcome straight from the handle.
    let mut loader = small_loader();
    let id = AssetId::new(6).unwrap();
    let (mut h, _task) = loader.load_with_id(2, id);
    loader.apply_load_outcome(2, id, LoadOutcome::Loaded { decoded: 4, version: 9, source: 0 });
    match h.poll_build_step(&mut loader, None) {
        Some(BuildStep::Run { decoded, version, .. }) => {
            assert_eq!(decoded, 4);
            assert_eq!(version, 9);
            h.finish_build(&mut loader, Ok(44));
        }
        _ => panic!("expected to run the build"),
    }
    assert_eq!(h.poll_ready(&mut loader, None), Some(Ok(44)));
    assert_eq!(h.poll_ready(&mut loader, None), Some(Ok(44)));
    assert_eq!(h.poll_id(&mut loader, None), Some(Ok(id)));
}

#[test]
fn decoded_cell_yields_once() {
    // Two racing builders: the first takes the decoded value, the second
    // sees the build pending and then the memoised asset.
    let mut loader = small_loader();
    let id = AssetId::new(11).unwrap();
    let (mut h1, _task) = loader.load_with_id(4, id);
    let (mut h2, _) = loader.load_with_id(4, id);
    loader.apply_load_outcome(4, id, LoadOutcome::Loaded { decoded: 1, version: 0, source: 0 });

    let step1 = h1.poll_build_step(&mut loader, None);
    assert!(matches!(step1, Some(BuildStep::Run { decoded: 1, .. })));
    let step2 = h2.poll_build_step(&mut loader, None);
    assert!(matches!(step2, Some(BuildStep::Pending)));

    h1.finish_build(&mut loader, Ok(100));
    let step3 = h2.poll_build_step(&mut loader, None);
    assert!(matches!(step3, Some(BuildStep::Built { asset: 100 })));
}

#[test]
fn path_resolution_hands_off_wakers() {
    // A path request parks an asset waker; resolving the path carries the
    // waker into the id entry, and both keys share that entry.
    let mut loader = small_loader();
    let (mut h, task) = loader.load(9, Key::Path("textures/a".to_string()));
    match task {
        Some(SpawnTask::Find(f)) => {
            assert_eq!(f.type_id, 9);
            assert_eq!(f.path, "textures/a");
        }
        _ => panic!("expected a find task"),
    }
    assert!(h.poll_ready(&mut loader, Some(5)).is_none());
    assert!(h.poll_id(&mut loader, Some(6)).is_none());

    let id = AssetId::new(123).unwrap();
    let (id_wakers, fetch) = loader.apply_find_outcome(9, "textures/a", Some(id));
    assert_eq!(id_wakers, vec![6]);
    let fetch = fetch.expect("the id entry is new, so the find task fetches");
    assert_eq!(fetch.id.value(), 123);

    // The handle resolves to the id and re-keys to the shared entry.
    assert_eq!(h.poll_id(&mut loader, None), Some(Ok(id)));
    let (mut h_by_id, task2) = loader.load_with_id(9, id);
    assert!(task2.is_none());

    let wakers = loader.apply_load_outcome(
        9,
        id,
        LoadOutcome::Loaded { decoded: 2, version: 0, source: 0 },
    );
    // The asset waker parked on the path entry was carried over.
    assert_eq!(wakers, vec![5]);

    match h_by_id.poll_build_step(&mut loader, None) {
        Some(BuildStep::Run { .. }) => {
            h_by_id.finish_build(&mut loader, Ok(77));
        }
        _ => panic!("expected to run the build"),
    }
    assert_eq!(h.poll_ready(&mut loader, None), Some(Ok(77)));
}

#[test]
fn missing_path_resolves_not_found() {
    let mut loader = small_loader();
    let (mut h, task) = loader.load(9, Key::Path("no/such".to_string()));
    assert!(matches!(task, Some(SpawnTask::Find(_))));
    let (wakers, fetch) = loader.apply_find_outcome(9, "no/such", None);
    assert!(wakers.is_empty());
    assert!(fetch.is_none());
    match h.poll_ready(&mut loader, None) {
        Some(Err(e)) => {
            let nf = e.get_not_found().unwrap();
            assert_eq!(
                nf,
                NotFound { path: Some("no/such".to_string()), id: None }
            );
        }
        _ => panic!("expected not-found"),
    }
    // A second load by the same path shares the missing entry.
    let (h2, task2) = loader.load(9, Key::Path("no/such".to_string()));
    assert!(task2.is_none());
    assert!(matches!(h2.state, HandleState::Missing));
}

#[test]
fn builder_rounds_shards_to_power_of_two() {
    let loader = LoaderBuilder::new().with_num_shards(5).build();
    let id = AssetId::new(1).unwrap();
    // The loader works regardless of the requested count.
    let mut loader = loader;
    let (_h, task) = loader.load_with_id(1, id);
    assert!(task.is_some());
}

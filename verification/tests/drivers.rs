//! Drivers: handles with the asset type erased, driven together in one
//! collection.

use argosy::{AssetDriver, AssetId, BuildStep, LoadOutcome, Loader, LoaderBuilder};

#[test]
fn drivers_of_different_types_poll_independently() {
    // Three assets of three different types, collected as drivers and
    // polled as one homogeneous collection; each reaches its decoded
    // state exactly once.
    let mut loader = LoaderBuilder::new().with_num_shards(4).build();
    let id = AssetId::new(77).unwrap();
    let mut drivers: Vec<AssetDriver> = Vec::new();
    for type_id in [1u64, 2, 3] {
        let (h, task) = loader.load_with_id(type_id, id);
        assert!(task.is_some());
        drivers.push(h.driver());
    }

    let mut done = [false; 3];
    for (k, d) in drivers.iter_mut().enumerate() {
        done[k] = d.poll_loaded(&mut loader, None);
    }
    assert_eq!(done, [false, false, false]);

    for type_id in [1u64, 2, 3] {
        loader.apply_load_outcome(
            type_id,
            id,
            LoadOutcome::Loaded { decoded: type_id, version: 0, source: 0 },
        );
    }

    let mut loaded = 0;
    for d in drivers.iter_mut() {
        if d.poll_loaded(&mut loader, None) {
            loaded += 1;
        }
    }
    assert_eq!(loaded, 3);

    // Each driver builds its own entry.
    for d in drivers.iter_mut() {
        match d.poll_build_step(&mut loader, None) {
            Some(BuildStep::Run { decoded, .. }) => {
                d.finish_build(&mut loader, Ok(decoded * 10));
            }
            _ => panic!("expected to run the build"),
        }
    }
    for (k, d) in drivers.iter_mut().enumerate() {
        match d.poll_build_step(&mut loader, None) {
            Some(BuildStep::Built { asset }) => assert_eq!(asset, (k as u64 + 1) * 10),
            _ => panic!("expected the memoised asset"),
        }
    }
}

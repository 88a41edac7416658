//! The field protocol: one child load per external identifier, deduped
//! through the cache; the join resolves when all children have, and the
//! first failure cancels it.

use argosy::field::{decode_fields, poll_fields, External, FieldFuture, FieldInfo, Inlined, JoinPoll};
use argosy::{AssetId, BuildStep, Error, LoadOutcome, Loader, LoaderBuilder};

fn small_loader() -> Loader {
    LoaderBuilder::new().with_num_shards(4).build()
}

#[test]
fn composite_issues_one_load_per_external() {
    // One external child, one inlined value, and a nested reference to the
    // same child: two references, but the cache dedupes to one fetch.
    let mut loader = small_loader();
    let foo = AssetId::new(1).unwrap();
    let fields = vec![
        FieldInfo::External(External::Id { type_id: 2, id: foo }),
        FieldInfo::Inlined(Inlined::Value(17)),
        FieldInfo::External(External::Id { type_id: 2, id: foo }),
    ];
    let (mut futures, tasks) = decode_fields(&mut loader, &fields);
    assert_eq!(futures.len(), 3);
    // Two child handles exist, but only one fetch task was issued.
    assert_eq!(tasks.len(), 1);
    assert_eq!(tasks[0].id.value(), 1);

    assert!(matches!(poll_fields(&mut loader, &mut futures), JoinPoll::Pending));

    loader.apply_load_outcome(2, foo, LoadOutcome::Loaded { decoded: 5, version: 0, source: 0 });
    assert!(matches!(poll_fields(&mut loader, &mut futures), JoinPoll::Ready));

    match &futures[1] {
        FieldFuture::Inlined(v) => assert_eq!(*v, 17),
        _ => panic!("inlined field kept its value"),
    }
}

#[test]
fn list_field_loads_every_child() {
    let mut loader = small_loader();
    let a = AssetId::new(10).unwrap();
    let b = AssetId::new(11).unwrap();
    let fields = vec![FieldInfo::External(External::List { type_id: 3, ids: vec![a, b] })];
    let (mut futures, tasks) = decode_fields(&mut loader, &fields);
    assert_eq!(tasks.len(), 2);

    loader.apply_load_outcome(3, a, LoadOutcome::Loaded { decoded: 1, version: 0, source: 0 });
    assert!(matches!(poll_fields(&mut loader, &mut futures), JoinPoll::Pending));
    loader.apply_load_outcome(3, b, LoadOutcome::Loaded { decoded: 2, version: 0, source: 0 });
    assert!(matches!(poll_fields(&mut loader, &mut futures), JoinPoll::Ready));
}

#[test]
fn optional_absent_child_is_ready() {
    let mut loader = small_loader();
    let fields = vec![FieldInfo::External(External::Opt { type_id: 3, id: None })];
    let (mut futures, tasks) = decode_fields(&mut loader, &fields);
    assert!(tasks.is_empty());
    assert!(matches!(poll_fields(&mut loader, &mut futures), JoinPoll::Ready));
}

#[test]
fn first_failing_child_cancels_join() {
    let mut loader = small_loader();
    let a = AssetId::new(20).unwrap();
    let b = AssetId::new(21).unwrap();
    let fields = vec![
        FieldInfo::External(External::Id { type_id: 4, id: a }),
        FieldInfo::External(External::Id { type_id: 4, id: b }),
    ];
    let (mut futures, _tasks) = decode_fields(&mut loader, &fields);

    let error = Error::Decode { type_id: 4, payload: 9 };
    loader.apply_load_outcome(4, a, LoadOutcome::Error { error });
    match poll_fields(&mut loader, &mut futures) {
        JoinPoll::Failed { error } => assert!(error.is_decode_error(4)),
        _ => panic!("the failed child cancels the join"),
    }
}

#[test]
fn join_reports_the_first_failing_field() {
    // Both children fail; the join's error is the first field's, in field
    // order, whatever order the failures were committed in.
    let mut loader = small_loader();
    let a = AssetId::new(40).unwrap();
    let b = AssetId::new(41).unwrap();
    let fields = vec![
        FieldInfo::External(External::Id { type_id: 6, id: a }),
        FieldInfo::External(External::Id { type_id: 6, id: b }),
    ];
    let (mut futures, _tasks) = decode_fields(&mut loader, &fields);
    let second = Error::Decode { type_id: 6, payload: 2 };
    loader.apply_load_outcome(6, b, LoadOutcome::Error { error: second });
    let first = Error::Decode { type_id: 6, payload: 1 };
    loader.apply_load_outcome(6, a, LoadOutcome::Error { error: first });
    match poll_fields(&mut loader, &mut futures) {
        JoinPoll::Failed { error } => {
            assert_eq!(error, Error::Decode { type_id: 6, payload: 1 });
        }
        _ => panic!("the first failing field cancels the join"),
    }
}

#[test]
fn children_build_through_their_handles() {
    // After the join, each child is built through its own handle; the
    // composite's build then reads the children's assets.
    let mut loader = small_loader();
    let a = AssetId::new(30).unwrap();
    let fields = vec![FieldInfo::External(External::Id { type_id: 5, id: a })];
    let (mut futures, _tasks) = decode_fields(&mut loader, &fields);
    loader.apply_load_outcome(5, a, LoadOutcome::Loaded { decoded: 6, version: 0, source: 0 });
    assert!(matches!(poll_fields(&mut loader, &mut futures), JoinPoll::Ready));
    match &mut futures[0] {
        FieldFuture::Child(h) => {
            match h.poll_build_step(&mut loader, None) {
                Some(BuildStep::Run { decoded, .. }) => {
                    assert_eq!(decoded, 6);
                    h.finish_build(&mut loader, Ok(60));
                }
                _ => panic!("expected to run the child's build"),
            }
            assert_eq!(h.poll_ready(&mut loader, None), Some(Ok(60)));
        }
        _ => panic!("external field holds the child handle"),
    }
}

use fedbot::batch::{delete_batches, DeleteCall, MAX_BULK_DELETE};

fn ids(n: u64) -> Vec<u64> {
    (1..=n).collect()
}

#[test]
fn no_ids_no_calls() {
    assert!(delete_batches(&ids(0), MAX_BULK_DELETE).is_empty());
}

#[test]
fn exactly_one_batch_is_one_bulk_call() {
    let calls = delete_batches(&ids(100), MAX_BULK_DELETE);
    assert_eq!(calls.len(), 1);
    match &calls[0] {
        DeleteCall::Bulk(v) => assert_eq!(v, &ids(100)),
        other => panic!("unexpected {:?}", other),
    }
}

#[test]
fn one_over_a_batch_ends_with_a_single_delete() {
    let calls = delete_batches(&ids(101), MAX_BULK_DELETE);
    assert_eq!(calls.len(), 2);
    match &calls[0] {
        DeleteCall::Bulk(v) => assert_eq!(v.len(), 100),
        other => panic!("unexpected {:?}", other),
    }
    match &calls[1] {
        DeleteCall::Single(id) => assert_eq!(*id, 101),
        other => panic!("unexpected {:?}", other),
    }
}

#[test]
fn half_a_batch_over_is_a_second_bulk_call() {
    let calls = delete_batches(&ids(150), MAX_BULK_DELETE);
    assert_eq!(calls.len(), 2);
    match (&calls[0], &calls[1]) {
        (DeleteCall::Bulk(a), DeleteCall::Bulk(b)) => {
            assert_eq!(a, &ids(100));
            assert_eq!(b, &(101..=150).collect::<Vec<u64>>());
        }
        other => panic!("unexpected {:?}", other),
    }
}

#[test]
fn a_single_id_is_a_single_delete() {
    let calls = delete_batches(&vec![42], MAX_BULK_DELETE);
    assert_eq!(calls.len(), 1);
    assert!(matches!(calls[0], DeleteCall::Single(42)));
}

#[test]
fn calls_cover_the_ids_in_order() {
    let all = ids(1234);
    let calls = delete_batches(&all, 100);
    let mut seen = vec![];
    for c in &calls {
        match c {
            DeleteCall::Bulk(v) => {
                assert!(v.len() > 1 && v.len() <= 100);
                seen.extend_from_slice(v);
            }
            DeleteCall::Single(id) => seen.push(*id),
        }
    }
    assert_eq!(seen, all);
    assert_eq!(calls.len(), 13);
}

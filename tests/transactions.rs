use svm_stm::bodies::{get_val, read_required, write_outputs};
use svm_stm::keys::key_bytes;
use svm_stm::memory::SVMMemory;
use svm_stm::primitive::{SVMObject, SVMPrimitives};
use svm_stm::transaction::{Step, Transaction};

fn key(s: &str) -> Vec<u8> {
    s.as_bytes().to_vec()
}

fn scalar(n: u32) -> SVMPrimitives {
    SVMPrimitives::U24(n)
}

fn stored(tm: &SVMMemory, k: &str) -> Option<(SVMPrimitives, u64)> {
    tm.get(key(k)).map(|o| (o.value, o.version))
}

/// Runs one attempt that writes `value` to `k` and settles it.
fn commit_write(tm: &mut SVMMemory, k: &str, value: SVMPrimitives) -> Step<()> {
    let mut txn = Transaction::new();
    txn.write(key(k), value);
    txn.settle(tm, Ok(()))
}

#[test]
fn scenario_a_single_write_creates_version_one() {
    let mut tm = SVMMemory::new();
    let step = commit_write(&mut tm, "x", scalar(0));
    assert!(matches!(step, Step::Done(Ok(()))));
    assert_eq!(stored(&tm, "x"), Some((scalar(0), 1)));
}

#[test]
fn scenario_b_stale_attempt_retries_then_commits() {
    let mut tm = SVMMemory::new();
    commit_write(&mut tm, "x", scalar(0));
    assert_eq!(stored(&tm, "x"), Some((scalar(0), 1)));

    let mut first = Transaction::new();
    let mut second = Transaction::new();
    assert_eq!(first.read(&tm, key("x")), Some(scalar(0)));
    assert_eq!(second.read(&tm, key("x")), Some(scalar(0)));

    first.write(key("x"), scalar(1));
    assert!(matches!(first.settle(&mut tm, Ok(())), Step::Done(Ok(()))));
    assert_eq!(stored(&tm, "x"), Some((scalar(1), 2)));

    second.write(key("x"), scalar(2));
    assert!(matches!(second.settle(&mut tm, Ok(())), Step::Retry));
    assert_eq!(stored(&tm, "x"), Some((scalar(1), 2)));

    let mut retry = Transaction::new();
    assert_eq!(retry.read(&tm, key("x")), Some(scalar(1)));
    retry.write(key("x"), scalar(2));
    assert!(matches!(retry.settle(&mut tm, Ok(())), Step::Done(Ok(()))));
    assert_eq!(stored(&tm, "x"), Some((scalar(2), 3)));
}

#[test]
fn scenario_c_missing_key_fails_without_retry() {
    let mut tm = SVMMemory::new();
    let mut txn = Transaction::new();
    assert_eq!(txn.read(&tm, key("y")), None);
    let body = read_required(&mut txn, &tm, "y");
    assert_eq!(body, Err("key=y does not exist".to_string()));
    match txn.settle(&mut tm, body) {
        Step::Done(Err(e)) => assert_eq!(e, "key=y does not exist"),
        other => panic!("unexpected step {:?}", other),
    }
    assert_eq!(stored(&tm, "y"), None);
}

#[test]
fn scenario_d_disjoint_writers_both_commit_first_time() {
    let mut tm = SVMMemory::new();
    let mut a = Transaction::new();
    let mut b = Transaction::new();
    a.write(key("a"), scalar(10));
    b.write(key("b"), scalar(20));
    assert!(matches!(a.settle(&mut tm, Ok(())), Step::Done(Ok(()))));
    assert!(matches!(b.settle(&mut tm, Ok(())), Step::Done(Ok(()))));
    assert_eq!(stored(&tm, "a"), Some((scalar(10), 1)));
    assert_eq!(stored(&tm, "b"), Some((scalar(20), 1)));
}

#[test]
fn disjoint_readers_and_writers_commit_in_either_order() {
    let run = |first_a: bool| {
        let mut tm = SVMMemory::new();
        commit_write(&mut tm, "a", scalar(1));
        commit_write(&mut tm, "b", scalar(2));
        let mut a = Transaction::new();
        let mut b = Transaction::new();
        let va = a.read(&tm, key("a")).unwrap();
        let vb = b.read(&tm, key("b")).unwrap();
        a.write(key("a"), SVMPrimitives::Tup(vec![va]));
        b.write(key("b"), SVMPrimitives::Tup(vec![vb]));
        if first_a {
            assert!(a.commit(&mut tm).is_ok());
            assert!(b.commit(&mut tm).is_ok());
        } else {
            assert!(b.commit(&mut tm).is_ok());
            assert!(a.commit(&mut tm).is_ok());
        }
        (stored(&tm, "a"), stored(&tm, "b"))
    };
    let forward = run(true);
    assert_eq!(forward, run(false));
    assert_eq!(forward.0, Some((SVMPrimitives::Tup(vec![scalar(1)]), 2)));
    assert_eq!(forward.1, Some((SVMPrimitives::Tup(vec![scalar(2)]), 2)));
}

#[test]
fn read_returns_own_write_over_store_value() {
    let mut tm = SVMMemory::new();
    commit_write(&mut tm, "k", scalar(5));
    let mut txn = Transaction::new();
    txn.write(key("k"), scalar(9));
    assert_eq!(txn.read(&tm, key("k")), Some(scalar(9)));
    txn.write(key("k"), SVMPrimitives::Era);
    assert_eq!(txn.read(&tm, key("k")), Some(SVMPrimitives::Era));
    assert_eq!(stored(&tm, "k"), Some((scalar(5), 1)));
}

#[test]
fn conflicting_commit_applies_none_of_its_writes() {
    let mut tm = SVMMemory::new();
    commit_write(&mut tm, "x", scalar(0));
    let mut txn = Transaction::new();
    txn.read(&tm, key("x"));
    txn.write(key("y"), scalar(7));
    txn.write(key("z"), scalar(8));
    commit_write(&mut tm, "x", scalar(3));
    assert!(!txn.validate(&tm));
    assert!(txn.commit(&mut tm).is_err());
    assert_eq!(stored(&tm, "y"), None);
    assert_eq!(stored(&tm, "z"), None);
    assert_eq!(stored(&tm, "x"), Some((scalar(3), 2)));
}

#[test]
fn later_reads_keep_first_observed_version() {
    let mut tm = SVMMemory::new();
    commit_write(&mut tm, "x", scalar(0));
    let mut txn = Transaction::new();
    assert_eq!(txn.read(&tm, key("x")), Some(scalar(0)));
    commit_write(&mut tm, "x", scalar(1));
    // the second read sees the new value but the recorded version stays 1
    assert_eq!(txn.read(&tm, key("x")), Some(scalar(1)));
    assert!(!txn.validate(&tm));
}

#[test]
fn read_of_absent_key_is_not_recorded() {
    let mut tm = SVMMemory::new();
    let mut txn = Transaction::new();
    assert_eq!(txn.read(&tm, key("ghost")), None);
    commit_write(&mut tm, "ghost", scalar(1));
    assert!(txn.validate(&tm));
    txn.write(key("other"), scalar(2));
    assert!(txn.commit(&mut tm).is_ok());
    assert_eq!(stored(&tm, "other"), Some((scalar(2), 1)));
}

#[test]
fn versions_grow_by_one_per_committed_write() {
    let mut tm = SVMMemory::new();
    for expected in 1..=5u64 {
        commit_write(&mut tm, "v", scalar(expected as u32));
        assert_eq!(stored(&tm, "v"), Some((scalar(expected as u32), expected)));
    }
}

#[test]
fn apply_starts_from_current_version() {
    let mut tm = SVMMemory::new();
    tm.set(key("s"), SVMObject { value: scalar(1), version: 41 });
    let mut txn = Transaction::new();
    txn.write(key("s"), scalar(2));
    txn.write(key("fresh"), scalar(3));
    assert!(txn.versions_fit(&tm));
    txn.apply(&mut tm);
    assert_eq!(stored(&tm, "s"), Some((scalar(2), 42)));
    assert_eq!(stored(&tm, "fresh"), Some((scalar(3), 1)));
}

#[test]
fn versions_do_not_fit_at_the_largest_version() {
    let mut tm = SVMMemory::new();
    tm.set(key("top"), SVMObject { value: scalar(1), version: u64::MAX });
    let mut txn = Transaction::new();
    txn.write(key("other"), scalar(1));
    assert!(txn.versions_fit(&tm));
    txn.write(key("top"), scalar(2));
    assert!(!txn.versions_fit(&tm));
}

#[test]
fn store_set_overwrites_and_get_reads_back() {
    let mut tm = SVMMemory::new();
    assert_eq!(stored(&tm, "k"), None);
    tm.set(key("k"), SVMObject { value: scalar(1), version: 7 });
    tm.set(key("k"), SVMObject { value: SVMPrimitives::Era, version: 3 });
    assert_eq!(stored(&tm, "k"), Some((SVMPrimitives::Era, 3)));
}

#[test]
fn rollback_discards_buffered_writes() {
    let mut tm = SVMMemory::new();
    let mut txn = Transaction::new();
    txn.write(key("w"), scalar(1));
    txn.rollback();
    assert_eq!(txn.read(&tm, key("w")), None);
    assert!(txn.commit(&mut tm).is_ok());
    assert_eq!(stored(&tm, "w"), None);
}

#[test]
fn write_outputs_maps_tuple_onto_objects() {
    let mut tm = SVMMemory::new();
    let mut txn = Transaction::new();
    let result = SVMPrimitives::Tup(vec![scalar(4), scalar(6)]);
    let keys = vec![key("0x1"), key("0x0")];
    let r = write_outputs(&mut txn, &keys, result.clone());
    assert_eq!(r, Ok(result));
    assert!(matches!(txn.settle(&mut tm, Ok(())), Step::Done(Ok(()))));
    assert_eq!(stored(&tm, "0x1"), Some((scalar(4), 1)));
    assert_eq!(stored(&tm, "0x0"), Some((scalar(6), 1)));
}

#[test]
fn write_outputs_same_object_twice_keeps_last() {
    let mut txn = Transaction::new();
    let tm = SVMMemory::new();
    let keys = vec![key("a"), key("a")];
    let r = write_outputs(&mut txn, &keys, SVMPrimitives::Tup(vec![scalar(1), scalar(2)]));
    assert!(r.is_ok());
    assert_eq!(txn.read(&tm, key("a")), Some(scalar(2)));
}

#[test]
fn write_outputs_rejects_wrong_shapes() {
    let mut tm = SVMMemory::new();
    let keys = vec![key("p"), key("q")];
    let mut txn = Transaction::new();
    let short = write_outputs(&mut txn, &keys, SVMPrimitives::Tup(vec![scalar(1)]));
    assert_eq!(short, Err("unexpected type of result".to_string()));
    let scalar_result = write_outputs(&mut txn, &keys, scalar(1));
    assert_eq!(scalar_result, Err("unexpected type of result".to_string()));
    let empty = write_outputs(&mut txn, &keys, SVMPrimitives::Era);
    assert_eq!(empty, Err("unexpected type of result".to_string()));
    assert!(txn.commit(&mut tm).is_ok());
    assert_eq!(stored(&tm, "p"), None);
}

#[test]
fn read_required_returns_present_value() {
    let mut tm = SVMMemory::new();
    commit_write(&mut tm, "0x3", scalar(30));
    let mut txn = Transaction::new();
    assert_eq!(read_required(&mut txn, &tm, "0x3"), Ok(scalar(30)));
}

#[test]
fn get_val_reads_present_and_absent_keys() {
    let mut tm = SVMMemory::new();
    commit_write(&mut tm, "0x9", SVMPrimitives::Tup(vec![scalar(1), SVMPrimitives::Era]));
    assert_eq!(
        get_val(&tm, "0x9".to_string()),
        Some(SVMPrimitives::Tup(vec![scalar(1), SVMPrimitives::Era]))
    );
    assert_eq!(get_val(&tm, "0x8".to_string()), None);
    assert_eq!(key_bytes("0x9"), key("0x9"));
}

#[test]
fn clone_copies_nested_values() {
    let v = SVMPrimitives::Tup(vec![
        scalar(1),
        SVMPrimitives::Tup(vec![scalar(2), SVMPrimitives::Era]),
    ]);
    let c = v.clone();
    assert_eq!(c, v);
    assert_eq!(v.deep_copy(), v);
    let o = SVMObject { value: v.clone(), version: 4 };
    assert_eq!(o.clone(), o);
}

#[test]
fn three_disjoint_attempts_end_alike_in_every_order() {
    let orders: [[usize; 3]; 6] = [[0, 1, 2], [0, 2, 1], [1, 0, 2], [1, 2, 0], [2, 0, 1], [2, 1, 0]];
    let mut finals = Vec::new();
    for order in orders {
        let mut tm = SVMMemory::new();
        commit_write(&mut tm, "r", scalar(1));
        let mut attempts = vec![Transaction::new(), Transaction::new(), Transaction::new()];
        attempts[0].write(key("p"), scalar(10));
        let seen = attempts[1].read(&tm, key("r")).unwrap();
        attempts[1].write(key("r"), SVMPrimitives::Tup(vec![seen, scalar(2)]));
        attempts[2].write(key("q"), scalar(30));
        attempts[2].write(key("q2"), scalar(31));
        for i in order {
            assert!(attempts[i].commit(&mut tm).is_ok());
        }
        finals.push((stored(&tm, "p"), stored(&tm, "r"), stored(&tm, "q"), stored(&tm, "q2")));
    }
    for f in &finals {
        assert_eq!(f, &finals[0]);
    }
    assert_eq!(finals[0].1, Some((SVMPrimitives::Tup(vec![scalar(1), scalar(2)]), 2)));
    assert_eq!(finals[0].3, Some((scalar(31), 1)));
}

#[test]
fn body_error_returned_even_when_write_targets_top_version() {
    let mut tm = SVMMemory::new();
    tm.set(key("top"), SVMObject { value: scalar(1), version: u64::MAX });
    let mut txn = Transaction::new();
    txn.write(key("top"), scalar(2));
    match txn.settle::<()>(&mut tm, Err("boom".to_string())) {
        Step::Done(Err(e)) => assert_eq!(e, "boom"),
        other => panic!("unexpected step {:?}", other),
    }
    assert_eq!(stored(&tm, "top"), Some((scalar(1), u64::MAX)));
}

#[test]
fn stale_attempt_writing_top_version_key_is_retried() {
    let mut tm = SVMMemory::new();
    commit_write(&mut tm, "x", scalar(0));
    tm.set(key("top"), SVMObject { value: scalar(1), version: u64::MAX });
    let mut txn = Transaction::new();
    txn.read(&tm, key("x"));
    txn.write(key("top"), scalar(2));
    commit_write(&mut tm, "x", scalar(5));
    assert!(!txn.versions_fit(&tm));
    assert!(matches!(txn.settle(&mut tm, Ok(())), Step::Retry));
    assert_eq!(stored(&tm, "top"), Some((scalar(1), u64::MAX)));
}

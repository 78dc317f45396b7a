//! Properties of the commit protocol, stated over the store model and proved.
use crate::memory::version_of;
use crate::primitive::{Primitive, SVMObject};
use crate::transaction::{applied, commit_fits, commit_outcome, fits, read_value, validates, StoreView};
use vstd::prelude::*;

verus! {

/// The store after the attempts commit one after the other, each against the
/// store that the earlier ones left (an attempt that fails validation
/// leaves the store as it was).
pub open spec fn run_commits(
    store: StoreView,
    attempts: Seq<(StoreView, Map<Seq<u8>, Primitive>)>,
) -> StoreView
    decreases attempts.len(),
{
    if attempts.len() == 0 {
        store
    } else {
        commit_outcome(
            run_commits(store, attempts.drop_last()),
            attempts.last().0,
            attempts.last().1,
        )
    }
}

/// Every attempt of the run meets the commit precondition when its turn comes.
pub open spec fn all_fit(store: StoreView, attempts: Seq<(StoreView, Map<Seq<u8>, Primitive>)>) -> bool {
    forall|i: int|
        0 <= i < attempts.len() ==> #[trigger] commit_fits(
            run_commits(store, attempts.take(i)),
            attempts[i].0,
            attempts[i].1,
        )
}

/// Some attempt of the run passes validation and writes `key`.
pub open spec fn commits_write_to(
    store: StoreView,
    attempts: Seq<(StoreView, Map<Seq<u8>, Primitive>)>,
    key: Seq<u8>,
) -> bool {
    exists|i: int|
        0 <= i < attempts.len() && validates(run_commits(store, attempts.take(i)), attempts[i].0)
            && #[trigger] attempts[i].1.contains_key(key)
}

/// The keys that an attempt reads or writes.
pub open spec fn touched(reads: StoreView, writes: Map<Seq<u8>, Primitive>) -> Set<Seq<u8>> {
    reads.dom().union(writes.dom())
}

/// Read-your-writes: once an attempt has written `value` to `key`, reading
/// `key` in that attempt returns `value`, whatever the store holds.
pub proof fn read_your_writes(
    writes: Map<Seq<u8>, Primitive>,
    store: StoreView,
    key: Seq<u8>,
    value: Primitive,
)
    ensures
        read_value(writes.insert(key, value), store, key) == Some(value),
{
}

/// A commit never lowers a version, and a commit that passes validation
/// raises the version of each key it writes by exactly one.
pub proof fn commit_raises_versions(
    store: StoreView,
    reads: StoreView,
    writes: Map<Seq<u8>, Primitive>,
    key: Seq<u8>,
)
    requires
        commit_fits(store, reads, writes),
    ensures
        version_of(commit_outcome(store, reads, writes), key) >= version_of(store, key),
        validates(store, reads) && writes.contains_key(key) ==> version_of(
            commit_outcome(store, reads, writes),
            key,
        ) == version_of(store, key) + 1,
        !(validates(store, reads) && writes.contains_key(key)) ==> version_of(
            commit_outcome(store, reads, writes),
            key,
        ) == version_of(store, key),
{
}

proof fn lemma_prefix_fits(store: StoreView, attempts: Seq<(StoreView, Map<Seq<u8>, Primitive>)>)
    requires
        attempts.len() > 0,
        all_fit(store, attempts),
    ensures
        all_fit(store, attempts.drop_last()),
        commit_fits(run_commits(store, attempts.drop_last()), attempts.last().0, attempts.last().1),
{
    let prefix = attempts.drop_last();
    assert forall|i: int| 0 <= i < prefix.len() implies #[trigger] commit_fits(
        run_commits(store, prefix.take(i)),
        prefix[i].0,
        prefix[i].1,
    ) by {
        assert(prefix.take(i) =~= attempts.take(i));
        assert(commit_fits(run_commits(store, attempts.take(i)), attempts[i].0, attempts[i].1));
    }
    assert(attempts.take(prefix.len() as int) =~= prefix);
    assert(commit_fits(
        run_commits(store, attempts.take(prefix.len() as int)),
        attempts[prefix.len() as int].0,
        attempts[prefix.len() as int].1,
    ));
}

/// Version monotonicity over a run of commits: the version of a key never
/// goes down, and it goes up whenever some commit of the run writes the key.
pub proof fn versions_increase_over_run(
    store: StoreView,
    attempts: Seq<(StoreView, Map<Seq<u8>, Primitive>)>,
    key: Seq<u8>,
)
    requires
        all_fit(store, attempts),
    ensures
        version_of(run_commits(store, attempts), key) >= version_of(store, key),
        commits_write_to(store, attempts, key) ==> version_of(run_commits(store, attempts), key)
            > version_of(store, key),
    decreases attempts.len(),
{
    if attempts.len() > 0 {
        let prefix = attempts.drop_last();
        let last = attempts.last();
        lemma_prefix_fits(store, attempts);
        versions_increase_over_run(store, prefix, key);
        let mid = run_commits(store, prefix);
        commit_raises_versions(mid, last.0, last.1, key);
        if commits_write_to(store, attempts, key) {
            let i = choose|i: int|
                0 <= i < attempts.len() && validates(run_commits(store, attempts.take(i)), attempts[i].0)
                    && #[trigger] attempts[i].1.contains_key(key);
            if i < prefix.len() {
                assert(prefix.take(i) =~= attempts.take(i));
                assert(prefix[i] == attempts[i]);
                assert(commits_write_to(store, prefix, key));
            } else {
                assert(attempts.take(i) =~= prefix);
            }
        }
    }
}

/// A stale read forces a retry: if an attempt recorded `key` at the version
/// the store held, and a run of commits then includes one that writes `key`,
/// the attempt fails validation and its commit leaves the store unchanged.
pub proof fn stale_read_fails_validation(
    store: StoreView,
    attempts: Seq<(StoreView, Map<Seq<u8>, Primitive>)>,
    reads: StoreView,
    writes: Map<Seq<u8>, Primitive>,
    key: Seq<u8>,
)
    requires
        reads.contains_key(key),
        reads[key].version == version_of(store, key),
        all_fit(store, attempts),
        commits_write_to(store, attempts, key),
    ensures
        !validates(run_commits(store, attempts), reads),
        commit_outcome(run_commits(store, attempts), reads, writes) == run_commits(store, attempts),
{
    versions_increase_over_run(store, attempts, key);
}

/// Attempts over disjoint keys do not interact: each validates after the
/// other's commit exactly as it did before it, each can still be applied,
/// and committing them in either order leaves the same store.
pub proof fn disjoint_commits_commute(
    store: StoreView,
    reads1: StoreView,
    writes1: Map<Seq<u8>, Primitive>,
    reads2: StoreView,
    writes2: Map<Seq<u8>, Primitive>,
)
    requires
        touched(reads1, writes1).disjoint(touched(reads2, writes2)),
        commit_fits(store, reads1, writes1),
        commit_fits(store, reads2, writes2),
    ensures
        validates(commit_outcome(store, reads1, writes1), reads2) == validates(store, reads2),
        validates(commit_outcome(store, reads2, writes2), reads1) == validates(store, reads1),
        commit_fits(commit_outcome(store, reads1, writes1), reads2, writes2),
        commit_fits(commit_outcome(store, reads2, writes2), reads1, writes1),
        commit_outcome(commit_outcome(store, reads1, writes1), reads2, writes2) == commit_outcome(
            commit_outcome(store, reads2, writes2),
            reads1,
            writes1,
        ),
{
    let s1 = commit_outcome(store, reads1, writes1);
    let s2 = commit_outcome(store, reads2, writes2);
    assert forall|k: Seq<u8>| #[trigger] writes1.contains_key(k) implies !touched(reads2, writes2).contains(k) by {
        assert(touched(reads1, writes1).contains(k));
    }
    assert forall|k: Seq<u8>| #[trigger] writes2.contains_key(k) implies !touched(reads1, writes1).contains(k) by {
        assert(touched(reads2, writes2).contains(k));
    }
    assert forall|k: Seq<u8>| #[trigger] reads2.contains_key(k) implies !writes1.contains_key(k) by {
        assert(touched(reads2, writes2).contains(k));
    }
    assert forall|k: Seq<u8>| #[trigger] reads1.contains_key(k) implies !writes2.contains_key(k) by {
        assert(touched(reads1, writes1).contains(k));
    }
    assert(validates(s1, reads2) == validates(store, reads2));
    assert(validates(s2, reads1) == validates(store, reads1));
    if validates(store, reads2) {
        assert(fits(s1, writes2));
    }
    if validates(store, reads1) {
        assert(fits(s2, writes1));
    }
    assert(commit_outcome(s1, reads2, writes2) =~= commit_outcome(s2, reads1, writes1));
}


/// No two attempts of the run touch a common key.
pub open spec fn pairwise_disjoint(attempts: Seq<(StoreView, Map<Seq<u8>, Primitive>)>) -> bool {
    forall|i: int, j: int|
        0 <= i < j < attempts.len() ==> #[trigger] touched(attempts[i].0, attempts[i].1).disjoint(
            #[trigger] touched(attempts[j].0, attempts[j].1),
        )
}

/// An attempt of the collection that, run alone on `store`, commits a write to `key`.
pub open spec fn alone_writes(
    store: StoreView,
    attempts: Seq<(StoreView, Map<Seq<u8>, Primitive>)>,
    key: Seq<u8>,
    a: (StoreView, Map<Seq<u8>, Primitive>),
) -> bool {
    attempts.contains(a) && validates(store, a.0) && a.1.contains_key(key)
}

/// The store when each attempt of the collection commits as if it ran alone
/// on `store`. It depends on which attempts there are, not on their order.
pub open spec fn each_alone(
    store: StoreView,
    attempts: Seq<(StoreView, Map<Seq<u8>, Primitive>)>,
) -> StoreView {
    Map::new(
        |k: Seq<u8>|
            store.contains_key(k) || exists|a: (StoreView, Map<Seq<u8>, Primitive>)|
                #[trigger] alone_writes(store, attempts, k, a),
        |k: Seq<u8>|
            if exists|a: (StoreView, Map<Seq<u8>, Primitive>)| #[trigger] alone_writes(store, attempts, k, a) {
                let a = choose|a: (StoreView, Map<Seq<u8>, Primitive>)|
                    #[trigger] alone_writes(store, attempts, k, a);
                SVMObject { value: a.1[k], version: (version_of(store, k) + 1) as u64 }
            } else {
                store[k]
            },
    )
}

proof fn lemma_unique_writer(
    store: StoreView,
    attempts: Seq<(StoreView, Map<Seq<u8>, Primitive>)>,
    key: Seq<u8>,
    a: (StoreView, Map<Seq<u8>, Primitive>),
    b: (StoreView, Map<Seq<u8>, Primitive>),
)
    requires
        pairwise_disjoint(attempts),
        attempts.contains(a) && a.1.contains_key(key),
        attempts.contains(b) && b.1.contains_key(key),
    ensures
        a == b,
{
    let i = choose|i: int| 0 <= i < attempts.len() && attempts[i] == a;
    let j = choose|j: int| 0 <= j < attempts.len() && attempts[j] == b;
    assert(touched(a.0, a.1).contains(key));
    assert(touched(b.0, b.1).contains(key));
    if i < j {
        assert(touched(attempts[i].0, attempts[i].1).disjoint(touched(attempts[j].0, attempts[j].1)));
    } else if j < i {
        assert(touched(attempts[j].0, attempts[j].1).disjoint(touched(attempts[i].0, attempts[i].1)));
    }
}

/// Serializability of attempts over disjoint keys: committing them one after
/// the other, in the order given, leaves the store that each leaves when it
/// runs alone on the initial store. Every order of the same attempts
/// therefore ends in the same store.
pub proof fn disjoint_run_matches_each_alone(
    store: StoreView,
    attempts: Seq<(StoreView, Map<Seq<u8>, Primitive>)>,
)
    requires
        pairwise_disjoint(attempts),
        forall|i: int| 0 <= i < attempts.len() ==> commit_fits(store, attempts[i].0, #[trigger] attempts[i].1),
    ensures
        all_fit(store, attempts),
        run_commits(store, attempts) == each_alone(store, attempts),
    decreases attempts.len(),
{
    if attempts.len() == 0 {
        assert(run_commits(store, attempts) =~= each_alone(store, attempts));
        assert(all_fit(store, attempts));
    } else {
        let prefix = attempts.drop_last();
        let last = attempts.last();
        let n = prefix.len() as int;
        assert(pairwise_disjoint(prefix)) by {
            assert forall|i: int, j: int| 0 <= i < j < prefix.len() implies #[trigger] touched(
                prefix[i].0,
                prefix[i].1,
            ).disjoint(#[trigger] touched(prefix[j].0, prefix[j].1)) by {
                assert(prefix[i] == attempts[i] && prefix[j] == attempts[j]);
            }
        }
        assert forall|i: int| 0 <= i < prefix.len() implies commit_fits(store, prefix[i].0, #[trigger] prefix[i].1) by {
            assert(prefix[i] == attempts[i]);
        }
        disjoint_run_matches_each_alone(store, prefix);
        let mid = run_commits(store, prefix);
        assert(mid == each_alone(store, prefix));
        assert(last == attempts[n]);
        // keys that the last attempt touches are left alone by the earlier ones
        assert forall|k: Seq<u8>, a: (StoreView, Map<Seq<u8>, Primitive>)|
            touched(last.0, last.1).contains(k) && prefix.contains(a) implies !a.1.contains_key(k) by {
            let i = choose|i: int| 0 <= i < prefix.len() && prefix[i] == a;
            assert(attempts[i] == a);
            assert(touched(attempts[i].0, attempts[i].1).disjoint(touched(attempts[n].0, attempts[n].1)));
            if a.1.contains_key(k) {
                assert(touched(a.0, a.1).contains(k));
            }
        }
        assert forall|k: Seq<u8>| touched(last.0, last.1).contains(k) implies (mid.contains_key(k)
            == store.contains_key(k) && (store.contains_key(k) ==> mid[k] == store[k])) by {
            if exists|a: (StoreView, Map<Seq<u8>, Primitive>)| #[trigger] alone_writes(store, prefix, k, a) {
                let a = choose|a: (StoreView, Map<Seq<u8>, Primitive>)| #[trigger] alone_writes(store, prefix, k, a);
                assert(prefix.contains(a));
            }
        }
        assert(validates(mid, last.0) == validates(store, last.0)) by {
            assert forall|k: Seq<u8>| #[trigger] last.0.contains_key(k) implies touched(last.0, last.1).contains(k) by {}
        }
        assert(commit_fits(mid, last.0, last.1)) by {
            if validates(store, last.0) {
                assert forall|k: Seq<u8>| #[trigger] last.1.contains_key(k) implies version_of(mid, k)
                    < u64::MAX by {
                    assert(touched(last.0, last.1).contains(k));
                    assert(commit_fits(store, attempts[n].0, attempts[n].1));
                }
            }
        }
        assert(all_fit(store, attempts)) by {
            assert forall|i: int| 0 <= i < attempts.len() implies #[trigger] commit_fits(
                run_commits(store, attempts.take(i)),
                attempts[i].0,
                attempts[i].1,
            ) by {
                if i < n {
                    assert(attempts.take(i) =~= prefix.take(i));
                    assert(attempts[i] == prefix[i]);
                    assert(commit_fits(run_commits(store, prefix.take(i)), prefix[i].0, prefix[i].1));
                } else {
                    assert(attempts.take(i) =~= prefix);
                }
            }
        }
        let whole = each_alone(store, attempts);
        let result = commit_outcome(mid, last.0, last.1);
        assert forall|k: Seq<u8>| #![trigger result.dom().contains(k)] #![trigger whole.dom().contains(k)]
            result.contains_key(k) == whole.contains_key(k) && (result.contains_key(k) ==> result[k]
                == whole[k]) by {
            if validates(store, last.0) && last.1.contains_key(k) {
                assert(alone_writes(store, attempts, k, last));
                let a = choose|a: (StoreView, Map<Seq<u8>, Primitive>)| #[trigger] alone_writes(store, attempts, k, a);
                assert(attempts.contains(last));
                lemma_unique_writer(store, attempts, k, a, last);
                assert(touched(last.0, last.1).contains(k));
            } else {
                // the writers of `k` among all attempts are those among the earlier ones
                assert forall|a: (StoreView, Map<Seq<u8>, Primitive>)|
                    alone_writes(store, attempts, k, a) == alone_writes(store, prefix, k, a) by {
                    if alone_writes(store, attempts, k, a) {
                        let i = choose|i: int| 0 <= i < attempts.len() && attempts[i] == a;
                        if i == n {
                            assert(a == last);
                        } else {
                            assert(prefix[i] == a);
                        }
                    }
                    if alone_writes(store, prefix, k, a) {
                        let i = choose|i: int| 0 <= i < prefix.len() && prefix[i] == a;
                        assert(attempts[i] == a);
                    }
                }
                if exists|a: (StoreView, Map<Seq<u8>, Primitive>)| #[trigger] alone_writes(store, attempts, k, a) {
                    let a = choose|a: (StoreView, Map<Seq<u8>, Primitive>)| #[trigger] alone_writes(store, attempts, k, a);
                    assert(alone_writes(store, prefix, k, a));
                    let b = choose|b: (StoreView, Map<Seq<u8>, Primitive>)| #[trigger] alone_writes(store, prefix, k, b);
                    lemma_unique_writer(store, attempts, k, a, b);
                }
            }
        }
        assert(result =~= whole);
    }
}

/// Two runs of the same attempts over disjoint keys, in any two orders, end
/// in the same store.
pub proof fn disjoint_runs_agree(
    store: StoreView,
    attempts1: Seq<(StoreView, Map<Seq<u8>, Primitive>)>,
    attempts2: Seq<(StoreView, Map<Seq<u8>, Primitive>)>,
)
    requires
        pairwise_disjoint(attempts1),
        pairwise_disjoint(attempts2),
        forall|i: int| 0 <= i < attempts1.len() ==> commit_fits(store, attempts1[i].0, #[trigger] attempts1[i].1),
        forall|i: int| 0 <= i < attempts2.len() ==> commit_fits(store, attempts2[i].0, #[trigger] attempts2[i].1),
        forall|a: (StoreView, Map<Seq<u8>, Primitive>)| attempts1.contains(a) <==> attempts2.contains(a),
    ensures
        run_commits(store, attempts1) == run_commits(store, attempts2),
{
    disjoint_run_matches_each_alone(store, attempts1);
    disjoint_run_matches_each_alone(store, attempts2);
    let e1 = each_alone(store, attempts1);
    let e2 = each_alone(store, attempts2);
    assert forall|k: Seq<u8>| #![trigger e1.dom().contains(k)] #![trigger e2.dom().contains(k)]
        e1.contains_key(k) == e2.contains_key(k) && (e1.contains_key(k) ==> e1[k] == e2[k]) by {
        assert forall|a: (StoreView, Map<Seq<u8>, Primitive>)|
            alone_writes(store, attempts1, k, a) == alone_writes(store, attempts2, k, a) by {}
        if exists|a: (StoreView, Map<Seq<u8>, Primitive>)| #[trigger] alone_writes(store, attempts1, k, a) {
            let a = choose|a: (StoreView, Map<Seq<u8>, Primitive>)| #[trigger] alone_writes(store, attempts1, k, a);
            let b = choose|b: (StoreView, Map<Seq<u8>, Primitive>)| #[trigger] alone_writes(store, attempts2, k, b);
            assert(alone_writes(store, attempts2, k, a));
            lemma_unique_writer(store, attempts1, k, a, b);
        }
    }
    assert(e1 =~= e2);
}

} // verus!

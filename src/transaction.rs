use crate::memory::{version_of, SVMMemory};
use crate::primitive::{Primitive, SVMObject, SVMPrimitives};
use vstd::prelude::*;

verus! {

/// What a store holds: each key's current value and version.
pub type StoreView = Map<Seq<u8>, SVMObject<Primitive>>;

/// The map that an association list denotes; a later entry of a key hides an
/// earlier one.
pub open spec fn assoc<V>(s: Seq<(Seq<u8>, V)>) -> Map<Seq<u8>, V>
    decreases s.len(),
{
    if s.len() == 0 {
        Map::empty()
    } else {
        assoc(s.drop_last()).insert(s.last().0, s.last().1)
    }
}

/// No key occurs twice in the association list.
pub open spec fn keys_unique<V>(s: Seq<(Seq<u8>, V)>) -> bool {
    forall|i: int, j: int| 0 <= i < s.len() && 0 <= j < s.len() && i != j ==> s[i].0 != s[j].0
}

/// What `read(key)` returns: the buffered write of `key` if there is one,
/// else the value the store holds, else nothing.
pub open spec fn read_value(writes: Map<Seq<u8>, Primitive>, store: StoreView, key: Seq<u8>) -> Option<
    Primitive,
> {
    if writes.contains_key(key) {
        Some(writes[key])
    } else if store.contains_key(key) {
        Some(store[key].value)
    } else {
        None
    }
}

/// The read set after `read(key)`: the first read of a key that the store
/// holds and that was not written in the attempt records what the store held.
pub open spec fn reads_after(
    reads: StoreView,
    writes: Map<Seq<u8>, Primitive>,
    store: StoreView,
    key: Seq<u8>,
) -> StoreView {
    if !writes.contains_key(key) && store.contains_key(key) && !reads.contains_key(key) {
        reads.insert(key, store[key])
    } else {
        reads
    }
}

/// Every recorded read still matches the store: the key is present and its
/// version is the one observed.
pub open spec fn validates(store: StoreView, reads: StoreView) -> bool {
    forall|k: Seq<u8>|
        #[trigger] reads.contains_key(k) ==> store.contains_key(k) && store[k].version
            == reads[k].version
}

/// No written key sits at the largest version, so each can be bumped.
pub open spec fn fits(store: StoreView, writes: Map<Seq<u8>, Primitive>) -> bool {
    forall|k: Seq<u8>| #[trigger] writes.contains_key(k) ==> version_of(store, k) < u64::MAX
}

/// The commit of an attempt with these sets can be carried out: where it
/// would pass validation, each written key can take one more version.
pub open spec fn commit_fits(store: StoreView, reads: StoreView, writes: Map<Seq<u8>, Primitive>) -> bool {
    validates(store, reads) ==> fits(store, writes)
}

/// The store after applying `writes`: each written key holds its new value
/// at one past the version it had (0 if absent); other keys are untouched.
pub open spec fn applied(store: StoreView, writes: Map<Seq<u8>, Primitive>) -> StoreView {
    Map::new(
        |k: Seq<u8>| store.contains_key(k) || writes.contains_key(k),
        |k: Seq<u8>|
            if writes.contains_key(k) {
                SVMObject { value: writes[k], version: (version_of(store, k) + 1) as u64 }
            } else {
                store[k]
            },
    )
}

/// The store after a commit of an attempt with these read and write sets.
pub open spec fn commit_outcome(
    store: StoreView,
    reads: StoreView,
    writes: Map<Seq<u8>, Primitive>,
) -> StoreView {
    if validates(store, reads) {
        applied(store, writes)
    } else {
        store
    }
}

/// The model of an optional value.
pub open spec fn option_model(o: Option<SVMPrimitives>) -> Option<Primitive> {
    match o {
        Some(v) => Some(v@),
        None => None,
    }
}

proof fn lemma_assoc_contains<V>(s: Seq<(Seq<u8>, V)>, k: Seq<u8>)
    ensures
        assoc(s).contains_key(k) <==> exists|i: int| 0 <= i < s.len() && #[trigger] s[i].0 == k,
    decreases s.len(),
{
    if s.len() > 0 {
        lemma_assoc_contains(s.drop_last(), k);
        if assoc(s).contains_key(k) && s.last().0 != k {
            let i = choose|i: int| 0 <= i < s.drop_last().len() && #[trigger] s.drop_last()[i].0 == k;
            assert(s[i].0 == k);
        }
        if exists|i: int| 0 <= i < s.len() && #[trigger] s[i].0 == k {
            let i = choose|i: int| 0 <= i < s.len() && #[trigger] s[i].0 == k;
            if i < s.len() - 1 {
                assert(s.drop_last()[i].0 == k);
            }
        }
    }
}

proof fn lemma_assoc_index<V>(s: Seq<(Seq<u8>, V)>, i: int)
    requires
        keys_unique(s),
        0 <= i < s.len(),
    ensures
        assoc(s).contains_key(s[i].0),
        assoc(s)[s[i].0] == s[i].1,
    decreases s.len(),
{
    if i < s.len() - 1 {
        let t = s.drop_last();
        assert(t[i] == s[i]);
        assert(keys_unique(t)) by {
            assert forall|a: int, b: int| 0 <= a < t.len() && 0 <= b < t.len() && a != b implies t[a].0
                != t[b].0 by {
                assert(t[a] == s[a] && t[b] == s[b]);
            }
        }
        lemma_assoc_index(t, i);
        assert(s.last().0 != s[i].0);
    }
}

proof fn lemma_assoc_push<V>(s: Seq<(Seq<u8>, V)>, e: (Seq<u8>, V))
    ensures
        assoc(s.push(e)) == assoc(s).insert(e.0, e.1),
{
    assert(s.push(e).drop_last() =~= s);
}

proof fn lemma_assoc_take<V>(s: Seq<(Seq<u8>, V)>, i: int)
    requires
        0 <= i < s.len(),
    ensures
        assoc(s.take(i + 1)) == assoc(s.take(i)).insert(s[i].0, s[i].1),
{
    assert(s.take(i + 1).drop_last() =~= s.take(i));
}

proof fn lemma_assoc_update<V>(s: Seq<(Seq<u8>, V)>, i: int, v: V)
    requires
        keys_unique(s),
        0 <= i < s.len(),
    ensures
        assoc(s.update(i, (s[i].0, v))) == assoc(s).insert(s[i].0, v),
    decreases s.len(),
{
    let u = s.update(i, (s[i].0, v));
    if i == s.len() - 1 {
        assert(u.drop_last() =~= s.drop_last());
        assert(assoc(u) =~= assoc(s).insert(s[i].0, v));
    } else {
        let t = s.drop_last();
        assert(keys_unique(t)) by {
            assert forall|a: int, b: int| 0 <= a < t.len() && 0 <= b < t.len() && a != b implies t[a].0
                != t[b].0 by {
                assert(t[a] == s[a] && t[b] == s[b]);
            }
        }
        assert(t[i] == s[i]);
        lemma_assoc_update(t, i, v);
        assert(u.drop_last() =~= t.update(i, (s[i].0, v)));
        assert(s.last().0 != s[i].0);
        assert(assoc(u) =~= assoc(s).insert(s[i].0, v));
    }
}

fn bytes_equal(a: &Vec<u8>, b: &Vec<u8>) -> (r: bool)
    ensures
        r == (a@ == b@),
{
    if a.len() != b.len() {
        return false;
    }
    let mut i: usize = 0;
    while i < a.len()
        invariant
            a@.len() == b@.len(),
            i <= a@.len(),
            forall|j: int| 0 <= j < i ==> a@[j] == b@[j],
        decreases a.len() - i,
    {
        if a[i] != b[i] {
            return false;
        }
        i = i + 1;
    }
    assert(a@ =~= b@);
    true
}

pub(crate) fn copy_bytes(b: &Vec<u8>) -> (r: Vec<u8>)
    ensures
        r@ == b@,
{
    let r = b.clone();
    assert(r@ =~= b@);
    r
}

/// The index of the entry for `key`, if the list has one.
fn position<V>(entries: &Vec<(Vec<u8>, V)>, key: &Vec<u8>) -> (r: Option<usize>)
    ensures
        match r {
            Some(i) => i < entries@.len() && entries@[i as int].0@ == key@,
            None => forall|j: int| 0 <= j < entries@.len() ==> #[trigger] entries@[j].0@ != key@,
        },
{
    let mut i: usize = 0;
    while i < entries.len()
        invariant
            i <= entries@.len(),
            forall|j: int| 0 <= j < i ==> #[trigger] entries@[j].0@ != key@,
        decreases entries.len() - i,
    {
        if bytes_equal(&entries[i].0, key) {
            return Some(i);
        }
        i = i + 1;
    }
    None
}

/// A commit was refused: a key that the attempt read has changed since.
#[derive(Debug)]
pub struct Conflict;

/// What the retry driver does after an attempt: stop with a result, or start
/// over with a fresh attempt after a backoff.
#[derive(Debug)]
pub enum Step<R> {
    Done(Result<R, String>),
    Retry,
}

/// One attempt of a transaction: the reads it depends on and the writes it
/// buffers until commit.
pub struct Transaction {
    read_set: Vec<(Vec<u8>, SVMObject<SVMPrimitives>)>,
    write_set: Vec<(Vec<u8>, SVMPrimitives)>,
}

impl Transaction {
    /// The read set as a list of keys and what was seen, in order of first read.
    pub closed spec fn read_entries(&self) -> Seq<(Seq<u8>, SVMObject<Primitive>)> {
        self.read_set@.map_values(|e: (Vec<u8>, SVMObject<SVMPrimitives>)| (e.0@, e.1@))
    }

    /// The write set as a list of keys and values, in order of first write.
    pub closed spec fn write_entries(&self) -> Seq<(Seq<u8>, Primitive)> {
        self.write_set@.map_values(|e: (Vec<u8>, SVMPrimitives)| (e.0@, e.1@))
    }

    /// Each key occurs at most once in the read set and in the write set.
    pub closed spec fn wf(&self) -> bool {
        keys_unique(self.read_entries()) && keys_unique(self.write_entries())
    }

    /// The read set: for each key read from the store, what the first read saw.
    pub closed spec fn reads(&self) -> StoreView {
        assoc(self.read_entries())
    }

    /// The write set: for each key written, the last value written.
    pub closed spec fn writes(&self) -> Map<Seq<u8>, Primitive> {
        assoc(self.write_entries())
    }

    /// A fresh attempt with nothing read and nothing written.
    pub fn new() -> (r: Self)
        ensures
            r.wf(),
            r.reads() == Map::<Seq<u8>, SVMObject<Primitive>>::empty(),
            r.writes() == Map::<Seq<u8>, Primitive>::empty(),
    {
        let r = Transaction { read_set: Vec::new(), write_set: Vec::new() };
        assert(r.read_entries() =~= Seq::empty());
        assert(r.write_entries() =~= Seq::empty());
        r
    }

    /// Reads `key`: the attempt's own buffered write if it has one, else the
    /// store's value, whose version the first such read records.
    pub fn read(&mut self, tm: &SVMMemory, key: Vec<u8>) -> (r: Option<SVMPrimitives>)
        requires
            old(self).wf(),
        ensures
            final(self).wf(),
            option_model(r) == read_value(old(self).writes(), tm@, key@),
            final(self).writes() == old(self).writes(),
            final(self).reads() == reads_after(old(self).reads(), old(self).writes(), tm@, key@),
    {
        proof {
            lemma_assoc_contains(self.write_entries(), key@);
            lemma_assoc_contains(self.read_entries(), key@);
        }
        match position(&self.write_set, &key) {
            Some(i) => {
                proof {
                    lemma_assoc_index(self.write_entries(), i as int);
                }
                return Some(self.write_set[i].1.deep_copy());
            },
            None => {
                assert(!self.writes().contains_key(key@)) by {
                    if self.writes().contains_key(key@) {
                        let j = choose|j: int|
                            0 <= j < self.write_entries().len() && #[trigger] self.write_entries()[j].0
                                == key@;
                        assert(self.write_set@[j].0@ == key@);
                    }
                }
            },
        }
        match tm.get(copy_bytes(&key)) {
            Some(obj) => {
                match position(&self.read_set, &key) {
                    Some(i) => {
                        assert(self.read_entries()[i as int].0 == key@);
                    },
                    None => {
                        let ghost before = *self;
                        assert(!self.reads().contains_key(key@)) by {
                            if self.reads().contains_key(key@) {
                                let j = choose|j: int|
                                    0 <= j < self.read_entries().len()
                                        && #[trigger] self.read_entries()[j].0 == key@;
                                assert(self.read_set@[j].0@ == key@);
                            }
                        }
                        let recorded = obj.clone();
                        self.read_set.push((key, recorded));
                        proof {
                            assert(self.read_entries() =~= before.read_entries().push((key@, obj@)));
                            lemma_assoc_push(before.read_entries(), (key@, obj@));
                            assert(self.write_entries() =~= before.write_entries());
                        }
                    },
                }
                Some(obj.value)
            },
            None => None,
        }
    }

    /// Buffers `value` as the attempt's write of `key`, replacing any earlier
    /// write of it. The store is not touched.
    pub fn write(&mut self, key: Vec<u8>, value: SVMPrimitives)
        requires
            old(self).wf(),
        ensures
            final(self).wf(),
            final(self).writes() == old(self).writes().insert(key@, value@),
            final(self).reads() == old(self).reads(),
    {
        let ghost before = *self;
        let ghost entry = (key@, value@);
        match position(&self.write_set, &key) {
            Some(i) => {
                self.write_set.set(i, (key, value));
                proof {
                    assert(self.write_entries() =~= before.write_entries().update(
                        i as int,
                        (before.write_entries()[i as int].0, entry.1),
                    ));
                    lemma_assoc_update(before.write_entries(), i as int, entry.1);
                    assert(keys_unique(self.write_entries())) by {
                        assert forall|a: int, b: int|
                            0 <= a < self.write_entries().len() && 0 <= b
                                < self.write_entries().len() && a != b implies self.write_entries()[a].0
                            != self.write_entries()[b].0 by {
                            assert(self.write_entries()[a].0 == before.write_entries()[a].0);
                            assert(self.write_entries()[b].0 == before.write_entries()[b].0);
                        }
                    }
                }
            },
            None => {
                self.write_set.push((key, value));
                proof {
                    assert(self.write_entries() =~= before.write_entries().push(entry));
                    lemma_assoc_push(before.write_entries(), entry);
                    assert(keys_unique(self.write_entries())) by {
                        assert forall|a: int, b: int|
                            0 <= a < self.write_entries().len() && 0 <= b
                                < self.write_entries().len() && a != b implies self.write_entries()[a].0
                            != self.write_entries()[b].0 by {
                            if a < before.write_entries().len() && b < before.write_entries().len() {
                                assert(self.write_entries()[a] == before.write_entries()[a]);
                                assert(self.write_entries()[b] == before.write_entries()[b]);
                            } else if a < before.write_entries().len() {
                                assert(self.write_entries()[a] == before.write_entries()[a]);
                                assert(before.write_set@[a].0@ != key@);
                            } else {
                                assert(self.write_entries()[b] == before.write_entries()[b]);
                                assert(before.write_set@[b].0@ != key@);
                            }
                        }
                    }
                }
            },
        }
        assert(self.read_entries() =~= before.read_entries());
    }

    /// Validation: whether every key of the read set is still in the store
    /// at the version that was observed.
    pub fn validate(&self, tm: &SVMMemory) -> (r: bool)
        requires
            self.wf(),
        ensures
            r == validates(tm@, self.reads()),
    {
        let ghost entries = self.read_entries();
        let mut i: usize = 0;
        while i < self.read_set.len()
            invariant
                entries == self.read_entries(),
                keys_unique(entries),
                i <= entries.len(),
                forall|j: int|
                    0 <= j < i ==> tm@.contains_key(#[trigger] entries[j].0) && tm@[entries[j].0].version
                        == entries[j].1.version,
            decreases self.read_set.len() - i,
        {
            let entry = &self.read_set[i];
            let current = tm.get(copy_bytes(&entry.0));
            let stale = match current {
                Some(obj) => obj.version != entry.1.version,
                None => true,
            };
            if stale {
                proof {
                    lemma_assoc_index(entries, i as int);
                    assert(!validates(tm@, self.reads()));
                }
                return false;
            }
            i = i + 1;
        }
        proof {
            assert forall|k: Seq<u8>| #[trigger] self.reads().contains_key(k) implies tm@.contains_key(k)
                && tm@[k].version == self.reads()[k].version by {
                lemma_assoc_contains(entries, k);
                let j = choose|j: int| 0 <= j < entries.len() && #[trigger] entries[j].0 == k;
                lemma_assoc_index(entries, j);
            }
        }
        true
    }

    /// Whether every key of the write set can take one more version.
    pub fn versions_fit(&self, tm: &SVMMemory) -> (r: bool)
        requires
            self.wf(),
        ensures
            r == fits(tm@, self.writes()),
    {
        let ghost entries = self.write_entries();
        let mut i: usize = 0;
        while i < self.write_set.len()
            invariant
                entries == self.write_entries(),
                keys_unique(entries),
                i <= entries.len(),
                forall|j: int| 0 <= j < i ==> version_of(tm@, #[trigger] entries[j].0) < u64::MAX,
            decreases self.write_set.len() - i,
        {
            let entry = &self.write_set[i];
            let at_limit = match tm.get(copy_bytes(&entry.0)) {
                Some(obj) => obj.version == u64::MAX,
                None => false,
            };
            if at_limit {
                proof {
                    lemma_assoc_index(entries, i as int);
                }
                return false;
            }
            i = i + 1;
        }
        proof {
            assert forall|k: Seq<u8>| #[trigger] self.writes().contains_key(k) implies version_of(tm@, k)
                < u64::MAX by {
                lemma_assoc_contains(entries, k);
            }
        }
        true
    }

    /// Application: each buffered write becomes visible at one past the
    /// version the store holds for its key at this moment.
    pub fn apply(&self, tm: &mut SVMMemory)
        requires
            self.wf(),
            fits(old(tm)@, self.writes()),
        ensures
            final(tm)@ == applied(old(tm)@, self.writes()),
    {
        let ghost store0 = tm@;
        let ghost entries = self.write_entries();
        proof {
            assert(entries.take(0) =~= Seq::empty());
            assert(tm@ =~= applied(store0, assoc(entries.take(0))));
        }
        let mut i: usize = 0;
        while i < self.write_set.len()
            invariant
                entries == self.write_entries(),
                keys_unique(entries),
                fits(store0, assoc(entries)),
                i <= entries.len(),
                tm@ == applied(store0, assoc(entries.take(i as int))),
            decreases self.write_set.len() - i,
        {
            let entry = &self.write_set[i];
            let ghost k = entries[i as int].0;
            let ghost done = assoc(entries.take(i as int));
            proof {
                lemma_assoc_contains(entries.take(i as int), k);
                if done.contains_key(k) {
                    let j = choose|j: int|
                        0 <= j < entries.take(i as int).len() && #[trigger] entries.take(i as int)[j].0 == k;
                    assert(entries[j].0 == k);
                }
                assert(!done.contains_key(k));
                lemma_assoc_index(entries, i as int);
                assert(version_of(tm@, k) == version_of(store0, k));
            }
            let version = match tm.get(copy_bytes(&entry.0)) {
                Some(obj) => obj.version,
                None => 0,
            };
            let object = SVMObject { value: entry.1.deep_copy(), version: version + 1 };
            tm.set(copy_bytes(&entry.0), object);
            proof {
                lemma_assoc_take(entries, i as int);
                assert(tm@ =~= applied(store0, assoc(entries.take(i + 1))));
            }
            i = i + 1;
        }
        proof {
            assert(entries.take(entries.len() as int) =~= entries);
        }
    }

    /// The commit protocol: validation, then, only if it passed, application.
    pub fn commit(&self, tm: &mut SVMMemory) -> (r: Result<(), Conflict>)
        requires
            self.wf(),
            commit_fits(old(tm)@, self.reads(), self.writes()),
        ensures
            r is Ok <==> validates(old(tm)@, self.reads()),
            final(tm)@ == commit_outcome(old(tm)@, self.reads(), self.writes()),
    {
        if !self.validate(tm) {
            return Err(Conflict);
        }
        self.apply(tm);
        Ok(())
    }

    /// Discards everything the attempt read and buffered.
    pub fn rollback(&mut self)
        ensures
            final(self).wf(),
            final(self).reads() == Map::<Seq<u8>, SVMObject<Primitive>>::empty(),
            final(self).writes() == Map::<Seq<u8>, Primitive>::empty(),
    {
        self.read_set.clear();
        self.write_set.clear();
        assert(self.read_entries() =~= Seq::empty());
        assert(self.write_entries() =~= Seq::empty());
    }

    /// Settles an attempt once its body has run: an error of the body ends the
    /// transaction with that error and nothing applied; otherwise the attempt
    /// is committed, and a conflict discards it and asks for a retry.
    pub fn settle<R>(&mut self, tm: &mut SVMMemory, outcome: Result<R, String>) -> (r: Step<R>)
        requires
            old(self).wf(),
            outcome is Ok ==> commit_fits(old(tm)@, old(self).reads(), old(self).writes()),
        ensures
            final(self).wf(),
            match outcome {
                Err(e) => r == Step::<R>::Done(Err(e)) && final(tm)@ == old(tm)@,
                Ok(v) => if validates(old(tm)@, old(self).reads()) {
                    r == Step::<R>::Done(Ok(v)) && final(tm)@ == applied(old(tm)@, old(self).writes())
                } else {
                    &&& r == Step::<R>::Retry
                    &&& final(tm)@ == old(tm)@
                    &&& final(self).reads() == Map::<Seq<u8>, SVMObject<Primitive>>::empty()
                    &&& final(self).writes() == Map::<Seq<u8>, Primitive>::empty()
                },
            },
    {
        match outcome {
            Err(e) => Step::Done(Err(e)),
            Ok(v) => match self.commit(tm) {
                Ok(()) => Step::Done(Ok(v)),
                Err(_) => {
                    self.rollback();
                    Step::Retry
                },
            },
        }
    }
}

} // verus!

use vstd::prelude::*;
use vstd::rwlock::RwLock;
use crate::record::CoordinateRecord;
use crate::resolver::{cached, selection, select_candidate, Geocoder, LookupOutcome, ResolveError};
use crate::store::{put_step, same_answers, CacheStore, StoreError};

verus! {

/// A store shared by many concurrent callers. Each call takes the store's
/// lock for the store access alone and has released it on return, so no
/// lock is ever held across a call to an outside service.
///
/// Under concurrency a caller cannot know the store's state; each call acts
/// atomically on some well-formed state `s` of the underlying store `S`.
pub trait SharedCacheStore<S: CacheStore> {
    spec fn wf(&self) -> bool;

    /// Answers as some well-formed state of the store answers.
    fn get(&self, key: &String) -> (r: Result<Option<CoordinateRecord>, StoreError>)
        requires
            self.wf(),
        ensures
            exists|s: S| s.inv() && #[trigger] s.lookup(key@) == r,
    ;

    /// Writes `value` under `key`, atomically, into some well-formed state.
    fn put(&self, key: &String, value: CoordinateRecord) -> (r: Result<(), StoreError>)
        requires
            self.wf(),
        ensures
            exists|s0: S, s1: S|
                s0.inv() && s1.inv() && #[trigger] write_outcome(s0, s1, key@, value, r),
            writes_never_fail::<S>() ==> r is Ok,
    ;
}

/// What a write that answered `r` did to the store: on success it took the
/// write, on failure it changed no answer.
pub open spec fn write_outcome<S: CacheStore>(
    s0: S,
    s1: S,
    key: Seq<char>,
    value: CoordinateRecord,
    r: Result<(), StoreError>,
) -> bool {
    &&& r is Ok ==> put_step(s0, s1, key, value)
    &&& r is Err ==> same_answers(s0, s1)
}

/// Every well-formed state of `S` takes writes without failing.
pub open spec fn writes_never_fail<S: CacheStore>() -> bool {
    forall|s: S| s.inv() ==> #[trigger] s.put_never_fails()
}

/// The lock invariant: the guarded store is well formed.
pub open spec fn guards_inv<S: CacheStore>(lock: RwLock<S, spec_fn(S) -> bool>) -> bool {
    forall|s: S| #[trigger] lock.inv(s) <==> s.inv()
}

/// A store behind one mutual-exclusion lock: every get and every put holds
/// it exclusively.
#[verifier::reject_recursive_types(S)]
pub struct ExclusiveLockStore<S: CacheStore> {
    lock: RwLock<S, spec_fn(S) -> bool>,
}

/// A store behind a reader/writer lock: gets share it, puts hold it
/// exclusively.
#[verifier::reject_recursive_types(S)]
pub struct SharedLockStore<S: CacheStore> {
    lock: RwLock<S, spec_fn(S) -> bool>,
}

impl<S: CacheStore> ExclusiveLockStore<S> {
    pub fn new(store: S) -> (r: ExclusiveLockStore<S>)
        requires
            store.inv(),
        ensures
            r.wf(),
    {
        let ghost pred = |s: S| s.inv();
        ExclusiveLockStore { lock: RwLock::new(store, Ghost(pred)) }
    }
}

impl<S: CacheStore> SharedLockStore<S> {
    pub fn new(store: S) -> (r: SharedLockStore<S>)
        requires
            store.inv(),
        ensures
            r.wf(),
    {
        let ghost pred = |s: S| s.inv();
        SharedLockStore { lock: RwLock::new(store, Ghost(pred)) }
    }
}

impl<S: CacheStore> SharedCacheStore<S> for ExclusiveLockStore<S> {
    closed spec fn wf(&self) -> bool {
        guards_inv(self.lock)
    }

    fn get(&self, key: &String) -> (r: Result<Option<CoordinateRecord>, StoreError>) {
        let (s, handle) = self.lock.acquire_write();
        let r = s.get(key);
        handle.release_write(s);
        r
    }

    fn put(&self, key: &String, value: CoordinateRecord) -> (r: Result<(), StoreError>) {
        let (mut s, handle) = self.lock.acquire_write();
        let ghost s0 = s;
        assert(writes_never_fail::<S>() ==> s0.put_never_fails());
        let r = s.put(key, value);
        let ghost s1 = s;
        handle.release_write(s);
        assert(write_outcome(s0, s1, key@, value, r));
        r
    }
}

impl<S: CacheStore> SharedCacheStore<S> for SharedLockStore<S> {
    closed spec fn wf(&self) -> bool {
        guards_inv(self.lock)
    }

    fn get(&self, key: &String) -> (r: Result<Option<CoordinateRecord>, StoreError>) {
        let handle = self.lock.acquire_read();
        let r = handle.borrow().get(key);
        handle.release_read();
        r
    }

    fn put(&self, key: &String, value: CoordinateRecord) -> (r: Result<(), StoreError>) {
        let (mut s, handle) = self.lock.acquire_write();
        let ghost s0 = s;
        assert(writes_never_fail::<S>() ==> s0.put_never_fails());
        let r = s.put(key, value);
        let ghost s1 = s;
        handle.release_write(s);
        assert(write_outcome(s0, s1, key@, value, r));
        r
    }
}

/// First step of a resolution on a shared store: its answer for `city`, as
/// some well-formed state of it answers.
pub fn check_shared<S: CacheStore, T: SharedCacheStore<S>>(store: &T, city: &String) -> (r: Result<
    Option<CoordinateRecord>,
    ResolveError,
>)
    requires
        store.wf(),
    ensures
        exists|s: S| s.inv() && #[trigger] cached(s.lookup(city@)) == r,
{
    let a = store.get(city);
    let ghost s = choose|s: S| s.inv() && #[trigger] s.lookup(city@) == a;
    let r = match a {
        Ok(o) => Ok(o),
        Err(e) => Err(ResolveError::Store(e)),
    };
    assert(cached(s.lookup(city@)) == r);
    r
}

/// Last step of a resolution on a shared store after a miss: writes the
/// first candidate of the geocoding answer under `city` and returns it.
pub fn complete_shared<S: CacheStore, T: SharedCacheStore<S>>(
    store: &T,
    city: &String,
    outcome: &LookupOutcome,
) -> (r: Result<CoordinateRecord, ResolveError>)
    requires
        store.wf(),
    ensures
        selection(*outcome) is Err ==> r == selection(*outcome),
        selection(*outcome) is Ok ==> match r {
            Ok(rec) => rec == selection(*outcome)->Ok_0 && exists|s0: S, s1: S|
                s0.inv() && s1.inv() && #[trigger] put_step(s0, s1, city@, rec),
            Err(e) => e is Store,
        },
        selection(*outcome) is Ok && writes_never_fail::<S>() ==> r == selection(*outcome),
        r matches Err(ResolveError::Store(_)) ==> !writes_never_fail::<S>(),
{
    match select_candidate(outcome) {
        Ok(rec) => {
            let w = store.put(city, rec);
            let ghost (s0, s1) = choose|s0: S, s1: S|
                s0.inv() && s1.inv() && #[trigger] write_outcome(s0, s1, city@, rec, w);
            match w {
                Ok(()) => {
                    assert(put_step(s0, s1, city@, rec));
                    Ok(rec)
                },
                Err(e) => Err(ResolveError::Store(e)),
            }
        },
        Err(e) => Err(e),
    }
}

/// Last step of a resolution on a shared store after a miss, for a store
/// whose medium is written first: `written` is the result of writing the
/// candidate's stored form to that medium. A failed write is returned as a
/// store error and nothing is written to the store.
pub fn complete_shared_after_write<S: CacheStore, T: SharedCacheStore<S>>(
    store: &T,
    city: &String,
    outcome: &LookupOutcome,
    written: &Result<(), String>,
) -> (r: Result<CoordinateRecord, ResolveError>)
    requires
        store.wf(),
    ensures
        selection(*outcome) is Err ==> r == selection(*outcome),
        selection(*outcome) is Ok && written is Err ==> r == Err::<CoordinateRecord, ResolveError>(
            ResolveError::Store(StoreError::Io(written->Err_0)),
        ),
        selection(*outcome) is Ok && written is Ok ==> match r {
            Ok(rec) => rec == selection(*outcome)->Ok_0 && exists|s0: S, s1: S|
                s0.inv() && s1.inv() && #[trigger] put_step(s0, s1, city@, rec),
            Err(e) => e is Store,
        },
        selection(*outcome) is Ok && written is Ok && writes_never_fail::<S>() ==> r == selection(
            *outcome,
        ),
{
    match select_candidate(outcome) {
        Ok(_) => match written {
            Ok(()) => complete_shared(store, city, outcome),
            Err(m) => Err(ResolveError::Store(StoreError::Io(m.clone()))),
        },
        Err(e) => Err(e),
    }
}

/// A well-formed state `s` that accounts for the store error `e` on `city`:
/// it answered `e` for `city`, or it may fail writes.
pub open spec fn explains_store_error<S: CacheStore>(s: S, city: Seq<char>, e: StoreError) -> bool {
    s.inv() && (s.lookup(city) == Err::<Option<CoordinateRecord>, StoreError>(e)
        || !s.put_never_fails())
}

/// Resolves `city` through a shared store. The record returned is one that
/// the store held for `city` at some moment; the geocoder is asked only
/// after the store answered that it holds nothing for `city`; a store error
/// is one that the store answered for `city`, or comes from a store whose
/// writes may fail.
pub fn resolve_shared<S: CacheStore, T: SharedCacheStore<S>, G: Geocoder>(
    store: &T,
    geocoder: &mut G,
    city: &String,
) -> (r: Result<CoordinateRecord, ResolveError>)
    requires
        store.wf(),
    ensures
        r is Ok ==> exists|s: S|
            s.inv() && #[trigger] s.lookup(city@) == Ok::<Option<CoordinateRecord>, StoreError>(
                Some(r->Ok_0),
            ),
        *final(geocoder) != *old(geocoder) ==> exists|s: S|
            s.inv() && #[trigger] s.lookup(city@) == Ok::<Option<CoordinateRecord>, StoreError>(
                None,
            ),
        r matches Err(ResolveError::Store(e)) ==> exists|s: S| #[trigger] explains_store_error(s, city@, e),
{
    let seen = check_shared(store, city);
    let ghost s = choose|s: S| s.inv() && #[trigger] cached(s.lookup(city@)) == seen;
    match seen {
        Ok(Some(rec)) => {
            assert(s.lookup(city@) == Ok::<Option<CoordinateRecord>, StoreError>(Some(rec)));
            Ok(rec)
        },
        Err(e) => {
            proof {
                if e is Store {
                    assert(s.lookup(city@) == Err::<Option<CoordinateRecord>, StoreError>(
                        e->Store_0,
                    ));
                    assert(explains_store_error(s, city@, e->Store_0));
                }
            }
            Err(e)
        },
        Ok(None) => {
            assert(s.lookup(city@) == Ok::<Option<CoordinateRecord>, StoreError>(None));
            let outcome = geocoder.lookup(city);
            let r = complete_shared(store, city, &outcome);
            if let Ok(rec) = r {
                let ghost (s0, s1) = choose|s0: S, s1: S|
                    s0.inv() && s1.inv() && #[trigger] put_step(s0, s1, city@, rec);
                assert(s1.lookup(city@) == Ok::<Option<CoordinateRecord>, StoreError>(Some(rec)));
            }
            proof {
                if r matches Err(ResolveError::Store(_)) {
                    assert(!writes_never_fail::<S>());
                    let w = choose|w: S| w.inv() && !#[trigger] w.put_never_fails();
                    assert(w.inv() && !w.put_never_fails());
                    assert(explains_store_error(w, city@, r->Err_0->Store_0));
                }
            }
            r
        },
    }
}

} // verus!

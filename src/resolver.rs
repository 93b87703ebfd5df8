use vstd::prelude::*;
use crate::record::CoordinateRecord;
use crate::store::{put_step, same_answers, CacheStore, StoreError};

verus! {

/// What the geocoding service answered for a city.
#[derive(Clone, Debug)]
pub enum LookupOutcome {
    /// The candidate coordinates, in the order the service gave them.
    Candidates(Vec<CoordinateRecord>),
    /// The request failed (transport, timeout or an unreadable response).
    Failed(String),
}

/// Why a city could not be resolved.
#[derive(Clone, Debug, PartialEq, Eq)]
pub enum ResolveError {
    /// The geocoding service knows no such city.
    NotFound,
    /// A call to an outside service failed; carries the cause.
    Upstream(String),
    /// The store failed.
    Store(StoreError),
}

/// A source of geocoding answers.
pub trait Geocoder {
    fn lookup(&mut self, city: &String) -> LookupOutcome;
}

/// The record a geocoding answer yields: its first candidate.
pub open spec fn selection(o: LookupOutcome) -> Result<CoordinateRecord, ResolveError> {
    match o {
        LookupOutcome::Candidates(c) => if c@.len() > 0 {
            Ok(c@[0])
        } else {
            Err(ResolveError::NotFound)
        },
        LookupOutcome::Failed(m) => Err(ResolveError::Upstream(m)),
    }
}

/// A store's answer, with a store failure as a resolution error.
pub open spec fn cached(a: Result<Option<CoordinateRecord>, StoreError>) -> Result<
    Option<CoordinateRecord>,
    ResolveError,
> {
    match a {
        Ok(o) => Ok(o),
        Err(e) => Err(ResolveError::Store(e)),
    }
}

/// Takes the first candidate of a geocoding answer; further candidates are
/// discarded.
pub fn select_candidate(outcome: &LookupOutcome) -> (r: Result<CoordinateRecord, ResolveError>)
    ensures
        r == selection(*outcome),
{
    match outcome {
        LookupOutcome::Candidates(c) => {
            if c.len() > 0 {
                Ok(c[0])
            } else {
                Err(ResolveError::NotFound)
            }
        },
        LookupOutcome::Failed(m) => Err(ResolveError::Upstream(m.clone())),
    }
}

/// First step of a resolution: the store's answer for `city`. `Ok(None)` is
/// a miss, to be answered by the geocoding service and `complete_miss`.
pub fn check_cache<S: CacheStore>(store: &S, city: &String) -> (r: Result<
    Option<CoordinateRecord>,
    ResolveError,
>)
    requires
        store.inv(),
    ensures
        r == cached(store.lookup(city@)),
{
    match store.get(city) {
        Ok(o) => Ok(o),
        Err(e) => Err(ResolveError::Store(e)),
    }
}

/// Last step of a resolution after a miss: keeps the first candidate of the
/// geocoding answer under `city` and returns it. A failed answer, an empty
/// one or a failed store leaves the store's answers as they were.
pub fn complete_miss<S: CacheStore>(store: &mut S, city: &String, outcome: &LookupOutcome) -> (r:
    Result<CoordinateRecord, ResolveError>)
    requires
        old(store).inv(),
    ensures
        final(store).inv(),
        selection(*outcome) is Err ==> r == selection(*outcome) && *final(store) == *old(store),
        selection(*outcome) is Ok ==> match r {
            Ok(rec) => rec == selection(*outcome)->Ok_0 && put_step(
                *old(store),
                *final(store),
                city@,
                rec,
            ),
            Err(e) => e is Store && same_answers(*old(store), *final(store)),
        },
        selection(*outcome) is Ok && old(store).put_never_fails() ==> r == selection(*outcome),
{
    match select_candidate(outcome) {
        Ok(rec) => match store.put(city, rec) {
            Ok(()) => Ok(rec),
            Err(e) => Err(ResolveError::Store(e)),
        },
        Err(e) => Err(e),
    }
}

/// Last step of a resolution after a miss, for a store whose medium is
/// written first: `written` is the result of writing the candidate's stored
/// form to that medium. A failed write is returned as a store error and
/// leaves the store as it was, so that a later resolution starts afresh.
pub fn complete_after_write<S: CacheStore>(
    store: &mut S,
    city: &String,
    outcome: &LookupOutcome,
    written: &Result<(), String>,
) -> (r: Result<CoordinateRecord, ResolveError>)
    requires
        old(store).inv(),
    ensures
        final(store).inv(),
        selection(*outcome) is Err ==> r == selection(*outcome) && *final(store) == *old(store),
        selection(*outcome) is Ok && written is Err ==> r == Err::<CoordinateRecord, ResolveError>(
            ResolveError::Store(StoreError::Io(written->Err_0)),
        ) && *final(store) == *old(store),
        selection(*outcome) is Ok && written is Ok ==> match r {
            Ok(rec) => rec == selection(*outcome)->Ok_0 && put_step(
                *old(store),
                *final(store),
                city@,
                rec,
            ),
            Err(e) => e is Store && same_answers(*old(store), *final(store)),
        },
        selection(*outcome) is Ok && written is Ok && old(store).put_never_fails() ==> r == selection(
            *outcome,
        ),
{
    match select_candidate(outcome) {
        Ok(_) => match written {
            Ok(()) => complete_miss(store, city, outcome),
            Err(m) => Err(ResolveError::Store(StoreError::Io(m.clone()))),
        },
        Err(e) => Err(e),
    }
}

/// Resolves `city` to its coordinates: from the store when it holds them,
/// else from the geocoding service, keeping the answer in the store.
pub fn resolve<S: CacheStore, G: Geocoder>(store: &mut S, geocoder: &mut G, city: &String) -> (r:
    Result<CoordinateRecord, ResolveError>)
    requires
        old(store).inv(),
    ensures
        final(store).inv(),
        match old(store).lookup(city@) {
            Ok(Some(rec)) => r == Ok::<CoordinateRecord, ResolveError>(rec) && *final(store) == *old(
                store,
            ) && *final(geocoder) == *old(geocoder),
            Err(e) => r == Err::<CoordinateRecord, ResolveError>(ResolveError::Store(e))
                && *final(store) == *old(store) && *final(geocoder) == *old(geocoder),
            Ok(None) => match r {
                Ok(rec) => put_step(*old(store), *final(store), city@, rec)
                    && final(store).lookup(city@) == Ok::<Option<CoordinateRecord>, StoreError>(
                    Some(rec),
                ),
                Err(_) => same_answers(*old(store), *final(store)),
            },
        },
        old(store).lookup(city@) == Ok::<Option<CoordinateRecord>, StoreError>(None)
            && old(store).put_never_fails() ==> !(r is Err && r->Err_0 is Store),
{
    match check_cache(store, city) {
        Ok(Some(rec)) => Ok(rec),
        Err(e) => Err(e),
        Ok(None) => {
            let outcome = geocoder.lookup(city);
            complete_miss(store, city, &outcome)
        },
    }
}

} // verus!

use geocache::resolver::complete_after_write;
use geocache::record::CoordinateRecord;
use geocache::resolver::{check_cache, complete_miss, resolve, select_candidate, Geocoder, LookupOutcome, ResolveError};
use geocache::store::{CacheStore, MemoryStore, PersistentStore, StoreError};

fn coords(latitude: f64, longitude: f64) -> CoordinateRecord {
    CoordinateRecord::from_bits(latitude.to_bits(), longitude.to_bits())
}

/// Answers every lookup with the same outcome and counts the calls.
struct StubGeocoder {
    answer: LookupOutcome,
    calls: usize,
}

impl StubGeocoder {
    fn new(answer: LookupOutcome) -> StubGeocoder {
        StubGeocoder { answer, calls: 0 }
    }
}

impl Geocoder for StubGeocoder {
    fn lookup(&mut self, _city: &String) -> LookupOutcome {
        self.calls += 1;
        self.answer.clone()
    }
}

fn key(s: &str) -> String {
    s.to_string()
}

#[test]
fn cache_hit_avoids_network() {
    let mut store = MemoryStore::new();
    let stored = coords(51.5072, -0.1276);
    store.put(&key("London"), stored).unwrap();
    let mut geo = StubGeocoder::new(LookupOutcome::Candidates(vec![coords(1.0, 2.0)]));
    let r = resolve(&mut store, &mut geo, &key("London"));
    assert_eq!(r, Ok(stored));
    assert_eq!(geo.calls, 0);
}

#[test]
fn cache_hit_avoids_network_persistent() {
    let mut store = PersistentStore::new();
    let stored = coords(51.5072, -0.1276);
    store.put(&key("London"), stored).unwrap();
    let mut geo = StubGeocoder::new(LookupOutcome::Failed(key("unreachable")));
    assert_eq!(resolve(&mut store, &mut geo, &key("London")), Ok(stored));
    assert_eq!(geo.calls, 0);
}

#[test]
fn cache_population_on_miss() {
    let mut store = MemoryStore::new();
    let paris = coords(48.8566, 2.3522);
    let mut geo = StubGeocoder::new(LookupOutcome::Candidates(vec![paris]));
    assert_eq!(resolve(&mut store, &mut geo, &key("Paris")), Ok(paris));
    assert_eq!(geo.calls, 1);
    assert_eq!(store.get(&key("Paris")), Ok(Some(paris)));
    assert_eq!(resolve(&mut store, &mut geo, &key("Paris")), Ok(paris));
    assert_eq!(geo.calls, 1);
    let got = store.get(&key("Paris")).unwrap().unwrap();
    assert_eq!(f64::from_bits(got.latitude_bits), 48.8566);
    assert_eq!(f64::from_bits(got.longitude_bits), 2.3522);
}

#[test]
fn first_candidate_selection() {
    let mut store = MemoryStore::new();
    let illinois = coords(39.7817, -89.6501);
    let missouri = coords(37.2153, -93.2982);
    let mut geo = StubGeocoder::new(LookupOutcome::Candidates(vec![illinois, missouri]));
    assert_eq!(resolve(&mut store, &mut geo, &key("Springfield")), Ok(illinois));
    assert_eq!(store.get(&key("Springfield")), Ok(Some(illinois)));
    assert_eq!(
        select_candidate(&LookupOutcome::Candidates(vec![missouri, illinois])),
        Ok(missouri)
    );
}

#[test]
fn not_found_propagation() {
    let mut store = MemoryStore::new();
    let mut geo = StubGeocoder::new(LookupOutcome::Candidates(vec![]));
    assert_eq!(resolve(&mut store, &mut geo, &key("Atlantis")), Err(ResolveError::NotFound));
    assert_eq!(geo.calls, 1);
    assert_eq!(store.get(&key("Atlantis")), Ok(None));
}

#[test]
fn upstream_failure_isolation() {
    let mut store = MemoryStore::new();
    let mut geo = StubGeocoder::new(LookupOutcome::Failed(key("connection refused")));
    assert_eq!(
        resolve(&mut store, &mut geo, &key("Oslo")),
        Err(ResolveError::Upstream(key("connection refused")))
    );
    assert_eq!(store.get(&key("Oslo")), Ok(None));
}

#[test]
fn failure_leaves_other_keys() {
    let mut store = PersistentStore::new();
    let rome = coords(41.9028, 12.4964);
    store.put(&key("Rome"), rome).unwrap();
    let mut geo = StubGeocoder::new(LookupOutcome::Failed(key("timeout")));
    assert!(matches!(resolve(&mut store, &mut geo, &key("Oslo")), Err(ResolveError::Upstream(_))));
    assert_eq!(store.get(&key("Rome")), Ok(Some(rome)));
    assert_eq!(store.get(&key("Oslo")), Ok(None));
}

fn run_suite<S: CacheStore>(store: &mut S) -> Vec<Result<Option<CoordinateRecord>, StoreError>> {
    let a = coords(10.5, -20.25);
    let b = coords(-33.8688, 151.2093);
    let mut seen = Vec::new();
    seen.push(store.get(&key("Sydney")));
    store.put(&key("Sydney"), a).unwrap();
    seen.push(store.get(&key("Sydney")));
    seen.push(store.get(&key("sydney")));
    store.put(&key("sydney"), b).unwrap();
    store.put(&key("Sydney"), b).unwrap();
    store.put(&key("Sydney"), b).unwrap();
    seen.push(store.get(&key("Sydney")));
    seen.push(store.get(&key("sydney")));
    seen.push(store.get(&key("")));
    seen
}

#[test]
fn backend_equivalence() {
    let mut memory = MemoryStore::new();
    let mut persistent = PersistentStore::new();
    let from_memory = run_suite(&mut memory);
    let from_persistent = run_suite(&mut persistent);
    assert_eq!(from_memory, from_persistent);
    let b = coords(-33.8688, 151.2093);
    assert_eq!(
        from_memory,
        vec![
            Ok(None),
            Ok(Some(coords(10.5, -20.25))),
            Ok(None),
            Ok(Some(b)),
            Ok(Some(b)),
            Ok(None),
        ]
    );
}

#[test]
fn concurrent_misses_leave_a_written_record() {
    let mut store = MemoryStore::new();
    let first = coords(48.8566, 2.3522);
    let second = coords(48.8567, 2.3523);
    // Both resolutions see the miss before either writes.
    assert_eq!(check_cache(&store, &key("Paris")), Ok(None));
    assert_eq!(check_cache(&store, &key("Paris")), Ok(None));
    let one = complete_miss(&mut store, &key("Paris"), &LookupOutcome::Candidates(vec![first]));
    let two = complete_miss(&mut store, &key("Paris"), &LookupOutcome::Candidates(vec![second]));
    assert_eq!(one, Ok(first));
    assert_eq!(two, Ok(second));
    let stored = store.get(&key("Paris")).unwrap().unwrap();
    assert!(stored == first || stored == second);
    assert_eq!(stored, second);
}

#[test]
fn keys_are_case_sensitive() {
    let mut store = MemoryStore::new();
    let paris = coords(48.8566, 2.3522);
    let mut geo = StubGeocoder::new(LookupOutcome::Candidates(vec![paris]));
    resolve(&mut store, &mut geo, &key("Paris")).unwrap();
    resolve(&mut store, &mut geo, &key("paris")).unwrap();
    resolve(&mut store, &mut geo, &key(" Paris")).unwrap();
    assert_eq!(geo.calls, 3);
}

#[test]
fn corrupt_entry_is_a_store_error() {
    let mut store = PersistentStore::new();
    store.load_raw(&key("Lima"), b"geo:zz".to_vec());
    assert_eq!(store.get(&key("Lima")), Err(StoreError::Corrupt));
    let mut geo = StubGeocoder::new(LookupOutcome::Candidates(vec![coords(1.0, 1.0)]));
    assert_eq!(
        resolve(&mut store, &mut geo, &key("Lima")),
        Err(ResolveError::Store(StoreError::Corrupt))
    );
    assert_eq!(geo.calls, 0);
    assert_eq!(check_cache(&store, &key("Lima")), Err(ResolveError::Store(StoreError::Corrupt)));
}

#[test]
fn persistent_store_keeps_stored_form() {
    let mut store = PersistentStore::new();
    let rec = CoordinateRecord::from_bits(0x404846_1b71758e22, 0x4002d1_c9b7e1c80a);
    store.put(&key("Paris"), rec).unwrap();
    assert_eq!(
        store.raw(&key("Paris")),
        Some(b"geo:4048461b71758e22,4002d1c9b7e1c80a".to_vec())
    );
    assert_eq!(store.raw(&key("Berlin")), None);
    let mut copy = PersistentStore::new();
    copy.load_raw(&key("Paris"), store.raw(&key("Paris")).unwrap());
    assert_eq!(copy.get(&key("Paris")), Ok(Some(rec)));
}

#[test]
fn completion_after_write_failure_stores_nothing() {
    let mut store = PersistentStore::new();
    let paris = coords(48.8566, 2.3522);
    let outcome = LookupOutcome::Candidates(vec![paris]);
    assert_eq!(
        complete_after_write(&mut store, &key("Paris"), &outcome, &Err(key("disk full"))),
        Err(ResolveError::Store(StoreError::Io(key("disk full"))))
    );
    assert_eq!(store.get(&key("Paris")), Ok(None));
    assert_eq!(complete_after_write(&mut store, &key("Paris"), &outcome, &Ok(())), Ok(paris));
    assert_eq!(store.get(&key("Paris")), Ok(Some(paris)));
    assert_eq!(
        complete_after_write(&mut store, &key("Nowhere"), &LookupOutcome::Candidates(vec![]), &Ok(())),
        Err(ResolveError::NotFound)
    );
}

use vstd::prelude::*;
use crate::codec::{decode_record, encode_record, record_bytes, record_from_bytes};
use crate::record::CoordinateRecord;
use crate::table::KeyedTable;

verus! {

/// Failure of a storage backend.
#[derive(Clone, Debug, PartialEq, Eq)]
pub enum StoreError {
    /// A stored value does not have the stored-record layout.
    Corrupt,
    /// The medium under a backend failed; carries its description.
    Io(String),
}

/// `after` answers as `before` does, but for `key`, which now holds `value`.
pub open spec fn put_step<S: CacheStore>(before: S, after: S, key: Seq<char>, value: CoordinateRecord) -> bool {
    forall|k: Seq<char>|
        #[trigger] after.lookup(k) == if k == key {
            Ok::<Option<CoordinateRecord>, StoreError>(Some(value))
        } else {
            before.lookup(k)
        }
}

/// Nothing a store answers has changed.
pub open spec fn same_answers<S: CacheStore>(before: S, after: S) -> bool {
    forall|k: Seq<char>| #[trigger] after.lookup(k) == before.lookup(k)
}

/// The store answers nothing for every key.
pub open spec fn answers_empty<S: CacheStore>(s: S) -> bool {
    forall|k: Seq<char>| #[trigger] s.lookup(k) == Ok::<Option<CoordinateRecord>, StoreError>(None)
}

/// The value that the last write of `k` in `ops` wrote, if any.
pub open spec fn last_write(ops: Seq<(Seq<char>, CoordinateRecord)>, k: Seq<char>) -> Option<
    CoordinateRecord,
>
    decreases ops.len(),
{
    if ops.len() == 0 {
        None
    } else if ops.last().0 == k {
        Some(ops.last().1)
    } else {
        last_write(ops.drop_last(), k)
    }
}

/// `states` are the successive states of a store that started empty and
/// took the successful writes `ops`, one after another.
pub open spec fn write_history<S: CacheStore>(
    states: Seq<S>,
    ops: Seq<(Seq<char>, CoordinateRecord)>,
) -> bool {
    &&& states.len() == ops.len() + 1
    &&& answers_empty(states[0])
    &&& forall|i: int|
        0 <= i < ops.len() ==> put_step(states[i], #[trigger] states[i + 1], ops[i].0, ops[i].1)
}

/// After a sequence of successful writes on an empty store, each key answers
/// the value its last write wrote, or nothing if it was never written.
pub proof fn lemma_history_answers<S: CacheStore>(
    states: Seq<S>,
    ops: Seq<(Seq<char>, CoordinateRecord)>,
)
    requires
        write_history(states, ops),
    ensures
        forall|k: Seq<char>|
            #[trigger] states.last().lookup(k) == Ok::<Option<CoordinateRecord>, StoreError>(
                last_write(ops, k),
            ),
    decreases ops.len(),
{
    if ops.len() > 0 {
        let n = ops.len() - 1;
        let prev_states = states.drop_last();
        let prev_ops = ops.drop_last();
        assert forall|i: int| 0 <= i < prev_ops.len() implies put_step(
            prev_states[i],
            #[trigger] prev_states[i + 1],
            prev_ops[i].0,
            prev_ops[i].1,
        ) by {
            assert(put_step(states[i], states[i + 1], ops[i].0, ops[i].1));
        }
        lemma_history_answers(prev_states, prev_ops);
        assert(put_step(states[n], states[n + 1], ops[n].0, ops[n].1));
        assert forall|k: Seq<char>|
            #[trigger] states.last().lookup(k) == Ok::<Option<CoordinateRecord>, StoreError>(
                last_write(ops, k),
            ) by {
            assert(states.last() == states[n + 1]);
            assert(prev_states.last() == states[n]);
            assert(states[n + 1].lookup(k) == states[n + 1].lookup(k));
        }
    }
}

/// Any two backends that start empty and take the same successful writes
/// answer every key alike: what a store answers depends on the writes alone.
pub proof fn lemma_backends_agree<S: CacheStore, T: CacheStore>(
    s_states: Seq<S>,
    t_states: Seq<T>,
    ops: Seq<(Seq<char>, CoordinateRecord)>,
)
    requires
        write_history(s_states, ops),
        write_history(t_states, ops),
    ensures
        forall|k: Seq<char>| #[trigger] s_states.last().lookup(k) == t_states.last().lookup(k),
{
    lemma_history_answers(s_states, ops);
    lemma_history_answers(t_states, ops);
    assert forall|k: Seq<char>| #[trigger] s_states.last().lookup(k) == t_states.last().lookup(k) by {
        assert(s_states.last().lookup(k) == Ok::<Option<CoordinateRecord>, StoreError>(
            last_write(ops, k),
        ));
        assert(t_states.last().lookup(k) == Ok::<Option<CoordinateRecord>, StoreError>(
            last_write(ops, k),
        ));
    }
}

/// Two writes of one key that race leave the key holding one of the two
/// written records (the later one), and leave every other key as it was.
pub proof fn lemma_racing_writes<S: CacheStore>(
    s0: S,
    s1: S,
    s2: S,
    key: Seq<char>,
    first: CoordinateRecord,
    second: CoordinateRecord,
)
    requires
        put_step(s0, s1, key, first),
        put_step(s1, s2, key, second),
    ensures
        s2.lookup(key) == Ok::<Option<CoordinateRecord>, StoreError>(Some(second)),
        forall|k: Seq<char>| k != key ==> #[trigger] s2.lookup(k) == s0.lookup(k),
{
    assert(s2.lookup(key) == Ok::<Option<CoordinateRecord>, StoreError>(Some(second)));
    assert forall|k: Seq<char>| k != key implies #[trigger] s2.lookup(k) == s0.lookup(k) by {
        assert(s1.lookup(k) == s0.lookup(k));
    }
}

/// Writing the same record under the same key twice leaves the store
/// answering as it did after the first write.
pub proof fn lemma_write_idempotent<S: CacheStore>(
    s0: S,
    s1: S,
    s2: S,
    key: Seq<char>,
    value: CoordinateRecord,
)
    requires
        put_step(s0, s1, key, value),
        put_step(s1, s2, key, value),
    ensures
        same_answers(s1, s2),
{
    assert forall|k: Seq<char>| #[trigger] s2.lookup(k) == s1.lookup(k) by {
        assert(s1.lookup(k) == s1.lookup(k));
    }
}

/// A key-value store of coordinate records keyed by city name.
pub trait CacheStore: Sized {
    /// The store's internal invariant.
    spec fn inv(&self) -> bool;

    /// Writes into this store always succeed (true of the stores kept in
    /// memory; a store over a failing medium may say false).
    spec fn put_never_fails(&self) -> bool;

    /// What `get` answers for a key.
    spec fn lookup(&self, key: Seq<char>) -> Result<Option<CoordinateRecord>, StoreError>;

    fn get(&self, key: &String) -> (r: Result<Option<CoordinateRecord>, StoreError>)
        requires
            self.inv(),
        ensures
            r == self.lookup(key@),
    ;

    /// Stores `value` under `key`; on failure nothing changes.
    fn put(&mut self, key: &String, value: CoordinateRecord) -> (r: Result<(), StoreError>)
        requires
            old(self).inv(),
        ensures
            final(self).inv(),
            old(self).put_never_fails() ==> r is Ok,
            r is Ok ==> forall|k: Seq<char>|
                #[trigger] final(self).lookup(k) == if k == key@ {
                    Ok::<Option<CoordinateRecord>, StoreError>(Some(value))
                } else {
                    old(self).lookup(k)
                },
            r is Err ==> forall|k: Seq<char>| #[trigger] final(self).lookup(k) == old(self).lookup(k),
    ;
}

/// Records held in memory.
pub struct MemoryStore {
    table: KeyedTable<CoordinateRecord>,
}

impl MemoryStore {
    pub closed spec fn view(&self) -> Map<Seq<char>, CoordinateRecord> {
        self.table@
    }

    pub fn new() -> (r: MemoryStore)
        ensures
            r.inv(),
            r@ == Map::<Seq<char>, CoordinateRecord>::empty(),
            answers_empty(r),
    {
        MemoryStore { table: KeyedTable::new() }
    }
}

impl CacheStore for MemoryStore {
    closed spec fn inv(&self) -> bool {
        self.table.wf()
    }

    open spec fn put_never_fails(&self) -> bool {
        true
    }

    open spec fn lookup(&self, key: Seq<char>) -> Result<Option<CoordinateRecord>, StoreError> {
        if self@.contains_key(key) {
            Ok(Some(self@[key]))
        } else {
            Ok(None)
        }
    }

    fn get(&self, key: &String) -> (r: Result<Option<CoordinateRecord>, StoreError>) {
        match self.table.get(key) {
            Some(v) => Ok(Some(*v)),
            None => Ok(None),
        }
    }

    fn put(&mut self, key: &String, value: CoordinateRecord) -> (r: Result<(), StoreError>)
        ensures
            r is Ok,
            final(self)@ == old(self)@.insert(key@, value),
    {
        self.table.insert(key, value);
        Ok(())
    }
}

/// Records held in their stored byte form, as a persistent medium keeps them.
pub struct PersistentStore {
    table: KeyedTable<Vec<u8>>,
}

impl PersistentStore {
    /// The stored bytes under each key.
    pub closed spec fn view(&self) -> Map<Seq<char>, Seq<u8>> {
        self.table@.map_values(|v: Vec<u8>| v@)
    }

    pub fn new() -> (r: PersistentStore)
        ensures
            r.inv(),
            r@ == Map::<Seq<char>, Seq<u8>>::empty(),
            answers_empty(r),
    {
        let r = PersistentStore { table: KeyedTable::new() };
        assert(r@ =~= Map::<Seq<char>, Seq<u8>>::empty());
        r
    }

    /// Places bytes read back from the medium under `key`, as they are.
    pub fn load_raw(&mut self, key: &String, bytes: Vec<u8>)
        requires
            old(self).inv(),
        ensures
            final(self).inv(),
            final(self)@ == old(self)@.insert(key@, bytes@),
    {
        self.table.insert(key, bytes);
        assert(self@ =~= old(self)@.insert(key@, bytes@));
    }

    /// The stored bytes under `key`, to be written to the medium.
    pub fn raw(&self, key: &String) -> (r: Option<Vec<u8>>)
        requires
            self.inv(),
        ensures
            match r {
                Some(b) => self@.contains_key(key@) && b@ == self@[key@],
                None => !self@.contains_key(key@),
            },
    {
        match self.table.get(key) {
            Some(b) => Some(copy_bytes(b)),
            None => None,
        }
    }
}

/// A copy of a byte vector.
fn copy_bytes(b: &Vec<u8>) -> (r: Vec<u8>)
    ensures
        r@ == b@,
{
    let mut r: Vec<u8> = Vec::new();
    let mut i: usize = 0;
    while i < b.len()
        invariant
            i <= b@.len(),
            r@ == b@.subrange(0, i as int),
        decreases b@.len() - i,
    {
        r.push(b[i]);
        i = i + 1;
        assert(r@ =~= b@.subrange(0, i as int));
    }
    assert(b@.subrange(0, b@.len() as int) =~= b@);
    r
}

impl CacheStore for PersistentStore {
    closed spec fn inv(&self) -> bool {
        self.table.wf()
    }

    open spec fn put_never_fails(&self) -> bool {
        true
    }

    open spec fn lookup(&self, key: Seq<char>) -> Result<Option<CoordinateRecord>, StoreError> {
        if self@.contains_key(key) {
            match record_from_bytes(self@[key]) {
                Some(r) => Ok(Some(r)),
                None => Err(StoreError::Corrupt),
            }
        } else {
            Ok(None)
        }
    }

    fn get(&self, key: &String) -> (r: Result<Option<CoordinateRecord>, StoreError>) {
        match self.table.get(key) {
            Some(b) => match decode_record(b.as_slice()) {
                Some(r) => Ok(Some(r)),
                None => Err(StoreError::Corrupt),
            },
            None => Ok(None),
        }
    }

    fn put(&mut self, key: &String, value: CoordinateRecord) -> (r: Result<(), StoreError>)
        ensures
            r is Ok,
            final(self)@ == old(self)@.insert(key@, record_bytes(value)),
    {
        let bytes = encode_record(&value);
        self.table.insert(key, bytes);
        assert(self@ =~= old(self)@.insert(key@, record_bytes(value)));
        proof {
            crate::codec::lemma_record_round_trip(value);
        }
        Ok(())
    }
}

} // verus!

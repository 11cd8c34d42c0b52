//! The completion ledger: which address has completed which task, and when
//! it first did. A record is written once and never changed or removed.

use vstd::prelude::*;
use crate::felt::Felt;

verus! {

/// What identifies a record: the address's 32 bytes and the task.
pub type TaskKey = (Seq<u8>, u32);

/// The fact that an address completed a task.
#[derive(Clone, Copy, Debug)]
pub struct CompletionRecord {
    pub address: Felt,
    pub task_id: u32,
    /// When the record was created.
    pub timestamp: u64,
}

/// Why the ledger could not answer.
#[derive(Clone, Copy, Debug, PartialEq, Eq, Structural)]
pub enum StoreError {
    /// The storage behind the ledger cannot be reached.
    Unavailable,
}

/// The key of a record.
pub open spec fn record_key(record: CompletionRecord) -> TaskKey {
    (record.address@, record.task_id)
}

/// The key under which an address and a task are recorded.
pub open spec fn task_key(address: Felt, task_id: u32) -> TaskKey {
    (address@, task_id)
}

/// A ledger's contents after one write: an absent key is added with the
/// time of the write, a present one is left as it is.
pub open spec fn upserted(contents: Map<TaskKey, u64>, key: TaskKey, now: u64) -> Map<
    TaskKey,
    u64,
> {
    if contents.contains_key(key) {
        contents
    } else {
        contents.insert(key, now)
    }
}

/// The contents that a sequence of records stands for: the writes replayed
/// in order.
pub open spec fn replay(records: Seq<CompletionRecord>) -> Map<TaskKey, u64>
    decreases records.len(),
{
    if records.len() == 0 {
        Map::empty()
    } else {
        upserted(
            replay(records.drop_last()),
            record_key(records.last()),
            records.last().timestamp,
        )
    }
}

/// The records after one write for an address and a task at the time
/// `now`: a record is added if none has the key, else nothing changes.
pub open spec fn after_upsert(
    records: Seq<CompletionRecord>,
    address: Felt,
    task_id: u32,
    now: u64,
) -> Seq<CompletionRecord> {
    if replay(records).contains_key(task_key(address, task_id)) {
        records
    } else {
        records.push(CompletionRecord { address, task_id, timestamp: now })
    }
}

/// The records after one write for an address and a task at each of the
/// times, in order.
pub open spec fn after_upserts(
    records: Seq<CompletionRecord>,
    address: Felt,
    task_id: u32,
    times: Seq<u64>,
) -> Seq<CompletionRecord>
    decreases times.len(),
{
    if times.len() == 0 {
        records
    } else {
        after_upsert(
            after_upserts(records, address, task_id, times.drop_last()),
            address,
            task_id,
            times.last(),
        )
    }
}

/// How many of the records have the key.
pub open spec fn count_key(records: Seq<CompletionRecord>, key: TaskKey) -> nat
    decreases records.len(),
{
    if records.len() == 0 {
        0
    } else {
        count_key(records.drop_last(), key) + if record_key(records.last()) == key {
            1nat
        } else {
            0nat
        }
    }
}

/// No two of the records have the same key.
pub open spec fn distinct_keys(records: Seq<CompletionRecord>) -> bool {
    forall|i: int, j: int|
        0 <= i < j < records.len() ==> record_key(#[trigger] records[i]) != record_key(
            #[trigger] records[j],
        )
}

/// Whether every one of the tasks is recorded for the address.
pub open spec fn all_recorded(contents: Map<TaskKey, u64>, address: Seq<u8>, task_ids: Seq<u32>) -> bool {
    forall|i: int| 0 <= i < task_ids.len() ==> contents.contains_key((address, #[trigger] task_ids[i]))
}

/// A key is in the replayed contents exactly if some record has it.
pub proof fn lemma_replay_contains(records: Seq<CompletionRecord>, key: TaskKey)
    ensures
        replay(records).contains_key(key) <==> exists|i: int|
            0 <= i < records.len() && record_key(#[trigger] records[i]) == key,
    decreases records.len(),
{
    if records.len() > 0 {
        let front = records.drop_last();
        lemma_replay_contains(front, key);
        if replay(records).contains_key(key) {
            if replay(front).contains_key(key) {
                let i = choose|i: int| 0 <= i < front.len() && record_key(#[trigger] front[i]) == key;
                assert(record_key(records[i]) == key);
            } else {
                assert(record_key(records[records.len() - 1]) == key);
            }
        }
        if exists|i: int| 0 <= i < records.len() && record_key(#[trigger] records[i]) == key {
            let i = choose|i: int| 0 <= i < records.len() && record_key(#[trigger] records[i]) == key;
            if i < front.len() {
                assert(record_key(front[i]) == key);
            }
        }
    }
}

/// The time kept for a key is that of its record.
pub proof fn lemma_replay_timestamp(records: Seq<CompletionRecord>, i: int)
    requires
        distinct_keys(records),
        0 <= i < records.len(),
    ensures
        replay(records).contains_key(record_key(records[i])),
        replay(records)[record_key(records[i])] == records[i].timestamp,
    decreases records.len(),
{
    let front = records.drop_last();
    let key = record_key(records[i]);
    lemma_replay_contains(front, key);
    if i < front.len() {
        assert(front[i] == records[i]);
        assert(distinct_keys(front)) by {
            assert forall|a: int, b: int| 0 <= a < b < front.len() implies record_key(
                #[trigger] front[a],
            ) != record_key(#[trigger] front[b]) by {
                assert(front[a] == records[a] && front[b] == records[b]);
            }
        }
        lemma_replay_timestamp(front, i);
    } else {
        if replay(front).contains_key(key) {
            let j = choose|j: int| 0 <= j < front.len() && record_key(#[trigger] front[j]) == key;
            assert(front[j] == records[j]);
            assert(false);
        }
    }
}

/// Among records with distinct keys, a key that occurs is counted once and
/// one that does not is counted zero times.
pub proof fn lemma_count_distinct(records: Seq<CompletionRecord>, key: TaskKey)
    requires
        distinct_keys(records),
    ensures
        count_key(records, key) == if replay(records).contains_key(key) {
            1nat
        } else {
            0nat
        },
    decreases records.len(),
{
    if records.len() > 0 {
        let front = records.drop_last();
        assert(distinct_keys(front)) by {
            assert forall|a: int, b: int| 0 <= a < b < front.len() implies record_key(
                #[trigger] front[a],
            ) != record_key(#[trigger] front[b]) by {
                assert(front[a] == records[a] && front[b] == records[b]);
            }
        }
        lemma_count_distinct(front, key);
        lemma_replay_contains(front, key);
        if record_key(records.last()) == key && replay(front).contains_key(key) {
            let j = choose|j: int| 0 <= j < front.len() && record_key(#[trigger] front[j]) == key;
            assert(front[j] == records[j]);
            assert(records[records.len() - 1] == records.last());
            assert(false);
        }
    }
}

/// One write leaves records with distinct keys, exactly one of them for the
/// written key, and changes the contents as `upserted` says.
pub proof fn lemma_after_upsert(
    records: Seq<CompletionRecord>,
    address: Felt,
    task_id: u32,
    now: u64,
)
    requires
        distinct_keys(records),
    ensures
        distinct_keys(after_upsert(records, address, task_id, now)),
        replay(after_upsert(records, address, task_id, now)) == upserted(
            replay(records),
            task_key(address, task_id),
            now,
        ),
        replay(after_upsert(records, address, task_id, now)).contains_key(
            task_key(address, task_id),
        ),
        count_key(after_upsert(records, address, task_id, now), task_key(address, task_id)) == 1,
{
    let key = task_key(address, task_id);
    let after = after_upsert(records, address, task_id, now);
    if !replay(records).contains_key(key) {
        lemma_replay_contains(records, key);
        assert(after.drop_last() =~= records);
        assert(distinct_keys(after)) by {
            assert forall|a: int, b: int| 0 <= a < b < after.len() implies record_key(
                #[trigger] after[a],
            ) != record_key(#[trigger] after[b]) by {
                assert(after[a] == records[a]);
                if b < records.len() {
                    assert(after[b] == records[b]);
                }
            }
        }
    }
    lemma_count_distinct(after, key);
}

/// Idempotence. However often the completion of one task by one address is
/// written, and at whatever times: after the first write there is exactly
/// one record of it, it is the one that the first write left, and no later
/// write changes anything.
pub proof fn lemma_upsert_idempotent(
    records: Seq<CompletionRecord>,
    address: Felt,
    task_id: u32,
    times: Seq<u64>,
)
    requires
        distinct_keys(records),
        times.len() >= 1,
    ensures
        after_upserts(records, address, task_id, times) == after_upsert(
            records,
            address,
            task_id,
            times[0],
        ),
        count_key(after_upserts(records, address, task_id, times), task_key(address, task_id))
            == 1,
        replay(after_upserts(records, address, task_id, times)).contains_key(
            task_key(address, task_id),
        ),
    decreases times.len(),
{
    lemma_after_upsert(records, address, task_id, times[0]);
    if times.len() == 1 {
        assert(times.drop_last() =~= Seq::<u64>::empty());
        assert(after_upserts(records, address, task_id, times.drop_last()) == records);
        assert(times.last() == times[0]);
    } else {
        lemma_upsert_idempotent(records, address, task_id, times.drop_last());
        assert(times.drop_last()[0] == times[0]);
    }
}

/// Two writers. Whichever of two writes of the same completion comes first,
/// the ledger ends with exactly one record of it, and with the same keys
/// either way; the record carries the time of the write that came first.
pub proof fn lemma_upsert_in_either_order(
    records: Seq<CompletionRecord>,
    address: Felt,
    task_id: u32,
    one: u64,
    other: u64,
)
    requires
        distinct_keys(records),
    ensures
        count_key(
            after_upsert(after_upsert(records, address, task_id, one), address, task_id, other),
            task_key(address, task_id),
        ) == 1,
        count_key(
            after_upsert(after_upsert(records, address, task_id, other), address, task_id, one),
            task_key(address, task_id),
        ) == 1,
        after_upsert(after_upsert(records, address, task_id, one), address, task_id, other)
            == after_upsert(records, address, task_id, one),
        after_upsert(after_upsert(records, address, task_id, other), address, task_id, one)
            == after_upsert(records, address, task_id, other),
        replay(after_upsert(records, address, task_id, one)).dom() == replay(
            after_upsert(records, address, task_id, other),
        ).dom(),
{
    lemma_after_upsert(records, address, task_id, one);
    lemma_after_upsert(records, address, task_id, other);
    assert(replay(after_upsert(records, address, task_id, one)).dom() =~= replay(
        after_upsert(records, address, task_id, other),
    ).dom());
}

/// A write for one key leaves every other key as it was.
pub proof fn lemma_upsert_leaves_others(
    records: Seq<CompletionRecord>,
    address: Felt,
    task_id: u32,
    now: u64,
    other: TaskKey,
)
    requires
        distinct_keys(records),
        other != task_key(address, task_id),
    ensures
        replay(after_upsert(records, address, task_id, now)).contains_key(other) == replay(
            records,
        ).contains_key(other),
        count_key(after_upsert(records, address, task_id, now), other) == count_key(
            records,
            other,
        ),
{
    lemma_after_upsert(records, address, task_id, now);
    lemma_count_distinct(records, other);
    lemma_count_distinct(after_upsert(records, address, task_id, now), other);
}

/// The ledger. It holds the records and knows whether the storage behind it
/// can be reached; while it cannot, every operation fails and changes
/// nothing.
pub struct Ledger {
    records: Vec<CompletionRecord>,
    available: bool,
}

impl View for Ledger {
    type V = Map<TaskKey, u64>;

    /// For each recorded address and task, the time of the first write.
    closed spec fn view(&self) -> Map<TaskKey, u64> {
        replay(self.records@)
    }
}

impl Ledger {
    #[verifier::type_invariant]
    spec fn well_formed(self) -> bool {
        distinct_keys(self.records@)
    }

    /// The records, oldest first.
    pub closed spec fn records(self) -> Seq<CompletionRecord> {
        self.records@
    }

    /// Whether the storage can be reached.
    pub closed spec fn available(self) -> bool {
        self.available
    }

    /// How many records the ledger holds for an address and a task.
    pub open spec fn record_count(self, address: Felt, task_id: u32) -> nat {
        count_key(self.records(), task_key(address, task_id))
    }

    /// The contents are the records replayed.
    pub proof fn lemma_view(self)
        ensures
            self@ == replay(self.records()),
    {
    }

    /// An empty ledger whose storage can be reached.
    pub fn new() -> (ledger: Ledger)
        ensures
            ledger@ == Map::<TaskKey, u64>::empty(),
            ledger.records() == Seq::<CompletionRecord>::empty(),
            distinct_keys(ledger.records()),
            ledger.available(),
    {
        Ledger { records: Vec::new(), available: true }
    }

    /// The ledger that stored records stand for: the records are written
    /// in their order, so that of two records with one key the first counts.
    pub fn from_records(records: &Vec<CompletionRecord>) -> (ledger: Ledger)
        ensures
            ledger@ == replay(records@),
            ledger.available(),
            distinct_keys(ledger.records()),
    {
        let mut ledger = Ledger::new();
        let mut i: usize = 0;
        assert(records@.take(0) =~= Seq::<CompletionRecord>::empty());
        while i < records.len()
            invariant
                i <= records@.len(),
                ledger.available(),
                ledger@ == replay(records@.take(i as int)),
                distinct_keys(ledger.records()),
            decreases records@.len() - i,
        {
            let record = records[i];
            proof {
                assert(records@.take(i + 1).drop_last() =~= records@.take(i as int));
            }
            let _ = ledger.upsert_at(&record.address, record.task_id, record.timestamp);
            i += 1;
        }
        assert(records@.take(records@.len() as int) =~= records@);
        ledger
    }

    /// Whether the storage can be reached.
    pub fn is_available(&self) -> (available: bool)
        ensures
            available == self.available(),
    {
        self.available
    }

    /// Notes that the storage can or cannot be reached. The records stay.
    pub fn set_available(&mut self, available: bool)
        ensures
            final(self).available() == available,
            final(self).records() == old(self).records(),
            final(self)@ == old(self)@,
    {
        proof {
            use_type_invariant(&*self);
        }
        self.available = available;
    }

    /// The number of records.
    pub fn len(&self) -> (n: usize)
        ensures
            n == self.records().len(),
            n == self@.dom().len(),
            self@.dom().finite(),
            distinct_keys(self.records()),
    {
        proof {
            use_type_invariant(self);
            lemma_replay_size(self.records@);
        }
        self.records.len()
    }

    /// The records, oldest first: what has to be stored to keep the ledger.
    pub fn entries(&self) -> (records: &Vec<CompletionRecord>)
        ensures
            records@ == self.records(),
            distinct_keys(records@),
            replay(records@) == self@,
    {
        proof {
            use_type_invariant(self);
        }
        &self.records
    }

    /// Where the record of an address and a task stands, if there is one.
    fn position(&self, address: &Felt, task_id: u32) -> (found: Option<usize>)
        ensures
            found matches Some(i) ==> i < self.records().len() && record_key(
                self.records()[i as int],
            ) == task_key(*address, task_id),
            found is Some <==> self@.contains_key(task_key(*address, task_id)),
    {
        let mut i: usize = 0;
        while i < self.records.len()
            invariant
                i <= self.records@.len(),
                forall|j: int|
                    0 <= j < i ==> record_key(#[trigger] self.records@[j]) != task_key(
                        *address,
                        task_id,
                    ),
            decreases self.records@.len() - i,
        {
            let record = &self.records[i];
            if record.task_id == task_id && record.address.eq(address) {
                proof {
                    lemma_replay_contains(self.records@, task_key(*address, task_id));
                }
                return Some(i);
            }
            i += 1;
        }
        proof {
            lemma_replay_contains(self.records@, task_key(*address, task_id));
        }
        None
    }

    /// Records that the address completed the task at the time `now`, unless
    /// that is recorded already: then nothing changes, whatever `now` is.
    pub fn upsert_at(&mut self, address: &Felt, task_id: u32, now: u64) -> (written: Result<
        (),
        StoreError,
    >)
        ensures
            final(self).available() == old(self).available(),
            written is Ok <==> old(self).available(),
            written matches Err(e) ==> e == StoreError::Unavailable,
            written is Err ==> final(self).records() == old(self).records(),
            written is Ok ==> final(self).records() == after_upsert(
                old(self).records(),
                *address,
                task_id,
                now,
            ),
            final(self)@ == if written is Ok {
                upserted(old(self)@, task_key(*address, task_id), now)
            } else {
                old(self)@
            },
            written is Ok ==> final(self).record_count(*address, task_id) == 1,
            distinct_keys(old(self).records()),
            distinct_keys(final(self).records()),
    {
        proof {
            use_type_invariant(&*self);
            lemma_after_upsert(self.records@, *address, task_id, now);
        }
        if !self.available {
            return Err(StoreError::Unavailable);
        }
        if self.position(address, task_id).is_none() {
            let record = CompletionRecord { address: *address, task_id, timestamp: now };
            let mut records: Vec<CompletionRecord> = Vec::new();
            std::mem::swap(&mut self.records, &mut records);
            records.push(record);
            self.records = records;
        }
        Ok(())
    }

    /// Records that the address completed the task, at the time that the
    /// system's clock shows, unless that is recorded already.
    pub fn upsert(&mut self, address: &Felt, task_id: u32) -> (written: Result<(), StoreError>)
        ensures
            final(self).available() == old(self).available(),
            written is Ok <==> old(self).available(),
            written matches Err(e) ==> e == StoreError::Unavailable,
            written is Err ==> final(self).records() == old(self).records() && final(self)@
                == old(self)@,
            written is Ok ==> exists|now: u64|
                {
                    &&& final(self).records() == #[trigger] after_upsert(
                        old(self).records(),
                        *address,
                        task_id,
                        now,
                    )
                    &&& final(self)@ == upserted(old(self)@, task_key(*address, task_id), now)
                },
            written is Ok ==> final(self)@.contains_key(task_key(*address, task_id)),
            written is Ok ==> final(self).record_count(*address, task_id) == 1,
            distinct_keys(old(self).records()),
            distinct_keys(final(self).records()),
    {
        let now = unix_time();
        self.upsert_at(address, task_id, now)
    }

    /// Whether the address has completed the task.
    pub fn has_completed(&self, address: &Felt, task_id: u32) -> (found: Result<bool, StoreError>)
        ensures
            found is Ok <==> self.available(),
            found matches Err(e) ==> e == StoreError::Unavailable,
            found matches Ok(present) ==> present == self@.contains_key(
                task_key(*address, task_id),
            ),
    {
        if !self.available {
            return Err(StoreError::Unavailable);
        }
        Ok(self.position(address, task_id).is_some())
    }

    /// When the address first completed the task, if it has.
    pub fn completed_at(&self, address: &Felt, task_id: u32) -> (found: Result<
        Option<u64>,
        StoreError,
    >)
        ensures
            found is Ok <==> self.available(),
            found matches Err(e) ==> e == StoreError::Unavailable,
            found matches Ok(when) ==> when == if self@.contains_key(task_key(*address, task_id)) {
                Some(self@[task_key(*address, task_id)])
            } else {
                None
            },
    {
        if !self.available {
            return Err(StoreError::Unavailable);
        }
        match self.position(address, task_id) {
            Some(i) => {
                proof {
                    use_type_invariant(self);
                    lemma_replay_timestamp(self.records@, i as int);
                }
                Ok(Some(self.records[i].timestamp))
            },
            None => Ok(None),
        }
    }

    /// Whether the address has completed every one of the tasks. The answer
    /// is taken from one state of the ledger.
    pub fn exists_all(&self, address: &Felt, task_ids: &Vec<u32>) -> (found: Result<
        bool,
        StoreError,
    >)
        ensures
            found is Ok <==> self.available(),
            found matches Err(e) ==> e == StoreError::Unavailable,
            found matches Ok(all) ==> all == all_recorded(self@, address@, task_ids@),
    {
        if !self.available {
            return Err(StoreError::Unavailable);
        }
        let mut i: usize = 0;
        while i < task_ids.len()
            invariant
                i <= task_ids@.len(),
                self.available(),
                forall|j: int|
                    0 <= j < i ==> self@.contains_key((address@, #[trigger] task_ids@[j])),
            decreases task_ids@.len() - i,
        {
            if self.position(address, task_ids[i]).is_none() {
                return Ok(false);
            }
            i += 1;
        }
        Ok(true)
    }
}

/// Records with distinct keys stand for as many entries as there are
/// records.
pub proof fn lemma_replay_size(records: Seq<CompletionRecord>)
    requires
        distinct_keys(records),
    ensures
        replay(records).dom().finite(),
        replay(records).dom().len() == records.len(),
    decreases records.len(),
{
    if records.len() > 0 {
        let front = records.drop_last();
        assert(distinct_keys(front)) by {
            assert forall|a: int, b: int| 0 <= a < b < front.len() implies record_key(
                #[trigger] front[a],
            ) != record_key(#[trigger] front[b]) by {
                assert(front[a] == records[a] && front[b] == records[b]);
            }
        }
        lemma_replay_size(front);
        let key = record_key(records.last());
        lemma_replay_contains(front, key);
        if replay(front).contains_key(key) {
            let j = choose|j: int| 0 <= j < front.len() && record_key(#[trigger] front[j]) == key;
            assert(front[j] == records[j]);
            assert(records[records.len() - 1] == records.last());
            assert(false);
        }
        assert(replay(records).dom() =~= replay(front).dom().insert(key));
    } else {
        assert(replay(records).dom() =~= Set::<TaskKey>::empty());
    }
}

/// `std::time::SystemTime::elapsed`, asked of the Unix epoch: the seconds
/// since then by the system's clock, or zero where the clock stands before
/// the epoch. Nothing is promised of the reading.
#[verifier::external_body]
fn unix_time() -> u64 {
    match std::time::UNIX_EPOCH.elapsed() {
        Ok(since) => since.as_secs(),
        Err(_) => 0,
    }
}

} // verus!

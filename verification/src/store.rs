//! The live deposits, each found by its commitment.

use crate::denomination::{
    accepted, counted_once_more, is_accepted, room_for, total_amount, total_deposits,
    DenominationRegistry,
};
use crate::error::MixerError;
use vstd::prelude::*;

verus! {

/// What the pool keeps of one deposit.
#[derive(Clone, Copy, Debug, PartialEq, Eq, Structural)]
pub struct DepositRecord {
    /// The amount locked, one of the accepted denominations, in yoctoNEAR.
    pub denomination: u128,
    /// The time of the deposit, in nanoseconds.
    pub created_at: u64,
}

/// A live deposit with the commitment it stands behind.
#[derive(Debug, PartialEq, Eq)]
pub struct LiveDeposit {
    /// The commitment, which no other live deposit shares.
    pub commitment: String,
    /// What is kept of the deposit.
    pub record: DepositRecord,
}

/// The commitments of `entries`, in their order.
pub open spec fn live_commitments(entries: Seq<LiveDeposit>) -> Seq<Seq<char>> {
    Seq::new(entries.len(), |at: int| entries[at].commitment@)
}

/// The record of each commitment in `entries`.
pub open spec fn live_map(entries: Seq<LiveDeposit>) -> Map<Seq<char>, DepositRecord> {
    Map::new(
        |id: Seq<char>| live_commitments(entries).contains(id),
        |id: Seq<char>| entries[live_commitments(entries).index_of(id)].record,
    )
}

/// Whether `entries` can be the deposits of a store: no commitment occurs
/// twice, and every deposit is in an accepted amount.
pub open spec fn live_valid(entries: Seq<LiveDeposit>) -> bool {
    &&& live_commitments(entries).no_duplicates()
    &&& forall|at: int|
        0 <= at < entries.len() ==> accepted(#[trigger] entries[at].record.denomination)
}

/// The deposits that have not been withdrawn, and the registry that counts
/// every deposit ever stored.
pub struct CommitmentStore {
    entries: Vec<LiveDeposit>,
    registry: DenominationRegistry,
}

impl View for CommitmentStore {
    type V = Map<Seq<char>, DepositRecord>;

    /// The live record of each commitment.
    open spec fn view(&self) -> Map<Seq<char>, DepositRecord> {
        self.as_map()
    }
}

impl CommitmentStore {
    spec fn keys(self) -> Seq<Seq<char>> {
        live_commitments(self.entries@)
    }

    /// The live record of each commitment.
    pub closed spec fn as_map(self) -> Map<Seq<char>, DepositRecord> {
        live_map(self.entries@)
    }

    /// The number of deposits ever stored in each accepted amount.
    pub closed spec fn counts(self) -> Map<u128, nat> {
        self.registry.counts()
    }

    /// No commitment is held twice, every record is in an accepted amount,
    /// and the registry is in order.
    pub closed spec fn wf(self) -> bool {
        &&& live_valid(self.entries@)
        &&& self.registry.wf()
    }

    /// Every live record is in an accepted amount.
    pub proof fn lemma_records_accepted(self)
        requires
            self.wf(),
        ensures
            forall|id: Seq<char>| #[trigger]
                self@.contains_key(id) ==> accepted(self@[id].denomination),
    {
        assert forall|id: Seq<char>| #[trigger] self@.contains_key(id) implies accepted(
            self@[id].denomination,
        ) by {
            let at = self.keys().index_of(id);
            assert(0 <= at < self.entries.len());
        }
    }

    /// The counts are known for exactly the accepted amounts, and their
    /// totals fit the integers they are reported in.
    pub proof fn lemma_counts(self)
        requires
            self.wf(),
        ensures
            forall|amount: u128| self.counts().contains_key(amount) <==> accepted(amount),
            total_deposits(self.counts()) <= u64::MAX,
            total_amount(self.counts()) <= u128::MAX,
    {
        self.registry.lemma_counts_domain();
        self.registry.lemma_totals_fit();
    }

    proof fn lemma_record_at(self, at: int)
        requires
            self.wf(),
            0 <= at < self.entries.len(),
        ensures
            self@.contains_key(self.entries[at].commitment@),
            self@[self.entries[at].commitment@] == self.entries[at].record,
    {
        assert(self.keys()[at] == self.entries[at].commitment@);
        let found = self.keys().index_of(self.entries[at].commitment@);
        assert(0 <= found < self.keys().len() && self.keys()[found] == self.keys()[at]);
    }

    /// A store without deposits, whose registry has counted nothing.
    pub fn new() -> (store: Self)
        ensures
            store.wf(),
            store@ == Map::<Seq<char>, DepositRecord>::empty(),
            forall|amount: u128| accepted(amount) ==> store.counts()[amount] == 0,
            total_deposits(store.counts()) == 0,
            total_amount(store.counts()) == 0,
    {
        let store = CommitmentStore { entries: Vec::new(), registry: DenominationRegistry::new() };
        assert(store@ =~= Map::<Seq<char>, DepositRecord>::empty());
        store
    }

    fn position(&self, id: &String) -> (found: Option<usize>)
        requires
            self.wf(),
        ensures
            found is Some <==> self@.contains_key(id@),
            found matches Some(at) ==> at < self.entries.len() && self.entries[at as int].commitment@
                == id@,
    {
        let mut at: usize = 0;
        while at < self.entries.len()
            invariant
                at <= self.entries.len(),
                forall|seen: int| 0 <= seen < at ==> self.keys()[seen] != id@,
            decreases self.entries.len() - at,
        {
            if self.entries[at].commitment == *id {
                assert(self.keys()[at as int] == id@);
                return Some(at);
            }
            at += 1;
        }
        proof {
            if self.keys().contains(id@) {
                let at = self.keys().index_of(id@);
                assert(self.keys()[at] == id@);
            }
        }
        None
    }

    /// Whether `id` has a live deposit.
    pub fn contains(&self, id: &String) -> (yes: bool)
        requires
            self.wf(),
        ensures
            yes == self@.contains_key(id@),
    {
        self.position(id).is_some()
    }

    /// The live record of `id`, or `UnknownCommitment` where it has none.
    pub fn get(&self, id: &String) -> (found: Result<DepositRecord, MixerError>)
        requires
            self.wf(),
        ensures
            self@.contains_key(id@) ==> found == Ok::<DepositRecord, MixerError>(self@[id@]),
            !self@.contains_key(id@) ==> found == Err::<DepositRecord, MixerError>(
                MixerError::UnknownCommitment,
            ),
    {
        match self.position(id) {
            Some(at) => {
                proof {
                    self.lemma_record_at(at as int);
                }
                Ok(self.entries[at].record)
            },
            None => Err(MixerError::UnknownCommitment),
        }
    }

    /// Stores a deposit of `denomination` made at `timestamp` under `id` and
    /// counts it, or fails with `DuplicateCommitment`, changing nothing, where
    /// `id` already has a live deposit.
    pub fn insert(&mut self, id: String, denomination: u128, timestamp: u64) -> (done: Result<
        (),
        MixerError,
    >)
        requires
            old(self).wf(),
            accepted(denomination),
            room_for(old(self).counts(), denomination),
        ensures
            final(self).wf(),
            old(self)@.contains_key(id@) ==> done == Err::<(), MixerError>(
                MixerError::DuplicateCommitment,
            ) && *final(self) == *old(self),
            !old(self)@.contains_key(id@) ==> done == Ok::<(), MixerError>(()) && final(self)@
                == old(self)@.insert(id@, DepositRecord { denomination, created_at: timestamp })
                && final(self).counts() == counted_once_more(old(self).counts(), denomination),
    {
        if self.contains(&id) {
            return Err(MixerError::DuplicateCommitment);
        }
        let ghost key = id@;
        let record = DepositRecord { denomination, created_at: timestamp };
        self.entries.push(LiveDeposit { commitment: id, record });
        self.registry.record(denomination);
        proof {
            let before = old(self).keys();
            let after = self.keys();
            assert(after =~= before.push(key));
            assert forall|id: Seq<char>| self@.contains_key(id) <==> old(self)@.insert(
                key,
                record,
            ).contains_key(id) by {
                if before.contains(id) {
                    let at = before.index_of(id);
                    assert(after[at] == id);
                }
                if id == key {
                    assert(after[before.len() as int] == key);
                }
            }
            assert forall|id: Seq<char>| self@.contains_key(id) implies self@[id]
                == old(self)@.insert(key, record)[id] by {
                let at = after.index_of(id);
                if id != key {
                    assert(before[at] == id);
                    let was = before.index_of(id);
                    assert(before[was] == id);
                }
            }
            assert(self@ =~= old(self)@.insert(key, record));
        }
        Ok(())
    }

    /// Deletes the record of `id`; the registry keeps its counts.
    pub fn remove(&mut self, id: &String)
        requires
            old(self).wf(),
        ensures
            final(self).wf(),
            final(self)@ == old(self)@.remove(id@),
            final(self).counts() == old(self).counts(),
    {
        match self.position(id) {
            Some(at) => {
                self.entries.remove(at);
                proof {
                    let before = old(self).keys();
                    let after = self.keys();
                    assert(after =~= before.remove(at as int));
                    assert forall|a: int, b: int|
                        0 <= a < after.len() && 0 <= b < after.len() && a != b implies after[a]
                        != after[b] by {
                        let a0 = if a < at { a } else { a + 1 };
                        let b0 = if b < at { b } else { b + 1 };
                        assert(after[a] == before[a0] && after[b] == before[b0]);
                    }
                    assert forall|key: Seq<char>| self@.contains_key(key) <==> old(self)@.remove(
                        id@,
                    ).contains_key(key) by {
                        assert(before[at as int] == id@);
                        if after.contains(key) {
                            let a = after.index_of(key);
                            let a0 = if a < at { a } else { a + 1 };
                            assert(after[a] == key);
                            assert(before[a0] == key);
                            assert(before.contains(key));
                        }
                        if before.contains(key) && key != id@ {
                            let b0 = before.index_of(key);
                            assert(before[b0] == key);
                            let b = if b0 < at { b0 } else { b0 - 1 };
                            assert(after[b] == key);
                            assert(after.contains(key));
                        }
                    }
                    assert forall|key: Seq<char>| self@.contains_key(key) implies self@[key]
                        == old(self)@.remove(id@)[key] by {
                        let a = after.index_of(key);
                        let a0 = if a < at { a } else { a + 1 };
                        assert(before[a0] == key);
                        let was = before.index_of(key);
                        assert(before[was] == key);
                    }
                    assert(self@ =~= old(self)@.remove(id@));
                }
            },
            None => {
                assert(self@ =~= old(self)@.remove(id@));
            },
        }
    }

    /// The live deposits, as `restore` takes them.
    pub fn entries(&self) -> (listed: Vec<LiveDeposit>)
        requires
            self.wf(),
        ensures
            live_valid(listed@),
            live_map(listed@) == self@,
    {
        let mut listed: Vec<LiveDeposit> = Vec::new();
        let mut at: usize = 0;
        while at < self.entries.len()
            invariant
                at <= self.entries.len(),
                listed.len() == at,
                forall|seen: int|
                    0 <= seen < at ==> listed[seen].commitment@ == self.entries[seen].commitment@
                        && listed[seen].record == self.entries[seen].record,
            decreases self.entries.len() - at,
        {
            let entry = &self.entries[at];
            listed.push(LiveDeposit { commitment: entry.commitment.clone(), record: entry.record });
            at += 1;
        }
        proof {
            assert(live_commitments(listed@) =~= self.keys());
            assert(live_map(listed@) =~= self@);
        }
        listed
    }

    /// The store that holds `entries` and counts with `registry`, or `None`
    /// where a commitment occurs twice or a deposit is in no accepted amount.
    pub fn restore(entries: Vec<LiveDeposit>, registry: DenominationRegistry) -> (restored: Option<
        Self,
    >)
        requires
            registry.wf(),
        ensures
            restored is Some <==> live_valid(entries@),
            restored matches Some(store) ==> store.wf() && store@ == live_map(entries@)
                && store.counts() == registry.counts(),
    {
        let mut at: usize = 0;
        while at < entries.len()
            invariant
                at <= entries.len(),
                forall|a: int, b: int|
                    0 <= a < b < at ==> live_commitments(entries@)[a] != live_commitments(
                        entries@,
                    )[b],
                forall|seen: int|
                    0 <= seen < at ==> accepted(#[trigger] entries[seen].record.denomination),
            decreases entries.len() - at,
        {
            if !is_accepted(entries[at].record.denomination) {
                return None;
            }
            let mut before: usize = 0;
            while before < at
                invariant
                    before <= at < entries.len(),
                    forall|a: int|
                        0 <= a < before ==> live_commitments(entries@)[a] != live_commitments(
                            entries@,
                        )[at as int],
                decreases at - before,
            {
                if entries[before].commitment == entries[at].commitment {
                    assert(live_commitments(entries@)[before as int] == live_commitments(
                        entries@,
                    )[at as int]);
                    return None;
                }
                before += 1;
            }
            at += 1;
        }
        Some(CommitmentStore { entries, registry })
    }

    /// The registry that counts the deposits ever stored.
    pub fn registry(&self) -> (registry: &DenominationRegistry)
        requires
            self.wf(),
        ensures
            registry.wf(),
            registry.counts() == self.counts(),
    {
        &self.registry
    }
}

} // verus!

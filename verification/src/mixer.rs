//! The pool itself: deposits go in under a commitment, and each comes out
//! once, after the time lock, against an authorization that is then spent.

use crate::auth::{commitment_of_secret, proof_fits, token_of_secret, Authorization};
use crate::denomination::{
    accepted, counted_once_more, counts_of, counts_valid, denominations, is_accepted,
    lemma_total_once_more, room_for, total_amount, total_deposits, DenominationRegistry, PoolStats,
};
use crate::error::MixerError;
use crate::fee::{fee_of, net_of, split, MAX_FEE_BASIS_POINTS};
use crate::spent::{token_set, SpentSet};
use crate::store::{live_map, live_valid, CommitmentStore, DepositRecord, LiveDeposit};
use vstd::prelude::*;

verus! {

/// The time a deposit stays locked, in seconds.
pub const MIN_DELAY: u64 = 180;

/// The time a deposit stays locked, in nanoseconds, the unit of the clock.
pub const MIN_DELAY_NANOS: u64 = MIN_DELAY * 1_000_000_000;

/// A payment the pool asks its host to make. The pool issues it and does not
/// learn whether it arrived.
#[derive(Debug, PartialEq, Eq)]
pub struct Transfer {
    /// The account to pay.
    pub recipient: String,
    /// The amount to pay, in yoctoNEAR.
    pub amount: u128,
}

impl View for Transfer {
    type V = (Seq<char>, u128);

    open spec fn view(&self) -> (Seq<char>, u128) {
        (self.recipient@, self.amount)
    }
}

/// Each transfer of `transfers` as the account and the amount it names.
pub open spec fn transfer_views(transfers: Seq<Transfer>) -> Seq<(Seq<char>, u128)> {
    Seq::new(transfers.len(), |at: int| transfers[at]@)
}

/// The pool as the contracts speak of it.
pub struct PoolState {
    /// The live deposit behind each commitment.
    pub deposits: Map<Seq<char>, DepositRecord>,
    /// The tokens consumed by withdrawals.
    pub spent: Set<Seq<char>>,
    /// The account that receives the fees and may change their rate.
    pub owner: Seq<char>,
    /// The fee rate, in hundredths of a percent.
    pub fee_basis_points: u16,
    /// The number of deposits ever taken in each accepted amount.
    pub counts: Map<u128, nat>,
}

impl PoolState {
    /// What holds of every pool: the fee rate is within its maximum, every
    /// live deposit is in an accepted amount, and exactly the accepted
    /// amounts are counted.
    pub open spec fn valid(self) -> bool {
        &&& self.fee_basis_points <= MAX_FEE_BASIS_POINTS
        &&& forall|id: Seq<char>| #[trigger]
            self.deposits.contains_key(id) ==> accepted(self.deposits[id].denomination)
        &&& forall|amount: u128| self.counts.contains_key(amount) <==> accepted(amount)
    }
}

/// A pool of `owner` charging `fee_basis_points`, before its first deposit.
pub open spec fn opened(owner: Seq<char>, fee_basis_points: u16) -> PoolState {
    PoolState {
        deposits: Map::empty(),
        spent: Set::empty(),
        owner,
        fee_basis_points,
        counts: Map::new(|amount: u128| accepted(amount), |amount: u128| 0nat),
    }
}

/// Whether a deposit recorded in `record` may be withdrawn at `now`: the
/// minimum delay has passed in full. The bound itself is included.
pub open spec fn unlocked(record: DepositRecord, now: u64) -> bool {
    now - record.created_at >= MIN_DELAY_NANOS
}

/// The transfers a withdrawal of `gross` issues: the fee to `owner`, unless
/// it is zero, and then the rest to `recipient`.
pub open spec fn transfers_for(
    owner: Seq<char>,
    recipient: Seq<char>,
    gross: u128,
    fee_basis_points: u16,
) -> Seq<(Seq<char>, u128)> {
    let fee = fee_of(gross as nat, fee_basis_points as nat) as u128;
    let net = net_of(gross as nat, fee_basis_points as nat) as u128;
    if fee > 0 {
        seq![(owner, fee), (recipient, net)]
    } else {
        seq![(recipient, net)]
    }
}

/// What a deposit of `amount` under `commitment` at `now` does to `pool`.
/// The amount is looked at first, the commitment second.
pub open spec fn deposit_outcome(
    pool: PoolState,
    commitment: Seq<char>,
    amount: u128,
    now: u64,
) -> Result<PoolState, MixerError> {
    if !accepted(amount) {
        Err(MixerError::InvalidDenomination)
    } else if pool.deposits.contains_key(commitment) {
        Err(MixerError::DuplicateCommitment)
    } else {
        Ok(
            PoolState {
                deposits: pool.deposits.insert(
                    commitment,
                    DepositRecord { denomination: amount, created_at: now },
                ),
                counts: counted_once_more(pool.counts, amount),
                ..pool
            },
        )
    }
}

/// What a withdrawal to `recipient` at `now` does to `pool`, and the
/// transfers it issues, given the commitment and the token of its request and
/// whether its proof holds. A spent token is refused before anything else is
/// looked at; then the commitment must be live, the proof must hold, and the
/// time lock must have run out.
pub open spec fn withdraw_outcome(
    pool: PoolState,
    recipient: Seq<char>,
    commitment: Seq<char>,
    token: Seq<char>,
    proof_holds: bool,
    now: u64,
) -> Result<(PoolState, Seq<(Seq<char>, u128)>), MixerError> {
    if pool.spent.contains(token) {
        Err(MixerError::TokenAlreadySpent)
    } else if !pool.deposits.contains_key(commitment) {
        Err(MixerError::UnknownCommitment)
    } else if !proof_holds {
        Err(MixerError::InvalidAuthorization)
    } else if !unlocked(pool.deposits[commitment], now) {
        Err(MixerError::WithdrawalTooEarly)
    } else {
        Ok(
            (
                PoolState {
                    deposits: pool.deposits.remove(commitment),
                    spent: pool.spent.insert(token),
                    ..pool
                },
                transfers_for(
                    pool.owner,
                    recipient,
                    pool.deposits[commitment].denomination,
                    pool.fee_basis_points,
                ),
            ),
        )
    }
}

/// What `caller` asking for a fee rate of `fee_basis_points` does to `pool`.
/// Who asks is looked at first, the rate second.
pub open spec fn fee_update_outcome(
    pool: PoolState,
    caller: Seq<char>,
    fee_basis_points: u16,
) -> Result<PoolState, MixerError> {
    if caller != pool.owner {
        Err(MixerError::Unauthorized)
    } else if fee_basis_points > MAX_FEE_BASIS_POINTS {
        Err(MixerError::FeeTooHigh)
    } else {
        Ok(PoolState { fee_basis_points, ..pool })
    }
}

/// Everything a pool holds, as plain values, for keeping it between calls.
#[derive(Debug, PartialEq, Eq)]
pub struct PoolSnapshot {
    /// The account that receives the fees and may change their rate.
    pub owner: String,
    /// The fee rate, in hundredths of a percent.
    pub fee_basis_points: u16,
    /// The live deposits.
    pub deposits: Vec<LiveDeposit>,
    /// The tokens consumed by withdrawals.
    pub spent: Vec<String>,
    /// The number of deposits ever taken in each accepted amount, in table
    /// order.
    pub counts: Vec<u64>,
}

impl PoolSnapshot {
    /// Whether a pool can hold these values: the fee rate is within its
    /// maximum, no commitment occurs twice, every deposit is in an accepted
    /// amount, and there is one count for each accepted amount, with totals
    /// in range.
    pub open spec fn valid(self) -> bool {
        &&& self.fee_basis_points <= MAX_FEE_BASIS_POINTS
        &&& live_valid(self.deposits@)
        &&& counts_valid(self.counts@)
    }

    /// The pool that these values describe.
    pub open spec fn state(self) -> PoolState {
        PoolState {
            deposits: live_map(self.deposits@),
            spent: token_set(self.spent@),
            owner: self.owner@,
            fee_basis_points: self.fee_basis_points,
            counts: counts_of(self.counts@),
        }
    }
}

/// A mixing pool: its live deposits, its spent tokens, its owner and its fee
/// rate.
pub struct UtxoMixer {
    deposits: CommitmentStore,
    spent_outputs: SpentSet,
    owner: String,
    fee_basis_points: u16,
}

impl View for UtxoMixer {
    type V = PoolState;

    closed spec fn view(&self) -> PoolState {
        PoolState {
            deposits: self.deposits@,
            spent: self.spent_outputs@,
            owner: self.owner@,
            fee_basis_points: self.fee_basis_points,
            counts: self.deposits.counts(),
        }
    }
}

impl UtxoMixer {
    /// The pool's parts are in order. Every operation keeps this.
    pub closed spec fn wf(self) -> bool {
        &&& self.deposits.wf()
        &&& self.fee_basis_points <= MAX_FEE_BASIS_POINTS
    }

    /// A pool in order is a valid one, and its totals fit the integers they
    /// are reported in.
    pub proof fn lemma_valid(self)
        requires
            self.wf(),
        ensures
            self@.valid(),
            total_deposits(self@.counts) <= u64::MAX,
            total_amount(self@.counts) <= u128::MAX,
    {
        self.deposits.lemma_records_accepted();
        self.deposits.lemma_counts();
    }

    /// Opens a pool of `owner` that charges `fee_basis_points`, or fails with
    /// `FeeTooHigh` where the rate is above the maximum.
    pub fn new(owner: String, fee_basis_points: u16) -> (made: Result<Self, MixerError>)
        ensures
            fee_basis_points > MAX_FEE_BASIS_POINTS ==> made is Err && made->Err_0
                == MixerError::FeeTooHigh,
            fee_basis_points <= MAX_FEE_BASIS_POINTS ==> made is Ok && made->Ok_0.wf()
                && made->Ok_0@ == opened(owner@, fee_basis_points),
            made matches Ok(pool) ==> total_deposits(pool@.counts) == 0 && total_amount(
                pool@.counts,
            ) == 0,
    {
        if fee_basis_points > MAX_FEE_BASIS_POINTS {
            return Err(MixerError::FeeTooHigh);
        }
        let pool = UtxoMixer {
            deposits: CommitmentStore::new(),
            spent_outputs: SpentSet::new(),
            owner,
            fee_basis_points,
        };
        proof {
            pool.deposits.lemma_counts();
            assert(pool@.counts =~= opened(owner@, fee_basis_points).counts);
        }
        Ok(pool)
    }

    /// Takes a deposit of `amount`, made at `now`, under `commitment_hash`.
    /// Fails with `InvalidDenomination` where the amount is not an accepted
    /// one, else with `DuplicateCommitment` where the commitment has a live
    /// deposit; a failure changes nothing. On success the deposit is live and
    /// the count of its amount is one higher.
    pub fn deposit(&mut self, commitment_hash: String, amount: u128, now: u64) -> (done: Result<
        (),
        MixerError,
    >)
        requires
            old(self).wf(),
            accepted(amount) ==> room_for(old(self)@.counts, amount),
        ensures
            final(self).wf(),
            deposit_outcome(old(self)@, commitment_hash@, amount, now) == match done {
                Ok(_) => Ok::<PoolState, MixerError>(final(self)@),
                Err(reason) => Err::<PoolState, MixerError>(reason),
            },
            done is Err ==> *final(self) == *old(self),
            done is Ok ==> final(self)@.counts[amount] == old(self)@.counts[amount] + 1
                && total_deposits(final(self)@.counts) == total_deposits(old(self)@.counts) + 1
                && total_amount(final(self)@.counts) == total_amount(old(self)@.counts) + amount,
    {
        if !is_accepted(amount) {
            return Err(MixerError::InvalidDenomination);
        }
        match self.deposits.insert(commitment_hash, amount, now) {
            Ok(_) => {
                proof {
                    lemma_total_once_more(old(self)@.counts, amount);
                }
                Ok(())
            },
            Err(reason) => Err(reason),
        }
    }

    /// Withdraws the deposit behind `secret` to `recipient` at `now`: the
    /// commitment is the digest of the secret, the token that of the salted
    /// secret.
    pub fn withdraw(&mut self, recipient: String, secret: String, now: u64) -> (paid: Result<
        Vec<Transfer>,
        MixerError,
    >)
        requires
            old(self).wf(),
        ensures
            final(self).wf(),
            withdraw_outcome(
                old(self)@,
                recipient@,
                commitment_of_secret(secret@),
                token_of_secret(secret@),
                true,
                now,
            ) == match paid {
                Ok(transfers) => Ok::<(PoolState, Seq<(Seq<char>, u128)>), MixerError>(
                    (final(self)@, transfer_views(transfers@)),
                ),
                Err(reason) => Err::<(PoolState, Seq<(Seq<char>, u128)>), MixerError>(reason),
            },
            paid is Err ==> *final(self) == *old(self),
    {
        let request = Authorization::SecretReveal { secret };
        self.withdraw_authorized(recipient, &request, now)
    }

    /// Withdraws the deposit behind `commitment` to `recipient` at `now`,
    /// consuming `nullifier`, where `proof` fits the two.
    pub fn withdraw_with_proof(
        &mut self,
        recipient: String,
        nullifier: String,
        commitment: String,
        proof: String,
        now: u64,
    ) -> (paid: Result<Vec<Transfer>, MixerError>)
        requires
            old(self).wf(),
        ensures
            final(self).wf(),
            withdraw_outcome(
                old(self)@,
                recipient@,
                commitment@,
                nullifier@,
                proof_fits(nullifier@, commitment@, proof@),
                now,
            ) == match paid {
                Ok(transfers) => Ok::<(PoolState, Seq<(Seq<char>, u128)>), MixerError>(
                    (final(self)@, transfer_views(transfers@)),
                ),
                Err(reason) => Err::<(PoolState, Seq<(Seq<char>, u128)>), MixerError>(reason),
            },
            paid is Err ==> *final(self) == *old(self),
    {
        let request = Authorization::NullifierProof { nullifier, commitment, proof };
        self.withdraw_authorized(recipient, &request, now)
    }

    /// Withdraws to `recipient` at `now` the deposit that `request` names.
    /// Fails with `TokenAlreadySpent`, `UnknownCommitment`,
    /// `InvalidAuthorization` or `WithdrawalTooEarly`, looked for in this
    /// order; a failure changes nothing. On success the token is spent, the
    /// deposit is gone, and the transfers to issue are returned: the fee to
    /// the owner, unless it is zero, then the rest to the recipient.
    pub fn withdraw_authorized(&mut self, recipient: String, request: &Authorization, now: u64) -> (paid:
        Result<Vec<Transfer>, MixerError>)
        requires
            old(self).wf(),
        ensures
            final(self).wf(),
            withdraw_outcome(
                old(self)@,
                recipient@,
                request.commitment_id(),
                request.spent_token(),
                request.proof_holds(),
                now,
            ) == match paid {
                Ok(transfers) => Ok::<(PoolState, Seq<(Seq<char>, u128)>), MixerError>(
                    (final(self)@, transfer_views(transfers@)),
                ),
                Err(reason) => Err::<(PoolState, Seq<(Seq<char>, u128)>), MixerError>(reason),
            },
            paid is Err ==> *final(self) == *old(self),
    {
        let token = request.token();
        if self.spent_outputs.contains(&token) {
            return Err(MixerError::TokenAlreadySpent);
        }
        let commitment = request.commitment();
        let record = match self.deposits.get(&commitment) {
            Ok(record) => record,
            Err(reason) => {
                return Err(reason);
            },
        };
        if !request.verify() {
            return Err(MixerError::InvalidAuthorization);
        }
        if now < record.created_at || now - record.created_at < MIN_DELAY_NANOS {
            return Err(MixerError::WithdrawalTooEarly);
        }
        self.spent_outputs.add(token);
        self.deposits.remove(&commitment);
        let (fee, net) = split(record.denomination, self.fee_basis_points);
        let mut transfers: Vec<Transfer> = Vec::new();
        if fee > 0 {
            transfers.push(Transfer { recipient: self.owner.clone(), amount: fee });
        }
        transfers.push(Transfer { recipient, amount: net });
        proof {
            assert(transfer_views(transfers@) =~= transfers_for(
                old(self)@.owner,
                recipient@,
                record.denomination,
                old(self)@.fee_basis_points,
            ));
        }
        Ok(transfers)
    }

    /// Sets the fee rate to `fee_basis_points` on behalf of `caller`. Fails
    /// with `Unauthorized` where the caller is not the owner, else with
    /// `FeeTooHigh` where the rate is above the maximum; a failure changes
    /// nothing.
    pub fn update_fee(&mut self, caller: &String, fee_basis_points: u16) -> (done: Result<
        (),
        MixerError,
    >)
        requires
            old(self).wf(),
        ensures
            final(self).wf(),
            fee_update_outcome(old(self)@, caller@, fee_basis_points) == match done {
                Ok(_) => Ok::<PoolState, MixerError>(final(self)@),
                Err(reason) => Err::<PoolState, MixerError>(reason),
            },
            done is Err ==> *final(self) == *old(self),
    {
        if *caller != self.owner {
            return Err(MixerError::Unauthorized);
        }
        if fee_basis_points > MAX_FEE_BASIS_POINTS {
            return Err(MixerError::FeeTooHigh);
        }
        self.fee_basis_points = fee_basis_points;
        Ok(())
    }

    /// The number of deposits ever taken, their value, and the count of each
    /// accepted amount in table order. Withdrawals do not lower them.
    pub fn pool_stats(&self) -> (stats: PoolStats)
        requires
            self.wf(),
        ensures
            stats.total_deposits == total_deposits(self@.counts),
            stats.total_amount == total_amount(self@.counts),
            stats.by_denomination.len() == denominations().len(),
            forall|slot: int|
                0 <= slot < denominations().len() ==> #[trigger] stats.by_denomination[slot] == (
                    denominations()[slot],
                    self@.counts[denominations()[slot]] as u64,
                ),
    {
        self.deposits.registry().stats()
    }

    /// Whether the pool can still count a deposit of `amount`.
    pub fn can_count(&self, amount: u128) -> (yes: bool)
        requires
            self.wf(),
        ensures
            yes == room_for(self@.counts, amount),
    {
        self.deposits.registry().can_record(amount)
    }

    /// The pool's values, from which `restore` makes the same pool again.
    pub fn snapshot(&self) -> (kept: PoolSnapshot)
        requires
            self.wf(),
        ensures
            kept.valid(),
            kept.state() == self@,
    {
        PoolSnapshot {
            owner: self.owner.clone(),
            fee_basis_points: self.fee_basis_points,
            deposits: self.deposits.entries(),
            spent: self.spent_outputs.tokens(),
            counts: self.deposits.registry().listed(),
        }
    }

    /// The pool that `kept` describes, or `None` where no pool can hold
    /// these values.
    pub fn restore(kept: PoolSnapshot) -> (restored: Option<Self>)
        ensures
            restored is Some <==> kept.valid(),
            restored matches Some(pool) ==> pool.wf() && pool@ == kept.state(),
    {
        let PoolSnapshot { owner, fee_basis_points, deposits, spent, counts } = kept;
        if fee_basis_points > MAX_FEE_BASIS_POINTS {
            return None;
        }
        let registry = match DenominationRegistry::restore(counts) {
            Some(registry) => registry,
            None => {
                return None;
            },
        };
        let deposits = match CommitmentStore::restore(deposits, registry) {
            Some(deposits) => deposits,
            None => {
                return None;
            },
        };
        Some(
            UtxoMixer {
                deposits,
                spent_outputs: SpentSet::restore(spent),
                owner,
                fee_basis_points,
            },
        )
    }

    /// The fee rate, in hundredths of a percent.
    pub fn fee_basis_points(&self) -> (rate: u16)
        ensures
            rate == self@.fee_basis_points,
    {
        self.fee_basis_points
    }

    /// The account that receives the fees.
    pub fn owner(&self) -> (owner: &String)
        ensures
            owner@ == self@.owner,
    {
        &self.owner
    }
}

/// Sets up the pool in `slot`, which holds none before the first call. Fails
/// with `AlreadyInitialized` where `slot` holds a pool, else with
/// `FeeTooHigh` where the rate is above the maximum; a failure leaves `slot`
/// as it was.
pub fn initialize(slot: &mut Option<UtxoMixer>, owner: String, fee_basis_points: u16) -> (done:
    Result<(), MixerError>)
    ensures
        *old(slot) is Some ==> done == Err::<(), MixerError>(MixerError::AlreadyInitialized),
        *old(slot) is None && fee_basis_points > MAX_FEE_BASIS_POINTS ==> done == Err::<
            (),
            MixerError,
        >(MixerError::FeeTooHigh),
        *old(slot) is None && fee_basis_points <= MAX_FEE_BASIS_POINTS ==> done == Ok::<
            (),
            MixerError,
        >(()) && *final(slot) is Some && final(slot)->Some_0.wf() && final(slot)->Some_0@
            == opened(owner@, fee_basis_points),
        done is Err ==> *final(slot) == *old(slot),
{
    if slot.is_some() {
        return Err(MixerError::AlreadyInitialized);
    }
    match UtxoMixer::new(owner, fee_basis_points) {
        Ok(pool) => {
            *slot = Some(pool);
            Ok(())
        },
        Err(reason) => Err(reason),
    }
}

} // verus!

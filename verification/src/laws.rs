//! What holds of the pool over any sequence of calls, proved of the
//! outcomes that the pool's operations are held to.

use crate::denomination::{accepted, lemma_total_once_more, total_amount, total_deposits};
use crate::error::MixerError;
use crate::fee::{fee_of, lemma_fee_within_gross, net_of, MAX_FEE_BASIS_POINTS};
use crate::mixer::{
    deposit_outcome, fee_update_outcome, transfers_for, withdraw_outcome, PoolState,
    MIN_DELAY_NANOS,
};
use crate::store::DepositRecord;
use vstd::prelude::*;

verus! {

/// A deposit of an accepted amount under a commitment without a live deposit
/// succeeds. It raises the count of that amount by exactly one, leaves every
/// other count alone, and adds one deposit and the amount to the totals.
pub proof fn lemma_fresh_deposit_counted_once(
    pool: PoolState,
    commitment: Seq<char>,
    amount: u128,
    now: u64,
)
    requires
        accepted(amount),
        !pool.deposits.contains_key(commitment),
    ensures
        deposit_outcome(pool, commitment, amount, now) is Ok,
        ({
            let after = deposit_outcome(pool, commitment, amount, now)->Ok_0;
            &&& after.counts[amount] == pool.counts[amount] + 1
            &&& forall|other: u128| other != amount ==> after.counts[other] == pool.counts[other]
            &&& total_deposits(after.counts) == total_deposits(pool.counts) + 1
            &&& total_amount(after.counts) == total_amount(pool.counts) + amount
            &&& after.deposits[commitment] == DepositRecord {
                denomination: amount,
                created_at: now,
            }
        }),
{
    lemma_total_once_more(pool.counts, amount);
}

/// Once a deposit under a commitment has succeeded, a second deposit under
/// the same commitment fails with `DuplicateCommitment`, whichever accepted
/// amount it brings and whenever it comes.
pub proof fn lemma_second_deposit_is_duplicate(
    pool: PoolState,
    commitment: Seq<char>,
    first_amount: u128,
    first_now: u64,
    second_amount: u128,
    second_now: u64,
)
    requires
        deposit_outcome(pool, commitment, first_amount, first_now) is Ok,
        accepted(second_amount),
    ensures
        deposit_outcome(
            deposit_outcome(pool, commitment, first_amount, first_now)->Ok_0,
            commitment,
            second_amount,
            second_now,
        ) == Err::<PoolState, MixerError>(MixerError::DuplicateCommitment),
{
}

/// A deposit of an amount that is not accepted fails with
/// `InvalidDenomination`, whatever the commitment. A failed call hands back
/// no new state: the pool, and so its statistics, stay as they were.
pub proof fn lemma_unlisted_amount_rejected(
    pool: PoolState,
    commitment: Seq<char>,
    amount: u128,
    now: u64,
)
    requires
        !accepted(amount),
    ensures
        deposit_outcome(pool, commitment, amount, now) == Err::<PoolState, MixerError>(
            MixerError::InvalidDenomination,
        ),
{
}

/// The time lock is inclusive. A withdrawal that is otherwise in order fails
/// with `WithdrawalTooEarly` as long as less than the minimum delay has
/// passed since the deposit, and succeeds from the moment it has passed.
pub proof fn lemma_time_lock_inclusive(
    pool: PoolState,
    recipient: Seq<char>,
    commitment: Seq<char>,
    token: Seq<char>,
    now: u64,
)
    requires
        !pool.spent.contains(token),
        pool.deposits.contains_key(commitment),
    ensures
        now - pool.deposits[commitment].created_at < MIN_DELAY_NANOS ==> withdraw_outcome(
            pool,
            recipient,
            commitment,
            token,
            true,
            now,
        ) == Err::<(PoolState, Seq<(Seq<char>, u128)>), MixerError>(
            MixerError::WithdrawalTooEarly,
        ),
        now - pool.deposits[commitment].created_at >= MIN_DELAY_NANOS ==> withdraw_outcome(
            pool,
            recipient,
            commitment,
            token,
            true,
            now,
        ) is Ok,
{
}

/// No operation takes a token out of the spent set: whatever a deposit, a
/// withdrawal or a change of the fee rate leaves behind holds every token
/// that was spent before.
pub proof fn lemma_spent_tokens_stay(
    pool: PoolState,
    caller: Seq<char>,
    recipient: Seq<char>,
    commitment: Seq<char>,
    token: Seq<char>,
    proof_holds: bool,
    amount: u128,
    fee_basis_points: u16,
    now: u64,
)
    ensures
        deposit_outcome(pool, commitment, amount, now) matches Ok(after)
            ==> pool.spent.subset_of(after.spent),
        withdraw_outcome(pool, recipient, commitment, token, proof_holds, now) matches Ok(
            after,
        ) ==> pool.spent.subset_of(after.0.spent) && after.0.spent.contains(token),
        fee_update_outcome(pool, caller, fee_basis_points) matches Ok(after)
            ==> pool.spent.subset_of(after.spent),
{
}

/// A token is good for one withdrawal. Once a withdrawal with it has
/// succeeded, every later withdrawal with the same token fails with
/// `TokenAlreadySpent`: in any pool that still holds the tokens spent by
/// then, for any recipient, commitment and proof, at any time.
pub proof fn lemma_token_single_use(
    pool: PoolState,
    recipient: Seq<char>,
    commitment: Seq<char>,
    token: Seq<char>,
    proof_holds: bool,
    now: u64,
    later: PoolState,
    later_recipient: Seq<char>,
    later_commitment: Seq<char>,
    later_proof_holds: bool,
    later_now: u64,
)
    requires
        withdraw_outcome(pool, recipient, commitment, token, proof_holds, now) is Ok,
        withdraw_outcome(pool, recipient, commitment, token, proof_holds, now)->Ok_0.0.spent.subset_of(
            later.spent,
        ),
    ensures
        withdraw_outcome(
            later,
            later_recipient,
            later_commitment,
            token,
            later_proof_holds,
            later_now,
        ) == Err::<(PoolState, Seq<(Seq<char>, u128)>), MixerError>(
            MixerError::TokenAlreadySpent,
        ),
{
    let after = withdraw_outcome(pool, recipient, commitment, token, proof_holds, now)->Ok_0.0;
    assert(after.spent.contains(token));
}

/// A withdrawal takes its deposit out of the pool: the commitment has no
/// live deposit afterwards, and every other deposit stays as it was.
pub proof fn lemma_withdrawal_clears_deposit(
    pool: PoolState,
    recipient: Seq<char>,
    commitment: Seq<char>,
    token: Seq<char>,
    proof_holds: bool,
    now: u64,
)
    requires
        withdraw_outcome(pool, recipient, commitment, token, proof_holds, now) is Ok,
    ensures
        ({
            let after = withdraw_outcome(
                pool,
                recipient,
                commitment,
                token,
                proof_holds,
                now,
            )->Ok_0.0;
            &&& !after.deposits.contains_key(commitment)
            &&& forall|other: Seq<char>|
                other != commitment ==> (after.deposits.contains_key(other)
                    <==> pool.deposits.contains_key(other))
            &&& forall|other: Seq<char>|
                other != commitment && pool.deposits.contains_key(other)
                    ==> after.deposits[other] == pool.deposits[other]
            &&& after.counts == pool.counts
        }),
{
}

/// The transfers of a withdrawal pay out the deposit in full: the fee and
/// the net amount add up to the denomination, and at a rate of zero the
/// recipient's transfer is the only one and carries all of it.
pub proof fn lemma_transfers_pay_in_full(
    owner: Seq<char>,
    recipient: Seq<char>,
    gross: u128,
    fee_basis_points: u16,
)
    requires
        fee_basis_points <= MAX_FEE_BASIS_POINTS,
    ensures
        fee_of(gross as nat, fee_basis_points as nat) + net_of(
            gross as nat,
            fee_basis_points as nat,
        ) == gross,
        0 <= net_of(gross as nat, fee_basis_points as nat),
        transfers_for(owner, recipient, gross, fee_basis_points).last() == (
            recipient,
            net_of(gross as nat, fee_basis_points as nat) as u128,
        ),
        fee_of(gross as nat, fee_basis_points as nat) > 0 ==> transfers_for(
            owner,
            recipient,
            gross,
            fee_basis_points,
        ) == seq![
            (owner, fee_of(gross as nat, fee_basis_points as nat) as u128),
            (recipient, net_of(gross as nat, fee_basis_points as nat) as u128),
        ],
        fee_basis_points == 0 ==> transfers_for(owner, recipient, gross, fee_basis_points)
            == seq![(recipient, gross)],
{
    lemma_fee_within_gross(gross as nat, fee_basis_points as nat);
    assert(fee_basis_points == 0 ==> gross * fee_basis_points == 0) by (nonlinear_arith);
}

/// A change of the fee rate by the owner takes effect at once: a withdrawal
/// that follows it pays its fee at the new rate.
pub proof fn lemma_new_rate_applies(
    pool: PoolState,
    caller: Seq<char>,
    fee_basis_points: u16,
    recipient: Seq<char>,
    commitment: Seq<char>,
    token: Seq<char>,
    proof_holds: bool,
    now: u64,
)
    requires
        fee_update_outcome(pool, caller, fee_basis_points) is Ok,
        withdraw_outcome(
            fee_update_outcome(pool, caller, fee_basis_points)->Ok_0,
            recipient,
            commitment,
            token,
            proof_holds,
            now,
        ) is Ok,
    ensures
        caller == pool.owner,
        fee_basis_points <= MAX_FEE_BASIS_POINTS,
        withdraw_outcome(
            fee_update_outcome(pool, caller, fee_basis_points)->Ok_0,
            recipient,
            commitment,
            token,
            proof_holds,
            now,
        )->Ok_0.1 == transfers_for(
            pool.owner,
            recipient,
            pool.deposits[commitment].denomination,
            fee_basis_points,
        ),
{
}

/// Every operation keeps a valid pool valid. In particular the fee rate
/// never exceeds its maximum, and every live deposit is in an accepted
/// amount.
pub proof fn lemma_validity_kept(
    pool: PoolState,
    caller: Seq<char>,
    recipient: Seq<char>,
    commitment: Seq<char>,
    token: Seq<char>,
    proof_holds: bool,
    amount: u128,
    fee_basis_points: u16,
    now: u64,
)
    requires
        pool.valid(),
    ensures
        deposit_outcome(pool, commitment, amount, now) matches Ok(after) ==> after.valid(),
        withdraw_outcome(pool, recipient, commitment, token, proof_holds, now) matches Ok(
            after,
        ) ==> after.0.valid(),
        fee_update_outcome(pool, caller, fee_basis_points) matches Ok(after) ==> after.valid(),
{
    if let Ok(after) = deposit_outcome(pool, commitment, amount, now) {
        assert forall|id: Seq<char>| #[trigger] after.deposits.contains_key(id) implies accepted(
            after.deposits[id].denomination,
        ) by {
            if id != commitment {
                assert(pool.deposits.contains_key(id));
            }
        }
    }
    if let Ok(after) = withdraw_outcome(pool, recipient, commitment, token, proof_holds, now) {
        assert forall|id: Seq<char>| #[trigger] after.0.deposits.contains_key(id) implies accepted(
            after.0.deposits[id].denomination,
        ) by {
            assert(pool.deposits.contains_key(id));
        }
    }
}

} // verus!

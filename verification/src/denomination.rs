//! The accepted deposit amounts, and the count of deposits made in each.

use vstd::prelude::*;

verus! {

/// One NEAR in yoctoNEAR, the unit every amount of the pool is held in.
pub const ONE_NEAR: u128 = 1_000_000_000_000_000_000_000_000;

/// The accepted deposit amounts, in the order in which statistics list them.
pub open spec fn denominations() -> Seq<u128> {
    seq![ONE_NEAR, (10 * ONE_NEAR) as u128, (100 * ONE_NEAR) as u128]
}

/// Whether `amount` is one of the accepted deposit amounts.
pub open spec fn accepted(amount: u128) -> bool {
    denominations().contains(amount)
}

/// No amount is listed twice, so each has one counter.
pub proof fn lemma_denominations_distinct()
    ensures
        denominations().no_duplicates(),
        forall|slot: int|
            0 <= slot < denominations().len() ==> #[trigger] denominations().index_of(
                denominations()[slot],
            ) == slot,
{
    assert(denominations().no_duplicates());
    assert forall|slot: int| 0 <= slot < denominations().len() implies #[trigger] denominations().index_of(
        denominations()[slot],
    ) == slot by {
        let found = denominations().index_of(denominations()[slot]);
        assert(0 <= found < denominations().len() && denominations()[found]
            == denominations()[slot]);
    }
}

/// Calls `near_sdk::NearToken::from_near` and reads the token back with
/// `as_yoctonear`. The first multiplies the number of NEAR by ten to the
/// power of 24 and the second hands out that product as it is; a product
/// beyond `u128` is left out, since the multiplication would overflow.
#[verifier::external_body]
fn near_to_yocto(near: u128) -> (yocto: u128)
    requires
        near * ONE_NEAR <= u128::MAX,
    ensures
        yocto == near * ONE_NEAR,
{
    near_sdk::NearToken::from_near(near).as_yoctonear()
}

/// The table of accepted amounts: one, ten and a hundred NEAR.
pub fn denomination_table() -> (table: Vec<u128>)
    ensures
        table@ == denominations(),
{
    let mut table: Vec<u128> = Vec::new();
    table.push(near_to_yocto(1));
    table.push(near_to_yocto(10));
    table.push(near_to_yocto(100));
    table
}

/// The position of `amount` in the table, if it is an accepted amount.
pub fn denomination_slot(amount: u128) -> (slot: Option<usize>)
    ensures
        slot is Some <==> accepted(amount),
        slot matches Some(at) ==> at < denominations().len() && denominations()[at as int]
            == amount,
{
    let table = denomination_table();
    let mut at: usize = 0;
    while at < table.len()
        invariant
            table@ == denominations(),
            at <= table.len(),
            forall|seen: int| 0 <= seen < at ==> denominations()[seen] != amount,
        decreases table.len() - at,
    {
        if table[at] == amount {
            return Some(at);
        }
        at += 1;
    }
    None
}

/// Whether `amount` is one of the accepted deposit amounts.
pub fn is_accepted(amount: u128) -> (yes: bool)
    ensures
        yes == accepted(amount),
{
    denomination_slot(amount).is_some()
}

/// The number of deposits counted over the first `upto` denominations.
pub open spec fn deposits_counted(counts: Map<u128, nat>, upto: nat) -> nat
    decreases upto,
{
    if upto == 0 {
        0
    } else {
        deposits_counted(counts, (upto - 1) as nat) + counts[denominations()[upto - 1]]
    }
}

/// The value of the deposits counted over the first `upto` denominations.
pub open spec fn amount_counted(counts: Map<u128, nat>, upto: nat) -> nat
    decreases upto,
{
    if upto == 0 {
        0
    } else {
        amount_counted(counts, (upto - 1) as nat) + counts[denominations()[upto - 1]]
            * (denominations()[upto - 1] as nat)
    }
}

/// The number of deposits ever counted.
pub open spec fn total_deposits(counts: Map<u128, nat>) -> nat {
    deposits_counted(counts, denominations().len())
}

/// The value of all deposits ever counted.
pub open spec fn total_amount(counts: Map<u128, nat>) -> nat {
    amount_counted(counts, denominations().len())
}

/// Whether one more deposit of `amount` keeps the number of deposits within
/// `u64` and their value within `u128`.
pub open spec fn room_for(counts: Map<u128, nat>, amount: u128) -> bool {
    &&& total_deposits(counts) < u64::MAX
    &&& total_amount(counts) + amount <= u128::MAX
}

/// The counts after one more deposit of `amount`.
pub open spec fn counted_once_more(counts: Map<u128, nat>, amount: u128) -> Map<u128, nat> {
    counts.insert(amount, counts[amount] + 1)
}

/// Both sums only grow with the number of denominations summed.
pub proof fn lemma_counted_grows(counts: Map<u128, nat>, fewer: nat, more: nat)
    requires
        fewer <= more,
    ensures
        deposits_counted(counts, fewer) <= deposits_counted(counts, more),
        amount_counted(counts, fewer) <= amount_counted(counts, more),
    decreases more,
{
    if fewer < more {
        lemma_counted_grows(counts, fewer, (more - 1) as nat);
        assert(0 <= counts[denominations()[more - 1]] * denominations()[more - 1])
            by (nonlinear_arith);
    }
}

/// Counting one more deposit of the denomination at `slot` adds one to the
/// number and the amount to the value, once that slot is within the sum.
pub proof fn lemma_counted_once_more(counts: Map<u128, nat>, slot: int, upto: nat)
    requires
        0 <= slot < denominations().len(),
        upto <= denominations().len(),
    ensures
        deposits_counted(counted_once_more(counts, denominations()[slot]), upto)
            == deposits_counted(counts, upto) + if slot < upto {
            1nat
        } else {
            0nat
        },
        amount_counted(counted_once_more(counts, denominations()[slot]), upto) == amount_counted(
            counts,
            upto,
        ) + if slot < upto {
            denominations()[slot] as nat
        } else {
            0nat
        },
    decreases upto,
{
    if upto > 0 {
        lemma_counted_once_more(counts, slot, (upto - 1) as nat);
        lemma_denominations_distinct();
        let amount = denominations()[slot];
        let last = denominations()[upto - 1];
        let after = counted_once_more(counts, amount);
        if slot == upto - 1 {
            assert(after[last] == counts[last] + 1);
            assert((counts[last] + 1) * last == counts[last] * last + last) by (nonlinear_arith);
        } else {
            assert(denominations().index_of(last) == upto - 1);
            assert(denominations().index_of(amount) == slot);
            assert(last != amount);
            assert(after[last] == counts[last]);
        }
    }
}

/// One more deposit of an accepted amount adds one to the number of deposits
/// and the amount to their value.
pub proof fn lemma_total_once_more(counts: Map<u128, nat>, amount: u128)
    requires
        accepted(amount),
    ensures
        counted_once_more(counts, amount)[amount] == counts[amount] + 1,
        total_deposits(counted_once_more(counts, amount)) == total_deposits(counts) + 1,
        total_amount(counted_once_more(counts, amount)) == total_amount(counts) + amount,
{
    let slot = denominations().index_of(amount);
    assert(0 <= slot < denominations().len() && denominations()[slot] == amount);
    lemma_counted_once_more(counts, slot, denominations().len());
}

/// The count of each accepted amount, where `listed` holds the counts in
/// table order.
pub open spec fn counts_of(listed: Seq<u64>) -> Map<u128, nat> {
    Map::new(
        |amount: u128| accepted(amount),
        |amount: u128| listed[denominations().index_of(amount)] as nat,
    )
}

/// Whether `listed` can be the counts of a registry: one for each accepted
/// amount, with the number of deposits within `u64` and their value within
/// `u128`.
pub open spec fn counts_valid(listed: Seq<u64>) -> bool {
    &&& listed.len() == denominations().len()
    &&& total_deposits(counts_of(listed)) <= u64::MAX
    &&& total_amount(counts_of(listed)) <= u128::MAX
}

/// In a listing with one count for each accepted amount, the count of the
/// amount at `slot` is the one listed there.
pub proof fn lemma_count_listed(listed: Seq<u64>, slot: int)
    requires
        0 <= slot < denominations().len(),
    ensures
        accepted(denominations()[slot]),
        counts_of(listed)[denominations()[slot]] == listed[slot],
{
    lemma_denominations_distinct();
}

/// The deposit counters, one for each accepted amount.
pub struct DenominationRegistry {
    counts: Vec<u64>,
}

/// What the pool reports of the deposits it has taken.
#[derive(Debug, PartialEq, Eq)]
pub struct PoolStats {
    /// The number of deposits ever taken.
    pub total_deposits: u64,
    /// Their value in yoctoNEAR.
    pub total_amount: u128,
    /// Each accepted amount with the number of deposits made in it.
    pub by_denomination: Vec<(u128, u64)>,
}

impl DenominationRegistry {
    /// The count of each accepted amount; no other amount has a count.
    pub closed spec fn counts(self) -> Map<u128, nat> {
        counts_of(self.counts@)
    }

    /// There is one counter for each accepted amount, and both totals fit
    /// the integers they are reported in.
    pub closed spec fn wf(self) -> bool {
        counts_valid(self.counts@)
    }

    /// The counts are known for exactly the accepted amounts.
    pub proof fn lemma_counts_domain(self)
        ensures
            forall|amount: u128| self.counts().contains_key(amount) <==> accepted(amount),
    {
    }

    /// Both totals fit the integers they are reported in.
    pub proof fn lemma_totals_fit(self)
        requires
            self.wf(),
        ensures
            total_deposits(self.counts()) <= u64::MAX,
            total_amount(self.counts()) <= u128::MAX,
    {
    }

    proof fn lemma_count_at(self, slot: int)
        requires
            0 <= slot < denominations().len(),
        ensures
            self.counts()[denominations()[slot]] == self.counts[slot],
            accepted(denominations()[slot]),
    {
        lemma_count_listed(self.counts@, slot);
    }

    /// The counts in table order, as `restore` takes them.
    pub fn listed(&self) -> (listed: Vec<u64>)
        requires
            self.wf(),
        ensures
            counts_valid(listed@),
            counts_of(listed@) == self.counts(),
    {
        let mut listed: Vec<u64> = Vec::new();
        let mut at: usize = 0;
        while at < self.counts.len()
            invariant
                at <= self.counts.len(),
                listed.len() == at,
                forall|slot: int| 0 <= slot < at ==> listed[slot] == self.counts[slot],
            decreases self.counts.len() - at,
        {
            listed.push(self.counts[at]);
            at += 1;
        }
        assert(listed@ =~= self.counts@);
        listed
    }

    /// The registry that holds the counts `listed`, or `None` where they are
    /// not one for each accepted amount or their totals are out of range.
    pub fn restore(listed: Vec<u64>) -> (restored: Option<Self>)
        ensures
            restored is Some <==> counts_valid(listed@),
            restored matches Some(registry) ==> registry.wf() && registry.counts() == counts_of(
                listed@,
            ),
    {
        let table = denomination_table();
        if listed.len() != table.len() {
            return None;
        }
        let ghost counts = counts_of(listed@);
        let mut number: u64 = 0;
        let mut value: u128 = 0;
        let mut at: usize = 0;
        while at < table.len()
            invariant
                table@ == denominations(),
                listed.len() == table.len(),
                counts == counts_of(listed@),
                at <= table.len(),
                number == deposits_counted(counts, at as nat),
                value == amount_counted(counts, at as nat),
            decreases table.len() - at,
        {
            let count = listed[at];
            proof {
                lemma_count_listed(listed@, at as int);
                lemma_counted_grows(counts, (at + 1) as nat, denominations().len());
            }
            number = match number.checked_add(count) {
                Some(sum) => sum,
                None => {
                    return None;
                },
            };
            let worth = match (count as u128).checked_mul(table[at]) {
                Some(product) => product,
                None => {
                    return None;
                },
            };
            value = match value.checked_add(worth) {
                Some(sum) => sum,
                None => {
                    return None;
                },
            };
            at += 1;
        }
        Some(DenominationRegistry { counts: listed })
    }

    /// A registry that has counted nothing.
    pub fn new() -> (registry: Self)
        ensures
            registry.wf(),
            forall|amount: u128| accepted(amount) ==> registry.counts()[amount] == 0,
            total_deposits(registry.counts()) == 0,
            total_amount(registry.counts()) == 0,
    {
        let mut counts: Vec<u64> = Vec::new();
        let table = denomination_table();
        let mut at: usize = 0;
        while at < table.len()
            invariant
                table@ == denominations(),
                at <= table.len(),
                counts.len() == at,
                forall|slot: int| 0 <= slot < at ==> counts[slot] == 0,
            decreases table.len() - at,
        {
            counts.push(0);
            at += 1;
        }
        let registry = DenominationRegistry { counts };
        proof {
            registry.lemma_all_zero(denominations().len());
        }
        registry
    }

    proof fn lemma_all_zero(self, upto: nat)
        requires
            self.counts.len() == denominations().len(),
            forall|slot: int| 0 <= slot < self.counts.len() ==> self.counts[slot] == 0,
            upto <= denominations().len(),
        ensures
            deposits_counted(self.counts(), upto) == 0,
            amount_counted(self.counts(), upto) == 0,
        decreases upto,
    {
        if upto > 0 {
            self.lemma_all_zero((upto - 1) as nat);
            self.lemma_count_at(upto - 1);
            assert(0 * denominations()[upto - 1] == 0) by (nonlinear_arith);
        }
    }

    /// The number of deposits counted for `amount`; none for an amount that
    /// is not accepted.
    pub fn count_of(&self, amount: u128) -> (count: u64)
        requires
            self.wf(),
        ensures
            accepted(amount) ==> count == self.counts()[amount],
            !accepted(amount) ==> count == 0,
    {
        match denomination_slot(amount) {
            Some(slot) => {
                proof {
                    self.lemma_count_at(slot as int);
                }
                self.counts[slot]
            },
            None => 0,
        }
    }

    /// Whether one more deposit of `amount` keeps both totals within range.
    pub fn can_record(&self, amount: u128) -> (yes: bool)
        requires
            self.wf(),
        ensures
            yes == room_for(self.counts(), amount),
    {
        let stats = self.stats();
        stats.total_deposits < u64::MAX && stats.total_amount <= u128::MAX - amount
    }

    /// Counts one more deposit of `amount`.
    pub fn record(&mut self, amount: u128)
        requires
            old(self).wf(),
            accepted(amount),
            room_for(old(self).counts(), amount),
        ensures
            final(self).wf(),
            final(self).counts() == counted_once_more(old(self).counts(), amount),
            final(self).counts()[amount] == old(self).counts()[amount] + 1,
            total_deposits(final(self).counts()) == total_deposits(old(self).counts()) + 1,
            total_amount(final(self).counts()) == total_amount(old(self).counts()) + amount,
    {
        let found = denomination_slot(amount);
        let slot = found.unwrap();
        proof {
            lemma_denominations_distinct();
            self.lemma_count_at(slot as int);
            self.lemma_count_bounded(slot as int);
        }
        let count = self.counts[slot];
        self.counts.set(slot, count + 1);
        proof {
            assert(self.counts() =~= counted_once_more(old(self).counts(), amount));
            lemma_counted_once_more(old(self).counts(), slot as int, denominations().len());
        }
    }

    proof fn lemma_count_bounded(self, slot: int)
        requires
            self.counts.len() == denominations().len(),
            0 <= slot < denominations().len(),
        ensures
            self.counts[slot] <= total_deposits(self.counts()),
    {
        self.lemma_count_at(slot);
        lemma_counted_grows(self.counts(), (slot + 1) as nat, denominations().len());
    }

    /// The totals and the count of each accepted amount, in table order.
    pub fn stats(&self) -> (stats: PoolStats)
        requires
            self.wf(),
        ensures
            stats.total_deposits == total_deposits(self.counts()),
            stats.total_amount == total_amount(self.counts()),
            stats.by_denomination.len() == denominations().len(),
            forall|slot: int|
                0 <= slot < denominations().len() ==> #[trigger] stats.by_denomination[slot] == (
                    denominations()[slot],
                    self.counts()[denominations()[slot]] as u64,
                ),
    {
        let table = denomination_table();
        let mut total_deposits: u64 = 0;
        let mut total_amount: u128 = 0;
        let mut by_denomination: Vec<(u128, u64)> = Vec::new();
        let mut at: usize = 0;
        while at < table.len()
            invariant
                self.wf(),
                table@ == denominations(),
                at <= table.len(),
                total_deposits == deposits_counted(self.counts(), at as nat),
                total_amount == amount_counted(self.counts(), at as nat),
                by_denomination.len() == at,
                forall|slot: int|
                    0 <= slot < at ==> #[trigger] by_denomination[slot] == (
                        denominations()[slot],
                        self.counts()[denominations()[slot]] as u64,
                    ),
            decreases table.len() - at,
        {
            let count = self.counts[at];
            let amount = table[at];
            proof {
                self.lemma_count_at(at as int);
                lemma_counted_grows(self.counts(), (at + 1) as nat, denominations().len());
            }
            total_deposits = total_deposits + count;
            total_amount = total_amount + (count as u128) * amount;
            by_denomination.push((amount, count));
            at += 1;
        }
        PoolStats { total_deposits, total_amount, by_denomination }
    }
}

} // verus!

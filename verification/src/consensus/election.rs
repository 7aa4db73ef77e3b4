//! The validator set and the election of block producers.
//!
//! The producer of a height is drawn by stake: a seed is hashed from the
//! previous block's hash and the height, the seed gives a number below the
//! total stake, and the validator is elected whose interval of cumulative
//! stake holds that number. The set keeps its validators in the order in
//! which they were given; the intervals are laid out in the order of the
//! validators' addresses' bytes, so that the election is the same on every
//! node whatever the order of its list.

use crate::address_map::{address_order, be_value};
use crate::crypto::hash::{append_bytes, keccak256_digest, keccak256_hash, DOMAIN_ELECTION_SEED};
use crate::serialization::{u64_encoding, write_u64};
use crate::types::{
    distinct_addresses, sorted_by_address, stake_before, stake_sum, Address, BlockHash, Validator,
    ValidatorSet, FRACTION_ONE, SCORE_ONE,
};
use vstd::bytes::{spec_u64_from_le_bytes, u64_from_le_bytes};
use vstd::prelude::*;

verus! {

/// Why an operation on the validator set failed.
#[derive(Debug, Clone, Copy, PartialEq, Eq, Structural)]
pub enum ValidatorError {
    /// There is no validator to elect.
    NoValidators,
    /// No validator has the address.
    UnknownValidator,
    /// Two validators have one address.
    DuplicateValidator,
    /// The stakes do not add up within 64 bits.
    StakeOverflow,
    /// A performance score is above one whole.
    ScoreOutOfRange,
    /// A fraction is above one whole.
    FractionOutOfRange,
}

/// By how much a slashing or a timeout lowers a performance score.
pub const SCORE_PENALTY: u64 = 1000;

/// By how much a block produced in time raises a performance score.
pub const SCORE_REWARD: u64 = 100;

/// The sum of the stakes only grows along the sequence.
pub proof fn lemma_stake_before_monotone(validators: Seq<Validator>, j: int, k: int)
    requires
        j <= k,
    ensures
        stake_before(validators, j) <= stake_before(validators, k),
    decreases k - j,
{
    if j < k {
        lemma_stake_before_monotone(validators, j, k - 1);
    }
}

/// Two sequences that agree on their first `k` stakes agree on the sum of those.
pub proof fn lemma_stake_before_agrees(a: Seq<Validator>, b: Seq<Validator>, k: int)
    requires
        k <= a.len(),
        k <= b.len(),
        forall|i: int| 0 <= i < k ==> (#[trigger] a[i]).stake == (#[trigger] b[i]).stake,
    ensures
        stake_before(a, k) == stake_before(b, k),
    decreases k,
{
    if k > 0 {
        lemma_stake_before_agrees(a, b, k - 1);
        assert(a[k - 1].stake == b[k - 1].stake);
    }
}

/// Where one stake in a sequence changes, the sums behind it change by as much.
pub proof fn lemma_stake_before_changed(a: Seq<Validator>, b: Seq<Validator>, at: int, k: int)
    requires
        a.len() == b.len(),
        0 <= at < k <= a.len(),
        forall|i: int| 0 <= i < a.len() && i != at ==> (#[trigger] a[i]).stake == (
        #[trigger] b[i]).stake,
    ensures
        stake_before(b, k) == stake_before(a, k) - a[at].stake + b[at].stake,
    decreases k,
{
    if k - 1 == at {
        lemma_stake_before_agrees(a, b, at);
    } else {
        lemma_stake_before_changed(a, b, at, k - 1);
        assert(a[k - 1].stake == b[k - 1].stake);
    }
}

/// The validator whose interval of cumulative stake holds `draw`: the first
/// one, from position `k` on, where the stake up to and including it exceeds
/// the draw.
pub open spec fn index_for_draw(validators: Seq<Validator>, draw: nat, k: int) -> int
    decreases validators.len() - k,
{
    if k >= validators.len() {
        validators.len() as int
    } else if draw < stake_before(validators, k + 1) {
        k
    } else {
        index_for_draw(validators, draw, k + 1)
    }
}

/// The elected index holds the draw in its interval, and is the only one to
/// do so: over all draws below the total stake, each validator is elected by
/// exactly as many draws as it has stake.
pub proof fn lemma_index_for_draw(validators: Seq<Validator>, draw: nat, k: int)
    requires
        0 <= k <= validators.len(),
        stake_before(validators, k) <= draw < stake_sum(validators),
    ensures
        ({
            let i = index_for_draw(validators, draw, k);
            &&& k <= i < validators.len()
            &&& stake_before(validators, i) <= draw < stake_before(validators, i)
                + validators[i].stake
            &&& forall|j: int|
                0 <= j < validators.len() && stake_before(validators, j) <= draw < stake_before(
                    validators,
                    j,
                ) + (#[trigger] validators[j]).stake ==> j == i
        }),
    decreases validators.len() - k,
{
    if k < validators.len() && draw >= stake_before(validators, k + 1) {
        lemma_index_for_draw(validators, draw, k + 1);
    } else {
        let i = index_for_draw(validators, draw, k);
        assert forall|j: int|
            0 <= j < validators.len() && stake_before(validators, j) <= draw < stake_before(
                validators,
                j,
            ) + (#[trigger] validators[j]).stake implies j == i by {
            if j < i {
                lemma_stake_before_monotone(validators, j + 1, i);
            } else if j > i {
                lemma_stake_before_monotone(validators, i + 1, j);
            }
        }
    }
}

/// The draws that elect the validator at position `i` are exactly those of
/// its interval of cumulative stake: of all draws below the total stake, as
/// many elect a validator as it has stake. With equal stakes, every
/// validator is elected by equally many.
pub proof fn lemma_election_share(validators: Seq<Validator>, i: int, draw: nat)
    requires
        0 <= i < validators.len(),
        draw < stake_sum(validators),
    ensures
        index_for_draw(validators, draw, 0) == i <==> stake_before(validators, i) <= draw
            < stake_before(validators, i) + validators[i].stake,
{
    lemma_index_for_draw(validators, draw, 0);
}

/// The bytes that an election seed is hashed from: the election tag, the
/// previous block's hash, the height, and from the first redraw on the
/// number of the attempt.
pub open spec fn election_seed_preimage(prev_hash: Seq<u8>, height: u64, attempt: u64) -> Seq<u8> {
    seq![DOMAIN_ELECTION_SEED] + prev_hash + u64_encoding(height) + if attempt == 0 {
        Seq::<u8>::empty()
    } else {
        u64_encoding(attempt)
    }
}

/// The number that an attempt draws: the first eight bytes of the seed's
/// Keccak-256 digest, little-endian.
pub open spec fn election_draw(prev_hash: Seq<u8>, height: u64, attempt: u64) -> u64 {
    spec_u64_from_le_bytes(
        keccak256_digest(election_seed_preimage(prev_hash, height, attempt)).subrange(0, 8),
    )
}

/// The outcome of an election.
#[derive(Debug, Clone, Copy, PartialEq, Eq)]
pub struct Election {
    /// The elected producer.
    pub producer: Address,
    /// Its position in the validator set.
    pub index: usize,
    /// The number of draws that were made.
    pub attempts: u64,
    /// Whether every draw fell on a validator below the score threshold, so
    /// that the producer was taken in turn instead.
    pub round_robin: bool,
}

/// The position that the election gives from attempt `attempt` on, with the
/// number of draws made and whether it fell back to taking turns.
pub open spec fn elect_spec(
    validators: Seq<Validator>,
    prev_hash: Seq<u8>,
    height: u64,
    min_score: u64,
    max_attempts: u64,
    attempt: u64,
) -> (int, u64, bool)
    decreases max_attempts - attempt,
{
    if attempt >= max_attempts || stake_sum(validators) == 0 {
        ((height as int) % (validators.len() as int), attempt, true)
    } else {
        let draw = election_draw(prev_hash, height, attempt) as nat % stake_sum(validators);
        let index = index_for_draw(validators, draw, 0);
        if validators[index].performance_score >= min_score {
            (index, (attempt + 1) as u64, false)
        } else {
            elect_spec(validators, prev_hash, height, min_score, max_attempts, (attempt + 1) as u64)
        }
    }
}

/// What stands in the way of making a set of the validators: a score above
/// one whole, stakes that do not add up within 64 bits, or two validators
/// with one address, looked for in this order.
pub open spec fn set_error(validators: Seq<Validator>) -> Option<ValidatorError> {
    if exists|i: int|
        0 <= i < validators.len() && (#[trigger] validators[i]).performance_score > SCORE_ONE {
        Some(ValidatorError::ScoreOutOfRange)
    } else if stake_sum(validators) > u64::MAX {
        Some(ValidatorError::StakeOverflow)
    } else if exists|i: int, j: int|
        0 <= i < j < validators.len() && (#[trigger] validators[i]).address@ == (
        #[trigger] validators[j]).address@ {
        Some(ValidatorError::DuplicateValidator)
    } else {
        None
    }
}

/// Whether `set` holds the validators of `given` and no others, as many as
/// `given` does.
pub open spec fn same_validators(set: Seq<Validator>, given: Seq<Validator>) -> bool {
    &&& set.len() == given.len()
    &&& forall|v: Validator| set.contains(v) <==> given.contains(v)
}

/// The first position from `k` on whose validator's address does not come
/// before `address`.
pub open spec fn rank_from(sorted: Seq<Validator>, address: Seq<u8>, k: int) -> int
    decreases sorted.len() - k,
{
    if k >= sorted.len() {
        sorted.len() as int
    } else if !(be_value(sorted[k].address@) < be_value(address)) {
        k
    } else {
        rank_from(sorted, address, k + 1)
    }
}

/// The validators in the order of their addresses' bytes: each is put
/// behind those before it whose addresses come before its own.
pub open spec fn in_address_order(validators: Seq<Validator>) -> Seq<Validator>
    decreases validators.len(),
{
    if validators.len() == 0 {
        Seq::empty()
    } else {
        let before = in_address_order(validators.drop_last());
        before.insert(rank_from(before, validators.last().address@, 0), validators.last())
    }
}

/// The validators at the given positions, in the order of the positions.
pub open spec fn ranked_by(validators: Seq<Validator>, order: Seq<usize>) -> Seq<Validator> {
    Seq::new(order.len(), |j: int| validators[order[j] as int])
}

/// Everything before the rank comes before the address, and what stands at
/// the rank does not.
pub proof fn lemma_rank(sorted: Seq<Validator>, address: Seq<u8>, k: int)
    requires
        0 <= k <= sorted.len(),
        forall|j: int| 0 <= j < k ==> be_value((#[trigger] sorted[j]).address@) < be_value(address),
    ensures
        ({
            let rank = rank_from(sorted, address, k);
            &&& k <= rank <= sorted.len()
            &&& forall|j: int|
                0 <= j < rank ==> be_value((#[trigger] sorted[j]).address@) < be_value(address)
            &&& rank < sorted.len() ==> !(be_value(sorted[rank].address@) < be_value(address))
        }),
    decreases sorted.len() - k,
{
    if k < sorted.len() && be_value(sorted[k].address@) < be_value(address) {
        lemma_rank(sorted, address, k + 1);
    }
}

/// Validators of which no two have one address can be put in the order of
/// their addresses: `in_address_order` gives them in that order, the same
/// validators with the same stakes in all.
pub proof fn lemma_in_address_order(validators: Seq<Validator>)
    requires
        distinct_addresses(validators),
    ensures
        sorted_by_address(in_address_order(validators)),
        same_validators(in_address_order(validators), validators),
        stake_sum(in_address_order(validators)) == stake_sum(validators),
    decreases validators.len(),
{
    if validators.len() > 0 {
        let init = validators.drop_last();
        let last = validators.last();
        assert forall|i: int, j: int| 0 <= i < j < init.len() implies (#[trigger] init[i]).address@
            != (#[trigger] init[j]).address@ by {
            assert(validators[i].address@ != validators[j].address@);
        }
        lemma_in_address_order(init);
        let before = in_address_order(init);
        let pos = rank_from(before, last.address@, 0);
        lemma_rank(before, last.address@, 0);
        let after = before.insert(pos, last);
        assert(after == in_address_order(validators));
        // What stands from the rank on comes after the validator put there.
        assert forall|j: int| pos <= j < before.len() implies be_value(last.address@) < be_value(
            (#[trigger] before[j]).address@,
        ) by {
            assert(before.contains(before[pos]));
            let k = init.index_of(before[pos]);
            assert(validators[k].address@ != validators[validators.len() - 1].address@);
            if be_value(before[pos].address@) == be_value(last.address@) {
                crate::address_map::lemma_be_value_injective(before[pos].address@, last.address@);
            }
            if j > pos {
                assert(be_value(before[pos].address@) < be_value(before[j].address@));
            }
        }
        assert forall|x: int, y: int| 0 <= x < y < after.len() implies be_value(
            (#[trigger] after[x]).address@,
        ) < be_value((#[trigger] after[y]).address@) by {
            let bx = if x < pos { x } else { x - 1 };
            let by = if y < pos { y } else { y - 1 };
            if x != pos && y != pos {
                assert(be_value(before[bx].address@) < be_value(before[by].address@));
            } else if x == pos {
                assert(be_value(last.address@) < be_value(before[by].address@));
            } else {
                assert(be_value(before[bx].address@) < be_value(last.address@));
            }
        }
        assert forall|v: Validator| after.contains(v) <==> validators.contains(v) by {
            if after.contains(v) {
                let at = after.index_of(v);
                if at == pos {
                    assert(validators[validators.len() - 1] == v);
                } else {
                    let b = if at < pos { at } else { at - 1 };
                    assert(before[b] == v);
                    assert(before.contains(v));
                    let k = init.index_of(v);
                    assert(validators[k] == v);
                }
            }
            if validators.contains(v) {
                let k = validators.index_of(v);
                if k == validators.len() - 1 {
                    assert(after[pos] == v);
                } else {
                    assert(init[k] == v);
                    assert(init.contains(v));
                    let b = before.index_of(v);
                    let at = if b < pos { b } else { b + 1 };
                    assert(after[at] == v);
                }
            }
        }
        lemma_stake_sum_insert(before, pos, last);
        lemma_stake_before_agrees(validators, init, init.len() as int);
    }
}

/// Where the validator with a given address stands in a sequence, if there
/// is one.
pub open spec fn validator_position(validators: Seq<Validator>, address: Seq<u8>) -> Option<int> {
    if exists|i: int| 0 <= i < validators.len() && (#[trigger] validators[i]).address@ == address {
        Some(
            choose|i: int| 0 <= i < validators.len() && (#[trigger] validators[i]).address@ == address,
        )
    } else {
        None
    }
}

/// The validators after the one at `address` is slashed at `rate`: the
/// fraction of its stake is gone and its score is lowered; the others stay.
pub open spec fn slashed(validators: Seq<Validator>, address: Seq<u8>, rate: u64) -> Seq<Validator> {
    match validator_position(validators, address) {
        None => validators,
        Some(i) => validators.update(
            i,
            Validator {
                stake: (validators[i].stake - slashed_amount(validators[i].stake, rate)) as u64,
                performance_score: penalized(validators[i].performance_score),
                ..validators[i]
            },
        ),
    }
}

/// The validators after `amount` is credited to the one at `address`.
pub open spec fn credited(validators: Seq<Validator>, address: Seq<u8>, amount: u64) -> Seq<Validator> {
    match validator_position(validators, address) {
        None => validators,
        Some(i) => validators.update(
            i,
            Validator { stake: (validators[i].stake + amount) as u64, ..validators[i] },
        ),
    }
}

/// The validators after the performance of the one at `address` is
/// recorded: its score is raised where it produced in time, and lowered
/// where it timed out.
pub open spec fn performance_recorded(validators: Seq<Validator>, address: Seq<u8>, in_time: bool) -> Seq<
    Validator,
> {
    match validator_position(validators, address) {
        None => validators,
        Some(i) => validators.update(
            i,
            Validator {
                performance_score: if in_time {
                    rewarded(validators[i].performance_score)
                } else {
                    penalized(validators[i].performance_score)
                },
                ..validators[i]
            },
        ),
    }
}

/// The stake of a validator after a fraction of it, in ten-thousandths, is taken.
pub open spec fn slashed_amount(stake: u64, rate: u64) -> nat {
    (stake as nat * rate as nat) / 10000
}

/// A score lowered by the penalty, not below zero.
pub open spec fn penalized(score: u64) -> u64 {
    if score >= SCORE_PENALTY {
        (score - SCORE_PENALTY) as u64
    } else {
        0
    }
}

/// A score raised by the reward, not above one whole.
pub open spec fn rewarded(score: u64) -> u64 {
    if score + SCORE_REWARD <= SCORE_ONE {
        (score + SCORE_REWARD) as u64
    } else {
        SCORE_ONE
    }
}

/// Whether attested stake reaches the finality threshold: the fraction
/// `numerator / denominator` of the total stake.
pub open spec fn reaches_threshold(attested: nat, total: nat, numerator: nat, denominator: nat) -> bool {
    attested * denominator >= total * numerator
}

/// Whether attested stake reaches the finality threshold.
pub fn meets_finality(attested: u64, total: u64, numerator: u64, denominator: u64) -> (ok: bool)
    ensures
        ok == reaches_threshold(attested as nat, total as nat, numerator as nat, denominator as nat),
{
    assert(attested * denominator <= u64::MAX * u64::MAX) by (nonlinear_arith)
        requires
            attested <= u64::MAX,
            denominator <= u64::MAX,
    ;
    assert(total * numerator <= u64::MAX * u64::MAX) by (nonlinear_arith)
        requires
            total <= u64::MAX,
            numerator <= u64::MAX,
    ;
    (attested as u128) * (denominator as u128) >= (total as u128) * (numerator as u128)
}

impl ValidatorSet {
    /// Where the validator with a given address stands, if there is one.
    pub open spec fn index_of(&self, address: Seq<u8>) -> Option<int> {
        validator_position(self.validators@, address)
    }

    /// Whether the set has its invariant.
    pub fn is_well_formed(&self) -> (ok: bool)
        ensures
            ok == self.well_formed(),
    {
        if !scores_in_range(&self.validators) {
            return false;
        }
        match total_stake_of(&self.validators) {
            Some(total) => {
                if total != self.total_stake {
                    return false;
                }
            },
            None => {
                return false;
            },
        }
        has_distinct_addresses(&self.validators)
    }

    /// A set of the given validators, in the order in which they are given.
    /// Fails where a score is above one whole, the stakes do not add up
    /// within 64 bits, or two validators have one address.
    pub fn new(validators: Vec<Validator>) -> (r: Result<ValidatorSet, ValidatorError>)
        ensures
            match r {
                Ok(set) => {
                    &&& set_error(validators@) is None
                    &&& set.well_formed()
                    &&& set.validators@ == validators@
                    &&& set.total_stake == stake_sum(validators@)
                },
                Err(e) => set_error(validators@) == Some(e),
            },
    {
        if !scores_in_range(&validators) {
            return Err(ValidatorError::ScoreOutOfRange);
        }
        let total = match total_stake_of(&validators) {
            Some(total) => total,
            None => {
                return Err(ValidatorError::StakeOverflow);
            },
        };
        if !has_distinct_addresses(&validators) {
            return Err(ValidatorError::DuplicateValidator);
        }
        Ok(ValidatorSet { validators, total_stake: total })
    }

    /// The position of the validator with the given address.
    pub fn find(&self, address: &Address) -> (r: Option<usize>)
        ensures
            match r {
                Some(i) => i < self.validators@.len() && self.validators@[i as int].address@
                    == address@ && forall|j: int|
                    0 <= j < i ==> (#[trigger] self.validators@[j]).address@ != address@,
                None => forall|j: int|
                    0 <= j < self.validators@.len() ==> (#[trigger] self.validators@[j]).address@
                        != address@,
            },
    {
        let mut i: usize = 0;
        while i < self.validators.len()
            invariant
                i <= self.validators@.len(),
                forall|j: int| 0 <= j < i ==> (#[trigger] self.validators@[j]).address@ != address@,
            decreases self.validators@.len() - i,
        {
            if self.validators[i].address == *address {
                return Some(i);
            }
            i += 1;
        }
        None
    }

    /// The rank, in the order of the addresses, of the validator whose
    /// interval of cumulative stake holds `draw`. `order` lists the
    /// positions of the validators in that order.
    fn select_ranked(&self, order: &Vec<usize>, draw: u64) -> (rank: usize)
        requires
            self.well_formed(),
            draw < self.total_stake,
            order@.len() == self.validators@.len(),
            forall|j: int| 0 <= j < order@.len() ==> #[trigger] order@[j] < self.validators@.len(),
            ranked_by(self.validators@, order@) == in_address_order(self.validators@),
        ensures
            rank == index_for_draw(in_address_order(self.validators@), draw as nat, 0),
            rank < self.validators@.len(),
            stake_before(in_address_order(self.validators@), rank as int) <= draw < stake_before(
                in_address_order(self.validators@),
                rank as int,
            ) + in_address_order(self.validators@)[rank as int].stake,
    {
        let ghost ranked = in_address_order(self.validators@);
        proof {
            lemma_in_address_order(self.validators@);
            lemma_index_for_draw(ranked, draw as nat, 0);
        }
        let n = order.len();
        let mut cumulative: u64 = 0;
        let mut i: usize = 0;
        loop
            invariant
                self.well_formed(),
                draw < self.total_stake,
                n == order@.len(),
                n == ranked.len(),
                forall|j: int|
                    0 <= j < order@.len() ==> #[trigger] order@[j] < self.validators@.len(),
                ranked == ranked_by(self.validators@, order@),
                ranked == in_address_order(self.validators@),
                n == self.validators@.len(),
                stake_sum(ranked) == self.total_stake,
                i < n,
                cumulative == stake_before(ranked, i as int),
                cumulative <= draw,
                index_for_draw(ranked, draw as nat, 0) == index_for_draw(
                    ranked,
                    draw as nat,
                    i as int,
                ),
                i <= index_for_draw(ranked, draw as nat, 0) < ranked.len(),
            decreases n - i,
        {
            proof {
                lemma_stake_before_monotone(ranked, i + 1, ranked.len() as int);
            }
            assert(ranked[i as int] == self.validators@[order@[i as int] as int]);
            let next = cumulative + self.validators[order[i]].stake;
            if draw < next {
                return i;
            }
            proof {
                lemma_index_for_draw(ranked, draw as nat, i + 1);
            }
            cumulative = next;
            i += 1;
        }
    }

    /// The validator whose interval of cumulative stake holds `draw`, the
    /// intervals being laid out in the order of the addresses. Gives its
    /// position in the set.
    pub fn select_by_draw(&self, draw: u64) -> (index: usize)
        requires
            self.well_formed(),
            draw < self.total_stake,
        ensures
            index < self.validators@.len(),
            ({
                let ranked = in_address_order(self.validators@);
                let rank = index_for_draw(ranked, draw as nat, 0);
                &&& 0 <= rank < ranked.len()
                &&& self.validators@[index as int] == ranked[rank]
                &&& stake_before(ranked, rank) <= draw < stake_before(ranked, rank)
                    + ranked[rank].stake
            }),
    {
        let order = address_ranking(&self.validators);
        let rank = self.select_ranked(&order, draw);
        assert(ranked_by(self.validators@, order@)[rank as int]
            == self.validators@[order@[rank as int] as int]);
        order[rank]
    }

    /// Elects the producer of `height` after the block with hash `prev_hash`.
    /// A draw that falls on a validator whose score is below `min_score` is
    /// made again, up to `max_attempts` draws in all; after that, and where
    /// no stake is held at all, the producer is taken in turn by the height.
    /// Intervals and turns go by the order of the validators' addresses; the
    /// election gives the position of the producer in the set.
    pub fn elect_producer(
        &self,
        prev_hash: &BlockHash,
        height: u64,
        min_score: u64,
        max_attempts: u64,
    ) -> (r: Result<Election, ValidatorError>)
        requires
            self.well_formed(),
        ensures
            match r {
                Ok(election) => {
                    let ranked = in_address_order(self.validators@);
                    let (rank, attempts, round_robin) = elect_spec(
                        ranked,
                        prev_hash@,
                        height,
                        min_score,
                        max_attempts,
                        0,
                    );
                    &&& self.validators@.len() > 0
                    &&& 0 <= rank < ranked.len()
                    &&& election.index < self.validators@.len()
                    &&& self.validators@[election.index as int] == ranked[rank]
                    &&& election.producer == ranked[rank].address
                    &&& election.attempts == attempts
                    &&& election.round_robin == round_robin
                },
                Err(e) => e == ValidatorError::NoValidators && self.validators@.len() == 0,
            },
    {
        let n = self.validators.len();
        if n == 0 {
            return Err(ValidatorError::NoValidators);
        }
        let order = address_ranking(&self.validators);
        let ghost ranked = in_address_order(self.validators@);
        proof {
            lemma_in_address_order(self.validators@);
        }
        let mut attempt: u64 = 0;
        while attempt < max_attempts && self.total_stake > 0
            invariant
                self.well_formed(),
                n == self.validators@.len(),
                n > 0,
                order@.len() == n,
                ranked.len() == n,
                forall|j: int| 0 <= j < order@.len() ==> #[trigger] order@[j] < n,
                ranked == in_address_order(self.validators@),
                ranked == ranked_by(self.validators@, order@),
                stake_sum(ranked) == self.total_stake,
                attempt <= max_attempts,
                elect_spec(ranked, prev_hash@, height, min_score, max_attempts, 0) == elect_spec(
                    ranked,
                    prev_hash@,
                    height,
                    min_score,
                    max_attempts,
                    attempt,
                ),
            decreases max_attempts - attempt,
        {
            let draw = draw_for(prev_hash, height, attempt) % self.total_stake;
            let rank = self.select_ranked(&order, draw);
            let index = order[rank];
            assert(ranked[rank as int] == self.validators@[index as int]);
            if self.validators[index].performance_score >= min_score {
                return Ok(
                    Election {
                        producer: self.validators[index].address,
                        index,
                        attempts: attempt + 1,
                        round_robin: false,
                    },
                );
            }
            attempt += 1;
        }
        let rank = (height % (n as u64)) as usize;
        let index = order[rank];
        assert(ranked[rank as int] == self.validators@[index as int]);
        Ok(
            Election {
                producer: self.validators[index].address,
                index,
                attempts: attempt,
                round_robin: true,
            },
        )
    }

    /// Slashes the validator at `address`: the fraction `rate`, in
    /// ten-thousandths, of its stake is burnt and leaves the total at once,
    /// and its score goes down by the penalty. Gives the amount burnt.
    pub fn slash(&mut self, address: &Address, rate: u64) -> (r: Result<u64, ValidatorError>)
        requires
            old(self).well_formed(),
        ensures
            final(self).well_formed(),
            match r {
                Ok(burnt) => {
                    &&& rate <= FRACTION_ONE
                    &&& old(self).index_of(address@) matches Some(i)
                    &&& burnt == slashed_amount(old(self).validators@[i].stake, rate)
                    &&& final(self).total_stake == old(self).total_stake - burnt
                    &&& final(self).validators@ == slashed(old(self).validators@, address@, rate)
                },
                Err(ValidatorError::FractionOutOfRange) => rate > FRACTION_ONE && *final(self)
                    == *old(self),
                Err(ValidatorError::UnknownValidator) => rate <= FRACTION_ONE && old(self).index_of(
                    address@,
                ) is None && *final(self) == *old(self),
                Err(_) => false,
            },
    {
        if rate > FRACTION_ONE {
            return Err(ValidatorError::FractionOutOfRange);
        }
        let i = match self.find(address) {
            Some(i) => i,
            None => {
                return Err(ValidatorError::UnknownValidator);
            },
        };
        proof {
            lemma_first_index_is_chosen(self, address@, i as int);
        }
        let stake = self.validators[i].stake;
        assert(stake * rate <= u64::MAX * 10000) by (nonlinear_arith)
            requires
                stake <= u64::MAX,
                rate <= 10000,
        ;
        let burnt = ((stake as u128) * (rate as u128) / 10000) as u64;
        assert(burnt <= stake) by (nonlinear_arith)
            requires
                burnt == (stake * rate) / 10000,
                rate <= 10000,
                stake >= 0,
        ;
        let score = self.validators[i].performance_score;
        let new_score = if score >= SCORE_PENALTY {
            score - SCORE_PENALTY
        } else {
            0
        };
        let ghost before = self.validators@;
        let entry = &mut self.validators[i];
        entry.stake = stake - burnt;
        entry.performance_score = new_score;
        proof {
            lemma_stake_before_changed(before, self.validators@, i as int, before.len() as int);
            lemma_stake_before_monotone(before, i + 1, before.len() as int);
            lemma_distinct_kept(before, self.validators@);
        }
        self.total_stake = self.total_stake - burnt;
        Ok(burnt)
    }

    /// Credits `amount` to the stake of the validator at `address`.
    pub fn reward(&mut self, address: &Address, amount: u64) -> (r: Result<(), ValidatorError>)
        requires
            old(self).well_formed(),
        ensures
            final(self).well_formed(),
            match r {
                Ok(()) => {
                    &&& old(self).index_of(address@) is Some
                    &&& old(self).total_stake + amount <= u64::MAX
                    &&& final(self).total_stake == old(self).total_stake + amount
                    &&& final(self).validators@ == credited(old(self).validators@, address@, amount)
                },
                Err(ValidatorError::UnknownValidator) => old(self).index_of(address@) is None
                    && *final(self) == *old(self),
                Err(ValidatorError::StakeOverflow) => old(self).index_of(address@) is Some && old(self).total_stake + amount > u64::MAX && *final(self) == *old(self),
                Err(_) => false,
            },
    {
        let i = match self.find(address) {
            Some(i) => i,
            None => {
                return Err(ValidatorError::UnknownValidator);
            },
        };
        proof {
            lemma_first_index_is_chosen(self, address@, i as int);
        }
        let new_total = match self.total_stake.checked_add(amount) {
            Some(t) => t,
            None => {
                return Err(ValidatorError::StakeOverflow);
            },
        };
        let ghost before = self.validators@;
        proof {
            lemma_stake_before_monotone(before, i + 1, before.len() as int);
            lemma_stake_before_monotone(before, 0, i as int);
        }
        let entry = &mut self.validators[i];
        entry.stake = entry.stake + amount;
        proof {
            lemma_stake_before_changed(before, self.validators@, i as int, before.len() as int);
            lemma_distinct_kept(before, self.validators@);
        }
        self.total_stake = new_total;
        Ok(())
    }

    /// Records how the producer at `address` did: its score goes up by the
    /// reward where it produced in time, and down by the penalty where it
    /// timed out. Gives whether there is such a validator.
    pub fn record_performance(&mut self, address: &Address, in_time: bool) -> (known: bool)
        requires
            old(self).well_formed(),
        ensures
            final(self).well_formed(),
            final(self).total_stake == old(self).total_stake,
            known == old(self).index_of(address@) is Some,
            final(self).validators@ == performance_recorded(old(self).validators@, address@, in_time),
    {
        let i = match self.find(address) {
            Some(i) => i,
            None => {
                return false;
            },
        };
        proof {
            lemma_first_index_is_chosen(self, address@, i as int);
        }
        let score = self.validators[i].performance_score;
        let new_score = if in_time {
            if score <= SCORE_ONE - SCORE_REWARD {
                score + SCORE_REWARD
            } else {
                SCORE_ONE
            }
        } else if score >= SCORE_PENALTY {
            score - SCORE_PENALTY
        } else {
            0
        };
        let ghost before = self.validators@;
        let entry = &mut self.validators[i];
        entry.performance_score = new_score;
        proof {
            lemma_stake_before_agrees(before, self.validators@, before.len() as int);
            lemma_distinct_kept(before, self.validators@);
        }
        true
    }
}

/// Whether no score is above one whole.
pub open spec fn scores_bounded(validators: Seq<Validator>) -> bool {
    forall|i: int|
        0 <= i < validators.len() ==> (#[trigger] validators[i]).performance_score <= SCORE_ONE
}

/// Whether no score is above one whole.
pub fn scores_in_range(validators: &Vec<Validator>) -> (ok: bool)
    ensures
        ok == scores_bounded(validators@),
{
    let mut k: usize = 0;
    while k < validators.len()
        invariant
            k <= validators@.len(),
            forall|j: int| 0 <= j < k ==> (#[trigger] validators@[j]).performance_score <= SCORE_ONE,
        decreases validators@.len() - k,
    {
        if validators[k].performance_score > SCORE_ONE {
            return false;
        }
        k += 1;
    }
    true
}

/// The sum of the stakes, if it fits in 64 bits.
pub fn total_stake_of(validators: &Vec<Validator>) -> (total: Option<u64>)
    ensures
        match total {
            Some(t) => t == stake_sum(validators@),
            None => stake_sum(validators@) > u64::MAX,
        },
{
    let mut total: u64 = 0;
    let mut k: usize = 0;
    while k < validators.len()
        invariant
            k <= validators@.len(),
            total == stake_before(validators@, k as int),
        decreases validators@.len() - k,
    {
        total = match total.checked_add(validators[k].stake) {
            Some(t) => t,
            None => {
                proof {
                    lemma_stake_before_monotone(validators@, k + 1, validators@.len() as int);
                }
                return None;
            },
        };
        k += 1;
    }
    Some(total)
}

/// Whether no two validators have one address.
pub fn has_distinct_addresses(validators: &Vec<Validator>) -> (ok: bool)
    ensures
        ok == distinct_addresses(validators@),
{
    let n = validators.len();
    let mut j: usize = 0;
    while j < n
        invariant
            j <= n,
            n == validators@.len(),
            forall|x: int, y: int|
                0 <= x < y < j ==> (#[trigger] validators@[x]).address@ != (
                #[trigger] validators@[y]).address@,
        decreases n - j,
    {
        let mut i: usize = 0;
        while i < j
            invariant
                i <= j < n,
                n == validators@.len(),
                forall|x: int|
                    0 <= x < i ==> (#[trigger] validators@[x]).address@
                        != validators@[j as int].address@,
            decreases j - i,
        {
            if validators[i].address == validators[j].address {
                return false;
            }
            i += 1;
        }
        j += 1;
    }
    true
}

/// The positions of the validators in the order of their addresses: the
/// validator at position `order[j]` is the one of rank `j`.
pub fn address_ranking(validators: &Vec<Validator>) -> (order: Vec<usize>)
    ensures
        order@.len() == validators@.len(),
        forall|j: int| 0 <= j < order@.len() ==> #[trigger] order@[j] < validators@.len(),
        ranked_by(validators@, order@) == in_address_order(validators@),
{
    let n = validators.len();
    let mut order: Vec<usize> = Vec::new();
    let mut i: usize = 0;
    assert(validators@.subrange(0, 0) =~= Seq::<Validator>::empty());
    assert(ranked_by(validators@, order@) =~= in_address_order(validators@.subrange(0, 0)));
    while i < n
        invariant
            i <= n,
            n == validators@.len(),
            order@.len() == i,
            forall|j: int| 0 <= j < order@.len() ==> #[trigger] order@[j] < i,
            ranked_by(validators@, order@) == in_address_order(validators@.subrange(0, i as int)),
        decreases n - i,
    {
        let ghost ranked = ranked_by(validators@, order@);
        let ghost address = validators@[i as int].address@;
        let mut pos: usize = 0;
        while pos < order.len() && address_order(
            &validators[order[pos]].address,
            &validators[i].address,
        ) == -1
            invariant
                pos <= order@.len(),
                i < n,
                n == validators@.len(),
                forall|j: int| 0 <= j < order@.len() ==> #[trigger] order@[j] < i,
                ranked == ranked_by(validators@, order@),
                address == validators@[i as int].address@,
                rank_from(ranked, address, 0) == rank_from(ranked, address, pos as int),
            decreases order@.len() - pos,
        {
            assert(ranked[pos as int] == validators@[order@[pos as int] as int]);
            pos += 1;
        }
        proof {
            if pos < order@.len() {
                assert(ranked[pos as int] == validators@[order@[pos as int] as int]);
            }
            assert(rank_from(ranked, address, 0) == pos);
        }
        let ghost order_before = order@;
        order.insert(pos, i);
        proof {
            let prefix = validators@.subrange(0, i + 1);
            assert(prefix.drop_last() =~= validators@.subrange(0, i as int));
            assert(prefix.last() == validators@[i as int]);
            assert(order@ == order_before.insert(pos as int, i));
            assert(ranked_by(validators@, order@) =~= ranked.insert(pos as int, validators@[i as int]));
        }
        i += 1;
    }
    assert(validators@.subrange(0, n as int) =~= validators@);
    order
}

/// The addresses of the validators, in order.
pub open spec fn addresses_of(validators: Seq<Validator>) -> Seq<Seq<u8>> {
    validators.map_values(|v: Validator| v.address@)
}

/// There is one way to put validators in the order of their addresses: two
/// sequences in that order that hold the same validators are equal. So the
/// order of the addresses does not depend on the order in which the
/// validators are given.
pub proof fn lemma_address_order_is_unique(set: Seq<Validator>, given: Seq<Validator>)
    requires
        sorted_by_address(set),
        sorted_by_address(given),
        same_validators(set, given),
    ensures
        set == given,
{
    let a = addresses_of(set);
    let b = addresses_of(given);
    assert(crate::address_map::strictly_increasing(a)) by {
        assert forall|i: int, j: int| 0 <= i < j < a.len() implies be_value(#[trigger] a[i])
            < be_value(#[trigger] a[j]) by {
            assert(be_value(set[i].address@) < be_value(set[j].address@));
        }
    }
    assert(crate::address_map::strictly_increasing(b)) by {
        assert forall|i: int, j: int| 0 <= i < j < b.len() implies be_value(#[trigger] b[i])
            < be_value(#[trigger] b[j]) by {
            assert(be_value(given[i].address@) < be_value(given[j].address@));
        }
    }
    assert forall|x: Seq<u8>| a.contains(x) <==> b.contains(x) by {
        if a.contains(x) {
            let j = a.index_of(x);
            assert(set.contains(set[j]));
            let i = given.index_of(set[j]);
            assert(b[i] == x);
        }
        if b.contains(x) {
            let i = b.index_of(x);
            assert(given.contains(given[i]));
            let j = set.index_of(given[i]);
            assert(a[j] == x);
        }
    }
    crate::address_map::lemma_increasing_unique(a, b);
    assert forall|j: int| 0 <= j < set.len() implies set[j] == given[j] by {
        assert(set.contains(set[j]));
        let i = given.index_of(set[j]);
        assert(a[j] == b[j]);
        if i < j {
            assert(be_value(given[i].address@) < be_value(given[j].address@));
        } else if j < i {
            assert(be_value(given[j].address@) < be_value(given[i].address@));
        }
    }
    assert(set =~= given);
}

/// The election does not depend on the order in which the validators are
/// listed: two lists of the same validators give the same order of
/// addresses, and with it the same stake intervals and the same turns.
pub proof fn lemma_election_ignores_list_order(a: Seq<Validator>, b: Seq<Validator>)
    requires
        distinct_addresses(a),
        distinct_addresses(b),
        same_validators(a, b),
    ensures
        in_address_order(a) == in_address_order(b),
{
    lemma_in_address_order(a);
    lemma_in_address_order(b);
    let ra = in_address_order(a);
    let rb = in_address_order(b);
    assert forall|v: Validator| ra.contains(v) <==> rb.contains(v) by {
        assert(ra.contains(v) <==> a.contains(v));
        assert(rb.contains(v) <==> b.contains(v));
    }
    lemma_address_order_is_unique(ra, rb);
}

/// An election elects one of the validators: the rank that it gives is
/// that of a validator.
pub proof fn lemma_elected_rank(
    validators: Seq<Validator>,
    prev_hash: Seq<u8>,
    height: u64,
    min_score: u64,
    max_attempts: u64,
    attempt: u64,
)
    requires
        validators.len() > 0,
    ensures
        0 <= elect_spec(validators, prev_hash, height, min_score, max_attempts, attempt).0
            < validators.len(),
    decreases max_attempts - attempt,
{
    if attempt >= max_attempts || stake_sum(validators) == 0 {
    } else {
        let draw = election_draw(prev_hash, height, attempt) as nat % stake_sum(validators);
        lemma_index_for_draw(validators, draw, 0);
        let index = index_for_draw(validators, draw, 0);
        if validators[index].performance_score < min_score {
            lemma_elected_rank(
                validators,
                prev_hash,
                height,
                min_score,
                max_attempts,
                (attempt + 1) as u64,
            );
        }
    }
}

/// In a set, a validator is the one that `index_of` gives for its address.
pub proof fn lemma_first_index_is_chosen(set: &ValidatorSet, address: Seq<u8>, i: int)
    requires
        distinct_addresses(set.validators@),
        0 <= i < set.validators@.len(),
        set.validators@[i].address@ == address,
    ensures
        set.index_of(address) == Some(i),
{
    let c = choose|k: int|
        0 <= k < set.validators@.len() && (#[trigger] set.validators@[k]).address@ == address;
    if c < i {
        assert(set.validators@[c].address@ != set.validators@[i].address@);
    } else if i < c {
        assert(set.validators@[i].address@ != set.validators@[c].address@);
    }
}

/// A sequence with the same addresses at the same places has no address
/// twice if the other has none.
pub proof fn lemma_distinct_kept(before: Seq<Validator>, after: Seq<Validator>)
    requires
        distinct_addresses(before),
        before.len() == after.len(),
        forall|i: int| 0 <= i < before.len() ==> (#[trigger] after[i]).address == before[i].address,
    ensures
        distinct_addresses(after),
{
    assert forall|i: int, j: int| 0 <= i < j < after.len() implies (#[trigger] after[i]).address@
        != (#[trigger] after[j]).address@ by {
        assert(before[i].address@ != before[j].address@);
    }
}

/// Inserting a validator into a sequence adds its stake to the sum.
pub proof fn lemma_stake_sum_insert(validators: Seq<Validator>, at: int, validator: Validator)
    requires
        0 <= at <= validators.len(),
    ensures
        stake_sum(validators.insert(at, validator)) == stake_sum(validators) + validator.stake,
{
    let after = validators.insert(at, validator);
    lemma_stake_before_agrees(validators, after, at);
    assert(stake_before(after, at + 1) == stake_before(validators, at) + validator.stake);
    lemma_stake_before_shifted(validators, after, at, validators.len() as int);
}

/// Behind an inserted validator, the sums are those of the sequence before
/// with the inserted stake added.
proof fn lemma_stake_before_shifted(before: Seq<Validator>, after: Seq<Validator>, at: int, k: int)
    requires
        0 <= at <= k <= before.len(),
        after.len() == before.len() + 1,
        forall|i: int| 0 <= i < at ==> (#[trigger] after[i]) == before[i],
        forall|i: int| at < i < after.len() ==> (#[trigger] after[i]) == before[i - 1],
    ensures
        stake_before(after, k + 1) == stake_before(before, k) + after[at].stake,
    decreases k - at,
{
    if k == at {
        lemma_stake_before_agrees(before, after, at);
    } else {
        lemma_stake_before_shifted(before, after, at, k - 1);
        assert(after[k] == before[k - 1]);
    }
}

/// The seed of an attempt to elect the producer of `height`.
pub fn election_seed(prev_hash: &BlockHash, height: u64, attempt: u64) -> (seed: [u8; 32])
    ensures
        seed@ == keccak256_digest(election_seed_preimage(prev_hash@, height, attempt)),
{
    let mut bytes: Vec<u8> = Vec::new();
    bytes.push(DOMAIN_ELECTION_SEED);
    append_bytes(&mut bytes, prev_hash.0.as_slice());
    write_u64(height, &mut bytes);
    if attempt != 0 {
        write_u64(attempt, &mut bytes);
    }
    assert(bytes@ =~= election_seed_preimage(prev_hash@, height, attempt));
    keccak256_hash(bytes.as_slice())
}

/// The number that an attempt draws.
pub fn draw_for(prev_hash: &BlockHash, height: u64, attempt: u64) -> (draw: u64)
    ensures
        draw == election_draw(prev_hash@, height, attempt),
{
    let seed = election_seed(prev_hash, height, attempt);
    let head = vstd::slice::slice_subrange(seed.as_slice(), 0, 8);
    u64_from_le_bytes(head)
}

} // verus!


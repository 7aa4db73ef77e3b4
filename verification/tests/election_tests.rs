use zk_sac_engine::consensus::election::{
    address_ranking, draw_for, election_seed, has_distinct_addresses, meets_finality, Election,
    ValidatorError,
};
use zk_sac_engine::crypto::hash::keccak256_hash;
use zk_sac_engine::types::{Address, BlockHash, Validator, ValidatorSet};

fn validator(id: u8, stake: u64, score: u64) -> Validator {
    Validator { address: Address::new(id), stake, public_key: vec![id; 32], performance_score: score }
}

fn set(validators: Vec<Validator>) -> ValidatorSet {
    ValidatorSet::new(validators).unwrap()
}

fn expected_draw(prev: &[u8; 32], height: u64, attempt: u64) -> u64 {
    let mut bytes = vec![5u8];
    bytes.extend_from_slice(prev);
    bytes.extend_from_slice(&height.to_le_bytes());
    if attempt != 0 {
        bytes.extend_from_slice(&attempt.to_le_bytes());
    }
    let seed = keccak256_hash(&bytes);
    let mut head = [0u8; 8];
    head.copy_from_slice(&seed[..8]);
    u64::from_le_bytes(head)
}

#[test]
fn the_set_is_kept_in_the_order_given() {
    let given = vec![validator(3, 1, 0), validator(1, 2, 10000), validator(2, 3, 5)];
    let s = set(vec![validator(3, 1, 0), validator(1, 2, 10000), validator(2, 3, 5)]);
    assert_eq!(s.validators, given);
    assert_eq!(s.total_stake, 6);
    assert_eq!(s.find(&Address::new(2)), Some(2));
    assert_eq!(s.find(&Address::new(3)), Some(0));
    assert_eq!(s.find(&Address::new(4)), None);
    assert_eq!(set(vec![]).total_stake, 0);
    // The order of the addresses is kept beside the list, not in it.
    assert_eq!(address_ranking(&s.validators), vec![1, 2, 0]);
    assert_eq!(address_ranking(&Vec::new()), Vec::<usize>::new());
    let mut high = validator(1, 1, 0);
    high.address = Address([0, 1, 0, 0, 0, 0, 0, 0, 0, 0, 0, 0, 0, 0, 0, 0, 0, 0, 0, 0]);
    assert_eq!(address_ranking(&vec![high, validator(255, 1, 0), validator(7, 1, 0)]), vec![2, 1, 0]);
}

#[test]
fn set_errors_each_have_their_input() {
    assert_eq!(
        ValidatorSet::new(vec![validator(1, 1, 0), validator(2, 1, 0), validator(1, 5, 0)]),
        Err(ValidatorError::DuplicateValidator)
    );
    assert_eq!(
        ValidatorSet::new(vec![validator(1, 1, 10001)]),
        Err(ValidatorError::ScoreOutOfRange)
    );
    assert_eq!(
        ValidatorSet::new(vec![validator(1, u64::MAX, 0), validator(2, 1, 0)]),
        Err(ValidatorError::StakeOverflow)
    );
    assert_eq!(
        set(vec![]).elect_producer(&BlockHash::zero(), 1, 0, 8),
        Err(ValidatorError::NoValidators)
    );
}

#[test]
fn a_draw_falls_into_the_interval_of_cumulative_stake() {
    let s = set(vec![validator(1, 2, 0), validator(2, 1, 0), validator(3, 0, 0), validator(4, 3, 0)]);
    let picks: Vec<usize> = (0..6).map(|d| s.select_by_draw(d)).collect();
    assert_eq!(picks, vec![0, 0, 1, 3, 3, 3]);
    // The intervals lie in the order of the addresses, whatever the list's.
    let s = set(vec![validator(4, 3, 0), validator(2, 1, 0), validator(1, 2, 0), validator(3, 0, 0)]);
    let picks: Vec<usize> = (0..6).map(|d| s.select_by_draw(d)).collect();
    assert_eq!(picks, vec![2, 2, 1, 0, 0, 0]);
}

#[test]
fn election_is_reproducible() {
    let s = set(vec![validator(1, 2, 10000), validator(2, 1, 10000), validator(3, 1, 10000)]);
    let prev = BlockHash::zero();
    let run = |s: &ValidatorSet| -> Vec<Address> {
        (1..=10).map(|h| s.elect_producer(&prev, h, 5000, 8).unwrap().producer).collect()
    };
    let first = run(&s);
    assert_eq!(first, run(&s));
    let other_order = set(vec![validator(3, 1, 10000), validator(1, 2, 10000), validator(2, 1, 10000)]);
    assert_eq!(first, run(&other_order));
    for h in 1..=10u64 {
        let election = other_order.elect_producer(&prev, h, 5000, 8).unwrap();
        assert_eq!(other_order.validators[election.index].address, election.producer);
    }
    for h in 1..=10u64 {
        let draw = expected_draw(&[0; 32], h, 0);
        assert_eq!(draw_for(&prev, h, 0), draw);
        let index = match draw % 4 {
            0 | 1 => 0,
            2 => 1,
            _ => 2,
        };
        assert_eq!(
            s.elect_producer(&prev, h, 5000, 8),
            Ok(Election {
                producer: Address::new(index as u8 + 1),
                index,
                attempts: 1,
                round_robin: false
            })
        );
    }
    let mut tagged = vec![5u8];
    tagged.extend_from_slice(&[0; 32]);
    tagged.extend_from_slice(&1u64.to_le_bytes());
    assert_eq!(election_seed(&prev, 1, 0), keccak256_hash(&tagged));
    assert_ne!(election_seed(&prev, 1, 0), election_seed(&prev, 1, 1));
    assert_ne!(election_seed(&prev, 1, 0), election_seed(&BlockHash([1; 32]), 1, 0));
}

#[test]
fn equal_stakes_are_elected_about_equally_often() {
    let s = set((1..=4).map(|i| validator(i, 100, 10000)).collect());
    let prev = BlockHash([7; 32]);
    let mut counts = [0u32; 4];
    let n = 4000u64;
    for h in 1..=n {
        counts[s.elect_producer(&prev, h, 0, 1).unwrap().index] += 1;
    }
    // Each count is binomial with mean 1000 and standard deviation about 27.4.
    for c in counts {
        assert!((850..=1150).contains(&c), "count {}", c);
    }
    assert_eq!(counts.iter().sum::<u32>() as u64, n);
}

#[test]
fn a_low_score_is_drawn_again_and_then_taken_in_turn() {
    let prev = BlockHash::zero();
    let all_low = set(vec![validator(1, 1, 100), validator(2, 1, 100), validator(3, 1, 100)]);
    for h in 0..7u64 {
        assert_eq!(
            all_low.elect_producer(&prev, h, 5000, 8),
            Ok(Election {
                producer: Address::new((h % 3) as u8 + 1),
                index: (h % 3) as usize,
                attempts: 8,
                round_robin: true
            })
        );
    }
    assert_eq!(
        all_low.elect_producer(&prev, 4, 5000, 0),
        Ok(Election { producer: Address::new(2), index: 1, attempts: 0, round_robin: true })
    );
    let no_stake = set(vec![validator(1, 0, 10000), validator(2, 0, 10000)]);
    assert_eq!(
        no_stake.elect_producer(&prev, 5, 5000, 8),
        Ok(Election { producer: Address::new(2), index: 1, attempts: 0, round_robin: true })
    );
    let one_good = set(vec![validator(1, 1, 100), validator(2, 1, 9000)]);
    for h in 1..=20u64 {
        let election = one_good.elect_producer(&prev, h, 5000, 64).unwrap();
        let mut attempt = 0;
        while expected_draw(&[0; 32], h, attempt) % 2 == 0 {
            attempt += 1;
        }
        assert_eq!(
            election,
            Election { producer: Address::new(2), index: 1, attempts: attempt + 1, round_robin: false }
        );
    }
}

#[test]
fn slashing_burns_a_fraction_of_the_stake() {
    let mut s = set(vec![validator(1, 1000, 10000), validator(2, 999, 500)]);
    assert_eq!(s.slash(&Address::new(1), 500), Ok(50));
    assert_eq!(s.validators[0].stake, 950);
    assert_eq!(s.validators[0].performance_score, 9000);
    assert_eq!(s.total_stake, 1949);
    assert_eq!(s.slash(&Address::new(2), 1), Ok(0));
    assert_eq!(s.validators[1].stake, 999);
    assert_eq!(s.validators[1].performance_score, 0);
    assert_eq!(s.slash(&Address::new(2), 10000), Ok(999));
    assert_eq!(s.validators[1].stake, 0);
    assert_eq!(s.total_stake, 950);
    assert_eq!(s.slash(&Address::new(3), 1), Err(ValidatorError::UnknownValidator));
    assert_eq!(s.slash(&Address::new(1), 10001), Err(ValidatorError::FractionOutOfRange));
    assert_eq!(s.total_stake, 950);
    let mut big = set(vec![validator(1, u64::MAX, 0)]);
    assert_eq!(big.slash(&Address::new(1), 9999), Ok(18444899399302180659));
}

#[test]
fn rewards_and_scores() {
    let mut s = set(vec![validator(1, 10, 9950), validator(2, 20, 50)]);
    assert_eq!(s.reward(&Address::new(1), 5), Ok(()));
    assert_eq!(s.validators[0].stake, 15);
    assert_eq!(s.total_stake, 35);
    assert_eq!(s.reward(&Address::new(3), 5), Err(ValidatorError::UnknownValidator));
    assert_eq!(s.reward(&Address::new(2), u64::MAX - 34), Err(ValidatorError::StakeOverflow));
    assert_eq!(s.total_stake, 35);
    assert!(s.record_performance(&Address::new(1), true));
    assert_eq!(s.validators[0].performance_score, 10000);
    assert!(s.record_performance(&Address::new(1), false));
    assert_eq!(s.validators[0].performance_score, 9000);
    assert!(s.record_performance(&Address::new(1), true));
    assert_eq!(s.validators[0].performance_score, 9100);
    assert!(s.record_performance(&Address::new(2), false));
    assert_eq!(s.validators[1].performance_score, 0);
    assert!(!s.record_performance(&Address::new(3), true));
    assert_eq!(s.total_stake, 35);
}

#[test]
fn finality_threshold_is_exact() {
    assert!(meets_finality(2, 3, 2, 3));
    assert!(!meets_finality(1, 3, 2, 3));
    assert!(meets_finality(67, 100, 2, 3));
    assert!(!meets_finality(66, 100, 2, 3));
    assert!(meets_finality(0, 0, 2, 3));
    assert!(meets_finality(0, 5, 0, 3));
    assert!(meets_finality(u64::MAX, u64::MAX, 1, 1));
    assert!(!meets_finality(u64::MAX - 1, u64::MAX, u64::MAX, u64::MAX));
}

#[test]
fn set_errors_are_looked_for_in_order() {
    assert_eq!(
        ValidatorSet::new(vec![validator(1, u64::MAX, 0), validator(1, 1, 10001)]),
        Err(ValidatorError::ScoreOutOfRange)
    );
    assert_eq!(
        ValidatorSet::new(vec![validator(1, u64::MAX, 0), validator(1, 1, 0)]),
        Err(ValidatorError::StakeOverflow)
    );
    assert_eq!(
        ValidatorSet::new(vec![validator(1, 1, 0), validator(1, 1, 0)]),
        Err(ValidatorError::DuplicateValidator)
    );
}

#[test]
fn the_invariant_of_a_set_can_be_checked() {
    let mut s = set(vec![validator(3, 1, 0), validator(1, 2, 10000), validator(2, 3, 5)]);
    assert!(s.is_well_formed());
    assert!(set(vec![]).is_well_formed());
    s.total_stake = 5;
    assert!(!s.is_well_formed());
    s.total_stake = 6;
    s.validators[1].performance_score = 10001;
    assert!(!s.is_well_formed());
    s.validators[1].performance_score = 10000;
    s.validators.swap(0, 1);
    assert!(s.is_well_formed());
    assert!(has_distinct_addresses(&s.validators));
    s.validators[1].address = Address::new(2);
    assert!(!has_distinct_addresses(&s.validators));
    assert!(!s.is_well_formed());
    let huge = ValidatorSet {
        validators: vec![validator(1, u64::MAX, 0), validator(2, 1, 0)],
        total_stake: 0,
    };
    assert!(!huge.is_well_formed());
}

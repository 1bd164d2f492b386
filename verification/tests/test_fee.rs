use utxo_mixer::denomination::{
    denomination_slot, denomination_table, is_accepted, DenominationRegistry, ONE_NEAR,
};
use utxo_mixer::fee::{split, BASIS_POINTS_SCALE, MAX_FEE_BASIS_POINTS};

#[test]
fn split_one_percent_of_one_near() {
    let (fee, net) = split(ONE_NEAR, 100);
    assert_eq!(fee, 10_000_000_000_000_000_000_000);
    assert_eq!(net, 990_000_000_000_000_000_000_000);
}

#[test]
fn split_maximum_rate_of_hundred_near() {
    let (fee, net) = split(100 * ONE_NEAR, MAX_FEE_BASIS_POINTS);
    assert_eq!(fee, 5 * ONE_NEAR);
    assert_eq!(net, 95 * ONE_NEAR);
}

#[test]
fn split_rounds_the_fee_down() {
    assert_eq!(split(9_999, 1), (0, 9_999));
    assert_eq!(split(10_000, 1), (1, 9_999));
    assert_eq!(split(19_999, 3), (5, 19_994));
    assert_eq!(split(1, 500), (0, 1));
}

#[test]
fn split_zero_rate_takes_no_fee() {
    for gross in [0u128, 1, ONE_NEAR, 10 * ONE_NEAR, 100 * ONE_NEAR, u128::MAX] {
        assert_eq!(split(gross, 0), (0, gross));
    }
}

#[test]
fn split_parts_add_up_for_every_denomination_and_rate() {
    for gross in denomination_table() {
        for rate in 0..=MAX_FEE_BASIS_POINTS {
            let (fee, net) = split(gross, rate);
            assert_eq!(fee + net, gross);
            assert_eq!(fee, gross * u128::from(rate) / 10_000);
        }
    }
}

#[test]
fn split_does_not_overflow_on_the_largest_amount() {
    let (fee, net) = split(u128::MAX, MAX_FEE_BASIS_POINTS);
    assert_eq!(fee, 17_014_118_346_046_923_173_168_730_371_588_410_572);
    assert_eq!(fee + net, u128::MAX);
    assert_eq!(split(u128::MAX, BASIS_POINTS_SCALE), (u128::MAX, 0));
}

#[test]
fn table_lists_one_ten_and_hundred_near() {
    assert_eq!(
        denomination_table(),
        vec![
            1_000_000_000_000_000_000_000_000u128,
            10_000_000_000_000_000_000_000_000u128,
            100_000_000_000_000_000_000_000_000u128,
        ]
    );
}

#[test]
fn only_listed_amounts_are_accepted() {
    assert!(is_accepted(ONE_NEAR));
    assert!(is_accepted(10 * ONE_NEAR));
    assert!(is_accepted(100 * ONE_NEAR));
    assert!(!is_accepted(0));
    assert!(!is_accepted(1));
    assert!(!is_accepted(ONE_NEAR - 1));
    assert!(!is_accepted(2 * ONE_NEAR));
    assert!(!is_accepted(1_000 * ONE_NEAR));
    assert!(!is_accepted(u128::MAX));
}

#[test]
fn slot_is_the_position_in_the_table() {
    assert_eq!(denomination_slot(ONE_NEAR), Some(0));
    assert_eq!(denomination_slot(10 * ONE_NEAR), Some(1));
    assert_eq!(denomination_slot(100 * ONE_NEAR), Some(2));
    assert_eq!(denomination_slot(5 * ONE_NEAR), None);
}

#[test]
fn registry_counts_each_amount_on_its_own() {
    let mut registry = DenominationRegistry::new();
    assert_eq!(registry.count_of(ONE_NEAR), 0);
    registry.record(10 * ONE_NEAR);
    registry.record(10 * ONE_NEAR);
    registry.record(100 * ONE_NEAR);
    assert_eq!(registry.count_of(ONE_NEAR), 0);
    assert_eq!(registry.count_of(10 * ONE_NEAR), 2);
    assert_eq!(registry.count_of(100 * ONE_NEAR), 1);
    assert_eq!(registry.count_of(3 * ONE_NEAR), 0);
    let stats = registry.stats();
    assert_eq!(stats.total_deposits, 3);
    assert_eq!(stats.total_amount, 120 * ONE_NEAR);
    assert_eq!(
        stats.by_denomination,
        vec![(ONE_NEAR, 0), (10 * ONE_NEAR, 2), (100 * ONE_NEAR, 1)]
    );
    assert!(registry.can_record(100 * ONE_NEAR));
}

#[test]
fn registry_has_no_room_past_the_largest_total() {
    let mut registry = DenominationRegistry::new();
    registry.record(100 * ONE_NEAR);
    assert!(registry.can_record(u128::MAX - 100 * ONE_NEAR));
    assert!(!registry.can_record(u128::MAX - 100 * ONE_NEAR + 1));
}

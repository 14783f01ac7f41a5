use swap_sdk::error::DlmmError;
use swap_sdk::{Bin, BinStepConfig, BinSwap, Pool, SwapResult, VariableParameters};

const ONE: u128 = 1 << 64;

fn make_bin(id: i32, amount_a: u64, amount_b: u64, price: u128) -> Bin {
    Bin {
        id,
        amount_a,
        amount_b,
        price,
        liquidity_supply: 0,
        rewards_growth_global: vec![],
        fee_amount_a_growth_global: 0,
        fee_amount_b_growth_global: 0,
    }
}

fn default_bin_step() -> BinStepConfig {
    BinStepConfig::new(25, 1, 60, 600, 9000, 0, 1_000_000, 30_000)
}

fn volatile_bin_step() -> BinStepConfig {
    BinStepConfig::new(25, 10_000, 30, 600, 5000, 40_000, 350_000, 100_000_000)
}

fn five_bin_pool() -> Pool {
    Pool::new(
        0,
        2_500_000,
        VariableParameters::new(volatile_bin_step(), 0, 100),
        vec![
            make_bin(-2, 0, 1000, ONE - ONE / 100),
            make_bin(-1, 0, 2000, ONE - ONE / 200),
            make_bin(0, 1500, 3000, ONE),
            make_bin(1, 4000, 0, ONE + ONE / 200),
            make_bin(3, 5000, 0, ONE + ONE / 100),
        ],
    )
}

fn reserves(pool: &Pool) -> Vec<(i32, u64, u64)> {
    pool.bins.iter().map(|bin| (bin.id, bin.amount_a, bin.amount_b)).collect()
}

fn steps(result: &SwapResult) -> Vec<(i32, u64, u64, u64, u64)> {
    result
        .steps
        .iter()
        .map(|s| (s.bin_id, s.amount_in, s.amount_out, s.fee, s.var_fee_rate))
        .collect()
}

#[test]
fn swap_exact_in_across_bins() {
    let mut pool = Pool::new(
        0,
        30_000,
        VariableParameters::new(default_bin_step(), 0, 0),
        vec![
            make_bin(0, 1_000_000, 500_000, 1 << 64),
            make_bin(1, 1_000_000, 2_000_000, (1 << 64) + 1000),
        ],
    );

    let result = pool
        .swap_exact_amount_in(200_000, true, 10)
        .expect("swap succeeds");

    assert!(result.amount_out > 0);
    assert_eq!(result.steps.len(), 1);
}

#[test]
fn swap_within_the_active_bin_has_exact_totals() {
    let mut pool = Pool::new(
        0,
        30_000,
        VariableParameters::new(default_bin_step(), 0, 0),
        vec![
            make_bin(0, 1_000_000, 500_000, 1 << 64),
            make_bin(1, 1_000_000, 2_000_000, (1 << 64) + 1000),
        ],
    );
    let result = pool.swap_exact_amount_in(200_000, true, 10).unwrap();
    assert!(!result.is_exceed);
    assert_eq!(result.amount_in, 200_000);
    assert_eq!(result.amount_out, 199_994);
    assert_eq!(result.fee, 6);
    assert_eq!(result.protocol_fee, 1);
    assert_eq!(result.ref_fee, 0);
    assert_eq!(steps(&result), vec![(0, 200_000, 199_994, 6, 0)]);
    assert_eq!(reserves(&pool), vec![(0, 1_199_994, 300_006), (1, 1_000_000, 2_000_000)]);
    assert_eq!(pool.active_id, 0);
    assert_eq!(pool.v_parameters.last_update_timestamp, 10);
}

#[test]
fn constructors_keep_their_arguments() {
    let config = BinStepConfig::new(1, 2, 3, 4, 5, 6, 7, 8);
    assert_eq!(config.bin_step, 1);
    assert_eq!(config.base_factor, 2);
    assert_eq!(config.filter_period, 3);
    assert_eq!(config.decay_period, 4);
    assert_eq!(config.reduction_factor, 5);
    assert_eq!(config.variable_fee_control, 6);
    assert_eq!(config.max_volatility_accumulator, 7);
    assert_eq!(config.protocol_fee_rate, 8);

    let parameters = VariableParameters::new(config, -9, 10);
    assert_eq!(parameters.volatility_accumulator, 0);
    assert_eq!(parameters.volatility_reference, 0);
    assert_eq!(parameters.index_reference, -9);
    assert_eq!(parameters.last_update_timestamp, 10);
    assert_eq!(parameters.bin_step_config.protocol_fee_rate, 8);

    let pool = Pool::new(11, 12, parameters, vec![make_bin(13, 14, 15, 16)]);
    assert_eq!(pool.active_id, 11);
    assert_eq!(pool.base_fee_rate, 12);
    assert_eq!(pool.v_parameters.index_reference, -9);
    assert_eq!(reserves(&pool), vec![(13, 14, 15)]);
}

#[test]
fn default_results_are_empty() {
    let result = SwapResult::default();
    assert_eq!(result.amount_in, 0);
    assert_eq!(result.amount_out, 0);
    assert_eq!(result.fee, 0);
    assert_eq!(result.ref_fee, 0);
    assert_eq!(result.protocol_fee, 0);
    assert!(result.steps.is_empty());
    assert!(!result.is_exceed);

    let step = BinSwap::default();
    assert_eq!(
        (step.bin_id, step.amount_in, step.amount_out, step.fee, step.var_fee_rate),
        (0, 0, 0, 0, 0)
    );
}

#[test]
fn update_swap_result_adds_the_step() {
    let mut result = SwapResult::default();
    result.update_swap_result(BinSwap {
        bin_id: 4,
        amount_in: 10,
        amount_out: 9,
        fee: 1,
        var_fee_rate: 77,
    });
    result.update_swap_result(BinSwap {
        bin_id: 3,
        amount_in: 20,
        amount_out: 18,
        fee: 2,
        var_fee_rate: 88,
    });
    assert_eq!(result.amount_in, 30);
    assert_eq!(result.amount_out, 27);
    assert_eq!(result.fee, 3);
    assert_eq!(result.protocol_fee, 0);
    assert!(!result.is_exceed);
    assert_eq!(steps(&result), vec![(4, 10, 9, 1, 77), (3, 20, 18, 2, 88)]);
}

#[test]
fn empty_pool_exceeds_at_once() {
    for amount in [0u64, 1, 1000, u64::MAX] {
        for a2b in [true, false] {
            let mut pool = Pool::new(
                5,
                30_000,
                VariableParameters::new(default_bin_step(), 2, 7),
                vec![],
            );
            let result = pool.swap_exact_amount_in(amount, a2b, 100).unwrap();
            assert!(result.is_exceed);
            assert_eq!(result.amount_in, 0);
            assert_eq!(result.amount_out, 0);
            assert_eq!(result.fee, 0);
            assert_eq!(result.protocol_fee, 0);
            assert!(result.steps.is_empty());

            let result = pool.swap_exact_amount_out(amount, a2b, 200).unwrap();
            assert!(result.is_exceed);
            assert!(result.steps.is_empty());
            assert_eq!(result.amount_in, 0);
            assert_eq!(result.amount_out, 0);

            assert!(pool.bins.is_empty());
            assert_eq!(pool.active_id, 5);
            assert_eq!(pool.v_parameters.last_update_timestamp, 7);
            assert_eq!(pool.v_parameters.index_reference, 2);
        }
    }
}

#[test]
fn exact_in_crosses_into_the_next_bin() {
    let mut pool = five_bin_pool();
    let result = pool.swap_exact_amount_in(5000, true, 150).unwrap();
    assert!(!result.is_exceed);
    assert_eq!(result.amount_in, 5000);
    assert_eq!(result.amount_out, 4976);
    assert_eq!(result.fee, 14);
    assert_eq!(result.protocol_fee, 2);
    assert_eq!(
        steps(&result),
        vec![(0, 3008, 3000, 8, 0), (-1, 1992, 1976, 6, 25_000)]
    );
    assert_eq!(
        reserves(&pool),
        vec![(-2, 0, 1000), (-1, 1986, 24), (0, 4500, 0), (1, 4000, 0), (3, 5000, 0)]
    );
    assert_eq!(pool.active_id, -1);
    assert_eq!(pool.v_parameters.last_update_timestamp, 150);
    assert_eq!(pool.v_parameters.volatility_accumulator, 10_000);
    assert_eq!(pool.v_parameters.volatility_reference, 0);
    assert_eq!(pool.v_parameters.index_reference, 0);
}

#[test]
fn exact_in_that_outruns_the_pool_is_marked() {
    let mut pool = five_bin_pool();
    let result = pool.swap_exact_amount_in(10_000, true, 150).unwrap();
    assert!(result.is_exceed);
    assert_eq!(result.amount_in, 6039);
    assert_eq!(result.amount_out, 6000);
    assert_eq!(result.fee, 17);
    assert_eq!(result.protocol_fee, 3);
    assert_eq!(
        steps(&result),
        vec![
            (0, 3008, 3000, 8, 0),
            (-1, 2017, 2000, 6, 25_000),
            (-2, 1014, 1000, 3, 100_000)
        ]
    );
    assert_eq!(
        reserves(&pool),
        vec![(-2, 1011, 0), (-1, 2011, 0), (0, 4500, 0), (1, 4000, 0), (3, 5000, 0)]
    );
    assert_eq!(pool.active_id, -2);
    assert_eq!(pool.v_parameters.volatility_accumulator, 20_000);
    assert_eq!(pool.v_parameters.last_update_timestamp, 150);
}

#[test]
fn exact_out_crosses_into_the_next_bin() {
    let mut pool = five_bin_pool();
    let result = pool.swap_exact_amount_out(6000, false, 150).unwrap();
    assert!(!result.is_exceed);
    assert_eq!(result.amount_in, 6057);
    assert_eq!(result.amount_out, 6000);
    assert_eq!(result.fee, 17);
    assert_eq!(result.protocol_fee, 3);
    assert_eq!(
        steps(&result),
        vec![(1, 4031, 4000, 11, 0), (3, 2026, 2000, 6, 225_000)]
    );
    assert_eq!(
        reserves(&pool),
        vec![(-2, 0, 1000), (-1, 0, 2000), (0, 1500, 3000), (1, 0, 4020), (3, 3000, 2020)]
    );
    assert_eq!(pool.active_id, 3);
    assert_eq!(pool.v_parameters.volatility_accumulator, 30_000);
}

#[test]
fn exact_out_that_outruns_the_pool_is_marked() {
    let mut pool = five_bin_pool();
    let result = pool.swap_exact_amount_out(20_000, false, 1000).unwrap();
    assert!(result.is_exceed);
    assert_eq!(result.amount_in, 9095);
    assert_eq!(result.amount_out, 9000);
    assert_eq!(result.fee, 25);
    assert_eq!(result.protocol_fee, 4);
    assert_eq!(
        steps(&result),
        vec![(1, 4031, 4000, 11, 0), (3, 5064, 5000, 14, 225_000)]
    );
    assert_eq!(
        reserves(&pool),
        vec![(-2, 0, 1000), (-1, 0, 2000), (0, 1500, 3000), (1, 0, 4020), (3, 0, 5050)]
    );
    assert_eq!(pool.v_parameters.last_update_timestamp, 1000);
}

#[test]
fn a_swap_that_drains_the_last_bin_exactly_is_not_marked() {
    let mut pool = five_bin_pool();
    let result = pool.swap_exact_amount_out(9000, false, 1000).unwrap();
    assert!(!result.is_exceed);
    assert_eq!(result.amount_out, 9000);
    assert_eq!(result.steps.len(), 2);

    let mut pool = five_bin_pool();
    let result = pool.swap_exact_amount_out(9001, false, 1000).unwrap();
    assert!(result.is_exceed);
    assert_eq!(result.amount_out, 9000);
}

#[test]
fn exact_in_b2a_starts_above_the_active_bin() {
    let mut pool = five_bin_pool();
    let result = pool.swap_exact_amount_in(3000, false, 1000).unwrap();
    assert!(!result.is_exceed);
    assert_eq!(steps(&result), vec![(1, 3000, 2977, 8, 0)]);
    assert_eq!(result.protocol_fee, 1);
    assert_eq!(
        reserves(&pool),
        vec![(-2, 0, 1000), (-1, 0, 2000), (0, 1500, 3000), (1, 1023, 2992), (3, 5000, 0)]
    );
    assert_eq!(pool.active_id, 0);
}

#[test]
fn a_swap_of_nothing_only_records_the_time() {
    let mut pool = five_bin_pool();
    let result = pool.swap_exact_amount_in(0, false, 1000).unwrap();
    assert!(!result.is_exceed);
    assert!(result.steps.is_empty());
    assert_eq!(result.amount_in, 0);
    assert_eq!(result.amount_out, 0);
    assert_eq!(
        reserves(&pool),
        vec![(-2, 0, 1000), (-1, 0, 2000), (0, 1500, 3000), (1, 4000, 0), (3, 5000, 0)]
    );
    assert_eq!(pool.v_parameters.last_update_timestamp, 1000);
}

#[test]
fn a_second_swap_starts_from_decayed_volatility() {
    let mut pool = five_bin_pool();
    pool.swap_exact_amount_in(5000, true, 150).unwrap();
    let result = pool.swap_exact_amount_in(100, false, 200).unwrap();
    assert_eq!(steps(&result), vec![(0, 100, 99, 1, 6250)]);
    assert_eq!(result.protocol_fee, 1);
    assert_eq!(
        reserves(&pool),
        vec![(-2, 0, 1000), (-1, 1986, 24), (0, 4401, 99), (1, 4000, 0), (3, 5000, 0)]
    );
    assert_eq!(pool.active_id, -1);
    assert_eq!(pool.v_parameters.last_update_timestamp, 200);
    assert_eq!(pool.v_parameters.volatility_accumulator, 5000);
    assert_eq!(pool.v_parameters.volatility_reference, 5000);
    assert_eq!(pool.v_parameters.index_reference, -1);
}

#[test]
fn a_swap_with_no_bin_ahead_exceeds_without_steps() {
    let mut pool = five_bin_pool();
    pool.active_id = -5;
    let result = pool.swap_exact_amount_in(100, true, 150).unwrap();
    assert!(result.is_exceed);
    assert!(result.steps.is_empty());
    assert_eq!(result.amount_in, 0);

    let mut pool = five_bin_pool();
    pool.active_id = 7;
    let result = pool.swap_exact_amount_in(100, false, 150).unwrap();
    assert!(result.is_exceed);
    assert!(result.steps.is_empty());
    assert_eq!(pool.v_parameters.last_update_timestamp, 150);
}

#[test]
fn no_bin_is_visited_twice() {
    for amount in [1u64, 3000, 5000, 6000, 10_000, u64::MAX] {
        for a2b in [true, false] {
            for by_amount_in in [true, false] {
                let mut pool = five_bin_pool();
                let result = pool.swap_in_pool(amount, a2b, by_amount_in, 150).unwrap();
                assert!(result.steps.len() <= pool.bins.len());
                for pair in result.steps.windows(2) {
                    if a2b {
                        assert!(pair[0].bin_id > pair[1].bin_id);
                    } else {
                        assert!(pair[0].bin_id < pair[1].bin_id);
                    }
                }
                let settled = if by_amount_in { result.amount_in } else { result.amount_out };
                assert!(settled <= amount);
                assert_eq!(result.is_exceed, settled < amount);
                assert_eq!(
                    result.amount_in,
                    result.steps.iter().map(|s| s.amount_in).sum::<u64>()
                );
                assert_eq!(
                    result.amount_out,
                    result.steps.iter().map(|s| s.amount_out).sum::<u64>()
                );
                assert_eq!(result.fee, result.steps.iter().map(|s| s.fee).sum::<u64>());
                assert!(result.protocol_fee <= result.fee);
                assert!(pool.is_well_formed());
            }
        }
    }
}

#[test]
fn swap_errors_are_reported() {
    let mut pool = five_bin_pool();
    pool.bins[2].price = 0;
    assert_eq!(
        pool.swap_exact_amount_in(10, true, 150).map(|r| r.amount_in),
        Err(DlmmError::InvalidInput)
    );

    let mut pool = five_bin_pool();
    pool.v_parameters.bin_step_config.protocol_fee_rate = 1_000_000_001;
    assert_eq!(
        pool.swap_exact_amount_out(10, true, 150).map(|r| r.amount_in),
        Err(DlmmError::InvalidInput)
    );

    let mut pool = five_bin_pool();
    pool.bins[2].amount_a = u64::MAX;
    assert_eq!(
        pool.swap_exact_amount_in(10, true, 150).map(|r| r.amount_in),
        Err(DlmmError::MathOverflow)
    );

    let quarter_priced = || {
        Pool::new(
            0,
            0,
            VariableParameters::new(BinStepConfig::new(25, 1, 60, 600, 9000, 0, 1, 0), 0, 0),
            vec![make_bin(-1, 0, 1 << 61, ONE / 4), make_bin(0, 0, 1 << 61, ONE / 4)],
        )
    };
    let mut pool = quarter_priced();
    assert_eq!(
        pool.swap_exact_amount_out((1 << 62) - 1, true, 1).map(|r| (r.amount_in, r.amount_out)),
        Ok((u64::MAX - 3, (1 << 62) - 1))
    );
    let mut pool = quarter_priced();
    assert_eq!(
        pool.swap_exact_amount_out(1 << 62, true, 1).map(|r| r.amount_in),
        Err(DlmmError::MathOverflow)
    );
}

#[test]
fn a_failed_swap_leaves_the_pool_untouched() {
    let state = |pool: &Pool| {
        (
            reserves(pool),
            pool.active_id,
            pool.base_fee_rate,
            pool.v_parameters.volatility_accumulator,
            pool.v_parameters.volatility_reference,
            pool.v_parameters.index_reference,
            pool.v_parameters.last_update_timestamp,
        )
    };

    // The second bin on the way has no price.
    let mut pool = five_bin_pool();
    pool.bins[1].price = 0;
    pool.v_parameters.volatility_accumulator = 20_000;
    pool.v_parameters.volatility_reference = 3;
    pool.v_parameters.index_reference = 2;
    let before = state(&pool);
    assert_eq!(
        pool.swap_exact_amount_in(5000, true, 150).map(|r| r.amount_in),
        Err(DlmmError::InvalidInput)
    );
    assert_eq!(state(&pool), before);
    assert_eq!(
        pool.swap_exact_amount_out(5000, true, 1000).map(|r| r.amount_in),
        Err(DlmmError::InvalidInput)
    );
    assert_eq!(state(&pool), before);
    // Within the first bin the same pool swaps.
    assert_eq!(pool.swap_exact_amount_in(1000, true, 150).map(|r| r.amount_in), Ok(1000));

    // The third bin on the way cannot take its input.
    let mut pool = five_bin_pool();
    pool.bins[0].amount_a = u64::MAX;
    let before = state(&pool);
    assert_eq!(
        pool.swap_exact_amount_in(10_000, true, 150).map(|r| r.amount_in),
        Err(DlmmError::MathOverflow)
    );
    assert_eq!(state(&pool), before);

    // The totals pass 64 bits at the second bin.
    let mut pool = Pool::new(
        0,
        0,
        VariableParameters::new(BinStepConfig::new(25, 1, 60, 600, 9000, 0, 1, 0), 0, 0),
        vec![make_bin(-1, 7, 1 << 61, ONE / 4), make_bin(0, 9, 1 << 61, ONE / 4)],
    );
    let before = state(&pool);
    assert_eq!(
        pool.swap_exact_amount_out(1 << 62, true, 1).map(|r| r.amount_in),
        Err(DlmmError::MathOverflow)
    );
    assert_eq!(state(&pool), before);

    // The same selling B for A.
    let mut pool = five_bin_pool();
    pool.bins[4].price = 0;
    let before = state(&pool);
    assert_eq!(
        pool.swap_exact_amount_out(4001, false, 150).map(|r| r.amount_in),
        Err(DlmmError::InvalidInput)
    );
    assert_eq!(state(&pool), before);
}

#[test]
fn update_references_follows_the_elapsed_time() {
    let fresh = || {
        let mut pool = five_bin_pool();
        pool.active_id = 2;
        pool.v_parameters.volatility_accumulator = 20_000;
        pool.v_parameters.volatility_reference = 7;
        pool.v_parameters.index_reference = -1;
        pool
    };
    let state = |pool: &Pool| {
        (
            pool.v_parameters.index_reference,
            pool.v_parameters.volatility_reference,
            pool.v_parameters.volatility_accumulator,
            pool.v_parameters.last_update_timestamp,
        )
    };

    let mut pool = fresh();
    assert_eq!(pool.update_references(100), Ok(()));
    assert_eq!(state(&pool), (-1, 7, 20_000, 100));
    assert_eq!(pool.update_references(0), Ok(()));
    assert_eq!(state(&pool), (-1, 7, 20_000, 100));

    let mut pool = fresh();
    assert_eq!(pool.update_references(129), Ok(()));
    assert_eq!(state(&pool), (-1, 7, 20_000, 100));

    let mut pool = fresh();
    assert_eq!(pool.update_references(130), Ok(()));
    assert_eq!(state(&pool), (2, 10_000, 20_000, 100));

    let mut pool = fresh();
    assert_eq!(pool.update_references(699), Ok(()));
    assert_eq!(state(&pool), (2, 10_000, 20_000, 100));

    let mut pool = fresh();
    assert_eq!(pool.update_references(700), Ok(()));
    assert_eq!(state(&pool), (2, 0, 20_000, 100));

    let mut pool = fresh();
    assert_eq!(pool.update_references(u64::MAX), Ok(()));
    assert_eq!(state(&pool), (2, 0, 20_000, 100));
}

#[test]
fn update_references_twice_changes_nothing_more() {
    let mut pool = five_bin_pool();
    pool.active_id = 2;
    pool.v_parameters.volatility_accumulator = 20_000;
    assert_eq!(pool.update_references(400), Ok(()));
    let first = (
        pool.v_parameters.index_reference,
        pool.v_parameters.volatility_reference,
        pool.v_parameters.volatility_accumulator,
        pool.v_parameters.last_update_timestamp,
    );
    for second in [400u64, 399, 130, 129, 100, 0] {
        assert_eq!(pool.update_references(second), Ok(()));
        assert_eq!(
            (
                pool.v_parameters.index_reference,
                pool.v_parameters.volatility_reference,
                pool.v_parameters.volatility_accumulator,
                pool.v_parameters.last_update_timestamp,
            ),
            first
        );
    }

    let mut pool = five_bin_pool();
    pool.swap_exact_amount_in(5000, true, 150).unwrap();
    let settled = (
        pool.v_parameters.index_reference,
        pool.v_parameters.volatility_reference,
        pool.v_parameters.volatility_accumulator,
        pool.v_parameters.last_update_timestamp,
    );
    for second in [150u64, 149, 0] {
        assert_eq!(pool.update_references(second), Ok(()));
        assert_eq!(
            (
                pool.v_parameters.index_reference,
                pool.v_parameters.volatility_reference,
                pool.v_parameters.volatility_accumulator,
                pool.v_parameters.last_update_timestamp,
            ),
            settled
        );
    }
}

#[test]
fn a_second_update_inside_the_decay_period_brings_the_reference_back() {
    let mut pool = five_bin_pool();
    pool.active_id = 2;
    pool.v_parameters.volatility_accumulator = 20_000;
    pool.v_parameters.volatility_reference = 7;
    assert_eq!(pool.update_references(700), Ok(()));
    assert_eq!(pool.v_parameters.volatility_reference, 0);
    assert_eq!(pool.update_references(130), Ok(()));
    assert_eq!(pool.v_parameters.volatility_reference, 10_000);
    assert_eq!(pool.v_parameters.index_reference, 2);
}

#[test]
fn swap_in_bin_prices_and_fills_one_bin() {
    let mut pool = five_bin_pool();
    pool.v_parameters.index_reference = 2;
    let (step, protocol_fee) = pool.swap_in_bin(2, 1000, true, true).unwrap();
    assert_eq!(
        (step.bin_id, step.amount_in, step.amount_out, step.fee, step.var_fee_rate),
        (0, 1000, 997, 3, 100_000)
    );
    assert_eq!(protocol_fee, 1);
    assert_eq!(pool.v_parameters.volatility_accumulator, 20_000);
    assert_eq!(pool.active_id, 0);
    assert_eq!(
        reserves(&pool),
        vec![(-2, 0, 1000), (-1, 0, 2000), (0, 2497, 2003), (1, 4000, 0), (3, 5000, 0)]
    );

    let (step, protocol_fee) = pool.swap_in_bin(3, 500, false, false).unwrap();
    assert_eq!(
        (step.bin_id, step.amount_in, step.amount_out, step.fee, step.var_fee_rate),
        (1, 505, 500, 2, 100_000)
    );
    assert_eq!(protocol_fee, 1);
    assert_eq!(
        reserves(&pool),
        vec![(-2, 0, 1000), (-1, 0, 2000), (0, 2497, 2003), (1, 3500, 503), (3, 5000, 0)]
    );

    pool.bins[0].price = 0;
    assert_eq!(
        pool.swap_in_bin(0, 5, true, true).map(|filled| filled.1),
        Err(DlmmError::InvalidInput)
    );
}

#[test]
fn update_references_refuses_a_reference_beyond_32_bits() {
    let mut pool = Pool::new(
        3,
        0,
        VariableParameters::new(
            BinStepConfig::new(25, 1, 30, 600, 65_535, 0, u32::MAX, 0),
            1,
            100,
        ),
        vec![make_bin(0, 1, 1, ONE)],
    );
    pool.v_parameters.volatility_accumulator = u32::MAX;
    assert_eq!(pool.update_references(200), Err(DlmmError::MathOverflow));
    assert_eq!(pool.v_parameters.index_reference, 1);
    assert_eq!(pool.v_parameters.volatility_reference, 0);
    assert_eq!(
        pool.swap_exact_amount_in(1, true, 200).map(|r| r.amount_in),
        Err(DlmmError::MathOverflow)
    );
    assert_eq!(pool.update_references(700), Ok(()));
    assert_eq!(pool.v_parameters.index_reference, 3);
}

#[test]
fn volatility_accumulator_is_capped() {
    let mut pool = five_bin_pool();
    pool.active_id = 2;
    pool.v_parameters.index_reference = -1;
    pool.v_parameters.volatility_reference = 10_000;
    assert_eq!(pool.update_volatility_accumulator(), Ok(()));
    assert_eq!(pool.v_parameters.volatility_accumulator, 40_000);

    pool.v_parameters.bin_step_config.max_volatility_accumulator = 35_000;
    assert_eq!(pool.update_volatility_accumulator(), Ok(()));
    assert_eq!(pool.v_parameters.volatility_accumulator, 35_000);

    pool.active_id = i32::MIN;
    pool.v_parameters.index_reference = i32::MAX;
    pool.v_parameters.volatility_reference = u32::MAX;
    pool.v_parameters.bin_step_config.max_volatility_accumulator = u32::MAX;
    assert_eq!(pool.update_volatility_accumulator(), Ok(()));
    assert_eq!(pool.v_parameters.volatility_accumulator, u32::MAX);
}

#[test]
fn variable_fee_values() {
    let mut pool = five_bin_pool();
    assert_eq!(pool.compute_variable_fee(0), Ok(0));
    assert_eq!(pool.compute_variable_fee(1), Ok(1));
    assert_eq!(pool.compute_variable_fee(10_000), Ok(25_000));
    assert_eq!(pool.compute_variable_fee(350_000), Ok(30_625_000));
    pool.v_parameters.volatility_accumulator = 20_000;
    assert_eq!(pool.get_variable_fee(), Ok(100_000));
    pool.v_parameters.bin_step_config.variable_fee_control = 0;
    assert_eq!(pool.get_variable_fee(), Ok(0));
    assert_eq!(pool.compute_variable_fee(u32::MAX), Ok(0));

    pool.v_parameters.bin_step_config.variable_fee_control = u32::MAX;
    pool.v_parameters.bin_step_config.bin_step = u16::MAX;
    assert_eq!(
        pool.compute_variable_fee(u32::MAX),
        Ok(3402719821687723223345048702)
    );
}

#[test]
fn total_fee_is_capped() {
    let mut pool = five_bin_pool();
    assert_eq!(pool.get_total_fee(), Ok((2_500_000, 0)));
    pool.v_parameters.volatility_accumulator = 10_000;
    assert_eq!(pool.get_total_fee(), Ok((2_525_000, 25_000)));
    pool.v_parameters.volatility_accumulator = 350_000;
    pool.v_parameters.bin_step_config.variable_fee_control = 4_000_000;
    assert_eq!(pool.get_total_fee(), Ok((100_000_000, 3_062_500_000)));
    pool.base_fee_rate = u64::MAX;
    assert_eq!(pool.get_total_fee(), Ok((100_000_000, 3_062_500_000)));
}

#[test]
fn total_fee_refuses_a_variable_fee_beyond_64_bits() {
    let mut pool = five_bin_pool();
    pool.v_parameters.bin_step_config.variable_fee_control = u32::MAX;
    pool.v_parameters.bin_step_config.bin_step = u16::MAX;
    pool.v_parameters.volatility_accumulator = u32::MAX;
    assert_eq!(pool.get_total_fee(), Err(DlmmError::MathOverflow));
}

#[test]
fn first_swap_bin_is_found() {
    let mut pool = five_bin_pool();
    let mut at = |active: i32, a2b: bool| {
        pool.active_id = active;
        pool.find_first_swap_bin_index(active, a2b)
    };
    assert_eq!(at(0, true), (Some(2), Some(1)));
    assert_eq!(at(0, false), (Some(3), Some(4)));
    assert_eq!(at(2, true), (Some(3), Some(2)));
    assert_eq!(at(2, false), (Some(4), None));
    assert_eq!(at(3, true), (Some(4), Some(3)));
    assert_eq!(at(3, false), (None, None));
    assert_eq!(at(-2, true), (Some(0), None));
    assert_eq!(at(-2, false), (Some(1), Some(2)));
    assert_eq!(at(-5, true), (None, None));
    assert_eq!(at(-5, false), (Some(0), Some(1)));
    assert_eq!(at(i32::MAX, true), (Some(4), Some(3)));
    assert_eq!(at(i32::MIN, false), (Some(0), Some(1)));

    let empty = Pool::new(0, 0, VariableParameters::new(default_bin_step(), 0, 0), vec![]);
    assert_eq!(empty.find_first_swap_bin_index(0, true), (None, None));
    assert_eq!(empty.find_first_swap_bin_index(0, false), (None, None));

    let single = Pool::new(
        0,
        0,
        VariableParameters::new(default_bin_step(), 0, 0),
        vec![make_bin(4, 1, 1, ONE)],
    );
    assert_eq!(single.find_first_swap_bin_index(4, true), (Some(0), None));
    assert_eq!(single.find_first_swap_bin_index(3, true), (None, None));
    assert_eq!(single.find_first_swap_bin_index(3, false), (Some(0), None));
    assert_eq!(single.find_first_swap_bin_index(4, false), (None, None));
}

#[test]
fn bins_map_holds_every_bin_by_its_id() {
    let pool = five_bin_pool();
    let map = pool.bins_map();
    assert_eq!(map.len(), 5);
    for bin in &pool.bins {
        let held = &map[&bin.id];
        assert_eq!(held.id, bin.id);
        assert_eq!(held.amount_a, bin.amount_a);
        assert_eq!(held.amount_b, bin.amount_b);
        assert_eq!(held.price, bin.price);
    }
    assert!(!map.contains_key(&2));
    assert_eq!(map[&3].amount_a, 5000);

    let twice = Pool::new(
        0,
        0,
        VariableParameters::new(default_bin_step(), 0, 0),
        vec![make_bin(1, 10, 0, ONE), make_bin(1, 20, 0, ONE)],
    );
    let map = twice.bins_map();
    assert_eq!(map.len(), 1);
    assert_eq!(map[&1].amount_a, 20);
}

#[test]
fn clones_hold_the_same_values() {
    let mut pool = five_bin_pool();
    pool.v_parameters.volatility_reference = 9;
    let copy = pool.clone();
    assert_eq!(copy.active_id, pool.active_id);
    assert_eq!(copy.base_fee_rate, pool.base_fee_rate);
    assert_eq!(copy.v_parameters.volatility_reference, 9);
    assert_eq!(copy.v_parameters.bin_step_config.bin_step, 25);
    assert_eq!(reserves(&copy), reserves(&pool));
    assert_eq!(copy.bins[4].price, pool.bins[4].price);

    let result = pool.swap_exact_amount_in(5000, true, 150).unwrap();
    let again = result.clone();
    assert_eq!(steps(&again), steps(&result));
    assert_eq!(
        (again.amount_in, again.amount_out, again.fee, again.ref_fee, again.protocol_fee),
        (5000, 4976, 14, 0, 2)
    );
    assert_eq!(again.is_exceed, result.is_exceed);
    // The copy of the pool has not moved with the pool.
    assert_eq!(copy.bins[2].amount_b, 3000);
    assert_eq!(pool.bins[2].amount_b, 0);
}

#[test]
fn well_formed_pools_ascend() {
    assert!(five_bin_pool().is_well_formed());
    assert!(Pool::new(0, 0, VariableParameters::new(default_bin_step(), 0, 0), vec![])
        .is_well_formed());
    let mut pool = five_bin_pool();
    pool.bins[3].id = 0;
    assert!(!pool.is_well_formed());
    pool.bins[3].id = 4;
    assert!(!pool.is_well_formed());
    pool.bins[3].id = 2;
    assert!(pool.is_well_formed());
}

#[test]
fn error_messages() {
    assert_eq!(DlmmError::InvalidStartBinIndex.message(), "Invalid start bin index");
    assert_eq!(DlmmError::InvalidBinId.message(), "Invalid bin id");
    assert_eq!(DlmmError::InvalidInput.message(), "Invalid input data");
    assert_eq!(DlmmError::MathOverflow.message(), "Math overflow");
    assert_eq!(DlmmError::InvariantViolation.message(), "Invariant violated");
}

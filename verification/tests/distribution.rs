use onesol_swap::error::OneSolError;
use onesol_swap::processor::{to_u128, to_u64, Processor};

#[test]
fn best_split_of_three_parts_over_two_exchanges() {
    // Splitting 2 + 1 and 1 + 2 are both worth 13; the first one found wins.
    let amounts = vec![vec![0, 5, 9, 12], vec![0, 4, 8, 11]];
    assert_eq!(Processor::_find_best_distribution(3, amounts, 2), vec![2, 1]);
}

#[test]
fn best_split_prefers_the_better_exchange() {
    let amounts = vec![vec![0, 1, 2, 3], vec![0, 10, 20, 30]];
    assert_eq!(Processor::_find_best_distribution(3, amounts, 2), vec![0, 3]);
}

#[test]
fn best_split_pads_with_zeros_past_the_exchanges() {
    let amounts = vec![vec![0, 1, 2, 3], vec![0, 10, 20, 30]];
    assert_eq!(Processor::_find_best_distribution(3, amounts, 4), vec![0, 3, 0, 0]);
}

#[test]
fn best_split_of_nothing_is_all_zeros() {
    let amounts = vec![vec![7], vec![9], vec![11]];
    assert_eq!(Processor::_find_best_distribution(0, amounts, 1), vec![0]);
}

#[test]
fn best_split_with_losses_keeps_parts_on_the_first_exchange() {
    // The first exchange always takes what is left.
    let amounts = vec![vec![0, -1, -2], vec![0, -5, -9]];
    assert_eq!(Processor::_find_best_distribution(2, amounts, 2), vec![2, 0]);
}

#[test]
fn best_split_is_optimal_on_an_example() {
    // Every split of 4 parts: (4,0)=8, (3,1)=6+5, (2,2)=4+9, (1,3)=2+10, (0,4)=0+11.
    let amounts = vec![vec![0, 2, 4, 6, 8], vec![0, 5, 9, 10, 11]];
    let d = Processor::_find_best_distribution(4, amounts.clone(), 2);
    assert_eq!(d, vec![2, 2]);
    assert_eq!(d.iter().sum::<u64>(), 4);
    let value = amounts[0][d[0] as usize] + amounts[1][d[1] as usize];
    for k in 0..=4usize {
        let other = amounts[0][4 - k] + if k > 0 { amounts[1][k] } else { 0 };
        assert!(other <= value);
    }
}

#[test]
fn linear_interpolation_splits_into_growing_sizes() {
    assert_eq!(Processor::_linearInterpolation(10, 4), vec![2, 5, 7, 10]);
    assert_eq!(Processor::_linearInterpolation(7, 1), vec![7]);
    assert_eq!(Processor::_linearInterpolation(7, 0), Vec::<u64>::new());
}

#[test]
fn linear_interpolation_ends_at_the_value() {
    let v = Processor::_linearInterpolation(1_000_003, 7);
    assert_eq!(*v.last().unwrap(), 1_000_003);
    assert!(v.windows(2).all(|w| w[0] <= w[1]));
}

#[test]
fn calculate_no_return_is_all_zeros() {
    assert_eq!(Processor::_calculateNoReturn(5, 3, 0), (vec![0, 0, 0], 0));
}

#[test]
fn calculate_swap_counts_failed_quotes_as_nothing() {
    let calc = |x: u64| -> Result<u64, OneSolError> {
        if x > 5 {
            Err(OneSolError::ZeroTradingTokens)
        } else {
            Ok(x * 3)
        }
    };
    assert_eq!(Processor::_calculate_swap(10, 4, calc), (vec![6, 15, 0, 0], 0));
}

#[test]
fn test_distribution() {
    let token_swap_curve_closure = |x| -> Result<u64, OneSolError> { Ok(x) };
    let result = Processor::get_expected_return_with_gas(10, 100, &[token_swap_curve_closure]);
    assert_eq!(result, vec![90, 10]);
}

#[test]
fn the_second_reserve_beats_a_poor_calculator() {
    let calc = |x: u64| -> Result<u64, OneSolError> { Ok(x / 3) };
    assert_eq!(Processor::get_expected_return_with_gas(60, 6, &[calc]), vec![0, 6]);
}

#[test]
fn a_strong_calculator_takes_every_part() {
    let calc = |x: u64| -> Result<u64, OneSolError> { Ok(2 * x) };
    assert_eq!(Processor::get_expected_return_with_gas(100, 4, &[calc]), vec![4, 0]);
}

#[test]
fn without_calculators_the_second_reserve_takes_every_part() {
    let calcs: Vec<&dyn Fn(u64) -> Result<u64, OneSolError>> = vec![];
    assert_eq!(Processor::get_expected_return_with_gas(90, 3, &calcs), vec![3]);
}

#[test]
fn second_reserve_quotes_one_more_than_each_size() {
    assert_eq!(Processor::_calculateSwap2(10, 4), (vec![3, 6, 8, 11], 0));
}

#[test]
fn expected_return_splits_between_two_calculators() {
    let a = |x: u64| -> Result<u64, OneSolError> {
        Ok(if x <= 50 { x * 3 / 4 } else { 37 + (x - 50) / 4 })
    };
    let b = |x: u64| -> Result<u64, OneSolError> { Ok(x * 2 / 3) };
    let calcs: Vec<&dyn Fn(u64) -> Result<u64, OneSolError>> = vec![&a, &b];
    assert_eq!(Processor::get_expected_return_with_gas(100, 4, &calcs), vec![0, 0, 4]);
}

#[test]
fn expected_return_spreads_over_the_better_calculator_and_the_reserve() {
    let a = |x: u64| -> Result<u64, OneSolError> { Ok(x) };
    let b = |x: u64| -> Result<u64, OneSolError> { Ok(x / 2) };
    let calcs: Vec<&dyn Fn(u64) -> Result<u64, OneSolError>> = vec![&a, &b];
    assert_eq!(Processor::get_expected_return_with_gas(100, 4, &calcs), vec![3, 0, 1]);
}

#[test]
fn expected_return_with_three_calculators() {
    let a = |x: u64| -> Result<u64, OneSolError> { Ok(x / 2) };
    let b = |x: u64| -> Result<u64, OneSolError> {
        Ok(if x <= 25 { x * 9 / 10 } else { 22 + (x - 25) / 10 })
    };
    let c = |_x: u64| -> Result<u64, OneSolError> { Err(OneSolError::ZeroTradingTokens) };
    let calcs: Vec<&dyn Fn(u64) -> Result<u64, OneSolError>> = vec![&a, &b, &c];
    assert_eq!(Processor::get_expected_return_with_gas(100, 4, &calcs), vec![0, 0, 0, 4]);
}

#[test]
fn expected_return_when_every_quote_fails() {
    let c = |_x: u64| -> Result<u64, OneSolError> { Err(OneSolError::ConversionFailure) };
    assert_eq!(Processor::get_expected_return_with_gas(90, 3, &[c]), vec![0, 3]);
}

#[test]
fn conversions_between_widths() {
    assert_eq!(to_u128(u64::MAX), Ok(u64::MAX as u128));
    assert_eq!(to_u64(42u128), Ok(42u64));
    assert_eq!(to_u64(u64::MAX as u128), Ok(u64::MAX));
    assert_eq!(to_u64(u64::MAX as u128 + 1), Err(OneSolError::ConversionFailure));
    assert_eq!(to_u64(to_u128(123).unwrap()), Ok(123));
}

#[test]
fn error_codes_and_messages() {
    assert_eq!(OneSolError::Unknown.code(), 0);
    assert_eq!(OneSolError::InvalidProgramAddress.code(), 2);
    assert_eq!(OneSolError::ZeroTradingTokens.code(), 6);
    assert_eq!(OneSolError::ExpectedAccount.message(), "Error: ExpectedAccount");
    assert_eq!(OneSolError::InvalidProgramAddress.message(), "Error: InvildProgramAddress");
}

fn split_value(amounts: &Vec<Vec<i64>>, d: &[u64]) -> i64 {
    let mut v = 0;
    for (x, &k) in d.iter().enumerate().take(amounts.len()) {
        if x == 0 || k > 0 {
            v += amounts[x][k as usize];
        }
    }
    v
}

fn best_by_search(amounts: &Vec<Vec<i64>>, s: u64, x: usize, left: u64, d: &mut Vec<u64>) -> i64 {
    if x == amounts.len() - 1 {
        d[x] = left;
        let v = split_value(amounts, d);
        d[x] = 0;
        return v;
    }
    let mut best = i64::MIN;
    for k in 0..=left {
        d[x] = k;
        best = best.max(best_by_search(amounts, s, x + 1, left - k, d));
    }
    d[x] = 0;
    best
}

#[test]
fn best_split_beats_every_other_split_on_generated_tables() {
    let mut seed: u64 = 12345;
    for _ in 0..40 {
        let n = 3;
        let s: u64 = 5;
        let mut amounts = Vec::new();
        for _ in 0..n {
            let mut row = Vec::new();
            for _ in 0..=s {
                seed = seed.wrapping_mul(6364136223846793005).wrapping_add(1442695040888963407);
                row.push(((seed >> 33) % 41) as i64 - 10);
            }
            amounts.push(row);
        }
        let d = Processor::_find_best_distribution(s, amounts.clone(), n);
        assert_eq!(d.iter().sum::<u64>(), s);
        let mut scratch = vec![0u64; n];
        let best = best_by_search(&amounts, s, 0, s, &mut scratch);
        assert_eq!(split_value(&amounts, &d), best);
    }
}

#[test]
fn scaling_every_return_keeps_the_split() {
    let amounts = vec![vec![0, 5, 9, 12, 14], vec![0, 4, 8, 11, 13], vec![1, 6, 7, 8, 20]];
    let scaled: Vec<Vec<i64>> =
        amounts.iter().map(|r| r.iter().map(|v| v * 7).collect()).collect();
    assert_eq!(
        Processor::_find_best_distribution(4, amounts, 3),
        Processor::_find_best_distribution(4, scaled, 3)
    );
}

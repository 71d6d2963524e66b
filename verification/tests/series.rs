use indicators::scan::support_resistance_series_ilocs;

fn bits(prices: &[f64]) -> Vec<u64> {
    prices.iter().map(|p| p.to_bits()).collect()
}

fn scan(prices: &[f64]) -> (Vec<Option<usize>>, Vec<Option<usize>>) {
    support_resistance_series_ilocs(&bits(prices))
}

#[test]
fn empty_series_yields_empty_outputs() {
    let (s, r) = scan(&[]);
    assert_eq!(s, Vec::<Option<usize>>::new());
    assert_eq!(r, Vec::<Option<usize>>::new());
}

#[test]
fn singleton_series_yields_all_unset() {
    let (s, r) = scan(&[42.5]);
    assert_eq!(s, vec![None]);
    assert_eq!(r, vec![None]);
}

#[test]
fn strictly_increasing_series_yields_all_unset() {
    let (s, r) = scan(&[1.0, 2.0, 3.5, 7.0, 100.0, 101.5]);
    assert_eq!(s, vec![None; 6]);
    assert_eq!(r, vec![None; 6]);
}

#[test]
fn strictly_decreasing_series_yields_all_unset() {
    let (s, r) = scan(&[9.0, 7.5, 3.0, 1.0]);
    assert_eq!(s, vec![None; 4]);
    assert_eq!(r, vec![None; 4]);
}

#[test]
fn single_reversal_confirms_one_resistance() {
    // up then down: the step at iloc 1 is a confirmed local high, and the
    // final position resolves against it
    let (s, r) = scan(&[1.0, 3.0, 2.0]);
    assert_eq!(s, vec![None, None, None]);
    assert_eq!(r, vec![None, None, Some(1)]);
}

#[test]
fn single_low_reversal_confirms_one_support() {
    let (s, r) = scan(&[3.0, 2.0, 1.0, 2.0]);
    assert_eq!(s, vec![None, None, None, Some(2)]);
    assert_eq!(r, vec![None; 4]);
}

#[test]
fn classic_zigzag() {
    // directions alternate Down/Up/Down/Up; every local extreme becomes a
    // reference one step after its confirmation, and lookups return the most
    // recently confirmed qualifying extreme
    let (s, r) = scan(&[5.0, 1.0, 6.0, 2.0, 7.0]);
    assert_eq!(s, vec![None, None, Some(1), Some(1), Some(3)]);
    assert_eq!(r, vec![None, None, None, Some(2), None]);
}

#[test]
fn newer_low_supersedes_older_in_lookup() {
    // two confirmed lows, at iloc 1 (price 1) and iloc 3 (price 0): the final
    // lookup returns the more recent one, never the older
    let (s, r) = scan(&[3.0, 1.0, 4.0, 0.0, 5.0]);
    assert_eq!(s[4], Some(3));
    assert_eq!(r, vec![None, None, None, Some(2), None]);
}

#[test]
fn flat_run_continues_prior_trend() {
    // a flat step never overwrites the tracked direction: the rise before the
    // plateau still pairs with the fall after it to confirm a high
    let (s, r) = scan(&[1.0, 1.0, 2.0, 2.0, 1.0]);
    assert_eq!(s, vec![None; 5]);
    assert_eq!(r, vec![None, None, None, None, Some(3)]);
}

#[test]
fn nan_freezes_direction_detection() {
    // comparisons against NaN are all flat, so no reversal is ever confirmed
    let (s, r) = scan(&[1.0, f64::NAN, 2.0, 0.5]);
    assert_eq!(s, vec![None; 4]);
    assert_eq!(r, vec![None; 4]);
}

#[test]
fn support_level_stays_valid_while_price_holds_above() {
    // a low at iloc 1 keeps answering the support lookup while later
    // reference prices stay above it
    let (s, _) = scan(&[4.0, 2.0, 5.0, 5.5, 6.0]);
    assert_eq!(s, vec![None, None, Some(1), Some(1), Some(1)]);
}

#[test]
fn repeated_invocation_is_bit_identical() {
    let series = [5.0, 1.0, 6.0, 2.0, 7.0, 2.5, f64::NAN, 3.0, -0.0, 0.0];
    let first = scan(&series);
    let second = scan(&series);
    assert_eq!(first, second);
}

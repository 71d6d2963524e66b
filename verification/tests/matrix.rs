use indicators::matrix::PriceMatrix;
use indicators::matrix::support_resistance_ilocs;
use indicators::scan::support_resistance_series_ilocs;
use ndarray::parallel::prelude::IntoParallelIterator;
use ndarray::parallel::prelude::ParallelIterator;
use ndarray::Array2;

fn bits(prices: &[f64]) -> Vec<u64> {
    prices.iter().map(|p| p.to_bits()).collect()
}

fn matrix(columns: &[&[f64]], n_rows: usize) -> PriceMatrix {
    PriceMatrix { n_rows, columns: columns.iter().map(|c| bits(c)).collect() }
}

#[test]
fn each_output_column_equals_the_series_scan_of_its_input_column() {
    let columns: [&[f64]; 3] = [
        &[5.0, 1.0, 6.0, 2.0, 7.0],
        &[1.0, 2.0, 3.0, 4.0, 5.0],
        &[2.0, 2.0, 9.0, 1.0, 1.0],
    ];
    let m = matrix(&columns, 5);
    assert!(m.check_well_formed());
    let (support, resistance) = support_resistance_ilocs(&m);
    assert_eq!(support.n_rows, 5);
    assert_eq!(resistance.n_rows, 5);
    assert_eq!(support.columns.len(), 3);
    assert_eq!(resistance.columns.len(), 3);
    for j in 0..3 {
        let (s, r) = support_resistance_series_ilocs(&m.columns[j]);
        assert_eq!(support.columns[j], s);
        assert_eq!(resistance.columns[j], r);
    }
}

#[test]
fn matrix_scan_is_deterministic() {
    let columns: [&[f64]; 2] = [&[3.0, 1.0, 4.0, 0.0, 5.0], &[1.0, 3.0, 2.0, 2.0, 2.0]];
    let m = matrix(&columns, 5);
    let (s1, r1) = support_resistance_ilocs(&m);
    let (s2, r2) = support_resistance_ilocs(&m);
    assert_eq!(s1.columns, s2.columns);
    assert_eq!(r1.columns, r2.columns);
    assert_eq!(s1.n_rows, s2.n_rows);
    assert_eq!(r1.n_rows, r2.n_rows);
}

#[test]
fn matrix_with_no_columns_scans_to_no_columns() {
    let m = PriceMatrix { n_rows: 7, columns: Vec::new() };
    assert!(m.check_well_formed());
    let (support, resistance) = support_resistance_ilocs(&m);
    assert_eq!(support.n_rows, 7);
    assert_eq!(support.columns.len(), 0);
    assert_eq!(resistance.columns.len(), 0);
}

#[test]
fn matrix_of_empty_columns_scans_to_empty_columns() {
    let m = PriceMatrix { n_rows: 0, columns: vec![Vec::new(), Vec::new()] };
    assert!(m.check_well_formed());
    let (support, resistance) = support_resistance_ilocs(&m);
    assert_eq!(support.columns, vec![Vec::<Option<usize>>::new(); 2]);
    assert_eq!(resistance.columns, vec![Vec::<Option<usize>>::new(); 2]);
}

#[test]
fn parallel_fan_out_matches_the_sequential_scan() {
    // scanning the series on many workers and on one thread must produce
    // identical results in identical positions
    let series: Vec<Vec<f64>> = (0..64)
        .map(|j| (0..40).map(|i| (((i * 7 + j * 13) % 23) as f64) - 11.0).collect())
        .collect();
    let flat: Vec<f64> = series.iter().flatten().copied().collect();
    let arr = Array2::from_shape_vec((64, 40), flat).unwrap();
    let parallel: Vec<(Vec<Option<usize>>, Vec<Option<usize>>)> = arr
        .outer_iter()
        .into_par_iter()
        .map(|row| {
            let prices: Vec<u64> = row.iter().map(|p| p.to_bits()).collect();
            support_resistance_series_ilocs(&prices)
        })
        .collect();
    let m = PriceMatrix {
        n_rows: 40,
        columns: series.iter().map(|c| c.iter().map(|p| p.to_bits()).collect()).collect(),
    };
    let (support, resistance) = support_resistance_ilocs(&m);
    for j in 0..64 {
        assert_eq!(parallel[j].0, support.columns[j]);
        assert_eq!(parallel[j].1, resistance.columns[j]);
    }
}

#[test]
fn well_formedness_check_rejects_ragged_columns() {
    let m = PriceMatrix { n_rows: 2, columns: vec![bits(&[1.0, 2.0]), bits(&[1.0])] };
    assert!(!m.check_well_formed());
    let ok = PriceMatrix { n_rows: 2, columns: vec![bits(&[1.0, 2.0]), bits(&[4.0, 3.0])] };
    assert!(ok.check_well_formed());
}

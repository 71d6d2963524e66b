use indicators::matrix::IlocMatrix;
use indicators::sentinel::NAN_BITS;
use indicators::sentinel::encode_iloc;
use indicators::sentinel::encode_iloc_column;
use indicators::sentinel::encode_iloc_matrix;

#[test]
fn unset_encodes_to_nan() {
    let bits = encode_iloc(None);
    assert_eq!(bits, NAN_BITS);
    assert!(f64::from_bits(bits).is_nan());
}

#[test]
fn set_encodes_to_the_exact_double_of_its_index() {
    let indices: [usize; 12] = [
        0,
        1,
        2,
        3,
        5,
        10,
        1023,
        1024,
        4095,
        123_456_789,
        (1 << 52) - 1,
        (1 << 52),
    ];
    for &i in indices.iter() {
        let bits = encode_iloc(Some(i));
        assert_eq!(bits, (i as f64).to_bits(), "index {i}");
        assert_eq!(f64::from_bits(bits), i as f64);
        assert_eq!(f64::from_bits(bits) as usize, i, "round trip of {i}");
        assert!(!f64::from_bits(bits).is_nan());
    }
}

#[test]
fn matrix_encoding_lays_columns_out_flat() {
    let m = IlocMatrix {
        n_rows: 2,
        columns: vec![vec![None, Some(1)], vec![Some(0), None], vec![Some(1), Some(0)]],
    };
    assert!(m.check_well_formed());
    let flat = encode_iloc_matrix(&m);
    let nan = f64::NAN.to_bits();
    let zero = 0.0f64.to_bits();
    let one = 1.0f64.to_bits();
    assert_eq!(flat, vec![nan, one, zero, nan, one, zero]);
}

#[test]
fn column_encoding_maps_entry_by_entry() {
    let column = vec![None, Some(1), None, Some(3), Some(0)];
    let encoded = encode_iloc_column(&column);
    let expected: Vec<u64> = vec![
        f64::NAN.to_bits(),
        1.0f64.to_bits(),
        f64::NAN.to_bits(),
        3.0f64.to_bits(),
        0.0f64.to_bits(),
    ];
    assert_eq!(encoded, expected);
}

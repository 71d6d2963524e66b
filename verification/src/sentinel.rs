//! The numeric encoding of optional time-step results.
//!
//! An unset result becomes the canonical quiet NaN; a set result becomes the
//! bit pattern of the double that holds its time step exactly. For steps below
//! 2^53 the double representation of an integer is exact, so nothing is lost
//! to rounding: the encoding is injective, which is proved here.

use vstd::prelude::*;

use vstd::arithmetic::div_mod::lemma_fundamental_div_mod;
use vstd::arithmetic::mul::lemma_mul_inequality;
use vstd::arithmetic::mul::lemma_mul_strict_inequality;
use vstd::arithmetic::power2::lemma2_to64;
use vstd::arithmetic::power2::lemma2_to64_rest;
use vstd::arithmetic::power2::lemma_pow2_adds;
use vstd::arithmetic::power2::lemma_pow2_pos;
use vstd::arithmetic::power2::lemma_pow2_strictly_increases;
use vstd::arithmetic::power2::pow2;

use crate::matrix::IlocMatrix;
use crate::price::f64_is_nan;

verus! {

/// The sentinel for "no value": the bit pattern of the canonical quiet NaN.
pub const NAN_BITS: u64 = 0x7FF8_0000_0000_0000;

/// The floor of the base-2 logarithm of a positive integer (0 for 0 and 1).
pub open spec fn floor_log2(i: nat) -> nat
    decreases i,
{
    if i <= 1 {
        0
    } else {
        1 + floor_log2(i / 2)
    }
}

/// The IEEE-754 double bit pattern of the integer `i`, meaningful for `i`
/// below 2^53 where the representation is exact: zero is all-zero bits; a
/// positive `i` whose floor log2 is `e` has sign 0, biased exponent
/// `1023 + e` and mantissa `i * 2^(52 - e) - 2^52`.
pub open spec fn index_bits(i: nat) -> u64 {
    if i == 0 {
        0u64
    } else {
        let e = floor_log2(i);
        (((1023 + e) * pow2(52) + (i * pow2((52 - e) as nat) - pow2(52))) as u64)
    }
}

/// The numeric encoding of one optional time step: unset is the NaN sentinel,
/// a set step its exact double bit pattern.
pub open spec fn spec_encode_iloc(v: Option<usize>) -> u64 {
    match v {
        Option::None => NAN_BITS,
        Option::Some(i) => index_bits(i as nat),
    }
}

proof fn lemma_floor_log2_bounds(i: nat)
    requires
        i >= 1,
    ensures
        pow2(floor_log2(i)) <= i < pow2(floor_log2(i) + 1),
    decreases i,
{
    lemma2_to64();
    if i == 1 {
    } else {
        lemma_floor_log2_bounds(i / 2);
        let e = floor_log2(i / 2);
        lemma_pow2_adds(e, 1);
        lemma_pow2_adds(e + 1, 1);
        lemma_fundamental_div_mod(i as int, 2);
        assert(pow2(e + 1) == 2 * pow2(e));
        assert(pow2(e + 2) == 2 * pow2(e + 1));
    }
}

proof fn lemma_floor_log2_unique(i: nat, e: nat)
    requires
        pow2(e) <= i,
        i < pow2(e + 1),
    ensures
        e == floor_log2(i),
{
    lemma_pow2_pos(e);
    lemma_floor_log2_bounds(i);
    let f = floor_log2(i);
    if e < f {
        if e + 1 < f {
            lemma_pow2_strictly_increases(e + 1, f);
        }
        assert(false);
    } else if f < e {
        if f + 1 < e {
            lemma_pow2_strictly_increases(f + 1, e);
        }
        assert(false);
    }
}

proof fn lemma_index_bits_decompose(i: nat)
    requires
        1 <= i < 0x20_0000_0000_0000,
    ensures
        floor_log2(i) <= 52,
        pow2(52) <= i * pow2((52 - floor_log2(i)) as nat) < pow2(53),
        index_bits(i) as nat == (1023 + floor_log2(i)) * pow2(52) + (i * pow2(
            (52 - floor_log2(i)) as nat,
        ) - pow2(52)),
{
    lemma2_to64();
    lemma2_to64_rest();
    lemma_floor_log2_bounds(i);
    let e = floor_log2(i);
    if e > 52 {
        if e > 53 {
            lemma_pow2_strictly_increases(53, e);
        }
        assert(false);
    }
    lemma_pow2_pos((52 - e) as nat);
    lemma_pow2_adds(e, (52 - e) as nat);
    lemma_pow2_adds(e + 1, (52 - e) as nat);
    lemma_mul_inequality(pow2(e) as int, i as int, pow2((52 - e) as nat) as int);
    lemma_mul_strict_inequality(i as int, pow2(e + 1) as int, pow2((52 - e) as nat) as int);
    assert(pow2(52) <= i * pow2((52 - e) as nat) < pow2(53));
    assert((1023 + e) * pow2(52) + (i * pow2((52 - e) as nat) - pow2(52)) < 0x1_0000_0000_0000_0000)
        by {
        assert(e <= 52);
        assert((1023 + e) * pow2(52) <= 1075 * pow2(52)) by {
            lemma_mul_inequality((1023 + e) as int, 1075, pow2(52) as int);
        }
    }
}

/// Exactness of the encoding: two distinct time steps below 2^53 never share
/// a bit pattern, i.e. the double representation of such an integer loses
/// nothing to rounding.
pub proof fn lemma_index_bits_injective(i: nat, j: nat)
    requires
        i < 0x20_0000_0000_0000,
        j < 0x20_0000_0000_0000,
        index_bits(i) == index_bits(j),
    ensures
        i == j,
{
    lemma2_to64();
    lemma2_to64_rest();
    if i == 0 && j == 0 {
    } else if i == 0 {
        lemma_index_bits_decompose(j);
        assert(false);
    } else if j == 0 {
        lemma_index_bits_decompose(i);
        assert(false);
    } else {
        lemma_index_bits_decompose(i);
        lemma_index_bits_decompose(j);
        let ei = floor_log2(i);
        let ej = floor_log2(j);
        let mi = i * pow2((52 - ei) as nat);
        let mj = j * pow2((52 - ej) as nat);
        assert((1023 + ei) * pow2(52) + (mi - pow2(52)) == (1023 + ej) * pow2(52) + (mj - pow2(
            52,
        )));
        if ei < ej {
            lemma_mul_inequality((1024 + ei) as int, (1023 + ej) as int, pow2(52) as int);
            assert((1024 + ei) * pow2(52) == (1023 + ei) * pow2(52) + pow2(52));
            assert(false);
        } else if ej < ei {
            lemma_mul_inequality((1024 + ej) as int, (1023 + ei) as int, pow2(52) as int);
            assert((1024 + ej) * pow2(52) == (1023 + ej) * pow2(52) + pow2(52));
            assert(false);
        } else {
            assert(mi == mj);
            let p = pow2((52 - ei) as nat) as int;
            lemma_pow2_pos((52 - ei) as nat);
            assert(i * p == j * p);
            assert(i == j) by (nonlinear_arith)
                requires
                    i * p == j * p,
                    p > 0,
            ;
        }
    }
}

/// Encode one optional time step as a double's bit pattern: the NaN sentinel
/// for unset, the exact double representation of the step for set. The step
/// must lie below 2^53, where that representation is exact.
pub fn encode_iloc(v: Option<usize>) -> (bits: u64)
    requires
        v matches Some(i) ==> i < 0x20_0000_0000_0000,
    ensures
        bits == spec_encode_iloc(v),
        v is None ==> f64_is_nan(bits),
        v is Some ==> !f64_is_nan(bits) && bits < 0x7FF0_0000_0000_0000,
{
    match v {
        None => NAN_BITS,
        Some(i) => {
            if i == 0 {
                return 0;
            }
            proof {
                lemma2_to64();
                lemma2_to64_rest();
            }
            let idx: u64 = i as u64;
            let mut e: usize = 0;
            let mut p: u64 = 1;
            while 2 * p <= idx
                invariant
                    idx == i as u64,
                    1 <= i < 0x20_0000_0000_0000,
                    p == pow2(e as nat),
                    p <= idx,
                    e <= 52,
                decreases idx - p,
            {
                proof {
                    lemma2_to64();
                    lemma2_to64_rest();
                    lemma_pow2_adds(e as nat, 1);
                    assert(e < 52) by {
                        if e == 52 {
                            assert(p == 0x10_0000_0000_0000);
                            assert(false);
                        }
                    }
                }
                p = 2 * p;
                e = e + 1;
            }
            proof {
                lemma2_to64();
                lemma_pow2_adds(e as nat, 1);
                lemma_floor_log2_unique(idx as nat, e as nat);
            }
            let shifts: usize = 52 - e;
            let mut t: usize = 0;
            let mut m: u64 = idx;
            while t < shifts
                invariant
                    idx == i as u64,
                    1 <= i < 0x20_0000_0000_0000,
                    e <= 52,
                    shifts == 52 - e,
                    t <= shifts,
                    m as nat == (idx as nat) * pow2(t as nat),
                    (m as nat) < pow2((e + 1 + t) as nat),
                decreases shifts - t,
            {
                proof {
                    lemma2_to64();
                    lemma2_to64_rest();
                    lemma_pow2_adds(t as nat, 1);
                    lemma_pow2_adds((e + 1 + t) as nat, 1);
                    if e + 1 + t < 53 {
                        lemma_pow2_strictly_increases((e + 1 + t) as nat, 53);
                    }
                    assert(m < 0x20_0000_0000_0000);
                    assert((idx as nat) * pow2((t + 1) as nat) == 2 * ((idx as nat) * pow2(
                        t as nat,
                    ))) by {
                        lemma_pow2_adds(t as nat, 1);
                        vstd::arithmetic::mul::lemma_mul_is_associative(
                            idx as int,
                            pow2(t as nat) as int,
                            2,
                        );
                    }
                }
                m = 2 * m;
                t = t + 1;
            }
            proof {
                lemma2_to64();
                lemma2_to64_rest();
                let en = e as nat;
                lemma_pow2_pos((52 - en) as nat);
                lemma_pow2_adds(en, (52 - en) as nat);
                lemma_mul_inequality(pow2(en) as int, idx as int, pow2((52 - en) as nat) as int);
                assert(pow2(52) <= m as nat);
                if e + 1 + shifts < 54 {
                    lemma_pow2_strictly_increases((e + 1 + shifts) as nat, 54);
                }
                assert((m as nat) < pow2(53));
                assert((1023 + en) * pow2(52) <= 1075 * pow2(52)) by {
                    lemma_mul_inequality((1023 + en) as int, 1075, pow2(52) as int);
                }
            }
            let exponent: u64 = 1023 + e as u64;
            let bits: u64 = exponent * 0x10_0000_0000_0000 + (m - 0x10_0000_0000_0000);
            proof {
                assert(bits as nat == (1023 + floor_log2(i as nat)) * pow2(52) + ((i as nat) * pow2(
                    (52 - floor_log2(i as nat)) as nat,
                ) - pow2(52)));
                assert(bits == index_bits(i as nat));
                assert(bits < 0x7FF0_0000_0000_0000);
            }
            bits
        },
    }
}

/// Encode a whole result column, entry by entry. Every set entry must lie
/// below 2^53.
pub fn encode_iloc_column(column: &Vec<Option<usize>>) -> (r: Vec<u64>)
    requires
        forall|j: int|
            0 <= j < column@.len() ==> ((#[trigger] column@[j]) matches Some(i) ==> i
                < 0x20_0000_0000_0000),
    ensures
        r@.len() == column@.len(),
        forall|j: int| 0 <= j < column@.len() ==> r@[j] == spec_encode_iloc(column@[j]),
{
    let n = column.len();
    let mut r: Vec<u64> = Vec::new();
    let mut j: usize = 0;
    while j < n
        invariant
            j <= n,
            n == column@.len(),
            r@.len() == j,
            forall|k: int|
                0 <= k < column@.len() ==> ((#[trigger] column@[k]) matches Some(i) ==> i
                    < 0x20_0000_0000_0000),
            forall|k: int| 0 <= k < j ==> r@[k] == spec_encode_iloc(column@[k]),
        decreases n - j,
    {
        r.push(encode_iloc(column[j]));
        j = j + 1;
    }
    r
}

/// Encode a whole result matrix into one flat sequence of doubles, column
/// after column: the entry for row `i` of column `j` stands at position
/// `j * n_rows + i`, so a fixed-shape reshape of the flat sequence restores
/// the matrix. Every set entry must lie below 2^53.
pub fn encode_iloc_matrix(m: &IlocMatrix) -> (r: Vec<u64>)
    requires
        m.wf(),
        forall|j: int, i: int|
            0 <= j < m.columns@.len() && 0 <= i < m.n_rows ==> ((#[trigger] m.columns@[j]@[i])
                matches Some(s) ==> s < 0x20_0000_0000_0000),
    ensures
        r@.len() == m.columns@.len() * m.n_rows,
        forall|j: int, i: int|
            0 <= j < m.columns@.len() && 0 <= i < m.n_rows ==> #[trigger] r@[j * (
            m.n_rows as int) + i] == spec_encode_iloc(m.columns@[j]@[i]),
{
    let k = m.columns.len();
    let mut r: Vec<u64> = Vec::new();
    let mut j: usize = 0;
    while j < k
        invariant
            j <= k,
            k == m.columns@.len(),
            m.wf(),
            forall|jj: int, ii: int|
                0 <= jj < m.columns@.len() && 0 <= ii < m.n_rows ==> ((
                #[trigger] m.columns@[jj]@[ii]) matches Some(s) ==> s < 0x20_0000_0000_0000),
            r@.len() == j * (m.n_rows as int),
            forall|jj: int, ii: int|
                0 <= jj < j && 0 <= ii < m.n_rows ==> #[trigger] r@[jj * (m.n_rows as int) + ii]
                    == spec_encode_iloc(m.columns@[jj]@[ii]),
        decreases k - j,
    {
        let ghost n = m.n_rows as int;
        let ghost old_r = r@;
        let mut encoded = encode_iloc_column(&m.columns[j]);
        r.append(&mut encoded);
        proof {
            vstd::arithmetic::mul::lemma_mul_is_distributive_add_other_way(
                n,
                j as int,
                1,
            );
            assert((j as int + 1) * n == j as int * n + n);
            assert forall|jj: int, ii: int|
                0 <= jj < j + 1 && 0 <= ii < m.n_rows implies #[trigger] r@[jj * n + ii]
                == spec_encode_iloc(m.columns@[jj]@[ii]) by {
                vstd::arithmetic::mul::lemma_mul_is_distributive_add_other_way(n, jj, 1);
                assert((jj + 1) * n == jj * n + n);
                if jj < j {
                    vstd::arithmetic::mul::lemma_mul_inequality(jj + 1, j as int, n);
                    assert(jj * n + ii < j as int * n);
                    assert(r@[jj * n + ii] == old_r[jj * n + ii]);
                } else {
                    assert(r@[jj * n + ii] == spec_encode_iloc(m.columns@[jj]@[ii]));
                }
            }
        }
        j = j + 1;
    }
    r
}

} // verus!

use vstd::prelude::*;

verus! {

/// Floored `(base * numerator) / denominator` over the full 256-bit
/// intermediate product, `None` when the denominator is zero or the
/// quotient does not fit in 128 bits.
///
/// Relies on cosmwasm_std::Uint128::checked_multiply_ratio: it widens to
/// 256 bits, divides, and reports division by zero and overflow of the
/// quotient as errors.
#[verifier::external_body]
pub(crate) fn mul_ratio(base: u128, numerator: u128, denominator: u128) -> (r: Option<u128>)
    ensures
        r == (if denominator == 0 || (base * numerator) / (denominator as int) > u128::MAX {
            None::<u128>
        } else {
            Some((((base * numerator) / (denominator as int)) as u128))
        }),
{
    match cosmwasm_std::Uint128::new(base).checked_multiply_ratio(numerator, denominator) {
        Ok(value) => Some(value.u128()),
        Err(_) => None,
    }
}

/// `total * pct / 1000`, where `pct` is a fraction in thousandths.
pub fn mul_pct(total: u128, pct: u128) -> (r: u128)
    requires
        pct <= 1000,
    ensures
        r == (total * pct) / 1000,
        r <= total,
{
    proof {
        lemma_mul_div_le_self(total as int, pct as int, 1000);
    }
    match mul_ratio(total, pct, 1000) {
        Some(v) => v,
        None => 0,  // unreachable: the quotient is at most `total`
    }
}

/// `(a * b) / d <= a` whenever `0 <= b <= d` and `d > 0`.
pub proof fn lemma_mul_div_le_self(a: int, b: int, d: int)
    requires
        0 <= a,
        0 <= b <= d,
        0 < d,
    ensures
        0 <= (a * b) / d <= a,
{
    vstd::arithmetic::mul::lemma_mul_inequality(b, d, a);
    assert(b * a <= d * a) by {
        vstd::arithmetic::mul::lemma_mul_is_commutative(b, a);
        vstd::arithmetic::mul::lemma_mul_is_commutative(d, a);
    }
    vstd::arithmetic::div_mod::lemma_div_is_ordered(a * b, a * d, d);
    assert((a * d) / d == a) by {
        vstd::arithmetic::div_mod::lemma_div_by_multiple(a, d);
    }
    vstd::arithmetic::div_mod::lemma_div_pos_is_pos(a * b, d);
    assert(0 <= a * b) by {
        vstd::arithmetic::mul::lemma_mul_nonnegative(a, b);
    }
}

/// Element-wise copy of a vector of plain values.
pub(crate) fn copy_vec<T: Copy>(src: &Vec<T>) -> (out: Vec<T>)
    ensures
        out@ == src@,
{
    let mut out: Vec<T> = Vec::new();
    let mut i: usize = 0;
    while i < src.len()
        invariant
            i <= src.len(),
            out@ == src@.take(i as int),
        decreases src.len() - i,
    {
        out.push(src[i]);
        proof {
            assert(src@.take(i + 1) =~= src@.take(i as int).push(src@[i as int]));
        }
        i += 1;
    }
    proof {
        assert(src@.take(src@.len() as int) =~= src@);
    }
    out
}

} // verus!

//! Pricing engine for the constant-product pool: integer square root,
//! the LP-share mint formula, and the swap output formula with fee.

use vstd::prelude::*;

use crate::pool::DexError;

verus! {

/// Numerator of the keep-rate of the swap fee: a 0.3% fee leaves 997/1000 of
/// the input effective for pricing.
pub const FEE_NUM: i128 = 997;

/// Denominator of the keep-rate of the swap fee.
pub const FEE_DEN: i128 = 1000;

/// Guards an amount argument: only strictly positive amounts are accepted.
pub fn checked_positive(amount: i128) -> (r: Result<(), DexError>)
    ensures
        amount > 0 ==> r == Ok::<(), DexError>(()),
        amount <= 0 ==> r == Err::<(), DexError>(DexError::InvalidAmount),
{
    if amount <= 0 {
        return Err(DexError::InvalidAmount);
    }
    Ok(())
}

/// `r` is the integer square root of `x`: the greatest integer whose
/// square does not exceed `x`.
pub open spec fn is_sqrt_floor(x: int, r: int) -> bool {
    0 <= r && r * r <= x && x < (r + 1) * (r + 1)
}

/// floor(sqrt(x)), and 0 for negative `x`.
pub open spec fn sqrt_floor(x: int) -> int
    decreases x,
{
    if x <= 0 {
        0
    } else {
        let p = sqrt_floor(x - 1);
        if (p + 1) * (p + 1) <= x {
            p + 1
        } else {
            p
        }
    }
}

pub proof fn lemma_sqrt_floor_is_sqrt(x: int)
    requires
        x >= 0,
    ensures
        is_sqrt_floor(x, sqrt_floor(x)),
    decreases x,
{
    if x > 0 {
        lemma_sqrt_floor_is_sqrt(x - 1);
        let p = sqrt_floor(x - 1);
        assert((p + 1) * (p + 1) < (p + 2) * (p + 2)) by (nonlinear_arith)
            requires
                p >= 0,
        ;
    }
}

pub proof fn lemma_sqrt_floor_unique(x: int, r: int)
    requires
        x >= 0,
        is_sqrt_floor(x, r),
    ensures
        r == sqrt_floor(x),
{
    lemma_sqrt_floor_is_sqrt(x);
    let p = sqrt_floor(x);
    assert(r * r <= x < (p + 1) * (p + 1));
    assert(p * p <= x < (r + 1) * (r + 1));
    assert(r <= p && p <= r) by (nonlinear_arith)
        requires
            0 <= r,
            0 <= p,
            r * r < (p + 1) * (p + 1),
            p * p < (r + 1) * (r + 1),
    ;
}

/// The integer square root is exact on perfect squares.
pub proof fn lemma_sqrt_floor_perfect_square(r: int)
    requires
        r >= 0,
    ensures
        sqrt_floor(r * r) == r,
{
    assert(r * r < (r + 1) * (r + 1)) by (nonlinear_arith)
        requires
            r >= 0,
    ;
    assert(is_sqrt_floor(r * r, r));
    lemma_sqrt_floor_unique(r * r, r);
}

/// The integer square root is monotone non-decreasing.
pub proof fn lemma_sqrt_floor_monotone(x: int, y: int)
    requires
        0 <= x <= y,
    ensures
        sqrt_floor(x) <= sqrt_floor(y),
{
    lemma_sqrt_floor_is_sqrt(x);
    lemma_sqrt_floor_is_sqrt(y);
    let a = sqrt_floor(x);
    let b = sqrt_floor(y);
    assert(a <= b) by (nonlinear_arith)
        requires
            0 <= a,
            0 <= b,
            a * a <= x,
            x <= y,
            y < (b + 1) * (b + 1),
    ;
}

/// Integer square root by Babylonian (Newton) iteration: floor(sqrt(x))
/// for non-negative `x`, and 0 for negative `x`.
pub fn isqrt(x: i128) -> (r: i128)
    requires
        x < i128::MAX,
    ensures
        r == sqrt_floor(x as int),
{
    if x <= 0 {
        return 0;
    }
    let mut z: i128 = x;
    let mut y: i128 = (x + 1) / 2;
    proof {
        assert((x as int) / (x as int) == 1) by (nonlinear_arith)
            requires
                x >= 1,
        ;
        assert(x < (x + 1) * (x + 1)) by (nonlinear_arith)
            requires
                x >= 1,
        ;
        vstd::arithmetic::div_mod::lemma_fundamental_div_mod(x as int + 1, 2);
        assert(y >= 1 && y <= x);
    }
    while y < z
        invariant
            1 <= x < i128::MAX,
            1 <= z <= x,
            1 <= y <= x,
            y as int == ((x as int) / (z as int) + z as int) / 2,
            x < (z + 1) * (z + 1),
        decreases z,
    {
        proof {
            lemma_babylonian_step(x as int, z as int, y as int);
        }
        z = y;
        y = (x / y + y) / 2;
    }
    proof {
        // At exit `y >= z`; if `z` overshot the root, the next iterate would
        // have been strictly smaller, so `z * z <= x`.
        let xi = x as int;
        let zi = z as int;
        if zi * zi > xi {
            vstd::arithmetic::div_mod::lemma_fundamental_div_mod(xi, zi);
            assert(xi / zi <= zi - 1) by (nonlinear_arith)
                requires
                    zi >= 1,
                    xi >= 1,
                    xi == zi * (xi / zi) + xi % zi,
                    0 <= xi % zi < zi,
                    zi * zi > xi,
            ;
            vstd::arithmetic::div_mod::lemma_fundamental_div_mod(xi / zi + zi, 2);
            assert(2 * (y as int) <= xi / zi + zi);
            assert(false);
        }
        assert(is_sqrt_floor(xi, zi));
        lemma_sqrt_floor_unique(xi, zi);
    }
    z
}

/// One step of the Babylonian iteration stays at or above the square root,
/// keeps the iterate in range, and does not overflow.
proof fn lemma_babylonian_step(x: int, z: int, y: int)
    requires
        1 <= z <= x,
        1 <= y <= x,
        x < i128::MAX,
        y == (x / z + z) / 2,
        x < (z + 1) * (z + 1),
    ensures
        x < (y + 1) * (y + 1),
        x / y + y <= x + 1,
        1 <= (x / y + y) / 2 <= x,
{
    vstd::arithmetic::div_mod::lemma_fundamental_div_mod(x, z);
    vstd::arithmetic::div_mod::lemma_fundamental_div_mod(x / z + z, 2);
    let q = x / z;
    assert(q >= 0) by (nonlinear_arith)
        requires
            x >= 1,
            z >= 1,
            x == z * q + x % z,
            0 <= x % z < z,
    ;
    // x < (q + 1) * z, hence 4x < 4(q + 1)z <= (q + z + 1)^2 <= (2y + 2)^2.
    assert(x < (q + 1) * z) by (nonlinear_arith)
        requires
            x == z * q + x % z,
            0 <= x % z < z,
    ;
    assert(q + z <= 2 * y + 1 && 2 * y <= q + z);
    assert(4 * ((q + 1) * z) <= (q + z + 1) * (q + z + 1)) by (nonlinear_arith);
    assert((q + z + 1) * (q + z + 1) <= (2 * y + 2) * (2 * y + 2)) by (nonlinear_arith)
        requires
            0 <= q + z + 1 <= 2 * y + 2,
    ;
    assert(4 * x < 4 * ((y + 1) * (y + 1))) by (nonlinear_arith)
        requires
            x < (q + 1) * z,
            4 * ((q + 1) * z) <= (q + z + 1) * (q + z + 1),
            (q + z + 1) * (q + z + 1) <= (2 * y + 2) * (2 * y + 2),
    ;
    // Now the bounds on the next iterate (x / y + y) / 2.
    vstd::arithmetic::div_mod::lemma_fundamental_div_mod(x, y);
    let qy = x / y;
    assert(qy >= 0 && x < (qy + 1) * y) by (nonlinear_arith)
        requires
            x >= 1,
            y >= 1,
            x == y * qy + x % y,
            0 <= x % y < y,
    ;
    assert(qy <= x + 1 - y) by (nonlinear_arith)
        requires
            1 <= y <= x,
            x == y * qy + x % y,
            0 <= x % y < y,
            qy >= 0,
    ;
    if y == 1 {
        assert(qy == x) by (nonlinear_arith)
            requires
                y == 1,
                x == y * qy + x % y,
                0 <= x % y < y,
        ;
    }
    assert(qy + y >= 2);
    vstd::arithmetic::div_mod::lemma_fundamental_div_mod(qy + y, 2);
    assert(1 <= (qy + y) / 2 <= x) by (nonlinear_arith)
        requires
            2 <= qy + y <= x + 1,
            x >= 1,
            qy + y == 2 * ((qy + y) / 2) + (qy + y) % 2,
            0 <= (qy + y) % 2 < 2,
    ;
}

/// The swap output: the fee-discounted input priced against the constant
/// product of the two reserves, with truncating division.
pub open spec fn amount_out_spec(amount_in: int, reserve_in: int, reserve_out: int) -> int {
    (amount_in * 997 * reserve_out) / (reserve_in * 1000 + amount_in * 997)
}

/// Swap output using the constant product with a 0.3% fee: the output never
/// exceeds the outgoing reserve, and is strictly below it whenever both
/// reserves are stocked.
pub fn get_amount_out(amount_in: i128, reserve_in: i128, reserve_out: i128) -> (r: i128)
    requires
        0 <= amount_in,
        0 <= reserve_in,
        0 <= reserve_out,
        0 < reserve_in * 1000 + amount_in * 997 <= i128::MAX,
        amount_in * 997 * reserve_out <= i128::MAX,
    ensures
        r == amount_out_spec(amount_in as int, reserve_in as int, reserve_out as int),
        0 <= r <= reserve_out,
        reserve_in > 0 && reserve_out > 0 ==> r < reserve_out,
{
    proof {
        lemma_amount_out_bounds(amount_in as int, reserve_in as int, reserve_out as int);
        assert(amount_in * 997 <= reserve_in * 1000 + amount_in * 997) by (nonlinear_arith)
            requires
                reserve_in >= 0,
        ;
    }
    let amount_in_with_fee = amount_in * FEE_NUM;
    let numerator = amount_in_with_fee * reserve_out;
    let denominator = reserve_in * FEE_DEN + amount_in_with_fee;
    numerator / denominator
}

/// Range of the swap output formula: non-negative, at most the outgoing
/// reserve, and strictly less than it when both reserves are positive.
pub proof fn lemma_amount_out_bounds(amount_in: int, reserve_in: int, reserve_out: int)
    requires
        0 <= amount_in,
        0 <= reserve_in,
        0 <= reserve_out,
        0 < reserve_in * 1000 + amount_in * 997,
    ensures
        0 <= amount_out_spec(amount_in, reserve_in, reserve_out) <= reserve_out,
        reserve_in > 0 && reserve_out > 0 ==> amount_out_spec(amount_in, reserve_in, reserve_out)
            < reserve_out,
{
    let n = amount_in * 997 * reserve_out;
    let d = reserve_in * 1000 + amount_in * 997;
    vstd::arithmetic::div_mod::lemma_fundamental_div_mod(n, d);
    assert(n >= 0) by (nonlinear_arith)
        requires
            amount_in >= 0,
            reserve_out >= 0,
            n == amount_in * 997 * reserve_out,
    ;
    assert(n / d >= 0) by (nonlinear_arith)
        requires
            n >= 0,
            d > 0,
            n == d * (n / d) + n % d,
            0 <= n % d < d,
    ;
    assert(n <= reserve_out * d) by (nonlinear_arith)
        requires
            reserve_in >= 0,
            reserve_out >= 0,
            amount_in >= 0,
            n == amount_in * 997 * reserve_out,
            d == reserve_in * 1000 + amount_in * 997,
    ;
    assert(n / d <= reserve_out) by (nonlinear_arith)
        requires
            d > 0,
            n <= reserve_out * d,
            n == d * (n / d) + n % d,
            0 <= n % d < d,
    ;
    if reserve_in > 0 && reserve_out > 0 {
        assert(n < reserve_out * d) by (nonlinear_arith)
            requires
                reserve_in >= 1,
                reserve_out >= 1,
                amount_in >= 0,
                n == amount_in * 997 * reserve_out,
                d == reserve_in * 1000 + amount_in * 997,
        ;
        assert(n / d < reserve_out) by (nonlinear_arith)
            requires
                d > 0,
                n < reserve_out * d,
                n == d * (n / d) + n % d,
                0 <= n % d < d,
        ;
    }
}

/// The product of the two reserves never decreases across a swap: the fee
/// retained in the pool makes the constant product monotone, whatever the
/// trade size.
pub proof fn lemma_swap_product_nondecreasing(amount_in: int, reserve_in: int, reserve_out: int)
    requires
        1 <= amount_in,
        1 <= reserve_in,
        1 <= reserve_out,
    ensures
        0 <= amount_out_spec(amount_in, reserve_in, reserve_out) < reserve_out,
        (reserve_in + amount_in) * (reserve_out - amount_out_spec(amount_in, reserve_in, reserve_out))
            >= reserve_in * reserve_out,
{
    let n = amount_in * 997 * reserve_out;
    let d = reserve_in * 1000 + amount_in * 997;
    let out = amount_out_spec(amount_in, reserve_in, reserve_out);
    assert(d > 0) by (nonlinear_arith)
        requires
            reserve_in >= 1,
            amount_in >= 1,
            d == reserve_in * 1000 + amount_in * 997,
    ;
    lemma_amount_out_bounds(amount_in, reserve_in, reserve_out);
    vstd::arithmetic::div_mod::lemma_fundamental_div_mod(n, d);
    // (reserve_in + amount_in) * out <= amount_in * reserve_out, because
    // 997 * (reserve_in + amount_in) <= d and d * out <= n.
    assert((reserve_in + amount_in) * out <= amount_in * reserve_out) by (nonlinear_arith)
        requires
            out >= 0,
            amount_in >= 1,
            reserve_in >= 1,
            reserve_out >= 1,
            n == amount_in * 997 * reserve_out,
            d == reserve_in * 1000 + amount_in * 997,
            n == d * out + n % d,
            0 <= n % d,
    ;
    assert((reserve_in + amount_in) * (reserve_out - out) >= reserve_in * reserve_out)
        by (nonlinear_arith)
        requires
            (reserve_in + amount_in) * out <= amount_in * reserve_out,
    ;
}

/// Bounds of a proportional share `lp_amount * reserve / supply`: it never
/// exceeds the reserve, it takes the whole reserve exactly when all shares
/// are burned, and it leaves at least one unit behind otherwise.
pub proof fn lemma_proportional_share_bounds(lp_amount: int, reserve: int, supply: int)
    requires
        1 <= lp_amount <= supply,
        0 <= reserve,
    ensures
        0 <= lp_amount * reserve / supply <= reserve,
        lp_amount == supply ==> lp_amount * reserve / supply == reserve,
        lp_amount < supply && reserve >= 1 ==> lp_amount * reserve / supply < reserve,
{
    let x = lp_amount * reserve;
    vstd::arithmetic::div_mod::lemma_fundamental_div_mod(x, supply);
    assert(0 <= x / supply <= reserve) by (nonlinear_arith)
        requires
            1 <= lp_amount <= supply,
            0 <= reserve,
            x == lp_amount * reserve,
            x == supply * (x / supply) + x % supply,
            0 <= x % supply < supply,
    ;
    if lp_amount == supply {
        vstd::arithmetic::div_mod::lemma_div_multiples_vanish(reserve, supply);
        assert(x == reserve * supply) by (nonlinear_arith)
            requires
                x == lp_amount * reserve,
                lp_amount == supply,
        ;
        assert(supply * reserve == reserve * supply);
    }
    if lp_amount < supply && reserve >= 1 {
        assert(x / supply < reserve) by (nonlinear_arith)
            requires
                1 <= lp_amount < supply,
                1 <= reserve,
                x == lp_amount * reserve,
                x == supply * (x / supply) + x % supply,
                0 <= x % supply < supply,
        ;
    }
}

/// The LP shares minted for a deposit: the geometric mean when the pool is
/// being seeded, otherwise the smaller of the two proportional contributions.
pub open spec fn lp_mint_spec(
    deposit_a: int,
    deposit_b: int,
    reserve_a: int,
    reserve_b: int,
    total_lp_supply: int,
) -> int {
    if total_lp_supply == 0 {
        sqrt_floor(deposit_a * deposit_b)
    } else {
        let mint_a = deposit_a * total_lp_supply / reserve_a;
        let mint_b = deposit_b * total_lp_supply / reserve_b;
        if mint_a < mint_b {
            mint_a
        } else {
            mint_b
        }
    }
}

/// LP mint formula: `isqrt(a * b)` on first seeding, otherwise
/// `min(a * supply / reserve_a, b * supply / reserve_b)`.
pub fn lp_mint_amount(
    deposit_a: i128,
    deposit_b: i128,
    reserve_a: i128,
    reserve_b: i128,
    total_lp_supply: i128,
) -> (r: i128)
    requires
        0 <= deposit_a,
        0 <= deposit_b,
        0 <= total_lp_supply,
        total_lp_supply == 0 ==> deposit_a * deposit_b < i128::MAX,
        total_lp_supply > 0 ==> reserve_a > 0 && reserve_b > 0 && deposit_a * total_lp_supply
            <= i128::MAX && deposit_b * total_lp_supply <= i128::MAX,
    ensures
        r == lp_mint_spec(
            deposit_a as int,
            deposit_b as int,
            reserve_a as int,
            reserve_b as int,
            total_lp_supply as int,
        ),
        r >= 0,
{
    if total_lp_supply == 0 {
        proof {
            assert(deposit_a * deposit_b >= 0) by (nonlinear_arith)
                requires
                    deposit_a >= 0,
                    deposit_b >= 0,
            ;
            lemma_sqrt_floor_is_sqrt(deposit_a * deposit_b);
            lemma_sqrt_floor_fits(deposit_a * deposit_b);
        }
        isqrt(deposit_a * deposit_b)
    } else {
        proof {
            lemma_div_quotient_in_range(deposit_a as int * total_lp_supply as int, reserve_a as int);
            lemma_div_quotient_in_range(deposit_b as int * total_lp_supply as int, reserve_b as int);
            assert(deposit_a * total_lp_supply >= 0) by (nonlinear_arith)
                requires
                    deposit_a >= 0,
                    total_lp_supply >= 0,
            ;
            assert(deposit_b * total_lp_supply >= 0) by (nonlinear_arith)
                requires
                    deposit_b >= 0,
                    total_lp_supply >= 0,
            ;
        }
        let mint_a = deposit_a * total_lp_supply / reserve_a;
        let mint_b = deposit_b * total_lp_supply / reserve_b;
        if mint_a < mint_b {
            mint_a
        } else {
            mint_b
        }
    }
}

/// A deposit in the exact current reserve ratio mints the proportional share
/// of the supply, the same whether measured against either asset, and within
/// one floor-rounding unit of exact proportionality.
pub proof fn lemma_mint_proportional(
    amount_a: int,
    amount_b: int,
    reserve_a: int,
    reserve_b: int,
    supply: int,
)
    requires
        1 <= amount_a,
        1 <= amount_b,
        1 <= reserve_a,
        1 <= reserve_b,
        1 <= supply,
        amount_a * reserve_b == amount_b * reserve_a,
    ensures
        lp_mint_spec(amount_a, amount_b, reserve_a, reserve_b, supply) == amount_a * supply
            / reserve_a,
        lp_mint_spec(amount_a, amount_b, reserve_a, reserve_b, supply) == amount_b * supply
            / reserve_b,
        reserve_a * lp_mint_spec(amount_a, amount_b, reserve_a, reserve_b, supply) <= amount_a
            * supply,
        amount_a * supply < reserve_a * (lp_mint_spec(amount_a, amount_b, reserve_a, reserve_b, supply)
            + 1),
{
    let u = amount_a * supply;
    let v = amount_b * supply;
    let q = u / reserve_a;
    assert(u * reserve_b == v * reserve_a) by (nonlinear_arith)
        requires
            amount_a * reserve_b == amount_b * reserve_a,
            u == amount_a * supply,
            v == amount_b * supply,
    ;
    vstd::arithmetic::div_mod::lemma_fundamental_div_mod(u, reserve_a);
    assert(q * reserve_a <= u < (q + 1) * reserve_a) by (nonlinear_arith)
        requires
            u == reserve_a * q + u % reserve_a,
            0 <= u % reserve_a < reserve_a,
    ;
    assert(q * reserve_b <= v < (q + 1) * reserve_b) by (nonlinear_arith)
        requires
            q * reserve_a <= u < (q + 1) * reserve_a,
            u * reserve_b == v * reserve_a,
            reserve_a >= 1,
            reserve_b >= 1,
    ;
    vstd::arithmetic::div_mod::lemma_fundamental_div_mod(v, reserve_b);
    assert(v / reserve_b == q) by (nonlinear_arith)
        requires
            q * reserve_b <= v < (q + 1) * reserve_b,
            v == reserve_b * (v / reserve_b) + v % reserve_b,
            0 <= v % reserve_b < reserve_b,
            reserve_b >= 1,
    ;
    assert(q >= 0) by (nonlinear_arith)
        requires
            q * reserve_a <= u < (q + 1) * reserve_a,
            u >= 0,
            reserve_a >= 1,
    ;
}

/// Proportional fairness between two providers: when each deposits in the
/// exact reserve ratio of its moment and neither mint loses to rounding, the
/// two minted share counts are in exactly the ratio of the deposits.
pub proof fn lemma_proportional_fairness(
    a1: int,
    b1: int,
    a2: int,
    b2: int,
    reserve_a: int,
    reserve_b: int,
    supply: int,
)
    requires
        1 <= a1,
        1 <= b1,
        1 <= a2,
        1 <= b2,
        1 <= reserve_a,
        1 <= reserve_b,
        1 <= supply,
        a1 * reserve_b == b1 * reserve_a,
        a2 * (reserve_b + b1) == b2 * (reserve_a + a1),
        (a1 * supply) % reserve_a == 0,
        (a2 * supply) % reserve_a == 0,
    ensures
        ({
            let m1 = lp_mint_spec(a1, b1, reserve_a, reserve_b, supply);
            let m2 = lp_mint_spec(a2, b2, reserve_a + a1, reserve_b + b1, supply + m1);
            m1 >= 1 && m1 * a2 == m2 * a1
        }),
{
    let m1 = lp_mint_spec(a1, b1, reserve_a, reserve_b, supply);
    lemma_mint_proportional(a1, b1, reserve_a, reserve_b, supply);
    vstd::arithmetic::div_mod::lemma_fundamental_div_mod(a1 * supply, reserve_a);
    assert(m1 * reserve_a == a1 * supply) by (nonlinear_arith)
        requires
            m1 == (a1 * supply) / reserve_a,
            (a1 * supply) % reserve_a == 0,
            a1 * supply == reserve_a * ((a1 * supply) / reserve_a) + (a1 * supply) % reserve_a,
    ;
    assert(m1 >= 1) by (nonlinear_arith)
        requires
            m1 * reserve_a == a1 * supply,
            a1 >= 1,
            supply >= 1,
            reserve_a >= 1,
            m1 >= 0,
    ;
    // The second deposit sees the same shares-to-reserve ratio, because the
    // first mint was exact: (supply + m1) * reserve_a == supply * (reserve_a + a1).
    assert((supply + m1) * reserve_a == supply * (reserve_a + a1)) by (nonlinear_arith)
        requires
            m1 * reserve_a == a1 * supply,
    ;
    let m2 = lp_mint_spec(a2, b2, reserve_a + a1, reserve_b + b1, supply + m1);
    lemma_mint_proportional(a2, b2, reserve_a + a1, reserve_b + b1, supply + m1);
    let q2 = (a2 * supply) / reserve_a;
    vstd::arithmetic::div_mod::lemma_fundamental_div_mod(a2 * supply, reserve_a);
    assert(q2 * reserve_a == a2 * supply) by (nonlinear_arith)
        requires
            q2 == (a2 * supply) / reserve_a,
            (a2 * supply) % reserve_a == 0,
            a2 * supply == reserve_a * q2 + (a2 * supply) % reserve_a,
    ;
    // a2 * (supply + m1) == q2 * (reserve_a + a1), exactly.
    assert(a2 * (supply + m1) == q2 * (reserve_a + a1)) by (nonlinear_arith)
        requires
            (supply + m1) * reserve_a == supply * (reserve_a + a1),
            q2 * reserve_a == a2 * supply,
            reserve_a >= 1,
    ;
    vstd::arithmetic::div_mod::lemma_fundamental_div_mod(a2 * (supply + m1), reserve_a + a1);
    assert(m2 == q2) by (nonlinear_arith)
        requires
            m2 == (a2 * (supply + m1)) / (reserve_a + a1),
            a2 * (supply + m1) == q2 * (reserve_a + a1),
            a2 * (supply + m1) == (reserve_a + a1) * m2 + (a2 * (supply + m1)) % (reserve_a + a1),
            0 <= (a2 * (supply + m1)) % (reserve_a + a1) < reserve_a + a1,
            reserve_a + a1 >= 1,
    ;
    assert(m1 * a2 == m2 * a1) by (nonlinear_arith)
        requires
            m1 * reserve_a == a1 * supply,
            m2 * reserve_a == a2 * supply,
            reserve_a >= 1,
    ;
}

/// The quotient of non-negative integers lies between 0 and the dividend.
pub proof fn lemma_div_quotient_in_range(x: int, d: int)
    requires
        x >= 0,
        d >= 1,
    ensures
        0 <= x / d <= x,
{
    vstd::arithmetic::div_mod::lemma_fundamental_div_mod(x, d);
    assert(0 <= x / d <= x) by (nonlinear_arith)
        requires
            x >= 0,
            d >= 1,
            x == d * (x / d) + x % d,
            0 <= x % d < d,
    ;
}

/// The square root of a value in range stays in range.
proof fn lemma_sqrt_floor_fits(x: int)
    requires
        0 <= x,
    ensures
        sqrt_floor(x) <= x,
{
    lemma_sqrt_floor_is_sqrt(x);
    let r = sqrt_floor(x);
    assert(r <= x) by (nonlinear_arith)
        requires
            0 <= r,
            r * r <= x,
    ;
}

} // verus!

//! The constant-product liquidity-pool engine: pool records keyed by a
//! canonically ordered token pair, liquidity-provider positions, and the five
//! public operations (create, add liquidity, swap, remove liquidity, and the
//! exchange-rate query).
//!
//! Token and account identities are plain integers here; resolving host
//! addresses to such identities, authenticating callers, moving the custodied
//! assets, and emitting notifications are the host adapter's work.

use vstd::prelude::*;

use crate::assoc::assoc_lookup;
use crate::assoc::assoc_unique;
use crate::assoc::lemma_assoc_lookup_index;
use crate::assoc::lemma_assoc_lookup_none;
use crate::assoc::lemma_assoc_lookup_some_index;
use crate::assoc::lemma_assoc_push;
use crate::assoc::lemma_assoc_update;

verus! {

/// The failure kinds of the pool engine.
#[derive(Copy, Clone, Debug, Eq, PartialEq, Structural)]
pub enum DexError {
    PoolAlreadyExists,
    PoolNotFound,
    InvalidAmount,
    InsufficientLiquidity,
    SlippageExceeded,
    InvalidTokenPair,
    Unauthorized,
}

/// An unordered pair of two distinct asset identifiers in canonical order:
/// the smaller identifier always occupies the `token_a` slot.
#[derive(Copy, Clone, Debug, Eq, PartialEq, Structural)]
pub struct PoolKey {
    pub token_a: u64,
    pub token_b: u64,
}

/// A pool record: the canonical token pair, the custodied reserves, and the
/// liquidity-provider shares outstanding.
#[derive(Copy, Clone, Debug, Eq, PartialEq, Structural)]
pub struct Pool {
    pub token_a: u64,
    pub token_b: u64,
    pub reserve_a: i128,
    pub reserve_b: i128,
    pub lp_supply: i128,
}

/// A liquidity position's key: the pool and the provider who owns the shares.
#[derive(Copy, Clone, Debug, Eq, PartialEq, Structural)]
pub struct LiquidityPositionKey {
    pub pool: PoolKey,
    pub provider: u64,
}

/// The canonical key of an unordered token pair.
pub open spec fn normalize_spec(a: u64, b: u64) -> PoolKey {
    if a < b {
        PoolKey { token_a: a, token_b: b }
    } else {
        PoolKey { token_a: b, token_b: a }
    }
}

/// Normalizes a token pair into its canonical pool key, so that both argument
/// orders address the same pool.
pub fn normalize_key(a: u64, b: u64) -> (r: PoolKey)
    ensures
        r == normalize_spec(a, b),
{
    if a < b {
        PoolKey { token_a: a, token_b: b }
    } else {
        PoolKey { token_a: b, token_b: a }
    }
}

/// Key normalization is symmetric: either argument order of a token pair
/// yields the same canonical pool key.
pub proof fn lemma_normalize_symmetric(a: u64, b: u64)
    ensures
        normalize_spec(a, b) == normalize_spec(b, a),
{
}

/// A pool record in a consistent state: non-negative book values, and shares
/// outstanding exactly when the pool holds reserves.
pub open spec fn pool_valid(p: Pool) -> bool {
    &&& 0 <= p.reserve_a
    &&& 0 <= p.reserve_b
    &&& 0 <= p.lp_supply
    &&& (p.lp_supply == 0 <==> (p.reserve_a == 0 && p.reserve_b == 0))
    &&& (p.lp_supply > 0 ==> p.reserve_a > 0 && p.reserve_b > 0)
}

/// The pool store: at most one record per canonical token pair.
pub struct PoolRegistry {
    entries: Vec<(PoolKey, Pool)>,
}

impl PoolRegistry {
    /// Every key is canonical and bound to a consistent record that carries
    /// the same token pair, and no key repeats.
    pub closed spec fn wf(&self) -> bool {
        &&& assoc_unique(self.entries@)
        &&& forall|i: int|
            0 <= i < self.entries@.len() ==> {
                let e = #[trigger] self.entries@[i];
                &&& e.0.token_a < e.0.token_b
                &&& e.1.token_a == e.0.token_a
                &&& e.1.token_b == e.0.token_b
                &&& pool_valid(e.1)
            }
    }

    /// The record stored under `key`, if any.
    pub closed spec fn spec_get(&self, key: PoolKey) -> Option<Pool> {
        assoc_lookup(self.entries@, key)
    }

    /// A stored record is consistent and carries its key's token pair.
    pub proof fn lemma_get_valid(&self, key: PoolKey)
        requires
            self.wf(),
            self.spec_get(key) is Some,
        ensures
            pool_valid(self.spec_get(key)->Some_0),
            self.spec_get(key)->Some_0.token_a == key.token_a,
            self.spec_get(key)->Some_0.token_b == key.token_b,
            key.token_a < key.token_b,
    {
        lemma_assoc_lookup_some_index(self.entries@, key);
    }

    /// An empty registry.
    pub fn new() -> (r: Self)
        ensures
            r.wf(),
            forall|key: PoolKey| #[trigger] r.spec_get(key) is None,
    {
        let r = PoolRegistry { entries: Vec::new() };
        proof {
            assert forall|key: PoolKey| #[trigger] r.spec_get(key) is None by {
                lemma_assoc_lookup_none(r.entries@, key);
            }
        }
        r
    }

    /// Looks a pool up by its canonical key.
    #[verifier::loop_isolation(false)]
    pub fn get(&self, key: PoolKey) -> (r: Option<Pool>)
        requires
            self.wf(),
        ensures
            r == self.spec_get(key),
    {
        let n = self.entries.len();
        let mut i: usize = 0;
        while i < n
            invariant
                self.wf(),
                n == self.entries@.len(),
                0 <= i <= n,
                forall|j: int| 0 <= j < i ==> (#[trigger] self.entries@[j]).0 != key,
            decreases n - i,
        {
            if self.entries[i].0 == key {
                proof {
                    lemma_assoc_lookup_index(self.entries@, i as int);
                }
                return Some(self.entries[i].1);
            }
            i += 1;
        }
        proof {
            lemma_assoc_lookup_none(self.entries@, key);
        }
        None
    }

    /// Whether a pool exists under `key`.
    pub fn contains(&self, key: PoolKey) -> (r: bool)
        requires
            self.wf(),
        ensures
            r == (self.spec_get(key) is Some),
    {
        self.get(key).is_some()
    }

    /// Binds `key` to `pool`, overwriting any previous record; every other
    /// binding is untouched.
    #[verifier::loop_isolation(false)]
    pub fn set(&mut self, key: PoolKey, pool: Pool)
        requires
            old(self).wf(),
            key.token_a < key.token_b,
            pool.token_a == key.token_a,
            pool.token_b == key.token_b,
            pool_valid(pool),
        ensures
            final(self).wf(),
            final(self).spec_get(key) == Some(pool),
            forall|k2: PoolKey|
                k2 != key ==> #[trigger] final(self).spec_get(k2) == old(self).spec_get(k2),
    {
        let n = self.entries.len();
        let mut i: usize = 0;
        while i < n
            invariant
                self.wf(),
                *self == *old(self),
                n == self.entries@.len(),
                0 <= i <= n,
                forall|j: int| 0 <= j < i ==> (#[trigger] self.entries@[j]).0 != key,
            decreases n - i,
        {
            if self.entries[i].0 == key {
                let ghost s = self.entries@;
                proof {
                    lemma_assoc_update(s, i as int, pool);
                }
                self.entries[i] = (key, pool);
                proof {
                    let s2 = self.entries@;
                    assert forall|j: int| 0 <= j < s2.len() implies {
                        let e = #[trigger] s2[j];
                        &&& e.0.token_a < e.0.token_b
                        &&& e.1.token_a == e.0.token_a
                        &&& e.1.token_b == e.0.token_b
                        &&& pool_valid(e.1)
                    } by {
                        if j != i as int {
                            assert(s2[j] == s[j]);
                        } else {
                            assert(s2[j] == (key, pool));
                        }
                    }
                }
                return;
            }
            i += 1;
        }
        proof {
            lemma_assoc_lookup_none(self.entries@, key);
            lemma_assoc_push(self.entries@, key, pool);
        }
        let ghost s = self.entries@;
        self.entries.push((key, pool));
        proof {
            let s2 = self.entries@;
            assert forall|j: int| 0 <= j < s2.len() implies {
                let e = #[trigger] s2[j];
                &&& e.0.token_a < e.0.token_b
                &&& e.1.token_a == e.0.token_a
                &&& e.1.token_b == e.0.token_b
                &&& pool_valid(e.1)
            } by {
                if j < s.len() {
                    assert(s2[j] == s[j]);
                } else {
                    assert(s2[j] == (key, pool));
                }
            }
        }
    }
}

/// The total of the LP shares that a store's positions attribute to `k`.
pub open spec fn pool_position_sum(s: Seq<(LiquidityPositionKey, i128)>, k: PoolKey) -> int
    decreases s.len(),
{
    if s.len() == 0 {
        0
    } else {
        (if s.last().0.pool == k {
            s.last().1 as int
        } else {
            0
        }) + pool_position_sum(s.drop_last(), k)
    }
}

/// Overwriting the position at index `i` moves every pool total by exactly
/// the change of that one position, and only for that position's pool.
proof fn lemma_position_sum_update(s: Seq<(LiquidityPositionKey, i128)>, i: int, v: i128)
    requires
        0 <= i < s.len(),
    ensures
        forall|k: PoolKey| #[trigger] pool_position_sum(s.update(i, (s[i].0, v)), k)
            == pool_position_sum(s, k) + (if s[i].0.pool == k {
                v - s[i].1
            } else {
                0
            }),
    decreases s.len(),
{
    let s2 = s.update(i, (s[i].0, v));
    if i == s.len() - 1 {
        assert(s2.last() == (s[i].0, v));
        assert(s2.drop_last() =~= s.drop_last());
        assert forall|k: PoolKey| #[trigger] pool_position_sum(s2, k) == pool_position_sum(s, k)
            + (if s[i].0.pool == k {
            v - s[i].1
        } else {
            0
        }) by {
            assert(pool_position_sum(s2, k) == (if s2.last().0.pool == k {
                s2.last().1 as int
            } else {
                0
            }) + pool_position_sum(s2.drop_last(), k));
        }
    } else {
        assert(s2.last() == s.last());
        assert(s2.drop_last() =~= s.drop_last().update(i, (s[i].0, v)));
        assert(s.drop_last()[i] == s[i]);
        lemma_position_sum_update(s.drop_last(), i, v);
        assert forall|k: PoolKey| #[trigger] pool_position_sum(s2, k) == pool_position_sum(s, k)
            + (if s[i].0.pool == k {
            v - s[i].1
        } else {
            0
        }) by {
            assert(pool_position_sum(s2, k) == (if s2.last().0.pool == k {
                s2.last().1 as int
            } else {
                0
            }) + pool_position_sum(s2.drop_last(), k));
            assert(pool_position_sum(s2.drop_last(), k) == pool_position_sum(s.drop_last(), k) + (
            if s[i].0.pool == k {
                v - s[i].1
            } else {
                0
            }));
        }
    }
}

/// Appending a position adds its shares to its pool's total and to no other.
proof fn lemma_position_sum_push(s: Seq<(LiquidityPositionKey, i128)>, key: LiquidityPositionKey, v: i128)
    ensures
        forall|k: PoolKey| #[trigger] pool_position_sum(s.push((key, v)), k) == pool_position_sum(
            s,
            k,
        ) + (if key.pool == k {
            v as int
        } else {
            0
        }),
{
    let s2 = s.push((key, v));
    assert(s2.drop_last() =~= s);
    assert(s2.last() == (key, v));
}

/// With every position non-negative, one position never exceeds its pool's
/// total.
proof fn lemma_position_le_sum(s: Seq<(LiquidityPositionKey, i128)>, key: LiquidityPositionKey)
    requires
        forall|i: int| 0 <= i < s.len() ==> (#[trigger] s[i]).1 >= 0,
        assoc_lookup(s, key) is Some,
    ensures
        assoc_lookup(s, key)->Some_0 <= pool_position_sum(s, key.pool),
    decreases s.len(),
{
    lemma_position_sum_nonneg(s.drop_last(), key.pool);
    if s.last().0 == key {
    } else {
        lemma_position_le_sum(s.drop_last(), key);
        assert(s.drop_last().len() == s.len() - 1);
        assert(s[s.len() - 1].1 >= 0);
    }
}

/// With every position non-negative, every pool total is non-negative.
proof fn lemma_position_sum_nonneg(s: Seq<(LiquidityPositionKey, i128)>, k: PoolKey)
    requires
        forall|i: int| 0 <= i < s.len() ==> (#[trigger] s[i]).1 >= 0,
    ensures
        pool_position_sum(s, k) >= 0,
    decreases s.len(),
{
    if s.len() > 0 {
        lemma_position_sum_nonneg(s.drop_last(), k);
        assert(s[s.len() - 1].1 >= 0);
    }
}

/// The liquidity ledger: LP shares owned, keyed by pool and provider. A
/// provider without a recorded position owns zero shares.
pub struct LiquidityLedger {
    entries: Vec<(LiquidityPositionKey, i128)>,
}

impl LiquidityLedger {
    /// Keys do not repeat and every recorded position is non-negative.
    pub closed spec fn wf(&self) -> bool {
        &&& assoc_unique(self.entries@)
        &&& forall|i: int| 0 <= i < self.entries@.len() ==> (#[trigger] self.entries@[i]).1 >= 0
    }

    /// The shares owned under `key`; zero when no position is recorded.
    pub closed spec fn spec_get(&self, key: LiquidityPositionKey) -> i128 {
        match assoc_lookup(self.entries@, key) {
            Some(v) => v,
            None => 0,
        }
    }

    /// The total shares attributed to pool `k` across all providers.
    pub closed spec fn spec_pool_total(&self, k: PoolKey) -> int {
        pool_position_sum(self.entries@, k)
    }

    /// A recorded position is bounded by its pool's total.
    pub proof fn lemma_position_bounds(&self, key: LiquidityPositionKey)
        requires
            self.wf(),
        ensures
            0 <= self.spec_get(key) <= self.spec_pool_total(key.pool),
    {
        lemma_position_sum_nonneg(self.entries@, key.pool);
        if assoc_lookup(self.entries@, key) is Some {
            lemma_assoc_lookup_some_index(self.entries@, key);
            lemma_position_le_sum(self.entries@, key);
        }
    }

    /// An empty ledger.
    pub fn new() -> (r: Self)
        ensures
            r.wf(),
            forall|key: LiquidityPositionKey| #[trigger] r.spec_get(key) == 0,
            forall|k: PoolKey| #[trigger] r.spec_pool_total(k) == 0,
    {
        let r = LiquidityLedger { entries: Vec::new() };
        proof {
            assert forall|key: LiquidityPositionKey| #[trigger] r.spec_get(key) == 0 by {
                lemma_assoc_lookup_none(r.entries@, key);
            }
        }
        r
    }

    /// The shares owned under `key`, zero when no position exists.
    #[verifier::loop_isolation(false)]
    pub fn get(&self, key: LiquidityPositionKey) -> (r: i128)
        requires
            self.wf(),
        ensures
            r == self.spec_get(key),
            r >= 0,
    {
        let n = self.entries.len();
        let mut i: usize = 0;
        while i < n
            invariant
                self.wf(),
                n == self.entries@.len(),
                0 <= i <= n,
                forall|j: int| 0 <= j < i ==> (#[trigger] self.entries@[j]).0 != key,
            decreases n - i,
        {
            if self.entries[i].0 == key {
                proof {
                    lemma_assoc_lookup_index(self.entries@, i as int);
                }
                return self.entries[i].1;
            }
            i += 1;
        }
        proof {
            lemma_assoc_lookup_none(self.entries@, key);
        }
        0
    }

    /// Records `amount` as the position under `key`: that position changes,
    /// every other stays, and `key`'s pool total moves by the difference.
    #[verifier::loop_isolation(false)]
    pub fn set(&mut self, key: LiquidityPositionKey, amount: i128)
        requires
            old(self).wf(),
            amount >= 0,
        ensures
            final(self).wf(),
            final(self).spec_get(key) == amount,
            forall|k2: LiquidityPositionKey|
                k2 != key ==> #[trigger] final(self).spec_get(k2) == old(self).spec_get(k2),
            final(self).spec_pool_total(key.pool) == old(self).spec_pool_total(key.pool) + amount
                - old(self).spec_get(key),
            forall|k: PoolKey|
                k != key.pool ==> #[trigger] final(self).spec_pool_total(k) == old(
                    self,
                ).spec_pool_total(k),
    {
        let n = self.entries.len();
        let mut i: usize = 0;
        while i < n
            invariant
                self.wf(),
                *self == *old(self),
                n == self.entries@.len(),
                0 <= i <= n,
                forall|j: int| 0 <= j < i ==> (#[trigger] self.entries@[j]).0 != key,
            decreases n - i,
        {
            if self.entries[i].0 == key {
                let ghost s = self.entries@;
                proof {
                    lemma_assoc_lookup_index(s, i as int);
                    lemma_assoc_update(s, i as int, amount);
                    lemma_position_sum_update(s, i as int, amount);
                }
                self.entries[i] = (key, amount);
                proof {
                    let s2 = self.entries@;
                    assert forall|j: int| 0 <= j < s2.len() implies (#[trigger] s2[j]).1 >= 0 by {
                        if j != i as int {
                            assert(s2[j] == s[j]);
                        } else {
                            assert(s2[j] == (key, amount));
                        }
                    }
                }
                return;
            }
            i += 1;
        }
        proof {
            lemma_assoc_lookup_none(self.entries@, key);
            lemma_assoc_push(self.entries@, key, amount);
            lemma_position_sum_push(self.entries@, key, amount);
        }
        let ghost s = self.entries@;
        self.entries.push((key, amount));
        proof {
            let s2 = self.entries@;
            assert forall|j: int| 0 <= j < s2.len() implies (#[trigger] s2[j]).1 >= 0 by {
                if j < s.len() {
                    assert(s2[j] == s[j]);
                } else {
                    assert(s2[j] == (key, amount));
                }
            }
        }
    }
}


/// The pool record after a deposit is booked: both reserves grow by the
/// deposited amounts and the supply by the minted shares.
pub open spec fn pool_after_deposit(p: Pool, amount_a: i128, amount_b: i128, minted: int) -> Pool {
    Pool {
        token_a: p.token_a,
        token_b: p.token_b,
        reserve_a: (p.reserve_a + amount_a) as i128,
        reserve_b: (p.reserve_b + amount_b) as i128,
        lp_supply: (p.lp_supply + minted) as i128,
    }
}

/// The shares minted for a deposit against the pool's current book.
pub open spec fn mint_for(p: Pool, amount_a: i128, amount_b: i128) -> int {
    crate::math::lp_mint_spec(
        amount_a as int,
        amount_b as int,
        p.reserve_a as int,
        p.reserve_b as int,
        p.lp_supply as int,
    )
}

/// Whether `(from_token, to_token)` matches the pool's pair in one of the two
/// directions.
pub open spec fn swap_dir_ok(p: Pool, from_token: u64, to_token: u64) -> bool {
    ||| from_token == p.token_a && to_token == p.token_b
    ||| from_token == p.token_b && to_token == p.token_a
}

/// The reserve of the asset being sold into the pool.
pub open spec fn reserve_in_of(p: Pool, from_token: u64) -> i128 {
    if from_token == p.token_a {
        p.reserve_a
    } else {
        p.reserve_b
    }
}

/// The reserve of the asset being bought out of the pool.
pub open spec fn reserve_out_of(p: Pool, from_token: u64) -> i128 {
    if from_token == p.token_a {
        p.reserve_b
    } else {
        p.reserve_a
    }
}

/// The swap output quoted against the pool's current book.
pub open spec fn quote_for(p: Pool, from_token: u64, amount_in: i128) -> int {
    crate::math::amount_out_spec(
        amount_in as int,
        reserve_in_of(p, from_token) as int,
        reserve_out_of(p, from_token) as int,
    )
}

/// The pool record after a swap is booked: the incoming reserve grows by the
/// full input (the fee stays in the pool), the outgoing reserve shrinks by
/// the output, and the supply is untouched.
pub open spec fn pool_after_swap(p: Pool, from_token: u64, amount_in: i128, amount_out: int) -> Pool {
    if from_token == p.token_a {
        Pool {
            token_a: p.token_a,
            token_b: p.token_b,
            reserve_a: (p.reserve_a + amount_in) as i128,
            reserve_b: (p.reserve_b - amount_out) as i128,
            lp_supply: p.lp_supply,
        }
    } else {
        Pool {
            token_a: p.token_a,
            token_b: p.token_b,
            reserve_a: (p.reserve_a - amount_out) as i128,
            reserve_b: (p.reserve_b + amount_in) as i128,
            lp_supply: p.lp_supply,
        }
    }
}

/// The share of a reserve paid out for burning `lp_amount` shares.
pub open spec fn withdraw_amount(lp_amount: int, reserve: int, supply: int) -> int {
    lp_amount * reserve / supply
}

/// The pool record after a withdrawal is booked.
pub open spec fn pool_after_withdraw(p: Pool, lp_amount: i128) -> Pool {
    Pool {
        token_a: p.token_a,
        token_b: p.token_b,
        reserve_a: (p.reserve_a - withdraw_amount(
            lp_amount as int,
            p.reserve_a as int,
            p.lp_supply as int,
        )) as i128,
        reserve_b: (p.reserve_b - withdraw_amount(
            lp_amount as int,
            p.reserve_b as int,
            p.lp_supply as int,
        )) as i128,
        lp_supply: (p.lp_supply - lp_amount) as i128,
    }
}

/// Round trip: burning exactly the shares a deposit minted, with no activity
/// in between, pays back at most the deposited amounts (exactly them when
/// minting lost nothing to rounding).
pub proof fn lemma_deposit_withdraw_round_trip(p: Pool, amount_a: i128, amount_b: i128)
    requires
        pool_valid(p),
        amount_a >= 1,
        amount_b >= 1,
        mint_for(p, amount_a, amount_b) >= 1,
    ensures
        ({
            let m = mint_for(p, amount_a, amount_b);
            &&& withdraw_amount(m, p.reserve_a + amount_a, p.lp_supply + m) <= amount_a
            &&& withdraw_amount(m, p.reserve_b + amount_b, p.lp_supply + m) <= amount_b
        }),
{
    let m = mint_for(p, amount_a, amount_b);
    let aa = amount_a as int;
    let ab = amount_b as int;
    let ra = p.reserve_a as int;
    let rb = p.reserve_b as int;
    let s = p.lp_supply as int;
    if s == 0 {
        vstd::arithmetic::div_mod::lemma_div_multiples_vanish(aa, m);
        vstd::arithmetic::div_mod::lemma_div_multiples_vanish(ab, m);
        assert(m * aa == m * aa && aa * m == m * aa) by (nonlinear_arith);
        assert(ab * m == m * ab) by (nonlinear_arith);
    } else {
        lemma_withdraw_side_le(m, aa, ra, s);
        lemma_withdraw_side_le(m, ab, rb, s);
    }
}

/// One side of the round trip: a mint bounded by the proportional
/// contribution pays back at most the deposit.
proof fn lemma_withdraw_side_le(m: int, amount: int, reserve: int, supply: int)
    requires
        1 <= m,
        1 <= amount,
        1 <= reserve,
        1 <= supply,
        m <= amount * supply / reserve,
    ensures
        withdraw_amount(m, reserve + amount, supply + m) <= amount,
{
    let x = amount * supply;
    vstd::arithmetic::div_mod::lemma_fundamental_div_mod(x, reserve);
    assert(m * reserve <= x) by (nonlinear_arith)
        requires
            m <= x / reserve,
            x == reserve * (x / reserve) + x % reserve,
            0 <= x % reserve,
            reserve >= 1,
    ;
    assert(m * (reserve + amount) <= amount * (supply + m)) by (nonlinear_arith)
        requires
            m * reserve <= x,
            x == amount * supply,
    ;
    let y = m * (reserve + amount);
    vstd::arithmetic::div_mod::lemma_fundamental_div_mod(y, supply + m);
    assert(y / (supply + m) <= amount) by (nonlinear_arith)
        requires
            y <= amount * (supply + m),
            y == (supply + m) * (y / (supply + m)) + y % (supply + m),
            0 <= y % (supply + m) < supply + m,
            supply + m >= 1,
    ;
}

/// The product of the two reserves of a pool: the quantity that swaps must
/// not decrease.
pub open spec fn pool_product(p: Pool) -> int {
    p.reserve_a * p.reserve_b
}

/// One swap step: the asset sold and the amount of it sold to the pool.
pub open spec fn swap_step_ok(p: Pool, step: (u64, i128)) -> bool {
    &&& step.0 == p.token_a || step.0 == p.token_b
    &&& step.1 >= 1
    &&& reserve_in_of(p, step.0) >= 1
    &&& reserve_out_of(p, step.0) >= 1
    &&& reserve_in_of(p, step.0) + step.1 <= i128::MAX
}

/// The pool after a sequence of swaps, applied first to last.
pub open spec fn apply_swaps(p: Pool, steps: Seq<(u64, i128)>) -> Pool
    decreases steps.len(),
{
    if steps.len() == 0 {
        p
    } else {
        let q = apply_swaps(p, steps.drop_last());
        pool_after_swap(q, steps.last().0, steps.last().1, quote_for(q, steps.last().0, steps.last().1))
    }
}

/// Every step of the sequence sells a positive amount of one of the pool's
/// two assets into a pool with both reserves stocked.
pub open spec fn swap_steps_ok(p: Pool, steps: Seq<(u64, i128)>) -> bool
    decreases steps.len(),
{
    if steps.len() == 0 {
        true
    } else {
        swap_steps_ok(p, steps.drop_last()) && swap_step_ok(
            apply_swaps(p, steps.drop_last()),
            steps.last(),
        )
    }
}

/// Across any sequence of swaps, with no deposits or withdrawals in between,
/// the product of the two reserves never decreases.
pub proof fn lemma_swap_sequence_product(p: Pool, steps: Seq<(u64, i128)>)
    requires
        swap_steps_ok(p, steps),
    ensures
        pool_product(apply_swaps(p, steps)) >= pool_product(p),
    decreases steps.len(),
{
    if steps.len() > 0 {
        lemma_swap_sequence_product(p, steps.drop_last());
        let q = apply_swaps(p, steps.drop_last());
        let from = steps.last().0;
        let ain = steps.last().1;
        let rin = reserve_in_of(q, from) as int;
        let rout = reserve_out_of(q, from) as int;
        let out = quote_for(q, from, ain);
        crate::math::lemma_swap_product_nondecreasing(ain as int, rin, rout);
        let np = pool_after_swap(q, from, ain, out);
        assert((rout - out) * (rin + ain) == (rin + ain) * (rout - out)) by (nonlinear_arith);
        if from == q.token_a {
            assert(np.reserve_a == rin + ain && np.reserve_b == rout - out);
        } else {
            assert(np.reserve_b == rin + ain && np.reserve_a == rout - out);
            assert(rin * rout == rout * rin) by (nonlinear_arith);
        }
        assert(pool_product(np) >= pool_product(q));
    }
}

/// The liquidity-pool exchange: its pool registry and liquidity ledger, and
/// the public operations that are the registry's and ledger's sole mutators.
/// Every operation validates everything before its first write, so an error
/// leaves the state exactly as it was.
pub struct LoyaltyDexContract {
    pools: PoolRegistry,
    balances: LiquidityLedger,
}

impl LoyaltyDexContract {
    /// Both stores are well formed and, pool by pool, the ledger's positions
    /// add up to exactly the shares the pool has outstanding.
    pub closed spec fn wf(&self) -> bool {
        &&& self.pools.wf()
        &&& self.balances.wf()
        &&& forall|k: PoolKey|
            #[trigger] self.balances.spec_pool_total(k) == (match self.pools.spec_get(k) {
                Some(p) => p.lp_supply as int,
                None => 0,
            })
    }

    /// The pool for the unordered pair `(token_a, token_b)`, if any.
    pub closed spec fn spec_pool(&self, token_a: u64, token_b: u64) -> Option<Pool> {
        self.pools.spec_get(normalize_spec(token_a, token_b))
    }

    /// The LP shares `provider` owns in the pool of `(token_a, token_b)`.
    pub closed spec fn spec_balance(&self, token_a: u64, token_b: u64, provider: u64) -> i128 {
        self.balances.spec_get(
            LiquidityPositionKey { pool: normalize_spec(token_a, token_b), provider },
        )
    }

    /// An existing pool's record is consistent.
    pub proof fn lemma_pool_valid(&self, token_a: u64, token_b: u64)
        requires
            self.wf(),
            self.spec_pool(token_a, token_b) is Some,
        ensures
            pool_valid(self.spec_pool(token_a, token_b)->Some_0),
            self.spec_pool(token_a, token_b)->Some_0.token_a == normalize_spec(
                token_a,
                token_b,
            ).token_a,
            self.spec_pool(token_a, token_b)->Some_0.token_b == normalize_spec(
                token_a,
                token_b,
            ).token_b,
    {
        self.pools.lemma_get_valid(normalize_spec(token_a, token_b));
    }

    /// A provider's position never exceeds the pool's outstanding shares.
    pub proof fn lemma_balance_bounds(&self, token_a: u64, token_b: u64, provider: u64)
        requires
            self.wf(),
        ensures
            0 <= self.spec_balance(token_a, token_b, provider),
            self.spec_pool(token_a, token_b) is Some ==> self.spec_balance(
                token_a,
                token_b,
                provider,
            ) <= self.spec_pool(token_a, token_b)->Some_0.lp_supply,
            self.spec_pool(token_a, token_b) is None ==> self.spec_balance(
                token_a,
                token_b,
                provider,
            ) == 0,
    {
        let key = normalize_spec(token_a, token_b);
        let lp_key = LiquidityPositionKey { pool: key, provider };
        self.balances.lemma_position_bounds(lp_key);
        if self.pools.spec_get(key) is None {
        }
    }

    /// A fresh exchange with no pools and no positions.
    pub fn new() -> (r: Self)
        ensures
            r.wf(),
            forall|a: u64, b: u64| #[trigger] r.spec_pool(a, b) is None,
            forall|a: u64, b: u64, q: u64| #[trigger] r.spec_balance(a, b, q) == 0,
    {
        LoyaltyDexContract { pools: PoolRegistry::new(), balances: LiquidityLedger::new() }
    }

    /// The pool for the unordered pair `(token_a, token_b)`, if any.
    pub fn get_pool(&self, token_a: u64, token_b: u64) -> (r: Option<Pool>)
        requires
            self.wf(),
        ensures
            r == self.spec_pool(token_a, token_b),
    {
        let key = normalize_key(token_a, token_b);
        self.pools.get(key)
    }

    /// The LP shares `provider` owns in the pool of `(token_a, token_b)`.
    pub fn get_lp_balance(&self, token_a: u64, token_b: u64, provider: u64) -> (r: i128)
        requires
            self.wf(),
        ensures
            r == self.spec_balance(token_a, token_b, provider),
            r >= 0,
    {
        let key = normalize_key(token_a, token_b);
        self.balances.get(LiquidityPositionKey { pool: key, provider })
    }

    /// Creates the pool of the unordered pair `(token_a, token_b)` with empty
    /// book values. Fails when the two tokens are equal, or when the pair
    /// already has a pool; an error changes nothing.
    pub fn create_pool(&mut self, token_a: u64, token_b: u64) -> (r: Result<(), DexError>)
        requires
            old(self).wf(),
        ensures
            final(self).wf(),
            token_a == token_b ==> r == Err::<(), DexError>(DexError::InvalidTokenPair)
                && *final(self) == *old(self),
            token_a != token_b && old(self).spec_pool(token_a, token_b) is Some ==> r == Err::<
                (),
                DexError,
            >(DexError::PoolAlreadyExists) && *final(self) == *old(self),
            token_a != token_b && old(self).spec_pool(token_a, token_b) is None ==> {
                &&& r == Ok::<(), DexError>(())
                &&& final(self).spec_pool(token_a, token_b) == Some(
                    (Pool {
                        token_a: normalize_spec(token_a, token_b).token_a,
                        token_b: normalize_spec(token_a, token_b).token_b,
                        reserve_a: 0,
                        reserve_b: 0,
                        lp_supply: 0,
                    }),
                )
                &&& forall|x: u64, y: u64|
                    normalize_spec(x, y) != normalize_spec(token_a, token_b)
                        ==> #[trigger] final(self).spec_pool(x, y) == old(self).spec_pool(x, y)
                &&& forall|x: u64, y: u64, q: u64|
                    #[trigger] final(self).spec_balance(x, y, q) == old(self).spec_balance(x, y, q)
            },
    {
        if token_a == token_b {
            return Err(DexError::InvalidTokenPair);
        }
        let key = normalize_key(token_a, token_b);
        if self.pools.contains(key) {
            return Err(DexError::PoolAlreadyExists);
        }
        let pool = Pool {
            token_a: key.token_a,
            token_b: key.token_b,
            reserve_a: 0,
            reserve_b: 0,
            lp_supply: 0,
        };
        self.pools.set(key, pool);
        Ok(())
    }

    /// The price of the pool's canonically first token in units of its
    /// second, as the unreduced fraction `reserve_b / reserve_a` of the
    /// canonical orientation, whatever order the two tokens are passed in. A
    /// pure read: fails when the pool is missing or either reserve is empty.
    pub fn get_exchange_rate(&self, token_a: u64, token_b: u64) -> (r: Result<
        (i128, i128),
        DexError,
    >)
        requires
            self.wf(),
        ensures
            match self.spec_pool(token_a, token_b) {
                None => r == Err::<(i128, i128), DexError>(DexError::PoolNotFound),
                Some(p) => {
                    if p.reserve_a <= 0 || p.reserve_b <= 0 {
                        r == Err::<(i128, i128), DexError>(DexError::InsufficientLiquidity)
                    } else {
                        r == Ok::<(i128, i128), DexError>((p.reserve_b, p.reserve_a))
                    }
                },
            },
    {
        let key = normalize_key(token_a, token_b);
        let pool = match self.pools.get(key) {
            None => {
                return Err(DexError::PoolNotFound);
            },
            Some(p) => p,
        };
        if pool.reserve_a <= 0 || pool.reserve_b <= 0 {
            return Err(DexError::InsufficientLiquidity);
        }
        Ok((pool.reserve_b, pool.reserve_a))
    }

    /// Machine bounds for a deposit against the current book: every product
    /// and every new book value must fit the 128-bit signed range.
    pub open spec fn add_liquidity_fits(
        &self,
        provider: u64,
        token_a: u64,
        token_b: u64,
        amount_a: i128,
        amount_b: i128,
    ) -> bool {
        match self.spec_pool(token_a, token_b) {
            None => true,
            Some(p) => amount_a > 0 && amount_b > 0 ==> {
                let minted = mint_for(p, amount_a, amount_b);
                &&& (p.lp_supply == 0 ==> amount_a * amount_b < i128::MAX)
                &&& (p.lp_supply > 0 ==> amount_a * p.lp_supply <= i128::MAX && amount_b
                    * p.lp_supply <= i128::MAX)
                &&& p.reserve_a + amount_a <= i128::MAX
                &&& p.reserve_b + amount_b <= i128::MAX
                &&& p.lp_supply + minted <= i128::MAX
                &&& self.spec_balance(token_a, token_b, provider) + minted <= i128::MAX
            },
        }
    }

    /// Books a deposit of `(amount_a, amount_b)` into the pool of the pair:
    /// mints the provider `lp_mint_amount` shares, grows both reserves by the
    /// deposited amounts, and grows the supply and the provider's position by
    /// the minted shares, all atomically. The amounts are booked positionally
    /// against the pool's canonical orientation: `amount_a` always goes to
    /// the reserve of the canonically smaller token, whatever order the two
    /// tokens are passed in. Fails on a non-positive amount, a
    /// missing pool, or a deposit too small to mint a share; an error changes
    /// nothing. Moving the deposited assets into custody is the external
    /// transfer collaborator's work, before this call.
    pub fn add_liquidity(
        &mut self,
        provider: u64,
        token_a: u64,
        token_b: u64,
        amount_a: i128,
        amount_b: i128,
    ) -> (r: Result<i128, DexError>)
        requires
            old(self).wf(),
            old(self).add_liquidity_fits(provider, token_a, token_b, amount_a, amount_b),
        ensures
            final(self).wf(),
            amount_a <= 0 || amount_b <= 0 ==> r == Err::<i128, DexError>(DexError::InvalidAmount)
                && *final(self) == *old(self),
            amount_a > 0 && amount_b > 0 ==> match old(self).spec_pool(token_a, token_b) {
                None => r == Err::<i128, DexError>(DexError::PoolNotFound) && *final(self) == *old(
                    self,
                ),
                Some(p) => {
                    let minted = mint_for(p, amount_a, amount_b);
                    if minted <= 0 {
                        r == Err::<i128, DexError>(DexError::InvalidAmount) && *final(self)
                            == *old(self)
                    } else {
                        &&& r == Ok::<i128, DexError>(minted as i128)
                        &&& final(self).spec_pool(token_a, token_b) == Some(
                            pool_after_deposit(p, amount_a, amount_b, minted),
                        )
                        &&& final(self).spec_balance(token_a, token_b, provider) == old(
                            self,
                        ).spec_balance(token_a, token_b, provider) + minted
                        &&& forall|x: u64, y: u64|
                            normalize_spec(x, y) != normalize_spec(token_a, token_b)
                                ==> #[trigger] final(self).spec_pool(x, y) == old(self).spec_pool(
                                x,
                                y,
                            )
                        &&& forall|x: u64, y: u64, q: u64|
                            !(normalize_spec(x, y) == normalize_spec(token_a, token_b) && q
                                == provider) ==> #[trigger] final(self).spec_balance(x, y, q)
                                == old(self).spec_balance(x, y, q)
                    }
                },
            },
    {
        match crate::math::checked_positive(amount_a) {
            Err(e) => {
                return Err(e);
            },
            Ok(()) => {},
        }
        match crate::math::checked_positive(amount_b) {
            Err(e) => {
                return Err(e);
            },
            Ok(()) => {},
        }
        let key = normalize_key(token_a, token_b);
        let mut pool = match self.pools.get(key) {
            None => {
                return Err(DexError::PoolNotFound);
            },
            Some(p) => p,
        };
        proof {
            self.pools.lemma_get_valid(key);
        }
        let mint_lp = crate::math::lp_mint_amount(
            amount_a,
            amount_b,
            pool.reserve_a,
            pool.reserve_b,
            pool.lp_supply,
        );
        if mint_lp <= 0 {
            return Err(DexError::InvalidAmount);
        }
        pool.reserve_a = pool.reserve_a + amount_a;
        pool.reserve_b = pool.reserve_b + amount_b;
        pool.lp_supply = pool.lp_supply + mint_lp;
        self.pools.set(key, pool);
        let lp_key = LiquidityPositionKey { pool: key, provider };
        let existing = self.balances.get(lp_key);
        self.balances.set(lp_key, existing + mint_lp);
        Ok(mint_lp)
    }

    /// Machine bounds for a swap against the current book.
    pub open spec fn swap_fits(&self, from_token: u64, to_token: u64, amount_in: i128) -> bool {
        match self.spec_pool(from_token, to_token) {
            None => true,
            Some(p) => {
                let rin = reserve_in_of(p, from_token);
                let rout = reserve_out_of(p, from_token);
                amount_in > 0 && swap_dir_ok(p, from_token, to_token) && rin > 0 && rout > 0 ==> {
                    &&& rin * 1000 + amount_in * 997 <= i128::MAX
                    &&& amount_in * 997 * rout <= i128::MAX
                    &&& rin + amount_in <= i128::MAX
                }
            },
        }
    }

    /// Sells `amount_in` of `from_token` to the pool for at least
    /// `min_amount_out` of `to_token`. The quoted output keeps the 0.3% fee
    /// in the pool, so a successful swap never decreases the product of the
    /// reserves and never drains a reserve. Fails on a non-positive amount or
    /// floor, a missing pool, a pair not matching the pool, an empty reserve,
    /// a quote of zero, or a quote below the caller's floor; an error changes
    /// nothing.
    pub fn swap(
        &mut self,
        trader: u64,
        from_token: u64,
        to_token: u64,
        amount_in: i128,
        min_amount_out: i128,
    ) -> (r: Result<i128, DexError>)
        requires
            old(self).wf(),
            old(self).swap_fits(from_token, to_token, amount_in),
        ensures
            final(self).wf(),
            amount_in <= 0 || min_amount_out <= 0 ==> r == Err::<i128, DexError>(
                DexError::InvalidAmount,
            ) && *final(self) == *old(self),
            amount_in > 0 && min_amount_out > 0 ==> match old(self).spec_pool(
                from_token,
                to_token,
            ) {
                None => r == Err::<i128, DexError>(DexError::PoolNotFound) && *final(self) == *old(
                    self,
                ),
                Some(p) => {
                    let out = quote_for(p, from_token, amount_in);
                    if !swap_dir_ok(p, from_token, to_token) {
                        r == Err::<i128, DexError>(DexError::InvalidTokenPair) && *final(self)
                            == *old(self)
                    } else if reserve_in_of(p, from_token) <= 0 || reserve_out_of(p, from_token)
                        <= 0 {
                        r == Err::<i128, DexError>(DexError::InsufficientLiquidity) && *final(self)
                            == *old(self)
                    } else if out <= 0 {
                        r == Err::<i128, DexError>(DexError::InvalidAmount) && *final(self)
                            == *old(self)
                    } else if out < min_amount_out {
                        r == Err::<i128, DexError>(DexError::SlippageExceeded) && *final(self)
                            == *old(self)
                    } else {
                        let np = pool_after_swap(p, from_token, amount_in, out);
                        &&& r == Ok::<i128, DexError>(out as i128)
                        &&& final(self).spec_pool(from_token, to_token) == Some(np)
                        &&& np.reserve_a * np.reserve_b >= p.reserve_a * p.reserve_b
                        &&& forall|x: u64, y: u64|
                            normalize_spec(x, y) != normalize_spec(from_token, to_token)
                                ==> #[trigger] final(self).spec_pool(x, y) == old(self).spec_pool(
                                x,
                                y,
                            )
                        &&& forall|x: u64, y: u64, q: u64|
                            #[trigger] final(self).spec_balance(x, y, q) == old(self).spec_balance(
                                x,
                                y,
                                q,
                            )
                    }
                },
            },
    {
        match crate::math::checked_positive(amount_in) {
            Err(e) => {
                return Err(e);
            },
            Ok(()) => {},
        }
        match crate::math::checked_positive(min_amount_out) {
            Err(e) => {
                return Err(e);
            },
            Ok(()) => {},
        }
        let key = normalize_key(from_token, to_token);
        let pool = match self.pools.get(key) {
            None => {
                return Err(DexError::PoolNotFound);
            },
            Some(p) => p,
        };
        proof {
            self.pools.lemma_get_valid(key);
        }
        let (reserve_in, reserve_out, is_a_to_b): (i128, i128, bool) = if from_token == pool.token_a
            && to_token == pool.token_b {
            (pool.reserve_a, pool.reserve_b, true)
        } else if from_token == pool.token_b && to_token == pool.token_a {
            (pool.reserve_b, pool.reserve_a, false)
        } else {
            return Err(DexError::InvalidTokenPair);
        };
        if reserve_in <= 0 || reserve_out <= 0 {
            return Err(DexError::InsufficientLiquidity);
        }
        let amount_out = crate::math::get_amount_out(amount_in, reserve_in, reserve_out);
        if amount_out <= 0 {
            return Err(DexError::InvalidAmount);
        }
        if amount_out < min_amount_out {
            return Err(DexError::SlippageExceeded);
        }
        proof {
            crate::math::lemma_swap_product_nondecreasing(
                amount_in as int,
                reserve_in as int,
                reserve_out as int,
            );
        }
        let mut new_pool = pool;
        if is_a_to_b {
            new_pool.reserve_a = pool.reserve_a + amount_in;
            new_pool.reserve_b = pool.reserve_b - amount_out;
        } else {
            new_pool.reserve_b = pool.reserve_b + amount_in;
            new_pool.reserve_a = pool.reserve_a - amount_out;
        }
        proof {
            let rin = reserve_in as int;
            let rout = reserve_out as int;
            let ain = amount_in as int;
            let out = amount_out as int;
            assert((rout - out) * (rin + ain) == (rin + ain) * (rout - out)) by (nonlinear_arith);
            if is_a_to_b {
                assert(new_pool.reserve_a == rin + ain && new_pool.reserve_b == rout - out);
            } else {
                assert(new_pool.reserve_b == rin + ain && new_pool.reserve_a == rout - out);
            }
            assert(new_pool.reserve_a * new_pool.reserve_b >= pool.reserve_a * pool.reserve_b);
        }
        if new_pool.reserve_a <= 0 || new_pool.reserve_b <= 0 {
            return Err(DexError::InsufficientLiquidity);
        }
        self.pools.set(key, new_pool);
        Ok(amount_out)
    }

    /// Machine bounds for a withdrawal against the current book.
    pub open spec fn remove_liquidity_fits(
        &self,
        token_a: u64,
        token_b: u64,
        lp_amount: i128,
    ) -> bool {
        match self.spec_pool(token_a, token_b) {
            None => true,
            Some(p) => lp_amount > 0 ==> lp_amount * p.reserve_a <= i128::MAX && lp_amount
                * p.reserve_b <= i128::MAX,
        }
    }

    /// Burns `lp_amount` of the provider's shares and pays out the
    /// proportional share of both reserves, rounded down. Fails on a
    /// non-positive amount, a missing pool, a pool with no shares
    /// outstanding, or a burn larger than the provider's position (the
    /// over-withdrawal is reported as `Unauthorized`); an error changes
    /// nothing. Paying the withdrawn assets out is the external transfer
    /// collaborator's work, after this call.
    pub fn remove_liquidity(
        &mut self,
        provider: u64,
        token_a: u64,
        token_b: u64,
        lp_amount: i128,
    ) -> (r: Result<(i128, i128), DexError>)
        requires
            old(self).wf(),
            old(self).remove_liquidity_fits(token_a, token_b, lp_amount),
        ensures
            final(self).wf(),
            lp_amount <= 0 ==> r == Err::<(i128, i128), DexError>(DexError::InvalidAmount)
                && *final(self) == *old(self),
            lp_amount > 0 ==> match old(self).spec_pool(token_a, token_b) {
                None => r == Err::<(i128, i128), DexError>(DexError::PoolNotFound) && *final(self)
                    == *old(self),
                Some(p) => {
                    if p.lp_supply <= 0 {
                        r == Err::<(i128, i128), DexError>(DexError::InsufficientLiquidity)
                            && *final(self) == *old(self)
                    } else if old(self).spec_balance(token_a, token_b, provider) < lp_amount {
                        r == Err::<(i128, i128), DexError>(DexError::Unauthorized) && *final(self)
                            == *old(self)
                    } else {
                        let out_a = withdraw_amount(
                            lp_amount as int,
                            p.reserve_a as int,
                            p.lp_supply as int,
                        );
                        let out_b = withdraw_amount(
                            lp_amount as int,
                            p.reserve_b as int,
                            p.lp_supply as int,
                        );
                        &&& r == Ok::<(i128, i128), DexError>((out_a as i128, out_b as i128))
                        &&& final(self).spec_pool(token_a, token_b) == Some(
                            pool_after_withdraw(p, lp_amount),
                        )
                        &&& final(self).spec_balance(token_a, token_b, provider) == old(
                            self,
                        ).spec_balance(token_a, token_b, provider) - lp_amount
                        &&& forall|x: u64, y: u64|
                            normalize_spec(x, y) != normalize_spec(token_a, token_b)
                                ==> #[trigger] final(self).spec_pool(x, y) == old(self).spec_pool(
                                x,
                                y,
                            )
                        &&& forall|x: u64, y: u64, q: u64|
                            !(normalize_spec(x, y) == normalize_spec(token_a, token_b) && q
                                == provider) ==> #[trigger] final(self).spec_balance(x, y, q)
                                == old(self).spec_balance(x, y, q)
                    }
                },
            },
    {
        match crate::math::checked_positive(lp_amount) {
            Err(e) => {
                return Err(e);
            },
            Ok(()) => {},
        }
        let key = normalize_key(token_a, token_b);
        let mut pool = match self.pools.get(key) {
            None => {
                return Err(DexError::PoolNotFound);
            },
            Some(p) => p,
        };
        proof {
            self.pools.lemma_get_valid(key);
        }
        if pool.lp_supply <= 0 {
            return Err(DexError::InsufficientLiquidity);
        }
        let lp_key = LiquidityPositionKey { pool: key, provider };
        let owned = self.balances.get(lp_key);
        if owned < lp_amount {
            return Err(DexError::Unauthorized);
        }
        proof {
            self.balances.lemma_position_bounds(lp_key);
            crate::math::lemma_proportional_share_bounds(
                lp_amount as int,
                pool.reserve_a as int,
                pool.lp_supply as int,
            );
            crate::math::lemma_proportional_share_bounds(
                lp_amount as int,
                pool.reserve_b as int,
                pool.lp_supply as int,
            );
        }
        let amount_a = lp_amount * pool.reserve_a / pool.lp_supply;
        let amount_b = lp_amount * pool.reserve_b / pool.lp_supply;
        pool.reserve_a = pool.reserve_a - amount_a;
        pool.reserve_b = pool.reserve_b - amount_b;
        pool.lp_supply = pool.lp_supply - lp_amount;
        self.pools.set(key, pool);
        self.balances.set(lp_key, owned - lp_amount);
        Ok((amount_a, amount_b))
    }
}

} // verus!

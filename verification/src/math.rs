use vstd::prelude::*;

use vstd::arithmetic::div_mod::{
    lemma_fundamental_div_mod, lemma_fundamental_div_mod_converse_div,
    lemma_fundamental_div_mod_converse_mod, lemma_hoist_over_denominator,
    lemma_multiply_divide_lt,
};
use vstd::arithmetic::mul::lemma_mul_strict_inequality;
use vstd::arithmetic::power2::{lemma2_to64, lemma_pow2_adds, lemma_pow2_unfold, pow2};

verus! {

/// 2^127, used to split a doubled 128-bit value into a carry and a low part.
pub const HALF128: u128 = 0x8000_0000_0000_0000_0000_0000_0000_0000;

/// 2^128 as a mathematical integer.
#[verifier::inline]
pub open spec fn pow128() -> int {
    u128::MAX as int + 1
}

/// The bits of 1_000_000, most significant first.
pub open spec fn mil_bits() -> Seq<bool> {
    seq![
        true,
        true,
        true,
        true,
        false,
        true,
        false,
        false,
        false,
        false,
        true,
        false,
        false,
        true,
        false,
        false,
        false,
        false,
        false,
        false,
    ]
}

/// The number the first `i` bits of 1_000_000 spell.
pub open spec fn mil_prefix(i: int) -> int
    decreases i,
{
    if i <= 0 {
        0
    } else {
        2 * mil_prefix(i - 1) + (if mil_bits()[i - 1] {
            1int
        } else {
            0int
        })
    }
}

proof fn lemma_mil_prefix_bound(i: int)
    requires
        0 <= i <= 20,
    ensures
        0 <= mil_prefix(i) < pow2(i as nat),
    decreases i,
{
    if i == 0 {
        assert(pow2(0) == 1) by {
            lemma2_to64();
        }
    } else {
        lemma_mil_prefix_bound(i - 1);
        assert(pow2(i as nat) == 2 * pow2((i - 1) as nat)) by {
            lemma_pow2_unfold(i as nat);
        }
    }
}

/// Build the bit list of 1_000_000 at run time.
fn mil_bits_vec() -> (r: Vec<bool>)
    ensures
        r@ == mil_bits(),
{
    let mut v: Vec<bool> = Vec::new();
    v.push(true);
    v.push(true);
    v.push(true);
    v.push(true);
    v.push(false);
    v.push(true);
    v.push(false);
    v.push(false);
    v.push(false);
    v.push(false);
    v.push(true);
    v.push(false);
    v.push(false);
    v.push(true);
    v.push(false);
    v.push(false);
    v.push(false);
    v.push(false);
    v.push(false);
    v.push(false);
    proof {
        assert(v@ =~= mil_bits());
    }
    v
}

/// Exact `rem * 1_000_000 / price` where `rem < price`, free of overflow for
/// every 128-bit input: the product is never materialized; the quotient is
/// accumulated bit by bit, keeping a remainder below `price`.
pub fn mul_mil_div(rem: u128, price: u128) -> (q: u64)
    requires
        price >= 1,
        rem < price,
    ensures
        q as int == (rem as int * 1_000_000) / (price as int),
        q < 1_000_000,
{
    let bits = mil_bits_vec();
    let mut q: u64 = 0;
    let mut acc: u128 = 0;
    let mut i: usize = 0;
    proof {
        assert(mil_prefix(0) == 0);
        assert(rem as int * 0 == 0) by (nonlinear_arith);
        assert(0int / (price as int) == 0 && 0int % (price as int) == 0) by {
            lemma_fundamental_div_mod_converse_div(0, price as int, 0, 0);
            lemma_fundamental_div_mod_converse_mod(0, price as int, 0, 0);
        }
    }
    while i < 20
        invariant
            price >= 1,
            rem < price,
            i <= 20,
            bits@ == mil_bits(),
            q as int == (rem as int * mil_prefix(i as int)) / (price as int),
            acc as int == (rem as int * mil_prefix(i as int)) % (price as int),
            acc < price,
            q as int <= mil_prefix(i as int),
        decreases 20 - i,
    {
        let ghost p_old = mil_prefix(i as int);
        let ghost p_new = mil_prefix(i as int + 1);
        let bit = bits[i];
        // v = 2*acc + (bit ? rem : 0), carried as hi * 2^128 + lo
        let mut hi: u8;
        let mut lo: u128;
        if acc >= HALF128 {
            hi = 1;
            lo = (acc - HALF128) * 2;
        } else {
            hi = 0;
            lo = acc * 2;
        }
        proof {
            assert(hi as int * pow128() + lo as int == 2 * acc as int);
        }
        let add: u128 = if bit {
            rem
        } else {
            0
        };
        let ghost v0 = 2 * (acc as int) + add as int;
        if lo > u128::MAX - add {
            hi = hi + 1;
            lo = lo - (u128::MAX - add) - 1;
        } else {
            lo = lo + add;
        }
        proof {
            assert(hi as int * pow128() + lo as int == v0);
            assert(v0 < 3 * price as int);
        }
        let mut k: u8 = 0;
        while hi > 0 || lo >= price
            invariant
                price >= 1,
                hi as int * pow128() + lo as int + k as int * price as int == v0,
                v0 < 3 * price as int,
                k as int * price as int <= v0,
                k <= 3,
            decreases hi as int * pow128() + lo as int,
        {
            let ghost k0 = k as int;
            let ghost val0 = hi as int * pow128() + lo as int;
            proof {
                assert(k < 3) by (nonlinear_arith)
                    requires
                        (k as int * price as int) < (3 * price as int),
                        price >= 1,
                        k >= 0,
                ;
                if hi > 0 {
                    assert(val0 >= pow128());
                }
            }
            if lo >= price {
                lo = lo - price;
            } else {
                hi = hi - 1;
                lo = lo + (u128::MAX - price) + 1;
            }
            k = k + 1;
            proof {
                assert(hi as int * pow128() + lo as int == val0 - price as int);
                assert((k0 + 1) * price as int == k0 * price as int + price as int)
                    by (nonlinear_arith);
                assert(k as int * price as int == k0 * price as int + price as int);
                assert(hi as int * pow128() + lo as int + k as int * price as int == v0);
                assert(k as int * price as int <= v0);
            }
        }
        // v0 == k*price + lo with 0 <= lo < price
        proof {
            assert(hi == 0);
            assert(v0 == k as int * price as int + lo as int);
            // rem * p_new == (2*q + k) * price + lo
            assert(p_new == 2 * p_old + (if bit {
                1int
            } else {
                0int
            }));
            assert(rem as int * p_new == 2 * (rem as int * p_old) + (if bit {
                rem as int
            } else {
                0int
            })) by (nonlinear_arith)
                requires
                    p_new == 2 * p_old + (if bit {
                        1int
                    } else {
                        0int
                    }),
            ;
            assert(rem as int * p_old == (q as int) * price as int + acc as int) by {
                lemma_fundamental_div_mod(rem as int * p_old, price as int);
                assert(rem as int * p_old == price as int * ((rem as int * p_old) / price as int)
                    + (rem as int * p_old) % price as int);
                assert(price as int * (q as int) == (q as int) * price as int) by (nonlinear_arith);
            }
            assert(rem as int * p_new == (2 * q as int + k as int) * price as int + lo as int)
                by (nonlinear_arith)
                requires
                    rem as int * p_new == 2 * (rem as int * p_old) + (if bit {
                        rem as int
                    } else {
                        0int
                    }),
                    rem as int * p_old == (q as int) * price as int + acc as int,
                    v0 == 2 * (acc as int) + (if bit {
                        rem as int
                    } else {
                        0int
                    }),
                    v0 == k as int * price as int + lo as int,
            ;
            // bounds for the next q
            lemma_mil_prefix_bound(i as int + 1);
            assert(pow2(21) == 0x200000) by {
                lemma2_to64();
                lemma_pow2_adds(20, 1);
            }
            assert(pow2(21) == pow2(20) * pow2(1)) by {
                lemma_pow2_adds(20, 1);
            }
            assert(pow2((i as int + 1) as nat) <= pow2(20)) by {
                if i as int + 1 < 20 {
                    vstd::arithmetic::power2::lemma_pow2_strictly_increases(
                        (i as int + 1) as nat,
                        20,
                    );
                }
            }
            assert(pow2(20) == 0x100000) by {
                lemma2_to64();
            }
        }
        let q2: u64 = 2 * q + (k as u64);
        proof {
            lemma_fundamental_div_mod_converse_div(
                rem as int * p_new,
                price as int,
                2 * q as int + k as int,
                lo as int,
            );
            lemma_fundamental_div_mod_converse_mod(
                rem as int * p_new,
                price as int,
                2 * q as int + k as int,
                lo as int,
            );
            // q2 <= p_new
            if p_new > 0 {
                assert(rem as int * p_new < price as int * p_new) by {
                    lemma_mul_strict_inequality(rem as int, price as int, p_new);
                    assert(rem as int * p_new == p_new * rem as int) by (nonlinear_arith);
                    assert(price as int * p_new == p_new * price as int) by (nonlinear_arith);
                }
                lemma_multiply_divide_lt(rem as int * p_new, price as int, p_new);
            } else {
                assert(p_new == 0);
                assert(rem as int * p_new == 0) by (nonlinear_arith)
                    requires
                        p_new == 0,
                ;
                lemma_fundamental_div_mod_converse_div(0, price as int, 0, 0);
            }
        }
        q = q2;
        acc = lo;
        i = i + 1;
    }
    proof {
        reveal_with_fuel(mil_prefix, 21);
        assert(mil_prefix(20) == 1_000_000);
        assert(rem as int * 1_000_000 < price as int * 1_000_000) by {
            lemma_mul_strict_inequality(rem as int, price as int, 1_000_000);
            assert(rem as int * 1_000_000 == 1_000_000 * rem as int) by (nonlinear_arith);
            assert(price as int * 1_000_000 == 1_000_000 * price as int) by (nonlinear_arith);
        }
        lemma_multiply_divide_lt(rem as int * 1_000_000, price as int, 1_000_000);
    }
    q
}

/// Floor of `9 * p / 10`: the lower bound a sealed block's gas price may
/// drift to.
pub open spec fn drift_lower(p: u128) -> int {
    (9 * p as int) / 10
}

/// Floor of `10 * p / 9` plus one: the upper bound a sealed block's gas
/// price may drift to.
pub open spec fn drift_upper(p: u128) -> int {
    (10 * p as int) / 9 + 1
}

pub open spec fn drift_ok(p: u128, new: u128) -> bool {
    drift_lower(p) <= new as int && new as int <= drift_upper(p)
}

/// Decide the gas-price drift bound without overflow: `9p/10` is computed
/// as `p - ceil(p/10)` and the upper comparison avoids forming `10p/9`.
pub fn gas_price_in_range(p: u128, new: u128) -> (r: bool)
    ensures
        r == drift_ok(p, new),
{
    let a = p / 10;
    let b = p % 10;
    let lower: u128 = if b > 0 {
        p - (a + 1)
    } else {
        p - a
    };
    proof {
        lemma_fundamental_div_mod(p as int, 10);
        // 9p/10 == 9a + (9b)/10
        assert(9 * p as int == 9 * b as int + (9 * a as int) * 10) by (nonlinear_arith)
            requires
                p as int == 10 * a as int + b as int,
        ;
        lemma_hoist_over_denominator(9 * b as int, 9 * a as int, 10);
        if b > 0 {
            lemma_fundamental_div_mod_converse_div(
                9 * b as int,
                10,
                b as int - 1,
                10 - b as int,
            );
            assert(drift_lower(p) == lower as int);
        } else {
            assert(9 * b as int == 0);
            assert(0int / 10 == 0) by {
                vstd::arithmetic::div_mod::lemma_div_of0(10);
            }
            assert(drift_lower(p) == lower as int);
        }
    }
    let c = p / 9;
    proof {
        lemma_hoist_over_denominator(p as int, p as int, 9);
        assert(drift_upper(p) == p as int + c as int + 1);
    }
    let lower_ok = new >= lower;
    let upper_ok = if new <= p {
        true
    } else {
        new - p <= c || new - p == c + 1
    };
    proof {
        if new > p {
            assert((new as int <= p as int + c as int + 1) == (new as int - p as int <= c as int
                + 1));
        }
    }
    lower_ok && upper_ok
}

} // verus!

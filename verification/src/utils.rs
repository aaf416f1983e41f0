use vstd::prelude::*;
use vstd::arithmetic::div_mod::{lemma_fundamental_div_mod, lemma_fundamental_div_mod_converse, lemma_mod_bound};

verus! {

/// The remainder that Rust's `%` computes on integers: it takes the sign of
/// the dividend and is smaller in magnitude than the divisor.
pub open spec fn trunc_rem(a: int, b: int) -> int {
    if a >= 0 {
        a % b
    } else {
        -((-a) % b)
    }
}

/// What `wrap` gives: the representative of `val` modulo `max` that lies in
/// `0..max` when `max` is positive; for a negative `max` the representative
/// lies in `max+1..=0` when `val` is negative and in `0..-max` otherwise.
pub open spec fn wrapped(val: int, max: int) -> int {
    if max > 0 || val >= 0 {
        val % max
    } else if val % max == 0 {
        0
    } else {
        val % max + max
    }
}

/// The remainder by a divisor does not depend on the divisor's sign.
proof fn lemma_mod_abs(x: int, d: int)
    requires
        d != 0,
    ensures
        x % d == x % (if d > 0 { d } else { -d }),
        0 <= x % d < (if d > 0 { d } else { -d }),
{
    let m = if d > 0 { d } else { -d };
    lemma_fundamental_div_mod(x, d);
    lemma_mod_bound(x, m);
    if d < 0 {
        let q = x / d;
        let r = x % d;
        assert(x == m * (-q) + r) by (nonlinear_arith)
            requires
                x == d * q + r,
                m == -d,
        {
        }
        assert(0 <= r < m) by {
            // Euclidean remainders are non-negative and below the divisor's magnitude
            lemma_fundamental_div_mod(x, m);
        }
        lemma_fundamental_div_mod_converse(x, m, -q, r);
    }
}

/// Wrapping a negative value: the remainder of `val` follows from that of `-val`.
proof fn lemma_wrap_negative(val: int, max: int, k: int)
    requires
        val < 0,
        max != 0,
        k == (-val) % max,
    ensures
        trunc_rem(-k + max, max) == wrapped(val, max),
{
    let m = if max > 0 { max } else { -max };
    lemma_mod_abs(-val, max);
    lemma_mod_abs(val, max);
    lemma_fundamental_div_mod(-val, m);
    let q = (-val) / m;
    assert(-val == m * q + k);
    if k == 0 {
        assert(val == (-q) * m + 0) by (nonlinear_arith)
            requires
                -val == m * q + k,
                k == 0,
        {
        }
        lemma_fundamental_div_mod_converse(val, m, -q, 0);
    } else {
        assert(val == (-q - 1) * m + (m - k)) by (nonlinear_arith)
            requires
                -val == m * q + k,
        {
        }
        lemma_fundamental_div_mod_converse(val, m, -q - 1, m - k);
    }
    if max > 0 {
        if k == 0 {
            lemma_fundamental_div_mod_converse(max, max, 1, 0);
        } else {
            lemma_fundamental_div_mod_converse(max - k, max, 0, max - k);
        }
    } else {
        lemma_mod_abs(k + m, max);
        lemma_fundamental_div_mod_converse(k + m, m, 1, k);
    }
}

/// Wraps `val` into the range of remainders of `max`.
pub fn wrap(val: i32, max: i32) -> (r: i32)
    requires
        max != 0,
        !(val == i32::MIN && max == -1),
        val < 0 && max < 0 ==> trunc_rem(val as int, max as int) + max >= i32::MIN,
    ensures
        r == wrapped(val as int, max as int),
        max > 0 ==> 0 <= r < max,
{
    proof {
        lemma_mod_abs(val as int, max as int);
    }
    if val < 0 {
        let a = val % max;
        proof {
            lemma_mod_abs(-val, max as int);
            lemma_wrap_negative(val as int, max as int, (-val) % (max as int));
        }
        let b = a + max;
        b % max
    } else {
        val % max
    }
}

} // verus!

verus! {

/// Division that rounds toward negative infinity (`floor(val / div)`).
pub fn floor_div(val: i32, div: i32) -> (q: i32)
    requires
        div > 0,
    ensures
        q == val as int / div as int,
{
    if val >= 0 {
        val / div
    } else {
        let n = -(val + 1);
        let t = n / div;
        proof {
            lemma_fundamental_div_mod(n as int, div as int);
            lemma_mod_bound(n as int, div as int);
            let ghost qq = n as int / div as int;
            let ghost rr = n as int % div as int;
            assert(val == (-qq - 1) * div + (div - rr - 1)) by (nonlinear_arith)
                requires
                    n == div * qq + rr,
                    n == -(val + 1),
            {
            }
            lemma_fundamental_div_mod_converse(val as int, div as int, -qq - 1, div - rr - 1);
        }
        -t - 1
    }
}

/// For a positive divisor, `floor_div` and `wrap` split a value into a
/// quotient and a remainder: `floor_div(v, d) * d + wrap(v, d) == v`.
pub proof fn lemma_floor_div_wrap(v: int, d: int)
    requires
        d > 0,
    ensures
        (v / d) * d + wrapped(v, d) == v,
        0 <= wrapped(v, d) < d,
{
    lemma_fundamental_div_mod(v, d);
    lemma_mod_bound(v, d);
    assert((v / d) * d == d * (v / d)) by (nonlinear_arith);
}

/// Carries the sign of `read` onto the magnitude of `write`.
pub fn to_sign_of(read: i32, write: i32) -> (r: i32)
    requires
        write != i32::MIN,
    ensures
        r == (if read < 0 { -abs(write as int) } else { abs(write as int) }),
{
    return if read < 0 {
        -(if write < 0 { -write } else { write })
    } else {
        if write < 0 { -write } else { write }
    };
}

/// Linear index of the cell `(x, y, z)` in a cube stored x-fastest, then y, then z.
pub fn coord_to_array_indice(x: u32, y: u32, z: u32, size: u32) -> (i: usize)
    requires
        x + y * size + z * size * size <= usize::MAX,
    ensures
        i == x + y * size + z * size * size,
{
    assert(y * size <= usize::MAX && z * size <= usize::MAX && z * size * size <= usize::MAX)
        by (nonlinear_arith)
        requires
            x + y * size + z * size * size <= usize::MAX,
            x >= 0, y >= 0, z >= 0, size >= 0,
    {
        if size > 0 {
            assert(z * size <= z * size * size);
        }
    }
    let yy: usize = y as usize * size as usize;
    let zz: usize = z as usize * size as usize * size as usize;
    x as usize + yy + zz
}

/// The magnitude of `v`.
pub open spec fn abs(v: int) -> int {
    if v < 0 { -v } else { v }
}

} // verus!

verus! {

/// `base` raised to `exp`.
pub fn pow_u32(base: u32, exp: u32) -> (r: u32)
    requires
        base >= 1,
        vstd::arithmetic::power::pow(base as int, exp as nat) <= u32::MAX,
    ensures
        r == vstd::arithmetic::power::pow(base as int, exp as nat),
{
    let mut r: u32 = 1;
    let mut i: u32 = 0;
    proof {
        vstd::arithmetic::power::lemma_pow0(base as int);
    }
    while i < exp
        invariant
            base >= 1,
            i <= exp,
            r == vstd::arithmetic::power::pow(base as int, i as nat),
            vstd::arithmetic::power::pow(base as int, exp as nat) <= u32::MAX,
        decreases exp - i,
    {
        proof {
            vstd::arithmetic::power::lemma_pow_increases(base as nat, (i + 1) as nat, exp as nat);
            reveal(vstd::arithmetic::power::pow);
            assert(vstd::arithmetic::power::pow(base as int, (i + 1) as nat)
                == base * vstd::arithmetic::power::pow(base as int, i as nat));
        }
        r = base * r;
        i = i + 1;
    }
    r
}

} // verus!

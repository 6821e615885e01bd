//! The laws of the product of CRC32 values: it is the product of a ring
//! in which the sum is the exclusive or, so it has a one and a zero,
//! takes its factors in any order and in any grouping, and turns sums of
//! exponents into products of powers.
use crate::par2::par2_crc32::combined;
use crate::par2::par2_crc32::power_from;
use crate::par2::par2_crc32::product;
use crate::par2::par2_crc32::product_from;
use crate::par2::par2_crc32::product_step;
use crate::par2::par2_crc32::x_pow_8n;
use vstd::prelude::*;

verus! {

/// `a` doubled modulo the polynomial.
pub open spec fn doubled(a: u32) -> u32 {
    product_step(a, 0, 0).0
}

proof fn lemma_doubled_sum(a: u32, c: u32)
    ensures
        doubled(a ^ c) == doubled(a) ^ doubled(c),
{
    assert((if (a ^ c) & 0x80000000 != 0 {
        ((a ^ c) << 1) ^ 0xEDB88320u32
    } else {
        (a ^ c) << 1
    }) == (if a & 0x80000000 != 0 {
        (a << 1) ^ 0xEDB88320u32
    } else {
        a << 1
    }) ^ (if c & 0x80000000 != 0 {
        (c << 1) ^ 0xEDB88320u32
    } else {
        c << 1
    })) by (bit_vector);
}

/// The sum that a product starts from is added to it.
proof fn lemma_sum_out(a: u32, b: u32, s: u32, n: nat)
    ensures
        product_from(a, b, s, n) == s ^ product_from(a, b, 0, n),
    decreases n,
{
    if n == 0 {
        assert(s == s ^ 0u32) by (bit_vector);
    } else {
        let next = product_step(a, b, s);
        let zero = product_step(a, b, 0);
        lemma_sum_out(next.0, next.1, next.2, (n - 1) as nat);
        lemma_sum_out(zero.0, zero.1, zero.2, (n - 1) as nat);
        let rest = product_from(next.0, next.1, 0, (n - 1) as nat);
        if b & 1 == 1 {
            assert(0u32 ^ a == a) by (bit_vector);
            assert((s ^ a) ^ rest == s ^ (a ^ rest)) by (bit_vector);
        }
    }
}

/// The product of a sum is the sum of the products: in the first
/// factor.
proof fn lemma_sum_first(a: u32, c: u32, b: u32, s: u32, t: u32, n: nat)
    ensures
        product_from(a ^ c, b, s ^ t, n) == product_from(a, b, s, n) ^ product_from(c, b, t, n),
    decreases n,
{
    if n > 0 {
        let x = product_step(a, b, s);
        let y = product_step(c, b, t);
        lemma_doubled_sum(a, c);
        lemma_sum_first(x.0, y.0, x.1, x.2, y.2, (n - 1) as nat);
        if b & 1 == 1 {
            assert((s ^ t) ^ (a ^ c) == (s ^ a) ^ (t ^ c)) by (bit_vector);
        }
    }
}

/// The product of a sum is the sum of the products: in the second
/// factor.
proof fn lemma_sum_second(a: u32, b: u32, d: u32, s: u32, t: u32, n: nat)
    ensures
        product_from(a, b ^ d, s ^ t, n) == product_from(a, b, s, n) ^ product_from(a, d, t, n),
    decreases n,
{
    if n > 0 {
        let x = product_step(a, b, s);
        let y = product_step(a, d, t);
        assert((b ^ d) >> 1 == (b >> 1) ^ (d >> 1)) by (bit_vector);
        assert(((b ^ d) & 1 == 1) == ((b & 1 == 1) != (d & 1 == 1))) by (bit_vector);
        assert((s ^ t) ^ a == (s ^ a) ^ t) by (bit_vector);
        assert((s ^ t) ^ a == s ^ (t ^ a)) by (bit_vector);
        assert(s ^ t == (s ^ a) ^ (t ^ a)) by (bit_vector);
        lemma_sum_second(x.0, x.1, y.1, x.2, y.2, (n - 1) as nat);
    }
}

/// Doubling a factor doubles the product.
proof fn lemma_doubled_first(a: u32, b: u32, s: u32, n: nat)
    ensures
        product_from(doubled(a), b, doubled(s), n) == doubled(product_from(a, b, s, n)),
    decreases n,
{
    if n > 0 {
        let x = product_step(a, b, s);
        lemma_doubled_sum(s, a);
        lemma_doubled_first(x.0, x.1, x.2, (n - 1) as nat);
    }
}

/// Once the second factor is used up, further bits add nothing.
proof fn lemma_used_up(a: u32, s: u32, n: nat)
    ensures
        product_from(a, 0, s, n) == s,
    decreases n,
{
    if n > 0 {
        assert(0u32 >> 1 == 0u32) by (bit_vector);
        assert(0u32 & 1 == 0u32) by (bit_vector);
        lemma_used_up(product_step(a, 0, s).0, s, (n - 1) as nat);
    }
}

/// A second factor of at most `n` bits is used up after `n` bits.
proof fn lemma_short_factor(a: u32, b: u32, s: u32, n: nat, more: nat)
    requires
        n <= 32,
        n < 32 ==> b >> (n as u32) == 0,
    ensures
        product_from(a, b, s, n + more) == product_from(a, b, s, n),
    decreases n,
{
    if n == 0 {
        assert(b >> 0u32 == b) by (bit_vector);
        lemma_used_up(a, s, more);
    } else {
        let x = product_step(a, b, s);
        let k = (n - 1) as u32;
        if n < 32 {
            let m = n as u32;
            assert(m < 32 && k == m - 1 && b >> m == 0 ==> (b >> 1) >> k == 0) by (bit_vector);
        } else {
            assert(k == 31 ==> (b >> 1) >> k == 0) by (bit_vector);
        }
        lemma_short_factor(x.0, x.1, x.2, (n - 1) as nat, more);
        assert(n + more - 1 == (n - 1) + more);
    }
}

/// The zero: a product with zero is zero.
pub proof fn lemma_product_zero(a: u32)
    ensures
        product(a, 0) == 0,
        product(0, a) == 0,
{
    lemma_used_up(a, 0, 32);
    lemma_zero_first(a, 32);
}

proof fn lemma_zero_first(b: u32, n: nat)
    ensures
        product_from(0, b, 0, n) == 0,
    decreases n,
{
    if n > 0 {
        assert(0u32 & 0x80000000 == 0u32) by (bit_vector);
        assert(0u32 << 1 == 0u32) by (bit_vector);
        assert(0u32 ^ 0u32 == 0u32) by (bit_vector);
        lemma_zero_first(b >> 1, (n - 1) as nat);
    }
}

/// The low `k` bits of `a`.
pub open spec fn low_bits(a: u32, k: nat) -> u32 {
    if k >= 32 {
        a
    } else {
        a & (((1u32 << (k as u32)) - 1) as u32)
    }
}

proof fn lemma_one_first(a: u32, k: nat)
    requires
        k <= 32,
    ensures
        k < 32 ==> product_from(1u32 << (k as u32), a >> (k as u32), low_bits(a, k), (32 - k) as nat)
            == a,
    decreases 32 - k,
{
    if k < 32 {
        let e = 1u32 << (k as u32);
        let b = a >> (k as u32);
        let s = low_bits(a, k);
        let x = product_step(e, b, s);
        let kk = k as u32;
        assert(kk < 32 ==> (a >> kk) >> 1 == (if kk == 31 {
            0u32
        } else {
            a >> ((kk + 1) as u32)
        })) by (bit_vector);
        assert(kk < 32 ==> ((if (a >> kk) & 1 == 1 {
            (a & (((1u32 << kk) - 1) as u32)) ^ (1u32 << kk)
        } else {
            a & (((1u32 << kk) - 1) as u32)
        }) == (if kk == 31 {
            a
        } else {
            a & (((1u32 << ((kk + 1) as u32)) - 1) as u32)
        }))) by (bit_vector);
        if k == 31 {
            assert(x.2 == a);
            lemma_used_up(x.0, a, 0);
            assert(x.1 == 0);
        } else {
            assert(kk < 31 ==> (1u32 << kk) & 0x80000000 == 0) by (bit_vector);
            assert(kk < 31 ==> (1u32 << kk) << 1 == 1u32 << ((kk + 1) as u32)) by (bit_vector);
            lemma_one_first(a, k + 1);
        }
    }
}

/// The one: a product with one is the other factor.
pub proof fn lemma_product_one(a: u32)
    ensures
        product(a, 1) == a,
        product(1, a) == a,
{
    let x = product_step(a, 1, 0);
    assert(1u32 & 1 == 1u32) by (bit_vector);
    assert(1u32 >> 1 == 0u32) by (bit_vector);
    assert(0u32 ^ a == a) by (bit_vector);
    lemma_used_up(x.0, a, 31);
    lemma_one_first(a, 0);
    assert(1u32 << 0u32 == 1u32) by (bit_vector);
    assert(a >> 0u32 == a) by (bit_vector);
    assert(a & (((1u32 << 0u32) - 1) as u32) == 0u32) by (bit_vector);
}

/// A second factor that is shifted up by one bit doubles the first.
proof fn lemma_shifted_second(a: u32, c: u32)
    requires
        c >> 31u32 == 0,
    ensures
        product(a, c << 1) == doubled(product(a, c)),
{
    let b = c << 1;
    assert(c >> 31u32 == 0 ==> (c << 1) & 1 == 0u32 && (c << 1) >> 1 == c) by (bit_vector);
    let x = product_step(a, b, 0);
    assert(x.0 == doubled(a));
    assert(x.1 == c && x.2 == 0);
    // the product of the doubled factor with `c`, whose highest bit is clear
    lemma_short_factor(doubled(a), c, 0, 31, 1);
    assert(doubled(0) == 0) by {
        assert(0u32 & 0x80000000 == 0u32) by (bit_vector);
        assert(0u32 << 1 == 0u32) by (bit_vector);
    }
    lemma_doubled_first(a, c, 0, 32);
}

/// A first factor that is doubled doubles the product.
proof fn lemma_doubled_product(a: u32, b: u32)
    ensures
        product(doubled(a), b) == doubled(product(a, b)),
{
    assert(doubled(0) == 0) by {
        assert(0u32 & 0x80000000 == 0u32) by (bit_vector);
        assert(0u32 << 1 == 0u32) by (bit_vector);
    }
    lemma_doubled_first(a, b, 0, 32);
}

/// The factors of a product may change places.
pub proof fn lemma_product_commutes(a: u32, b: u32)
    ensures
        product(a, b) == product(b, a),
    decreases b,
{
    if b == 0 {
        lemma_product_zero(a);
    } else if b == 1 {
        lemma_product_one(a);
    } else {
        let c = b >> 1;
        let low = b & 1;
        assert(b == ((b >> 1) << 1) ^ (b & 1)) by (bit_vector);
        assert((b >> 1) >> 31u32 == 0) by (bit_vector);
        assert(b > 1 ==> (b >> 1) < b) by (bit_vector);
        assert(b & 1 == 0 || b & 1 == 1) by (bit_vector);
        assert(0u32 ^ 0u32 == 0u32) by (bit_vector);
        // in the second place
        lemma_sum_second(a, c << 1, low, 0, 0, 32);
        lemma_shifted_second(a, c);
        // in the first place
        lemma_sum_first(c << 1, low, a, 0, 0, 32);
        assert((b >> 1) >> 31u32 == 0 ==> (b >> 1) & 0x80000000 == 0) by (bit_vector);
        assert(doubled(c) == c << 1);
        lemma_doubled_product(c, a);
        lemma_product_commutes(a, c);
        if low == 0 {
            lemma_product_zero(a);
        } else {
            lemma_product_one(a);
        }
    }
}

/// The factors of a product may be grouped at will.
pub proof fn lemma_product_associates(a: u32, b: u32, c: u32)
    ensures
        product(product(a, b), c) == product(a, product(b, c)),
    decreases c,
{
    if c == 0 {
        lemma_product_zero(product(a, b));
        lemma_product_zero(b);
        lemma_product_zero(a);
    } else if c == 1 {
        lemma_product_one(product(a, b));
        lemma_product_one(b);
    } else {
        let h = c >> 1;
        let low = c & 1;
        assert(c == ((c >> 1) << 1) ^ (c & 1)) by (bit_vector);
        assert((c >> 1) >> 31u32 == 0) by (bit_vector);
        assert(c > 1 ==> (c >> 1) < c) by (bit_vector);
        assert(c & 1 == 0 || c & 1 == 1) by (bit_vector);
        assert(0u32 ^ 0u32 == 0u32) by (bit_vector);
        let ab = product(a, b);
        // the left side
        lemma_sum_second(ab, h << 1, low, 0, 0, 32);
        lemma_shifted_second(ab, h);
        // the right side
        lemma_sum_second(b, h << 1, low, 0, 0, 32);
        lemma_shifted_second(b, h);
        lemma_sum_second(a, doubled(product(b, h)), product(b, low), 0, 0, 32);
        lemma_product_commutes(a, doubled(product(b, h)));
        lemma_doubled_product(product(b, h), a);
        lemma_product_commutes(product(b, h), a);
        lemma_product_associates(a, b, h);
        if low == 0 {
            lemma_product_zero(ab);
            lemma_product_zero(b);
            lemma_product_zero(a);
        } else {
            lemma_product_one(ab);
            lemma_product_one(b);
        }
    }
}

/// `s` to the power `e`: the product of `e` factors `s`.
pub open spec fn power(s: u32, e: nat) -> u32
    decreases e,
{
    if e == 0 {
        1
    } else {
        product(power(s, (e - 1) as nat), s)
    }
}

/// A sum of exponents is a product of powers.
pub proof fn lemma_power_sum(s: u32, i: nat, j: nat)
    ensures
        power(s, i + j) == product(power(s, i), power(s, j)),
    decreases j,
{
    if j == 0 {
        lemma_product_one(power(s, i));
    } else {
        lemma_power_sum(s, i, (j - 1) as nat);
        assert(i + j - 1 == i + (j - 1));
        lemma_product_associates(power(s, i), power(s, (j - 1) as nat), s);
    }
}

/// The powers of a square are the even powers.
pub proof fn lemma_power_of_square(s: u32, k: nat)
    ensures
        power(product(s, s), k) == power(s, 2 * k),
    decreases k,
{
    if k > 0 {
        lemma_power_of_square(s, (k - 1) as nat);
        lemma_product_one(s);
        assert(power(s, 0) == 1);
        assert(power(s, 1) == product(power(s, 0), s));
        assert(power(s, 2) == product(power(s, 1), s));
        lemma_power_sum(s, (2 * k - 2) as nat, 2);
    }
}

/// Squaring and multiplying gives the power: `result` times `square` to
/// the `exp`.
pub proof fn lemma_power_from(result: u32, square: u32, exp: nat)
    ensures
        power_from(result, square, exp) == product(result, power(square, exp)),
    decreases exp,
{
    if exp == 0 {
        lemma_product_one(result);
    } else {
        let k = exp / 2;
        let next = if exp % 2 == 1 {
            product(result, square)
        } else {
            result
        };
        lemma_power_from(next, product(square, square), k);
        lemma_power_of_square(square, k);
        if exp % 2 == 1 {
            assert(exp == 2 * k + 1);
            lemma_product_associates(result, square, power(square, 2 * k));
            lemma_product_commutes(square, power(square, 2 * k));
        } else {
            assert(exp == 2 * k);
        }
    }
}

/// What appending `n` bytes does to a checksum is the power `8 n` of
/// what appending one bit does.
pub proof fn lemma_x_pow_8n_is_a_power(n: u64)
    ensures
        x_pow_8n(n) == power(0x80000000, 8 * n as nat),
{
    lemma_power_from(1, 0x80000000, 8 * n as nat);
    lemma_product_one(power(0x80000000, 8 * n as nat));
}

/// Appending `n` bytes and then `m` is appending `n + m`.
pub proof fn lemma_x_pow_8n_sum(n: u64, m: u64)
    requires
        n + m <= u64::MAX,
    ensures
        x_pow_8n((n + m) as u64) == product(x_pow_8n(n), x_pow_8n(m)),
{
    lemma_x_pow_8n_is_a_power(n);
    lemma_x_pow_8n_is_a_power(m);
    lemma_x_pow_8n_is_a_power((n + m) as u64);
    lemma_power_sum(0x80000000, 8 * n as nat, 8 * m as nat);
    assert(8 * ((n + m) as u64) as nat == 8 * n as nat + 8 * m as nat);
}

/// Appending no byte changes nothing.
pub proof fn lemma_x_pow_8n_zero()
    ensures
        x_pow_8n(0) == 1,
{
}

/// Joining three parts gives the same checksum whichever two are joined
/// first, where the part in the middle is not empty.
pub proof fn lemma_combine_associates(a: u32, b: u32, c: u32, n: u64, m: u64)
    requires
        n > 0,
        n + m <= u64::MAX,
    ensures
        combined(combined(a, b, n), c, m) == combined(a, combined(b, c, m), (n + m) as u64),
{
    if m > 0 {
        let xn = x_pow_8n(n);
        let xm = x_pow_8n(m);
        lemma_x_pow_8n_sum(n, m);
        lemma_product_associates(a, xn, xm);
        assert(0u32 ^ 0u32 == 0u32) by (bit_vector);
        lemma_sum_first(product(a, xn), b, xm, 0, 0, 32);
        let p = product(product(a, xn), xm);
        let q = product(b, xm);
        assert((p ^ q) ^ c == p ^ (q ^ c)) by (bit_vector);
    }
}

} // verus!

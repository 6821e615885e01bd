//! Arithmetic on CRC32 values: products of polynomials over two elements
//! modulo the CRC32 polynomial, by which checksums of parts are joined.
use vstd::prelude::*;

verus! {

/// The CRC32 polynomial, bits reversed.
pub const CRC32_POLY: u32 = 0xEDB88320;

/// The state of the product after one more bit of `b`: the sum takes `a`
/// in where the lowest bit of `b` is set, `a` is doubled modulo the
/// polynomial, and `b` loses its lowest bit.
pub open spec fn product_step(a: u32, b: u32, sum: u32) -> (u32, u32, u32) {
    (
        if a & 0x80000000 != 0 {
            (a << 1) ^ CRC32_POLY
        } else {
            a << 1
        },
        b >> 1,
        if b & 1 == 1 {
            sum ^ a
        } else {
            sum
        },
    )
}

/// The sum after `n` more bits of `b`.
pub open spec fn product_from(a: u32, b: u32, sum: u32, n: nat) -> u32
    decreases n,
{
    if n == 0 {
        sum
    } else {
        let next = product_step(a, b, sum);
        product_from(next.0, next.1, next.2, (n - 1) as nat)
    }
}

/// The product of `a` and `b` modulo the polynomial.
pub open spec fn product(a: u32, b: u32) -> u32 {
    product_from(a, b, 0, 32)
}

/// The power that `square`, `exp` and `result` stand for: `result` times
/// `square` to the `exp`.
pub open spec fn power_from(result: u32, square: u32, exp: nat) -> u32
    decreases exp,
{
    if exp == 0 {
        result
    } else {
        power_from(
            if exp % 2 == 1 {
                product(result, square)
            } else {
                result
            },
            product(square, square),
            exp / 2,
        )
    }
}

/// `x` to the power `8 n` modulo the polynomial: what appending `n` bytes
/// does to a checksum.
pub open spec fn x_pow_8n(n: u64) -> u32 {
    power_from(1, 0x80000000, 8 * n as nat)
}

fn multiply_mod(a: u32, b: u32) -> (r: u32)
    ensures
        r == product(a, b),
{
    let mut x: u32 = a;
    let mut y: u32 = b;
    let mut result: u32 = 0;
    let mut i: u32 = 0;
    while i < 32
        invariant
            i <= 32,
            product_from(x, y, result, (32 - i) as nat) == product(a, b),
        decreases 32 - i,
    {
        if y & 1 == 1 {
            result = result ^ x;
        }
        let carry: u32 = x & 0x80000000;
        x = x << 1;
        if carry != 0 {
            x = x ^ CRC32_POLY;
        }
        y = y >> 1;
        i += 1;
    }
    result
}

/// Computes `x` to the power `8 n` modulo the polynomial.
pub fn xpow8n(n: u64) -> (r: u32)
    ensures
        r == x_pow_8n(n),
{
    let mut result: u32 = 1;
    let mut base: u32 = 0x80000000;
    let mut exp: u128 = n as u128 * 8;
    while exp > 0
        invariant
            power_from(result, base, exp as nat) == x_pow_8n(n),
        decreases exp,
    {
        if exp % 2 == 1 {
            result = multiply_mod(result, base);
        }
        base = multiply_mod(base, base);
        exp = exp / 2;
    }
    result
}

/// Multiplies two values modulo the polynomial.
pub fn multiply(a: u32, b: u32) -> (r: u32)
    ensures
        r == product(a, b),
{
    multiply_mod(a, b)
}

/// The checksum of two parts joined, from the checksum of each and the
/// length of the second.
pub open spec fn combined(crc1: u32, crc2: u32, len2: u64) -> u32 {
    if len2 == 0 {
        crc1
    } else {
        product(crc1, x_pow_8n(len2)) ^ crc2
    }
}

/// Joins the checksums of two parts.
pub fn combine(crc1: u32, crc2: u32, len2: u64) -> (r: u32)
    ensures
        r == combined(crc1, crc2, len2),
{
    if len2 == 0 {
        return crc1;
    }
    multiply(crc1, xpow8n(len2)) ^ crc2
}

/// The checksum of a part without the `unpad_len` zero bytes that were
/// counted behind it.
pub open spec fn unpadded(crc: u32, unpad_len: u64) -> u32 {
    product(crc, x_pow_8n(unpad_len))
}

/// Takes the zero bytes behind a part out of its checksum.
pub fn zero_unpad(crc: u32, unpad_len: u64) -> (r: u32)
    ensures
        r == unpadded(crc, unpad_len),
{
    multiply(crc, xpow8n(unpad_len))
}

} // verus!

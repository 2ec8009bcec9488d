//! Rendering a checksum as eight lowercase hex digits, and the exactness
//! of comparing against a caller-supplied expected value.

use vstd::prelude::*;

verus! {

/// The ASCII code of hex digit `n`: `0`-`9` then `a`-`f`.
pub open spec fn hex_digit(n: int) -> u8 {
    if n < 10 {
        (48 + n) as u8
    } else {
        (87 + n) as u8
    }
}

/// The eight ASCII bytes of `x` in lowercase hex, most significant
/// nibble first.
pub open spec fn hex8_bytes(x: u32) -> Seq<u8> {
    Seq::new(8, |i: int| hex_digit(((x >> ((28 - 4 * i) as u32)) & 0xf) as int))
}

/// Render a checksum as its eight lowercase hex digits.
pub fn u32_to_hex(x: u32) -> (r: Vec<u8>)
    ensures
        r@ == hex8_bytes(x),
{
    let mut r: Vec<u8> = Vec::new();
    let mut i: usize = 0;
    while i < 8
        invariant
            i <= 8,
            r@.len() == i,
            forall|j: int| 0 <= j < i ==> r@[j] == hex8_bytes(x)[j],
        decreases 8 - i,
    {
        let shift: u32 = 28 - 4 * (i as u32);
        let d: u32 = (x >> shift) & 0xf;
        proof {
            assert((x >> shift) & 0xf < 16) by (bit_vector);
        }
        let b: u8 = if d < 10 {
            48 + (d as u8)
        } else {
            87 + (d as u8)
        };
        r.push(b);
        i += 1;
    }
    proof {
        assert(r@ =~= hex8_bytes(x));
    }
    r
}

/// Matching renderings match nibble for nibble.
proof fn lemma_nibble_eq(a: u32, b: u32, i: int)
    requires
        0 <= i < 8,
        hex8_bytes(a) == hex8_bytes(b),
    ensures
        (a >> ((28 - 4 * i) as u32)) & 0xf == (b >> ((28 - 4 * i) as u32)) & 0xf,
{
    let sh = (28 - 4 * i) as u32;
    assert((a >> sh) & 0xf < 16) by (bit_vector);
    assert((b >> sh) & 0xf < 16) by (bit_vector);
    assert(hex8_bytes(a)[i] == hex_digit(((a >> sh) & 0xf) as int));
    assert(hex8_bytes(b)[i] == hex_digit(((b >> sh) & 0xf) as int));
    assert(hex8_bytes(a)[i] == hex8_bytes(b)[i]);
    lemma_hex_digit_injective(((a >> sh) & 0xf) as int, ((b >> sh) & 0xf) as int);
}

/// Two hex digits agree only on the same nibble value.
proof fn lemma_hex_digit_injective(m: int, n: int)
    requires
        0 <= m < 16,
        0 <= n < 16,
        hex_digit(m) == hex_digit(n),
    ensures
        m == n,
{
}

/// The hex rendering is lossless: two checksums render to the same
/// digits exactly when they are equal, so a reported rendering stands
/// for its checksum without ambiguity.
pub proof fn lemma_hex8_exact(a: u32, b: u32)
    ensures
        (hex8_bytes(a) == hex8_bytes(b)) <==> a == b,
{
    if hex8_bytes(a) == hex8_bytes(b) {
        lemma_nibble_eq(a, b, 0);
        lemma_nibble_eq(a, b, 1);
        lemma_nibble_eq(a, b, 2);
        lemma_nibble_eq(a, b, 3);
        lemma_nibble_eq(a, b, 4);
        lemma_nibble_eq(a, b, 5);
        lemma_nibble_eq(a, b, 6);
        lemma_nibble_eq(a, b, 7);
        assert(a == b) by (bit_vector)
            requires
                ((a >> 28u32) & 0xf) == ((b >> 28u32) & 0xf),
                ((a >> 24u32) & 0xf) == ((b >> 24u32) & 0xf),
                ((a >> 20u32) & 0xf) == ((b >> 20u32) & 0xf),
                ((a >> 16u32) & 0xf) == ((b >> 16u32) & 0xf),
                ((a >> 12u32) & 0xf) == ((b >> 12u32) & 0xf),
                ((a >> 8u32) & 0xf) == ((b >> 8u32) & 0xf),
                ((a >> 4u32) & 0xf) == ((b >> 4u32) & 0xf),
                ((a >> 0u32) & 0xf) == ((b >> 0u32) & 0xf),
        ;
    }
}

} // verus!

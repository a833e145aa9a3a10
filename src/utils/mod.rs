use vstd::prelude::*;

pub mod decrypt;
pub mod encrypt;
pub mod inverse;

verus! {

/// The AES forward substitution table.
pub const SBOX: [u8; 256] = [
    0x63, 0x7c, 0x77, 0x7b, 0xf2, 0x6b, 0x6f, 0xc5, 0x30, 0x01, 0x67, 0x2b, 0xfe, 0xd7, 0xab, 0x76,
    0xca, 0x82, 0xc9, 0x7d, 0xfa, 0x59, 0x47, 0xf0, 0xad, 0xd4, 0xa2, 0xaf, 0x9c, 0xa4, 0x72, 0xc0,
    0xb7, 0xfd, 0x93, 0x26, 0x36, 0x3f, 0xf7, 0xcc, 0x34, 0xa5, 0xe5, 0xf1, 0x71, 0xd8, 0x31, 0x15,
    0x04, 0xc7, 0x23, 0xc3, 0x18, 0x96, 0x05, 0x9a, 0x07, 0x12, 0x80, 0xe2, 0xeb, 0x27, 0xb2, 0x75,
    0x09, 0x83, 0x2c, 0x1a, 0x1b, 0x6e, 0x5a, 0xa0, 0x52, 0x3b, 0xd6, 0xb3, 0x29, 0xe3, 0x2f, 0x84,
    0x53, 0xd1, 0x00, 0xed, 0x20, 0xfc, 0xb1, 0x5b, 0x6a, 0xcb, 0xbe, 0x39, 0x4a, 0x4c, 0x58, 0xcf,
    0xd0, 0xef, 0xaa, 0xfb, 0x43, 0x4d, 0x33, 0x85, 0x45, 0xf9, 0x02, 0x7f, 0x50, 0x3c, 0x9f, 0xa8,
    0x51, 0xa3, 0x40, 0x8f, 0x92, 0x9d, 0x38, 0xf5, 0xbc, 0xb6, 0xda, 0x21, 0x10, 0xff, 0xf3, 0xd2,
    0xcd, 0x0c, 0x13, 0xec, 0x5f, 0x97, 0x44, 0x17, 0xc4, 0xa7, 0x7e, 0x3d, 0x64, 0x5d, 0x19, 0x73,
    0x60, 0x81, 0x4f, 0xdc, 0x22, 0x2a, 0x90, 0x88, 0x46, 0xee, 0xb8, 0x14, 0xde, 0x5e, 0x0b, 0xdb,
    0xe0, 0x32, 0x3a, 0x0a, 0x49, 0x06, 0x24, 0x5c, 0xc2, 0xd3, 0xac, 0x62, 0x91, 0x95, 0xe4, 0x79,
    0xe7, 0xc8, 0x37, 0x6d, 0x8d, 0xd5, 0x4e, 0xa9, 0x6c, 0x56, 0xf4, 0xea, 0x65, 0x7a, 0xae, 0x08,
    0xba, 0x78, 0x25, 0x2e, 0x1c, 0xa6, 0xb4, 0xc6, 0xe8, 0xdd, 0x74, 0x1f, 0x4b, 0xbd, 0x8b, 0x8a,
    0x70, 0x3e, 0xb5, 0x66, 0x48, 0x03, 0xf6, 0x0e, 0x61, 0x35, 0x57, 0xb9, 0x86, 0xc1, 0x1d, 0x9e,
    0xe1, 0xf8, 0x98, 0x11, 0x69, 0xd9, 0x8e, 0x94, 0x9b, 0x1e, 0x87, 0xe9, 0xce, 0x55, 0x28, 0xdf,
    0x8c, 0xa1, 0x89, 0x0d, 0xbf, 0xe6, 0x42, 0x68, 0x41, 0x99, 0x2d, 0x0f, 0xb0, 0x54, 0xbb, 0x16,
];

/// Round constants consumed by the key expansion, one per derived round key.
pub const RCON: [u8; 10] = [0x01, 0x02, 0x04, 0x08, 0x10, 0x20, 0x40, 0x80, 0x1b, 0x36];

/// Multiplication by `x` in GF(2^8), reduced by `x^8 + x^4 + x^3 + x + 1`.
pub open spec fn xtime(a: u8) -> u8 {
    if a & 0x80 != 0 {
        ((a << 1u8) ^ 0x1bu8) as u8
    } else {
        (a << 1u8) as u8
    }
}

/// `a` if bit `k` of `b` is set, else zero.
pub open spec fn bit_term(a: u8, b: u8, k: u8) -> u8 {
    if (b >> k) & 1u8 == 1u8 {
        a
    } else {
        0u8
    }
}

/// The product of `a` and `b` in GF(2^8): the sum of `a * x^k` over the set bits `k` of `b`.
/// Opaque to the default solver, which only needs it as a name; the bit-vector proofs in
/// this module read its body.
#[verifier::opaque]
pub open spec fn gf_mul(a: u8, b: u8) -> u8 {
    let a1 = xtime(a);
    let a2 = xtime(a1);
    let a3 = xtime(a2);
    let a4 = xtime(a3);
    let a5 = xtime(a4);
    let a6 = xtime(a5);
    let a7 = xtime(a6);
    bit_term(a, b, 0) ^ bit_term(a1, b, 1) ^ bit_term(a2, b, 2) ^ bit_term(a3, b, 3) ^ bit_term(a4, b, 4)
        ^ bit_term(a5, b, 5) ^ bit_term(a6, b, 6) ^ bit_term(a7, b, 7)
}

/// One step of shift-and-add multiplication: the low bit of `b` contributes `a`, the rest
/// is the product of `x * a` and `b >> 1`.
proof fn lemma_gf_mul_step(a: u8, b: u8)
    ensures
        gf_mul(a, b) == bit_term(a, b, 0) ^ gf_mul(xtime(a), b >> 1u8),
{
    assert(gf_mul(a, b) == bit_term(a, b, 0) ^ gf_mul(xtime(a), b >> 1u8)) by (bit_vector);
}

/// Multiplies two bytes in GF(2^8) under the AES polynomial.
pub fn gf_multiply(a: u8, b: u8) -> (r: u8)
    ensures
        r == gf_mul(a, b),
{
    let ghost product = gf_mul(a, b);
    let mut result: u8 = 0;
    let mut a = a;
    let mut b = b;
    assert(0u8 ^ gf_mul(a, b) == gf_mul(a, b)) by (bit_vector);
    while b != 0
        invariant
            result ^ gf_mul(a, b) == product,
        decreases b,
    {
        proof {
            lemma_gf_mul_step(a, b);
        }
        let ghost (r0, a0, b0) = (result, a, b);
        if (b & 1) != 0 {
            result ^= a;
        }
        let high_bit_set = (a & 0x80) != 0;
        a = a << 1;
        if high_bit_set {
            a ^= 0x1b;
        }
        b = b >> 1;
        proof {
            let rest = gf_mul(a, b);
            assert(result == r0 ^ bit_term(a0, b0, 0) && a == xtime(a0) && b == b0 >> 1u8 && b < b0)
                by (bit_vector)
                requires
                    b0 != 0,
                    a == (if a0 & 0x80 != 0 { ((a0 << 1u8) ^ 0x1bu8) as u8 } else { (a0 << 1u8) as u8 }),
                    b == b0 >> 1u8,
                    result == (if b0 & 1 != 0 { r0 ^ a0 } else { r0 }),
            ;
            assert(r0 ^ (bit_term(a0, b0, 0) ^ rest) == (r0 ^ bit_term(a0, b0, 0)) ^ rest) by (bit_vector);
        }
    }
    assert(result ^ gf_mul(a, 0) == result) by (bit_vector);
    result
}

/// Multiplication by a constant distributes over XOR.
pub(crate) proof fn lemma_gf_mul_xor(k: u8, x: u8, y: u8)
    ensures
        gf_mul(k, x ^ y) == gf_mul(k, x) ^ gf_mul(k, y),
{
    assert(gf_mul(k, x ^ y) == gf_mul(k, x) ^ gf_mul(k, y)) by (bit_vector);
}

pub(crate) proof fn lemma_gf_mul_xor4(k: u8, p: u8, q: u8, r: u8, s: u8)
    ensures
        gf_mul(k, p ^ q ^ r ^ s) == gf_mul(k, p) ^ gf_mul(k, q) ^ gf_mul(k, r) ^ gf_mul(k, s),
{
    lemma_gf_mul_xor(k, p ^ q ^ r, s);
    lemma_gf_mul_xor(k, p ^ q, r);
    lemma_gf_mul_xor(k, p, q);
}

/// The inverse mixing matrix times the forward one is the identity, one coefficient
/// column at a time.
pub(crate) proof fn lemma_mix_coefficients(x: u8)
    ensures
        gf_mul(0x0e, gf_mul(2, x)) ^ gf_mul(0x0b, x) ^ gf_mul(0x0d, x) ^ gf_mul(0x09, gf_mul(3, x)) == x,
        gf_mul(0x0e, gf_mul(3, x)) ^ gf_mul(0x0b, gf_mul(2, x)) ^ gf_mul(0x0d, x) ^ gf_mul(0x09, x) == 0,
        gf_mul(0x0e, x) ^ gf_mul(0x0b, gf_mul(3, x)) ^ gf_mul(0x0d, gf_mul(2, x)) ^ gf_mul(0x09, x) == 0,
        gf_mul(0x0e, x) ^ gf_mul(0x0b, x) ^ gf_mul(0x0d, gf_mul(3, x)) ^ gf_mul(0x09, gf_mul(2, x)) == 0,
{
    assert(gf_mul(0x0e, gf_mul(2, x)) ^ gf_mul(0x0b, x) ^ gf_mul(0x0d, x) ^ gf_mul(0x09, gf_mul(3, x)) == x) by (bit_vector);
    assert(gf_mul(0x0e, gf_mul(3, x)) ^ gf_mul(0x0b, gf_mul(2, x)) ^ gf_mul(0x0d, x) ^ gf_mul(0x09, x) == 0) by (bit_vector);
    assert(gf_mul(0x0e, x) ^ gf_mul(0x0b, gf_mul(3, x)) ^ gf_mul(0x0d, gf_mul(2, x)) ^ gf_mul(0x09, x) == 0) by (bit_vector);
    assert(gf_mul(0x0e, x) ^ gf_mul(0x0b, x) ^ gf_mul(0x0d, gf_mul(3, x)) ^ gf_mul(0x09, gf_mul(2, x)) == 0) by (bit_vector);
}

/// The forward mixing matrix times the inverse one is the identity, one coefficient
/// column at a time.
pub(crate) proof fn lemma_mix_coefficients_rev(x: u8)
    ensures
        gf_mul(2, gf_mul(0x0e, x)) ^ gf_mul(3, gf_mul(0x09, x)) ^ gf_mul(0x0d, x) ^ gf_mul(0x0b, x) == x,
        gf_mul(2, gf_mul(0x0b, x)) ^ gf_mul(3, gf_mul(0x0e, x)) ^ gf_mul(0x09, x) ^ gf_mul(0x0d, x) == 0,
        gf_mul(2, gf_mul(0x0d, x)) ^ gf_mul(3, gf_mul(0x0b, x)) ^ gf_mul(0x0e, x) ^ gf_mul(0x09, x) == 0,
        gf_mul(2, gf_mul(0x09, x)) ^ gf_mul(3, gf_mul(0x0d, x)) ^ gf_mul(0x0b, x) ^ gf_mul(0x0e, x) == 0,
{
    assert(gf_mul(2, gf_mul(0x0e, x)) ^ gf_mul(3, gf_mul(0x09, x)) ^ gf_mul(0x0d, x) ^ gf_mul(0x0b, x) == x) by (bit_vector);
    assert(gf_mul(2, gf_mul(0x0b, x)) ^ gf_mul(3, gf_mul(0x0e, x)) ^ gf_mul(0x09, x) ^ gf_mul(0x0d, x) == 0) by (bit_vector);
    assert(gf_mul(2, gf_mul(0x0d, x)) ^ gf_mul(3, gf_mul(0x0b, x)) ^ gf_mul(0x0e, x) ^ gf_mul(0x09, x) == 0) by (bit_vector);
    assert(gf_mul(2, gf_mul(0x09, x)) ^ gf_mul(3, gf_mul(0x0d, x)) ^ gf_mul(0x0b, x) ^ gf_mul(0x0e, x) == 0) by (bit_vector);
}

/// Every byte of `s` replaced by its entry in `table`.
pub open spec fn sub_bytes_spec(s: Seq<u8>, table: Seq<u8>) -> Seq<u8> {
    s.map_values(|x: u8| table[x as int])
}

/// Replaces every byte of the block by its entry in the substitution table.
pub fn sub_bytes(block: &mut [u8; 16], sbox: &[u8; 256])
    ensures
        final(block)@ == sub_bytes_spec(old(block)@, sbox@),
{
    let ghost start = block@;
    let mut i: u8 = 0;
    while i < 16
        invariant
            0 <= i <= 16,
            block@.len() == 16,
            forall|j: int| 0 <= j < i ==> block@[j] == sbox@[start[j] as int],
            forall|j: int| i <= j < 16 ==> block@[j] == start[j],
        decreases 16 - i,
    {
        block[i as usize] = sbox[block[i as usize] as usize];
        i += 1;
    }
    assert(block@ =~= sub_bytes_spec(start, sbox@));
}

/// The byte-wise XOR of two blocks.
pub open spec fn xor_block(s: Seq<u8>, k: Seq<u8>) -> Seq<u8> {
    Seq::new(s.len(), |i: int| s[i] ^ k[i])
}

/// XORs the round key into the block, byte for byte.
pub fn add_round_key(block: &mut [u8; 16], round_key: &[u8; 16])
    ensures
        final(block)@ == xor_block(old(block)@, round_key@),
{
    let ghost start = block@;
    let mut i: usize = 0;
    while i < 16
        invariant
            0 <= i <= 16,
            block@.len() == 16,
            forall|j: int| 0 <= j < i ==> block@[j] == start[j] ^ round_key@[j],
            forall|j: int| i <= j < 16 ==> block@[j] == start[j],
        decreases 16 - i,
    {
        block[i] ^= round_key[i];
        i += 1;
    }
    assert(block@ =~= xor_block(start, round_key@));
}

/// The word that seeds a new round key: the last word of the previous one rotated left by
/// one byte, substituted, and its first byte XORed with the round constant.
pub open spec fn key_word_seed(prev: Seq<u8>, rc: u8) -> Seq<u8> {
    seq![
        SBOX@[prev[13] as int] ^ rc,
        SBOX@[prev[14] as int],
        SBOX@[prev[15] as int],
        SBOX@[prev[12] as int],
    ]
}

/// Byte `idx` of the round key that follows `prev`: each word is the matching word of
/// `prev` XORed with the word before it, the first word with the seed.
pub open spec fn next_key_byte(prev: Seq<u8>, seed: Seq<u8>, idx: int) -> u8
    decreases idx,
{
    if idx < 4 {
        prev[idx] ^ seed[idx]
    } else {
        prev[idx] ^ next_key_byte(prev, seed, idx - 4)
    }
}

pub open spec fn next_round_key(prev: Seq<u8>, rc: u8) -> Seq<u8> {
    Seq::new(16, |i: int| next_key_byte(prev, key_word_seed(prev, rc), i))
}

/// Round key `r` of the expansion of `key`; round key 0 is the key itself.
pub open spec fn round_key(key: Seq<u8>, r: nat) -> Seq<u8>
    decreases r,
{
    if r == 0 {
        key
    } else {
        next_round_key(round_key(key, (r - 1) as nat), RCON@[r - 1])
    }
}

/// The eleven round keys derived from `key`.
pub open spec fn expand_key(key: Seq<u8>) -> Seq<Seq<u8>> {
    Seq::new(11, |r: int| round_key(key, r as nat))
}

/// The round keys held in a schedule, as sequences.
pub open spec fn schedule_view(keys: [[u8; 16]; 11]) -> Seq<Seq<u8>> {
    keys@.map_values(|k: [u8; 16]| k@)
}

fn derive_round_key(prev: &[u8; 16], rc: u8) -> (r: [u8; 16])
    ensures
        r@ == next_round_key(prev@, rc),
{
    let seed: [u8; 4] = [SBOX[prev[13] as usize] ^ rc, SBOX[prev[14] as usize], SBOX[prev[15] as usize], SBOX[prev[12] as usize]];
    assert(seed@ =~= key_word_seed(prev@, rc));
    let mut next = [0u8; 16];
    let mut idx: usize = 0;
    while idx < 16
        invariant
            0 <= idx <= 16,
            next@.len() == 16,
            seed@ == key_word_seed(prev@, rc),
            forall|j: int| 0 <= j < idx ==> next@[j] == next_key_byte(prev@, seed@, j),
        decreases 16 - idx,
    {
        if idx < 4 {
            next[idx] = prev[idx] ^ seed[idx];
        } else {
            next[idx] = prev[idx] ^ next[idx - 4];
        }
        idx += 1;
    }
    assert(next@ =~= next_round_key(prev@, rc));
    next
}

/// Expands a 16-byte key into the eleven AES-128 round keys.
pub fn key_schedule(key: &[u8; 16]) -> (keys: [[u8; 16]; 11])
    ensures
        schedule_view(keys) == expand_key(key@),
{
    let mut keys = [[0u8; 16]; 11];
    keys[0] = *key;
    let mut round: usize = 1;
    while round < 11
        invariant
            1 <= round <= 11,
            keys@.len() == 11,
            forall|r: int| 0 <= r < round ==> (#[trigger] keys@[r])@ == round_key(key@, r as nat),
        decreases 11 - round,
    {
        let next = derive_round_key(&keys[round - 1], RCON[round - 1]);
        keys[round] = next;
        round += 1;
    }
    assert(schedule_view(keys) =~= expand_key(key@));
    keys
}

} // verus!

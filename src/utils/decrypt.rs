use vstd::prelude::*;

use crate::utils::encrypt::{pad_len, padded_len, pkcs7_pad};
use crate::utils::{add_round_key, gf_mul, gf_multiply, schedule_view, sub_bytes, xor_block, SBOX};
use crate::AesError;

verus! {

/// The byte that `SBOX` maps to `y`.
pub open spec fn inv_sbox(y: u8) -> u8 {
    choose|x: u8| SBOX@[x as int] == y
}

/// The inverse permutation of `SBOX`, written out; it serves only to show that `SBOX` is
/// a permutation.
spec fn sbox_preimages() -> Seq<u8> {
    seq![
        0x52, 0x09, 0x6a, 0xd5, 0x30, 0x36, 0xa5, 0x38, 0xbf, 0x40, 0xa3, 0x9e, 0x81, 0xf3, 0xd7, 0xfb,
        0x7c, 0xe3, 0x39, 0x82, 0x9b, 0x2f, 0xff, 0x87, 0x34, 0x8e, 0x43, 0x44, 0xc4, 0xde, 0xe9, 0xcb,
        0x54, 0x7b, 0x94, 0x32, 0xa6, 0xc2, 0x23, 0x3d, 0xee, 0x4c, 0x95, 0x0b, 0x42, 0xfa, 0xc3, 0x4e,
        0x08, 0x2e, 0xa1, 0x66, 0x28, 0xd9, 0x24, 0xb2, 0x76, 0x5b, 0xa2, 0x49, 0x6d, 0x8b, 0xd1, 0x25,
        0x72, 0xf8, 0xf6, 0x64, 0x86, 0x68, 0x98, 0x16, 0xd4, 0xa4, 0x5c, 0xcc, 0x5d, 0x65, 0xb6, 0x92,
        0x6c, 0x70, 0x48, 0x50, 0xfd, 0xed, 0xb9, 0xda, 0x5e, 0x15, 0x46, 0x57, 0xa7, 0x8d, 0x9d, 0x84,
        0x90, 0xd8, 0xab, 0x00, 0x8c, 0xbc, 0xd3, 0x0a, 0xf7, 0xe4, 0x58, 0x05, 0xb8, 0xb3, 0x45, 0x06,
        0xd0, 0x2c, 0x1e, 0x8f, 0xca, 0x3f, 0x0f, 0x02, 0xc1, 0xaf, 0xbd, 0x03, 0x01, 0x13, 0x8a, 0x6b,
        0x3a, 0x91, 0x11, 0x41, 0x4f, 0x67, 0xdc, 0xea, 0x97, 0xf2, 0xcf, 0xce, 0xf0, 0xb4, 0xe6, 0x73,
        0x96, 0xac, 0x74, 0x22, 0xe7, 0xad, 0x35, 0x85, 0xe2, 0xf9, 0x37, 0xe8, 0x1c, 0x75, 0xdf, 0x6e,
        0x47, 0xf1, 0x1a, 0x71, 0x1d, 0x29, 0xc5, 0x89, 0x6f, 0xb7, 0x62, 0x0e, 0xaa, 0x18, 0xbe, 0x1b,
        0xfc, 0x56, 0x3e, 0x4b, 0xc6, 0xd2, 0x79, 0x20, 0x9a, 0xdb, 0xc0, 0xfe, 0x78, 0xcd, 0x5a, 0xf4,
        0x1f, 0xdd, 0xa8, 0x33, 0x88, 0x07, 0xc7, 0x31, 0xb1, 0x12, 0x10, 0x59, 0x27, 0x80, 0xec, 0x5f,
        0x60, 0x51, 0x7f, 0xa9, 0x19, 0xb5, 0x4a, 0x0d, 0x2d, 0xe5, 0x7a, 0x9f, 0x93, 0xc9, 0x9c, 0xef,
        0xa0, 0xe0, 0x3b, 0x4d, 0xae, 0x2a, 0xf5, 0xb0, 0xc8, 0xeb, 0xbb, 0x3c, 0x83, 0x53, 0x99, 0x61,
        0x17, 0x2b, 0x04, 0x7e, 0xba, 0x77, 0xd6, 0x26, 0xe1, 0x69, 0x14, 0x63, 0x55, 0x21, 0x0c, 0x7d,
    ]
}

/// No two entries of the table are equal.
#[verifier::opaque]
pub open spec fn injective_table(t: Seq<u8>) -> bool {
    forall|x: int, y: int| 0 <= x < t.len() && 0 <= y < t.len() && #[trigger] t[x] == #[trigger] t[y] ==> x == y
}

/// `SBOX` is a permutation of the bytes, and `inv_sbox` is its inverse.
pub proof fn lemma_sbox_permutation()
    ensures
        injective_table(SBOX@),
        forall|x: int| 0 <= x < 256 ==> inv_sbox(#[trigger] SBOX@[x]) == x,
        forall|y: u8| #[trigger] SBOX@[inv_sbox(y) as int] == y,
{
    let t = sbox_preimages();
    assert(forall|x: int| 0 <= x < 256 ==> t[SBOX@[x] as int] == x);
    assert(forall|y: int| 0 <= y < 256 ==> SBOX@[t[y] as int] == y);
    assert forall|y: u8| inv_sbox(y) == t[y as int] by {
        assert(SBOX@[t[y as int] as int] == y);
        let x = inv_sbox(y);
        assert(SBOX@[x as int] == y);
        assert(t[SBOX@[x as int] as int] == x);
    }
    reveal(injective_table);
}

/// The table that maps each entry of the injective table `t` back to its index.
fn invert_table(t: &[u8; 256]) -> (r: [u8; 256])
    requires
        injective_table(t@),
    ensures
        forall|x: int| 0 <= x < 256 ==> r@[#[trigger] t@[x] as int] == x,
{
    let mut r = [0u8; 256];
    let mut i: usize = 0;
    while i < 256
        invariant
            0 <= i <= 256,
            r@.len() == 256,
            injective_table(t@),
            forall|x: int| 0 <= x < i ==> r@[#[trigger] t@[x] as int] == x,
        decreases 256 - i,
    {
        proof {
            reveal(injective_table);
        }
        r[t[i] as usize] = i as u8;
        i = i + 1;
    }
    r
}

/// Computes the inverse substitution table from `SBOX`.
pub fn calculate_rsbox() -> (r: [u8; 256])
    ensures
        forall|y: int| 0 <= y < 256 ==> r@[y] == inv_sbox(y as u8),
        forall|x: int| 0 <= x < 256 ==> r@[SBOX@[x] as int] == x,
{
    proof {
        lemma_sbox_permutation();
    }
    let r = invert_table(&SBOX);
    assert forall|y: int| 0 <= y < 256 implies r@[y] == inv_sbox(y as u8) by {
        let x = inv_sbox(y as u8) as int;
        assert(SBOX@[x] == y);
        assert(r@[SBOX@[x] as int] == x);
    }
    r
}

/// The block with row `r` of its column-major 4x4 matrix rotated right by `r` places.
pub open spec fn inv_shift_rows_spec(s: Seq<u8>) -> Seq<u8> {
    Seq::new(16, |i: int| s[i % 4 + 4 * ((i / 4 + 4 - i % 4) % 4)])
}

/// Rotates row `r` of the block's column-major matrix right by `r` places.
pub fn shift_rows_rev(block: &mut [u8; 16])
    ensures
        final(block)@ == inv_shift_rows_spec(old(block)@),
{
    let temp = *block;
    let mut row: usize = 1;
    while row < 4
        invariant
            1 <= row <= 4,
            block@.len() == 16,
            forall|i: int|
                0 <= i < 16 ==> #[trigger] block@[i] == (if i % 4 < row {
                    temp@[i % 4 + 4 * ((i / 4 + 4 - i % 4) % 4)]
                } else {
                    temp@[i]
                }),
        decreases 4 - row,
    {
        let mut col: usize = 0;
        while col < 4
            invariant
                1 <= row < 4,
                0 <= col <= 4,
                block@.len() == 16,
                forall|i: int|
                    0 <= i < 16 ==> #[trigger] block@[i] == (if i % 4 < row || (i % 4 == row && i
                        / 4 < col) {
                        temp@[i % 4 + 4 * ((i / 4 + 4 - i % 4) % 4)]
                    } else {
                        temp@[i]
                    }),
            decreases 4 - col,
        {
            block[row + 4 * col] = temp[row + 4 * ((col + 4 - row) % 4)];
            col += 1;
        }
        row += 1;
    }
    assert(block@ =~= inv_shift_rows_spec(temp@));
}

/// Row 0 of the inverse mixing matrix `{0e, 0b, 0d, 09}` applied to a column.
pub open spec fn inv_mix_byte(a: u8, b: u8, c: u8, d: u8) -> u8 {
    gf_mul(0x0e, a) ^ gf_mul(0x0b, b) ^ gf_mul(0x0d, c) ^ gf_mul(0x09, d)
}

/// Byte `r` of column `c` after inverse mixing.
pub open spec fn inv_mix_entry(s: Seq<u8>, c: int, r: int) -> u8 {
    inv_mix_byte(s[4 * c + r], s[4 * c + (r + 1) % 4], s[4 * c + (r + 2) % 4], s[4 * c + (r + 3) % 4])
}

/// Each column of the block multiplied by the inverse mixing matrix over GF(2^8).
pub open spec fn inv_mix_columns_spec(s: Seq<u8>) -> Seq<u8> {
    Seq::new(16, |i: int| inv_mix_entry(s, i / 4, i % 4))
}

/// Multiplies each column of the block by the inverse mixing matrix.
pub fn mix_columns_rev(block: &mut [u8; 16])
    ensures
        final(block)@ == inv_mix_columns_spec(old(block)@),
{
    let temp = *block;
    let mut col: usize = 0;
    while col < 4
        invariant
            0 <= col <= 4,
            block@.len() == 16,
            forall|j: int| 0 <= j < 4 * col ==> #[trigger] block@[j] == inv_mix_entry(temp@, j / 4, j % 4),
        decreases 4 - col,
    {
        let i = col * 4;
        let (t0, t1, t2, t3) = (temp[i], temp[i + 1], temp[i + 2], temp[i + 3]);
        block[i] = gf_multiply(0x0e, t0) ^ gf_multiply(0x0b, t1) ^ gf_multiply(0x0d, t2) ^ gf_multiply(0x09, t3);
        block[i + 1] = gf_multiply(0x0e, t1) ^ gf_multiply(0x0b, t2) ^ gf_multiply(0x0d, t3) ^ gf_multiply(0x09, t0);
        block[i + 2] = gf_multiply(0x0e, t2) ^ gf_multiply(0x0b, t3) ^ gf_multiply(0x0d, t0) ^ gf_multiply(0x09, t1);
        block[i + 3] = gf_multiply(0x0e, t3) ^ gf_multiply(0x0b, t0) ^ gf_multiply(0x0d, t1) ^ gf_multiply(0x09, t2);
        col += 1;
    }
    assert(block@ =~= inv_mix_columns_spec(temp@));
}

/// Every byte replaced by its preimage under `SBOX`.
pub open spec fn inv_sub_bytes_spec(s: Seq<u8>) -> Seq<u8> {
    s.map_values(|y: u8| inv_sbox(y))
}

/// One inverse round: rotate rows back, substitute back, add the round key, unmix columns.
pub open spec fn inv_cipher_round(s: Seq<u8>, k: Seq<u8>) -> Seq<u8> {
    inv_mix_columns_spec(xor_block(inv_sub_bytes_spec(inv_shift_rows_spec(s)), k))
}

/// The state after the first key addition (round key 10) and `n` inverse rounds, which use
/// round keys 9 down to `10 - n`.
pub open spec fn inv_cipher_rounds(s: Seq<u8>, keys: Seq<Seq<u8>>, n: nat) -> Seq<u8>
    decreases n,
{
    if n == 0 {
        xor_block(s, keys[10])
    } else {
        inv_cipher_round(inv_cipher_rounds(s, keys, (n - 1) as nat), keys[10 - n])
    }
}

/// AES-128 decryption of one block: the cipher's steps undone in reverse order.
pub open spec fn inv_cipher(s: Seq<u8>, keys: Seq<Seq<u8>>) -> Seq<u8> {
    xor_block(inv_sub_bytes_spec(inv_shift_rows_spec(inv_cipher_rounds(s, keys, 9))), keys[0])
}

/// Decrypts one 16-byte block under an expanded key schedule.
pub fn decrypt_block(block: &[u8; 16], keys: &[[u8; 16]; 11]) -> (r: [u8; 16])
    ensures
        r@ == inv_cipher(block@, schedule_view(*keys)),
{
    let ghost ks = schedule_view(*keys);
    let rsbox = calculate_rsbox();
    let mut decrypted = *block;
    add_round_key(&mut decrypted, &keys[10]);
    let mut i: usize = 9;
    while i > 0
        invariant
            0 <= i <= 9,
            ks == schedule_view(*keys),
            forall|y: int| 0 <= y < 256 ==> rsbox@[y] == inv_sbox(y as u8),
            decrypted@ == inv_cipher_rounds(block@, ks, (9 - i) as nat),
        decreases i,
    {
        shift_rows_rev(&mut decrypted);
        let ghost shifted = decrypted@;
        sub_bytes(&mut decrypted, &rsbox);
        assert(decrypted@ =~= inv_sub_bytes_spec(shifted));
        add_round_key(&mut decrypted, &keys[i]);
        mix_columns_rev(&mut decrypted);
        i -= 1;
    }
    shift_rows_rev(&mut decrypted);
    let ghost shifted = decrypted@;
    sub_bytes(&mut decrypted, &rsbox);
    assert(decrypted@ =~= inv_sub_bytes_spec(shifted));
    add_round_key(&mut decrypted, &keys[0]);
    decrypted
}


/// The last byte `n` of `s` is between 1 and 16, at most the length of `s`, and the last
/// `n` bytes all equal `n`.
pub open spec fn valid_padding(s: Seq<u8>) -> bool {
    &&& s.len() > 0
    &&& 1 <= s.last() <= 16
    &&& s.last() <= s.len()
    &&& forall|i: int| s.len() - s.last() <= i < s.len() ==> s[i] == s.last()
}

/// `s` without the number of trailing bytes that its last byte gives.
pub open spec fn unpad(s: Seq<u8>) -> Seq<u8> {
    s.subrange(0, s.len() - s.last())
}

/// Padding a message gives a well-formed trailer, and removing it gives the message back.
pub proof fn lemma_unpad_pad(p: Seq<u8>)
    ensures
        valid_padding(pkcs7_pad(p)),
        unpad(pkcs7_pad(p)) == p,
        pkcs7_pad(p).len() == padded_len(p.len()),
        pkcs7_pad(p).len() % 16 == 0,
{
    let q = pkcs7_pad(p);
    assert(q.last() == pad_len(p.len()));
    assert(unpad(q) =~= p);
}

/// Strips a PKCS7 trailer, or reports that there is no well-formed one.
pub fn remove_pkcs7_padding(plain: &[u8]) -> (r: Result<Vec<u8>, AesError>)
    ensures
        match r {
            Ok(v) => valid_padding(plain@) && v@ == unpad(plain@),
            Err(e) => !valid_padding(plain@) && e == AesError::InvalidPadding,
        },
{
    let n = plain.len();
    if n == 0 {
        return Err(AesError::InvalidPadding);
    }
    let p = plain[n - 1];
    if p == 0 || p > 16 || p as usize > n {
        return Err(AesError::InvalidPadding);
    }
    let start = n - p as usize;
    let mut i: usize = start;
    while i < n
        invariant
            start <= i <= n,
            n == plain@.len(),
            p == plain@.last(),
            start == n - p,
            forall|k: int| start <= k < i ==> plain@[k] == p,
        decreases n - i,
    {
        if plain[i] != p {
            return Err(AesError::InvalidPadding);
        }
        i += 1;
    }
    let mut v: Vec<u8> = Vec::new();
    let mut k: usize = 0;
    while k < start
        invariant
            k <= start <= n,
            n == plain@.len(),
            v@ == plain@.subrange(0, k as int),
        decreases start - k,
    {
        v.push(plain[k]);
        k += 1;
        assert(v@ =~= plain@.subrange(0, k as int));
    }
    Ok(v)
}

} // verus!

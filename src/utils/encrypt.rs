use vstd::prelude::*;

use crate::utils::{
    add_round_key, gf_mul, gf_multiply, sub_bytes, sub_bytes_spec, xor_block, SBOX,
};

verus! {

/// The block with row `r` of its column-major 4x4 matrix rotated left by `r` places.
pub open spec fn shift_rows_spec(s: Seq<u8>) -> Seq<u8> {
    Seq::new(16, |i: int| s[i % 4 + 4 * ((i / 4 + i % 4) % 4)])
}

/// Rotates row `r` of the block's column-major matrix left by `r` places.
pub fn shift_rows(block: &mut [u8; 16])
    ensures
        final(block)@ == shift_rows_spec(old(block)@),
{
    let temp = *block;
    let mut row: usize = 1;
    while row < 4
        invariant
            1 <= row <= 4,
            block@.len() == 16,
            forall|i: int|
                0 <= i < 16 ==> #[trigger] block@[i] == (if i % 4 < row {
                    temp@[i % 4 + 4 * ((i / 4 + i % 4) % 4)]
                } else {
                    temp@[i]
                }),
        decreases 4 - row,
    {
        let mut col: usize = 0;
        while col < 4
            invariant
                1 <= row < 4,
                0 <= col <= 4,
                block@.len() == 16,
                forall|i: int|
                    0 <= i < 16 ==> #[trigger] block@[i] == (if i % 4 < row || (i % 4 == row && i
                        / 4 < col) {
                        temp@[i % 4 + 4 * ((i / 4 + i % 4) % 4)]
                    } else {
                        temp@[i]
                    }),
            decreases 4 - col,
        {
            block[row + 4 * col] = temp[row + 4 * ((col + row) % 4)];
            col += 1;
        }
        row += 1;
    }
    assert(block@ =~= shift_rows_spec(temp@));
}

/// Row 0 of the forward mixing matrix `{02, 03, 01, 01}` applied to a column; the other
/// rows are the same product on the column rotated.
pub open spec fn mix_byte(a: u8, b: u8, c: u8, d: u8) -> u8 {
    gf_mul(2, a) ^ gf_mul(3, b) ^ c ^ d
}

/// Byte `r` of column `c` after mixing.
pub open spec fn mix_entry(s: Seq<u8>, c: int, r: int) -> u8 {
    mix_byte(s[4 * c + r], s[4 * c + (r + 1) % 4], s[4 * c + (r + 2) % 4], s[4 * c + (r + 3) % 4])
}

/// Each column of the block multiplied by the forward mixing matrix over GF(2^8).
pub open spec fn mix_columns_spec(s: Seq<u8>) -> Seq<u8> {
    Seq::new(16, |i: int| mix_entry(s, i / 4, i % 4))
}

/// Multiplies each column of the block by the forward mixing matrix.
pub fn mix_columns(block: &mut [u8; 16])
    ensures
        final(block)@ == mix_columns_spec(old(block)@),
{
    let temp = *block;
    let mut col: usize = 0;
    while col < 4
        invariant
            0 <= col <= 4,
            block@.len() == 16,
            forall|j: int| 0 <= j < 4 * col ==> #[trigger] block@[j] == mix_entry(temp@, j / 4, j % 4),
        decreases 4 - col,
    {
        let i = col * 4;
        let (t0, t1, t2, t3) = (temp[i], temp[i + 1], temp[i + 2], temp[i + 3]);
        block[i] = gf_multiply(0x02, t0) ^ gf_multiply(0x03, t1) ^ t2 ^ t3;
        block[i + 1] = gf_multiply(0x02, t1) ^ gf_multiply(0x03, t2) ^ t3 ^ t0;
        block[i + 2] = gf_multiply(0x02, t2) ^ gf_multiply(0x03, t3) ^ t0 ^ t1;
        block[i + 3] = gf_multiply(0x02, t3) ^ gf_multiply(0x03, t0) ^ t1 ^ t2;
        col += 1;
    }
    assert(block@ =~= mix_columns_spec(temp@));
}

/// The number of padding bytes for a message of `n` bytes: between 1 and 16, a whole
/// block when `n` is already a multiple of 16.
pub open spec fn pad_len(n: nat) -> nat {
    if n % 16 != 0 {
        (16 - n % 16) as nat
    } else {
        16
    }
}

/// The length of a message of `n` bytes once padded.
pub open spec fn padded_len(n: nat) -> nat {
    n + pad_len(n)
}

/// `p` followed by its PKCS7 padding: `pad_len` bytes, each equal to `pad_len`.
pub open spec fn pkcs7_pad(p: Seq<u8>) -> Seq<u8> {
    p + Seq::new(pad_len(p.len()), |_i: int| pad_len(p.len()) as u8)
}

/// A message whose length is a multiple of 16 gets a whole block of `0x10` bytes; one
/// that is a byte short of a multiple of 16 gets the single byte `0x01`.
pub proof fn lemma_padding_boundary(p: Seq<u8>)
    ensures
        p.len() % 16 == 0 ==> pkcs7_pad(p) == p + Seq::new(16, |_i: int| 0x10u8),
        p.len() % 16 == 0 ==> padded_len(p.len()) == p.len() + 16,
        p.len() % 16 == 15 ==> pkcs7_pad(p) == p.push(0x01),
        p.len() % 16 == 15 ==> padded_len(p.len()) == p.len() + 1,
{
    if p.len() % 16 == 0 {
        assert(pkcs7_pad(p) =~= p + Seq::new(16, |_i: int| 0x10u8));
    }
    if p.len() % 16 == 15 {
        assert(pkcs7_pad(p) =~= p.push(0x01));
    }
}

/// The PKCS7 padding byte (also the padding length) for a message of `block_length` bytes.
pub fn pkcs7_byte(block_length: usize) -> (r: u8)
    ensures
        r as nat == pad_len(block_length as nat),
        1 <= r <= 16,
{
    if block_length % 16 != 0 {
        (16 - block_length % 16) as u8
    } else {
        16
    }
}

/// The length of a message of `block_length` bytes after PKCS7 padding.
pub fn block_length_with_pkcs7_padding(block_length: usize) -> (r: usize)
    requires
        block_length + 16 <= usize::MAX,
    ensures
        r as nat == padded_len(block_length as nat),
        r % 16 == 0,
{
    if block_length % 16 != 0 {
        block_length + (16 - block_length % 16)
    } else {
        block_length + 16
    }
}

/// One full round: substitute, rotate rows, mix columns, add the round key.
pub open spec fn cipher_round(s: Seq<u8>, k: Seq<u8>) -> Seq<u8> {
    xor_block(mix_columns_spec(shift_rows_spec(sub_bytes_spec(s, SBOX@))), k)
}

/// The state after the initial key addition and `n` full rounds.
pub open spec fn cipher_rounds(s: Seq<u8>, keys: Seq<Seq<u8>>, n: nat) -> Seq<u8>
    decreases n,
{
    if n == 0 {
        xor_block(s, keys[0])
    } else {
        cipher_round(cipher_rounds(s, keys, (n - 1) as nat), keys[n as int])
    }
}

/// AES-128 encryption of one block under eleven round keys: nine full rounds, then a
/// final round without column mixing.
pub open spec fn cipher(s: Seq<u8>, keys: Seq<Seq<u8>>) -> Seq<u8> {
    xor_block(shift_rows_spec(sub_bytes_spec(cipher_rounds(s, keys, 9), SBOX@)), keys[10])
}

/// Encrypts one 16-byte block under an expanded key schedule.
pub fn encrypt_block(block: &[u8; 16], keys: &[[u8; 16]; 11]) -> (r: [u8; 16])
    ensures
        r@ == cipher(block@, crate::utils::schedule_view(*keys)),
{
    let ghost ks = crate::utils::schedule_view(*keys);
    let mut encrypted = *block;
    add_round_key(&mut encrypted, &keys[0]);
    let mut i: usize = 1;
    while i < 10
        invariant
            1 <= i <= 10,
            ks == crate::utils::schedule_view(*keys),
            encrypted@ == cipher_rounds(block@, ks, (i - 1) as nat),
        decreases 10 - i,
    {
        sub_bytes(&mut encrypted, &SBOX);
        shift_rows(&mut encrypted);
        mix_columns(&mut encrypted);
        add_round_key(&mut encrypted, &keys[i]);
        i += 1;
    }
    sub_bytes(&mut encrypted, &SBOX);
    shift_rows(&mut encrypted);
    add_round_key(&mut encrypted, &keys[10]);
    encrypted
}

} // verus!

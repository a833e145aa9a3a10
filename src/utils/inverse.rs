use vstd::prelude::*;

use crate::utils::decrypt::{
    inv_cipher, inv_cipher_rounds, inv_mix_byte, inv_mix_columns_spec, inv_mix_entry,
    inv_sbox, inv_shift_rows_spec, inv_sub_bytes_spec, lemma_sbox_permutation,
};
use crate::utils::encrypt::{cipher, cipher_rounds, mix_byte, mix_columns_spec, mix_entry, shift_rows_spec};
use crate::utils::{
    expand_key, lemma_gf_mul_xor4, lemma_mix_coefficients, lemma_mix_coefficients_rev,
    next_round_key, round_key, sub_bytes_spec, xor_block, gf_mul, RCON, SBOX,
};

verus! {

/// Inverse mixing undoes mixing on one column (shown for its first byte; the other bytes
/// are the same statement on the column rotated).
proof fn lemma_mix_inverse(a: u8, b: u8, c: u8, d: u8)
    ensures
        inv_mix_byte(mix_byte(a, b, c, d), mix_byte(b, c, d, a), mix_byte(c, d, a, b), mix_byte(d, a, b, c)) == a,
{
    let (a2, a3, b2, b3, c2, c3, d2, d3) = (gf_mul(2, a), gf_mul(3, a), gf_mul(2, b), gf_mul(3, b), gf_mul(2, c), gf_mul(3, c), gf_mul(2, d), gf_mul(3, d));
    lemma_gf_mul_xor4(0x0e, a2, b3, c, d);
    lemma_gf_mul_xor4(0x0b, b2, c3, d, a);
    lemma_gf_mul_xor4(0x0d, c2, d3, a, b);
    lemma_gf_mul_xor4(0x09, d2, a3, b, c);
    lemma_mix_coefficients(a);
    lemma_mix_coefficients(b);
    lemma_mix_coefficients(c);
    lemma_mix_coefficients(d);
    let (e_a2, e_b3, e_c, e_d) = (gf_mul(0x0e, a2), gf_mul(0x0e, b3), gf_mul(0x0e, c), gf_mul(0x0e, d));
    let (b_b2, b_c3, b_d, b_a) = (gf_mul(0x0b, b2), gf_mul(0x0b, c3), gf_mul(0x0b, d), gf_mul(0x0b, a));
    let (d_c2, d_d3, d_a, d_b) = (gf_mul(0x0d, c2), gf_mul(0x0d, d3), gf_mul(0x0d, a), gf_mul(0x0d, b));
    let (n_d2, n_a3, n_b, n_c) = (gf_mul(0x09, d2), gf_mul(0x09, a3), gf_mul(0x09, b), gf_mul(0x09, c));
    assert((e_a2 ^ e_b3 ^ e_c ^ e_d) ^ (b_b2 ^ b_c3 ^ b_d ^ b_a) ^ (d_c2 ^ d_d3 ^ d_a ^ d_b) ^ (n_d2 ^ n_a3 ^ n_b ^ n_c) == a)
        by (bit_vector)
        requires
            e_a2 ^ b_a ^ d_a ^ n_a3 == a,
            e_b3 ^ b_b2 ^ d_b ^ n_b == 0,
            e_c ^ b_c3 ^ d_c2 ^ n_c == 0,
            e_d ^ b_d ^ d_d3 ^ n_d2 == 0,
    ;
}




/// Inverse mixing undoes mixing on a block.
#[verifier::spinoff_prover]
#[verifier::rlimit(40)]
proof fn lemma_mix_columns_inverse(s: Seq<u8>)
    requires
        s.len() == 16,
    ensures
        inv_mix_columns_spec(mix_columns_spec(s)) == s,
{
    let m = mix_columns_spec(s);
    assert forall|i: int| 0 <= i < 16 implies inv_mix_columns_spec(m)[i] == s[i] by {
        let c = i / 4;
        let r = i % 4;
        assert(0 <= c < 4);
        assert(forall|k: int| 0 <= k < 4 ==> #[trigger] m[4 * c + k] == mix_entry(s, c, k)) by {
            assert forall|k: int| 0 <= k < 4 implies #[trigger] m[4 * c + k] == mix_entry(s, c, k) by {
                assert((4 * c + k) / 4 == c && (4 * c + k) % 4 == k);
            }
        }
        let (p0, p1, p2, p3) = (s[4 * c], s[4 * c + 1], s[4 * c + 2], s[4 * c + 3]);
        if r == 0 {
            lemma_mix_inverse(p0, p1, p2, p3);
        } else if r == 1 {
            lemma_mix_inverse(p1, p2, p3, p0);
        } else if r == 2 {
            lemma_mix_inverse(p2, p3, p0, p1);
        } else {
            lemma_mix_inverse(p3, p0, p1, p2);
        }
    }
    assert(inv_mix_columns_spec(m) =~= s);
}

/// Rotating rows right undoes rotating them left.
proof fn lemma_shift_rows_inverse(s: Seq<u8>)
    requires
        s.len() == 16,
    ensures
        inv_shift_rows_spec(shift_rows_spec(s)) == s,
{
    assert forall|i: int| 0 <= i < 16 implies inv_shift_rows_spec(shift_rows_spec(s))[i] == s[i] by {
        let j = i % 4 + 4 * ((i / 4 + 4 - i % 4) % 4);
        assert(0 <= j < 16 && j % 4 == i % 4 && j / 4 == (i / 4 + 4 - i % 4) % 4);
        assert(j % 4 + 4 * ((j / 4 + j % 4) % 4) == i);
    }
    assert(inv_shift_rows_spec(shift_rows_spec(s)) =~= s);
}

/// Substituting by preimages undoes substituting by `SBOX`.
proof fn lemma_sub_bytes_inverse(s: Seq<u8>)
    ensures
        inv_sub_bytes_spec(sub_bytes_spec(s, SBOX@)) == s,
{
    lemma_sbox_permutation();
    assert forall|i: int| 0 <= i < s.len() implies inv_sub_bytes_spec(sub_bytes_spec(s, SBOX@))[i] == s[i] by {
        assert(inv_sbox(SBOX@[s[i] as int]) == s[i]);
    }
    assert(inv_sub_bytes_spec(sub_bytes_spec(s, SBOX@)) =~= s);
}

/// XORing the same key twice gives the block back.
pub(crate) proof fn lemma_xor_block_twice(s: Seq<u8>, k: Seq<u8>)
    requires
        s.len() <= k.len(),
    ensures
        xor_block(xor_block(s, k), k) == s,
{
    assert forall|i: int| 0 <= i < s.len() implies xor_block(xor_block(s, k), k)[i] == s[i] by {
        let (a, b) = (s[i], k[i]);
        assert((a ^ b) ^ b == a) by (bit_vector);
    }
    assert(xor_block(xor_block(s, k), k) =~= s);
}

/// Eleven round keys of 16 bytes each.
pub open spec fn valid_schedule(keys: Seq<Seq<u8>>) -> bool {
    keys.len() == 11 && forall|r: int| 0 <= r < 11 ==> (#[trigger] keys[r]).len() == 16
}

/// Every intermediate cipher state is a block.
proof fn lemma_cipher_rounds_len(s: Seq<u8>, keys: Seq<Seq<u8>>, n: nat)
    requires
        s.len() == 16,
        valid_schedule(keys),
        n <= 9,
    ensures
        cipher_rounds(s, keys, n).len() == 16,
    decreases n,
{
    if n > 0 {
        lemma_cipher_rounds_len(s, keys, (n - 1) as nat);
    }
}

/// After `n` inverse rounds, the ciphertext of `s` is back at the state that the forward
/// cipher had after `9 - n` full rounds, before its last substitution and row rotation.
proof fn lemma_inv_rounds(s: Seq<u8>, keys: Seq<Seq<u8>>, n: nat)
    requires
        s.len() == 16,
        valid_schedule(keys),
        n <= 9,
    ensures
        inv_cipher_rounds(cipher(s, keys), keys, n) == shift_rows_spec(
            sub_bytes_spec(cipher_rounds(s, keys, (9 - n) as nat), SBOX@),
        ),
    decreases n,
{
    if n == 0 {
        lemma_xor_block_twice(shift_rows_spec(sub_bytes_spec(cipher_rounds(s, keys, 9), SBOX@)), keys[10]);
    } else {
        lemma_inv_rounds(s, keys, (n - 1) as nat);
        let m = (9 - n) as nat;
        let prev = cipher_rounds(s, keys, m);
        lemma_cipher_rounds_len(s, keys, m);
        lemma_cipher_rounds_len(s, keys, (m + 1) as nat);
        let state = sub_bytes_spec(cipher_rounds(s, keys, (m + 1) as nat), SBOX@);
        lemma_shift_rows_inverse(state);
        lemma_sub_bytes_inverse(cipher_rounds(s, keys, (m + 1) as nat));
        let mixed = mix_columns_spec(shift_rows_spec(sub_bytes_spec(prev, SBOX@)));
        lemma_xor_block_twice(mixed, keys[(m + 1) as int]);
        lemma_mix_columns_inverse(shift_rows_spec(sub_bytes_spec(prev, SBOX@)));
    }
}

/// Decrypting the encryption of a block under the same round keys gives the block back.
pub proof fn lemma_block_round_trip(s: Seq<u8>, keys: Seq<Seq<u8>>)
    requires
        s.len() == 16,
        valid_schedule(keys),
    ensures
        inv_cipher(cipher(s, keys), keys) == s,
{
    lemma_inv_rounds(s, keys, 9);
    lemma_cipher_rounds_len(s, keys, 0);
    let state = sub_bytes_spec(cipher_rounds(s, keys, 0), SBOX@);
    lemma_shift_rows_inverse(state);
    lemma_sub_bytes_inverse(cipher_rounds(s, keys, 0));
    lemma_xor_block_twice(s, keys[0]);
}

/// Every round key derived from a 16-byte key is 16 bytes long.
pub proof fn lemma_expand_key_valid(key: Seq<u8>)
    requires
        key.len() == 16,
    ensures
        valid_schedule(expand_key(key)),
{
    assert forall|r: int| 0 <= r < 11 implies (#[trigger] expand_key(key)[r]).len() == 16 by {
        if r > 0 {
            assert(round_key(key, r as nat) == next_round_key(
                round_key(key, (r - 1) as nat),
                RCON@[r - 1],
            ));
        }
    }
}


/// Mixing undoes inverse mixing on one column (first byte; the rest by rotation).
proof fn lemma_mix_inverse_rev(a: u8, b: u8, c: u8, d: u8)
    ensures
        mix_byte(inv_mix_byte(a, b, c, d), inv_mix_byte(b, c, d, a), inv_mix_byte(c, d, a, b), inv_mix_byte(d, a, b, c)) == a,
{
    let (n0, n1, n2, n3) = (inv_mix_byte(a, b, c, d), inv_mix_byte(b, c, d, a), inv_mix_byte(c, d, a, b), inv_mix_byte(d, a, b, c));
    let (ea, eb, ec, ed) = (gf_mul(0x0e, a), gf_mul(0x0e, b), gf_mul(0x0e, c), gf_mul(0x0e, d));
    let (ba, bb, bc, bd) = (gf_mul(0x0b, a), gf_mul(0x0b, b), gf_mul(0x0b, c), gf_mul(0x0b, d));
    let (da, db, dc, dd) = (gf_mul(0x0d, a), gf_mul(0x0d, b), gf_mul(0x0d, c), gf_mul(0x0d, d));
    let (na, nb, nc, nd) = (gf_mul(0x09, a), gf_mul(0x09, b), gf_mul(0x09, c), gf_mul(0x09, d));
    lemma_gf_mul_xor4(2, ea, bb, dc, nd);
    lemma_gf_mul_xor4(3, eb, bc, dd, na);
    lemma_mix_coefficients_rev(a);
    lemma_mix_coefficients_rev(b);
    lemma_mix_coefficients_rev(c);
    lemma_mix_coefficients_rev(d);
    let (tea, tbb, tdc, tnd) = (gf_mul(2, ea), gf_mul(2, bb), gf_mul(2, dc), gf_mul(2, nd));
    let (teb, tbc, tdd, tna) = (gf_mul(3, eb), gf_mul(3, bc), gf_mul(3, dd), gf_mul(3, na));
    assert((tea ^ tbb ^ tdc ^ tnd) ^ (teb ^ tbc ^ tdd ^ tna) ^ (ec ^ bd ^ da ^ nb) ^ (ed ^ ba ^ db ^ nc) == a)
        by (bit_vector)
        requires
            tea ^ tna ^ da ^ ba == a,
            tbb ^ teb ^ nb ^ db == 0,
            tdc ^ tbc ^ ec ^ nc == 0,
            tnd ^ tdd ^ bd ^ ed == 0,
    ;
}

/// Mixing undoes inverse mixing on a block.
#[verifier::spinoff_prover]
#[verifier::rlimit(40)]
proof fn lemma_inv_mix_columns_rev(s: Seq<u8>)
    requires
        s.len() == 16,
    ensures
        mix_columns_spec(inv_mix_columns_spec(s)) == s,
{
    let m = inv_mix_columns_spec(s);
    assert forall|i: int| 0 <= i < 16 implies mix_columns_spec(m)[i] == s[i] by {
        let c = i / 4;
        let r = i % 4;
        assert(0 <= c < 4);
        assert(forall|k: int| 0 <= k < 4 ==> #[trigger] m[4 * c + k] == inv_mix_entry(s, c, k)) by {
            assert forall|k: int| 0 <= k < 4 implies #[trigger] m[4 * c + k] == inv_mix_entry(s, c, k) by {
                assert((4 * c + k) / 4 == c && (4 * c + k) % 4 == k);
            }
        }
        let (p0, p1, p2, p3) = (s[4 * c], s[4 * c + 1], s[4 * c + 2], s[4 * c + 3]);
        if r == 0 {
            lemma_mix_inverse_rev(p0, p1, p2, p3);
        } else if r == 1 {
            lemma_mix_inverse_rev(p1, p2, p3, p0);
        } else if r == 2 {
            lemma_mix_inverse_rev(p2, p3, p0, p1);
        } else {
            lemma_mix_inverse_rev(p3, p0, p1, p2);
        }
    }
    assert(mix_columns_spec(m) =~= s);
}

/// Rotating rows left undoes rotating them right.
proof fn lemma_shift_rows_inverse_rev(s: Seq<u8>)
    requires
        s.len() == 16,
    ensures
        shift_rows_spec(inv_shift_rows_spec(s)) == s,
{
    assert forall|i: int| 0 <= i < 16 implies shift_rows_spec(inv_shift_rows_spec(s))[i] == s[i] by {
        let j = i % 4 + 4 * ((i / 4 + i % 4) % 4);
        assert(0 <= j < 16 && j % 4 == i % 4 && j / 4 == (i / 4 + i % 4) % 4);
        assert(j % 4 + 4 * ((j / 4 + 4 - j % 4) % 4) == i);
    }
    assert(shift_rows_spec(inv_shift_rows_spec(s)) =~= s);
}

/// Substituting by `SBOX` undoes substituting by preimages.
proof fn lemma_sub_bytes_inverse_rev(s: Seq<u8>)
    ensures
        sub_bytes_spec(inv_sub_bytes_spec(s), SBOX@) == s,
{
    lemma_sbox_permutation();
    assert(sub_bytes_spec(inv_sub_bytes_spec(s), SBOX@) =~= s);
}

/// Every intermediate inverse cipher state is a block.
proof fn lemma_inv_cipher_rounds_len(s: Seq<u8>, keys: Seq<Seq<u8>>, n: nat)
    requires
        s.len() == 16,
        valid_schedule(keys),
        n <= 9,
    ensures
        inv_cipher_rounds(s, keys, n).len() == 16,
    decreases n,
{
    if n > 0 {
        lemma_inv_cipher_rounds_len(s, keys, (n - 1) as nat);
    }
}

/// After `n` forward rounds, the decryption of `s` is at the state that the inverse cipher
/// had after `9 - n` rounds, with its next row rotation and substitution undone.
proof fn lemma_rounds_of_inv(s: Seq<u8>, keys: Seq<Seq<u8>>, n: nat)
    requires
        s.len() == 16,
        valid_schedule(keys),
        n <= 9,
    ensures
        cipher_rounds(inv_cipher(s, keys), keys, n) == inv_sub_bytes_spec(
            inv_shift_rows_spec(inv_cipher_rounds(s, keys, (9 - n) as nat)),
        ),
    decreases n,
{
    if n == 0 {
        lemma_xor_block_twice(inv_sub_bytes_spec(inv_shift_rows_spec(inv_cipher_rounds(s, keys, 9))), keys[0]);
    } else {
        lemma_rounds_of_inv(s, keys, (n - 1) as nat);
        let m = (9 - n) as nat;
        lemma_inv_cipher_rounds_len(s, keys, m);
        lemma_inv_cipher_rounds_len(s, keys, (m + 1) as nat);
        let later = inv_cipher_rounds(s, keys, (m + 1) as nat);
        lemma_shift_rows_inverse_rev(later);
        lemma_sub_bytes_inverse_rev(inv_shift_rows_spec(later));
        let inner = inv_sub_bytes_spec(inv_shift_rows_spec(inv_cipher_rounds(s, keys, m)));
        lemma_inv_mix_columns_rev(xor_block(inner, keys[n as int]));
        lemma_xor_block_twice(inner, keys[n as int]);
    }
}

/// Encrypting the decryption of a block under the same round keys gives the block back;
/// so block decryption is one to one.
pub proof fn lemma_block_round_trip_rev(s: Seq<u8>, keys: Seq<Seq<u8>>)
    requires
        s.len() == 16,
        valid_schedule(keys),
    ensures
        cipher(inv_cipher(s, keys), keys) == s,
{
    lemma_rounds_of_inv(s, keys, 9);
    lemma_inv_cipher_rounds_len(s, keys, 0);
    let first = inv_cipher_rounds(s, keys, 0);
    lemma_shift_rows_inverse_rev(first);
    lemma_sub_bytes_inverse_rev(inv_shift_rows_spec(first));
    lemma_xor_block_twice(s, keys[10]);
}

} // verus!

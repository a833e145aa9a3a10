use vstd::prelude::*;

use crate::aes::{
    append_block, block_of, lemma_block_in_range, lemma_block_index, load_block, outcome,
    pad_message,
};
use crate::utils::decrypt::{
    decrypt_block, inv_cipher, lemma_unpad_pad, remove_pkcs7_padding, unpad, valid_padding,
};
use crate::utils::inverse::{
    lemma_block_round_trip, lemma_block_round_trip_rev, lemma_expand_key_valid,
    lemma_xor_block_twice, valid_schedule,
};
use crate::utils::encrypt::{
    block_length_with_pkcs7_padding, cipher, encrypt_block, padded_len, pkcs7_pad,
};
use crate::utils::{add_round_key, expand_key, key_schedule, schedule_view, xor_block};
use crate::{Aes128CBC, AesError};

verus! {

/// Ciphertext block `j` of `p` in CBC mode: plaintext block `j` XORed with the previous
/// ciphertext block (with `iv` for the first), then encrypted.
pub open spec fn cbc_block(p: Seq<u8>, iv: Seq<u8>, keys: Seq<Seq<u8>>, j: nat) -> Seq<u8>
    decreases j,
{
    let chain = if j == 0 {
        iv
    } else {
        cbc_block(p, iv, keys, (j - 1) as nat)
    };
    cipher(xor_block(block_of(p, j as int), chain), keys)
}

/// Every block of `p` encrypted in CBC mode.
pub open spec fn cbc_blocks(p: Seq<u8>, iv: Seq<u8>, keys: Seq<Seq<u8>>) -> Seq<u8> {
    Seq::new(p.len(), |i: int| cbc_block(p, iv, keys, (i / 16) as nat)[i % 16])
}

/// The block that block `j` of `c` is chained with: the previous block, or `iv` for the first.
pub open spec fn chain_of(c: Seq<u8>, iv: Seq<u8>, j: int) -> Seq<u8> {
    if j == 0 {
        iv
    } else {
        block_of(c, j - 1)
    }
}

/// Block `j` of `c` decrypted and XORed with the block it is chained with.
pub open spec fn cbc_inv_block(c: Seq<u8>, iv: Seq<u8>, keys: Seq<Seq<u8>>, j: int) -> Seq<u8> {
    xor_block(inv_cipher(block_of(c, j), keys), chain_of(c, iv, j))
}

/// Every block of `c` decrypted in CBC mode.
pub open spec fn cbc_inv_blocks(c: Seq<u8>, iv: Seq<u8>, keys: Seq<Seq<u8>>) -> Seq<u8> {
    Seq::new(c.len(), |i: int| cbc_inv_block(c, iv, keys, i / 16)[i % 16])
}

/// CBC encryption of `plain` under `key` and `iv` into a buffer of `cipher_length` bytes.
pub open spec fn cbc_encrypt_spec(
    key: Seq<u8>,
    iv: Seq<u8>,
    plain: Seq<u8>,
    cipher_length: nat,
) -> Result<Seq<u8>, AesError> {
    if cipher_length != padded_len(plain.len()) {
        Err(AesError::LengthMismatch)
    } else {
        Ok(cbc_blocks(pkcs7_pad(plain), iv, expand_key(key)))
    }
}

/// CBC decryption of `c` under `key` and `iv`.
pub open spec fn cbc_decrypt_spec(key: Seq<u8>, iv: Seq<u8>, c: Seq<u8>) -> Result<Seq<u8>, AesError> {
    if c.len() == 0 || c.len() % 16 != 0 {
        Err(AesError::LengthMismatch)
    } else if valid_padding(cbc_inv_blocks(c, iv, expand_key(key))) {
        Ok(unpad(cbc_inv_blocks(c, iv, expand_key(key))))
    } else {
        Err(AesError::InvalidPadding)
    }
}

impl Aes128CBC {
    /// A context that encrypts and decrypts under `key`, chaining from `iv`.
    pub fn new(key: [u8; 16], iv: [u8; 16]) -> (r: Self)
        ensures
            r.key_spec() == key@,
            r.iv_spec() == iv@,
    {
        Self { key, iv }
    }

    /// Pads `plain` and encrypts it in CBC mode; `cipher_length` must be the padded length
    /// of `plain`.
    pub fn encrypt(&self, plain: &[u8], cipher_length: usize) -> (r: Result<Vec<u8>, AesError>)
        ensures
            outcome(r) == cbc_encrypt_spec(
                self.key_spec(),
                self.iv_spec(),
                plain@,
                cipher_length as nat,
            ),
    {
        if plain.len() > usize::MAX - 16 {
            return Err(AesError::LengthMismatch);
        }
        if cipher_length != block_length_with_pkcs7_padding(plain.len()) {
            return Err(AesError::LengthMismatch);
        }
        let keys = key_schedule(&self.key);
        let ghost ks = schedule_view(keys);
        let buf = pad_message(plain);
        proof {
            lemma_unpad_pad(plain@);
        }
        let nblocks = cipher_length / 16;
        let mut out: Vec<u8> = Vec::new();
        let mut prev: [u8; 16] = self.iv;
        let mut j: usize = 0;
        while j < nblocks
            invariant
                j <= nblocks,
                buf@.len() == cipher_length == 16 * nblocks,
                ks == schedule_view(keys),
                prev@ == (if j == 0 {
                    self.iv@
                } else {
                    cbc_block(buf@, self.iv@, ks, (j - 1) as nat)
                }),
                out@.len() == 16 * j,
                forall|i: int| 0 <= i < 16 * j ==> out@[i] == cbc_blocks(buf@, self.iv@, ks)[i],
            decreases nblocks - j,
        {
            let mut blk = load_block(buf.as_slice(), j);
            add_round_key(&mut blk, &prev);
            let enc = encrypt_block(&blk, &keys);
            assert(enc@ == cbc_block(buf@, self.iv@, ks, j as nat));
            append_block(&mut out, &enc);
            assert forall|i: int| 0 <= i < 16 * (j + 1) implies out@[i] == cbc_blocks(
                buf@,
                self.iv@,
                ks,
            )[i] by {
                if i >= 16 * j {
                    lemma_block_index(i, j as int);
                }
            }
            prev = enc;
            j += 1;
        }
        assert(out@ =~= cbc_blocks(buf@, self.iv@, ks));
        Ok(out)
    }

    /// Decrypts `cipher` in CBC mode and strips its padding.
    pub fn decrypt(&self, cipher: &[u8]) -> (r: Result<Vec<u8>, AesError>)
        ensures
            outcome(r) == cbc_decrypt_spec(self.key_spec(), self.iv_spec(), cipher@),
    {
        let n = cipher.len();
        if n == 0 || n % 16 != 0 {
            return Err(AesError::LengthMismatch);
        }
        let keys = key_schedule(&self.key);
        let ghost ks = schedule_view(keys);
        let nblocks = n / 16;
        let mut out: Vec<u8> = Vec::new();
        let mut prev: [u8; 16] = self.iv;
        let mut j: usize = 0;
        while j < nblocks
            invariant
                j <= nblocks,
                n == cipher@.len() == 16 * nblocks,
                ks == schedule_view(keys),
                j < nblocks ==> prev@ == chain_of(cipher@, self.iv@, j as int),
                out@.len() == 16 * j,
                forall|i: int|
                    0 <= i < 16 * j ==> out@[i] == cbc_inv_blocks(cipher@, self.iv@, ks)[i],
            decreases nblocks - j,
        {
            let blk = load_block(cipher, j);
            let mut dec = decrypt_block(&blk, &keys);
            add_round_key(&mut dec, &prev);
            assert(dec@ == cbc_inv_block(cipher@, self.iv@, ks, j as int));
            append_block(&mut out, &dec);
            assert forall|i: int| 0 <= i < 16 * (j + 1) implies out@[i] == cbc_inv_blocks(
                cipher@,
                self.iv@,
                ks,
            )[i] by {
                if i >= 16 * j {
                    lemma_block_index(i, j as int);
                }
            }
            prev = blk;
            j += 1;
        }
        assert(out@ =~= cbc_inv_blocks(cipher@, self.iv@, ks));
        remove_pkcs7_padding(out.as_slice())
    }
}


/// Block `j` of a CBC decryption is block `j` decrypted and unchained.
proof fn lemma_cbc_inv_blocks_block(c: Seq<u8>, iv: Seq<u8>, keys: Seq<Seq<u8>>, j: int)
    requires
        c.len() % 16 == 0,
        0 <= j < c.len() / 16,
    ensures
        block_of(cbc_inv_blocks(c, iv, keys), j) == cbc_inv_block(c, iv, keys, j),
{
    lemma_block_in_range(c.len() as int, 16 * j);
    let d = cbc_inv_blocks(c, iv, keys);
    assert forall|t: int| 0 <= t < 16 implies #[trigger] block_of(d, j)[t] == cbc_inv_block(c, iv, keys, j)[t] by {
        lemma_block_index(16 * j + t, j);
    }
    assert(block_of(d, j) =~= cbc_inv_block(c, iv, keys, j));
}

/// Decrypting, in CBC mode, what was encrypted in CBC mode gives the blocks back.
proof fn lemma_cbc_inv_blocks(s: Seq<u8>, iv: Seq<u8>, keys: Seq<Seq<u8>>)
    requires
        s.len() % 16 == 0,
        iv.len() == 16,
        valid_schedule(keys),
    ensures
        cbc_inv_blocks(cbc_blocks(s, iv, keys), iv, keys) == s,
{
    let c = cbc_blocks(s, iv, keys);
    assert forall|m: int| 0 <= m < s.len() / 16 implies #[trigger] block_of(c, m) == cbc_block(s, iv, keys, m as nat) by {
        lemma_block_in_range(s.len() as int, 16 * m);
        assert forall|t: int| 0 <= t < 16 implies #[trigger] block_of(c, m)[t] == cbc_block(s, iv, keys, m as nat)[t] by {
            lemma_block_index(16 * m + t, m);
        }
        assert(block_of(c, m) =~= cbc_block(s, iv, keys, m as nat));
    }
    assert forall|i: int| 0 <= i < s.len() implies cbc_inv_blocks(c, iv, keys)[i] == s[i] by {
        let j = i / 16;
        lemma_block_in_range(s.len() as int, i);
        let chain = if j == 0 { iv } else { cbc_block(s, iv, keys, (j - 1) as nat) };
        assert(chain_of(c, iv, j) == chain);
        assert(block_of(c, j) == cipher(xor_block(block_of(s, j), chain), keys));
        lemma_block_round_trip(xor_block(block_of(s, j), chain), keys);
        lemma_xor_block_twice(block_of(s, j), chain);
    }
    assert(cbc_inv_blocks(c, iv, keys) =~= s);
}

/// Decrypting a CBC encryption under the same key and IV gives the plaintext back.
pub proof fn lemma_cbc_round_trip(key: Seq<u8>, iv: Seq<u8>, plain: Seq<u8>)
    requires
        key.len() == 16,
        iv.len() == 16,
    ensures
        match cbc_encrypt_spec(key, iv, plain, padded_len(plain.len())) {
            Ok(c) => cbc_decrypt_spec(key, iv, c) == Ok::<Seq<u8>, AesError>(plain),
            Err(_) => false,
        },
{
    lemma_unpad_pad(plain);
    lemma_expand_key_valid(key);
    lemma_cbc_inv_blocks(pkcs7_pad(plain), iv, expand_key(key));
}

/// Two contexts made with the same key and IV encrypt a plaintext to the same result.
pub proof fn lemma_cbc_deterministic(a: Aes128CBC, b: Aes128CBC, plain: Seq<u8>, cipher_length: nat)
    requires
        a.key_spec() == b.key_spec(),
        a.iv_spec() == b.iv_spec(),
    ensures
        cbc_encrypt_spec(a.key_spec(), a.iv_spec(), plain, cipher_length) == cbc_encrypt_spec(
            b.key_spec(),
            b.iv_spec(),
            plain,
            cipher_length,
        ),
{
}

/// Changing ciphertext block `j` (not the last) changes decrypted blocks `j` and `j + 1`
/// and no other.
pub proof fn lemma_cbc_error_propagation(
    key: Seq<u8>,
    iv: Seq<u8>,
    c: Seq<u8>,
    c2: Seq<u8>,
    j: int,
)
    requires
        key.len() == 16,
        iv.len() == 16,
        c.len() == c2.len(),
        c.len() % 16 == 0,
        0 <= j && j + 1 < c.len() / 16,
        block_of(c, j) != block_of(c2, j),
        forall|m: int| 0 <= m < c.len() / 16 && m != j ==> block_of(c, m) == block_of(c2, m),
    ensures
        block_of(cbc_inv_blocks(c, iv, expand_key(key)), j) != block_of(
            cbc_inv_blocks(c2, iv, expand_key(key)),
            j,
        ),
        block_of(cbc_inv_blocks(c, iv, expand_key(key)), j + 1) != block_of(
            cbc_inv_blocks(c2, iv, expand_key(key)),
            j + 1,
        ),
        forall|m: int|
            0 <= m < c.len() / 16 && m != j && m != j + 1 ==> block_of(
                #[trigger] cbc_inv_blocks(c, iv, expand_key(key)),
                m,
            ) == block_of(cbc_inv_blocks(c2, iv, expand_key(key)), m),
{
    let keys = expand_key(key);
    lemma_expand_key_valid(key);
    let n = c.len() / 16;
    assert forall|m: int| 0 <= m < n && m != j && m != j + 1 implies block_of(
        cbc_inv_blocks(c, iv, keys),
        m,
    ) == block_of(cbc_inv_blocks(c2, iv, keys), m) by {
        lemma_cbc_inv_blocks_block(c, iv, keys, m);
        lemma_cbc_inv_blocks_block(c2, iv, keys, m);
        assert(chain_of(c, iv, m) == chain_of(c2, iv, m));
    }
    lemma_block_in_range(c.len() as int, 16 * j);
    lemma_block_in_range(c.len() as int, 16 * (j + 1));
    // block j: decryption of the block is one to one
    lemma_cbc_inv_blocks_block(c, iv, keys, j);
    lemma_cbc_inv_blocks_block(c2, iv, keys, j);
    let chain = chain_of(c, iv, j);
    assert(chain == chain_of(c2, iv, j));
    let (x, x2) = (inv_cipher(block_of(c, j), keys), inv_cipher(block_of(c2, j), keys));
    if xor_block(x, chain) == xor_block(x2, chain) {
        lemma_xor_block_twice(x, chain);
        lemma_xor_block_twice(x2, chain);
        lemma_block_round_trip_rev(block_of(c, j), keys);
        lemma_block_round_trip_rev(block_of(c2, j), keys);
    }
    // block j + 1: the same decrypted block, unchained with different blocks
    lemma_cbc_inv_blocks_block(c, iv, keys, j + 1);
    lemma_cbc_inv_blocks_block(c2, iv, keys, j + 1);
    let y = inv_cipher(block_of(c, j + 1), keys);
    assert(y == inv_cipher(block_of(c2, j + 1), keys));
    if xor_block(y, block_of(c, j)) == xor_block(y, block_of(c2, j)) {
        assert forall|t: int| 0 <= t < 16 implies block_of(c, j)[t] == block_of(c2, j)[t] by {
            let (u, a, b) = (y[t], block_of(c, j)[t], block_of(c2, j)[t]);
            assert(xor_block(y, block_of(c, j))[t] == xor_block(y, block_of(c2, j))[t]);
            assert(u ^ a == u ^ b ==> a == b) by (bit_vector);
        }
        assert(block_of(c, j) =~= block_of(c2, j));
    }
}

} // verus!

use vstd::prelude::*;

use crate::aes::{
    append_block, block_of, lemma_block_in_range, lemma_block_index, load_block, outcome,
    pad_message,
};
use crate::utils::decrypt::{
    decrypt_block, inv_cipher, lemma_unpad_pad, remove_pkcs7_padding, unpad, valid_padding,
};
use crate::utils::inverse::{lemma_block_round_trip, lemma_expand_key_valid, valid_schedule};
use crate::utils::encrypt::{
    block_length_with_pkcs7_padding, cipher, encrypt_block, padded_len, pkcs7_pad,
};
use crate::utils::{expand_key, key_schedule, schedule_view};
use crate::{Aes128ECB, AesError};

verus! {

/// Every block of `s` encrypted on its own.
pub open spec fn ecb_blocks(s: Seq<u8>, keys: Seq<Seq<u8>>) -> Seq<u8> {
    Seq::new(s.len(), |i: int| cipher(block_of(s, i / 16), keys)[i % 16])
}

/// Every block of `s` decrypted on its own.
pub open spec fn ecb_inv_blocks(s: Seq<u8>, keys: Seq<Seq<u8>>) -> Seq<u8> {
    Seq::new(s.len(), |i: int| inv_cipher(block_of(s, i / 16), keys)[i % 16])
}

/// ECB encryption of `plain` under `key` into a buffer of `cipher_length` bytes.
pub open spec fn ecb_encrypt_spec(key: Seq<u8>, plain: Seq<u8>, cipher_length: nat) -> Result<
    Seq<u8>,
    AesError,
> {
    if cipher_length != padded_len(plain.len()) {
        Err(AesError::LengthMismatch)
    } else {
        Ok(ecb_blocks(pkcs7_pad(plain), expand_key(key)))
    }
}

/// ECB decryption of `c` under `key`.
pub open spec fn ecb_decrypt_spec(key: Seq<u8>, c: Seq<u8>) -> Result<Seq<u8>, AesError> {
    if c.len() == 0 || c.len() % 16 != 0 {
        Err(AesError::LengthMismatch)
    } else if valid_padding(ecb_inv_blocks(c, expand_key(key))) {
        Ok(unpad(ecb_inv_blocks(c, expand_key(key))))
    } else {
        Err(AesError::InvalidPadding)
    }
}

impl Aes128ECB {
    /// A context that encrypts and decrypts under `key`.
    pub fn new(key: [u8; 16]) -> (r: Self)
        ensures
            r.key_spec() == key@,
    {
        Self { key }
    }

    /// Pads `plain` and encrypts it block by block; `cipher_length` must be the padded
    /// length of `plain`.
    pub fn encrypt(&self, plain: &[u8], cipher_length: usize) -> (r: Result<Vec<u8>, AesError>)
        ensures
            outcome(r) == ecb_encrypt_spec(self.key_spec(), plain@, cipher_length as nat),
    {
        if plain.len() > usize::MAX - 16 {
            return Err(AesError::LengthMismatch);
        }
        if cipher_length != block_length_with_pkcs7_padding(plain.len()) {
            return Err(AesError::LengthMismatch);
        }
        let keys = key_schedule(&self.key);
        let ghost ks = schedule_view(keys);
        let buf = pad_message(plain);
        proof {
            lemma_unpad_pad(plain@);
        }
        let nblocks = cipher_length / 16;
        let mut out: Vec<u8> = Vec::new();
        let mut j: usize = 0;
        while j < nblocks
            invariant
                j <= nblocks,
                buf@.len() == cipher_length == 16 * nblocks,
                ks == schedule_view(keys),
                out@.len() == 16 * j,
                forall|i: int| 0 <= i < 16 * j ==> out@[i] == ecb_blocks(buf@, ks)[i],
            decreases nblocks - j,
        {
            let blk = load_block(buf.as_slice(), j);
            let enc = encrypt_block(&blk, &keys);
            let ghost before = out@;
            append_block(&mut out, &enc);
            assert forall|i: int| 0 <= i < 16 * (j + 1) implies out@[i] == ecb_blocks(buf@, ks)[i] by {
                if i >= 16 * j {
                    lemma_block_index(i, j as int);
                }
            }
            j += 1;
        }
        assert(out@ =~= ecb_blocks(buf@, ks));
        Ok(out)
    }

    /// Decrypts `cipher` block by block and strips its padding.
    pub fn decrypt(&self, cipher: &[u8]) -> (r: Result<Vec<u8>, AesError>)
        ensures
            outcome(r) == ecb_decrypt_spec(self.key_spec(), cipher@),
    {
        let n = cipher.len();
        if n == 0 || n % 16 != 0 {
            return Err(AesError::LengthMismatch);
        }
        let keys = key_schedule(&self.key);
        let ghost ks = schedule_view(keys);
        let nblocks = n / 16;
        let mut out: Vec<u8> = Vec::new();
        let mut j: usize = 0;
        while j < nblocks
            invariant
                j <= nblocks,
                n == cipher@.len() == 16 * nblocks,
                ks == schedule_view(keys),
                out@.len() == 16 * j,
                forall|i: int| 0 <= i < 16 * j ==> out@[i] == ecb_inv_blocks(cipher@, ks)[i],
            decreases nblocks - j,
        {
            let blk = load_block(cipher, j);
            let dec = decrypt_block(&blk, &keys);
            append_block(&mut out, &dec);
            assert forall|i: int| 0 <= i < 16 * (j + 1) implies out@[i] == ecb_inv_blocks(cipher@, ks)[i] by {
                if i >= 16 * j {
                    lemma_block_index(i, j as int);
                }
            }
            j += 1;
        }
        assert(out@ =~= ecb_inv_blocks(cipher@, ks));
        remove_pkcs7_padding(out.as_slice())
    }
}


/// Decrypting, block by block, what was encrypted block by block gives the blocks back.
proof fn lemma_ecb_inv_blocks(s: Seq<u8>, keys: Seq<Seq<u8>>)
    requires
        s.len() % 16 == 0,
        valid_schedule(keys),
    ensures
        ecb_inv_blocks(ecb_blocks(s, keys), keys) == s,
{
    let c = ecb_blocks(s, keys);
    assert forall|i: int| 0 <= i < s.len() implies ecb_inv_blocks(c, keys)[i] == s[i] by {
        let j = i / 16;
        lemma_block_in_range(s.len() as int, i);
        assert forall|k: int| 0 <= k < 16 implies #[trigger] block_of(c, j)[k] == cipher(block_of(s, j), keys)[k] by {
            lemma_block_index(16 * j + k, j);
        }
        assert(block_of(c, j) =~= cipher(block_of(s, j), keys));
        lemma_block_round_trip(block_of(s, j), keys);
    }
    assert(ecb_inv_blocks(c, keys) =~= s);
}

/// Decrypting an ECB encryption under the same key gives the plaintext back.
pub proof fn lemma_ecb_round_trip(key: Seq<u8>, plain: Seq<u8>)
    requires
        key.len() == 16,
    ensures
        match ecb_encrypt_spec(key, plain, padded_len(plain.len())) {
            Ok(c) => ecb_decrypt_spec(key, c) == Ok::<Seq<u8>, AesError>(plain),
            Err(_) => false,
        },
{
    lemma_unpad_pad(plain);
    lemma_expand_key_valid(key);
    lemma_ecb_inv_blocks(pkcs7_pad(plain), expand_key(key));
}

/// Two contexts made with the same key encrypt a plaintext to the same result.
pub proof fn lemma_ecb_deterministic(a: Aes128ECB, b: Aes128ECB, plain: Seq<u8>, cipher_length: nat)
    requires
        a.key_spec() == b.key_spec(),
    ensures
        ecb_encrypt_spec(a.key_spec(), plain, cipher_length) == ecb_encrypt_spec(
            b.key_spec(),
            plain,
            cipher_length,
        ),
{
}

/// Two equal blocks of a padded plaintext encrypt to equal ciphertext blocks.
pub proof fn lemma_ecb_equal_blocks(key: Seq<u8>, plain: Seq<u8>, j: int, k: int)
    requires
        key.len() == 16,
        0 <= j < padded_len(plain.len()) / 16,
        0 <= k < padded_len(plain.len()) / 16,
        block_of(pkcs7_pad(plain), j) == block_of(pkcs7_pad(plain), k),
    ensures
        ecb_encrypt_spec(key, plain, padded_len(plain.len())) matches Ok(c) && block_of(c, j)
            == block_of(c, k),
{
    let s = pkcs7_pad(plain);
    let keys = expand_key(key);
    let c = ecb_blocks(s, keys);
    lemma_unpad_pad(plain);
    assert forall|m: int| 0 <= m < s.len() / 16 implies #[trigger] block_of(c, m) == cipher(block_of(s, m), keys) by {
        lemma_block_in_range(s.len() as int, 16 * m);
        assert forall|t: int| 0 <= t < 16 implies #[trigger] block_of(c, m)[t] == cipher(block_of(s, m), keys)[t] by {
            lemma_block_index(16 * m + t, m);
        }
        assert(block_of(c, m) =~= cipher(block_of(s, m), keys));
    }
    assert(block_of(c, j) == cipher(block_of(s, j), keys));
    assert(block_of(c, k) == cipher(block_of(s, k), keys));
}

} // verus!

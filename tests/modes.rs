use const_aes::utils::decrypt::remove_pkcs7_padding;
use const_aes::utils::encrypt::{block_length_with_pkcs7_padding, pkcs7_byte};
use const_aes::{Aes128CBC, Aes128ECB, AesError};

const KEY: [u8; 16] = [
    0x2b, 0x7e, 0x15, 0x16, 0x28, 0xae, 0xd2, 0xa6,
    0xab, 0xf7, 0x15, 0x88, 0x09, 0xcf, 0x4f, 0x3c,
];

const IV: [u8; 16] = [
    0x00, 0x01, 0x02, 0x03, 0x04, 0x05, 0x06, 0x07,
    0x08, 0x09, 0x0A, 0x0B, 0x0C, 0x0D, 0x0E, 0x0F,
];

const PLAIN: [u8; 15] = [
    0x6b, 0xc1, 0xbe, 0xe2,
    0x2e, 0x40, 0x9f, 0x96,
    0xe9, 0x3d, 0x7e, 0x11,
    0x73, 0x93, 0x17,
];

fn message(n: usize) -> Vec<u8> {
    let mut v = Vec::new();
    for i in 0..n {
        v.push((i * 7 + 3) as u8);
    }
    v
}

#[test]
fn test_encrypt_decrypt_aes128_cbc() {
    let ctx = Aes128CBC::new(KEY, IV);
    let cipher = ctx.encrypt(&PLAIN, 16).unwrap();
    assert_eq!(cipher.len(), 16);

    let plain = ctx.decrypt(&cipher).unwrap();

    assert_eq!(PLAIN, plain.as_slice());
}

#[test]
fn test_encrypt_decrypt_aes128_ecb() {
    let ctx = Aes128ECB::new(KEY);
    let cipher = ctx.encrypt(&PLAIN, 16).unwrap();
    assert_eq!(cipher.len(), 16);

    let plain = ctx.decrypt(&cipher).unwrap();

    assert_eq!(PLAIN, plain.as_slice());
}

#[test]
fn round_trip_many_lengths() {
    let ecb = Aes128ECB::new(KEY);
    let cbc = Aes128CBC::new(KEY, IV);
    for n in [0usize, 1, 15, 16, 17, 31, 32, 33, 64, 100] {
        let p = message(n);
        let len = block_length_with_pkcs7_padding(n);
        let c1 = ecb.encrypt(&p, len).unwrap();
        assert_eq!(c1.len(), len);
        assert_eq!(ecb.decrypt(&c1).unwrap(), p);
        let c2 = cbc.encrypt(&p, len).unwrap();
        assert_eq!(c2.len(), len);
        assert_eq!(cbc.decrypt(&c2).unwrap(), p);
    }
}

#[test]
fn encryption_is_deterministic() {
    let p = message(40);
    let a = Aes128ECB::new(KEY);
    let b = Aes128ECB::new(KEY);
    assert_eq!(a.encrypt(&p, 48).unwrap(), b.encrypt(&p, 48).unwrap());
    let c = Aes128CBC::new(KEY, IV);
    let d = Aes128CBC::new(KEY, IV);
    assert_eq!(c.encrypt(&p, 48).unwrap(), d.encrypt(&p, 48).unwrap());
}

#[test]
fn ecb_equal_blocks_give_equal_cipher_blocks() {
    let mut p = message(16);
    let copy = p.clone();
    p.extend_from_slice(&copy);
    let c = Aes128ECB::new(KEY).encrypt(&p, 48).unwrap();
    assert_eq!(c[0..16], c[16..32]);
    assert_ne!(c[0..16], c[32..48]);
}

#[test]
fn cbc_equal_blocks_give_different_cipher_blocks() {
    let mut p = message(16);
    let copy = p.clone();
    p.extend_from_slice(&copy);
    let c = Aes128CBC::new(KEY, IV).encrypt(&p, 48).unwrap();
    assert_ne!(c[0..16], c[16..32]);
}

#[test]
fn ecb_known_answer() {
    // FIPS-197 vector: a 16-byte block, followed by a full padding block
    let p: [u8; 16] = [
        0x32, 0x43, 0xf6, 0xa8, 0x88, 0x5a, 0x30, 0x8d, 0x31, 0x31, 0x98, 0xa2, 0xe0, 0x37, 0x07, 0x34,
    ];
    let c = Aes128ECB::new(KEY).encrypt(&p, 32).unwrap();
    assert_eq!(
        c[0..16],
        [0x39, 0x25, 0x84, 0x1d, 0x02, 0xdc, 0x09, 0xfb, 0xdc, 0x11, 0x85, 0x97, 0x19, 0x6a, 0x0b, 0x32]
    );
}

#[test]
fn cbc_first_block_is_chained_with_iv() {
    // NIST SP 800-38A F.2.1, first block
    let p: [u8; 16] = [
        0x6b, 0xc1, 0xbe, 0xe2, 0x2e, 0x40, 0x9f, 0x96, 0xe9, 0x3d, 0x7e, 0x11, 0x73, 0x93, 0x17, 0x2a,
    ];
    let c = Aes128CBC::new(KEY, IV).encrypt(&p, 32).unwrap();
    assert_eq!(
        c[0..16],
        [0x76, 0x49, 0xab, 0xac, 0x81, 0x19, 0xb2, 0x46, 0xce, 0xe9, 0x8e, 0x9b, 0x12, 0xe9, 0x19, 0x7d]
    );
}

#[test]
fn padding_boundary() {
    assert_eq!(pkcs7_byte(16), 16);
    assert_eq!(block_length_with_pkcs7_padding(16), 32);
    assert_eq!(pkcs7_byte(15), 1);
    assert_eq!(block_length_with_pkcs7_padding(15), 16);
    assert_eq!(pkcs7_byte(0), 16);
    assert_eq!(block_length_with_pkcs7_padding(0), 16);
    assert_eq!(pkcs7_byte(17), 15);
    assert_eq!(block_length_with_pkcs7_padding(17), 32);

    // the last block of an aligned message decrypts, unpadded, to sixteen 0x10 bytes
    let ecb = Aes128ECB::new(KEY);
    let p = message(16);
    let c = ecb.encrypt(&p, 32).unwrap();
    let pad_only = ecb.encrypt(&[], 16).unwrap();
    assert_eq!(c[16..32], pad_only[0..16]);
}

#[test]
fn remove_padding_cases() {
    let mut ok = message(13);
    ok.extend_from_slice(&[3, 3, 3]);
    assert_eq!(remove_pkcs7_padding(&ok), Ok(message(13)));
    assert_eq!(remove_pkcs7_padding(&[16u8; 16]), Ok(Vec::new()));
    assert_eq!(remove_pkcs7_padding(&[]), Err(AesError::InvalidPadding));
    assert_eq!(remove_pkcs7_padding(&[1, 2, 0]), Err(AesError::InvalidPadding));
    assert_eq!(remove_pkcs7_padding(&[17u8; 32]), Err(AesError::InvalidPadding));
    assert_eq!(remove_pkcs7_padding(&[4, 4, 4]), Err(AesError::InvalidPadding));
    assert_eq!(remove_pkcs7_padding(&[9, 2, 3, 3]), Err(AesError::InvalidPadding));
}

#[test]
fn encrypt_rejects_wrong_length() {
    let p = message(15);
    assert_eq!(Aes128ECB::new(KEY).encrypt(&p, 15), Err(AesError::LengthMismatch));
    assert_eq!(Aes128ECB::new(KEY).encrypt(&p, 32), Err(AesError::LengthMismatch));
    assert_eq!(Aes128CBC::new(KEY, IV).encrypt(&p, 0), Err(AesError::LengthMismatch));
    assert_eq!(Aes128CBC::new(KEY, IV).encrypt(&message(16), 16), Err(AesError::LengthMismatch));
}

#[test]
fn decrypt_rejects_unaligned_length() {
    assert_eq!(Aes128ECB::new(KEY).decrypt(&[]), Err(AesError::LengthMismatch));
    assert_eq!(Aes128ECB::new(KEY).decrypt(&message(15)), Err(AesError::LengthMismatch));
    assert_eq!(Aes128CBC::new(KEY, IV).decrypt(&[]), Err(AesError::LengthMismatch));
    assert_eq!(Aes128CBC::new(KEY, IV).decrypt(&message(17)), Err(AesError::LengthMismatch));
}

#[test]
fn tampered_last_byte_is_detected() {
    let ecb = Aes128ECB::new(KEY);
    let mut c = ecb.encrypt(&PLAIN, 16).unwrap();
    c[15] ^= 0x01;
    assert_eq!(ecb.decrypt(&c), Err(AesError::InvalidPadding));

    let cbc = Aes128CBC::new(KEY, IV);
    let mut c = cbc.encrypt(&PLAIN, 16).unwrap();
    c[15] ^= 0x01;
    assert_eq!(cbc.decrypt(&c), Err(AesError::InvalidPadding));
}

#[test]
fn cbc_changed_block_affects_it_and_the_next() {
    let cbc = Aes128CBC::new(KEY, IV);
    let p = message(40);
    let c = cbc.encrypt(&p, 48).unwrap();
    let mut t = c.clone();
    t[3] ^= 0x80;
    let q = cbc.decrypt(&t).unwrap();
    assert_eq!(q.len(), 40);
    assert_ne!(q[0..16], p[0..16]);
    assert_ne!(q[16..32], p[16..32]);
    assert_eq!(q[32..40], p[32..40]);
    // only the matching byte of the following block flips
    for i in 16..32 {
        if i == 19 {
            assert_eq!(q[i], p[i] ^ 0x80);
        } else {
            assert_eq!(q[i], p[i]);
        }
    }
}

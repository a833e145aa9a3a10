use const_aes::utils::decrypt::{calculate_rsbox, decrypt_block, mix_columns_rev, shift_rows_rev};
use const_aes::utils::encrypt::{encrypt_block, mix_columns, shift_rows};
use const_aes::utils::{add_round_key, gf_multiply, key_schedule, sub_bytes, SBOX};

const FIPS_KEY: [u8; 16] = [
    0x2b, 0x7e, 0x15, 0x16,
    0x28, 0xae, 0xd2, 0xa6,
    0xab, 0xf7, 0x15, 0x88,
    0x09, 0xcf, 0x4f, 0x3c,
];

#[test]
fn test_sub_bytes() {
    let mut block = [
        0x0c, 0x0d, 0x0e, 0x0f,
        0x08, 0x09, 0x0a, 0x0b,
        0x04, 0x05, 0x06, 0x07,
        0x00, 0x01, 0x02, 0x03,
    ];

    let expected = [
        0xfe, 0xd7, 0xab, 0x76,
        0x30, 0x01, 0x67, 0x2b,
        0xf2, 0x6b, 0x6f, 0xc5,
        0x63, 0x7c, 0x77, 0x7b,
    ];

    sub_bytes(&mut block, &SBOX);
    assert_eq!(block, expected);
}

#[test]
fn test_shift_rows() {
    let mut block = [
        0x00, 0x01, 0x02, 0x03,
        0x04, 0x05, 0x06, 0x07,
        0x08, 0x09, 0x0A, 0x0B,
        0x0C, 0x0D, 0x0E, 0x0F,
    ];

    let expected = [
        0x00, 0x05, 0x0A, 0x0F,
        0x04, 0x09, 0x0E, 0x03,
        0x08, 0x0D, 0x02, 0x07,
        0x0C, 0x01, 0x06, 0x0B,
    ];

    shift_rows(&mut block);
    assert_eq!(block, expected);
}

#[test]
fn test_mix_columns() {
    let mut block = [
        0xdb, 0x13, 0x53, 0x45,
        0xf2, 0x0a, 0x22, 0x5c,
        0x01, 0x01, 0x01, 0x01,
        0xc6, 0xc6, 0xc6, 0xc6,
    ];

    let expected = [
        0x8e, 0x4d, 0xa1, 0xbc,
        0x9f, 0xdc, 0x58, 0x9d,
        0x01, 0x01, 0x01, 0x01,
        0xc6, 0xc6, 0xc6, 0xc6,
    ];

    mix_columns(&mut block);
    assert_eq!(block, expected);
}

#[test]
fn test_encrypt_block() {
    let block: [u8; 16] = [
        0x32, 0x43, 0xf6, 0xa8,
        0x88, 0x5a, 0x30, 0x8d,
        0x31, 0x31, 0x98, 0xa2,
        0xe0, 0x37, 0x07, 0x34,
    ];

    let expected: [u8; 16] = [
        0x39, 0x25, 0x84, 0x1d,
        0x02, 0xdc, 0x09, 0xfb,
        0xdc, 0x11, 0x85, 0x97,
        0x19, 0x6a, 0x0b, 0x32,
    ];

    let round_keys: [[u8; 16]; 11] = key_schedule(&FIPS_KEY);
    let encrypted_block: [u8; 16] = encrypt_block(&block, &round_keys);

    assert_eq!(encrypted_block, expected);
}

#[test]
fn test_add_round_key() {
    let mut block = [
        0x04, 0xe0, 0x48, 0x28,
        0x66, 0xcb, 0xf8, 0x06,
        0x81, 0x19, 0xd3, 0x26,
        0xe5, 0x9a, 0x7a, 0x4c,
    ];

    let round_key = [
        0xa0, 0x88, 0x23, 0x2a,
        0xfa, 0x54, 0xa3, 0x6c,
        0xfe, 0x2c, 0x39, 0x76,
        0x17, 0xb1, 0x39, 0x05,
    ];

    let expected = [
        0xa4, 0x68, 0x6b, 0x02,
        0x9c, 0x9f, 0x5b, 0x6a,
        0x7f, 0x35, 0xea, 0x50,
        0xf2, 0x2b, 0x43, 0x49,
    ];

    add_round_key(&mut block, &round_key);
    assert_eq!(block, expected);
}

#[test]
fn test_sub_bytes_double() {
    let mut block = [
        0xfe, 0xd7, 0xab, 0x76,
        0x30, 0x01, 0x67, 0x2b,
        0xf2, 0x6b, 0x6f, 0xc5,
        0x63, 0x7c, 0x77, 0x7b,
    ];

    let expected = block;

    let rsbox = calculate_rsbox();

    sub_bytes(&mut block, &SBOX);
    sub_bytes(&mut block, &rsbox);

    assert_eq!(block, expected);
}

#[test]
fn test_shift_rows_double() {
    let mut block = [
        0x00, 0x01, 0x02, 0x03,
        0x04, 0x05, 0x06, 0x07,
        0x08, 0x09, 0x0A, 0x0B,
        0x0C, 0x0D, 0x0E, 0x0F,
    ];

    let expected = block;

    shift_rows(&mut block);
    shift_rows_rev(&mut block);

    assert_eq!(block, expected);
}

#[test]
fn test_mix_columns_double() {
    let mut block = [
        0xdb, 0x13, 0x53, 0x45,
        0xf2, 0x0a, 0x22, 0x5c,
        0x01, 0x01, 0x01, 0x01,
        0xc6, 0xc6, 0xc6, 0xc6,
    ];

    let expected = block;

    mix_columns(&mut block);
    mix_columns_rev(&mut block);

    assert_eq!(block, expected);
}

#[test]
fn test_key_schedule_aes128() {
    let expected: [u8; 16] = [
        0xd0, 0x14, 0xf9, 0xa8,
        0xc9, 0xee, 0x25, 0x89,
        0xe1, 0x3f, 0x0c, 0xc8,
        0xb6, 0x63, 0x0c, 0xa6,
    ];

    let round_keys: [[u8; 16]; 11] = key_schedule(&FIPS_KEY);

    assert_eq!(round_keys[10], expected);
}

#[test]
fn key_schedule_first_round_key_is_the_key() {
    let round_keys = key_schedule(&FIPS_KEY);
    assert_eq!(round_keys[0], FIPS_KEY);
    assert_eq!(
        round_keys[1],
        [0xa0, 0xfa, 0xfe, 0x17, 0x88, 0x54, 0x2c, 0xb1, 0x23, 0xa3, 0x39, 0x39, 0x2a, 0x6c, 0x76, 0x05]
    );
}

#[test]
fn gf_multiply_known_products() {
    assert_eq!(gf_multiply(0x57, 0x83), 0xc1);
    assert_eq!(gf_multiply(0x57, 0x13), 0xfe);
    assert_eq!(gf_multiply(0x02, 0x80), 0x1b);
    assert_eq!(gf_multiply(0x03, 0x00), 0x00);
    assert_eq!(gf_multiply(0x01, 0xc6), 0xc6);
}

#[test]
fn inverse_sbox_entries() {
    let rsbox = calculate_rsbox();
    assert_eq!(rsbox[0x63], 0x00);
    assert_eq!(rsbox[0x7c], 0x01);
    assert_eq!(rsbox[0x16], 0xff);
    for x in 0..256usize {
        assert_eq!(rsbox[SBOX[x] as usize] as usize, x);
    }
}

#[test]
fn shift_rows_rev_rotates_right() {
    let mut block = [
        0x00, 0x05, 0x0A, 0x0F,
        0x04, 0x09, 0x0E, 0x03,
        0x08, 0x0D, 0x02, 0x07,
        0x0C, 0x01, 0x06, 0x0B,
    ];
    shift_rows_rev(&mut block);
    assert_eq!(block, [0, 1, 2, 3, 4, 5, 6, 7, 8, 9, 10, 11, 12, 13, 14, 15]);
}

#[test]
fn mix_columns_rev_known_column() {
    let mut block = [
        0x8e, 0x4d, 0xa1, 0xbc,
        0x9f, 0xdc, 0x58, 0x9d,
        0x01, 0x01, 0x01, 0x01,
        0xc6, 0xc6, 0xc6, 0xc6,
    ];
    mix_columns_rev(&mut block);
    assert_eq!(
        block,
        [0xdb, 0x13, 0x53, 0x45, 0xf2, 0x0a, 0x22, 0x5c, 0x01, 0x01, 0x01, 0x01, 0xc6, 0xc6, 0xc6, 0xc6]
    );
}

#[test]
fn decrypt_block_fips_vector() {
    let cipher: [u8; 16] = [
        0x39, 0x25, 0x84, 0x1d, 0x02, 0xdc, 0x09, 0xfb, 0xdc, 0x11, 0x85, 0x97, 0x19, 0x6a, 0x0b, 0x32,
    ];
    let round_keys = key_schedule(&FIPS_KEY);
    assert_eq!(
        decrypt_block(&cipher, &round_keys),
        [0x32, 0x43, 0xf6, 0xa8, 0x88, 0x5a, 0x30, 0x8d, 0x31, 0x31, 0x98, 0xa2, 0xe0, 0x37, 0x07, 0x34]
    );
}

#[test]
fn fips_197_appendix_c_vector() {
    let key: [u8; 16] = [0, 1, 2, 3, 4, 5, 6, 7, 8, 9, 10, 11, 12, 13, 14, 15];
    let plain: [u8; 16] = [
        0x00, 0x11, 0x22, 0x33, 0x44, 0x55, 0x66, 0x77, 0x88, 0x99, 0xaa, 0xbb, 0xcc, 0xdd, 0xee, 0xff,
    ];
    let expected: [u8; 16] = [
        0x69, 0xc4, 0xe0, 0xd8, 0x6a, 0x7b, 0x04, 0x30, 0xd8, 0xcd, 0xb7, 0x80, 0x70, 0xb4, 0xc5, 0x5a,
    ];
    let round_keys = key_schedule(&key);
    assert_eq!(encrypt_block(&plain, &round_keys), expected);
    assert_eq!(decrypt_block(&expected, &round_keys), plain);
}

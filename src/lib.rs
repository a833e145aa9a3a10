use vstd::prelude::*;

pub mod aes;
pub mod utils;

verus! {

/// Why an encryption or decryption was refused.
#[derive(Debug, Clone, Copy, PartialEq, Eq, Structural)]
pub enum AesError {
    /// A buffer length breaks the block-alignment or padding contract.
    LengthMismatch,
    /// The decrypted data does not end in a well-formed PKCS7 trailer.
    InvalidPadding,
}

/// AES-128 in electronic codebook mode: every block is encrypted on its own.
pub struct Aes128ECB {
    key: [u8; 16],
}

impl Aes128ECB {
    /// The key the context was made with.
    pub open(crate) spec fn key_spec(&self) -> Seq<u8> {
        self.key@
    }
}

/// AES-128 in cipher block chaining mode: every block is XORed with the previous
/// ciphertext block (the IV for the first) before it is encrypted.
pub struct Aes128CBC {
    key: [u8; 16],
    iv: [u8; 16],
}

impl Aes128CBC {
    /// The key the context was made with.
    pub open(crate) spec fn key_spec(&self) -> Seq<u8> {
        self.key@
    }

    /// The initialization vector the context was made with.
    pub open(crate) spec fn iv_spec(&self) -> Seq<u8> {
        self.iv@
    }
}

} // verus!

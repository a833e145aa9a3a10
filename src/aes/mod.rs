use vstd::prelude::*;

use crate::utils::encrypt::{pad_len, pkcs7_byte, pkcs7_pad};
use crate::AesError;

pub mod cbc;
pub mod ecb;

verus! {

/// Block `j` of `s`: bytes `16 * j` up to `16 * j + 16`.
pub open spec fn block_of(s: Seq<u8>, j: int) -> Seq<u8> {
    s.subrange(16 * j, 16 * j + 16)
}

/// The bytes of a result, or its error.
pub open spec fn outcome(r: Result<Vec<u8>, AesError>) -> Result<Seq<u8>, AesError> {
    match r {
        Ok(v) => Ok(v@),
        Err(e) => Err(e),
    }
}

/// Copies the message and appends its PKCS7 padding.
pub(crate) fn pad_message(plain: &[u8]) -> (r: Vec<u8>)
    requires
        plain@.len() + 16 <= usize::MAX,
    ensures
        r@ == pkcs7_pad(plain@),
{
    let n = plain.len();
    let pad = pkcs7_byte(n);
    let mut buf: Vec<u8> = Vec::new();
    let mut i: usize = 0;
    while i < n
        invariant
            i <= n,
            n == plain@.len(),
            buf@ == plain@.subrange(0, i as int),
        decreases n - i,
    {
        buf.push(plain[i]);
        i += 1;
        assert(buf@ =~= plain@.subrange(0, i as int));
    }
    let mut k: u8 = 0;
    while k < pad
        invariant
            k <= pad,
            pad as nat == pad_len(n as nat),
            n == plain@.len(),
            buf@ == plain@ + Seq::new(k as nat, |_i: int| pad),
        decreases pad - k,
    {
        buf.push(pad);
        k += 1;
        assert(buf@ =~= plain@ + Seq::new(k as nat, |_i: int| pad));
    }
    assert(buf@ =~= pkcs7_pad(plain@));
    buf
}

/// Copies block `j` out of `s`.
pub(crate) fn load_block(s: &[u8], j: usize) -> (r: [u8; 16])
    requires
        16 * j + 16 <= s.len(),
    ensures
        r@ == block_of(s@, j as int),
{
    let start = 16 * j;
    let mut b = [0u8; 16];
    let mut k: usize = 0;
    while k < 16
        invariant
            k <= 16,
            start == 16 * j,
            start + 16 <= s@.len(),
            b@.len() == 16,
            forall|m: int| 0 <= m < k ==> b@[m] == s@[start + m],
        decreases 16 - k,
    {
        b[k] = s[start + k];
        k += 1;
    }
    assert(b@ =~= block_of(s@, j as int));
    b
}

/// Appends the 16 bytes of a block.
pub(crate) fn append_block(out: &mut Vec<u8>, b: &[u8; 16])
    ensures
        final(out)@ == old(out)@ + b@,
{
    let ghost start = out@;
    let mut k: usize = 0;
    while k < 16
        invariant
            k <= 16,
            b@.len() == 16,
            out@ == start + b@.subrange(0, k as int),
        decreases 16 - k,
    {
        out.push(b[k]);
        k += 1;
        assert(out@ =~= start + b@.subrange(0, k as int));
    }
    assert(b@.subrange(0, 16) =~= b@);
}

/// Splitting byte `i` into its block and offset.
pub(crate) proof fn lemma_block_index(i: int, j: int)
    requires
        16 * j <= i < 16 * j + 16,
    ensures
        i / 16 == j,
        i % 16 == i - 16 * j,
{
}

/// The block that holds byte `i` of a buffer of whole blocks lies inside it.
pub(crate) proof fn lemma_block_in_range(n: int, i: int)
    requires
        n % 16 == 0,
        0 <= i < n,
    ensures
        16 * (i / 16) + 16 <= n,
{
}

} // verus!

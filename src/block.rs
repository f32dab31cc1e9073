use crate::types::FormatError;
use aes::cipher::generic_array::GenericArray;
use aes::cipher::{BlockDecrypt, NewBlockCipher};
use aes::Aes128;
use vstd::arithmetic::div_mod::lemma_fundamental_div_mod_converse;
use vstd::prelude::*;

verus! {

/// AES-128 decryption of the 16-byte `block` under the 16-byte `key`.
pub uninterp spec fn aes128_decrypt_block(key: Seq<u8>, block: Seq<u8>) -> Seq<u8>;

/// Relies on `aes::Aes128` (`NewBlockCipher::new`, then
/// `BlockDecrypt::decrypt_block`): one block decrypted under one key, the
/// result depending on the two alone.
#[verifier::external_body]
#[allow(deprecated)]
fn decrypt_block(key: &[u8; 16], block: &[u8]) -> (r: [u8; 16])
    requires
        block@.len() == 16,
    ensures
        r@ == aes128_decrypt_block(key@, block@),
{
    let cipher = Aes128::new(GenericArray::from_slice(key));
    let mut b = GenericArray::clone_from_slice(block);
    cipher.decrypt_block(&mut b);
    b.into()
}

/// Electronic-codebook decryption: each 16-byte block of `data` decrypted on
/// its own.
pub open spec fn ecb_decrypt(key: Seq<u8>, data: Seq<u8>) -> Seq<u8> {
    Seq::new(
        data.len(),
        |i: int| aes128_decrypt_block(key, data.subrange(i - i % 16, i - i % 16 + 16))[i % 16],
    )
}

/// Drops as many trailing bytes as the last byte says, when it says at most
/// 16; otherwise keeps `d` whole.
pub open spec fn strip_padding(d: Seq<u8>) -> Seq<u8> {
    if d.last() <= 16 {
        d.subrange(0, d.len() - d.last())
    } else {
        d
    }
}

/// A length that the block cipher takes: a positive multiple of 16.
pub open spec fn is_block_length(n: nat) -> bool {
    n > 0 && n % 16 == 0
}

/// Decrypts `buf` block by block under `key`, then strips the padding that
/// its last byte announces. Fails with `BadAes` exactly when the length of
/// `buf` is not a positive multiple of 16.
pub fn aes_decrypt(key: &[u8; 16], buf: &[u8]) -> (r: Result<Vec<u8>, FormatError>)
    ensures
        !is_block_length(buf@.len()) ==> r matches Err(FormatError::BadAes),
        is_block_length(buf@.len()) ==> (r matches Ok(v) && v@ == strip_padding(
            ecb_decrypt(key@, buf@),
        )),
{
    let n = buf.len();
    if n == 0 || n % 16 != 0 {
        return Err(FormatError::BadAes);
    }
    let ghost whole = ecb_decrypt(key@, buf@);
    let mut out: Vec<u8> = Vec::new();
    let mut b: usize = 0;
    while b < n / 16
        invariant
            n == buf@.len(),
            n % 16 == 0,
            whole == ecb_decrypt(key@, buf@),
            b <= n / 16,
            out@.len() == b * 16,
            forall|m: int| 0 <= m < out@.len() ==> out@[m] == whole[m],
        decreases n / 16 - b,
    {
        let block = decrypt_block(key, &buf[b * 16..b * 16 + 16]);
        let mut k: usize = 0;
        while k < 16
            invariant
                n == buf@.len(),
                whole == ecb_decrypt(key@, buf@),
                b < n / 16,
                b * 16 + 16 <= n,
                k <= 16,
                block@ == aes128_decrypt_block(
                    key@,
                    buf@.subrange(b * 16 as int, b * 16 + 16 as int),
                ),
                out@.len() == b * 16 + k,
                forall|m: int| 0 <= m < out@.len() ==> out@[m] == whole[m],
            decreases 16 - k,
        {
            proof {
                lemma_fundamental_div_mod_converse(b * 16 + k, 16, b as int, k as int);
            }
            out.push(block[k]);
            k = k + 1;
        }
        b = b + 1;
    }
    assert(out@ =~= whole);
    let pad = out[n - 1];
    if pad <= 16 {
        out.truncate(n - pad as usize);
        assert(out@ =~= strip_padding(whole));
    }
    Ok(out)
}

} // verus!

use crate::types::FormatError;
use vstd::prelude::*;

verus! {

/// The little-endian 32-bit integer held by the four bytes of `s` from `at`.
pub open spec fn le_u32_at(s: Seq<u8>, at: int) -> nat {
    (s[at] + s[at + 1] * 256 + s[at + 2] * 65536 + s[at + 3] * 16777216) as nat
}

/// Each byte of `s` XORed with `mask`.
pub open spec fn xor_bytes(s: Seq<u8>, mask: u8) -> Seq<u8> {
    Seq::new(s.len(), |i: int| s[i] ^ mask)
}

/// A copy of `x` with each byte XORed with `mask`.
pub fn xor_mask(x: &[u8], mask: u8) -> (r: Vec<u8>)
    ensures
        r@ == xor_bytes(x@, mask),
{
    let mut out: Vec<u8> = Vec::new();
    let mut i: usize = 0;
    while i < x.len()
        invariant
            i <= x@.len(),
            out@.len() == i,
            forall|k: int| 0 <= k < i ==> out@[k] == x@[k] ^ mask,
        decreases x@.len() - i,
    {
        out.push(x[i] ^ mask);
        i = i + 1;
    }
    assert(out@ =~= xor_bytes(x@, mask));
    out
}

/// Takes the first `n` bytes of `x`, and what follows them; fails when fewer
/// than `n` bytes are there.
pub fn split(x: &[u8], n: usize) -> (r: Result<(&[u8], &[u8]), FormatError>)
    ensures
        n <= x@.len() ==> (r matches Ok((a, b)) && a@ == x@.subrange(0, n as int) && b@
            == x@.subrange(n as int, x@.len() as int)),
        n > x@.len() ==> r == Err::<(&[u8], &[u8]), FormatError>(FormatError::UnexpectedEof),
{
    if n <= x.len() {
        Ok(x.split_at(n))
    } else {
        Err(FormatError::UnexpectedEof)
    }
}

/// Reads a little-endian 32-bit integer from the start of `x`, and returns it
/// with the bytes that follow; fails when fewer than four bytes are there.
pub fn read_u32(x: &[u8]) -> (r: Result<(u32, &[u8]), FormatError>)
    ensures
        x@.len() >= 4 ==> (r matches Ok((v, rest)) && v == le_u32_at(x@, 0) && rest@
            == x@.subrange(4, x@.len() as int)),
        x@.len() < 4 ==> r == Err::<(u32, &[u8]), FormatError>(FormatError::UnexpectedEof),
{
    match split(x, 4) {
        Ok((n, rest)) => {
            let v: u32 = n[0] as u32 + n[1] as u32 * 256 + n[2] as u32 * 65536 + n[3] as u32
                * 16777216;
            Ok((v, rest))
        },
        Err(e) => Err(e),
    }
}

} // verus!

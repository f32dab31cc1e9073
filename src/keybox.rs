use crate::types::FormatError;
use vstd::arithmetic::div_mod::{lemma_fundamental_div_mod, lemma_fundamental_div_mod_converse};
use vstd::prelude::*;

verus! {

/// The table before any shuffling: entry `i` holds `i`.
pub open spec fn identity_table() -> Seq<u8> {
    Seq::new(256, |i: int| i as u8)
}

/// The table and the last swap position after the first `k` rounds of the
/// keyed shuffle. Round `i` swaps entry `i` with entry
/// `(table[i] + last_pos + key[i mod key length]) mod 256`.
pub open spec fn shuffle_state(key: Seq<u8>, k: nat) -> (Seq<u8>, nat)
    decreases k,
{
    if k == 0 {
        (identity_table(), 0)
    } else {
        let (t, last) = shuffle_state(key, (k - 1) as nat);
        let i = k - 1;
        let pos = ((t[i] + last + key[i % (key.len() as int)]) % 256) as nat;
        (t.update(i, t[pos as int]).update(pos as int, t[i]), pos)
    }
}

/// The key box derived from `key`: the table after all 256 rounds.
pub open spec fn key_box_of(key: Seq<u8>) -> Seq<u8> {
    shuffle_state(key, 256).0
}

/// Some entry of the 256-entry table `t` holds `v`.
pub open spec fn holds_value(t: Seq<u8>, v: u8) -> bool {
    exists|i: int| 0 <= i < 256 && t[i] == v
}

/// `t` holds each of the 256 byte values exactly once.
pub open spec fn is_byte_permutation(t: Seq<u8>) -> bool {
    &&& t.len() == 256
    &&& forall|i: int, j: int| 0 <= i < 256 && 0 <= j < 256 && i != j ==> t[i] != t[j]
    &&& forall|v: u8| #[trigger] holds_value(t, v)
}

/// The keystream byte for global payload position `i`.
pub open spec fn keystream_at(t: Seq<u8>, i: int) -> u8 {
    let j = (i + 1) % 256;
    t[(t[j] + t[(t[j] + j) % 256]) % 256]
}

/// `data` with each byte XORed with the keystream byte of its global
/// position, the first byte standing at position `start`.
pub open spec fn apply_keystream(t: Seq<u8>, data: Seq<u8>, start: int) -> Seq<u8> {
    Seq::new(data.len(), |k: int| data[k] ^ keystream_at(t, start + k))
}

proof fn lemma_swap_keeps_permutation(t: Seq<u8>, i: int, p: int)
    requires
        is_byte_permutation(t),
        0 <= i < 256,
        0 <= p < 256,
    ensures
        is_byte_permutation(t.update(i, t[p]).update(p, t[i])),
{
    let u = t.update(i, t[p]).update(p, t[i]);
    assert forall|v: u8| #[trigger] holds_value(u, v) by {
        assert(holds_value(t, v));
        let w = choose|k: int| 0 <= k < 256 && t[k] == v;
        if w == i {
            assert(u[p] == v);
        } else if w == p {
            assert(u[i] == v);
        } else {
            assert(u[w] == v);
        }
    }
}

/// Whatever the key, every round of the shuffle leaves a permutation of the
/// byte values, and the last swap position below 256.
pub proof fn lemma_shuffle_state_is_permutation(key: Seq<u8>, k: nat)
    requires
        k <= 256,
    ensures
        is_byte_permutation(shuffle_state(key, k).0),
        shuffle_state(key, k).1 < 256,
    decreases k,
{
    if k == 0 {
        let t = identity_table();
        assert forall|v: u8| #[trigger] holds_value(t, v) by {
            assert(t[v as int] == v);
        }
    } else {
        lemma_shuffle_state_is_permutation(key, (k - 1) as nat);
        let (t, last) = shuffle_state(key, (k - 1) as nat);
        let i = k - 1;
        let pos = ((t[i] + last + key[i % (key.len() as int)]) % 256) as nat;
        lemma_swap_keeps_permutation(t, i, pos as int);
    }
}

/// For any key bytes, the key box is a bijection on the byte values.
pub proof fn lemma_key_box_is_permutation(key: Seq<u8>)
    ensures
        is_byte_permutation(key_box_of(key)),
{
    lemma_shuffle_state_is_permutation(key, 256);
}

/// Building the key box is deterministic: equal keys give equal boxes.
pub proof fn lemma_key_box_deterministic(a: Seq<u8>, b: Seq<u8>)
    requires
        a == b,
    ensures
        key_box_of(a) == key_box_of(b),
{
}

/// The keystream is its own inverse: applying it twice at the same positions
/// gives back the original bytes, whatever their number.
pub proof fn lemma_keystream_self_inverse(t: Seq<u8>, data: Seq<u8>, start: int)
    ensures
        apply_keystream(t, apply_keystream(t, data, start), start) == data,
{
    let once = apply_keystream(t, data, start);
    let twice = apply_keystream(t, once, start);
    assert forall|k: int| 0 <= k < data.len() implies twice[k] == data[k] by {
        let d = data[k];
        let s = keystream_at(t, start + k);
        assert((d ^ s) ^ s == d) by (bit_vector);
    }
    assert(twice =~= data);
}

/// Processing a payload in pieces, each at its global position, gives what
/// processing it whole gives.
pub proof fn lemma_keystream_pieces(t: Seq<u8>, a: Seq<u8>, b: Seq<u8>, start: int)
    ensures
        apply_keystream(t, a + b, start) == apply_keystream(t, a, start) + apply_keystream(
            t,
            b,
            start + a.len(),
        ),
{
    assert(apply_keystream(t, a + b, start) =~= apply_keystream(t, a, start) + apply_keystream(
        t,
        b,
        start + a.len(),
    ));
}

/// The keystream repeats every 256 positions, so positions counted from the
/// start of a piece are right when every earlier piece is a multiple of 256
/// bytes long.
pub proof fn lemma_keystream_period(t: Seq<u8>, i: int)
    ensures
        keystream_at(t, i + 256) == keystream_at(t, i),
{
    assert((i + 256 + 1) % 256 == (i + 1) % 256);
}

/// A 256-entry byte permutation derived from a key, which yields the audio
/// keystream.
pub struct KeyBox {
    table: Vec<u8>,
}

impl View for KeyBox {
    type V = Seq<u8>;

    closed spec fn view(&self) -> Seq<u8> {
        self.table@
    }
}

impl KeyBox {
    /// Holds 256 entries.
    pub open spec fn wf(&self) -> bool {
        self@.len() == 256
    }

    /// Runs the keyed shuffle over `key`; an empty key is too short.
    pub fn new(key: &[u8]) -> (r: Result<KeyBox, FormatError>)
        ensures
            key@.len() == 0 ==> r matches Err(FormatError::BadLength),
            key@.len() > 0 ==> (r matches Ok(kb) && kb@ == key_box_of(key@) && kb.wf()
                && is_byte_permutation(kb@)),
    {
        if key.len() == 0 {
            return Err(FormatError::BadLength);
        }
        let mut table: Vec<u8> = Vec::new();
        let mut i: usize = 0;
        while i < 256
            invariant
                i <= 256,
                table@.len() == i,
                forall|j: int| 0 <= j < i ==> table@[j] == j as u8,
            decreases 256 - i,
        {
            table.push(i as u8);
            i = i + 1;
        }
        assert(table@ =~= identity_table());
        let ghost klen = key@.len() as int;
        let mut last_pos: usize = 0;
        let mut offset: usize = 0;
        i = 0;
        while i < 256
            invariant
                i <= 256,
                klen == key@.len(),
                klen > 0,
                table@.len() == 256,
                last_pos < 256,
                offset < klen,
                offset == (i as int) % klen,
                (table@, last_pos as nat) == shuffle_state(key@, i as nat),
            decreases 256 - i,
        {
            let pos: usize = (table[i] as usize + last_pos + key[offset] as usize) % 256;
            let ghost off0 = offset as int;
            let t = table[i];
            let tp = table[pos];
            table.set(i, tp);
            table.set(pos, t);
            offset = offset + 1;
            if offset >= key.len() {
                offset = 0;
            }
            proof {
                let q = (i as int) / klen;
                lemma_fundamental_div_mod(i as int, klen);
                assert(klen * q == q * klen) by (nonlinear_arith);
                assert((q + 1) * klen == q * klen + klen) by (nonlinear_arith);
                if off0 + 1 < klen {
                    lemma_fundamental_div_mod_converse(i as int + 1, klen, q, off0 + 1);
                } else {
                    lemma_fundamental_div_mod_converse(i as int + 1, klen, q + 1, 0);
                }
            }
            last_pos = pos;
            i = i + 1;
        }
        proof {
            lemma_key_box_is_permutation(key@);
        }
        Ok(KeyBox { table })
    }

    /// The keystream byte for global payload position `i`.
    pub fn keystream_byte(&self, i: usize) -> (r: u8)
        requires
            self.wf(),
        ensures
            r == keystream_at(self@, i as int),
    {
        let j: usize = (i % 256 + 1) % 256;
        assert(j == (i as int + 1) % 256);
        let a: usize = self.table[j] as usize;
        let b: usize = self.table[(a + j) % 256] as usize;
        self.table[(a + b) % 256]
    }

    /// XORs each byte of `data` with the keystream byte of its global
    /// position, `start` being the position of the first byte. Applied twice
    /// at the same positions it restores the original bytes.
    pub fn apply(&self, data: &mut Vec<u8>, start: usize)
        requires
            self.wf(),
            start + old(data)@.len() <= usize::MAX,
        ensures
            final(data)@ == apply_keystream(self@, old(data)@, start as int),
    {
        let n = data.len();
        let mut k: usize = 0;
        while k < n
            invariant
                self.wf(),
                start + n <= usize::MAX,
                n == old(data)@.len(),
                data@.len() == n,
                k <= n,
                forall|m: int|
                    0 <= m < k ==> data@[m] == old(data)@[m] ^ keystream_at(self@, start + m),
                forall|m: int| k <= m < n ==> data@[m] == old(data)@[m],
            decreases n - k,
        {
            let x = data[k] ^ self.keystream_byte(start + k);
            data.set(k, x);
            k = k + 1;
        }
        assert(data@ =~= apply_keystream(self@, old(data)@, start as int));
    }
}

} // verus!

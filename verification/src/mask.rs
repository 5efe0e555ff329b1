//! The masking transform: a 4-byte XOR mask applied cyclically over a byte
//! sequence, and the raw-bytes masking path that prepends a fresh random mask.

use vstd::prelude::*;

verus! {

/// The result of XOR-ing every byte of `data` with `key[i % 4]`.
pub open spec fn xor_cyclic(data: Seq<u8>, key: Seq<u8>) -> Seq<u8>
    recommends
        key.len() == 4,
{
    Seq::new(data.len(), |i: int| data[i] ^ key[i % 4])
}

/// Relies on rand::Rng::gen through rand::thread_rng to draw 4 fresh random
/// bytes; nothing can be promised of their values.
#[verifier::external_body]
pub(crate) fn random_mask() -> [u8; 4] {
    rand::Rng::gen(&mut rand::thread_rng())
}

/// XOR every byte of `data` with `key[i % 4]`. Applying this twice with the
/// same key restores the original bytes (see `lemma_mask_involution`).
pub fn apply_mask(data: &mut Vec<u8>, key: &[u8; 4])
    ensures
        final(data)@ == xor_cyclic(old(data)@, key@),
{
    let n = data.len();
    let mut i: usize = 0;
    while i < n
        invariant
            i <= n,
            n == data@.len(),
            n == old(data)@.len(),
            forall|j: int| 0 <= j < i ==> data@[j] == old(data)@[j] ^ key@[j % 4],
            forall|j: int| i <= j < n ==> data@[j] == old(data)@[j],
        decreases n - i,
    {
        let masked: u8 = data[i] ^ key[i % 4];
        data[i] = masked;
        i += 1;
    }
    proof {
        assert(data@ =~= xor_cyclic(old(data)@, key@));
    }
}

/// Masking is an involution: XOR-ing with the same 4-byte key twice gives
/// back the original byte sequence.
pub proof fn lemma_mask_involution(data: Seq<u8>, key: Seq<u8>)
    requires
        key.len() == 4,
    ensures
        xor_cyclic(xor_cyclic(data, key), key) == data,
{
    let twice = xor_cyclic(xor_cyclic(data, key), key);
    assert forall|i: int| 0 <= i < data.len() implies twice[i] == data[i] by {
        let b = data[i];
        let m = key[i % 4];
        assert((b ^ m) ^ m == b) by (bit_vector);
    }
    assert(twice =~= data);
}

/// Mask an already-serialized frame: draw a fresh random 4-byte mask, XOR the
/// whole byte sequence with it cyclically, and prepend the mask.
pub fn mask_frame(data: &mut Vec<u8>)
    ensures
        final(data)@.len() == old(data)@.len() + 4,
        exists|m: Seq<u8>|
            m.len() == 4 && final(data)@ == m + xor_cyclic(old(data)@, m),
{
    let key = random_mask();
    apply_mask(data, &key);
    let mut out: Vec<u8> = Vec::new();
    out.push(key[0]);
    out.push(key[1]);
    out.push(key[2]);
    out.push(key[3]);
    out.append(data);
    *data = out;
    proof {
        assert(data@ =~= key@ + xor_cyclic(old(data)@, key@));
    }
}

} // verus!

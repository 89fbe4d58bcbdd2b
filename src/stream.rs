use aes::cipher::{KeyIvInit, StreamCipher};
use vstd::prelude::*;

verus! {

/// Byte `pos` of the AES-256 big-endian counter-mode keystream for `key`
/// and `iv`.
pub uninterp spec fn aes256_ctr_keystream(key: Seq<u8>, iv: Seq<u8>, pos: int) -> u8;

/// `data` combined by exclusive-or with the keystream for `key` and `iv`.
pub open spec fn xor_keystream(key: Seq<u8>, iv: Seq<u8>, data: Seq<u8>) -> Seq<u8> {
    Seq::new(data.len(), |i: int| data[i] ^ aes256_ctr_keystream(key, iv, i))
}

/// Relies on ctr::Ctr128BE<aes::Aes256> and StreamCipher::apply_keystream: a
/// freshly built cipher XORs byte `i` of the buffer with byte `i` of the
/// keystream that the key and the IV determine. A 128-bit counter never runs
/// out on a buffer that memory can hold.
#[verifier::external_body]
fn apply_aes256_ctr(key: &[u8; 32], iv: &[u8; 16], data: &mut Vec<u8>)
    ensures
        final(data)@.len() == old(data)@.len(),
        forall|i: int|
            0 <= i < old(data)@.len() ==> #[trigger] final(data)@[i] == old(data)@[i]
                ^ aes256_ctr_keystream(key@, iv@, i),
{
    let mut cipher = ctr::Ctr128BE::<aes::Aes256>::new(key.into(), iv.into());
    cipher.apply_keystream(data.as_mut_slice());
}

/// Applies the keystream for `key` and `iv` to `data`. The same call both
/// encrypts and decrypts.
pub fn transform(key: &[u8; 32], iv: &[u8; 16], data: &[u8]) -> (r: Vec<u8>)
    ensures
        r@ == xor_keystream(key@, iv@, data@),
        r@.len() == data@.len(),
{
    let mut out = vstd::slice::slice_to_vec(data);
    apply_aes256_ctr(key, iv, &mut out);
    assert(out@ =~= xor_keystream(key@, iv@, data@));
    out
}

/// Exclusive-or with the same byte twice gives the byte back.
pub proof fn lemma_xor_twice(a: u8, k: u8)
    ensures
        (a ^ k) ^ k == a,
{
    assert((a ^ k) ^ k == a) by (bit_vector);
}

/// Applying the keystream twice gives the data back.
pub proof fn lemma_xor_keystream_involution(key: Seq<u8>, iv: Seq<u8>, data: Seq<u8>)
    ensures
        xor_keystream(key, iv, xor_keystream(key, iv, data)) == data,
{
    let once = xor_keystream(key, iv, data);
    assert forall|i: int| 0 <= i < data.len() implies #[trigger] xor_keystream(key, iv, once)[i]
        == data[i] by {
        lemma_xor_twice(data[i], aes256_ctr_keystream(key, iv, i));
    }
    assert(xor_keystream(key, iv, once) =~= data);
}

} // verus!

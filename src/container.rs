use crate::keys::{derive_key, derived_key};
use crate::stream::{aes256_ctr_keystream, lemma_xor_keystream_involution, transform, xor_keystream};
use rand::Rng;
use vstd::prelude::*;
use vstd::string::StringSliceAdditionalSpecFns;

verus! {

/// Length of the salt at the start of a container.
pub const SALT_LEN: usize = 16;

/// Length of the IV that follows the salt.
pub const IV_LEN: usize = 16;

/// Length of the header (salt and IV); no valid container is shorter.
pub const HEADER_LEN: usize = 32;

/// Why a byte buffer could not be read as a container.
#[derive(Debug, Clone, Copy, PartialEq, Eq, Structural)]
pub enum ContainerError {
    /// Fewer bytes than the header needs.
    TooSmall,
}

impl ContainerError {
    /// The text shown to a user for this error.
    pub fn message(&self) -> (r: String)
        ensures
            r@ == "Invalid encrypted file: too small"@,
    {
        String::from_str("Invalid encrypted file: too small")
    }
}

/// The container for `plaintext` under `password`, `salt` and `iv`:
/// salt, then IV, then the ciphertext.
pub open spec fn sealed(plaintext: Seq<u8>, password: Seq<u8>, salt: Seq<u8>, iv: Seq<u8>) -> Seq<u8> {
    salt + iv + xor_keystream(derived_key(password, salt), iv, plaintext)
}

/// The plaintext that `container` holds under `password`, or `None` where it
/// is shorter than the header.
pub open spec fn opened(container: Seq<u8>, password: Seq<u8>) -> Option<Seq<u8>> {
    if container.len() < HEADER_LEN {
        None
    } else {
        Some(
            xor_keystream(
                derived_key(password, container.subrange(0, SALT_LEN as int)),
                container.subrange(SALT_LEN as int, HEADER_LEN as int),
                container.subrange(HEADER_LEN as int, container.len() as int),
            ),
        )
    }
}

/// Relies on rand::thread_rng and Rng::fill: sixteen bytes from the
/// thread-local cryptographically secure generator, which the operating
/// system seeds. Nothing is known of their values.
#[verifier::external_body]
fn random_block() -> (r: [u8; 16]) {
    let mut block = [0u8; 16];
    rand::thread_rng().fill(&mut block);
    block
}

/// Lays out a container: the salt, then the IV, then the ciphertext.
pub fn frame(salt: &[u8; 16], iv: &[u8; 16], ciphertext: &[u8]) -> (r: Vec<u8>)
    ensures
        r@ == salt@ + iv@ + ciphertext@,
{
    let mut out: Vec<u8> = Vec::new();
    let mut i: usize = 0;
    while i < SALT_LEN
        invariant
            i <= SALT_LEN,
            salt@.len() == SALT_LEN,
            out@ == salt@.subrange(0, i as int),
        decreases SALT_LEN - i,
    {
        out.push(salt[i]);
        i = i + 1;
    }
    let mut j: usize = 0;
    while j < IV_LEN
        invariant
            j <= IV_LEN,
            salt@.len() == SALT_LEN,
            iv@.len() == IV_LEN,
            out@ == salt@ + iv@.subrange(0, j as int),
        decreases IV_LEN - j,
    {
        out.push(iv[j]);
        j = j + 1;
    }
    let mut k: usize = 0;
    while k < ciphertext.len()
        invariant
            k <= ciphertext@.len(),
            salt@.len() == SALT_LEN,
            iv@.len() == IV_LEN,
            out@ == salt@ + iv@ + ciphertext@.subrange(0, k as int),
        decreases ciphertext@.len() - k,
    {
        out.push(ciphertext[k]);
        k = k + 1;
    }
    assert(ciphertext@.subrange(0, k as int) =~= ciphertext@);
    out
}

/// Reads the salt and the IV from the header of `container`. Fails with
/// `TooSmall` exactly when the container is shorter than its header.
pub fn parse_header(container: &[u8]) -> (r: Result<([u8; 16], [u8; 16]), ContainerError>)
    ensures
        match r {
            Ok((salt, iv)) => container@.len() >= HEADER_LEN && salt@ == container@.subrange(
                0,
                SALT_LEN as int,
            ) && iv@ == container@.subrange(SALT_LEN as int, HEADER_LEN as int),
            Err(e) => e == ContainerError::TooSmall && container@.len() < HEADER_LEN,
        },
{
    if container.len() < HEADER_LEN {
        return Err(ContainerError::TooSmall);
    }
    let mut salt = [0u8; 16];
    let mut iv = [0u8; 16];
    let mut i: usize = 0;
    while i < SALT_LEN
        invariant
            i <= SALT_LEN,
            container@.len() >= HEADER_LEN,
            salt@.len() == SALT_LEN,
            iv@.len() == IV_LEN,
            forall|m: int| 0 <= m < i ==> #[trigger] salt@[m] == container@[m],
            forall|m: int| 0 <= m < i ==> #[trigger] iv@[m] == container@[m + SALT_LEN],
        decreases SALT_LEN - i,
    {
        salt[i] = container[i];
        iv[i] = container[i + SALT_LEN];
        i = i + 1;
    }
    assert(salt@ =~= container@.subrange(0, SALT_LEN as int));
    assert(iv@ =~= container@.subrange(SALT_LEN as int, HEADER_LEN as int));
    Ok((salt, iv))
}

/// Builds the container for `plaintext` under `password` with the given
/// salt and IV.
pub fn seal(plaintext: &[u8], password: &str, salt: &[u8; 16], iv: &[u8; 16]) -> (r: Vec<u8>)
    ensures
        r@ == sealed(plaintext@, password.spec_bytes(), salt@, iv@),
{
    let key = derive_key(password, salt);
    let ciphertext = transform(&key, iv, plaintext);
    frame(salt, iv, &ciphertext)
}

/// Encrypts `plaintext` under `password` with a fresh random salt and IV.
pub fn encrypt_contents(plaintext: &[u8], password: &str) -> (r: Vec<u8>)
    ensures
        r@.len() == plaintext@.len() + HEADER_LEN,
        r@ == sealed(
            plaintext@,
            password.spec_bytes(),
            r@.subrange(0, SALT_LEN as int),
            r@.subrange(SALT_LEN as int, HEADER_LEN as int),
        ),
{
    let salt = random_block();
    let iv = random_block();
    let r = seal(plaintext, password, &salt, &iv);
    assert(r@.subrange(0, SALT_LEN as int) =~= salt@);
    assert(r@.subrange(SALT_LEN as int, HEADER_LEN as int) =~= iv@);
    r
}

/// Reads `container` and recovers its plaintext under `password`. Fails
/// with `TooSmall` exactly when the container is shorter than its header.
pub fn decrypt_contents(container: &[u8], password: &str) -> (r: Result<Vec<u8>, ContainerError>)
    ensures
        match r {
            Ok(p) => opened(container@, password.spec_bytes()) == Some(p@),
            Err(e) => e == ContainerError::TooSmall && container@.len() < HEADER_LEN,
        },
        r is Err <==> container@.len() < HEADER_LEN,
{
    match parse_header(container) {
        Err(e) => Err(e),
        Ok((salt, iv)) => {
            let ciphertext = vstd::slice::slice_subrange(container, HEADER_LEN, container.len());
            let key = derive_key(password, &salt);
            Ok(transform(&key, &iv, ciphertext))
        },
    }
}

/// Opening a sealed container with the same password gives back the
/// plaintext.
pub proof fn lemma_round_trip(plaintext: Seq<u8>, password: Seq<u8>, salt: Seq<u8>, iv: Seq<u8>)
    requires
        salt.len() == SALT_LEN,
        iv.len() == IV_LEN,
    ensures
        opened(sealed(plaintext, password, salt, iv), password) == Some(plaintext),
{
    let c = sealed(plaintext, password, salt, iv);
    let key = derived_key(password, salt);
    assert(c.subrange(0, SALT_LEN as int) =~= salt);
    assert(c.subrange(SALT_LEN as int, HEADER_LEN as int) =~= iv);
    assert(c.subrange(HEADER_LEN as int, c.len() as int) =~= xor_keystream(key, iv, plaintext));
    lemma_xor_keystream_involution(key, iv, plaintext);
}

/// A container is as long as its plaintext plus the header, and what is
/// opened from a container is as long as the container minus the header.
pub proof fn lemma_size_preserved(
    plaintext: Seq<u8>,
    password: Seq<u8>,
    salt: Seq<u8>,
    iv: Seq<u8>,
    container: Seq<u8>,
)
    requires
        salt.len() == SALT_LEN,
        iv.len() == IV_LEN,
        container.len() >= HEADER_LEN,
    ensures
        sealed(plaintext, password, salt, iv).len() == plaintext.len() + HEADER_LEN,
        opened(container, password) is Some,
        opened(container, password).unwrap().len() == container.len() - HEADER_LEN,
{
}

/// No container shorter than the header opens, whatever its bytes.
pub proof fn lemma_too_small_rejected(container: Seq<u8>, password: Seq<u8>)
    requires
        container.len() < HEADER_LEN,
    ensures
        opened(container, password) is None,
{
}

/// Flipping one bit of the ciphertext still opens without error, and flips
/// the same bit of the corresponding plaintext byte and nothing else.
pub proof fn lemma_bit_flip(container: Seq<u8>, password: Seq<u8>, pos: int, bit: u8)
    requires
        HEADER_LEN <= pos < container.len(),
        bit < 8,
    ensures
        ({
            let mask = (1u8 << bit) as u8;
            let tampered = container.update(pos, container[pos] ^ mask);
            let p = opened(container, password).unwrap();
            let q = opened(tampered, password).unwrap();
            &&& opened(tampered, password) is Some
            &&& q.len() == p.len()
            &&& q[pos - HEADER_LEN] == p[pos - HEADER_LEN] ^ mask
            &&& q[pos - HEADER_LEN] != p[pos - HEADER_LEN]
            &&& forall|i: int| 0 <= i < p.len() && i != pos - HEADER_LEN ==> #[trigger] q[i] == p[i]
        }),
{
    let mask = (1u8 << bit) as u8;
    let tampered = container.update(pos, container[pos] ^ mask);
    let salt = container.subrange(0, SALT_LEN as int);
    let iv = container.subrange(SALT_LEN as int, HEADER_LEN as int);
    assert(tampered.subrange(0, SALT_LEN as int) =~= salt);
    assert(tampered.subrange(SALT_LEN as int, HEADER_LEN as int) =~= iv);
    let key = derived_key(password, salt);
    let k = pos - HEADER_LEN;
    let a = container[pos];
    let s = aes256_ctr_keystream(key, iv, k);
    assert(((a ^ mask) ^ s) == ((a ^ s) ^ mask)) by (bit_vector);
    assert(bit < 8 ==> ((1u8 << bit) as u8) != 0u8) by (bit_vector);
    let b = a ^ s;
    assert(mask != 0 ==> (b ^ mask) != b) by (bit_vector);
}

} // verus!

use sha2::Digest;
use vstd::prelude::*;
use vstd::string::StringSliceAdditionalSpecFns;

verus! {

/// The SHA-256 digest of a byte sequence.
pub uninterp spec fn sha256_of(data: Seq<u8>) -> Seq<u8>;

/// The key for a password and a salt: the digest of the password's bytes
/// followed by the salt's bytes, used unchanged.
pub open spec fn derived_key(password: Seq<u8>, salt: Seq<u8>) -> Seq<u8> {
    sha256_of(password + salt)
}

/// Relies on sha2::Sha256::digest: the 32-byte SHA-256 digest of `data`.
#[verifier::external_body]
fn sha256_digest(data: &[u8]) -> (r: [u8; 32])
    ensures
        r@ == sha256_of(data@),
{
    sha2::Sha256::digest(data).into()
}

/// Derives the 32-byte key for `password` and `salt`.
pub fn derive_key(password: &str, salt: &[u8; 16]) -> (key: [u8; 32])
    ensures
        key@ == derived_key(password.spec_bytes(), salt@),
{
    let pw = password.as_bytes();
    let mut data: Vec<u8> = Vec::new();
    let mut i: usize = 0;
    while i < pw.len()
        invariant
            i <= pw@.len(),
            data@ == pw@.subrange(0, i as int),
        decreases pw@.len() - i,
    {
        data.push(pw[i]);
        i = i + 1;
    }
    let mut j: usize = 0;
    while j < 16
        invariant
            j <= 16,
            salt@.len() == 16,
            data@ == pw@ + salt@.subrange(0, j as int),
        decreases 16 - j,
    {
        data.push(salt[j]);
        j = j + 1;
    }
    assert(data@ == pw@ + salt@);
    sha256_digest(data.as_slice())
}

/// The key is a function of the password and the salt: equal inputs give
/// equal keys.
pub proof fn lemma_key_deterministic(
    password1: Seq<u8>,
    salt1: Seq<u8>,
    password2: Seq<u8>,
    salt2: Seq<u8>,
)
    requires
        password1 == password2,
        salt1 == salt2,
    ensures
        derived_key(password1, salt1) == derived_key(password2, salt2),
{
}

} // verus!

//! Password-based file encryption: a key derived from the password and a
//! random salt drives AES-256 in counter mode, and the result is stored as
//! `salt | iv | ciphertext`.

mod container;
mod keys;
mod naming;
mod session;
mod stream;

pub use container::{
    decrypt_contents, encrypt_contents, frame, lemma_bit_flip, lemma_round_trip, lemma_size_preserved, lemma_too_small_rejected, opened, parse_header, seal,
    sealed, ContainerError, HEADER_LEN, IV_LEN, SALT_LEN,
};
pub use keys::{derive_key, derived_key, lemma_key_deterministic, sha256_of};
pub use naming::{
    decrypted_path, decrypted_path_of, encrypted_path, encrypted_path_of, extension_dot,
    extension_of, last_index_of, lemma_naming_round_trip, stem_of, with_extension,
};
pub use session::{decrypted_message, encrypted_message, AppState, EzEncryptApp};
pub use stream::{
    aes256_ctr_keystream, lemma_xor_keystream_involution, lemma_xor_twice, transform, xor_keystream,
};

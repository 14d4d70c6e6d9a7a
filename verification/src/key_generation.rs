use vstd::prelude::*;
use vstd::string::StringSliceAdditionalSpecFns;
use rand::Rng;

verus! {

/// PBKDF2 key-stretching rounds applied to every password.
pub const ITERATIONS: u32 = 600_000;

/// The 32-byte key that PBKDF2 with an HMAC-SHA-256 core derives from a
/// password and a salt in the given number of rounds (RFC 2898): a
/// deterministic function of the three arguments alone.
pub uninterp spec fn pbkdf2_stream_of(password: Seq<u8>, salt: Seq<u8>, rounds: u32) -> Seq<u8>;

/// The key this library derives: the PBKDF2 stream at the fixed round count.
pub open spec fn pbkdf2_key_of(password: Seq<u8>, salt: Seq<u8>) -> Seq<u8> {
    pbkdf2_stream_of(password, salt, ITERATIONS)
}

/// Key derivation is deterministic: the derived key is a function of the
/// password and the salt alone, so two derivations from equal inputs always
/// yield equal keys. Only a fresh random salt makes two encryptions differ.
pub proof fn lemma_derivation_deterministic(
    password_a: Seq<u8>,
    salt_a: Seq<u8>,
    password_b: Seq<u8>,
    salt_b: Seq<u8>,
)
    requires
        password_a == password_b,
        salt_a == salt_b,
    ensures
        pbkdf2_key_of(password_a, salt_a) == pbkdf2_key_of(password_b, salt_b),
{
}

/// Key material derived from a password: the stretched key together with the
/// salt that went into the derivation. The salt is not secret and travels in
/// the clear; the key must never leave the process.
#[derive(Debug, Clone, PartialEq)]
pub struct KeyDetails {
    pub password: String,
    pub key: [u8; 32],
    pub salt: [u8; 16],
}

/// Relies on pbkdf2::pbkdf2_hmac with sha2::Sha256: it fills the output buffer
/// with the PBKDF2 stream of RFC 2898, a deterministic function of password,
/// salt and round count alone; with an HMAC core no key length is rejected.
#[verifier::external_body]
fn pbkdf2_sha256(password: &[u8], salt: &[u8; 16], rounds: u32) -> (key: [u8; 32])
    ensures
        key@ == pbkdf2_stream_of(password@, salt@, rounds),
{
    let mut key_buffer = [0u8; 32];
    pbkdf2::pbkdf2_hmac::<sha2::Sha256>(password, salt, rounds, &mut key_buffer);
    key_buffer
}

/// Relies on rand::thread_rng and rand::Rng::fill: the buffer comes back
/// filled with cryptographically secure random bytes. Nothing is promised of
/// the values, only that the requested count of bytes is returned.
#[verifier::external_body]
pub(crate) fn random_bytes(count: usize) -> (buffer: Vec<u8>)
    ensures
        buffer@.len() == count,
{
    let mut buffer = vec![0u8; count];
    rand::thread_rng().fill(buffer.as_mut_slice());
    buffer
}

/// A fresh random 16-byte salt for one key derivation.
fn generate_salt() -> [u8; 16] {
    let bytes = random_bytes(16);
    let mut buffer = [0u8; 16];
    let mut i: usize = 0;
    while i < 16
        invariant
            i <= 16,
            bytes@.len() == 16,
        decreases 16 - i,
    {
        buffer[i] = bytes[i];
        i = i + 1;
    }
    buffer
}

/// Stretches `password` into a 32-byte key with PBKDF2. When no salt is
/// supplied a fresh random one is generated; a supplied salt is used as given,
/// so the same password and salt always yield the same key.
pub fn derive_key_from_passphrase(password: &str, salt: Option<[u8; 16]>) -> (details: KeyDetails)
    ensures
        details.key@ == pbkdf2_key_of(password.spec_bytes(), details.salt@),
        details.password@ == password@,
        salt matches Some(s) ==> details.salt == s,
{
    let salt = if let Some(salt) = salt {
        salt
    } else {
        generate_salt()
    };

    let key_buffer = pbkdf2_sha256(password.as_bytes(), &salt, ITERATIONS);

    KeyDetails { password: password.to_owned(), key: key_buffer, salt }
}

} // verus!

use dum_cipher::authentication::generate_hmac;
use dum_cipher::key_generation::{derive_key_from_passphrase, KeyDetails};

#[test]
fn derivation_is_deterministic_for_an_explicit_salt() {
    let salt = [3u8; 16];
    let first = derive_key_from_passphrase("pw", Some(salt));
    let second = derive_key_from_passphrase("pw", Some(salt));
    assert_eq!(first.key, second.key);
    assert_eq!(first.salt, second.salt);
    assert_eq!(first.password, "pw");
}

#[test]
fn random_salts_differ_across_derivations() {
    let first = derive_key_from_passphrase("pw", None);
    let second = derive_key_from_passphrase("pw", None);
    // Two random 16-byte salts collide only with negligible probability.
    assert_ne!(first.salt, second.salt);
    assert_ne!(first.key, second.key);
}

#[test]
fn the_key_depends_on_password_and_salt() {
    let salt = [3u8; 16];
    let base = derive_key_from_passphrase("pw", Some(salt));
    let other_password = derive_key_from_passphrase("pw2", Some(salt));
    let other_salt = derive_key_from_passphrase("pw", Some([4u8; 16]));
    assert_ne!(base.key, other_password.key);
    assert_ne!(base.key, other_salt.key);
    assert_ne!(base.key, [0u8; 32]);
}

#[test]
fn hmac_matches_the_published_sha256_vector() {
    // RFC 4231, test case 2: key "Jefe", data "what do ya want for nothing?".
    let mac = generate_hmac(b"what do ya want for nothing?", b"Jefe").unwrap();
    let expected: [u8; 32] = [
        0x5b, 0xdc, 0xc1, 0x46, 0xbf, 0x60, 0x75, 0x4e, 0x6a, 0x04, 0x24, 0x26, 0x08, 0x95, 0x75,
        0xc7, 0x5a, 0x00, 0x3f, 0x08, 0x9d, 0x27, 0x39, 0x83, 0x9d, 0xec, 0x58, 0xb9, 0x64, 0xec,
        0x38, 0x43,
    ];
    assert_eq!(mac, expected);
}

#[test]
fn hmac_depends_on_its_key() {
    let data = b"the same message twice";
    let first = generate_hmac(data, &[1u8; 32]).unwrap();
    let second = generate_hmac(data, &[2u8; 32]).unwrap();
    assert_ne!(first, second);
}

#[test]
fn xor_chunk_masks_against_the_key_prefix() {
    let key_details = KeyDetails {
        password: String::from("unused"),
        key: [0xAAu8; 32],
        salt: [0u8; 16],
    };
    let masked = dum_cipher::dum_encryption::xor_chunk(&[0x00, 0xFF, 0xAA], &key_details).unwrap();
    assert_eq!(masked, vec![0xAA, 0x55, 0x00]);
    // A chunk longer than the 32-byte key cannot be masked.
    assert!(dum_cipher::dum_encryption::xor_chunk(&[0u8; 33], &key_details).is_none());
}

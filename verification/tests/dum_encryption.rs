use dum_cipher::dum_encryption::{
    self, decrypt, encrypt, mirror_data, rotate_chunk, reverse_rotate_chunk, xor_data, CryptError,
    MIRROR_CHUNK_SIZE, ROTATE_CHUNK_SIZE,
};
use dum_cipher::key_generation::derive_key_from_passphrase;

#[test]
fn xor_data_test() {
    let data = b"Hello world!".to_vec();
    let key_details = derive_key_from_passphrase("password", None);

    let xored_data = xor_data(data.clone(), &key_details).unwrap();
    let un_xored_data = xor_data(xored_data.clone(), &key_details).unwrap();

    assert_eq!(data, un_xored_data);
}

#[test]
fn rotate_chunk_test() {
    let data: [u8; ROTATE_CHUNK_SIZE] = b"welcome to my test 123456".to_owned();

    let rotated_data = rotate_chunk(data.clone()).unwrap();
    let reversed_data = reverse_rotate_chunk(rotated_data.clone()).unwrap();

    for i in 0..ROTATE_CHUNK_SIZE {
        assert_eq!(data[i], reversed_data[i]);
    }
}

#[test]
fn dum_e2e_test() {
    let input = b"Lorem ipsum dolor sit amet, consectetur adipiscing".to_vec();
    let password = String::from("password123");

    let encrypted = dum_encryption::encrypt(input.clone(), &password).unwrap();
    let decrypted = dum_encryption::decrypt(encrypted.clone(), &password).unwrap();

    assert_eq!(input, decrypted);
}

#[test]
fn rotate_chunk_changes_the_block() {
    let data: [u8; ROTATE_CHUNK_SIZE] = b"welcome to my test 123456".to_owned();
    let rotated = rotate_chunk(data.clone()).unwrap();
    assert_ne!(data, rotated);
    // Byte 0 lands on position 20 of the 5x5 matrix.
    assert_eq!(rotated[20], data[0]);
    assert_eq!(rotated[4], data[24]);
}

#[test]
fn mirror_involution_on_aligned_buffer() {
    let data: Vec<u8> = (0..(2 * MIRROR_CHUNK_SIZE) as u8).collect();
    let once = mirror_data(data.clone());
    assert_ne!(once, data);
    // The corner swap on each 3x3 block: byte 0 and byte 2 trade places.
    assert_eq!(once[0], data[2]);
    assert_eq!(once[1], data[1]);
    let twice = mirror_data(once);
    assert_eq!(twice, data);
}

#[test]
fn mirror_involution_with_partial_tail() {
    let data: Vec<u8> = (0u8..40u8).collect();
    let twice = mirror_data(mirror_data(data.clone()));
    assert_eq!(twice, data);
}

#[test]
fn empty_plaintext_round_trips_through_73_bytes() {
    let ciphertext = encrypt(Vec::new(), "password").unwrap();
    // 32-byte masked-and-shuffled tag, 16-byte salt, 25-byte IV.
    assert_eq!(ciphertext.len(), 73);
    let plaintext = decrypt(ciphertext, "password").unwrap();
    assert!(plaintext.is_empty());
}

#[test]
fn ciphertext_length_is_plaintext_plus_73() {
    let ciphertext = encrypt(vec![7u8; 51], "password").unwrap();
    assert_eq!(ciphertext.len(), 51 + 73);
}

#[test]
fn tamper_detection_single_bit_flip() {
    let input = b"attack at dawn, bring the big ladder".to_vec();
    let mut ciphertext = encrypt(input, "password").unwrap();
    // Flip one bit in the payload region (everything before the trailer).
    ciphertext[10] ^= 0x01;
    let result = decrypt(ciphertext, "password");
    assert_eq!(result.unwrap_err(), CryptError::AuthenticationFailed);
}

#[test]
fn wrong_password_fails_authentication() {
    let ciphertext = encrypt(b"some secret".to_vec(), "password").unwrap();
    let result = decrypt(ciphertext, "passwore");
    assert_eq!(result.unwrap_err(), CryptError::AuthenticationFailed);
}

#[test]
fn too_short_ciphertext_is_malformed() {
    assert_eq!(
        decrypt(Vec::new(), "password").unwrap_err(),
        CryptError::MalformedInput
    );
    // Room for the 41-byte trailer alone is not enough: the 32-byte tag is missing.
    assert_eq!(
        decrypt(vec![0u8; 41], "password").unwrap_err(),
        CryptError::MalformedInput
    );
    assert_eq!(
        decrypt(vec![0u8; 72], "password").unwrap_err(),
        CryptError::MalformedInput
    );
}

#[test]
fn trailer_carries_salt_and_iv_in_the_clear() {
    let ciphertext = encrypt(b"0123456789".to_vec(), "password").unwrap();
    let n = ciphertext.len();
    let salt: [u8; 16] = ciphertext[n - 41..n - 25].try_into().unwrap();
    let key_details = derive_key_from_passphrase("password", Some(salt));
    assert_eq!(key_details.salt, salt);
}

use vstd::prelude::*;
use vstd::string::StringSliceAdditionalSpecFns;
use crate::authentication;
use crate::authentication::hmac_of;
use crate::key_generation;
use crate::key_generation::{pbkdf2_key_of, KeyDetails};

verus! {

/// Bytes in one block of the rotate stage: a 5x5 matrix.
pub const ROTATE_CHUNK_SIZE: usize = 25;

/// Bytes in one block of the mirror stage: a 3x3 matrix.
pub const MIRROR_CHUNK_SIZE: usize = 9;

/// Why an encryption or a decryption failed.
#[derive(Debug, Clone, Copy, PartialEq, Eq, Structural)]
pub enum CryptError {
    /// The buffer is too short to hold the mandatory trailer and tag.
    MalformedInput,
    /// The tag recomputed over the candidate plaintext does not match the
    /// stored one: the data was tampered with or the password is wrong.
    AuthenticationFailed,
    /// No authentication tag could be produced over the plaintext.
    AuthenticationImpossible,
    /// A block stage received a chunk of an impossible length.
    InternalLengthMismatch,
}

/// Pointwise XOR of `a` against the start of `b`.
pub open spec fn xor_bytes(a: Seq<u8>, b: Seq<u8>) -> Seq<u8> {
    Seq::new(a.len(), |i: int| a[i] ^ b[i])
}

/// The keystream mask: `data` cut into chunks of `key.len()` bytes (the last
/// chunk may be shorter), every chunk XORed against the start of the key. The
/// key is never advanced between chunks.
pub open spec fn xor_with_key(data: Seq<u8>, key: Seq<u8>) -> Seq<u8>
    decreases data.len(),
{
    if key.len() == 0 {
        data
    } else if data.len() <= key.len() {
        xor_bytes(data, key)
    } else {
        xor_bytes(data.take(key.len() as int), key) + xor_with_key(
            data.skip(key.len() as int),
            key,
        )
    }
}

/// Where the byte at position `i` of a rotate block lands: the fixed
/// 90-degree-style rotation of the 5x5 matrix positions.
pub open spec fn rotate_index(i: int) -> int {
    if i == 0 {
        20
    } else if i == 1 {
        15
    } else if i == 2 {
        10
    } else if i == 3 {
        5
    } else if i == 4 {
        0
    } else if i == 5 {
        21
    } else if i == 6 {
        18
    } else if i == 7 {
        17
    } else if i == 8 {
        16
    } else if i == 9 {
        1
    } else if i == 10 {
        22
    } else if i == 11 {
        13
    } else if i == 12 {
        12
    } else if i == 13 {
        11
    } else if i == 14 {
        2
    } else if i == 15 {
        23
    } else if i == 16 {
        8
    } else if i == 17 {
        7
    } else if i == 18 {
        6
    } else if i == 19 {
        3
    } else if i == 20 {
        24
    } else if i == 21 {
        19
    } else if i == 22 {
        14
    } else if i == 23 {
        9
    } else if i == 24 {
        4
    } else {
        i
    }
}

/// The exact inverse of `rotate_index`.
pub open spec fn unrotate_index(i: int) -> int {
    if i == 20 {
        0
    } else if i == 15 {
        1
    } else if i == 10 {
        2
    } else if i == 5 {
        3
    } else if i == 0 {
        4
    } else if i == 21 {
        5
    } else if i == 18 {
        6
    } else if i == 17 {
        7
    } else if i == 16 {
        8
    } else if i == 1 {
        9
    } else if i == 22 {
        10
    } else if i == 13 {
        11
    } else if i == 12 {
        12
    } else if i == 11 {
        13
    } else if i == 2 {
        14
    } else if i == 23 {
        15
    } else if i == 8 {
        16
    } else if i == 7 {
        17
    } else if i == 6 {
        18
    } else if i == 3 {
        19
    } else if i == 24 {
        20
    } else if i == 19 {
        21
    } else if i == 14 {
        22
    } else if i == 9 {
        23
    } else if i == 4 {
        24
    } else {
        i
    }
}

/// One 25-byte block after the rotation: the byte at `i` moves to
/// `rotate_index(i)`.
pub open spec fn rotate_block(b: Seq<u8>) -> Seq<u8> {
    Seq::new(25, |j: int| b[unrotate_index(j)])
}

/// One 25-byte block after the inverse rotation.
pub open spec fn unrotate_block(b: Seq<u8>) -> Seq<u8> {
    Seq::new(25, |j: int| b[rotate_index(j)])
}

/// Where the byte at position `i` of a mirror block lands: the corners of the
/// 3x3 matrix swap along rows, the centre column stays. Its own inverse.
pub open spec fn mirror_index(i: int) -> int {
    if i == 0 {
        2
    } else if i == 2 {
        0
    } else if i == 3 {
        5
    } else if i == 5 {
        3
    } else if i == 6 {
        8
    } else if i == 8 {
        6
    } else {
        i
    }
}

/// One 9-byte block after the corner swap.
pub open spec fn mirror_block(b: Seq<u8>) -> Seq<u8> {
    Seq::new(9, |j: int| b[mirror_index(j)])
}

/// The mirror stage over a whole buffer: every full 9-byte block is swapped in
/// place, a trailing partial block passes through unchanged.
pub open spec fn mirror_all(data: Seq<u8>) -> Seq<u8>
    decreases data.len(),
{
    if data.len() < 9 {
        data
    } else {
        mirror_block(data.take(9)) + mirror_all(data.skip(9))
    }
}

/// The rotate stage, encrypt direction: each full 25-byte block is XORed
/// against the previous output block (the IV for the first one) and then
/// rotated; a trailing partial block passes through unchanged.
pub open spec fn rotate_encrypt(data: Seq<u8>, prev: Seq<u8>) -> Seq<u8>
    decreases data.len(),
{
    if data.len() < 25 {
        data
    } else {
        let c = rotate_block(xor_bytes(data.take(25), prev));
        c + rotate_encrypt(data.skip(25), c)
    }
}

/// The rotate stage, decrypt direction: each full 25-byte block is unrotated
/// and then XORed against the raw ciphertext block before it (the IV for the
/// first one); a trailing partial block passes through unchanged.
pub open spec fn rotate_decrypt(data: Seq<u8>, prev: Seq<u8>) -> Seq<u8>
    decreases data.len(),
{
    if data.len() < 25 {
        data
    } else {
        xor_bytes(unrotate_block(data.take(25)), prev) + rotate_decrypt(
            data.skip(25),
            data.take(25),
        )
    }
}

/// The whole forward transformation of a payload: keystream mask, then the
/// chained rotate stage seeded with `iv`, then the mirror stage.
pub open spec fn scramble(payload: Seq<u8>, key: Seq<u8>, iv: Seq<u8>) -> Seq<u8> {
    mirror_all(rotate_encrypt(xor_with_key(payload, key), iv))
}

/// The whole backward transformation of a ciphertext body: mirror stage, then
/// the rotate stage in the decrypt direction, then the keystream mask.
pub open spec fn unscramble(body: Seq<u8>, key: Seq<u8>, iv: Seq<u8>) -> Seq<u8> {
    xor_with_key(rotate_decrypt(mirror_all(body), iv), key)
}

/// What `encrypt` emits for a plaintext once key, salt and IV are fixed: the
/// scrambled `plaintext || tag`, then the cleartext 16-byte salt and 25-byte
/// IV as a trailer.
pub open spec fn encrypt_spec(data: Seq<u8>, key: Seq<u8>, salt: Seq<u8>, iv: Seq<u8>) -> Seq<u8> {
    scramble(data + hmac_of(data, key), key, iv) + salt + iv
}

/// What `decrypt` returns for a ciphertext and a password: the buffer must
/// hold the 41-byte trailer and a 32-byte tag; the body is unscrambled under
/// the key derived from the recovered salt, and the plaintext is released only
/// when the tag recomputed over it matches the stored one byte for byte.
pub open spec fn decrypt_spec(data: Seq<u8>, password: Seq<u8>) -> Result<Seq<u8>, CryptError> {
    if data.len() < 73 {
        Err(CryptError::MalformedInput)
    } else {
        let iv = data.skip(data.len() - 25);
        let salt = data.subrange(data.len() - 41, data.len() - 25);
        let key = pbkdf2_key_of(password, salt);
        let unmasked = unscramble(data.take(data.len() - 41), key, iv);
        let plaintext = unmasked.take(unmasked.len() - 32);
        let stored_mac = unmasked.skip(unmasked.len() - 32);
        if stored_mac == hmac_of(plaintext, key) {
            Ok(plaintext)
        } else {
            Err(CryptError::AuthenticationFailed)
        }
    }
}

/// XORing a byte twice with the same byte gives it back.
proof fn lemma_xor_cancel(a: u8, b: u8)
    ensures
        (a ^ b) ^ b == a,
{
    assert((a ^ b) ^ b == a) by (bit_vector);
}

/// Pointwise XOR against a fixed sequence is its own inverse.
pub proof fn lemma_xor_bytes_involutive(a: Seq<u8>, b: Seq<u8>)
    ensures
        xor_bytes(xor_bytes(a, b), b) == a,
{
    assert forall|i: int| 0 <= i < a.len() implies xor_bytes(xor_bytes(a, b), b)[i] == a[i] by {
        lemma_xor_cancel(a[i], b[i]);
    }
    assert(xor_bytes(xor_bytes(a, b), b) =~= a);
}

/// The keystream mask keeps the length of the data.
pub proof fn lemma_xor_with_key_len(data: Seq<u8>, key: Seq<u8>)
    ensures
        xor_with_key(data, key).len() == data.len(),
    decreases data.len(),
{
    if key.len() != 0 && data.len() > key.len() {
        lemma_xor_with_key_len(data.skip(key.len() as int), key);
    }
}

/// Masking twice with the same key gives the data back, whatever the key.
pub proof fn lemma_xor_with_key_involutive(data: Seq<u8>, key: Seq<u8>)
    ensures
        xor_with_key(xor_with_key(data, key), key) == data,
    decreases data.len(),
{
    if key.len() == 0 {
    } else if data.len() <= key.len() {
        lemma_xor_bytes_involutive(data, key);
    } else {
        let k = key.len() as int;
        let first = xor_bytes(data.take(k), key);
        let rest = xor_with_key(data.skip(k), key);
        lemma_xor_with_key_len(data.skip(k), key);
        assert((first + rest).take(k) =~= first);
        assert((first + rest).skip(k) =~= rest);
        lemma_xor_bytes_involutive(data.take(k), key);
        lemma_xor_with_key_involutive(data.skip(k), key);
        assert(xor_with_key(xor_with_key(data, key), key) =~= data);
    }
}

/// The two rotate tables are inverse bijections on the 25 block positions.
proof fn lemma_rotate_index_bijective()
    ensures
        forall|j: int|
            0 <= j < 25 ==> 0 <= #[trigger] rotate_index(j) < 25 && unrotate_index(rotate_index(j))
                == j,
        forall|j: int|
            0 <= j < 25 ==> 0 <= #[trigger] unrotate_index(j) < 25 && rotate_index(
                unrotate_index(j),
            ) == j,
{
}

/// Unrotating a rotated 25-byte block gives the block back.
pub proof fn lemma_rotate_block_involutive(b: Seq<u8>)
    requires
        b.len() == 25,
    ensures
        unrotate_block(rotate_block(b)) == b,
{
    lemma_rotate_index_bijective();
    assert(unrotate_block(rotate_block(b)) =~= b);
}

/// Mirroring a 9-byte block twice gives the block back.
pub proof fn lemma_mirror_block_involutive(b: Seq<u8>)
    requires
        b.len() == 9,
    ensures
        mirror_block(mirror_block(b)) == b,
{
    assert(mirror_block(mirror_block(b)) =~= b);
}

/// The mirror stage keeps the length of the data.
pub proof fn lemma_mirror_all_len(data: Seq<u8>)
    ensures
        mirror_all(data).len() == data.len(),
    decreases data.len(),
{
    if data.len() >= 9 {
        lemma_mirror_all_len(data.skip(9));
    }
}

/// The mirror stage is its own inverse on buffers of any length.
pub proof fn lemma_mirror_involutive(data: Seq<u8>)
    ensures
        mirror_all(mirror_all(data)) == data,
    decreases data.len(),
{
    if data.len() < 9 {
    } else {
        let m = mirror_block(data.take(9));
        let rest = mirror_all(data.skip(9));
        assert((m + rest).take(9) =~= m);
        assert((m + rest).skip(9) =~= rest);
        lemma_mirror_all_len(data.skip(9));
        lemma_mirror_block_involutive(data.take(9));
        lemma_mirror_involutive(data.skip(9));
        assert(mirror_all(mirror_all(data)) =~= data);
    }
}

/// The rotate stage keeps the length of the data, in either direction.
pub proof fn lemma_rotate_len(data: Seq<u8>, prev: Seq<u8>)
    ensures
        rotate_encrypt(data, prev).len() == data.len(),
        rotate_decrypt(data, prev).len() == data.len(),
    decreases data.len(),
{
    if data.len() >= 25 {
        let c = rotate_block(xor_bytes(data.take(25), prev));
        lemma_rotate_len(data.skip(25), c);
        lemma_rotate_len(data.skip(25), data.take(25));
    }
}

/// Decrypting the rotate chain with the IV that seeded it gives the data
/// back, whatever the IV.
pub proof fn lemma_rotate_round_trip(data: Seq<u8>, prev: Seq<u8>)
    ensures
        rotate_decrypt(rotate_encrypt(data, prev), prev) == data,
    decreases data.len(),
{
    if data.len() < 25 {
    } else {
        let block = data.take(25);
        let c = rotate_block(xor_bytes(block, prev));
        let rest = rotate_encrypt(data.skip(25), c);
        assert((c + rest).take(25) =~= c);
        assert((c + rest).skip(25) =~= rest);
        lemma_rotate_block_involutive(xor_bytes(block, prev));
        lemma_xor_bytes_involutive(block, prev);
        lemma_rotate_round_trip(data.skip(25), c);
        assert(rotate_decrypt(rotate_encrypt(data, prev), prev) =~= data);
    }
}

/// The forward transformation keeps the length of the payload.
pub proof fn lemma_scramble_len(payload: Seq<u8>, key: Seq<u8>, iv: Seq<u8>)
    ensures
        scramble(payload, key, iv).len() == payload.len(),
{
    lemma_xor_with_key_len(payload, key);
    lemma_rotate_len(xor_with_key(payload, key), iv);
    lemma_mirror_all_len(rotate_encrypt(xor_with_key(payload, key), iv));
}

/// Unscrambling a scrambled payload under the same key and IV gives the
/// payload back.
pub proof fn lemma_unscramble_scramble(payload: Seq<u8>, key: Seq<u8>, iv: Seq<u8>)
    ensures
        unscramble(scramble(payload, key, iv), key, iv) == payload,
{
    lemma_mirror_involutive(rotate_encrypt(xor_with_key(payload, key), iv));
    lemma_rotate_round_trip(xor_with_key(payload, key), iv);
    lemma_xor_with_key_involutive(payload, key);
}

/// Round trip of the whole pipeline: a ciphertext assembled from a plaintext,
/// its 32-byte tag, a 16-byte salt and a 25-byte IV decrypts to that
/// plaintext under the key derived from the same password and salt.
pub proof fn lemma_encrypt_then_decrypt(data: Seq<u8>, password: Seq<u8>, salt: Seq<u8>, iv: Seq<u8>)
    requires
        salt.len() == 16,
        iv.len() == 25,
        hmac_of(data, pbkdf2_key_of(password, salt)).len() == 32,
    ensures
        decrypt_spec(encrypt_spec(data, pbkdf2_key_of(password, salt), salt, iv), password)
            == Ok::<Seq<u8>, CryptError>(data),
{
    let key = pbkdf2_key_of(password, salt);
    let tag = hmac_of(data, key);
    let body = scramble(data + tag, key, iv);
    lemma_scramble_len(data + tag, key, iv);
    let c = encrypt_spec(data, key, salt, iv);
    assert(c.len() == data.len() + 73);
    assert(c.skip(c.len() - 25) =~= iv);
    assert(c.subrange(c.len() - 41, c.len() - 25) =~= salt);
    assert(c.take(c.len() - 41) =~= body);
    lemma_unscramble_scramble(data + tag, key, iv);
    let unmasked = unscramble(body, key, iv);
    assert(unmasked.take(unmasked.len() - 32) =~= data);
    assert(unmasked.skip(unmasked.len() - 32) =~= tag);
}

/// XOR of two rotate blocks, byte for byte.
pub fn xor_rotate_chunks(chunk_a: [u8; 25], chunk_b: [u8; 25]) -> (result_chunk: [u8; 25])
    ensures
        result_chunk@ == xor_bytes(chunk_a@, chunk_b@),
{
    let mut result_chunk = [0u8; 25];
    let mut i: usize = 0;
    while i < 25
        invariant
            i <= 25,
            forall|j: int| 0 <= j < i ==> result_chunk@[j] == (chunk_a@[j] ^ chunk_b@[j]),
        decreases 25 - i,
    {
        let (byte_a, byte_b) = (chunk_a[i], chunk_b[i]);
        result_chunk[i] = byte_a ^ byte_b;
        i = i + 1;
    }
    assert(result_chunk@ =~= xor_bytes(chunk_a@, chunk_b@));
    result_chunk
}

/// Applies the fixed rotation to one 25-byte block. Every position is in the
/// table, so the rotation never fails.
pub fn rotate_chunk(chunk: [u8; 25]) -> (r: Option<[u8; 25]>)
    ensures
        r.is_some(),
        r.unwrap()@ == rotate_block(chunk@),
{
    let mut rotated_bytes = [0u8; 25];
    let mut index: usize = 0;
    while index < 25
        invariant
            index <= 25,
            forall|j: int|
                0 <= j < 25 && unrotate_index(j) < index ==> rotated_bytes@[j] == chunk@[unrotate_index(j)],
        decreases 25 - index,
    {
        let new_index: usize = match index {
            0 => 20,
            1 => 15,
            2 => 10,
            3 => 5,
            4 => 0,
            5 => 21,
            6 => 18,
            7 => 17,
            8 => 16,
            9 => 1,
            10 => 22,
            11 => 13,
            12 => 12,
            13 => 11,
            14 => 2,
            15 => 23,
            16 => 8,
            17 => 7,
            18 => 6,
            19 => 3,
            20 => 24,
            21 => 19,
            22 => 14,
            23 => 9,
            24 => 4,
            _ => {
                return None;
            },
        };
        proof {
            lemma_rotate_index_bijective();
            assert(new_index == rotate_index(index as int));
        }
        rotated_bytes[new_index] = chunk[index];
        index = index + 1;
    }
    proof {
        lemma_rotate_index_bijective();
        assert(rotated_bytes@ =~= rotate_block(chunk@));
    }
    Some(rotated_bytes)
}

/// Applies the exact inverse of the fixed rotation to one 25-byte block.
pub fn reverse_rotate_chunk(chunk: [u8; 25]) -> (r: Option<[u8; 25]>)
    ensures
        r.is_some(),
        r.unwrap()@ == unrotate_block(chunk@),
{
    let mut rotated_bytes = [0u8; 25];
    let mut index: usize = 0;
    while index < 25
        invariant
            index <= 25,
            forall|j: int|
                0 <= j < 25 && rotate_index(j) < index ==> rotated_bytes@[j] == chunk@[rotate_index(j)],
        decreases 25 - index,
    {
        let new_index: usize = match index {
            20 => 0,
            15 => 1,
            10 => 2,
            5 => 3,
            0 => 4,
            21 => 5,
            18 => 6,
            17 => 7,
            16 => 8,
            1 => 9,
            22 => 10,
            13 => 11,
            12 => 12,
            11 => 13,
            2 => 14,
            23 => 15,
            8 => 16,
            7 => 17,
            6 => 18,
            3 => 19,
            24 => 20,
            19 => 21,
            14 => 22,
            9 => 23,
            4 => 24,
            _ => {
                return None;
            },
        };
        proof {
            lemma_rotate_index_bijective();
            assert(new_index == unrotate_index(index as int));
        }
        rotated_bytes[new_index] = chunk[index];
        index = index + 1;
    }
    proof {
        lemma_rotate_index_bijective();
        assert(rotated_bytes@ =~= unrotate_block(chunk@));
    }
    Some(rotated_bytes)
}

/// Applies the corner swap to one 9-byte block.
pub fn mirror_chunk(chunk: [u8; 9]) -> (mirrored_chunk: [u8; 9])
    ensures
        mirrored_chunk@ == mirror_block(chunk@),
{
    let mut mirrored_chunk = [0u8; 9];
    let mut index: usize = 0;
    while index < 9
        invariant
            index <= 9,
            forall|j: int|
                0 <= j < 9 && mirror_index(j) < index ==> mirrored_chunk@[j] == chunk@[mirror_index(j)],
        decreases 9 - index,
    {
        let new_index: usize = match index {
            0 => 2,
            2 => 0,
            3 => 5,
            5 => 3,
            6 => 8,
            8 => 6,
            _ => index,
        };
        assert(new_index == mirror_index(index as int));
        mirrored_chunk[new_index] = chunk[index];
        index = index + 1;
    }
    assert(mirrored_chunk@ =~= mirror_block(chunk@));
    mirrored_chunk
}

/// XOR of one chunk against the start of the derived key. Fails exactly when
/// the chunk is longer than the key.
pub fn xor_chunk(chunk: &[u8], key_details: &KeyDetails) -> (r: Option<Vec<u8>>)
    ensures
        chunk@.len() <= 32 ==> r.is_some() && r.unwrap()@ == xor_bytes(chunk@, key_details.key@),
        chunk@.len() > 32 ==> r.is_none(),
{
    let mut result: Vec<u8> = Vec::new();
    let mut i: usize = 0;
    while i < chunk.len()
        invariant
            i <= chunk@.len(),
            i <= 32,
            result@.len() == i,
            forall|j: int| 0 <= j < i ==> result@[j] == (chunk@[j] ^ key_details.key@[j]),
        decreases chunk@.len() - i,
    {
        if i >= 32 {
            return None;
        }
        result.push(chunk[i] ^ key_details.key[i]);
        i = i + 1;
    }
    assert(result@ =~= xor_bytes(chunk@, key_details.key@));
    Some(result)
}

/// A fresh random 25-byte initialization vector for one encryption.
fn generate_rotate_init_vector() -> [u8; 25] {
    let bytes = key_generation::random_bytes(25);
    let mut buffer = [0u8; 25];
    let mut i: usize = 0;
    while i < 25
        invariant
            i <= 25,
            bytes@.len() == 25,
        decreases 25 - i,
    {
        buffer[i] = bytes[i];
        i = i + 1;
    }
    buffer
}

/// Copies the 25-byte block of `data` that starts at `pos`.
fn read_rotate_chunk(data: &Vec<u8>, pos: usize) -> (chunk: [u8; 25])
    requires
        pos + 25 <= data@.len(),
    ensures
        chunk@ == data@.subrange(pos as int, pos + 25),
{
    let n = data.len();
    let mut chunk = [0u8; 25];
    let mut k: usize = 0;
    while k < 25
        invariant
            k <= 25,
            pos + 25 <= data@.len(),
            data@.len() == n,
            forall|j: int| 0 <= j < k ==> chunk@[j] == data@[pos + j],
        decreases 25 - k,
    {
        chunk[k] = data[pos + k];
        k = k + 1;
    }
    assert(chunk@ =~= data@.subrange(pos as int, pos + 25));
    chunk
}

/// Masks a whole buffer against the derived key, chunk by chunk.
pub fn xor_data(data: Vec<u8>, key_details: &KeyDetails) -> (r: Result<Vec<u8>, CryptError>)
    ensures
        r.is_ok(),
        r.unwrap()@ == xor_with_key(data@, key_details.key@),
{
    let mut new_data: Vec<u8> = Vec::new();
    let mut pos: usize = 0;
    proof {
        assert(data@.skip(0) =~= data@);
        assert(new_data@ + xor_with_key(data@, key_details.key@) =~= xor_with_key(
            data@,
            key_details.key@,
        ));
    }
    while pos < data.len()
        invariant
            pos <= data@.len(),
            xor_with_key(data@, key_details.key@) == new_data@ + xor_with_key(
                data@.skip(pos as int),
                key_details.key@,
            ),
        decreases data@.len() - pos,
    {
        let end = if data.len() - pos < 32 {
            data.len()
        } else {
            pos + 32
        };
        let chunk = vstd::slice::slice_subrange(data.as_slice(), pos, end);
        let xored = match xor_chunk(chunk, key_details) {
            Some(xored) => xored,
            None => {
                return Err(CryptError::InternalLengthMismatch);
            },
        };
        proof {
            let rest = data@.skip(pos as int);
            if rest.len() <= 32 {
                assert(chunk@ =~= rest);
            } else {
                assert(chunk@ =~= rest.take(32));
                assert(rest.skip(32) =~= data@.skip(pos + 32));
            }
            lemma_xor_with_key_len(data@.skip(pos as int), key_details.key@);
        }
        let mut xored = xored;
        new_data.append(&mut xored);
        pos = end;
    }
    assert(data@.skip(data@.len() as int) =~= Seq::<u8>::empty());
    assert(new_data@ =~= xor_with_key(data@, key_details.key@));
    Ok(new_data)
}

/// The mirror stage over a whole buffer: every full 9-byte block gets the
/// corner swap, a trailing partial block passes through unchanged.
pub fn mirror_data(data: Vec<u8>) -> (mirrored_data: Vec<u8>)
    ensures
        mirrored_data@ == mirror_all(data@),
{
    let n = data.len();
    let mut mirrored_data: Vec<u8> = Vec::new();
    let mut pos: usize = 0;
    proof {
        assert(data@.skip(0) =~= data@);
        assert(mirrored_data@ + mirror_all(data@) =~= mirror_all(data@));
    }
    while data.len() - pos >= 9
        invariant
            pos <= data@.len(),
            data@.len() == n,
            mirror_all(data@) == mirrored_data@ + mirror_all(data@.skip(pos as int)),
        decreases data@.len() - pos,
    {
        let mut chunk = [0u8; 9];
        let mut k: usize = 0;
        while k < 9
            invariant
                k <= 9,
                pos + 9 <= data@.len(),
                data@.len() == n,
                forall|j: int| 0 <= j < k ==> chunk@[j] == data@[pos + j],
            decreases 9 - k,
        {
            chunk[k] = data[pos + k];
            k = k + 1;
        }
        let mirrored_chunk = mirror_chunk(chunk);
        proof {
            let rest = data@.skip(pos as int);
            assert(chunk@ =~= rest.take(9));
            assert(rest.skip(9) =~= data@.skip(pos + 9));
        }
        mirrored_data.extend_from_slice(mirrored_chunk.as_slice());
        pos = pos + 9;
    }
    while pos < data.len()
        invariant
            pos <= data@.len(),
            data@.len() - pos < 9,
            mirror_all(data@) == mirrored_data@ + mirror_all(data@.skip(pos as int)),
        decreases data@.len() - pos,
    {
        proof {
            let rest = data@.skip(pos as int);
            assert(rest =~= seq![data@[pos as int]] + data@.skip(pos + 1));
        }
        mirrored_data.push(data[pos]);
        pos = pos + 1;
    }
    assert(data@.skip(data@.len() as int) =~= Seq::<u8>::empty());
    assert(mirrored_data@ =~= mirror_all(data@));
    mirrored_data
}

/// The chained rotate stage over a whole buffer, in 25-byte blocks; a trailing
/// partial block passes through unchanged.
///
/// With `init_vec` left at `None` the stage runs in the encrypt direction
/// under a fresh random IV, which is returned beside the data so that it can
/// travel in the cleartext trailer. With `Some` IV — the one recovered from
/// that trailer — it runs in the decrypt direction.
pub fn rotate_data(data: Vec<u8>, init_vec: Option<[u8; 25]>) -> (r: (Vec<u8>, [u8; 25]))
    ensures
        init_vec matches Some(iv) ==> r.1 == iv && r.0@ == rotate_decrypt(data@, iv@),
        init_vec is None ==> r.0@ == rotate_encrypt(data@, r.1@),
{
    let reverse = init_vec.is_some();
    let init_vec = match init_vec {
        Some(iv) => iv,
        None => generate_rotate_init_vector(),
    };

    let mut rotated_data_buffer: Vec<u8> = Vec::new();
    let mut previous_chunk: [u8; 25] = init_vec;
    let mut pos: usize = 0;

    if !reverse {
        // Encrypt direction: each block is XORed against the previous output
        // block — the IV for the first — and then rotated.
        proof {
            assert(data@.skip(0) =~= data@);
            assert(rotated_data_buffer@ + rotate_encrypt(data@, init_vec@) =~= rotate_encrypt(
                data@,
                init_vec@,
            ));
        }
        while data.len() - pos >= 25
            invariant
                pos <= data@.len(),
                rotate_encrypt(data@, init_vec@) == rotated_data_buffer@ + rotate_encrypt(
                    data@.skip(pos as int),
                    previous_chunk@,
                ),
            decreases data@.len() - pos,
        {
            let chunk = read_rotate_chunk(&data, pos);
            let xored = xor_rotate_chunks(chunk, previous_chunk);
            let rotated_chunk = match rotate_chunk(xored) {
                Some(rotated) => rotated,
                None => xored,
            };
            proof {
                let rest = data@.skip(pos as int);
                assert(chunk@ =~= rest.take(25));
                assert(rest.skip(25) =~= data@.skip(pos + 25));
            }
            previous_chunk = rotated_chunk;
            rotated_data_buffer.extend_from_slice(rotated_chunk.as_slice());
            pos = pos + 25;
        }
        while pos < data.len()
            invariant
                pos <= data@.len(),
                data@.len() - pos < 25,
                rotate_encrypt(data@, init_vec@) == rotated_data_buffer@ + rotate_encrypt(
                    data@.skip(pos as int),
                    previous_chunk@,
                ),
            decreases data@.len() - pos,
        {
            proof {
                let rest = data@.skip(pos as int);
                assert(rest =~= seq![data@[pos as int]] + data@.skip(pos + 1));
            }
            rotated_data_buffer.push(data[pos]);
            pos = pos + 1;
        }
        assert(data@.skip(data@.len() as int) =~= Seq::<u8>::empty());
        assert(rotated_data_buffer@ =~= rotate_encrypt(data@, init_vec@));
    } else {
        // Decrypt direction: each block is unrotated and then XORed against
        // the raw ciphertext block before it — the IV for the first.
        proof {
            assert(data@.skip(0) =~= data@);
            assert(rotated_data_buffer@ + rotate_decrypt(data@, init_vec@) =~= rotate_decrypt(
                data@,
                init_vec@,
            ));
        }
        while data.len() - pos >= 25
            invariant
                pos <= data@.len(),
                rotate_decrypt(data@, init_vec@) == rotated_data_buffer@ + rotate_decrypt(
                    data@.skip(pos as int),
                    previous_chunk@,
                ),
            decreases data@.len() - pos,
        {
            let chunk = read_rotate_chunk(&data, pos);
            let transformed_chunk = match reverse_rotate_chunk(chunk) {
                Some(transformed) => transformed,
                None => chunk,
            };
            let recovered = xor_rotate_chunks(transformed_chunk, previous_chunk);
            proof {
                let rest = data@.skip(pos as int);
                assert(chunk@ =~= rest.take(25));
                assert(rest.skip(25) =~= data@.skip(pos + 25));
            }
            previous_chunk = chunk;
            rotated_data_buffer.extend_from_slice(recovered.as_slice());
            pos = pos + 25;
        }
        while pos < data.len()
            invariant
                pos <= data@.len(),
                data@.len() - pos < 25,
                rotate_decrypt(data@, init_vec@) == rotated_data_buffer@ + rotate_decrypt(
                    data@.skip(pos as int),
                    previous_chunk@,
                ),
            decreases data@.len() - pos,
        {
            proof {
                let rest = data@.skip(pos as int);
                assert(rest =~= seq![data@[pos as int]] + data@.skip(pos + 1));
            }
            rotated_data_buffer.push(data[pos]);
            pos = pos + 1;
        }
        assert(data@.skip(data@.len() as int) =~= Seq::<u8>::empty());
        assert(rotated_data_buffer@ =~= rotate_decrypt(data@, init_vec@));
    }

    (rotated_data_buffer, init_vec)
}

/// Encrypts `data` under `password`: fresh key material is derived with a
/// random salt, the 32-byte tag over the plaintext is appended, the whole is
/// masked with the keystream, run through the rotate and mirror stages under a
/// fresh random IV, and the cleartext salt and IV follow as a 41-byte trailer.
/// Decrypting the result with the same password yields `data` again.
pub fn encrypt(data: Vec<u8>, password: &str) -> (r: Result<Vec<u8>, CryptError>)
    ensures
        r.is_ok(),
        r.unwrap()@.len() == data@.len() + 73,
        ({
            let c = r.unwrap()@;
            let salt = c.subrange(c.len() - 41, c.len() - 25);
            let iv = c.skip(c.len() - 25);
            c == encrypt_spec(data@, pbkdf2_key_of(password.spec_bytes(), salt), salt, iv)
        }),
        decrypt_spec(r.unwrap()@, password.spec_bytes()) == Ok::<Seq<u8>, CryptError>(data@),
{
    let key_details = key_generation::derive_key_from_passphrase(password, None);
    let mac = match authentication::generate_hmac(data.as_slice(), key_details.key.as_slice()) {
        Some(mac) => mac,
        None => {
            return Err(CryptError::AuthenticationImpossible);
        },
    };

    // Append the tag to the plaintext, then mask and shuffle the whole.
    let ghost plaintext = data@;
    let mut extended = data;
    extended.extend_from_slice(mac.as_slice());
    let ghost ext = extended@;
    let masked = match xor_data(extended, &key_details) {
        Ok(masked) => masked,
        Err(e) => {
            return Err(e);
        },
    };
    let (rotated, init_vector) = rotate_data(masked, None);
    let mut output = mirror_data(rotated);

    // Append the cleartext trailer: the salt, then the initialization vector.
    output.extend_from_slice(key_details.salt.as_slice());
    output.extend_from_slice(init_vector.as_slice());

    proof {
        let pw = password.spec_bytes();
        let key = key_details.key@;
        let salt = key_details.salt@;
        let iv = init_vector@;
        assert(key == pbkdf2_key_of(pw, salt));
        assert(ext == plaintext + hmac_of(plaintext, key));
        assert(masked@ == xor_with_key(ext, key));
        assert(rotated@ == rotate_encrypt(masked@, iv));
        assert(output@ == mirror_all(rotated@) + salt + iv);
        lemma_scramble_len(data@ + hmac_of(data@, key), key, iv);
        assert(output@ =~= encrypt_spec(data@, pbkdf2_key_of(pw, salt), salt, iv));
        assert(output@.subrange(output@.len() - 41, output@.len() - 25) =~= salt);
        assert(output@.skip(output@.len() - 25) =~= iv);
        lemma_encrypt_then_decrypt(data@, pw, salt, iv);
    }
    Ok(output)
}

/// Decrypts a buffer produced by `encrypt` with the same password: the salt
/// and IV are read back from the trailer, the body is unshuffled and unmasked,
/// and the plaintext is released only when the tag recomputed over it matches
/// the stored one; otherwise the candidate plaintext is discarded.
pub fn decrypt(data: Vec<u8>, password: &str) -> (r: Result<Vec<u8>, CryptError>)
    ensures
        r matches Ok(plaintext) ==> decrypt_spec(data@, password.spec_bytes()) == Ok::<
            Seq<u8>,
            CryptError,
        >(plaintext@),
        r matches Err(e) ==> decrypt_spec(data@, password.spec_bytes()) == Err::<
            Seq<u8>,
            CryptError,
        >(e),
{
    if data.len() < 73 {
        return Err(CryptError::MalformedInput);
    }
    let ghost orig = data@;
    let mut data = data;

    let init_vec_bytes = data.split_off(data.len() - 25);
    let mut init_vec = [0u8; 25];
    let mut i: usize = 0;
    while i < 25
        invariant
            i <= 25,
            init_vec_bytes@.len() == 25,
            forall|j: int| 0 <= j < i ==> init_vec@[j] == init_vec_bytes@[j],
        decreases 25 - i,
    {
        init_vec[i] = init_vec_bytes[i];
        i = i + 1;
    }

    let salt_bytes = data.split_off(data.len() - 16);
    let mut salt = [0u8; 16];
    let mut i: usize = 0;
    while i < 16
        invariant
            i <= 16,
            salt_bytes@.len() == 16,
            forall|j: int| 0 <= j < i ==> salt@[j] == salt_bytes@[j],
        decreases 16 - i,
    {
        salt[i] = salt_bytes[i];
        i = i + 1;
    }

    proof {
        assert(init_vec@ =~= orig.skip(orig.len() - 25));
        assert(salt@ =~= orig.subrange(orig.len() - 41, orig.len() - 25));
        assert(data@ =~= orig.take(orig.len() - 41));
    }

    let key_details = key_generation::derive_key_from_passphrase(password, Some(salt));

    // Undo the shuffle, then the keystream mask.
    let ghost body = data@;
    let mirrored = mirror_data(data);
    let (unrotated, _) = rotate_data(mirrored, Some(init_vec));
    let unmasked = match xor_data(unrotated, &key_details) {
        Ok(unmasked) => unmasked,
        Err(e) => {
            return Err(e);
        },
    };
    proof {
        lemma_mirror_all_len(body);
        lemma_rotate_len(mirror_all(body), init_vec@);
        lemma_xor_with_key_len(rotate_decrypt(mirror_all(body), init_vec@), key_details.key@);
        assert(unmasked@ == unscramble(body, key_details.key@, init_vec@));
    }

    // Split off the stored tag and recompute it over the candidate plaintext.
    let mut plaintext = unmasked;
    let stored_mac = plaintext.split_off(plaintext.len() - 32);
    let new_mac = match authentication::generate_hmac(
        plaintext.as_slice(),
        key_details.key.as_slice(),
    ) {
        Some(mac) => mac,
        None => {
            return Err(CryptError::AuthenticationImpossible);
        },
    };

    let mut equal = true;
    let mut i: usize = 0;
    while i < 32
        invariant
            i <= 32,
            stored_mac@.len() == 32,
            equal <==> (forall|j: int| 0 <= j < i ==> stored_mac@[j] == new_mac@[j]),
        decreases 32 - i,
    {
        if stored_mac[i] != new_mac[i] {
            equal = false;
        }
        i = i + 1;
    }

    if equal {
        proof {
            assert(stored_mac@ =~= new_mac@);
        }
        Ok(plaintext)
    } else {
        proof {
            let k = choose|j: int| 0 <= j < 32 && stored_mac@[j] != new_mac@[j];
            assert(stored_mac@[k] != hmac_of(plaintext@, key_details.key@)[k]);
        }
        Err(CryptError::AuthenticationFailed)
    }
}

} // verus!

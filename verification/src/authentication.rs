use vstd::prelude::*;

verus! {

/// The 32-byte HMAC-SHA-256 tag of `data` under `key` (RFC 2104 with SHA-256):
/// a deterministic function of the two byte strings alone.
pub uninterp spec fn hmac_of(data: Seq<u8>, key: Seq<u8>) -> Seq<u8>;

/// Relies on hmac::Hmac with sha2::Sha256 (Mac::new_from_slice, update,
/// finalize): the tag is a function of data and key alone and is 32 bytes;
/// new_from_slice pads or hashes keys of any length and never fails.
#[verifier::external_body]
pub fn generate_hmac(data: &[u8], key: &[u8]) -> (mac: Option<[u8; 32]>)
    ensures
        mac.is_some(),
        mac.unwrap()@ == hmac_of(data@, key@),
{
    let mut hmac = match <hmac::Hmac<sha2::Sha256> as hmac::Mac>::new_from_slice(key) {
        Ok(h) => h,
        Err(_) => return None,
    };
    hmac::Mac::update(&mut hmac, data);
    let hmac_bytes = hmac::Mac::finalize(hmac).into_bytes();
    let mut mac_arr = [0u8; 32];
    mac_arr.copy_from_slice(&hmac_bytes);
    Some(mac_arr)
}

} // verus!

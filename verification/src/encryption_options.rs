use vstd::prelude::*;

verus! {

/// Caller-level switches that toggle individual pipeline stages on or off.
/// The default pipeline (`encrypt` / `decrypt`) runs with every stage enabled.
#[derive(Debug, Copy, Clone, PartialEq, Eq, Structural)]
pub struct EncryptionOptions {
    pub separate_chunks: bool,
    pub use_hmac: bool,
    pub xor_data: bool,
    pub shuffle_data: bool,
}

} // verus!

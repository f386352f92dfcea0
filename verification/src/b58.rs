use vstd::prelude::*;

use crate::primitives::Pubkey;

verus! {

/// The Base58 rendering (Bitcoin alphabet) of a byte string.
pub uninterp spec fn base58_text(bytes: Seq<u8>) -> Seq<char>;

/// `bs58::encode(..).into_string()`: the Base58 rendering of `bytes`.
#[verifier::external_body]
fn encode_base58(bytes: &[u8]) -> (text: String)
    ensures
        text@ == base58_text(bytes@),
{
    bs58::encode(bytes).into_string()
}

/// Values that can be rendered in Base58.
pub trait Base58Encode {
    /// The bytes that are rendered.
    spec fn encoded_bytes(&self) -> Seq<u8>;

    fn bs58_encode(&self) -> (text: String)
        ensures
            text@ == base58_text(self.encoded_bytes()),
    ;
}

impl Base58Encode for [u8] {
    open spec fn encoded_bytes(&self) -> Seq<u8> {
        self@
    }

    fn bs58_encode(&self) -> (text: String) {
        encode_base58(self)
    }
}

impl Base58Encode for Pubkey {
    open spec fn encoded_bytes(&self) -> Seq<u8> {
        self@
    }

    fn bs58_encode(&self) -> (text: String) {
        let bytes = self.to_bytes();
        encode_base58(bytes.as_slice())
    }
}

} // verus!

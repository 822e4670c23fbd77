//! The trusted boundary for the symmetric cipher protecting event
//! payloads: AES-256 in ECB mode with zero padding.
use vstd::prelude::*;
use aes_soft::Aes256;
use block_modes::{BlockMode, Ecb};
use block_modes::block_padding::ZeroPadding;

verus! {

/// The plaintext that AES-256-ECB decryption with zero padding yields for
/// the given key and ciphertext. Left abstract: a function of the key and
/// the ciphertext alone, known only through [`aes256_ecb_decrypt_call`].
pub uninterp spec fn aes256_ecb_decrypt(key: Seq<u8>, data: Seq<u8>) -> Seq<u8>;

/// Relies on `block_modes::BlockMode::new_var` and `decrypt_vec` with the
/// `aes_soft::Aes256` cipher in ECB mode with zero padding: the plaintext
/// is a function of the key and the ciphertext alone; construction fails
/// exactly when the key is not 32 bytes, and decryption of a non-empty
/// ciphertext fails exactly when its length is not a whole number of
/// 16-byte blocks. Zero-unpadding would panic on an empty input, so the
/// `requires` excludes it; the library checks before calling.
#[verifier::external_body]
pub(crate) fn aes256_ecb_decrypt_call(key: &Vec<u8>, data: &Vec<u8>) -> (r: Option<Vec<u8>>)
    requires
        data@.len() > 0,
    ensures
        r is Some <==> (key@.len() == 32 && data@.len() % 16 == 0),
        r is Some ==> r.unwrap()@ == aes256_ecb_decrypt(key@, data@),
{
    let iv: [u8; 0] = [];
    let cipher = match Ecb::<Aes256, ZeroPadding>::new_var(key.as_slice(), &iv) {
        Ok(c) => c,
        Err(_) => return None,
    };
    match cipher.decrypt_vec(data.as_slice()) {
        Ok(v) => Some(v),
        Err(_) => None,
    }
}

} // verus!

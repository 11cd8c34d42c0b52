//! The Stark curve's hash and signature scheme, as the `starknet` crate
//! computes them. Nothing in this file is proved: each function states what
//! the library relies on.

use vstd::prelude::*;
use crate::felt::{curve_order, signing_bound, Felt};
use starknet::signers::{SigningKey, VerifyingKey};

verus! {

/// The Pedersen hash of two field elements, all three as 32 bytes.
pub uninterp spec fn pedersen_digest(a: Seq<u8>, b: Seq<u8>) -> Seq<u8>;

/// The scalars `r` and `s` of the signature that a private key gives over a
/// hash below 2^251, all as 32 bytes.
pub uninterp spec fn ecdsa_signature(private_key: Seq<u8>, hash: Seq<u8>) -> (Seq<u8>, Seq<u8>);

/// Whether the scalars `r` and `s` are a signature over a hash under a public
/// key; `None` where the four do not make a question that can be answered.
pub uninterp spec fn ecdsa_verdict(public_key: Seq<u8>, hash: Seq<u8>, r: Seq<u8>, s: Seq<u8>) -> Option<bool>;

/// The public key of a private key, both as 32 bytes.
pub uninterp spec fn stark_public_key(private_key: Seq<u8>) -> Seq<u8>;

/// A signature: two scalars.
#[derive(Clone, Copy, Debug)]
pub struct Signature {
    pub r: Felt,
    pub s: Felt,
}

#[verifier::external_type_specification]
#[verifier::external_body]
pub struct ExEcdsaSignError(starknet::core::crypto::EcdsaSignError);

#[verifier::external_type_specification]
#[verifier::external_body]
pub struct ExEcdsaVerifyError(starknet::core::crypto::EcdsaVerifyError);

/// `starknet::core::crypto::pedersen_hash`. The result is a function of the
/// two elements alone, and a field element. The elements given are
/// canonical, so the curve library takes their bytes.
#[verifier::external_body]
pub(crate) fn pedersen_hash(a: &Felt, b: &Felt) -> (h: Felt)
    requires
        a.is_canonical(),
        b.is_canonical(),
    ensures
        h@ == pedersen_digest(a@, b@),
        h.is_canonical(),
{
    let x = starknet::core::types::FieldElement::from_bytes_be(&a.bytes).unwrap();
    let y = starknet::core::types::FieldElement::from_bytes_be(&b.bytes).unwrap();
    Felt { bytes: starknet::core::crypto::pedersen_hash(&x, &y).to_bytes_be() }
}

/// `starknet::signers::SigningKey::sign`. It refuses a hash that is not below
/// 2^251 and no other; it draws its nonce from the key and the hash, so the
/// signature is a function of the two alone. It looks for a nonce until one
/// gives a signature: with a key that is zero or the order of the curve, and
/// the hash zero, none does, so the key is asked to be a private key.
#[verifier::external_body]
pub(crate) fn ecdsa_sign(private_key: &Felt, hash: &Felt) -> (signed: Result<
    Signature,
    starknet::core::crypto::EcdsaSignError,
>)
    requires
        private_key.is_canonical(),
        hash.is_canonical(),
        0 < private_key.value() < curve_order(),
    ensures
        signed is Ok <==> hash.value() < signing_bound(),
        signed matches Ok(sig) ==> {
            &&& (sig.r@, sig.s@) == ecdsa_signature(private_key@, hash@)
            &&& sig.r.is_canonical()
            &&& sig.s.is_canonical()
        },
{
    let key = SigningKey::from_secret_scalar(starknet::core::types::FieldElement::from_bytes_be(&private_key.bytes).unwrap());
    match key.sign(&starknet::core::types::FieldElement::from_bytes_be(&hash.bytes).unwrap()) {
        Ok(sig) => Ok(
            Signature { r: Felt { bytes: sig.r.to_bytes_be() }, s: Felt { bytes: sig.s.to_bytes_be() } },
        ),
        Err(e) => Err(e),
    }
}

/// `starknet::signers::VerifyingKey::verify`. Whether it answers, and what,
/// is a function of the four elements alone; a hash that is not below 2^251
/// is refused.
#[verifier::external_body]
pub(crate) fn ecdsa_verify(public_key: &Felt, hash: &Felt, sig: &Signature) -> (verdict: Result<
    bool,
    starknet::core::crypto::EcdsaVerifyError,
>)
    requires
        public_key.is_canonical(),
        hash.is_canonical(),
        sig.r.is_canonical(),
        sig.s.is_canonical(),
    ensures
        verdict matches Ok(valid) ==> ecdsa_verdict(public_key@, hash@, sig.r@, sig.s@) == Some(valid),
        verdict is Err ==> ecdsa_verdict(public_key@, hash@, sig.r@, sig.s@) is None,
        hash.value() >= signing_bound() ==> verdict is Err,
{
    let key = VerifyingKey::from_scalar(starknet::core::types::FieldElement::from_bytes_be(&public_key.bytes).unwrap());
    let r = starknet::core::types::FieldElement::from_bytes_be(&sig.r.bytes).unwrap();
    let s = starknet::core::types::FieldElement::from_bytes_be(&sig.s.bytes).unwrap();
    let hash = starknet::core::types::FieldElement::from_bytes_be(&hash.bytes).unwrap();
    key.verify(&hash, &starknet::core::crypto::Signature { r, s })
}

/// `starknet::signers::SigningKey::verifying_key`. The public key is a
/// function of the private key alone, and a field element.
#[verifier::external_body]
pub(crate) fn public_key_of(private_key: &Felt) -> (public_key: Felt)
    requires
        private_key.is_canonical(),
    ensures
        public_key@ == stark_public_key(private_key@),
        public_key.is_canonical(),
{
    let key = SigningKey::from_secret_scalar(starknet::core::types::FieldElement::from_bytes_be(&private_key.bytes).unwrap());
    Felt { bytes: key.verifying_key().scalar().to_bytes_be() }
}

} // verus!

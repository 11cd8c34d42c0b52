use quest_server::felt::Felt;
use quest_server::signer::{
    claim_message, derive_token_id, hash_chain, public_key, sign, sign_digest, verify, verify_digest,
    SignError, VerifyError,
};
use quest_server::stark::Signature;

fn felt(hex: &str) -> Felt {
    assert_eq!(hex.len(), 64);
    let mut out = [0u8; 32];
    for i in 0..32 {
        out[i] = u8::from_str_radix(&hex[2 * i..2 * i + 2], 16).unwrap();
    }
    Felt::from_bytes_be(out).unwrap()
}

fn private_key() -> Felt {
    felt("0139fe4d6f02e666e86a6f58e65060f115cd3c185bd9e98bd829636931458f79")
}

fn known_public_key() -> Felt {
    felt("02c5dbad71c92a45cc4b40573ae661f8147869a91d57b8d9b8f48c8af7f83159")
}

fn known_hash() -> Felt {
    felt("06fea80189363a786037ed3e7ba546dad0ef7de49fccae0e31eb658b7dd4ea76")
}

fn known_r() -> Felt {
    felt("061ec782f76a66f6984efc3a1b6d152a124c701c00abdd2bf76641b4135c770f")
}

fn known_s() -> Felt {
    felt("04e44e759cea02c23568bb4d8a09929bbca8768ab68270d50c18d214166ccd9a")
}

fn address() -> Felt {
    felt("0456789abcdef0123456789abcdef0123456789abcdef0123456789abcdef012")
}

fn contract() -> Felt {
    felt("0077700000000000000000000000000000000000000000000000000000000001")
}

#[test]
fn hash_chain_of_two_is_the_pedersen_hash() {
    let a = felt("03d937c035c878245caf64531a5756109c53068da139362728feb561405371cb");
    let b = felt("0208a0a10250e382e1e4bbe2880906c2791bf6275695e02fbbc6aeff9cd8b31a");
    let expected = felt("030e480bed5fe53fa909cc0f8c4d99b8f9f2c016be4c41e13a4848797979c662");
    assert_eq!(hash_chain(&vec![a, b]), expected);

    let c = felt("058f580910a6ca59b28927c08fe6c43e2e303ca384badc365795fc645d479d45");
    let d = felt("078734f65a067be9bdb39de18434d71e79f7b6466a4b66bbd979ab9e7515fe0b");
    let other = felt("068cc0b76cddd1dd4ed2301ada9b7c872b23875d5ff837b3a87993e0d9996b87");
    assert_eq!(hash_chain(&vec![c, d]), other);
}

#[test]
fn hash_chain_folds_from_the_left() {
    let a = Felt::from_u64(1);
    let b = Felt::from_u64(2);
    let c = Felt::from_u64(3);
    assert_eq!(hash_chain(&vec![]), Felt::zero());
    assert_eq!(hash_chain(&vec![a]), a);
    let ab = hash_chain(&vec![a, b]);
    assert_eq!(hash_chain(&vec![a, b, c]), hash_chain(&vec![ab, c]));
    assert_ne!(hash_chain(&vec![a, b, c]), hash_chain(&vec![a, c, b]));
    assert_ne!(ab, hash_chain(&vec![b, a]));
}

#[test]
fn hash_chain_agrees_with_the_curve_library() {
    let a = starknet::core::types::FieldElement::from(1u64);
    let b = starknet::core::types::FieldElement::from(2u64);
    let expected = starknet::core::crypto::pedersen_hash(&a, &b).to_bytes_be();
    let ours = hash_chain(&vec![Felt::from_u64(1), Felt::from_u64(2)]);
    assert_eq!(ours.to_bytes_be(), expected);
}

#[test]
fn public_key_of_known_private_key() {
    assert_eq!(public_key(&private_key()), known_public_key());
}

#[test]
fn sign_digest_gives_the_known_signature() {
    let sig = sign_digest(&private_key(), &known_hash()).unwrap();
    assert_eq!(sig.r, known_r());
    assert_eq!(sig.s, known_s());
}

#[test]
fn sign_digest_refuses_a_hash_out_of_range() {
    let bound = felt("0800000000000000000000000000000000000000000000000000000000000000");
    assert_eq!(sign_digest(&private_key(), &bound).err(), Some(SignError::HashOutOfRange));
    let largest = felt("0800000000000011000000000000000000000000000000000000000000000000");
    assert_eq!(sign_digest(&private_key(), &largest).err(), Some(SignError::HashOutOfRange));
    let below = felt("07ffffffffffffffffffffffffffffffffffffffffffffffffffffffffffffff");
    assert!(sign_digest(&private_key(), &below).is_ok());
}

#[test]
fn verify_digest_accepts_the_known_signature() {
    let sig = Signature { r: known_r(), s: known_s() };
    assert_eq!(verify_digest(&known_public_key(), &known_hash(), &sig), Ok(true));
}

#[test]
fn verify_digest_rejects_an_altered_signature() {
    let altered = felt("04e44e759cea02c23568bb4d8a09929bbca8768ab68270d50c18d214166ccd9b");
    let sig = Signature { r: known_r(), s: altered };
    assert_eq!(verify_digest(&known_public_key(), &known_hash(), &sig), Ok(false));
}

#[test]
fn verify_digest_names_what_it_cannot_check() {
    let sig = Signature { r: known_r(), s: known_s() };
    let bound = felt("0800000000000000000000000000000000000000000000000000000000000000");
    assert_eq!(
        verify_digest(&known_public_key(), &bound, &sig),
        Err(VerifyError::HashOutOfRange)
    );
    let zero_r = Signature { r: Felt::zero(), s: known_s() };
    assert_eq!(
        verify_digest(&known_public_key(), &known_hash(), &zero_r),
        Err(VerifyError::Malformed)
    );
    let wide_s = Signature { r: known_r(), s: bound };
    assert_eq!(
        verify_digest(&known_public_key(), &known_hash(), &wide_s),
        Err(VerifyError::Malformed)
    );
}

#[test]
fn token_is_derived_from_address_task_and_level() {
    let token = derive_token_id(&address(), 54, 6);
    let by_hand = hash_chain(&vec![address(), Felt::from_u32(54), Felt::from_u32(6)]);
    assert_eq!(token, by_hand);
    assert_eq!(token, derive_token_id(&address(), 54, 6));
    assert_ne!(token, derive_token_id(&address(), 54, 7));
    assert_ne!(token, derive_token_id(&address(), 55, 6));
    assert_ne!(token, derive_token_id(&contract(), 54, 6));
    assert_ne!(token, derive_token_id(&address(), 6, 54));
}

#[test]
fn message_names_every_field_in_order() {
    let token = derive_token_id(&address(), 54, 6);
    let message = claim_message(&address(), 54, &contract(), 6, &token);
    let by_hand = hash_chain(&vec![
        address(),
        Felt::from_u32(54),
        contract(),
        Felt::from_u32(6),
        token,
    ]);
    assert_eq!(message, by_hand);
    assert_ne!(message, claim_message(&contract(), 54, &address(), 6, &token));
    assert_ne!(message, claim_message(&address(), 6, &contract(), 54, &token));
}

#[test]
fn sign_returns_the_derived_token_and_a_valid_signature() {
    let (token, sig) = sign(&private_key(), &address(), 54, &contract(), 6).unwrap();
    assert_eq!(token, derive_token_id(&address(), 54, 6));
    let digest = claim_message(&address(), 54, &contract(), 6, &token);
    let direct = sign_digest(&private_key(), &digest).unwrap();
    assert_eq!((sig.r, sig.s), (direct.r, direct.s));
    let key = public_key(&private_key());
    assert_eq!(verify(&key, &address(), 54, &contract(), 6, &token, &sig), Ok(true));
}

#[test]
fn signing_twice_gives_the_same_signature() {
    let (token, sig) = sign(&private_key(), &address(), 54, &contract(), 6).unwrap();
    let (again, resigned) = sign(&private_key(), &address(), 54, &contract(), 6).unwrap();
    assert_eq!(token, again);
    assert_eq!(sig.r, resigned.r);
    assert_eq!(sig.s, resigned.s);
}

#[test]
fn signature_is_bound_to_every_field() {
    let (token, sig) = sign(&private_key(), &address(), 54, &contract(), 6).unwrap();
    let key = public_key(&private_key());
    let other = felt("0111111111111111111111111111111111111111111111111111111111111111");
    assert_eq!(verify(&key, &address(), 54, &contract(), 6, &token, &sig), Ok(true));
    assert_eq!(verify(&key, &other, 54, &contract(), 6, &token, &sig), Ok(false));
    assert_eq!(verify(&key, &address(), 55, &contract(), 6, &token, &sig), Ok(false));
    assert_eq!(verify(&key, &address(), 54, &other, 6, &token, &sig), Ok(false));
    assert_eq!(verify(&key, &address(), 54, &contract(), 7, &token, &sig), Ok(false));
    assert_eq!(verify(&key, &address(), 54, &contract(), 6, &other, &sig), Ok(false));
    let other_key = public_key(&Felt::from_u64(12345));
    assert_eq!(verify(&other_key, &address(), 54, &contract(), 6, &token, &sig), Ok(false));
}

#[test]
fn signature_checks_under_the_curve_library_too() {
    let (token, sig) = sign(&private_key(), &address(), 54, &contract(), 6).unwrap();
    let digest = claim_message(&address(), 54, &contract(), 6, &token);
    let to_outside =
        |f: &Felt| starknet::core::types::FieldElement::from_bytes_be(&f.to_bytes_be()).unwrap();
    let key = starknet::signers::SigningKey::from_secret_scalar(to_outside(&private_key()));
    let outside = starknet::core::crypto::Signature { r: to_outside(&sig.r), s: to_outside(&sig.s) };
    assert!(key.verifying_key().verify(&to_outside(&digest), &outside).unwrap());
}

#[test]
fn sign_digest_refuses_what_is_no_private_key() {
    let order = felt("0800000000000010ffffffffffffffffb781126dcae7b2321e66a241adc64d2f");
    let below_order = felt("0800000000000010ffffffffffffffffb781126dcae7b2321e66a241adc64d2e");
    let above_order = felt("0800000000000011000000000000000000000000000000000000000000000000");
    assert_eq!(sign_digest(&Felt::zero(), &known_hash()).err(), Some(SignError::InvalidKey));
    assert_eq!(sign_digest(&Felt::zero(), &Felt::zero()).err(), Some(SignError::InvalidKey));
    assert_eq!(sign_digest(&order, &known_hash()).err(), Some(SignError::InvalidKey));
    assert_eq!(sign_digest(&order, &Felt::zero()).err(), Some(SignError::InvalidKey));
    assert_eq!(sign_digest(&above_order, &known_hash()).err(), Some(SignError::InvalidKey));
    assert!(sign_digest(&below_order, &known_hash()).is_ok());
    assert!(sign_digest(&Felt::from_u64(1), &Felt::zero()).is_ok());
    let bound = felt("0800000000000000000000000000000000000000000000000000000000000000");
    assert_eq!(sign_digest(&Felt::zero(), &bound).err(), Some(SignError::InvalidKey));
    assert_eq!(sign(&Felt::zero(), &address(), 54, &contract(), 6).err(), Some(SignError::InvalidKey));
}

#[test]
fn private_keys_lie_between_zero_and_the_order() {
    assert!(!Felt::zero().is_private_key());
    assert!(Felt::from_u64(1).is_private_key());
    assert!(private_key().is_private_key());
    assert!(!felt("0800000000000010ffffffffffffffffb781126dcae7b2321e66a241adc64d2f").is_private_key());
    assert!(felt("0800000000000010ffffffffffffffffb781126dcae7b2321e66a241adc64d2e").is_private_key());
    assert!(!felt("0800000000000010ffffffffffffffffb781126dcae7b2321e66a241adc64d30").is_private_key());
}

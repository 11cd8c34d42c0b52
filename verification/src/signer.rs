//! The reward signer. It derives a reward's token from the claim, hashes
//! every field of the claim into one message, in a fixed order, and signs
//! the message.

use vstd::prelude::*;
use crate::felt::{
    be_bytes,
    be_value,
    curve_order,
    lemma_word_bytes_injective,
    signing_bound,
    Felt,
};
use crate::stark::{
    ecdsa_sign,
    ecdsa_signature,
    ecdsa_verdict,
    ecdsa_verify,
    pedersen_digest,
    pedersen_hash,
    public_key_of,
    stark_public_key,
    Signature,
};

verus! {

/// Why nothing was signed.
#[derive(Clone, Copy, Debug, PartialEq, Eq, Structural)]
pub enum SignError {
    /// The key is no private key: it is zero, or not below the order of the
    /// curve.
    InvalidKey,
    /// The message's hash is not below 2^251.
    HashOutOfRange,
}

/// Why a signature could not be checked.
#[derive(Clone, Copy, Debug, PartialEq, Eq, Structural)]
pub enum VerifyError {
    /// The message's hash is not below 2^251.
    HashOutOfRange,
    /// The public key is no point of the curve, or a scalar of the signature
    /// is out of range.
    Malformed,
}

/// The 32 bytes of each element.
pub open spec fn views(fields: Seq<Felt>) -> Seq<Seq<u8>> {
    fields.map_values(|f: Felt| f@)
}

/// The hash of a list of fields: the first field, hashed with each further
/// field in turn. The empty list hashes to zero.
pub open spec fn chain_digest(fields: Seq<Seq<u8>>) -> Seq<u8>
    decreases fields.len(),
{
    if fields.len() == 0 {
        be_bytes(0, 32)
    } else if fields.len() == 1 {
        fields[0]
    } else {
        pedersen_digest(chain_digest(fields.drop_last()), fields.last())
    }
}

/// The fields from which a reward's token is derived, in order: the
/// recipient, the task and the tier.
pub open spec fn token_fields(address: Seq<u8>, task_id: u32, level: u32) -> Seq<Seq<u8>> {
    seq![address, be_bytes(task_id as nat, 32), be_bytes(level as nat, 32)]
}

/// The token of the reward for a recipient, a task and a tier.
pub open spec fn token_digest(address: Seq<u8>, task_id: u32, level: u32) -> Seq<u8> {
    chain_digest(token_fields(address, task_id, level))
}

/// The fields of a claim's message, in order: the recipient, the task, the
/// minting contract, the tier and the token.
pub open spec fn claim_fields(
    address: Seq<u8>,
    task_id: u32,
    nft_contract: Seq<u8>,
    level: u32,
    token_id: Seq<u8>,
) -> Seq<Seq<u8>> {
    seq![address, be_bytes(task_id as nat, 32), nft_contract, be_bytes(level as nat, 32), token_id]
}

/// The hash of a claim's message.
pub open spec fn claim_digest(
    address: Seq<u8>,
    task_id: u32,
    nft_contract: Seq<u8>,
    level: u32,
    token_id: Seq<u8>,
) -> Seq<u8> {
    chain_digest(claim_fields(address, task_id, nft_contract, level, token_id))
}

/// What signing a hash gives: the refusal of a key that is no private key,
/// else the refusal of a hash that is not below 2^251, else the signature's
/// two scalars.
pub open spec fn digest_signing(private_key: Seq<u8>, digest: Seq<u8>) -> Result<
    (Seq<u8>, Seq<u8>),
    SignError,
> {
    if !(0 < be_value(private_key) < curve_order()) {
        Err(SignError::InvalidKey)
    } else if be_value(digest) >= signing_bound() {
        Err(SignError::HashOutOfRange)
    } else {
        Ok(ecdsa_signature(private_key, digest))
    }
}

/// What signing a claim gives: the token and the signature's two scalars,
/// or the refusal.
pub open spec fn claim_signing(
    private_key: Seq<u8>,
    address: Seq<u8>,
    task_id: u32,
    nft_contract: Seq<u8>,
    level: u32,
) -> Result<(Seq<u8>, (Seq<u8>, Seq<u8>)), SignError> {
    let token = token_digest(address, task_id, level);
    match digest_signing(private_key, claim_digest(address, task_id, nft_contract, level, token)) {
        Ok(scalars) => Ok((token, scalars)),
        Err(e) => Err(e),
    }
}

/// The plain values of what `sign` returns.
pub open spec fn signed_view(signed: Result<(Felt, Signature), SignError>) -> Result<
    (Seq<u8>, (Seq<u8>, Seq<u8>)),
    SignError,
> {
    match signed {
        Ok((token, sig)) => Ok((token@, (sig.r@, sig.s@))),
        Err(e) => Err(e),
    }
}

/// What checking a signature over a hash gives.
pub open spec fn digest_verification(
    public_key: Seq<u8>,
    digest: Seq<u8>,
    r: Seq<u8>,
    s: Seq<u8>,
) -> Result<bool, VerifyError> {
    if be_value(digest) >= signing_bound() {
        Err(VerifyError::HashOutOfRange)
    } else {
        match ecdsa_verdict(public_key, digest, r, s) {
            Some(valid) => Ok(valid),
            None => Err(VerifyError::Malformed),
        }
    }
}

/// A claim's message names every field of the claim: two claims with the
/// same message fields are the same claim.
pub proof fn lemma_claim_fields_bind(
    address: Seq<u8>,
    task_id: u32,
    nft_contract: Seq<u8>,
    level: u32,
    token_id: Seq<u8>,
    other_address: Seq<u8>,
    other_task_id: u32,
    other_nft_contract: Seq<u8>,
    other_level: u32,
    other_token_id: Seq<u8>,
)
    requires
        claim_fields(address, task_id, nft_contract, level, token_id) == claim_fields(
            other_address,
            other_task_id,
            other_nft_contract,
            other_level,
            other_token_id,
        ),
    ensures
        address == other_address,
        task_id == other_task_id,
        nft_contract == other_nft_contract,
        level == other_level,
        token_id == other_token_id,
{
    let a = claim_fields(address, task_id, nft_contract, level, token_id);
    let b = claim_fields(
        other_address,
        other_task_id,
        other_nft_contract,
        other_level,
        other_token_id,
    );
    assert(a[0] == b[0] && a[1] == b[1] && a[2] == b[2] && a[3] == b[3] && a[4] == b[4]);
    lemma_word_bytes_injective(task_id as u64, other_task_id as u64);
    lemma_word_bytes_injective(level as u64, other_level as u64);
}

/// Whether the hash fails to tell two different pairs apart.
pub open spec fn collide(a: Seq<u8>, b: Seq<u8>, c: Seq<u8>, d: Seq<u8>) -> bool {
    (a != c || b != d) && pedersen_digest(a, b) == pedersen_digest(c, d)
}

/// Whether the chains of two lists of fields collide where their fields at
/// place `k` are hashed in.
pub open spec fn collide_at(fields: Seq<Seq<u8>>, others: Seq<Seq<u8>>, k: int) -> bool {
    collide(chain_digest(fields.take(k)), fields[k], chain_digest(others.take(k)), others[k])
}

/// Whether the chains of two lists of fields collide at some place.
pub open spec fn chains_collide(fields: Seq<Seq<u8>>, others: Seq<Seq<u8>>) -> bool {
    exists|k: int| 1 <= k < fields.len() && #[trigger] collide_at(fields, others, k)
}

/// A chain binds its fields as far as the hash does: two different lists of
/// as many fields have the same hash only where the hash collides at some
/// place of their chains.
pub proof fn lemma_chain_binds(fields: Seq<Seq<u8>>, others: Seq<Seq<u8>>)
    requires
        fields.len() == others.len(),
        fields.len() >= 1,
        fields != others,
        chain_digest(fields) == chain_digest(others),
    ensures
        chains_collide(fields, others),
    decreases fields.len(),
{
    let last = fields.len() - 1;
    if last == 0 {
        assert(fields =~= others);
    } else {
        let front = fields.take(last);
        let other_front = others.take(last);
        assert(fields.drop_last() =~= front);
        assert(others.drop_last() =~= other_front);
        if chain_digest(front) != chain_digest(other_front) || fields[last] != others[last] {
            assert(collide_at(fields, others, last));
        } else {
            if front == other_front {
                assert(fields =~= front.push(fields[last]));
                assert(others =~= other_front.push(others[last]));
            }
            lemma_chain_binds(front, other_front);
            let k = choose|k: int| 1 <= k < front.len() && #[trigger] collide_at(
                front,
                other_front,
                k,
            );
            assert(front.take(k) =~= fields.take(k));
            assert(other_front.take(k) =~= others.take(k));
            assert(collide_at(fields, others, k));
        }
    }
}

/// Binding. Two claims that differ in the recipient, the task, the contract,
/// the tier or the token have the same message hash only where the hash
/// collides at some place of their chains: short of that, a signature over
/// one claim's hash is a signature over no other claim's.
pub proof fn lemma_claim_digest_binds(
    address: Seq<u8>,
    task_id: u32,
    nft_contract: Seq<u8>,
    level: u32,
    token_id: Seq<u8>,
    other_address: Seq<u8>,
    other_task_id: u32,
    other_nft_contract: Seq<u8>,
    other_level: u32,
    other_token_id: Seq<u8>,
)
    requires
        address != other_address || task_id != other_task_id || nft_contract
            != other_nft_contract || level != other_level || token_id != other_token_id,
        claim_digest(address, task_id, nft_contract, level, token_id) == claim_digest(
            other_address,
            other_task_id,
            other_nft_contract,
            other_level,
            other_token_id,
        ),
    ensures
        chains_collide(
            claim_fields(address, task_id, nft_contract, level, token_id),
            claim_fields(
                other_address,
                other_task_id,
                other_nft_contract,
                other_level,
                other_token_id,
            ),
        ),
{
    let fields = claim_fields(address, task_id, nft_contract, level, token_id);
    let others = claim_fields(
        other_address,
        other_task_id,
        other_nft_contract,
        other_level,
        other_token_id,
    );
    if fields == others {
        lemma_claim_fields_bind(
            address,
            task_id,
            nft_contract,
            level,
            token_id,
            other_address,
            other_task_id,
            other_nft_contract,
            other_level,
            other_token_id,
        );
    }
    lemma_chain_binds(fields, others);
}

/// Two rewards that differ in the recipient, the task or the tier have the
/// same token only where the hash collides at some place of their chains.
pub proof fn lemma_token_digest_binds(
    address: Seq<u8>,
    task_id: u32,
    level: u32,
    other_address: Seq<u8>,
    other_task_id: u32,
    other_level: u32,
)
    requires
        address != other_address || task_id != other_task_id || level != other_level,
        token_digest(address, task_id, level) == token_digest(
            other_address,
            other_task_id,
            other_level,
        ),
    ensures
        chains_collide(
            token_fields(address, task_id, level),
            token_fields(other_address, other_task_id, other_level),
        ),
{
    let fields = token_fields(address, task_id, level);
    let others = token_fields(other_address, other_task_id, other_level);
    if fields == others {
        assert(fields[0] == others[0] && fields[1] == others[1] && fields[2] == others[2]);
        lemma_word_bytes_injective(task_id as u64, other_task_id as u64);
        lemma_word_bytes_injective(level as u64, other_level as u64);
    }
    lemma_chain_binds(fields, others);
}

/// Signing is repeatable: two signings of one claim with one key return
/// the same token and the same signature, or both refuse.
pub proof fn lemma_signing_repeats(
    first: Result<(Felt, Signature), SignError>,
    second: Result<(Felt, Signature), SignError>,
    private_key: Felt,
    address: Felt,
    task_id: u32,
    nft_contract: Felt,
    level: u32,
)
    requires
        signed_view(first) == claim_signing(private_key@, address@, task_id, nft_contract@, level),
        signed_view(second) == claim_signing(
            private_key@,
            address@,
            task_id,
            nft_contract@,
            level,
        ),
    ensures
        first is Ok <==> second is Ok,
        first matches Ok((token, sig)) ==> second matches Ok((again, resigned)) && token == again
            && sig.r == resigned.r && sig.s == resigned.s,
        first matches Err(e) ==> second == Err::<(Felt, Signature), SignError>(e),
{
    if let Ok((token, sig)) = first {
        let (again, resigned) = second->Ok_0;
        token.lemma_same_view(again);
        sig.r.lemma_same_view(resigned.r);
        sig.s.lemma_same_view(resigned.s);
    }
}

/// The hash of a list of fields.
pub fn hash_chain(fields: &Vec<Felt>) -> (digest: Felt)
    ensures
        digest@ == chain_digest(views(fields@)),
        digest.is_canonical(),
{
    if fields.len() == 0 {
        return Felt::zero();
    }
    let mut acc = fields[0];
    proof {
        use_type_invariant(&acc);
        assert(views(fields@).take(1) =~= seq![fields@[0]@]);
    }
    let mut i: usize = 1;
    while i < fields.len()
        invariant
            1 <= i <= fields@.len(),
            acc.is_canonical(),
            acc@ == chain_digest(views(fields@).take(i as int)),
        decreases fields@.len() - i,
    {
        let field = &fields[i];
        proof {
            use_type_invariant(field);
            let next = views(fields@).take(i + 1);
            assert(next.drop_last() =~= views(fields@).take(i as int));
            assert(next.last() == fields@[i as int]@);
        }
        acc = pedersen_hash(&acc, field);
        i += 1;
    }
    proof {
        assert(views(fields@).take(fields@.len() as int) =~= views(fields@));
    }
    acc
}

/// The token of the reward for a recipient, a task and a tier. It is derived
/// from the three and from nothing else.
pub fn derive_token_id(address: &Felt, task_id: u32, level: u32) -> (token: Felt)
    ensures
        token@ == token_digest(address@, task_id, level),
        token.is_canonical(),
{
    let mut fields: Vec<Felt> = Vec::new();
    fields.push(*address);
    fields.push(Felt::from_u32(task_id));
    fields.push(Felt::from_u32(level));
    proof {
        assert(views(fields@) =~= token_fields(address@, task_id, level));
    }
    hash_chain(&fields)
}

/// The hash of a claim's message.
pub fn claim_message(
    address: &Felt,
    task_id: u32,
    nft_contract: &Felt,
    level: u32,
    token_id: &Felt,
) -> (digest: Felt)
    ensures
        digest@ == claim_digest(address@, task_id, nft_contract@, level, token_id@),
        digest.is_canonical(),
{
    let mut fields: Vec<Felt> = Vec::new();
    fields.push(*address);
    fields.push(Felt::from_u32(task_id));
    fields.push(*nft_contract);
    fields.push(Felt::from_u32(level));
    fields.push(*token_id);
    proof {
        assert(views(fields@) =~= claim_fields(
            address@,
            task_id,
            nft_contract@,
            level,
            token_id@,
        ));
    }
    hash_chain(&fields)
}

/// Signs a hash. A key that is no private key is refused, and so is a hash
/// that is not below 2^251; every other hash is signed, and the same key
/// and hash always give the same signature.
pub fn sign_digest(private_key: &Felt, digest: &Felt) -> (signed: Result<Signature, SignError>)
    ensures
        match signed {
            Ok(sig) => digest_signing(private_key@, digest@) == Ok::<(Seq<u8>, Seq<u8>), SignError>(
                (sig.r@, sig.s@),
            ),
            Err(e) => digest_signing(private_key@, digest@) == Err::<(Seq<u8>, Seq<u8>), SignError>(
                e,
            ),
        },
{
    proof {
        use_type_invariant(private_key);
        use_type_invariant(digest);
    }
    if !private_key.is_private_key() {
        return Err(SignError::InvalidKey);
    }
    match ecdsa_sign(private_key, digest) {
        Ok(sig) => Ok(sig),
        Err(_) => Err(SignError::HashOutOfRange),
    }
}

/// Signs the claim of a recipient to the reward of a task, minted by a
/// contract at a tier. Returns the reward's token, which is derived here,
/// and the signature over the message that names all five.
pub fn sign(
    private_key: &Felt,
    address: &Felt,
    task_id: u32,
    nft_contract: &Felt,
    level: u32,
) -> (signed: Result<(Felt, Signature), SignError>)
    ensures
        signed_view(signed) == claim_signing(
            private_key@,
            address@,
            task_id,
            nft_contract@,
            level,
        ),
{
    let token = derive_token_id(address, task_id, level);
    let digest = claim_message(address, task_id, nft_contract, level, &token);
    match sign_digest(private_key, &digest) {
        Ok(sig) => Ok((token, sig)),
        Err(e) => Err(e),
    }
}

/// The public key under which the signatures of a private key verify.
pub fn public_key(private_key: &Felt) -> (key: Felt)
    ensures
        key@ == stark_public_key(private_key@),
{
    proof {
        use_type_invariant(private_key);
    }
    public_key_of(private_key)
}

/// Checks a signature over a hash under a public key.
pub fn verify_digest(public_key: &Felt, digest: &Felt, sig: &Signature) -> (checked: Result<
    bool,
    VerifyError,
>)
    ensures
        checked == digest_verification(public_key@, digest@, sig.r@, sig.s@),
{
    proof {
        use_type_invariant(public_key);
        use_type_invariant(digest);
        use_type_invariant(&sig.r);
        use_type_invariant(&sig.s);
    }
    if !digest.is_signable() {
        return Err(VerifyError::HashOutOfRange);
    }
    match ecdsa_verify(public_key, digest, sig) {
        Ok(valid) => Ok(valid),
        Err(_) => Err(VerifyError::Malformed),
    }
}

/// Checks a signature over the message of a claim: the one that names the
/// recipient, the task, the contract, the tier and the token.
pub fn verify(
    public_key: &Felt,
    address: &Felt,
    task_id: u32,
    nft_contract: &Felt,
    level: u32,
    token_id: &Felt,
    sig: &Signature,
) -> (checked: Result<bool, VerifyError>)
    ensures
        checked == digest_verification(
            public_key@,
            claim_digest(address@, task_id, nft_contract@, level, token_id@),
            sig.r@,
            sig.s@,
        ),
{
    let digest = claim_message(address, task_id, nft_contract, level, token_id);
    verify_digest(public_key, &digest, sig)
}

} // verus!

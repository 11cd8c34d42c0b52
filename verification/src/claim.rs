//! The claim orchestrator: from an address and the identifier of a quest or
//! an achievement to the signed rewards, or to the one reason why there are
//! none. A claim reads the ledger and never writes it.

use vstd::prelude::*;
use crate::eligibility::{completes, is_eligible};
use crate::felt::Felt;
use crate::hex::{full_hex, to_hex};
use crate::ledger::{Ledger, TaskKey};
use crate::quest::{lookup, QuestConfig, QuestDefinition, RewardGrant};
use crate::signer::{claim_signing, sign, signed_view, SignError};
use crate::stark::Signature;

verus! {

/// One signed reward: what a contract needs to mint it.
#[derive(Clone, Copy, Debug)]
pub struct Reward {
    pub task_id: u32,
    pub nft_contract: Felt,
    pub token_id: Felt,
    pub sig: Signature,
}

/// A reward as plain values.
pub struct RewardModel {
    pub task_id: u32,
    pub nft_contract: Seq<u8>,
    pub token_id: Seq<u8>,
    pub r: Seq<u8>,
    pub s: Seq<u8>,
}

impl View for Reward {
    type V = RewardModel;

    open spec fn view(&self) -> RewardModel {
        RewardModel {
            task_id: self.task_id,
            nft_contract: self.nft_contract@,
            token_id: self.token_id@,
            r: self.sig.r@,
            s: self.sig.s@,
        }
    }
}

/// What a successful claim returns: the rewards, in the definition's order.
#[derive(Debug)]
pub struct RewardResponse {
    pub rewards: Vec<Reward>,
}

impl View for RewardResponse {
    type V = Seq<RewardModel>;

    open spec fn view(&self) -> Seq<RewardModel> {
        self.rewards@.map_values(|reward: Reward| reward@)
    }
}

/// Why a claim returned no rewards.
#[derive(Clone, Copy, Debug, PartialEq, Eq, Structural)]
pub enum ClaimError {
    /// No definition has the identifier.
    UnknownDefinition,
    /// The address has not completed every required task.
    NotEligible,
    /// The ledger could not be read.
    StoreUnavailable,
    /// A reward could not be signed.
    SigningFailed,
    /// The definition grants no reward.
    NoRewards,
}

/// How a failed claim is to be taken.
#[derive(Clone, Copy, Debug, PartialEq, Eq, Structural)]
pub enum ErrorClass {
    /// The expected "no": the address is not eligible.
    Negative,
    /// A fault of the configuration, to be told to the client.
    Configuration,
    /// A fault of the service: the store or the signer. It is to be told to
    /// the client as such and to be looked into.
    Internal,
}

impl ClaimError {
    /// How the error is to be taken.
    pub open spec fn class_of(self) -> ErrorClass {
        match self {
            ClaimError::NotEligible => ErrorClass::Negative,
            ClaimError::UnknownDefinition => ErrorClass::Configuration,
            ClaimError::NoRewards => ErrorClass::Configuration,
            ClaimError::StoreUnavailable => ErrorClass::Internal,
            ClaimError::SigningFailed => ErrorClass::Internal,
        }
    }

    /// The words in which the error is told.
    pub open spec fn text(self) -> Seq<char> {
        match self {
            ClaimError::NotEligible => "User hasn't completed all tasks"@,
            ClaimError::UnknownDefinition => "No quest found with this quest_id"@,
            ClaimError::NoRewards => "No rewards found for this user"@,
            ClaimError::StoreUnavailable => "Error querying rewards"@,
            ClaimError::SigningFailed => "Signature failed"@,
        }
    }

    /// How the error is to be taken.
    pub fn class(&self) -> (class: ErrorClass)
        ensures
            class == self.class_of(),
    {
        match self {
            ClaimError::NotEligible => ErrorClass::Negative,
            ClaimError::UnknownDefinition => ErrorClass::Configuration,
            ClaimError::NoRewards => ErrorClass::Configuration,
            ClaimError::StoreUnavailable => ErrorClass::Internal,
            ClaimError::SigningFailed => ErrorClass::Internal,
        }
    }

    /// The words in which the error is told.
    pub fn message(&self) -> (words: &'static str)
        ensures
            words@ == self.text(),
    {
        match self {
            ClaimError::NotEligible => "User hasn't completed all tasks",
            ClaimError::UnknownDefinition => "No quest found with this quest_id",
            ClaimError::NoRewards => "No rewards found for this user",
            ClaimError::StoreUnavailable => "Error querying rewards",
            ClaimError::SigningFailed => "Signature failed",
        }
    }
}

impl Reward {
    /// The token as text: `0x` and its 64 hexadecimal digits.
    pub fn token_id_text(&self) -> (text: String)
        ensures
            text@ == full_hex(self.token_id@),
    {
        to_hex(&self.token_id)
    }
}

/// A grant together with what signing it gave.
pub type SignedGrant = (RewardGrant, Result<(Felt, Signature), SignError>);

/// A grant together with what signing it gave, as plain values: the token
/// and the signature's two scalars, or the error.
pub type SignedGrantModel = (RewardGrant, Result<(Seq<u8>, (Seq<u8>, Seq<u8>)), SignError>);

/// The reward that a grant and its token and signature make.
pub open spec fn reward_of(grant: RewardGrant, token: Seq<u8>, scalars: (Seq<u8>, Seq<u8>)) -> RewardModel {
    RewardModel {
        task_id: grant.task_id,
        nft_contract: grant.nft_contract@,
        token_id: token,
        r: scalars.0,
        s: scalars.1,
    }
}

/// What a list of grants and signing results amounts to: no rewards if any
/// signing failed or the list is empty, else one reward for each grant.
pub open spec fn assembled(signed: Seq<SignedGrantModel>) -> Result<Seq<RewardModel>, ClaimError> {
    if exists|i: int| 0 <= i < signed.len() && (#[trigger] signed[i]).1 is Err {
        Err(ClaimError::SigningFailed)
    } else if signed.len() == 0 {
        Err(ClaimError::NoRewards)
    } else {
        Ok(
            Seq::new(
                signed.len(),
                |i: int| reward_of(signed[i].0, signed[i].1->Ok_0.0, signed[i].1->Ok_0.1),
            ),
        )
    }
}

/// The plain values of a list of grants and signing results.
pub open spec fn signed_views(signed: Seq<SignedGrant>) -> Seq<SignedGrantModel> {
    Seq::new(signed.len(), |i: int| (signed[i].0, signed_view(signed[i].1)))
}

/// The plain values of what a claim returns.
pub open spec fn claim_view(claimed: Result<RewardResponse, ClaimError>) -> Result<
    Seq<RewardModel>,
    ClaimError,
> {
    match claimed {
        Ok(response) => Ok(response@),
        Err(e) => Err(e),
    }
}

/// What signing each grant of a list for an address gives.
pub open spec fn signings(private_key: Seq<u8>, address: Seq<u8>, grants: Seq<RewardGrant>) -> Seq<
    SignedGrantModel,
> {
    Seq::new(
        grants.len(),
        |i: int|
            (
                grants[i],
                claim_signing(
                    private_key,
                    address,
                    grants[i].task_id,
                    grants[i].nft_contract@,
                    grants[i].level,
                ),
            ),
    )
}

/// What a claim returns, step by step: the definition is looked up, the
/// ledger is asked, each reward is signed, and the rewards are returned if
/// there is at least one and every one was signed.
pub open spec fn claim_outcome(
    private_key: Seq<u8>,
    definitions: Seq<QuestDefinition>,
    available: bool,
    contents: Map<TaskKey, u64>,
    address: Seq<u8>,
    id: u32,
) -> Result<Seq<RewardModel>, ClaimError> {
    match lookup(definitions, id) {
        None => Err(ClaimError::UnknownDefinition),
        Some(definition) => {
            if !available {
                Err(ClaimError::StoreUnavailable)
            } else if !completes(contents, address, definition.required()) {
                Err(ClaimError::NotEligible)
            } else {
                assembled(signings(private_key, address, definition.rewards()))
            }
        },
    }
}

/// All or nothing. Where the signing of one grant failed, whichever it
/// is, there is no list of rewards, not even of those that were signed:
/// the claim fails with the one error.
pub proof fn lemma_one_failure_fails_all(
    signed: Seq<SignedGrantModel>,
    failed: int,
)
    requires
        0 <= failed < signed.len(),
        signed[failed].1 is Err,
    ensures
        assembled(signed) matches Err(ClaimError::SigningFailed),
{
}

/// Where rewards are returned, there is one for each grant, in the grants'
/// order, and every grant was signed.
pub proof fn lemma_rewards_are_complete(
    signed: Seq<SignedGrantModel>,
)
    requires
        assembled(signed) is Ok,
    ensures
        assembled(signed)->Ok_0.len() == signed.len(),
        signed.len() > 0,
        forall|i: int| 0 <= i < signed.len() ==> (#[trigger] signed[i]).1 is Ok,
        forall|i: int|
            0 <= i < signed.len() ==> (#[trigger] assembled(signed)->Ok_0[i]).task_id
                == signed[i].0.task_id,
{
}

/// A claim returns rewards only to an address that has completed every
/// task that the definition requires, and only while the ledger can be
/// read.
pub proof fn lemma_claim_needs_eligibility(
    private_key: Seq<u8>,
    definitions: Seq<QuestDefinition>,
    available: bool,
    contents: Map<TaskKey, u64>,
    address: Seq<u8>,
    id: u32,
)
    requires
        claim_outcome(private_key, definitions, available, contents, address, id) is Ok,
    ensures
        available,
        lookup(definitions, id) matches Some(definition) && completes(
            contents,
            address,
            definition.required(),
        ),
{
}

/// A claim is repeatable: while the configuration and the ledger stay as
/// they are, two claims of one address for one definition return the same,
/// be it the rewards or the error.
pub proof fn lemma_claim_repeats(
    first: Result<RewardResponse, ClaimError>,
    second: Result<RewardResponse, ClaimError>,
    config: QuestConfig,
    ledger: Ledger,
    address: Felt,
    id: u32,
)
    requires
        claim_view(first) == claim_outcome(
            config.private_key()@,
            config.definitions(),
            ledger.available(),
            ledger@,
            address@,
            id,
        ),
        claim_view(second) == claim_outcome(
            config.private_key()@,
            config.definitions(),
            ledger.available(),
            ledger@,
            address@,
            id,
        ),
    ensures
        claim_view(first) == claim_view(second),
        first matches Err(e) ==> second matches Err(again) && e == again,
{
}

/// Makes the response from the grants and what signing each of them gave:
/// all the rewards, or none. One failed signing fails the whole claim, and
/// so does an empty list.
pub fn assemble_rewards(signed: &Vec<SignedGrant>) -> (claimed: Result<RewardResponse, ClaimError>)
    ensures
        claim_view(claimed) == assembled(signed_views(signed@)),
{
    let ghost model = signed_views(signed@);
    let mut rewards: Vec<Reward> = Vec::new();
    let mut i: usize = 0;
    while i < signed.len()
        invariant
            i <= signed@.len(),
            model == signed_views(signed@),
            rewards@.len() == i,
            forall|j: int| 0 <= j < i ==> (#[trigger] model[j]).1 is Ok,
            forall|j: int|
                0 <= j < i ==> (#[trigger] rewards@[j])@ == reward_of(
                    model[j].0,
                    model[j].1->Ok_0.0,
                    model[j].1->Ok_0.1,
                ),
        decreases signed@.len() - i,
    {
        let grant = signed[i].0;
        match signed[i].1 {
            Ok((token_id, sig)) => {
                rewards.push(
                    Reward { task_id: grant.task_id, nft_contract: grant.nft_contract, token_id, sig },
                );
            },
            Err(_) => {
                assert(model[i as int].1 is Err);
                return Err(ClaimError::SigningFailed);
            },
        }
        i += 1;
    }
    if rewards.len() == 0 {
        return Err(ClaimError::NoRewards);
    }
    let response = RewardResponse { rewards };
    assert(response@ =~= assembled(model)->Ok_0);
    Ok(response)
}

/// Claims the rewards of a quest or an achievement for an address.
pub fn claim(config: &QuestConfig, ledger: &Ledger, address: &Felt, id: u32) -> (claimed: Result<
    RewardResponse,
    ClaimError,
>)
    ensures
        claim_view(claimed) == claim_outcome(
            config.private_key()@,
            config.definitions(),
            ledger.available(),
            ledger@,
            address@,
            id,
        ),
{
    let definition = match config.find(id) {
        Some(definition) => definition,
        None => {
            return Err(ClaimError::UnknownDefinition);
        },
    };
    match is_eligible(ledger, definition, address) {
        Err(_) => {
            return Err(ClaimError::StoreUnavailable);
        },
        Ok(false) => {
            return Err(ClaimError::NotEligible);
        },
        Ok(true) => {},
    }
    let grants = definition.granted_rewards();
    let key = config.signing_key();
    let ghost expected = signings(key@, address@, grants@);
    let mut signed: Vec<SignedGrant> = Vec::new();
    let mut i: usize = 0;
    while i < grants.len()
        invariant
            i <= grants@.len(),
            expected == signings(key@, address@, grants@),
            signed@.len() == i,
            signed_views(signed@) =~= expected.take(i as int),
        decreases grants@.len() - i,
    {
        let grant = grants[i];
        let outcome = sign(key, address, grant.task_id, &grant.nft_contract, grant.level);
        let ghost before = signed@;
        signed.push((grant, outcome));
        proof {
            assert(signed@[i as int] == (grant, outcome));
            assert(signed_views(signed@)[i as int] == expected[i as int]);
            assert forall|j: int| 0 <= j < i implies signed_views(signed@)[j] == expected[j] by {
                assert(signed@[j] == before[j]);
                assert(signed_views(before)[j] == expected.take(i as int)[j]);
            }
        }
        i += 1;
    }
    assert(expected.take(grants@.len() as int) =~= expected);
    assemble_rewards(&signed)
}

} // verus!

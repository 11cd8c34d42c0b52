//! What the task-specific checks share. Each check decides, by means of its
//! own, whether an address has done what a task asks; this module knows
//! which task each check stands for, turns a passed check into a record of
//! the ledger, and holds the decisions that the checks make between their
//! requests to other services.

use vstd::prelude::*;
use crate::felt::Felt;
use crate::hex::{full_hex, to_hex};
use crate::ledger::{after_upsert, distinct_keys, task_key, Ledger};

verus! {

/// The checks.
#[derive(Clone, Copy, Debug, PartialEq, Eq, Structural)]
pub enum Verifier {
    /// The address owns a Briq set.
    BriqOwnership,
    /// The address answered the Ekubo quiz.
    EkuboQuiz,
    /// The address is taken at its word on the Rango retweet.
    RangoRetweet,
    /// Rango confirms a trade by the address.
    RangoTrade,
    /// The address holds a deposit on zkLend.
    CarbonableDeposit,
}

/// Why a check did not complete its task.
#[derive(Clone, Copy, Debug, PartialEq, Eq, Structural)]
pub enum CompletionError {
    /// The check needs an address, and the address is zero.
    WalletNotConnected,
    /// The address has not done what the task asks.
    NotSatisfied,
    /// The ledger could not be written.
    StoreUnavailable,
}

impl Verifier {
    /// The task that the check completes.
    pub open spec fn task(self) -> u32 {
        match self {
            Verifier::BriqOwnership => 68,
            Verifier::EkuboQuiz => 37,
            Verifier::RangoRetweet => 126,
            Verifier::RangoTrade => 126,
            Verifier::CarbonableDeposit => 112,
        }
    }

    /// Whether the check refuses the zero address.
    pub open spec fn wallet_required(self) -> bool {
        self == Verifier::BriqOwnership || self == Verifier::EkuboQuiz
    }

    /// What the check answers an address that has not done what the task
    /// asks; nothing, where the check asks for nothing.
    pub open spec fn refusal_text(self) -> Option<Seq<char>> {
        match self {
            Verifier::BriqOwnership => Some("No Briq sets founds"@),
            Verifier::EkuboQuiz => Some("Incorrect answers"@),
            Verifier::RangoRetweet => None,
            Verifier::RangoTrade => Some("User has not completed the task"@),
            Verifier::CarbonableDeposit => Some("You didn't deposit liquidity on zkLend."@),
        }
    }

    /// The task that the check completes.
    pub fn task_id(&self) -> (task_id: u32)
        ensures
            task_id == self.task(),
    {
        match self {
            Verifier::BriqOwnership => 68,
            Verifier::EkuboQuiz => 37,
            Verifier::RangoRetweet => 126,
            Verifier::RangoTrade => 126,
            Verifier::CarbonableDeposit => 112,
        }
    }

    /// Whether the check refuses the zero address.
    pub fn needs_wallet(&self) -> (needed: bool)
        ensures
            needed == self.wallet_required(),
    {
        match self {
            Verifier::BriqOwnership => true,
            Verifier::EkuboQuiz => true,
            _ => false,
        }
    }

    /// What the check answers an address that has not done what the task
    /// asks.
    pub fn refusal(&self) -> (text: Option<&'static str>)
        ensures
            text is Some <==> self.refusal_text() is Some,
            text matches Some(words) ==> self.refusal_text() == Some(words@),
    {
        match self {
            Verifier::BriqOwnership => Some("No Briq sets founds"),
            Verifier::EkuboQuiz => Some("Incorrect answers"),
            Verifier::RangoRetweet => None,
            Verifier::RangoTrade => Some("User has not completed the task"),
            Verifier::CarbonableDeposit => Some("You didn't deposit liquidity on zkLend."),
        }
    }

    /// Whether the check takes the address at all: every address but zero,
    /// and zero too where the check does not need a wallet.
    pub fn admits(&self, address: &Felt) -> (admitted: bool)
        ensures
            admitted == !(self.wallet_required() && address.value() == 0),
    {
        !(self.needs_wallet() && address.is_zero())
    }
}

/// What the answer to a zero address is.
pub fn wallet_refusal() -> (text: &'static str)
    ensures
        text@ == "Please connect your wallet first"@,
{
    "Please connect your wallet first"
}

/// What completing a task comes to: the address is looked at first, then
/// the check's verdict, then the ledger.
pub open spec fn completion_outcome(
    verifier: Verifier,
    address: Felt,
    satisfied: bool,
    available: bool,
) -> Result<(), CompletionError> {
    if verifier.wallet_required() && address.value() == 0 {
        Err(CompletionError::WalletNotConnected)
    } else if !satisfied {
        Err(CompletionError::NotSatisfied)
    } else if !available {
        Err(CompletionError::StoreUnavailable)
    } else {
        Ok(())
    }
}

/// Records the task of a check as completed by the address, at the time
/// `now`, if the check was passed. Success is reported only once the record
/// stands in the ledger; without success the ledger is unchanged.
pub fn complete_at(
    ledger: &mut Ledger,
    verifier: Verifier,
    address: &Felt,
    satisfied: bool,
    now: u64,
) -> (completed: Result<(), CompletionError>)
    ensures
        completed == completion_outcome(verifier, *address, satisfied, old(ledger).available()),
        final(ledger).available() == old(ledger).available(),
        final(ledger).records() == if completed is Ok {
            after_upsert(old(ledger).records(), *address, verifier.task(), now)
        } else {
            old(ledger).records()
        },
        completed is Ok ==> final(ledger)@.contains_key(task_key(*address, verifier.task())),
        completed is Ok ==> final(ledger).record_count(*address, verifier.task()) == 1,
        completed is Err ==> final(ledger)@ == old(ledger)@,
        distinct_keys(final(ledger).records()),
{
    if !verifier.admits(address) {
        let _ = ledger.len();
        return Err(CompletionError::WalletNotConnected);
    }
    if !satisfied {
        let _ = ledger.len();
        return Err(CompletionError::NotSatisfied);
    }
    match ledger.upsert_at(address, verifier.task_id(), now) {
        Ok(()) => Ok(()),
        Err(_) => Err(CompletionError::StoreUnavailable),
    }
}

/// Records the task of a check as completed by the address, at the time
/// that the system's clock shows, if the check was passed.
pub fn complete(ledger: &mut Ledger, verifier: Verifier, address: &Felt, satisfied: bool) -> (completed:
    Result<(), CompletionError>)
    ensures
        completed == completion_outcome(verifier, *address, satisfied, old(ledger).available()),
        final(ledger).available() == old(ledger).available(),
        completed is Ok ==> exists|now: u64|
            final(ledger).records() == #[trigger] after_upsert(
                old(ledger).records(),
                *address,
                verifier.task(),
                now,
            ),
        completed is Ok ==> final(ledger)@.contains_key(task_key(*address, verifier.task())),
        completed is Ok ==> final(ledger).record_count(*address, verifier.task()) == 1,
        completed is Err ==> final(ledger).records() == old(ledger).records() && final(ledger)@
            == old(ledger)@,
        distinct_keys(final(ledger).records()),
{
    if !verifier.admits(address) {
        let _ = ledger.len();
        return Err(CompletionError::WalletNotConnected);
    }
    if !satisfied {
        let _ = ledger.len();
        return Err(CompletionError::NotSatisfied);
    }
    match ledger.upsert(address, verifier.task_id()) {
        Ok(()) => Ok(()),
        Err(_) => Err(CompletionError::StoreUnavailable),
    }
}

/// What the deposit check asks the chain with: the address, the number of
/// pairs, then the pairs.
pub fn deposit_calldata(address: &Felt, pairs: &Vec<Felt>) -> (calldata: Vec<Felt>)
    ensures
        calldata@.len() == pairs@.len() + 2,
        calldata@[0] == *address,
        calldata@[1].value() == pairs@.len(),
        calldata@.skip(2) == pairs@,
{
    let mut calldata: Vec<Felt> = Vec::new();
    calldata.push(*address);
    calldata.push(Felt::from_u64(pairs.len() as u64));
    let mut i: usize = 0;
    while i < pairs.len()
        invariant
            i <= pairs@.len(),
            calldata@.len() == i + 2,
            calldata@[0] == *address,
            calldata@[1].value() == pairs@.len(),
            calldata@.skip(2) == pairs@.take(i as int),
        decreases pairs@.len() - i,
    {
        calldata.push(pairs[i]);
        assert(calldata@.skip(2) =~= pairs@.take(i as int).push(pairs@[i as int]));
        assert(pairs@.take(i + 1) =~= pairs@.take(i as int).push(pairs@[i as int]));
        i += 1;
    }
    assert(pairs@.take(pairs@.len() as int) =~= pairs@);
    calldata
}

/// What the Briq check does next.
#[derive(Clone, Copy, Debug, PartialEq, Eq, Structural)]
pub enum BriqAction {
    /// Ask for the metadata of the set at this place in the list.
    FetchMetadata(usize),
    /// The address owns a set: complete the task.
    Complete,
    /// A request failed: give up with its error.
    FailRequest,
    /// The address owns no set.
    FailNoSets,
}

/// The place of the first set name at or behind `from`, if there is one.
/// What is no name in the list is passed over.
pub open spec fn next_set(sets: Seq<Option<String>>, from: int) -> Option<int>
    decreases sets.len() - from,
{
    if from < 0 || from >= sets.len() {
        None
    } else if sets[from] is Some {
        Some(from)
    } else {
        next_set(sets, from + 1)
    }
}

/// What the check does with the list from `from` on: it asks for the first
/// set that is named, and gives up where none is.
pub open spec fn briq_scan(sets: Seq<Option<String>>, from: int) -> BriqAction {
    match next_set(sets, from) {
        Some(i) => BriqAction::FetchMetadata(i as usize),
        None => BriqAction::FailNoSets,
    }
}

/// What the check does once the list of the address's sets has been asked
/// for: `None` where the request failed, `Some(None)` where the answer holds
/// no list.
pub open spec fn briq_after_sets(answer: Option<Option<Seq<Option<String>>>>) -> BriqAction {
    match answer {
        None => BriqAction::FailRequest,
        Some(None) => BriqAction::FailNoSets,
        Some(Some(sets)) => briq_scan(sets, 0),
    }
}

/// What the check does once the metadata of the set at `asked` has been
/// asked for: `None` where the request failed, else whether the metadata
/// has properties.
pub open spec fn briq_after_metadata(
    sets: Seq<Option<String>>,
    asked: int,
    answer: Option<bool>,
) -> BriqAction {
    match answer {
        None => BriqAction::FailRequest,
        Some(true) => BriqAction::Complete,
        Some(false) => briq_scan(sets, asked + 1),
    }
}

/// The set that is asked for is named and lies in the list.
pub proof fn lemma_next_set(sets: Seq<Option<String>>, from: int)
    requires
        0 <= from,
    ensures
        next_set(sets, from) matches Some(i) ==> from <= i < sets.len() && sets[i] is Some,
        next_set(sets, from) matches Some(i) ==> forall|j: int| from <= j < i ==> sets[j] is None,
        next_set(sets, from) is None ==> forall|j: int| from <= j < sets.len() ==> sets[j] is None,
    decreases sets.len() - from,
{
    if from < sets.len() && sets[from] is None {
        lemma_next_set(sets, from + 1);
    }
}

/// Looks for the next set from `from` on.
fn scan_sets(sets: &Vec<Option<String>>, from: usize) -> (action: BriqAction)
    ensures
        action == briq_scan(sets@, from as int),
{
    let mut i: usize = from;
    while i < sets.len()
        invariant
            from <= i,
            next_set(sets@, from as int) == next_set(sets@, i as int),
        decreases sets@.len() - i,
    {
        if sets[i].is_some() {
            return BriqAction::FetchMetadata(i);
        }
        i += 1;
    }
    BriqAction::FailNoSets
}

/// The first step of the Briq check, taken when the request for the
/// address's sets has returned.
pub fn briq_on_sets(answer: &Option<Option<Vec<Option<String>>>>) -> (action: BriqAction)
    ensures
        action == briq_after_sets(
            match *answer {
                None => None,
                Some(None) => Some(None),
                Some(Some(sets)) => Some(Some(sets@)),
            },
        ),
{
    match answer {
        None => BriqAction::FailRequest,
        Some(None) => BriqAction::FailNoSets,
        Some(Some(sets)) => scan_sets(sets, 0),
    }
}

/// A further step of the Briq check, taken when the request for the
/// metadata of the set at `asked` has returned.
pub fn briq_on_metadata(sets: &Vec<Option<String>>, asked: usize, answer: Option<bool>) -> (action:
    BriqAction)
    ensures
        action == briq_after_metadata(sets@, asked as int, answer),
{
    match answer {
        None => BriqAction::FailRequest,
        Some(true) => BriqAction::Complete,
        Some(false) => {
            if asked >= sets.len() {
                BriqAction::FailNoSets
            } else {
                scan_sets(sets, asked + 1)
            }
        },
    }
}

/// Where the sets of an address are asked for.
pub fn briq_user_url(address: &Felt) -> (url: String)
    ensures
        url@ == "https://api.briq.construction/v1/user/data/starknet-mainnet/"@ + full_hex(
            address@,
        ),
{
    let mut url = String::from_str("https://api.briq.construction/v1/user/data/starknet-mainnet/");
    let text = to_hex(address);
    url.append(text.as_str());
    url
}

/// Where the metadata of a set is asked for.
pub fn briq_metadata_url(set: &str) -> (url: String)
    ensures
        url@ == "https://api.briq.construction/v1/metadata/starknet-mainnet/"@ + set@,
{
    let mut url = String::from_str("https://api.briq.construction/v1/metadata/starknet-mainnet/");
    url.append(set);
    url
}

} // verus!

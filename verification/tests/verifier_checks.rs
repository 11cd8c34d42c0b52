use quest_server::felt::Felt;
use quest_server::ledger::Ledger;
use quest_server::verifiers::{
    briq_metadata_url, briq_on_metadata, briq_on_sets, briq_user_url, complete, complete_at,
    deposit_calldata, wallet_refusal, BriqAction, CompletionError, Verifier,
};

fn alice() -> Felt {
    Felt::from_u64(0xa11ce)
}

fn named(names: &[Option<&str>]) -> Vec<Option<String>> {
    names.iter().map(|n| n.map(|s| s.to_string())).collect()
}

#[test]
fn each_check_has_its_task() {
    assert_eq!(Verifier::BriqOwnership.task_id(), 68);
    assert_eq!(Verifier::EkuboQuiz.task_id(), 37);
    assert_eq!(Verifier::RangoRetweet.task_id(), 126);
    assert_eq!(Verifier::RangoTrade.task_id(), 126);
    assert_eq!(Verifier::CarbonableDeposit.task_id(), 112);
}

#[test]
fn some_checks_need_a_wallet() {
    assert!(Verifier::BriqOwnership.needs_wallet());
    assert!(Verifier::EkuboQuiz.needs_wallet());
    assert!(!Verifier::RangoRetweet.needs_wallet());
    assert!(!Verifier::RangoTrade.needs_wallet());
    assert!(!Verifier::CarbonableDeposit.needs_wallet());
    assert!(!Verifier::BriqOwnership.admits(&Felt::zero()));
    assert!(Verifier::BriqOwnership.admits(&alice()));
    assert!(Verifier::RangoTrade.admits(&Felt::zero()));
    assert!(Verifier::RangoTrade.admits(&alice()));
}

#[test]
fn checks_say_why_they_refuse() {
    assert_eq!(wallet_refusal(), "Please connect your wallet first");
    assert_eq!(Verifier::BriqOwnership.refusal(), Some("No Briq sets founds"));
    assert_eq!(Verifier::EkuboQuiz.refusal(), Some("Incorrect answers"));
    assert_eq!(Verifier::RangoRetweet.refusal(), None);
    assert_eq!(Verifier::RangoTrade.refusal(), Some("User has not completed the task"));
    assert_eq!(
        Verifier::CarbonableDeposit.refusal(),
        Some("You didn't deposit liquidity on zkLend.")
    );
}

#[test]
fn passed_check_is_recorded_once() {
    let mut ledger = Ledger::new();
    assert_eq!(complete(&mut ledger, Verifier::EkuboQuiz, &alice(), true), Ok(()));
    assert_eq!(ledger.has_completed(&alice(), 37), Ok(true));
    assert_eq!(complete(&mut ledger, Verifier::EkuboQuiz, &alice(), true), Ok(()));
    assert_eq!(ledger.len(), 1);
    assert_eq!(complete_at(&mut ledger, Verifier::RangoTrade, &alice(), true, 5), Ok(()));
    assert_eq!(complete_at(&mut ledger, Verifier::RangoRetweet, &alice(), true, 6), Ok(()));
    assert_eq!(ledger.completed_at(&alice(), 126), Ok(Some(5)));
    assert_eq!(ledger.len(), 2);
}

#[test]
fn failed_check_records_nothing() {
    let mut ledger = Ledger::new();
    assert_eq!(
        complete(&mut ledger, Verifier::RangoTrade, &alice(), false),
        Err(CompletionError::NotSatisfied)
    );
    assert_eq!(
        complete_at(&mut ledger, Verifier::CarbonableDeposit, &alice(), false, 1),
        Err(CompletionError::NotSatisfied)
    );
    assert_eq!(ledger.len(), 0);
}

#[test]
fn zero_address_is_refused_before_the_verdict() {
    let mut ledger = Ledger::new();
    for satisfied in [true, false] {
        assert_eq!(
            complete(&mut ledger, Verifier::BriqOwnership, &Felt::zero(), satisfied),
            Err(CompletionError::WalletNotConnected)
        );
        assert_eq!(
            complete_at(&mut ledger, Verifier::EkuboQuiz, &Felt::zero(), satisfied, 1),
            Err(CompletionError::WalletNotConnected)
        );
    }
    assert_eq!(ledger.len(), 0);
    assert_eq!(complete(&mut ledger, Verifier::RangoRetweet, &Felt::zero(), true), Ok(()));
    assert_eq!(ledger.has_completed(&Felt::zero(), 126), Ok(true));
}

#[test]
fn unreachable_store_fails_a_passed_check() {
    let mut ledger = Ledger::new();
    ledger.set_available(false);
    assert_eq!(
        complete(&mut ledger, Verifier::RangoTrade, &alice(), true),
        Err(CompletionError::StoreUnavailable)
    );
    assert_eq!(
        complete(&mut ledger, Verifier::RangoTrade, &alice(), false),
        Err(CompletionError::NotSatisfied)
    );
    assert_eq!(
        complete(&mut ledger, Verifier::BriqOwnership, &Felt::zero(), true),
        Err(CompletionError::WalletNotConnected)
    );
    ledger.set_available(true);
    assert_eq!(ledger.len(), 0);
}

#[test]
fn deposit_calldata_is_address_count_pairs() {
    let pairs = vec![Felt::from_u64(11), Felt::from_u64(22), Felt::from_u64(33)];
    let calldata = deposit_calldata(&alice(), &pairs);
    assert_eq!(calldata, vec![alice(), Felt::from_u64(3), pairs[0], pairs[1], pairs[2]]);
    assert_eq!(deposit_calldata(&alice(), &vec![]), vec![alice(), Felt::zero()]);
}

#[test]
fn briq_asks_for_the_first_named_set() {
    assert_eq!(briq_on_sets(&None), BriqAction::FailRequest);
    assert_eq!(briq_on_sets(&Some(None)), BriqAction::FailNoSets);
    assert_eq!(briq_on_sets(&Some(Some(vec![]))), BriqAction::FailNoSets);
    assert_eq!(briq_on_sets(&Some(Some(named(&[None, None])))), BriqAction::FailNoSets);
    assert_eq!(
        briq_on_sets(&Some(Some(named(&[Some("0x1"), Some("0x2")])))),
        BriqAction::FetchMetadata(0)
    );
    assert_eq!(
        briq_on_sets(&Some(Some(named(&[None, None, Some("0x2")])))),
        BriqAction::FetchMetadata(2)
    );
}

#[test]
fn briq_goes_on_until_a_set_has_properties() {
    let sets = named(&[Some("0x1"), None, Some("0x2"), None]);
    assert_eq!(briq_on_metadata(&sets, 0, Some(true)), BriqAction::Complete);
    assert_eq!(briq_on_metadata(&sets, 0, None), BriqAction::FailRequest);
    assert_eq!(briq_on_metadata(&sets, 0, Some(false)), BriqAction::FetchMetadata(2));
    assert_eq!(briq_on_metadata(&sets, 2, Some(false)), BriqAction::FailNoSets);
    assert_eq!(briq_on_metadata(&sets, 3, Some(false)), BriqAction::FailNoSets);
    assert_eq!(briq_on_metadata(&sets, 4, Some(false)), BriqAction::FailNoSets);
    assert_eq!(briq_on_metadata(&sets, usize::MAX, Some(false)), BriqAction::FailNoSets);
    assert_eq!(briq_on_metadata(&sets, usize::MAX, Some(true)), BriqAction::Complete);
}

#[test]
fn briq_urls() {
    assert_eq!(
        briq_user_url(&Felt::from_u64(0xabc)),
        format!(
            "https://api.briq.construction/v1/user/data/starknet-mainnet/0x{}abc",
            "0".repeat(61)
        )
    );
    assert_eq!(
        briq_metadata_url("0xfeed"),
        "https://api.briq.construction/v1/metadata/starknet-mainnet/0xfeed"
    );
}

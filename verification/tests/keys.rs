use penumbra_logic::keys::{proving_key_kind, ProvingKeyKind};

#[test]
fn known_key_names() {
    assert!(proving_key_kind("spend") == Some(ProvingKeyKind::Spend));
    assert!(proving_key_kind("output") == Some(ProvingKeyKind::Output));
    assert!(proving_key_kind("delegator_vote") == Some(ProvingKeyKind::DelegatorVote));
    assert!(proving_key_kind("nullifier_derivation") == Some(ProvingKeyKind::NullifierDerivation));
    assert!(proving_key_kind("swap") == Some(ProvingKeyKind::Swap));
    assert!(proving_key_kind("swap_claim") == Some(ProvingKeyKind::SwapClaim));
    assert!(proving_key_kind("undelegate_claim") == Some(ProvingKeyKind::UndelegateClaim));
}

#[test]
fn unknown_key_names() {
    assert!(proving_key_kind("").is_none());
    assert!(proving_key_kind("Spend").is_none());
    assert!(proving_key_kind("spend ").is_none());
    assert!(proving_key_kind("swapclaim").is_none());
    assert!(proving_key_kind("undelegate").is_none());
}

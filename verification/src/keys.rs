//! Which proving key a client asks to load, by the name it gives.
use vstd::prelude::*;

verus! {

/// The proving keys a client can load, one per kind of proof.
#[derive(PartialEq, Eq, Structural, Clone, Copy)]
pub enum ProvingKeyKind {
    Spend,
    Output,
    DelegatorVote,
    NullifierDerivation,
    Swap,
    SwapClaim,
    UndelegateClaim,
}

/// The kind of proving key a name designates, if any.
pub open spec fn spec_proving_key_kind(key_type: Seq<char>) -> Option<ProvingKeyKind> {
    if key_type == "spend"@ {
        Some(ProvingKeyKind::Spend)
    } else if key_type == "output"@ {
        Some(ProvingKeyKind::Output)
    } else if key_type == "delegator_vote"@ {
        Some(ProvingKeyKind::DelegatorVote)
    } else if key_type == "nullifier_derivation"@ {
        Some(ProvingKeyKind::NullifierDerivation)
    } else if key_type == "swap"@ {
        Some(ProvingKeyKind::Swap)
    } else if key_type == "swap_claim"@ {
        Some(ProvingKeyKind::SwapClaim)
    } else if key_type == "undelegate_claim"@ {
        Some(ProvingKeyKind::UndelegateClaim)
    } else {
        None
    }
}

/// Each kind of proving key is named by exactly one name, and every other name
/// designates none.
pub proof fn lemma_proving_key_names(key_type: Seq<char>)
    ensures
        spec_proving_key_kind(key_type) == Some(ProvingKeyKind::Spend) <==> key_type == "spend"@,
        spec_proving_key_kind(key_type) == Some(ProvingKeyKind::Output) <==> key_type == "output"@,
        spec_proving_key_kind(key_type) == Some(ProvingKeyKind::DelegatorVote) <==> key_type
            == "delegator_vote"@,
        spec_proving_key_kind(key_type) == Some(ProvingKeyKind::NullifierDerivation) <==> key_type
            == "nullifier_derivation"@,
        spec_proving_key_kind(key_type) == Some(ProvingKeyKind::Swap) <==> key_type == "swap"@,
        spec_proving_key_kind(key_type) == Some(ProvingKeyKind::SwapClaim) <==> key_type
            == "swap_claim"@,
        spec_proving_key_kind(key_type) == Some(ProvingKeyKind::UndelegateClaim) <==> key_type
            == "undelegate_claim"@,
        spec_proving_key_kind(key_type) is None <==> {
            &&& key_type != "spend"@
            &&& key_type != "output"@
            &&& key_type != "delegator_vote"@
            &&& key_type != "nullifier_derivation"@
            &&& key_type != "swap"@
            &&& key_type != "swap_claim"@
            &&& key_type != "undelegate_claim"@
        },
{
    reveal_strlit("spend");
    reveal_strlit("output");
    reveal_strlit("delegator_vote");
    reveal_strlit("nullifier_derivation");
    reveal_strlit("swap");
    reveal_strlit("swap_claim");
    reveal_strlit("undelegate_claim");
    assert("spend"@.len() == 5);
    assert("output"@.len() == 6);
    assert("delegator_vote"@.len() == 14);
    assert("nullifier_derivation"@.len() == 20);
    assert("swap"@.len() == 4);
    assert("swap_claim"@.len() == 10);
    assert("undelegate_claim"@.len() == 16);
}

/// Whether two strings hold the same characters.
fn str_equal(a: &str, b: &str) -> (r: bool)
    ensures
        r == (a@ == b@),
{
    let n = a.unicode_len();
    if n != b.unicode_len() {
        return false;
    }
    let mut i: usize = 0;
    while i < n
        invariant
            n == a@.len(),
            n == b@.len(),
            0 <= i <= n,
            forall|j: int| 0 <= j < i ==> a@[j] == b@[j],
        decreases n - i,
    {
        if a.get_char(i) != b.get_char(i) {
            return false;
        }
        i = i + 1;
    }
    assert(a@ =~= b@);
    true
}

/// The kind of proving key named by `key_type`; `None` for an unknown name.
pub fn proving_key_kind(key_type: &str) -> (r: Option<ProvingKeyKind>)
    ensures
        r == spec_proving_key_kind(key_type@),
{
    if str_equal(key_type, "spend") {
        Some(ProvingKeyKind::Spend)
    } else if str_equal(key_type, "output") {
        Some(ProvingKeyKind::Output)
    } else if str_equal(key_type, "delegator_vote") {
        Some(ProvingKeyKind::DelegatorVote)
    } else if str_equal(key_type, "nullifier_derivation") {
        Some(ProvingKeyKind::NullifierDerivation)
    } else if str_equal(key_type, "swap") {
        Some(ProvingKeyKind::Swap)
    } else if str_equal(key_type, "swap_claim") {
        Some(ProvingKeyKind::SwapClaim)
    } else if str_equal(key_type, "undelegate_claim") {
        Some(ProvingKeyKind::UndelegateClaim)
    } else {
        None
    }
}

} // verus!

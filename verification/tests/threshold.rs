use ed25519_consensus::{SigningKey, VerificationKey};
use penumbra_logic::threshold::{
    CoordinatorRound1, CoordinatorRound1Proto, FollowerRound1, FollowerRound1Inner,
    FollowerRound1Proto, FollowerRound2, FollowerRound2Proto, MessageError, SignatureProto,
    VerificationKeyProto, COORDINATOR_ROUND1_TYPE_URL, FOLLOWER_ROUND1_TYPE_URL,
    FOLLOWER_ROUND2_TYPE_URL,
};

fn valid_pk() -> Vec<u8> {
    let sk = SigningKey::from([7u8; 32]);
    VerificationKey::from(&sk).to_bytes().to_vec()
}

fn follower_round1(
    commitments: Option<Vec<Result<u32, &'static str>>>,
    pk: Option<Vec<u8>>,
    sig: Option<Vec<u8>>,
) -> FollowerRound1Proto<Result<u32, &'static str>> {
    FollowerRound1Proto {
        inner: commitments.map(|commitments| FollowerRound1Inner { commitments }),
        pk: pk.map(|inner| VerificationKeyProto { inner }),
        sig: sig.map(|inner| SignatureProto { inner }),
    }
}

#[test]
fn type_urls() {
    assert_eq!(COORDINATOR_ROUND1_TYPE_URL, "/penumbra.custody.threshold.v1alpha1.CoordinatorRound1");
    assert_eq!(FOLLOWER_ROUND1_TYPE_URL, "/penumbra.custody.threshold.v1alpha1.FollowerRound1");
    assert_eq!(FOLLOWER_ROUND2_TYPE_URL, "/penumbra.custody.threshold.v1alpha1.FollowerRound2");
}

#[test]
fn coordinator_round1_decodes_plan() {
    let m = CoordinatorRound1::<u64>::try_from_proto::<&str>(CoordinatorRound1Proto { plan: Some(Ok(42)) });
    let m = match m {
        Ok(m) => m,
        Err(_) => panic!("should decode"),
    };
    assert_eq!(m.to_proto().plan, Some(42));
}

#[test]
fn coordinator_round1_missing_plan() {
    let m = CoordinatorRound1::<u64>::try_from_proto::<&str>(CoordinatorRound1Proto { plan: None });
    assert!(matches!(m, Err(MessageError::MissingPlan)));
}

#[test]
fn coordinator_round1_invalid_plan() {
    let m = CoordinatorRound1::<u64>::try_from_proto(CoordinatorRound1Proto { plan: Some(Err("bad plan")) });
    assert!(matches!(m, Err(MessageError::Invalid("bad plan"))));
}

#[test]
fn follower_round1_round_trip() {
    let pk = valid_pk();
    let sig = vec![9u8; 64];
    let m = FollowerRound1::<u32>::try_from_proto(follower_round1(
        Some(vec![Ok(1), Ok(2), Ok(3)]),
        Some(pk.clone()),
        Some(sig.clone()),
    ));
    let m = match m {
        Ok(m) => m,
        Err(_) => panic!("should decode"),
    };
    let p = m.to_proto();
    assert_eq!(p.inner.map(|i| i.commitments), Some(vec![1, 2, 3]));
    assert_eq!(p.pk.map(|k| k.inner), Some(pk));
    assert_eq!(p.sig.map(|s| s.inner), Some(sig));
}

#[test]
fn follower_round1_empty_commitments() {
    let m = FollowerRound1::<u32>::try_from_proto(follower_round1(Some(vec![]), Some(valid_pk()), Some(vec![0u8; 64])));
    assert!(m.is_ok());
}

#[test]
fn follower_round1_missing_inner() {
    let m = FollowerRound1::<u32>::try_from_proto(follower_round1(None, None, None));
    assert!(matches!(m, Err(MessageError::MissingInner)));
}

#[test]
fn follower_round1_first_bad_commitment() {
    let m = FollowerRound1::<u32>::try_from_proto(follower_round1(
        Some(vec![Ok(1), Err("second"), Err("third")]),
        None,
        None,
    ));
    assert!(matches!(m, Err(MessageError::Invalid("second"))));
}

#[test]
fn follower_round1_missing_pk() {
    let m = FollowerRound1::<u32>::try_from_proto(follower_round1(Some(vec![Ok(1)]), None, Some(vec![0u8; 64])));
    assert!(matches!(m, Err(MessageError::MissingPk)));
}

#[test]
fn follower_round1_pk_wrong_length() {
    let mut pk = valid_pk();
    pk.push(0);
    let m = FollowerRound1::<u32>::try_from_proto(follower_round1(Some(vec![Ok(1)]), Some(pk), Some(vec![0u8; 64])));
    assert!(matches!(m, Err(MessageError::PkWrongLength)));
    let m = FollowerRound1::<u32>::try_from_proto(follower_round1(Some(vec![Ok(1)]), Some(vec![1u8; 31]), Some(vec![0u8; 64])));
    assert!(matches!(m, Err(MessageError::PkWrongLength)));
}

#[test]
fn follower_round1_pk_not_a_point() {
    // Find an encoding whose y coordinate has no matching x on the curve.
    let mut bad = None;
    for y in 0u8..=255 {
        let mut bytes = [0u8; 32];
        bytes[0] = y;
        if VerificationKey::try_from(&bytes[..]).is_err() {
            bad = Some(bytes.to_vec());
            break;
        }
    }
    let bad = bad.expect("some small y is not on the curve");
    let m = FollowerRound1::<u32>::try_from_proto(follower_round1(Some(vec![Ok(1)]), Some(bad), Some(vec![0u8; 64])));
    assert!(matches!(m, Err(MessageError::MalformedPk)));
}

#[test]
fn follower_round1_missing_sig() {
    let m = FollowerRound1::<u32>::try_from_proto(follower_round1(Some(vec![Ok(1)]), Some(valid_pk()), None));
    assert!(matches!(m, Err(MessageError::MissingSig)));
}

#[test]
fn follower_round1_sig_wrong_length() {
    let m = FollowerRound1::<u32>::try_from_proto(follower_round1(Some(vec![Ok(1)]), Some(valid_pk()), Some(vec![0u8; 63])));
    assert!(matches!(m, Err(MessageError::SigWrongLength)));
}

#[test]
fn follower_round2_round_trip() {
    let m = FollowerRound2::<u8>::try_from_proto::<&str>(FollowerRound2Proto { shares: vec![Ok(5), Ok(6)] });
    let m = match m {
        Ok(m) => m,
        Err(_) => panic!("should decode"),
    };
    assert_eq!(m.to_proto().shares, vec![5, 6]);
}

#[test]
fn follower_round2_first_bad_share() {
    let m = FollowerRound2::<u8>::try_from_proto(FollowerRound2Proto { shares: vec![Ok(5), Err("x"), Ok(7), Err("y")] });
    assert!(matches!(m, Err(MessageError::Invalid("x"))));
}

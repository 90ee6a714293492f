//! The messages of threshold signing, and how they are decoded from and encoded
//! into their wire form.
//!
//! The signing plan, the per-spend commitments and the signature shares are
//! carried as type parameters: `T`, `C` and `S` in their decoded form. The
//! wire form of each message holds, in place of each such element, the outcome
//! of decoding that element (`Result<_, E>`) when a message is read, and the
//! element itself when a message is written.
use vstd::prelude::*;

verus! {

/// Type URL of the coordinator's round 1 message.
pub const COORDINATOR_ROUND1_TYPE_URL: &'static str = "/penumbra.custody.threshold.v1alpha1.CoordinatorRound1";

/// Type URL of a follower's round 1 message.
pub const FOLLOWER_ROUND1_TYPE_URL: &'static str = "/penumbra.custody.threshold.v1alpha1.FollowerRound1";

/// Type URL of a follower's round 2 message.
pub const FOLLOWER_ROUND2_TYPE_URL: &'static str = "/penumbra.custody.threshold.v1alpha1.FollowerRound2";

/// Why a wire message could not be decoded.
pub enum MessageError<E> {
    /// The coordinator's message carries no plan.
    MissingPlan,
    /// A follower's round 1 message carries no commitments.
    MissingInner,
    /// A follower's round 1 message carries no verification key.
    MissingPk,
    /// A follower's round 1 message carries no signature.
    MissingSig,
    /// The verification key is not 32 bytes long.
    PkWrongLength,
    /// The verification key is 32 bytes long but not the encoding of an Ed25519 point.
    MalformedPk,
    /// The signature is not 64 bytes long.
    SigWrongLength,
    /// An element (plan, commitment or share) failed to decode.
    Invalid(E),
}

// ---------------------------------------------------------------------------
// Ed25519 encodings
// ---------------------------------------------------------------------------

/// Whether 32 bytes are the compressed encoding of a point of the twisted
/// Edwards form of Curve25519 (non-canonical encodings included), as
/// `ed25519_consensus` decompresses them.
pub uninterp spec fn ed25519_point_decodes(encoding: Seq<u8>) -> bool;

/// Why bytes are not an Ed25519 verification key.
enum KeyBytesError {
    /// The bytes are not 32 bytes long.
    WrongLength,
    /// The 32 bytes do not decompress to a curve point.
    NotAPoint,
}

/// Calls `ed25519_consensus::VerificationKey::try_from(&[u8])` and hands back
/// the key's `to_bytes()`. Trusted: the call fails with `InvalidSliceLength`
/// exactly when the input is not 32 bytes, and with `MalformedPublicKey`
/// exactly when 32 bytes do not decompress to a curve point; a key keeps the
/// bytes it was made from.
#[verifier::external_body]
fn ed25519_verification_key_bytes(bytes: &[u8]) -> (r: Result<Vec<u8>, KeyBytesError>)
    ensures
        r is Ok <==> (bytes@.len() == 32 && ed25519_point_decodes(bytes@)),
        r matches Err(KeyBytesError::WrongLength) <==> bytes@.len() != 32,
        r matches Err(KeyBytesError::NotAPoint) <==> (bytes@.len() == 32
            && !ed25519_point_decodes(bytes@)),
        r matches Ok(v) ==> v@ == bytes@,
{
    match ed25519_consensus::VerificationKey::try_from(bytes) {
        Ok(vk) => Ok(vk.to_bytes().to_vec()),
        Err(ed25519_consensus::Error::InvalidSliceLength) => Err(KeyBytesError::WrongLength),
        Err(ed25519_consensus::Error::MalformedPublicKey) => Err(KeyBytesError::NotAPoint),
        Err(ed25519_consensus::Error::MalformedSecretKey) => Err(KeyBytesError::NotAPoint),
        Err(ed25519_consensus::Error::InvalidSignature) => Err(KeyBytesError::NotAPoint),
    }
}

/// Calls `ed25519_consensus::Signature::try_from(&[u8])` and hands back the
/// signature's `to_bytes()`. Trusted: the call succeeds exactly on 64 bytes,
/// and the signature keeps the bytes it was made from.
#[verifier::external_body]
fn ed25519_signature_bytes(bytes: &[u8]) -> (r: Option<Vec<u8>>)
    ensures
        r is Some <==> bytes@.len() == 64,
        r matches Some(v) ==> v@ == bytes@,
{
    match ed25519_consensus::Signature::try_from(bytes) {
        Ok(sig) => Some(sig.to_bytes().to_vec()),
        Err(_) => None,
    }
}

// ---------------------------------------------------------------------------
// Decoding a list of elements
// ---------------------------------------------------------------------------

/// The decoded elements, or the first decoding error.
pub open spec fn collect_results<C, E>(s: Seq<Result<C, E>>) -> Result<Seq<C>, E>
    decreases s.len(),
{
    if s.len() == 0 {
        Ok(Seq::empty())
    } else {
        match s[0] {
            Err(e) => Err(e),
            Ok(c) => match collect_results(s.drop_first()) {
                Ok(cs) => Ok(seq![c] + cs),
                Err(e) => Err(e),
            },
        }
    }
}

/// Every element decoded: each element wrapped in `Ok`.
pub open spec fn all_ok<C, E>(s: Seq<C>) -> Seq<Result<C, E>> {
    s.map_values(|c: C| Ok::<C, E>(c))
}

/// Collecting elements that all decoded gives them back.
pub proof fn lemma_collect_all_ok<C, E>(s: Seq<C>)
    ensures
        collect_results(all_ok::<C, E>(s)) == Ok::<Seq<C>, E>(s),
    decreases s.len(),
{
    if s.len() == 0 {
        assert(all_ok::<C, E>(s) =~= Seq::empty());
        assert(s =~= Seq::empty());
    } else {
        lemma_collect_all_ok::<C, E>(s.drop_first());
        assert(all_ok::<C, E>(s)[0] == Ok::<C, E>(s[0]));
        assert(all_ok::<C, E>(s).drop_first() =~= all_ok::<C, E>(s.drop_first()));
        assert(seq![s[0]] + s.drop_first() =~= s);
    }
}

/// Collecting decoded elements succeeds exactly when every element decoded; it
/// then gives one element for each, in order, and otherwise fails with the
/// error of the first element that did not decode.
pub proof fn lemma_collect_results_meaning<C, E>(s: Seq<Result<C, E>>)
    ensures
        collect_results(s) is Ok <==> forall|i: int| 0 <= i < s.len() ==> (#[trigger] s[i]) is Ok,
        collect_results(s) matches Ok(cs) ==> cs.len() == s.len() && forall|i: int|
            0 <= i < s.len() ==> #[trigger] s[i] == Ok::<C, E>(cs[i]),
        forall|k: int|
            0 <= k < s.len() && (#[trigger] s[k]) is Err && (forall|j: int|
                0 <= j < k ==> (#[trigger] s[j]) is Ok) ==> collect_results(s) == Err::<Seq<C>, E>(
                s[k]->Err_0,
            ),
    decreases s.len(),
{
    if s.len() > 0 {
        let t = s.drop_first();
        lemma_collect_results_meaning(t);
        assert forall|i: int| 0 <= i < t.len() implies #[trigger] t[i] == s[i + 1] by {}
        match s[0] {
            Err(e) => {
                assert forall|k: int|
                    0 <= k < s.len() && (#[trigger] s[k]) is Err && (forall|j: int|
                        0 <= j < k ==> (#[trigger] s[j]) is Ok) implies collect_results(s) == Err::<
                    Seq<C>,
                    E,
                >(s[k]->Err_0) by {
                    if k > 0 {
                        assert(s[0] is Ok);
                    }
                }
            },
            Ok(c) => {
                if collect_results(s) is Ok {
                    assert forall|i: int| 0 <= i < s.len() implies (#[trigger] s[i]) is Ok by {
                        if i > 0 {
                            assert(t[i - 1] is Ok);
                        }
                    }
                    let cs = collect_results(s)->Ok_0;
                    let ct = collect_results(t)->Ok_0;
                    assert(cs == seq![c] + ct);
                    assert forall|i: int| 0 <= i < s.len() implies #[trigger] s[i] == Ok::<C, E>(
                        cs[i],
                    ) by {
                        if i > 0 {
                            assert(t[i - 1] == Ok::<C, E>(ct[i - 1]));
                        }
                    }
                } else {
                    let e = collect_results(t)->Err_0;
                    assert(!(forall|i: int| 0 <= i < t.len() ==> (#[trigger] t[i]) is Ok));
                    let i0 = choose|i: int| 0 <= i < t.len() && !(t[i] is Ok);
                    assert(!(s[i0 + 1] is Ok));
                }
                assert forall|k: int|
                    0 <= k < s.len() && (#[trigger] s[k]) is Err && (forall|j: int|
                        0 <= j < k ==> (#[trigger] s[j]) is Ok) implies collect_results(s) == Err::<
                    Seq<C>,
                    E,
                >(s[k]->Err_0) by {
                    assert(k > 0);
                    assert(t[k - 1] == s[k]);
                    assert forall|j: int| 0 <= j < k - 1 implies (#[trigger] t[j]) is Ok by {
                        assert(s[j + 1] is Ok);
                    }
                }
            },
        }
    }
}

/// The decoded elements of a list, or the first error in it.
fn collect_all<C, E>(items: Vec<Result<C, E>>) -> (r: Result<Vec<C>, E>)
    ensures
        collect_results(items@) matches Ok(cs) ==> r matches Ok(out) && out@ == cs,
        collect_results(items@) matches Err(e) ==> r matches Err(re) && re == e,
{
    let ghost orig = items@;
    let mut v = items;
    let mut out: Vec<C> = Vec::new();
    while v.len() > 0
        invariant
            orig == items@,
            collect_results(orig) == match collect_results(v@) {
                Ok(cs) => Ok(out@ + cs),
                Err(e) => Err::<Seq<C>, E>(e),
            },
        decreases v@.len(),
    {
        let ghost before = v@;
        let x = v.remove(0);
        assert(v@ =~= before.drop_first());
        match x {
            Ok(c) => {
                let ghost old_out = out@;
                out.push(c);
                proof {
                    match collect_results(v@) {
                        Ok(cs) => {
                            assert(old_out + (seq![c] + cs) =~= out@ + cs);
                        },
                        Err(e) => {},
                    }
                }
            },
            Err(e) => {
                assert(collect_results(before) == Err::<Seq<C>, E>(e));
                assert(collect_results(orig) == Err::<Seq<C>, E>(e));
                return Err(e);
            },
        }
    }
    assert(out@ + Seq::<C>::empty() =~= out@);
    Ok(out)
}

// ---------------------------------------------------------------------------
// Coordinator, round 1
// ---------------------------------------------------------------------------

/// The message sent by the coordinator at the start of signing: the plan of the
/// transaction to sign. Nominally "round 1", though it is the only message the
/// coordinator sends.
pub struct CoordinatorRound1<T> {
    plan: T,
}

/// The wire form of the coordinator's round 1 message.
pub struct CoordinatorRound1Proto<P> {
    pub plan: Option<P>,
}

/// How a coordinator's round 1 message decodes.
pub open spec fn decode_coordinator_round1<T, E>(m: CoordinatorRound1Proto<Result<T, E>>) -> Result<
    T,
    MessageError<E>,
> {
    match m.plan {
        None => Err(MessageError::MissingPlan),
        Some(Err(e)) => Err(MessageError::Invalid(e)),
        Some(Ok(plan)) => Ok(plan),
    }
}

impl<T> CoordinatorRound1<T> {
    /// The plan this message carries.
    pub closed spec fn spec_plan(&self) -> T {
        self.plan
    }

    /// Encodes the message: the plan is always present.
    pub fn to_proto(self) -> (r: CoordinatorRound1Proto<T>)
        ensures
            r.plan == Some(self.spec_plan()),
    {
        CoordinatorRound1Proto { plan: Some(self.plan) }
    }

    /// Decodes the message: refused when the plan is missing or failed to decode.
    pub fn try_from_proto<E>(value: CoordinatorRound1Proto<Result<T, E>>) -> (r: Result<
        Self,
        MessageError<E>,
    >)
        ensures
            match decode_coordinator_round1(value) {
                Ok(plan) => r matches Ok(m) && m.spec_plan() == plan,
                Err(e) => r == Err::<Self, MessageError<E>>(e),
            },
    {
        match value.plan {
            None => Err(MessageError::MissingPlan),
            Some(Err(e)) => Err(MessageError::Invalid(e)),
            Some(Ok(plan)) => Ok(CoordinatorRound1 { plan }),
        }
    }
}

// ---------------------------------------------------------------------------
// Follower, round 1
// ---------------------------------------------------------------------------

/// The message a follower sends in round 1: a commitment for each spend to
/// authorize, the follower's Ed25519 verification key, and its signature over
/// the encoding of the commitments.
pub struct FollowerRound1<C> {
    /// A commitment for each spend we need to authorize.
    commitments: Vec<C>,
    /// The encoding of the verification key identifying the sender.
    pk: Vec<u8>,
    /// The signature over the protobuf encoding of the commitments.
    sig: Vec<u8>,
}

/// What a follower's round 1 message holds.
pub struct FollowerRound1View<C> {
    pub commitments: Seq<C>,
    pub pk: Seq<u8>,
    pub sig: Seq<u8>,
}

/// The commitments of a follower's round 1 message, in wire form.
pub struct FollowerRound1Inner<P> {
    pub commitments: Vec<P>,
}

/// An Ed25519 verification key in wire form.
pub struct VerificationKeyProto {
    pub inner: Vec<u8>,
}

/// An Ed25519 signature in wire form.
pub struct SignatureProto {
    pub inner: Vec<u8>,
}

/// The wire form of a follower's round 1 message.
pub struct FollowerRound1Proto<P> {
    pub inner: Option<FollowerRound1Inner<P>>,
    pub pk: Option<VerificationKeyProto>,
    pub sig: Option<SignatureProto>,
}

/// How a follower's round 1 message decodes. The fields are checked in order:
/// the commitments (present, then each decoded), the key (present, then a curve
/// point), the signature (present, then 64 bytes).
pub open spec fn decode_follower_round1<C, E>(m: FollowerRound1Proto<Result<C, E>>) -> Result<
    FollowerRound1View<C>,
    MessageError<E>,
> {
    match m.inner {
        None => Err(MessageError::MissingInner),
        Some(inner) => match collect_results(inner.commitments@) {
            Err(e) => Err(MessageError::Invalid(e)),
            Ok(commitments) => match m.pk {
                None => Err(MessageError::MissingPk),
                Some(pk) => if pk.inner@.len() != 32 {
                    Err(MessageError::PkWrongLength)
                } else if !ed25519_point_decodes(pk.inner@) {
                    Err(MessageError::MalformedPk)
                } else {
                    match m.sig {
                        None => Err(MessageError::MissingSig),
                        Some(sig) => if sig.inner@.len() != 64 {
                            Err(MessageError::SigWrongLength)
                        } else {
                            Ok(FollowerRound1View { commitments, pk: pk.inner@, sig: sig.inner@ })
                        },
                    }
                },
            },
        },
    }
}

impl<C> View for FollowerRound1<C> {
    type V = FollowerRound1View<C>;

    closed spec fn view(&self) -> FollowerRound1View<C> {
        FollowerRound1View { commitments: self.commitments@, pk: self.pk@, sig: self.sig@ }
    }
}

impl<C> FollowerRound1<C> {
    /// The key is the 32-byte encoding of a curve point and the signature is 64 bytes.
    #[verifier::type_invariant]
    spec fn keys_well_formed(&self) -> bool {
        &&& self.pk@.len() == 32
        &&& ed25519_point_decodes(self.pk@)
        &&& self.sig@.len() == 64
    }

    /// Encodes the message: every field is present and holds what the message holds.
    pub fn to_proto(self) -> (r: FollowerRound1Proto<C>)
        ensures
            r.inner matches Some(inner) && inner.commitments@ == self@.commitments,
            r.pk matches Some(pk) && pk.inner@ == self@.pk,
            r.sig matches Some(sig) && sig.inner@ == self@.sig,
            self@.pk.len() == 32,
            ed25519_point_decodes(self@.pk),
            self@.sig.len() == 64,
    {
        proof {
            use_type_invariant(&self);
        }
        FollowerRound1Proto {
            inner: Some(FollowerRound1Inner { commitments: self.commitments }),
            pk: Some(VerificationKeyProto { inner: self.pk }),
            sig: Some(SignatureProto { inner: self.sig }),
        }
    }

    /// Decodes the message, refusing it at the first field that is missing or malformed.
    pub fn try_from_proto<E>(value: FollowerRound1Proto<Result<C, E>>) -> (r: Result<
        Self,
        MessageError<E>,
    >)
        ensures
            decode_follower_round1(value) matches Ok(v) ==> r matches Ok(m) && m@ == v,
            decode_follower_round1(value) matches Err(e) ==> r matches Err(re) && re == e,
    {
        let ghost spec_value = value;
        let FollowerRound1Proto { inner, pk, sig } = value;
        let inner = match inner {
            Some(inner) => inner,
            None => return Err(MessageError::MissingInner),
        };
        let commitments = match collect_all(inner.commitments) {
            Ok(commitments) => commitments,
            Err(e) => return Err(MessageError::Invalid(e)),
        };
        let pk = match pk {
            Some(pk) => pk,
            None => return Err(MessageError::MissingPk),
        };
        let pk = match ed25519_verification_key_bytes(pk.inner.as_slice()) {
            Ok(pk) => pk,
            Err(KeyBytesError::WrongLength) => return Err(MessageError::PkWrongLength),
            Err(KeyBytesError::NotAPoint) => return Err(MessageError::MalformedPk),
        };
        let sig = match sig {
            Some(sig) => sig,
            None => return Err(MessageError::MissingSig),
        };
        let sig = match ed25519_signature_bytes(sig.inner.as_slice()) {
            Some(sig) => sig,
            None => return Err(MessageError::SigWrongLength),
        };
        Ok(FollowerRound1 { commitments, pk, sig })
    }
}

// ---------------------------------------------------------------------------
// Follower, round 2
// ---------------------------------------------------------------------------

/// The message a follower sends in round 2: one share of the signature for
/// each authorization needed.
pub struct FollowerRound2<S> {
    /// One share of the signature for each authorization we need.
    shares: Vec<S>,
}

/// The wire form of a follower's round 2 message.
pub struct FollowerRound2Proto<P> {
    pub shares: Vec<P>,
}

/// How a follower's round 2 message decodes: every share, or the first share that failed.
pub open spec fn decode_follower_round2<S, E>(m: FollowerRound2Proto<Result<S, E>>) -> Result<
    Seq<S>,
    MessageError<E>,
> {
    match collect_results(m.shares@) {
        Ok(shares) => Ok(shares),
        Err(e) => Err(MessageError::Invalid(e)),
    }
}

impl<S> FollowerRound2<S> {
    /// The shares this message carries.
    pub closed spec fn spec_shares(&self) -> Seq<S> {
        self.shares@
    }

    /// Encodes the message.
    pub fn to_proto(self) -> (r: FollowerRound2Proto<S>)
        ensures
            r.shares@ == self.spec_shares(),
    {
        FollowerRound2Proto { shares: self.shares }
    }

    /// Decodes the message, refusing it at the first share that failed to decode.
    pub fn try_from_proto<E>(value: FollowerRound2Proto<Result<S, E>>) -> (r: Result<
        Self,
        MessageError<E>,
    >)
        ensures
            decode_follower_round2(value) matches Ok(shares) ==> r matches Ok(m) && m.spec_shares()
                == shares,
            decode_follower_round2(value) matches Err(e) ==> r matches Err(re) && re == e,
    {
        match collect_all(value.shares) {
            Ok(shares) => Ok(FollowerRound2 { shares }),
            Err(e) => Err(MessageError::Invalid(e)),
        }
    }
}

// ---------------------------------------------------------------------------
// Round trips
// ---------------------------------------------------------------------------

/// Decoding the wire form of a coordinator's round 1 message, whose plan decodes
/// to itself, gives back the message's plan.
pub proof fn lemma_coordinator_round1_round_trip<T, E>(
    plan: T,
    encoded: CoordinatorRound1Proto<Result<T, E>>,
)
    requires
        encoded.plan == Some(Ok::<T, E>(plan)),
    ensures
        decode_coordinator_round1(encoded) == Ok::<T, MessageError<E>>(plan),
{
}

/// Decoding the wire form of a follower's round 1 message, each of whose
/// commitments decodes to itself, gives back the message.
pub proof fn lemma_follower_round1_round_trip<C, E>(
    m: FollowerRound1View<C>,
    encoded: FollowerRound1Proto<Result<C, E>>,
)
    requires
        m.pk.len() == 32,
        ed25519_point_decodes(m.pk),
        m.sig.len() == 64,
        encoded.inner matches Some(inner) && inner.commitments@ == all_ok::<C, E>(m.commitments),
        encoded.pk matches Some(pk) && pk.inner@ == m.pk,
        encoded.sig matches Some(sig) && sig.inner@ == m.sig,
    ensures
        decode_follower_round1(encoded) == Ok::<FollowerRound1View<C>, MessageError<E>>(m),
{
    lemma_collect_all_ok::<C, E>(m.commitments);
}

/// Decoding the wire form of a follower's round 2 message, each of whose
/// shares decodes to itself, gives back the shares.
pub proof fn lemma_follower_round2_round_trip<S, E>(
    shares: Seq<S>,
    encoded: FollowerRound2Proto<Result<S, E>>,
)
    requires
        encoded.shares@ == all_ok::<S, E>(shares),
    ensures
        decode_follower_round2(encoded) == Ok::<Seq<S>, MessageError<E>>(shares),
{
    lemma_collect_all_ok::<S, E>(shares);
}

/// A coordinator's round 1 message decodes exactly when it carries a plan that
/// decoded, and then to that plan; a missing plan and a plan that failed to
/// decode are refused as such.
pub proof fn lemma_decode_coordinator_round1_meaning<T, E>(m: CoordinatorRound1Proto<Result<T, E>>)
    ensures
        forall|plan: T|
            decode_coordinator_round1(m) == Ok::<T, MessageError<E>>(plan) <==> m.plan == Some(
                Ok::<T, E>(plan),
            ),
        m.plan is None ==> decode_coordinator_round1(m) matches Err(MessageError::MissingPlan),
        m.plan matches Some(Err(e)) ==> decode_coordinator_round1(m) matches Err(
            MessageError::Invalid(de),
        ) && de == e,
{
}

/// A follower's round 1 message decodes exactly when its commitments are
/// present and every one decoded, its key is present and is the 32-byte
/// encoding of a curve point, and its signature is present and 64 bytes long.
/// The decoded message then holds one commitment for each, in order, and the
/// key and signature bytes as sent. A refused message is refused at the first
/// field that fails, in the order commitments, key, signature; among the
/// commitments, with the error of the first one that did not decode.
pub proof fn lemma_decode_follower_round1_meaning<C, E>(m: FollowerRound1Proto<Result<C, E>>)
    ensures
        decode_follower_round1(m) is Ok <==> {
            &&& m.inner is Some
            &&& forall|i: int|
                0 <= i < m.inner->Some_0.commitments@.len()
                    ==> (#[trigger] m.inner->Some_0.commitments@[i]) is Ok
            &&& m.pk is Some
            &&& m.pk->Some_0.inner@.len() == 32
            &&& ed25519_point_decodes(m.pk->Some_0.inner@)
            &&& m.sig is Some
            &&& m.sig->Some_0.inner@.len() == 64
        },
        decode_follower_round1(m) matches Ok(v) ==> {
            &&& v.commitments.len() == m.inner->Some_0.commitments@.len()
            &&& forall|i: int|
                0 <= i < v.commitments.len() ==> #[trigger] m.inner->Some_0.commitments@[i]
                    == Ok::<C, E>(v.commitments[i])
            &&& v.pk == m.pk->Some_0.inner@
            &&& v.sig == m.sig->Some_0.inner@
        },
        m.inner is None ==> decode_follower_round1(m) matches Err(MessageError::MissingInner),
        m.inner is Some ==> forall|k: int|
            0 <= k < m.inner->Some_0.commitments@.len() && (
            #[trigger] m.inner->Some_0.commitments@[k]) is Err && (forall|j: int|
                0 <= j < k ==> (#[trigger] m.inner->Some_0.commitments@[j]) is Ok)
                ==> (decode_follower_round1(m) matches Err(MessageError::Invalid(e)) && e
                == m.inner->Some_0.commitments@[k]->Err_0),
        (m.inner is Some && forall|i: int|
            0 <= i < m.inner->Some_0.commitments@.len()
                ==> (#[trigger] m.inner->Some_0.commitments@[i]) is Ok) ==> {
            &&& m.pk is None ==> (decode_follower_round1(m) matches Err(MessageError::MissingPk))
            &&& (m.pk is Some && m.pk->Some_0.inner@.len() != 32) ==> (decode_follower_round1(m) matches Err(MessageError::PkWrongLength))
            &&& (m.pk is Some && m.pk->Some_0.inner@.len() == 32 && !ed25519_point_decodes(m.pk->Some_0.inner@))
                ==> (decode_follower_round1(m) matches Err(MessageError::MalformedPk))
            &&& (m.pk is Some && m.pk->Some_0.inner@.len() == 32 && ed25519_point_decodes(m.pk->Some_0.inner@)
                && m.sig is None) ==> (decode_follower_round1(m) matches Err(MessageError::MissingSig))
            &&& (m.pk is Some && m.pk->Some_0.inner@.len() == 32 && ed25519_point_decodes(m.pk->Some_0.inner@)
                && m.sig is Some && m.sig->Some_0.inner@.len() != 64) ==> (decode_follower_round1(m) matches Err(MessageError::SigWrongLength))
        },
{
    if m.inner is Some {
        lemma_collect_results_meaning(m.inner->Some_0.commitments@);
    }
}

/// A follower's round 2 message decodes exactly when every share decoded; the
/// decoded message then holds one share for each, in order; otherwise it is
/// refused with the error of the first share that did not decode.
pub proof fn lemma_decode_follower_round2_meaning<S, E>(m: FollowerRound2Proto<Result<S, E>>)
    ensures
        decode_follower_round2(m) is Ok <==> forall|i: int|
            0 <= i < m.shares@.len() ==> (#[trigger] m.shares@[i]) is Ok,
        decode_follower_round2(m) matches Ok(shares) ==> shares.len() == m.shares@.len()
            && forall|i: int| 0 <= i < shares.len() ==> #[trigger] m.shares@[i] == Ok::<S, E>(shares[i]),
        forall|k: int|
            0 <= k < m.shares@.len() && (#[trigger] m.shares@[k]) is Err && (forall|j: int|
                0 <= j < k ==> (#[trigger] m.shares@[j]) is Ok) ==> (decode_follower_round2(m) matches Err(
                MessageError::Invalid(e),
            ) && e == m.shares@[k]->Err_0),
{
    lemma_collect_results_meaning(m.shares@);
}

/// The coordinator's round 2 message, which carries nothing.
pub struct CoordinatorRound2 {}

/// The coordinator's state between rounds, which holds nothing.
pub struct CoordinatorState {}

/// A follower's state between rounds, which holds nothing.
pub struct FollowerState {}

} // verus!

//! HTSS threshold signing without reconstructing the secret: per-signer
//! nonces, Birkhoff-weighted signature shares, and their aggregation into a
//! BIP-340 signature that is checked before it is returned.
use vstd::prelude::*;
use crate::birkhoff::{
    birkhoff_interpolation_coefficients, birkhoff_points_from_hierarchical_signer_set, birkhoff_solution,
    birkhoff_system, coefficient_values, lemma_points_ranked, points_outcome, transpose, weighted_reconstruction,
    BirkhoffCoefficient, BirkhoffPoint,
};
use crate::linear::{modn, singular};
use crate::curve::{
    add_points, base_mul, base_point_mul, bip340_challenge, bip340_verifies, challenge,
    even_y_xonly, gmul, key_point, point_is_valid, point_or_zero, point_sum, random_nonzero_scalar,
    schnorr_verify, signature_encoding, valid_point, valid_xonly, xonly_is_valid, zero_point,
};
use crate::htss_keys::{lemma_pad_tail, run_local_htss_keygen, shares_follow};
use crate::packages::{HtssNoncePackage, HtssNonceView, HtssSignatureSharePackage, HtssSignatureShareView};
use crate::requests::{AggregateSignature, GroupKey, HtssLocalKeySet, HtssLocalKeyShare};
use crate::scalar::{
    be_bytes, derivative_value, group_order, is_scalar, scalar_add, scalar_from_bytes, scalar_mul, scalar_sub, scalar_zero, sv,
};
use crate::signers::{
    grouped_signer_error, lemma_distinct_len, lemma_signer_set_accepts, signer_ids,
    validate_grouped_threshold_signer_set, validate_hierarchical_signer_set,
};
use crate::text::{decimal, push_decimal};
use crate::types::{
    hierarchical_check, rank_in, required_sum, same_roster, DkgKitError, ErrorView, GroupedThresholdConfig,
    HierarchicalThresholdConfig, ParticipantId, Rank, SessionId, ThresholdConfig,
};

verus! {

/// A signer's nonce: the public package and the secret nonce scalar, which
/// must stay with the signer.
#[derive(Debug, PartialEq, Eq)]
pub struct HtssLocalNonce {
    pub package: HtssNoncePackage,
    pub secret_nonce_bytes: [u8; 32],
}

fn vec33(a: [u8; 33]) -> (r: Vec<u8>)
    ensures
        r@ == a@,
{
    let mut v: Vec<u8> = Vec::new();
    let mut i: usize = 0;
    while i < 33
        invariant
            i <= 33,
            v@ == a@.take(i as int),
        decreases 33 - i,
    {
        v.push(a[i]);
        assert(v@ =~= a@.take(i + 1));
        i += 1;
    }
    assert(a@.take(33) =~= a@);
    v
}

fn vec64(a: [u8; 64]) -> (r: Vec<u8>)
    ensures
        r@ == a@,
{
    let mut v: Vec<u8> = Vec::new();
    let mut i: usize = 0;
    while i < 64
        invariant
            i <= 64,
            v@ == a@.take(i as int),
        decreases 64 - i,
    {
        v.push(a[i]);
        assert(v@ =~= a@.take(i + 1));
        i += 1;
    }
    assert(a@.take(64) =~= a@);
    v
}

/// A fresh random nonce `k` for one signing session, published as `k·G`.
pub fn htss_nonce(signing_session_id: SessionId, local_share: &HtssLocalKeyShare) -> (r: Result<HtssLocalNonce, DkgKitError>)
    ensures
        r matches Ok(n) && n.package.participant_id == local_share.participant_id
            && n.package.signing_session_id@ == signing_session_id@ && is_scalar(n.secret_nonce_bytes)
            && sv(n.secret_nonce_bytes) != 0 && n.package.public_nonce_bytes@ == base_point_mul(n.secret_nonce_bytes@)
            && valid_point(n.package.public_nonce_bytes@) && n.package.public_nonce_bytes@.len() == 33,
{
    let nonce = random_nonzero_scalar();
    let public_nonce = base_mul(nonce);
    Ok(HtssLocalNonce {
        package: HtssNoncePackage {
            participant_id: local_share.participant_id,
            signing_session_id,
            public_nonce_bytes: vec33(public_nonce),
        },
        secret_nonce_bytes: nonce,
    })
}

// ---------------------------------------------------------------- set checks
pub open spec fn nonce_views(v: Seq<HtssNoncePackage>) -> Seq<HtssNonceView> {
    v.map_values(|p: HtssNoncePackage| p@)
}

pub open spec fn share_views(v: Seq<HtssSignatureSharePackage>) -> Seq<HtssSignatureShareView> {
    v.map_values(|p: HtssSignatureSharePackage| p@)
}

/// The check every HTSS nonce or signature-share set goes through: each
/// entry from a signer, no signer twice, one session, one entry per signer.
/// `label` names the kind of entry in the messages.
pub open spec fn entry_scan(label: Seq<char>, ids: Seq<u16>, sessions: Seq<Seq<char>>, signers: Seq<u16>, j: int) -> Option<ErrorView>
    decreases ids.len() - j,
{
    if j < 0 || j >= ids.len() {
        None
    } else if !signers.contains(ids[j]) {
        Some(ErrorView::Protocol(label + " participant "@ + decimal(ids[j] as nat) + " is not in signer set"@))
    } else if ids.take(j).contains(ids[j]) {
        Some(ErrorView::DuplicateParticipantId(ids[j]))
    } else if j > 0 && sessions[j] != sessions[0] {
        Some(ErrorView::Protocol(label + " session mismatch"@))
    } else {
        entry_scan(label, ids, sessions, signers, j + 1)
    }
}

pub open spec fn entry_set_error(label: Seq<char>, ids: Seq<u16>, sessions: Seq<Seq<char>>, signers: Seq<u16>) -> Option<ErrorView> {
    match entry_scan(label, ids, sessions, signers, 0) {
        Some(e) => Some(e),
        None => if ids.len() != signers.len() {
            Some(ErrorView::Protocol(
                label + " set mismatch: have "@ + decimal(ids.len()) + ", need "@ + decimal(signers.len()),
            ))
        } else {
            None
        },
    }
}

/// Every signer has exactly one entry: the entry ids are distinct signers,
/// as many as the signers, so that, the signers being distinct, each signer
/// has one.
pub open spec fn one_entry_per_signer(ids: Seq<u16>, signers: Seq<u16>) -> bool {
    &&& ids.len() == signers.len()
    &&& ids.no_duplicates()
    &&& forall|j: int| 0 <= j < ids.len() ==> signers.contains(#[trigger] ids[j])
    &&& signers.no_duplicates() ==> forall|x: u16| signers.contains(x) ==> ids.contains(x)
}

proof fn lemma_entry_scan_from(label: Seq<char>, ids: Seq<u16>, sessions: Seq<Seq<char>>, signers: Seq<u16>, j: int)
    requires
        0 <= j <= ids.len(),
        entry_scan(label, ids, sessions, signers, j) is None,
    ensures
        forall|i: int| j <= i < ids.len() ==> signers.contains(#[trigger] ids[i]) && !ids.take(i).contains(ids[i]),
    decreases ids.len() - j,
{
    if j < ids.len() {
        lemma_entry_scan_from(label, ids, sessions, signers, j + 1);
    }
}

/// An accepted HTSS nonce or signature-share set has exactly one entry per
/// signer of the signer set.
pub proof fn lemma_entry_set_one_per_signer(label: Seq<char>, ids: Seq<u16>, sessions: Seq<Seq<char>>, signers: Seq<u16>)
    requires
        entry_set_error(label, ids, sessions, signers) is None,
    ensures
        one_entry_per_signer(ids, signers),
{
    lemma_entry_scan_from(label, ids, sessions, signers, 0);
    assert forall|a: int, b: int| 0 <= a < ids.len() && 0 <= b < ids.len() && a != b implies ids[a] != ids[b] by {
        let (lo, hi) = if a < b { (a, b) } else { (b, a) };
        assert(ids.take(hi)[lo] == ids[lo]);
        assert(!ids.take(hi).contains(ids[hi]));
    }
    if signers.no_duplicates() {
        crate::types::lemma_distinct_cover(ids, signers);
    }
}

fn contains_id(v: &[ParticipantId], id: u16) -> (r: bool)
    ensures
        r == signer_ids(v@).contains(id),
{
    let mut i: usize = 0;
    while i < v.len()
        invariant
            i <= v@.len(),
            forall|k: int| 0 <= k < i ==> signer_ids(v@)[k] != id,
        decreases v@.len() - i,
    {
        if v[i].0 == id {
            assert(signer_ids(v@)[i as int] == id);
            return true;
        }
        i += 1;
    }
    false
}

fn seen_before(ids: &Vec<u16>, i: usize, id: u16) -> (r: bool)
    requires
        i <= ids@.len(),
    ensures
        r == ids@.take(i as int).contains(id),
{
    let mut k: usize = 0;
    while k < i
        invariant
            i <= ids@.len(),
            k <= i,
            forall|t: int| 0 <= t < k ==> ids@[t] != id,
        decreases i - k,
    {
        if ids[k] == id {
            assert(ids@.take(i as int)[k as int] == id);
            return true;
        }
        k += 1;
    }
    proof {
        if ids@.take(i as int).contains(id) {
            let w = choose|w: int| 0 <= w < i && #[trigger] ids@.take(i as int)[w] == id;
            assert(ids@[w] == id);
        }
    }
    false
}

fn check_entries(
    label: &str,
    ids: &Vec<u16>,
    sessions: &Vec<String>,
    signer_set: &[ParticipantId],
) -> (r: Result<(), DkgKitError>)
    requires
        ids@.len() == sessions@.len(),
    ensures
        match entry_set_error(label@, ids@, sessions@.map_values(|s: String| s@), signer_ids(signer_set@)) {
            Some(e) => r matches Err(x) && x@ == e,
            None => r is Ok,
        },
{
    let ghost ss = sessions@.map_values(|s: String| s@);
    let ghost signers = signer_ids(signer_set@);
    let n = ids.len();
    let mut i: usize = 0;
    while i < n
        invariant
            n == ids@.len(),
            n == sessions@.len(),
            ss == sessions@.map_values(|s: String| s@),
            signers == signer_ids(signer_set@),
            i <= n,
            entry_scan(label@, ids@, ss, signers, 0) == entry_scan(label@, ids@, ss, signers, i as int),
        decreases n - i,
    {
        let id = ids[i];
        if !contains_id(signer_set, id) {
            let mut text = String::from_str(label);
            text.append(" participant ");
            push_decimal(&mut text, id as u64);
            text.append(" is not in signer set");
            return Err(DkgKitError::Protocol(text));
        }
        if seen_before(ids, i, id) {
            return Err(DkgKitError::DuplicateParticipantId(id));
        }
        if i > 0 {
            assert(ss[i as int] == sessions@[i as int]@);
            assert(ss[0] == sessions@[0]@);
            if !crate::text::str_eq(sessions[i].as_str(), sessions[0].as_str()) {
                let mut text = String::from_str(label);
                text.append(" session mismatch");
                return Err(DkgKitError::Protocol(text));
            }
        }
        i += 1;
    }
    if n != signer_set.len() {
        let mut text = String::from_str(label);
        text.append(" set mismatch: have ");
        push_decimal(&mut text, n as u64);
        text.append(", need ");
        push_decimal(&mut text, signer_set.len() as u64);
        return Err(DkgKitError::Protocol(text));
    }
    Ok(())
}

pub open spec fn nonce_ids(v: Seq<HtssNonceView>) -> Seq<u16> {
    v.map_values(|p: HtssNonceView| p.participant_id)
}

pub open spec fn nonce_sessions(v: Seq<HtssNonceView>) -> Seq<Seq<char>> {
    v.map_values(|p: HtssNonceView| p.signing_session_id)
}

pub open spec fn share_ids(v: Seq<HtssSignatureShareView>) -> Seq<u16> {
    v.map_values(|p: HtssSignatureShareView| p.participant_id)
}

pub open spec fn share_sessions(v: Seq<HtssSignatureShareView>) -> Seq<Seq<char>> {
    v.map_values(|p: HtssSignatureShareView| p.signing_session_id)
}

/// `sum_{i < n} ks[i]`.
pub open spec fn int_sum(ks: Seq<int>, n: int) -> int
    decreases n,
{
    if n <= 0 {
        0
    } else {
        int_sum(ks, n - 1) + ks[n - 1]
    }
}

/// Each nonce's public point is the base-point multiple of its entry of `ks`.
pub open spec fn nonces_multiples(vs: Seq<HtssNonceView>, ks: Seq<int>) -> bool {
    &&& ks.len() == vs.len()
    &&& forall|i: int| 0 <= i < vs.len() ==> #[trigger] vs[i].public_nonce_bytes == gmul(ks[i])
}

/// Checks an HTSS nonce set against the signer set.
pub fn validate_htss_nonce_set(nonces: &[HtssNoncePackage], signer_set: &[ParticipantId]) -> (r: Result<(), DkgKitError>)
    ensures
        match entry_set_error("HTSS nonce"@, nonce_ids(nonce_views(nonces@)), nonce_sessions(nonce_views(nonces@)), signer_ids(signer_set@)) {
            Some(e) => r matches Err(x) && x@ == e,
            None => r is Ok,
        },
        r is Ok ==> one_entry_per_signer(nonce_ids(nonce_views(nonces@)), signer_ids(signer_set@)),
{
    proof {
        if entry_set_error("HTSS nonce"@, nonce_ids(nonce_views(nonces@)), nonce_sessions(nonce_views(nonces@)), signer_ids(signer_set@)) is None {
            lemma_entry_set_one_per_signer("HTSS nonce"@, nonce_ids(nonce_views(nonces@)), nonce_sessions(nonce_views(nonces@)), signer_ids(signer_set@));
        }
    }
    let mut ids: Vec<u16> = Vec::new();
    let mut sessions: Vec<String> = Vec::new();
    let mut i: usize = 0;
    while i < nonces.len()
        invariant
            i <= nonces@.len(),
            ids@ == nonce_ids(nonce_views(nonces@)).take(i as int),
            sessions@.map_values(|s: String| s@) == nonce_sessions(nonce_views(nonces@)).take(i as int),
        decreases nonces@.len() - i,
    {
        ids.push(nonces[i].participant_id.0);
        let ghost prev = sessions@;
        sessions.push(nonces[i].signing_session_id.0.clone());
        assert(ids@ =~= nonce_ids(nonce_views(nonces@)).take(i + 1));
        assert(sessions@.map_values(|s: String| s@) =~= prev.map_values(|s: String| s@).push(nonces@[i as int].signing_session_id@));
        assert(sessions@.map_values(|s: String| s@) =~= nonce_sessions(nonce_views(nonces@)).take(i + 1));
        i += 1;
    }
    assert(nonce_ids(nonce_views(nonces@)).take(i as int) =~= nonce_ids(nonce_views(nonces@)));
    assert(nonce_sessions(nonce_views(nonces@)).take(i as int) =~= nonce_sessions(nonce_views(nonces@)));
    check_entries("HTSS nonce", &ids, &sessions, signer_set)
}

/// Checks an HTSS signature-share set against the signer set.
pub fn validate_htss_signature_share_set(shares: &[HtssSignatureSharePackage], signer_set: &[ParticipantId]) -> (r: Result<(), DkgKitError>)
    ensures
        match entry_set_error("HTSS signature share"@, share_ids(share_views(shares@)), share_sessions(share_views(shares@)), signer_ids(signer_set@)) {
            Some(e) => r matches Err(x) && x@ == e,
            None => r is Ok,
        },
        r is Ok ==> one_entry_per_signer(share_ids(share_views(shares@)), signer_ids(signer_set@)),
{
    proof {
        if entry_set_error("HTSS signature share"@, share_ids(share_views(shares@)), share_sessions(share_views(shares@)), signer_ids(signer_set@)) is None {
            lemma_entry_set_one_per_signer("HTSS signature share"@, share_ids(share_views(shares@)), share_sessions(share_views(shares@)), signer_ids(signer_set@));
        }
    }
    let mut ids: Vec<u16> = Vec::new();
    let mut sessions: Vec<String> = Vec::new();
    let mut i: usize = 0;
    while i < shares.len()
        invariant
            i <= shares@.len(),
            ids@ == share_ids(share_views(shares@)).take(i as int),
            sessions@.map_values(|s: String| s@) == share_sessions(share_views(shares@)).take(i as int),
        decreases shares@.len() - i,
    {
        ids.push(shares[i].participant_id.0);
        let ghost prev = sessions@;
        sessions.push(shares[i].signing_session_id.0.clone());
        assert(ids@ =~= share_ids(share_views(shares@)).take(i + 1));
        assert(sessions@.map_values(|s: String| s@) =~= prev.map_values(|s: String| s@).push(shares@[i as int].signing_session_id@));
        assert(sessions@.map_values(|s: String| s@) =~= share_sessions(share_views(shares@)).take(i + 1));
        i += 1;
    }
    assert(share_ids(share_views(shares@)).take(i as int) =~= share_ids(share_views(shares@)));
    assert(share_sessions(share_views(shares@)).take(i as int) =~= share_sessions(share_views(shares@)));
    check_entries("HTSS signature share", &ids, &sessions, signer_set)
}

// ---------------------------------------------------------------- aggregate nonce
/// The session, even-Y x coordinate and negation flag of an aggregate nonce.
pub struct AggregateHtssNonce {
    pub signing_session_id: SessionId,
    pub even_public_nonce: [u8; 32],
    pub negated: bool,
}

/// The sum of the first `k` public nonces.
pub open spec fn nonce_point(nonces: Seq<HtssNonceView>, k: int) -> Seq<u8>
    decreases k,
{
    if k <= 0 {
        zero_point()
    } else {
        point_sum(nonce_point(nonces, k - 1), nonces[k - 1].public_nonce_bytes)
    }
}

/// Why nonce `j`'s public nonce is unusable, if it is.
pub open spec fn public_nonce_error(nonces: Seq<HtssNonceView>, j: int) -> Option<ErrorView> {
    let n = nonces[j];
    if n.public_nonce_bytes.len() != 33 {
        Some(ErrorView::Protocol(crate::packages::msg_nonce_length(n.participant_id)))
    } else if !valid_point(n.public_nonce_bytes) {
        Some(ErrorView::Protocol("invalid HTSS public nonce for participant "@ + decimal(n.participant_id as nat)))
    } else {
        None
    }
}

/// What `aggregate_htss_public_nonce` returns: the session of the first
/// nonce, and the x coordinate and parity of the sum of the public nonces.
pub open spec fn aggregate_nonce_outcome(nonces: Seq<HtssNonceView>, signers: Seq<u16>) -> Result<(Seq<char>, Seq<u8>, bool), ErrorView> {
    match entry_set_error("HTSS nonce"@, nonce_ids(nonces), nonce_sessions(nonces), signers) {
        Some(e) => Err(e),
        None => if nonces.len() == 0 {
            Err(ErrorView::Protocol("missing HTSS nonce set"@))
        } else {
            match crate::htss_dkg::first_error(|j: int| public_nonce_error(nonces, j), 0, nonces.len() as int) {
                Some(e) => Err(e),
                None => {
                    let p = nonce_point(nonces, nonces.len() as int);
                    if p == zero_point() {
                        Err(ErrorView::Protocol("HTSS aggregate nonce cannot be zero"@))
                    } else {
                        Ok((nonces[0].signing_session_id, p.subrange(1, 33), p[0] == 3))
                    }
                },
            }
        },
    }
}

fn bytes33(v: &Vec<u8>) -> (r: [u8; 33])
    requires
        v@.len() == 33,
    ensures
        r@ == v@,
{
    let mut a = [0u8; 33];
    let mut i: usize = 0;
    while i < 33
        invariant
            v@.len() == 33,
            i <= 33,
            forall|k: int| 0 <= k < i ==> a@[k] == v@[k],
        decreases 33 - i,
    {
        a.set(i, v[i]);
        i += 1;
    }
    assert(a@ =~= v@);
    a
}

/// Sums the public nonces of a checked nonce set into one nonce point made
/// even, noting whether it had to be negated.
pub fn aggregate_htss_public_nonce(nonces: &[HtssNoncePackage], signer_set: &[ParticipantId]) -> (r: Result<AggregateHtssNonce, DkgKitError>)
    ensures
        match aggregate_nonce_outcome(nonce_views(nonces@), signer_ids(signer_set@)) {
            Err(e) => r matches Err(x) && x@ == e,
            Ok((sid, x, neg)) => r matches Ok(a) && a.signing_session_id@ == sid && a.even_public_nonce@ == x
                && a.negated == neg && valid_xonly(x),
        },
        r is Ok ==> forall|ks: Seq<int>| #[trigger] nonces_multiples(nonce_views(nonces@), ks) ==> nonce_point(
            nonce_views(nonces@),
            nonces@.len() as int,
        ) == gmul(int_sum(ks, nonces@.len() as int)),
        r is Ok ==> one_entry_per_signer(nonce_ids(nonce_views(nonces@)), signer_ids(signer_set@)),
{
    validate_htss_nonce_set(nonces, signer_set)?;
    if nonces.len() == 0 {
        return Err(DkgKitError::Protocol(String::from_str("missing HTSS nonce set")));
    }
    let signing_session_id = nonces[0].signing_session_id.clone();
    let ghost vs = nonce_views(nonces@);
    let ghost f = |j: int| public_nonce_error(vs, j);
    let n = nonces.len();
    let mut aggregate = [0u8; 33];
    assert(aggregate@ =~= zero_point());
    let mut i: usize = 0;
    while i < n
        invariant
            n == nonces@.len(),
            n > 0,
            vs == nonce_views(nonces@),
            f == (|j: int| public_nonce_error(vs, j)),
            entry_set_error("HTSS nonce"@, nonce_ids(vs), nonce_sessions(vs), signer_ids(signer_set@)) is None,
            i <= n,
            crate::htss_dkg::first_error(f, 0, n as int) == crate::htss_dkg::first_error(f, i as int, n as int),
            aggregate@ == nonce_point(vs, i as int),
            point_or_zero(aggregate@),
            forall|ks: Seq<int>| #[trigger] nonces_multiples(vs, ks) ==> aggregate@ == gmul(int_sum(ks, i as int)),
        decreases n - i,
    {
        let nonce = &nonces[i];
        assert(vs[i as int] == nonce@);
        if nonce.public_nonce_bytes.len() != 33 {
            let mut text = String::from_str("HTSS public nonce for participant ");
            push_decimal(&mut text, nonce.participant_id.0 as u64);
            text.append(" must be 33 bytes");
            return Err(DkgKitError::Protocol(text));
        }
        let bytes = bytes33(&nonce.public_nonce_bytes);
        if !point_is_valid(bytes) {
            let mut text = String::from_str("invalid HTSS public nonce for participant ");
            push_decimal(&mut text, nonce.participant_id.0 as u64);
            return Err(DkgKitError::Protocol(text));
        }
        let ghost prev = aggregate@;
        aggregate = add_points(aggregate, bytes);
        proof {
            assert forall|ks: Seq<int>| #[trigger] nonces_multiples(vs, ks) implies aggregate@ == gmul(
                int_sum(ks, i + 1),
            ) by {
                assert(prev == gmul(int_sum(ks, i as int)));
                assert(bytes@ == gmul(ks[i as int]));
            }
        }
        i += 1;
    }
    let zero = [0u8; 33];
    assert(zero@ =~= zero_point());
    if crate::htss_sign::same33(&aggregate, &zero) {
        return Err(DkgKitError::Protocol(String::from_str("HTSS aggregate nonce cannot be zero")));
    }
    let (even_public_nonce, negated) = even_y_xonly(aggregate);
    Ok(AggregateHtssNonce { signing_session_id, even_public_nonce, negated })
}

fn same33(a: &[u8; 33], b: &[u8; 33]) -> (r: bool)
    ensures
        r == (a@ == b@),
{
    let mut i: usize = 0;
    while i < 33
        invariant
            i <= 33,
            forall|k: int| 0 <= k < i ==> a@[k] == b@[k],
        decreases 33 - i,
    {
        if a[i] != b[i] {
            return false;
        }
        i += 1;
    }
    assert(a@ =~= b@);
    true
}


// ---------------------------------------------------------------- signature shares
/// The response of one signer: its nonce (negated when the aggregate nonce
/// was) plus the challenge times its Birkhoff-weighted share.
pub open spec fn share_response(nonce: nat, negated: bool, chal: nat, coefficient: nat, share: nat) -> nat {
    let n = group_order();
    let k = if negated { ((0 - nonce) % (n as int)) as nat } else { nonce };
    (k + (chal * ((coefficient * share) % n)) % n) % n
}

fn find_coefficient(cs: &Vec<BirkhoffCoefficient>, id: u16) -> (r: Option<usize>)
    ensures
        match r {
            Some(i) => i < cs@.len() && cs@[i as int].participant_id.0 == id && forall|k: int|
                0 <= k < i ==> cs@[k].participant_id.0 != id,
            None => forall|k: int| 0 <= k < cs@.len() ==> cs@[k].participant_id.0 != id,
        },
{
    let mut i: usize = 0;
    while i < cs.len()
        invariant
            i <= cs@.len(),
            forall|k: int| 0 <= k < i ==> cs@[k].participant_id.0 != id,
        decreases cs@.len() - i,
    {
        if cs[i].participant_id.0 == id {
            return Some(i);
        }
        i += 1;
    }
    None
}

/// `k` is the first position of `id` in `ids`.
pub open spec fn first_at(ids: Seq<u16>, id: u16, k: int) -> bool {
    &&& 0 <= k < ids.len()
    &&& ids[k] == id
    &&& forall|j: int| 0 <= j < k ==> ids[j] != id
}

/// The first position of `id` in `ids` (meaningful when `ids` holds `id`).
pub open spec fn first_position(ids: Seq<u16>, id: u16) -> int {
    choose|k: int| first_at(ids, id, k)
}

/// Every check of `htss_sign_share` passes: the nonce is the signer's, the
/// signer is in a valid signer set whose Birkhoff system is not singular,
/// the share's rank is the signer's rank in the roster, the nonce set
/// aggregates for the nonce's session, the group key is a valid x-only key
/// and both secret scalars are canonical.
pub open spec fn sign_share_accepted(
    group_key: GroupKey,
    share: HtssLocalKeyShare,
    nonce: HtssLocalNonce,
    nonces: Seq<HtssNonceView>,
    ids: Seq<u16>,
    config: HierarchicalThresholdConfig,
) -> bool {
    &&& share.participant_id == nonce.package.participant_id
    &&& ids.contains(share.participant_id.0)
    &&& points_outcome(ids, config) is Ok
    &&& !singular(transpose(birkhoff_system(points_outcome(ids, config)->Ok_0), ids.len()))
    &&& rank_in(config.participants@, share.participant_id.0) == Some(Rank(share.rank))
    &&& aggregate_nonce_outcome(nonces, ids) is Ok
    &&& aggregate_nonce_outcome(nonces, ids)->Ok_0.0 == nonce.package.signing_session_id@
    &&& valid_xonly(group_key.xonly_public_key@)
    &&& is_scalar(nonce.secret_nonce_bytes)
    &&& is_scalar(share.share_value_bytes)
}

/// One signer's signature share: `k + c·λ·s`, where `k` is its nonce (negated
/// with the aggregate nonce), `c` the BIP-340 challenge of the aggregate nonce
/// and the group key, `λ` its Birkhoff coefficient in the signer set under
/// `config` and `s` its derivative share. It is returned exactly when every
/// check passes.
pub fn htss_sign_share(
    group_key: &GroupKey,
    digest: [u8; 32],
    local_share: &HtssLocalKeyShare,
    nonce: &HtssLocalNonce,
    nonces: &[HtssNoncePackage],
    signer_set: &[ParticipantId],
    config: &HierarchicalThresholdConfig,
) -> (r: Result<HtssSignatureSharePackage, DkgKitError>)
    ensures
        local_share.participant_id != nonce.package.participant_id ==> (r matches Err(x) && x@
            == ErrorView::Protocol("HTSS nonce participant mismatch: share "@ + decimal(
            local_share.participant_id.0 as nat) + ", nonce "@ + decimal(nonce.package.participant_id.0 as nat))),
        local_share.participant_id == nonce.package.participant_id && !signer_ids(signer_set@).contains(
            local_share.participant_id.0) ==> (r matches Err(x) && x@ == ErrorView::Protocol(
            "participant "@ + decimal(local_share.participant_id.0 as nat) + " is not in HTSS signer set"@)),
        match points_outcome(signer_ids(signer_set@), *config) {
            Err(e) => local_share.participant_id == nonce.package.participant_id && signer_ids(signer_set@).contains(
                local_share.participant_id.0) ==> (r matches Err(x) && x@ == e),
            Ok(_) => true,
        },
        r is Ok <==> sign_share_accepted(
            *group_key,
            *local_share,
            *nonce,
            nonce_views(nonces@),
            signer_ids(signer_set@),
            *config,
        ),
        r is Ok ==> one_entry_per_signer(nonce_ids(nonce_views(nonces@)), signer_ids(signer_set@)),
        ({
            let ids = signer_ids(signer_set@);
            &&& local_share.participant_id == nonce.package.participant_id
            &&& ids.contains(local_share.participant_id.0)
            &&& points_outcome(ids, *config) is Ok
            &&& !singular(transpose(birkhoff_system(points_outcome(ids, *config)->Ok_0), ids.len()))
            &&& rank_in(config.participants@, local_share.participant_id.0) == Some(Rank(local_share.rank))
        }) ==> match aggregate_nonce_outcome(nonce_views(nonces@), signer_ids(signer_set@)) {
            Err(e) => r matches Err(x) && x@ == e,
            Ok(_) => true,
        },
        r is Ok ==> crate::birkhoff::coefficients_solve(
            points_outcome(signer_ids(signer_set@), *config)->Ok_0,
            birkhoff_solution(points_outcome(signer_ids(signer_set@), *config)->Ok_0),
        ),
        r matches Ok(p) ==> {
            let ids = signer_ids(signer_set@);
            let agg = aggregate_nonce_outcome(nonce_views(nonces@), ids)->Ok_0;
            &&& p.participant_id == local_share.participant_id
            &&& p.signing_session_id@ == nonce.package.signing_session_id@
            &&& is_scalar(p.signature_share_bytes)
            &&& sv(p.signature_share_bytes) == share_response(
                sv(nonce.secret_nonce_bytes),
                agg.2,
                crate::scalar::be_value(bip340_challenge(agg.1, group_key.xonly_public_key@, digest@)),
                birkhoff_solution(points_outcome(ids, *config)->Ok_0)[first_position(
                    ids,
                    local_share.participant_id.0,
                )],
                sv(local_share.share_value_bytes),
            )
        },
{
    if local_share.participant_id.0 != nonce.package.participant_id.0 {
        let mut text = String::from_str("HTSS nonce participant mismatch: share ");
        push_decimal(&mut text, local_share.participant_id.0 as u64);
        text.append(", nonce ");
        push_decimal(&mut text, nonce.package.participant_id.0 as u64);
        return Err(DkgKitError::Protocol(text));
    }
    if !contains_id(signer_set, local_share.participant_id.0) {
        let mut text = String::from_str("participant ");
        push_decimal(&mut text, local_share.participant_id.0 as u64);
        text.append(" is not in HTSS signer set");
        return Err(DkgKitError::Protocol(text));
    }
    let points = birkhoff_points_from_hierarchical_signer_set(signer_set, config)?;
    proof {
        let ids = signer_ids(signer_set@);
        let t = ThresholdConfig::new_spec(config.threshold, config.participants@.len() as u16)->Ok_0;
        lemma_signer_set_accepts(ids, t);
        lemma_distinct_len(ids);
    }
    let ghost ids = signer_ids(signer_set@);
    let ghost id = local_share.participant_id.0;
    proof {
        lemma_points_ranked(ids, *config);
        assert(points@.len() == ids.len());
        assert(ids.contains(id));
    }
    let coefficients = birkhoff_interpolation_coefficients(points.as_slice())?;
    let index = match find_coefficient(&coefficients, local_share.participant_id.0) {
        Some(i) => i,
        None => {
            proof {
                let k = choose|k: int| 0 <= k < ids.len() && ids[k] == id;
                assert(coefficients@[k].participant_id == points@[k].participant_id);
            }
            return Err(DkgKitError::MissingRankedParticipant(local_share.participant_id.0));
        },
    };
    let coefficient = coefficients[index];
    proof {
        assert(coefficients@[index as int].participant_id == points@[index as int].participant_id);
        assert forall|j: int| 0 <= j < index implies ids[j] != id by {
            assert(coefficients@[j].participant_id == points@[j].participant_id);
        }
        assert(first_at(ids, id, index as int));
        let k = first_position(ids, id);
        assert(first_at(ids, id, k));
        assert(k == index);
        assert(coefficient.derivative_order == rank_in(config.participants@, id).unwrap().0);
        assert(sv(coefficient.coefficient_bytes) == birkhoff_solution(points@)[index as int]) by {
            assert(coefficient_values(coefficients@)[index as int] == sv(coefficient.coefficient_bytes));
        }
    }
    if local_share.rank != coefficient.derivative_order {
        let mut text = String::from_str("HTSS share rank mismatch for participant ");
        push_decimal(&mut text, local_share.participant_id.0 as u64);
        text.append(": share rank ");
        push_decimal(&mut text, local_share.rank as u64);
        text.append(", coefficient rank ");
        push_decimal(&mut text, coefficient.derivative_order as u64);
        return Err(DkgKitError::Protocol(text));
    }
    let aggregate_nonce = aggregate_htss_public_nonce(nonces, signer_set)?;
    if !aggregate_nonce.signing_session_id.same_as(&nonce.package.signing_session_id) {
        return Err(DkgKitError::Protocol(String::from_str("HTSS aggregate nonce session mismatch")));
    }
    if !xonly_is_valid(group_key.xonly_public_key) {
        return Err(DkgKitError::Protocol(String::from_str("invalid HTSS group x-only public key")));
    }
    let chal = challenge(aggregate_nonce.even_public_nonce, group_key.xonly_public_key, digest);
    let secret_nonce = match scalar_from_bytes(nonce.secret_nonce_bytes) {
        Some(v) => v,
        None => {
            let mut text = String::from_str("invalid HTSS secret nonce scalar for participant ");
            push_decimal(&mut text, nonce.package.participant_id.0 as u64);
            return Err(DkgKitError::Protocol(text));
        },
    };
    let secret_nonce = if aggregate_nonce.negated {
        scalar_sub(scalar_zero(), secret_nonce)
    } else {
        secret_nonce
    };
    let coefficient_value = match scalar_from_bytes(coefficient.coefficient_bytes) {
        Some(v) => v,
        None => {
            let mut text = String::from_str("invalid Birkhoff coefficient scalar for participant ");
            push_decimal(&mut text, coefficient.participant_id.0 as u64);
            return Err(DkgKitError::Protocol(text));
        },
    };
    let share_value = match scalar_from_bytes(local_share.share_value_bytes) {
        Some(v) => v,
        None => {
            let mut text = String::from_str("invalid HTSS share scalar for participant ");
            push_decimal(&mut text, local_share.participant_id.0 as u64);
            return Err(DkgKitError::Protocol(text));
        },
    };
    let weighted_share = scalar_mul(coefficient_value, share_value);
    let challenge_share = scalar_mul(chal, weighted_share);
    let signature_share = scalar_add(secret_nonce, challenge_share);
    proof {
        vstd::arithmetic::div_mod::lemma_mod_bound((sv(coefficient_value) * sv(share_value)) as int, group_order() as int);
        vstd::arithmetic::div_mod::lemma_small_mod(sv(nonce.secret_nonce_bytes), group_order());
        assert(coefficients@[index as int] == coefficient);
        assert(first_position(ids, id) == index);
        assert(sv(signature_share) == share_response(
            sv(nonce.secret_nonce_bytes),
            aggregate_nonce.negated,
            crate::scalar::be_value(bip340_challenge(aggregate_nonce.even_public_nonce@, group_key.xonly_public_key@, digest@)),
            sv(coefficient.coefficient_bytes),
            sv(local_share.share_value_bytes),
        ));
    }
    Ok(HtssSignatureSharePackage {
        participant_id: local_share.participant_id,
        signing_session_id: nonce.package.signing_session_id.clone(),
        signature_share_bytes: signature_share,
    })
}

pub open spec fn msg_aggregate_unverified() -> Seq<char> {
    "HTSS aggregate signature verification failed"@
}

pub open spec fn msg_zero_aggregate_nonce() -> Seq<char> {
    "HTSS aggregate nonce cannot be zero"@
}

/// `sum_{k < n} shares[k]` modulo the group order.
pub open spec fn share_sum(shares: Seq<HtssSignatureSharePackage>, n: int) -> nat
    decreases n,
{
    if n <= 0 {
        0
    } else {
        (share_sum(shares, n - 1) + sv(shares[n - 1].signature_share_bytes)) % group_order()
    }
}

/// The signature that aggregation forms: the aggregate nonce's x coordinate
/// and the sum of the shares.
pub open spec fn aggregate_signature_bytes(
    nonces: Seq<HtssNoncePackage>,
    shares: Seq<HtssSignatureSharePackage>,
    ids: Seq<u16>,
) -> Seq<u8> {
    aggregate_nonce_outcome(nonce_views(nonces), ids)->Ok_0.1 + be_bytes(share_sum(shares, shares.len() as int), 32)
}

/// The checks of `aggregate_htss_signature_shares` before the signature is
/// verified: the signer set, the nonce set and the share set are valid, the
/// nonces aggregate, every share is a canonical scalar and the group key is a
/// valid x-only key.
pub open spec fn aggregate_prechecks(
    group_key: GroupKey,
    nonces: Seq<HtssNoncePackage>,
    shares: Seq<HtssSignatureSharePackage>,
    ids: Seq<u16>,
    config: HierarchicalThresholdConfig,
) -> bool {
    &&& crate::signers::hierarchical_signer_error(ids, config) is None
    &&& entry_set_error("HTSS nonce"@, nonce_ids(nonce_views(nonces)), nonce_sessions(nonce_views(nonces)), ids) is None
    &&& entry_set_error(
        "HTSS signature share"@,
        share_ids(share_views(shares)),
        share_sessions(share_views(shares)),
        ids,
    ) is None
    &&& aggregate_nonce_outcome(nonce_views(nonces), ids) is Ok
    &&& forall|k: int| 0 <= k < shares.len() ==> is_scalar(#[trigger] shares[k].signature_share_bytes)
    &&& valid_xonly(group_key.xonly_public_key@)
}

/// The signing equation for the nonce secrets `ks` and the key secret `x`:
/// the nonces are the base-point multiples of `ks`, `x·G` is the group key
/// with even y, and the shares sum to `k' + e·x`, where `k'` is the sum of
/// `ks`, negated when the aggregate nonce was, and `e` is the challenge of
/// the aggregate nonce, the group key and the digest.
pub open spec fn signing_equation(
    group_key: GroupKey,
    digest: Seq<u8>,
    nonces: Seq<HtssNoncePackage>,
    shares: Seq<HtssSignatureSharePackage>,
    ids: Seq<u16>,
    ks: Seq<int>,
    x: int,
) -> bool {
    let vs = nonce_views(nonces);
    let agg = aggregate_nonce_outcome(vs, ids)->Ok_0;
    let k = int_sum(ks, vs.len() as int);
    &&& nonces_multiples(vs, ks)
    &&& key_point(x, group_key.xonly_public_key@)
    &&& share_sum(shares, shares.len() as int) == ((if agg.2 { -k } else { k }) + crate::scalar::be_value(
        bip340_challenge(agg.1, group_key.xonly_public_key@, digest),
    ) * x) % (group_order() as int)
}

/// Every check of `aggregate_htss_signature_shares` passes: the signer set,
/// the nonce set and the share set are valid, the nonces aggregate, every
/// share is a canonical scalar, the group key is a valid x-only key, and the
/// aggregated signature verifies under it.
pub open spec fn aggregate_accepted(
    group_key: GroupKey,
    digest: Seq<u8>,
    nonces: Seq<HtssNoncePackage>,
    shares: Seq<HtssSignatureSharePackage>,
    ids: Seq<u16>,
    config: HierarchicalThresholdConfig,
) -> bool {
    &&& crate::signers::hierarchical_signer_error(ids, config) is None
    &&& entry_set_error("HTSS nonce"@, nonce_ids(nonce_views(nonces)), nonce_sessions(nonce_views(nonces)), ids) is None
    &&& entry_set_error(
        "HTSS signature share"@,
        share_ids(share_views(shares)),
        share_sessions(share_views(shares)),
        ids,
    ) is None
    &&& aggregate_nonce_outcome(nonce_views(nonces), ids) is Ok
    &&& forall|k: int| 0 <= k < shares.len() ==> is_scalar(#[trigger] shares[k].signature_share_bytes)
    &&& valid_xonly(group_key.xonly_public_key@)
    &&& bip340_verifies(group_key.xonly_public_key@, digest, aggregate_signature_bytes(nonces, shares, ids))
}

/// Sums checked signature shares into `s`, pairs it with the aggregate nonce
/// and returns the signature exactly when every check passes, the last of
/// them that it verifies under the group key.
pub fn aggregate_htss_signature_shares(
    group_key: &GroupKey,
    digest: [u8; 32],
    nonces: &[HtssNoncePackage],
    shares: &[HtssSignatureSharePackage],
    signer_set: &[ParticipantId],
    config: &HierarchicalThresholdConfig,
) -> (r: Result<AggregateSignature, DkgKitError>)
    ensures
        crate::signers::hierarchical_signer_error(signer_ids(signer_set@), *config) matches Some(e) ==> (r matches Err(x) && x@ == e),
        r is Ok <==> aggregate_accepted(*group_key, digest@, nonces@, shares@, signer_ids(signer_set@), *config),
        r is Ok ==> one_entry_per_signer(nonce_ids(nonce_views(nonces@)), signer_ids(signer_set@))
            && one_entry_per_signer(share_ids(share_views(shares@)), signer_ids(signer_set@)),
        aggregate_prechecks(*group_key, nonces@, shares@, signer_ids(signer_set@), *config) && !bip340_verifies(
            group_key.xonly_public_key@,
            digest@,
            aggregate_signature_bytes(nonces@, shares@, signer_ids(signer_set@)),
        ) ==> (r matches Err(x) && x@ == ErrorView::Protocol(msg_aggregate_unverified())),
        aggregate_prechecks(*group_key, nonces@, shares@, signer_ids(signer_set@), *config) && (exists|ks: Seq<int>, x: int|
            #[trigger] signing_equation(*group_key, digest@, nonces@, shares@, signer_ids(signer_set@), ks, x))
            ==> r is Ok,
        ({
            let ids = signer_ids(signer_set@);
            &&& crate::signers::hierarchical_signer_error(ids, *config) is None
            &&& entry_set_error("HTSS nonce"@, nonce_ids(nonce_views(nonces@)), nonce_sessions(nonce_views(nonces@)), ids) is None
            &&& entry_set_error(
                "HTSS signature share"@,
                share_ids(share_views(shares@)),
                share_sessions(share_views(shares@)),
                ids,
            ) is None
        }) ==> match aggregate_nonce_outcome(nonce_views(nonces@), signer_ids(signer_set@)) {
            Err(e) => r matches Err(x) && x@ == e,
            Ok(_) => true,
        },
        r matches Ok(sig) ==> sig.signature_bytes@ == aggregate_signature_bytes(
            nonces@,
            shares@,
            signer_ids(signer_set@),
        ) && sig.signature_bytes@.len() == 64 && bip340_verifies(
            group_key.xonly_public_key@,
            digest@,
            sig.signature_bytes@,
        ),
{
    validate_hierarchical_signer_set(signer_set, config)?;
    validate_htss_nonce_set(nonces, signer_set)?;
    validate_htss_signature_share_set(shares, signer_set)?;
    let aggregate_nonce = aggregate_htss_public_nonce(nonces, signer_set)?;
    let mut s = scalar_zero();
    let mut i: usize = 0;
    while i < shares.len()
        invariant
            i <= shares@.len(),
            is_scalar(s),
            sv(s) == share_sum(shares@, i as int),
            forall|k: int| 0 <= k < i ==> is_scalar(#[trigger] shares@[k].signature_share_bytes),
            crate::signers::hierarchical_signer_error(signer_ids(signer_set@), *config) is None,
            aggregate_nonce_outcome(nonce_views(nonces@), signer_ids(signer_set@)) is Ok,
        decreases shares@.len() - i,
    {
        let share_value = match scalar_from_bytes(shares[i].signature_share_bytes) {
            Some(v) => v,
            None => {
                let mut text = String::from_str("invalid HTSS signature share scalar for participant ");
                push_decimal(&mut text, shares[i].participant_id.0 as u64);
                return Err(DkgKitError::Protocol(text));
            },
        };
        s = scalar_add(s, share_value);
        proof {
            vstd::arithmetic::div_mod::lemma_mod_bound((sv(s) + sv(share_value)) as int, group_order() as int);
        }
        i += 1;
    }
    if !xonly_is_valid(group_key.xonly_public_key) {
        return Err(DkgKitError::Protocol(String::from_str("invalid HTSS group x-only public key")));
    }
    proof {
        let ids = signer_ids(signer_set@);
        if aggregate_prechecks(*group_key, nonces@, shares@, ids, *config) && (exists|ks: Seq<int>, x: int|
            #[trigger] signing_equation(*group_key, digest@, nonces@, shares@, ids, ks, x)) {
            let (ks, x) = choose|ks: Seq<int>, x: int| #[trigger] signing_equation(*group_key, digest@, nonces@, shares@, ids, ks, x);
            let vs = nonce_views(nonces@);
            let k = int_sum(ks, vs.len() as int);
            assert(nonces_multiples(vs, ks));
            let p = nonce_point(vs, vs.len() as int);
            assert(p == gmul(k));
            assert(p != zero_point());
            assert(k % (group_order() as int) != 0);
            assert(gmul(k).subrange(1, 33) == aggregate_nonce.even_public_nonce@);
            assert(aggregate_nonce.negated == (gmul(k)[0] == 3));
            assert(key_point(x, group_key.xonly_public_key@));
        }
    }
    proof {
        crate::scalar::lemma_scalar_bytes(s);
        assert(aggregate_nonce.even_public_nonce@ + s@ == aggregate_signature_bytes(
            nonces@,
            shares@,
            signer_ids(signer_set@),
        ));
    }
    if !schnorr_verify(group_key.xonly_public_key, digest, aggregate_nonce.even_public_nonce, s) {
        return Err(DkgKitError::Protocol(String::from_str("HTSS aggregate signature verification failed")));
    }
    let bytes = signature_encoding(aggregate_nonce.even_public_nonce, s);
    AggregateSignature::new(vec64(bytes))
}

/// Some share of `shares` belongs to participant `id`.
pub open spec fn has_share(shares: Seq<HtssLocalKeyShare>, id: u16) -> bool {
    exists|k: int| 0 <= k < shares.len() && (#[trigger] shares[k]).participant_id.0 == id
}

/// The first signer, from position `i` on, that has no share.
pub open spec fn unshared_from(shares: Seq<HtssLocalKeyShare>, ids: Seq<u16>, i: int) -> Option<u16>
    decreases ids.len() - i,
{
    if i < 0 || i >= ids.len() {
        None
    } else if has_share(shares, ids[i]) {
        unshared_from(shares, ids, i + 1)
    } else {
        Some(ids[i])
    }
}

fn find_share_by_id(shares: &[HtssLocalKeyShare], id: u16) -> (r: Option<usize>)
    ensures
        r matches Some(i) ==> i < shares@.len() && shares@[i as int].participant_id.0 == id,
        r is None ==> !has_share(shares@, id),
{
    let mut i: usize = 0;
    while i < shares.len()
        invariant
            i <= shares@.len(),
            forall|k: int| 0 <= k < i ==> (#[trigger] shares@[k]).participant_id.0 != id,
        decreases shares@.len() - i,
    {
        if shares[i].participant_id.0 == id {
            return Some(i);
        }
        i += 1;
    }
    None
}

/// The sum of the signature shares reduced modulo the group order is the
/// reduced sum of their integers.
proof fn lemma_share_sum_mod(ss: Seq<HtssSignatureSharePackage>, m: int)
    requires
        0 <= m <= ss.len(),
    ensures
        share_sum(ss, m) as int == modn(crate::birkhoff::sum_to(|t: int| sv(ss[t].signature_share_bytes) as int, m)),
    decreases m,
{
    let f = |t: int| sv(ss[t].signature_share_bytes) as int;
    if m == 0 {
        assert(modn(0) == 0);
    } else {
        lemma_share_sum_mod(ss, m - 1);
        vstd::arithmetic::div_mod::lemma_add_mod_noop(crate::birkhoff::sum_to(f, m - 1), f(m - 1), group_order() as int);
        vstd::arithmetic::div_mod::lemma_mod_twice(f(m - 1), group_order() as int);
        vstd::arithmetic::div_mod::lemma_add_mod_noop(share_sum(ss, m - 1) as int, f(m - 1), group_order() as int);
        vstd::arithmetic::div_mod::lemma_small_mod(share_sum(ss, m - 1), group_order());
    }
}

/// A signer's response is its (possibly negated) nonce plus the challenge
/// times its weighted share, modulo the group order.
proof fn lemma_share_response(k: nat, neg: bool, c: nat, lam: nat, s: nat)
    requires
        k < group_order(),
    ensures
        modn(share_response(k, neg, c, lam, s) as int) == modn((if neg { -k } else { k as int }) + (c * (lam * s)) as int),
{
    let n = group_order() as int;
    let ki: int = if neg { -k } else { k as int };
    let kk: int = if neg { (0 - k) % n } else { k as int };
    let ls: int = (lam * s) as int;
    let ci: int = c as int;
    let w: int = ls % n;
    assert(modn(kk) == modn(ki)) by {
        if neg {
            vstd::arithmetic::div_mod::lemma_mod_twice(0 - k, n);
        } else {
            vstd::arithmetic::div_mod::lemma_small_mod(k, group_order());
        }
    }
    assert(modn(ci * w) == modn(ci * ls)) by {
        vstd::arithmetic::div_mod::lemma_mul_mod_noop_right(ci, ls, n);
    }
    assert(share_response(k, neg, c, lam, s) as int == (kk + (ci * w) % n) % n);
    vstd::arithmetic::div_mod::lemma_add_mod_noop(kk, ci * w, n);
    vstd::arithmetic::div_mod::lemma_mod_twice(ci * w, n);
    vstd::arithmetic::div_mod::lemma_add_mod_noop(kk, (ci * w) % n, n);
    vstd::arithmetic::div_mod::lemma_add_mod_noop(ki, ci * ls, n);
    vstd::arithmetic::div_mod::lemma_add_mod_noop(kk, ci * ls, n);
    assert((c * (lam * s)) as int == ci * ls);
}

proof fn lemma_int_sum_is_sum_to(ks: Seq<int>, m: int)
    ensures
        int_sum(ks, m) == crate::birkhoff::sum_to(|t: int| ks[t], m),
    decreases m,
{
    if m > 0 {
        lemma_int_sum_is_sum_to(ks, m - 1);
    }
}

/// Threshold shares of a Birkhoff-interpolable polynomial, signed with
/// nonces `ks` against the aggregate of their points, sum to a BIP-340
/// signature scalar for the polynomial's constant term as secret.
proof fn lemma_signing_equation(
    group_key: GroupKey,
    digest: Seq<u8>,
    nonces: Seq<HtssNoncePackage>,
    ss: Seq<HtssSignatureSharePackage>,
    ids: Seq<u16>,
    points: Seq<BirkhoffPoint>,
    lam: Seq<nat>,
    ks: Seq<int>,
    svals: Seq<nat>,
    a: Seq<nat>,
)
    requires
        ids.len() > 0,
        ss.len() == ids.len(),
        svals.len() == ids.len(),
        points.len() == ids.len(),
        nonces_multiples(nonce_views(nonces), ks),
        aggregate_nonce_outcome(nonce_views(nonces), ids) is Ok,
        key_point(a[0] as int, group_key.xonly_public_key@),
        1 <= a.len() <= ids.len(),
        crate::birkhoff::coefficients_solve(points, lam),
        ks.len() == ids.len(),
        forall|t: int| 0 <= t < ks.len() ==> 0 <= #[trigger] ks[t] < group_order(),
        forall|t: int| 0 <= t < svals.len() ==> #[trigger] svals[t] == derivative_value(
            a,
            points[t].derivative_order as nat,
            points[t].x as nat,
        ),
        forall|t: int| 0 <= t < ss.len() ==> sv(#[trigger] ss[t].signature_share_bytes) == share_response(
            ks[t] as nat,
            aggregate_nonce_outcome(nonce_views(nonces), ids)->Ok_0.2,
            crate::scalar::be_value(bip340_challenge(
                aggregate_nonce_outcome(nonce_views(nonces), ids)->Ok_0.1,
                group_key.xonly_public_key@,
                digest,
            )),
            lam[t],
            svals[t],
        ),
    ensures
        signing_equation(group_key, digest, nonces, ss, ids, ks, a[0] as int),
{
    let n = ids.len() as int;
    let nn = group_order() as int;
    let agg = aggregate_nonce_outcome(nonce_views(nonces), ids)->Ok_0;
    let neg = agg.2;
    let c = crate::scalar::be_value(bip340_challenge(agg.1, group_key.xonly_public_key@, digest));
    let pad = crate::htss_keys::pad_zeros(a, n as nat);
    let f = |t: int| sv(ss[t].signature_share_bytes) as int;
    let kk = |t: int| if neg { -ks[t] } else { ks[t] };
    let w = |t: int| (lam[t] * derivative_value(pad, points[t].derivative_order as nat, points[t].x as nat)) as int;
    let cw = |t: int| c * w(t);
    let g = |t: int| kk(t) + cw(t);
    // each response is congruent to its nonce plus the challenge times its weighted share
    assert forall|t: int| 0 <= t < n implies modn(#[trigger] f(t)) == modn(g(t)) by {
        lemma_pad_tail(a, n as nat, points[t].derivative_order as nat, points[t].x as nat, n);
        assert(svals[t] == derivative_value(pad, points[t].derivative_order as nat, points[t].x as nat));
        lemma_share_response(ks[t] as nat, neg, c, lam[t], svals[t]);
    }
    crate::birkhoff::lemma_sum_congruent(f, g, n);
    crate::birkhoff::lemma_sum_add(kk, cw, g, n);
    crate::birkhoff::lemma_sum_scale(w, cw, c as int, n);
    let k_sum = int_sum(ks, n);
    lemma_int_sum_is_sum_to(ks, n);
    let id = |t: int| ks[t];
    if neg {
        crate::birkhoff::lemma_sum_scale(id, kk, -1, n);
    } else {
        crate::birkhoff::lemma_sum_ext(kk, id, n);
    }
    let kp: int = if neg { -k_sum } else { k_sum };
    assert(crate::birkhoff::sum_to(kk, n) == kp);
    // the weighted shares reconstruct the constant term
    crate::birkhoff::lemma_birkhoff_reconstructs(points, lam, pad);
    assert(crate::birkhoff::sum_to(w, n) == weighted_reconstruction(points, lam, pad));
    assert(pad[0] == a[0]);
    let wr = crate::birkhoff::sum_to(w, n);
    assert(modn(c * wr) == modn(c * (a[0] as int))) by {
        vstd::arithmetic::div_mod::lemma_mul_mod_noop_right(c as int, wr, nn);
        vstd::arithmetic::div_mod::lemma_mul_mod_noop_right(c as int, a[0] as int, nn);
    }
    assert(modn(kp + c * wr) == modn(kp + c * (a[0] as int))) by {
        vstd::arithmetic::div_mod::lemma_add_mod_noop(kp, c * wr, nn);
        vstd::arithmetic::div_mod::lemma_add_mod_noop(kp, c * (a[0] as int), nn);
    }
    lemma_share_sum_mod(ss, n);
    assert(share_sum(ss, ss.len() as int) == modn(kp + c * (a[0] as int)));
}

/// The shares are the derivative shares of a polynomial with at least one
/// and at most `signers` coefficients whose constant term is the secret of
/// the group key `p_x`, as key generation deals them.
pub open spec fn shares_of_group_key(shares: Seq<HtssLocalKeyShare>, signers: nat, p_x: Seq<u8>) -> bool {
    exists|a: Seq<nat>| #[trigger] shares_follow(shares, a) && 1 <= a.len() <= signers && key_point(a[0] as int, p_x)
}

proof fn lemma_unshared_none(shares: Seq<HtssLocalKeyShare>, ids: Seq<u16>, i: int)
    requires
        0 <= i,
        forall|k: int| i <= k < ids.len() ==> has_share(shares, #[trigger] ids[k]),
    ensures
        unshared_from(shares, ids, i) is None,
    decreases ids.len() - i,
{
    if i < ids.len() {
        lemma_unshared_none(shares, ids, i + 1);
    }
}

/// A key set with one share per roster entry, in roster order, at the
/// entry's rank and with a canonical value, under a valid group key, is
/// ready for threshold signing by every signer set that the roster accepts
/// and whose Birkhoff system is solvable; such a set has at least the
/// threshold of signers.
pub proof fn lemma_roster_shares_ready(
    group_key: GroupKey,
    shares: Seq<HtssLocalKeyShare>,
    ids: Seq<u16>,
    config: HierarchicalThresholdConfig,
)
    requires
        config.wf(),
        shares.len() == config.participants@.len(),
        forall|j: int| 0 <= j < shares.len() ==> (#[trigger] shares[j]).participant_id == config.participants@[j].id
            && shares[j].rank == config.participants@[j].rank.0 && is_scalar(shares[j].share_value_bytes),
        valid_xonly(group_key.xonly_public_key@),
        points_outcome(ids, config) is Ok,
        !singular(transpose(birkhoff_system(points_outcome(ids, config)->Ok_0), ids.len())),
    ensures
        htss_signing_ready(group_key, shares, ids, config),
        ids.len() >= config.threshold,
{
    let ps = config.participants@;
    crate::birkhoff::lemma_unranked_none(ps, ids, 0);
    assert forall|k: int| 0 <= k < ids.len() implies has_share(shares, #[trigger] ids[k]) by {
        crate::types::lemma_rank_in_some(ps, ids[k]);
        let i = choose|i: int| 0 <= i < ps.len() && ps[i].id.0 == ids[k] && ps[i].rank == rank_in(ps, ids[k])->Some_0;
        assert(shares[i].participant_id.0 == ids[k]);
    }
    lemma_unshared_none(shares, ids, 0);
    assert forall|j: int| 0 <= j < shares.len() && ids.contains((#[trigger] shares[j]).participant_id.0) implies rank_in(
        ps,
        shares[j].participant_id.0,
    ) == Some(Rank(shares[j].rank)) && is_scalar(shares[j].share_value_bytes) by {
        crate::types::lemma_rank_in_own(config, j);
    }
}

/// The inputs on which local threshold signing can fail only by chance:
/// every signer has a share, the signer set is valid and its Birkhoff system
/// is not singular, every share of a signer carries the signer's roster rank
/// and a canonical value, and the group key is a valid x-only key.
pub open spec fn htss_signing_ready(
    group_key: GroupKey,
    shares: Seq<HtssLocalKeyShare>,
    ids: Seq<u16>,
    config: HierarchicalThresholdConfig,
) -> bool {
    &&& unshared_from(shares, ids, 0) is None
    &&& points_outcome(ids, config) is Ok
    &&& !singular(transpose(birkhoff_system(points_outcome(ids, config)->Ok_0), ids.len()))
    &&& valid_xonly(group_key.xonly_public_key@)
    &&& forall|j: int|
        0 <= j < shares.len() && ids.contains((#[trigger] shares[j]).participant_id.0) ==> rank_in(
            config.participants@,
            shares[j].participant_id.0,
        ) == Some(Rank(shares[j].rank)) && is_scalar(shares[j].share_value_bytes)
}

proof fn lemma_entry_scan_ok(label: Seq<char>, ids: Seq<u16>, sessions: Seq<Seq<char>>, j: int)
    requires
        0 <= j,
        crate::signers::distinct(ids),
        sessions.len() == ids.len(),
        forall|k: int| 0 <= k < sessions.len() ==> #[trigger] sessions[k] == sessions[0],
    ensures
        entry_scan(label, ids, sessions, ids, j) is None,
    decreases ids.len() - j,
{
    if j < ids.len() {
        assert(ids.contains(ids[j]));
        if ids.take(j).contains(ids[j]) {
            let a = choose|a: int| 0 <= a < j && ids.take(j)[a] == ids[j];
            assert(ids[a] == ids[j]);
        }
        assert(sessions[j] == sessions[0]);
        lemma_entry_scan_ok(label, ids, sessions, j + 1);
    }
}


/// A nonce set with one valid nonce per signer, in signer order and for one
/// session, aggregates unless the nonces sum to the point at infinity.
proof fn lemma_nonce_set_aggregates(nonces: Seq<HtssNonceView>, ids: Seq<u16>, c: HierarchicalThresholdConfig)
    requires
        crate::signers::hierarchical_signer_error(ids, c) is None,
        nonces.len() == ids.len(),
        forall|t: int| 0 <= t < nonces.len() ==> (#[trigger] nonces[t]).participant_id == ids[t]
            && nonces[t].signing_session_id == nonces[0].signing_session_id
            && nonces[t].public_nonce_bytes.len() == 33 && valid_point(nonces[t].public_nonce_bytes),
    ensures
        entry_set_error("HTSS nonce"@, nonce_ids(nonces), nonce_sessions(nonces), ids) is None,
        aggregate_nonce_outcome(nonces, ids) is Ok || aggregate_nonce_outcome(nonces, ids) == Err::<
            (Seq<char>, Seq<u8>, bool),
            ErrorView,
        >(ErrorView::Protocol(msg_zero_aggregate_nonce())),
{
    let t = ThresholdConfig::new_spec(c.threshold, c.participants@.len() as u16)->Ok_0;
    lemma_signer_set_accepts(ids, t);
    assert(nonce_ids(nonces) =~= ids);
    lemma_entry_scan_ok("HTSS nonce"@, ids, nonce_sessions(nonces), 0);
    crate::htss_dkg::lemma_first_error_all(|j: int| public_nonce_error(nonces, j), 0, nonces.len() as int);
}

/// What local threshold signing has made when its inputs are ready: valid
/// nonce and share sets, and, for shares of the group key whose nonces do
/// not sum to zero, the signing equation.
proof fn lemma_local_signing(
    group_key: GroupKey,
    digest: Seq<u8>,
    shares: Seq<HtssLocalKeyShare>,
    ids: Seq<u16>,
    config: HierarchicalThresholdConfig,
    selected: Seq<usize>,
    local_nonces: Seq<HtssLocalNonce>,
    public_nonces: Seq<HtssNoncePackage>,
    signature_shares: Seq<HtssSignatureSharePackage>,
    session: Seq<char>,
)
    requires
        htss_signing_ready(group_key, shares, ids, config),
        selected.len() == ids.len(),
        local_nonces.len() == ids.len(),
        public_nonces.len() == ids.len(),
        signature_shares.len() == ids.len(),
        forall|t: int| 0 <= t < selected.len() ==> #[trigger] selected[t] < shares.len()
            && shares[selected[t] as int].participant_id.0 == ids[t],
        forall|t: int| 0 <= t < selected.len() ==> (#[trigger] public_nonces[t])@ == local_nonces[t].package@
            && public_nonces[t]@.participant_id == ids[t]
            && public_nonces[t]@.signing_session_id == session
            && public_nonces[t]@.public_nonce_bytes.len() == 33
            && valid_point(public_nonces[t]@.public_nonce_bytes)
            && is_scalar(local_nonces[t].secret_nonce_bytes)
            && sv(local_nonces[t].secret_nonce_bytes) != 0
            && public_nonces[t]@.public_nonce_bytes == crate::curve::base_point_mul(local_nonces[t].secret_nonce_bytes@),
        forall|t: int| 0 <= t < signature_shares.len() ==> (#[trigger] signature_shares[t])@.participant_id == ids[t]
            && signature_shares[t]@.signing_session_id == session
            && is_scalar(signature_shares[t].signature_share_bytes),
        ids.len() > 0 ==> crate::birkhoff::coefficients_solve(
            points_outcome(ids, config)->Ok_0,
            birkhoff_solution(points_outcome(ids, config)->Ok_0),
        ),
        forall|t: int| 0 <= t < signature_shares.len() ==> sv(#[trigger] signature_shares[t].signature_share_bytes) == share_response(
            sv(local_nonces[t].secret_nonce_bytes),
            aggregate_nonce_outcome(nonce_views(public_nonces), ids)->Ok_0.2,
            crate::scalar::be_value(bip340_challenge(
                aggregate_nonce_outcome(nonce_views(public_nonces), ids)->Ok_0.1,
                group_key.xonly_public_key@,
                digest,
            )),
            birkhoff_solution(points_outcome(ids, config)->Ok_0)[t],
            sv(shares[selected[t] as int].share_value_bytes),
        ),
    ensures
        crate::signers::hierarchical_signer_error(ids, config) is None,
        entry_set_error("HTSS nonce"@, nonce_ids(nonce_views(public_nonces)), nonce_sessions(nonce_views(public_nonces)), ids) is None,
        entry_set_error(
            "HTSS signature share"@,
            share_ids(share_views(signature_shares)),
            share_sessions(share_views(signature_shares)),
            ids,
        ) is None,
        aggregate_nonce_outcome(nonce_views(public_nonces), ids) is Ok || aggregate_nonce_outcome(nonce_views(public_nonces), ids) == Err::<
            (Seq<char>, Seq<u8>, bool),
            ErrorView,
        >(ErrorView::Protocol(msg_zero_aggregate_nonce())),
        aggregate_nonce_outcome(nonce_views(public_nonces), ids) is Ok ==> aggregate_prechecks(group_key, public_nonces, signature_shares, ids, config),
        shares_of_group_key(shares, ids.len(), group_key.xonly_public_key@) && aggregate_nonce_outcome(nonce_views(public_nonces), ids) is Ok
            ==> exists|ks: Seq<int>, x: int| #[trigger] signing_equation(group_key, digest, public_nonces, signature_shares, ids, ks, x),
{
        let t = ThresholdConfig::new_spec(config.threshold, config.participants@.len() as u16)->Ok_0;
        lemma_signer_set_accepts(ids, t);
        let sv_ = share_views(signature_shares);
        assert(share_ids(sv_) =~= ids);
        assert forall|q: int| 0 <= q < share_sessions(sv_).len() implies #[trigger] share_sessions(sv_)[q]
            == share_sessions(sv_)[0] by {
            assert(sv_[q] == signature_shares[q]@);
            assert(sv_[0] == signature_shares[0]@);
        }
        lemma_entry_scan_ok("HTSS signature share"@, ids, share_sessions(sv_), 0);
        let nv = nonce_views(public_nonces);
        assert forall|q: int| 0 <= q < nv.len() implies (#[trigger] nv[q]).participant_id == ids[q]
            && nv[q].signing_session_id == nv[0].signing_session_id
            && nv[q].public_nonce_bytes.len() == 33 && valid_point(nv[q].public_nonce_bytes) by {
            assert(nv[q] == public_nonces[q]@);
            assert(nv[0] == public_nonces[0]@);
        }
        lemma_nonce_set_aggregates(nv, ids, config);
        assert forall|q: int| 0 <= q < signature_shares.len() implies is_scalar(
            #[trigger] signature_shares[q].signature_share_bytes,
        ) by {
            assert(signature_shares[q]@.participant_id == ids[q]);
        }
        if shares_of_group_key(shares, ids.len(), group_key.xonly_public_key@)
            && aggregate_nonce_outcome(nonce_views(public_nonces), ids) is Ok {
            let a = choose|a: Seq<nat>| #[trigger] shares_follow(shares, a) && 1 <= a.len() <= ids.len()
                && key_point(a[0] as int, group_key.xonly_public_key@);
            let points = points_outcome(ids, config)->Ok_0;
            lemma_points_ranked(ids, config);
            let ks = Seq::new(ids.len(), |q: int| sv(local_nonces[q].secret_nonce_bytes) as int);
            let svals = Seq::new(ids.len(), |q: int| sv(shares[selected[q] as int].share_value_bytes));
            assert forall|q: int| 0 <= q < nv.len() implies #[trigger] nv[q].public_nonce_bytes == gmul(ks[q]) by {
                assert(nv[q] == public_nonces[q]@);
                crate::curve::lemma_gmul_scalar(local_nonces[q].secret_nonce_bytes);
            }
            assert(nonces_multiples(nv, ks));
            assert forall|q: int| 0 <= q < svals.len() implies #[trigger] svals[q] == derivative_value(
                a,
                points[q].derivative_order as nat,
                points[q].x as nat,
            ) by {
                let sh = shares[selected[q] as int];
                assert(ids.contains(sh.participant_id.0));
                assert(rank_in(config.participants@, sh.participant_id.0) == Some(Rank(sh.rank)));
            }
            assert forall|q: int| 0 <= q < ks.len() implies 0 <= #[trigger] ks[q] < group_order() by {
                assert(public_nonces[q]@ == local_nonces[q].package@);
                assert(is_scalar(local_nonces[q].secret_nonce_bytes));
            }
            assert(signature_shares.len() > 0);
            lemma_signing_equation(
                group_key,
                digest,
                public_nonces,
                signature_shares,
                ids,
                points,
                birkhoff_solution(points),
                ks,
                svals,
                a,
            );
        }
}

/// Runs the whole HTSS signing protocol locally for a signer set: a nonce per
/// signer, a signature share per signer, then aggregation. The secret is never
/// reconstructed; the signature verifies under the group key.
pub fn sign_digest_with_local_htss_threshold_shares(
    group_key: &GroupKey,
    digest: [u8; 32],
    shares: &[HtssLocalKeyShare],
    signer_set: &[ParticipantId],
    config: &HierarchicalThresholdConfig,
) -> (r: Result<AggregateSignature, DkgKitError>)
    ensures
        unshared_from(shares@, signer_ids(signer_set@), 0) matches Some(id)
            ==> (r matches Err(x) && x@ == ErrorView::MissingRankedParticipant(id)),
        match points_outcome(signer_ids(signer_set@), *config) {
            Err(e) => unshared_from(shares@, signer_ids(signer_set@), 0) is None ==> (r matches Err(x) && x@ == e),
            Ok(_) => true,
        },
        htss_signing_ready(*group_key, shares@, signer_ids(signer_set@), *config) ==> match r {
            Ok(_) => true,
            Err(x) => x@ == ErrorView::Protocol(msg_zero_aggregate_nonce()) || x@ == ErrorView::Protocol(
                msg_aggregate_unverified(),
            ),
        },
        htss_signing_ready(*group_key, shares@, signer_ids(signer_set@), *config) && shares_of_group_key(
            shares@,
            signer_set@.len(),
            group_key.xonly_public_key@,
        ) ==> match r {
            Ok(_) => true,
            Err(x) => x@ == ErrorView::Protocol(msg_zero_aggregate_nonce()),
        },
        r matches Ok(sig) ==> sig.signature_bytes@.len() == 64 && bip340_verifies(
            group_key.xonly_public_key@,
            digest@,
            sig.signature_bytes@,
        ),
{
    let ghost ids = signer_ids(signer_set@);
    let mut selected: Vec<usize> = Vec::new();
    let mut i: usize = 0;
    while i < signer_set.len()
        invariant
            i <= signer_set@.len(),
            ids == signer_ids(signer_set@),
            selected@.len() == i,
            unshared_from(shares@, ids, 0) == unshared_from(shares@, ids, i as int),
            forall|k: int| 0 <= k < selected@.len() ==> #[trigger] selected@[k] < shares@.len()
                && shares@[selected@[k] as int].participant_id.0 == ids[k],
        decreases signer_set@.len() - i,
    {
        assert(ids[i as int] == signer_set@[i as int].0);
        match find_share_by_id(shares, signer_set[i].0) {
            Some(k) => {
                assert(has_share(shares@, ids[i as int]));
                selected.push(k);
            },
            None => return Err(DkgKitError::MissingRankedParticipant(signer_set[i].0)),
        }
        i += 1;
    }
    proof {
        reveal_strlit("local-htss-threshold-signing");
        assert("local-htss-threshold-signing"@[0] == 'l');
        assert(!crate::text::is_blank_text("local-htss-threshold-signing"@));
        assert(unshared_from(shares@, ids, 0) is None);
    }
    let signing_session_id = SessionId::new("local-htss-threshold-signing")?;
    let mut local_nonces: Vec<HtssLocalNonce> = Vec::new();
    let mut public_nonces: Vec<HtssNoncePackage> = Vec::new();
    let mut j: usize = 0;
    while j < selected.len()
        invariant
            j <= selected@.len(),
            ids == signer_ids(signer_set@),
            selected@.len() == ids.len(),
            local_nonces@.len() == j,
            public_nonces@.len() == j,
            forall|k: int| 0 <= k < selected@.len() ==> #[trigger] selected@[k] < shares@.len()
                && shares@[selected@[k] as int].participant_id.0 == ids[k],
            forall|t: int| 0 <= t < j ==> (#[trigger] local_nonces@[t]).package.participant_id
                == shares@[selected@[t] as int].participant_id,
            forall|t: int| 0 <= t < j ==> (#[trigger] public_nonces@[t])@ == local_nonces@[t].package@
                && public_nonces@[t]@.participant_id == ids[t]
                && public_nonces@[t]@.signing_session_id == signing_session_id@
                && public_nonces@[t]@.public_nonce_bytes.len() == 33
                && valid_point(public_nonces@[t]@.public_nonce_bytes)
                && is_scalar(local_nonces@[t].secret_nonce_bytes)
                && sv(local_nonces@[t].secret_nonce_bytes) != 0
                && public_nonces@[t]@.public_nonce_bytes == crate::curve::base_point_mul(local_nonces@[t].secret_nonce_bytes@),
            unshared_from(shares@, signer_ids(signer_set@), 0) is None,
        decreases selected@.len() - j,
    {
        let nonce = htss_nonce(signing_session_id.clone(), &shares[selected[j]])?;
        public_nonces.push(nonce.package.clone());
        local_nonces.push(nonce);
        j += 1;
    }
    proof {
        if htss_signing_ready(*group_key, shares@, ids, *config) {
            let nv = nonce_views(public_nonces@);
            assert forall|t: int| 0 <= t < nv.len() implies (#[trigger] nv[t]).participant_id == ids[t]
                && nv[t].signing_session_id == nv[0].signing_session_id
                && nv[t].public_nonce_bytes.len() == 33 && valid_point(nv[t].public_nonce_bytes) by {
                assert(nv[t] == public_nonces@[t]@);
                assert(nv[0] == public_nonces@[0]@);
            }
            lemma_nonce_set_aggregates(nv, ids, *config);
        }
    }
    let mut signature_shares: Vec<HtssSignatureSharePackage> = Vec::new();
    let mut k: usize = 0;
    while k < selected.len()
        invariant
            k <= selected@.len(),
            ids == signer_ids(signer_set@),
            selected@.len() == ids.len(),
            local_nonces@.len() == selected@.len(),
            public_nonces@.len() == selected@.len(),
            forall|t: int| 0 <= t < selected@.len() ==> #[trigger] selected@[t] < shares@.len()
                && shares@[selected@[t] as int].participant_id.0 == ids[t],
            forall|t: int| 0 <= t < selected@.len() ==> (#[trigger] local_nonces@[t]).package.participant_id
                == shares@[selected@[t] as int].participant_id,
            forall|t: int| 0 <= t < selected@.len() ==> (#[trigger] public_nonces@[t])@ == local_nonces@[t].package@
                && public_nonces@[t]@.participant_id == ids[t]
                && public_nonces@[t]@.signing_session_id == signing_session_id@
                && public_nonces@[t]@.public_nonce_bytes.len() == 33
                && valid_point(public_nonces@[t]@.public_nonce_bytes)
                && is_scalar(local_nonces@[t].secret_nonce_bytes)
                && sv(local_nonces@[t].secret_nonce_bytes) != 0
                && public_nonces@[t]@.public_nonce_bytes == crate::curve::base_point_mul(local_nonces@[t].secret_nonce_bytes@),
            signature_shares@.len() == k,
            k > 0 ==> crate::birkhoff::coefficients_solve(
                points_outcome(ids, *config)->Ok_0,
                birkhoff_solution(points_outcome(ids, *config)->Ok_0),
            ),
            forall|t: int| 0 <= t < k ==> sv(#[trigger] signature_shares@[t].signature_share_bytes) == share_response(
                sv(local_nonces@[t].secret_nonce_bytes),
                aggregate_nonce_outcome(nonce_views(public_nonces@), ids)->Ok_0.2,
                crate::scalar::be_value(bip340_challenge(
                    aggregate_nonce_outcome(nonce_views(public_nonces@), ids)->Ok_0.1,
                    group_key.xonly_public_key@,
                    digest@,
                )),
                birkhoff_solution(points_outcome(ids, *config)->Ok_0)[t],
                sv(shares@[selected@[t] as int].share_value_bytes),
            ),
            forall|t: int| 0 <= t < k ==> (#[trigger] signature_shares@[t])@.participant_id == ids[t]
                && signature_shares@[t]@.signing_session_id == signing_session_id@
                && is_scalar(signature_shares@[t].signature_share_bytes),
            k > 0 ==> points_outcome(ids, *config) is Ok,
            unshared_from(shares@, ids, 0) is None,
            htss_signing_ready(*group_key, shares@, ids, *config) ==> (aggregate_nonce_outcome(
                nonce_views(public_nonces@),
                ids,
            ) is Ok || aggregate_nonce_outcome(nonce_views(public_nonces@), ids) == Err::<
                (Seq<char>, Seq<u8>, bool),
                ErrorView,
            >(ErrorView::Protocol(msg_zero_aggregate_nonce()))),
        decreases selected@.len() - k,
    {
        proof {
            assert(ids[k as int] == shares@[selected@[k as int] as int].participant_id.0);
            assert(ids.contains(ids[k as int]));
            if htss_signing_ready(*group_key, shares@, ids, *config) {
                let sh = shares@[selected@[k as int] as int];
                assert(ids.contains(sh.participant_id.0));
                assert(rank_in(config.participants@, sh.participant_id.0) == Some(Rank(sh.rank)));
                let nv = nonce_views(public_nonces@);
                assert(nv[0] == public_nonces@[0]@);
                assert(local_nonces@[k as int].package@ == public_nonces@[k as int]@);
            }
        }
        let share = htss_sign_share(
            group_key,
            digest,
            &shares[selected[k]],
            &local_nonces[k],
            public_nonces.as_slice(),
            signer_set,
            config,
        )?;
        proof {
            let t = ThresholdConfig::new_spec(config.threshold, config.participants@.len() as u16)->Ok_0;
            lemma_signer_set_accepts(ids, t);
            assert(first_at(ids, ids[k as int], k as int));
            let q = first_position(ids, ids[k as int]);
            assert(first_at(ids, ids[k as int], q));
            assert(q == k);
        }
        let ghost before = signature_shares@;
        signature_shares.push(share);
        proof {
            assert forall|t: int| 0 <= t < k + 1 implies sv(#[trigger] signature_shares@[t].signature_share_bytes)
                == share_response(
                sv(local_nonces@[t].secret_nonce_bytes),
                aggregate_nonce_outcome(nonce_views(public_nonces@), ids)->Ok_0.2,
                crate::scalar::be_value(bip340_challenge(
                    aggregate_nonce_outcome(nonce_views(public_nonces@), ids)->Ok_0.1,
                    group_key.xonly_public_key@,
                    digest@,
                )),
                birkhoff_solution(points_outcome(ids, *config)->Ok_0)[t],
                sv(shares@[selected@[t] as int].share_value_bytes),
            ) by {
                if t < k {
                    assert(signature_shares@[t] == before[t]);
                }
            }
        }
        k += 1;
    }
    proof {
        if htss_signing_ready(*group_key, shares@, ids, *config) {
            lemma_local_signing(
                *group_key,
                digest@,
                shares@,
                ids,
                *config,
                selected@,
                local_nonces@,
                public_nonces@,
                signature_shares@,
                signing_session_id@,
            );
        }
    }
    aggregate_htss_signature_shares(
        group_key,
        digest,
        public_nonces.as_slice(),
        signature_shares.as_slice(),
        signer_set,
        config,
    )
}

// ---------------------------------------------------------------- grouped policies
/// The hierarchical configuration a grouped configuration signs with: its
/// roster with the total quorum as threshold.
pub fn hierarchical_config_from_grouped_threshold(config: &GroupedThresholdConfig) -> (r: Result<HierarchicalThresholdConfig, DkgKitError>)
    requires
        required_sum(config.requirements@) <= u16::MAX,
    ensures
        match hierarchical_check(required_sum(config.requirements@) as u16, config.participants@) {
            Some(e) => r matches Err(x) && x == e,
            None => r matches Ok(h) && h.threshold == required_sum(config.requirements@) && same_roster(
                h.participants@,
                config.participants@,
            ),
        },
{
    let participants = crate::types::clone_roster(&config.participants);
    proof {
        crate::types::lemma_same_roster(participants@, config.participants@, 0);
    }
    HierarchicalThresholdConfig::new(config.required_signer_count(), participants)
}

/// Local HTSS key generation for the hierarchical form of a grouped configuration.
pub fn run_local_grouped_htss_keygen(config: &GroupedThresholdConfig) -> (r: Result<HtssLocalKeySet, DkgKitError>)
    requires
        required_sum(config.requirements@) <= u16::MAX,
    ensures
        hierarchical_check(required_sum(config.requirements@) as u16, config.participants@) matches Some(e)
            ==> (r matches Err(x) && x == e),
        hierarchical_check(required_sum(config.requirements@) as u16, config.participants@) is None
            ==> (r matches Ok(set) && set.shares@.len() == config.participants@.len() && forall|j: int|
            0 <= j < set.shares@.len() ==> (#[trigger] set.shares@[j]).participant_id == config.participants@[j].id
                && set.shares@[j].rank == config.participants@[j].rank.0),
{
    let hierarchical = hierarchical_config_from_grouped_threshold(config)?;
    run_local_htss_keygen(&hierarchical)
}

proof fn lemma_unranked_same(
    pa: Seq<crate::types::RankedParticipant>,
    pb: Seq<crate::types::RankedParticipant>,
    ids: Seq<u16>,
    j: int,
)
    requires
        forall|id: u16| #[trigger] rank_in(pa, id) == rank_in(pb, id),
    ensures
        crate::signers::unranked_scan(pa, ids, j) == crate::signers::unranked_scan(pb, ids, j),
    decreases ids.len() - j,
{
    if 0 <= j < ids.len() {
        lemma_unranked_same(pa, pb, ids, j + 1);
        assert(rank_in(pa, ids[j]) == rank_in(pb, ids[j]));
    }
}

/// Signing readiness depends on the roster only through its entries' ids
/// and ranks.
proof fn lemma_ready_same_roster(
    g: GroupKey,
    shares: Seq<HtssLocalKeyShare>,
    ids: Seq<u16>,
    a: HierarchicalThresholdConfig,
    b: HierarchicalThresholdConfig,
)
    requires
        a.threshold == b.threshold,
        same_roster(a.participants@, b.participants@),
    ensures
        htss_signing_ready(g, shares, ids, a) == htss_signing_ready(g, shares, ids, b),
{
    let pa = a.participants@;
    let pb = b.participants@;
    assert forall|id: u16| #[trigger] rank_in(pa, id) == rank_in(pb, id) by {
        crate::types::lemma_same_roster(pa, pb, id);
    }
    lemma_unranked_same(pa, pb, ids, 0);
    assert(crate::signers::signer_ranks(pa, ids) =~= crate::signers::signer_ranks(pb, ids));
    assert(crate::birkhoff::signer_points(pa, ids) =~= crate::birkhoff::signer_points(pb, ids));
    assert(points_outcome(ids, a) == points_outcome(ids, b));
}

/// Checks the grouped quorums first, then signs with the hierarchical form.
pub fn sign_digest_with_local_grouped_htss_threshold_shares(
    group_key: &GroupKey,
    digest: [u8; 32],
    shares: &[HtssLocalKeyShare],
    signer_set: &[ParticipantId],
    config: &GroupedThresholdConfig,
) -> (r: Result<AggregateSignature, DkgKitError>)
    requires
        required_sum(config.requirements@) <= u16::MAX,
    ensures
        grouped_signer_error(signer_ids(signer_set@), *config) matches Some(e) ==> (r matches Err(x) && x@ == e),
        grouped_signer_error(signer_ids(signer_set@), *config) is None && hierarchical_check(
            required_sum(config.requirements@) as u16, config.participants@) is None ==> match unshared_from(
            shares@, signer_ids(signer_set@), 0) {
            Some(id) => r matches Err(x) && x@ == ErrorView::MissingRankedParticipant(id),
            None => true,
        },
        grouped_signer_error(signer_ids(signer_set@), *config) is None && hierarchical_check(
            required_sum(config.requirements@) as u16,
            config.participants@,
        ) is None && htss_signing_ready(
            *group_key,
            shares@,
            signer_ids(signer_set@),
            HierarchicalThresholdConfig {
                threshold: required_sum(config.requirements@) as u16,
                participants: config.participants,
            },
        ) ==> match r {
            Ok(_) => true,
            Err(x) => x@ == ErrorView::Protocol(msg_zero_aggregate_nonce()) || x@ == ErrorView::Protocol(
                msg_aggregate_unverified(),
            ),
        },
        r matches Ok(sig) ==> sig.signature_bytes@.len() == 64 && bip340_verifies(
            group_key.xonly_public_key@,
            digest@,
            sig.signature_bytes@,
        ),
{
    validate_grouped_threshold_signer_set(signer_set, config)?;
    let hierarchical = hierarchical_config_from_grouped_threshold(config)?;
    proof {
        lemma_ready_same_roster(
            *group_key,
            shares@,
            signer_ids(signer_set@),
            hierarchical,
            HierarchicalThresholdConfig {
                threshold: required_sum(config.requirements@) as u16,
                participants: config.participants,
            },
        );
    }
    sign_digest_with_local_htss_threshold_shares(group_key, digest, shares, signer_set, &hierarchical)
}

} // verus!

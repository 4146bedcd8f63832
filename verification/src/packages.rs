//! Protocol packages exchanged during DKG and signing, their JSON payloads,
//! and their mapping to and from protocol envelopes.
use vstd::prelude::*;
use crate::record::{
    dec_record, decode_record, enc_record, encode_record, field_kinds, lemma_record_round_trip,
    lemma_record_sound, keys_ok, field_views, Field, FieldKind, FieldView,
};
use crate::text::{decimal, push_decimal};
use crate::types::{
    envelope, kind_text, DkgKitError, ErrorView, KindView, MessageView, ParticipantId,
    ProtocolMessage, ProtocolMessageKind, SessionId,
};
use crate::wire::{
    is_digit, k_bytes, k_bytes_bytes, k_commitment_bytes, k_commitment_bytes_bytes,
    k_participant_id, k_participant_id_bytes, k_public_nonce_bytes, k_public_nonce_bytes_bytes,
    k_rank, k_rank_bytes, k_recipient, k_recipient_bytes, k_recipient_rank,
    k_recipient_rank_bytes, k_sender, k_sender_bytes, k_share_value_bytes,
    k_share_value_bytes_bytes, k_signature_share_bytes, k_signature_share_bytes_bytes,
    k_signing_session_id, k_signing_session_id_bytes, lit_vec, views2,
};

verus! {

// ---------------------------------------------------------------- shared helpers
/// The error text for a payload that is not the encoding of a package.
pub open spec fn msg_bad_payload() -> Seq<char> {
    "invalid package payload encoding"@
}

pub open spec fn msg_unexpected_kind(expected: KindView, got: KindView) -> Seq<char> {
    "unexpected protocol message kind: expected "@ + kind_text(expected) + ", got "@ + kind_text(
        got,
    )
}

pub open spec fn msg_expected_broadcast() -> Seq<char> {
    "expected broadcast protocol message"@
}

pub open spec fn msg_sender_mismatch(label: Seq<char>, envelope: u16, payload: u16) -> Seq<
    char,
> {
    label + " sender mismatch: envelope="@ + decimal(envelope as nat) + ", payload="@ + decimal(
        payload as nat,
    )
}

/// The envelope checks every package decoder starts with: the kind, and for
/// broadcast packages that there is no recipient.
pub open spec fn envelope_error(m: MessageView, expected: KindView, broadcast: bool) -> Option<
    ErrorView,
> {
    if m.kind != expected {
        Some(ErrorView::Protocol(msg_unexpected_kind(expected, m.kind)))
    } else if broadcast && m.recipient is Some {
        Some(ErrorView::Protocol(msg_expected_broadcast()))
    } else {
        None
    }
}

fn check_envelope(message: &ProtocolMessage, expected: ProtocolMessageKind, broadcast: bool) -> (r:
    Result<(), DkgKitError>)
    ensures
        match envelope_error(message@, expected@, broadcast) {
            Some(e) => r matches Err(x) && x@ == e,
            None => r is Ok,
        },
{
    if !message.kind.same_kind(&expected) {
        let mut text = String::from_str("unexpected protocol message kind: expected ");
        text.append(expected.as_str());
        text.append(", got ");
        text.append(message.kind.as_str());
        return Err(DkgKitError::Protocol(text));
    }
    if broadcast && message.recipient.is_some() {
        return Err(DkgKitError::Protocol(String::from_str("expected broadcast protocol message")));
    }
    Ok(())
}

fn sender_mismatch(label: &str, envelope: u16, payload: u16) -> (r: DkgKitError)
    ensures
        r@ == ErrorView::Protocol(msg_sender_mismatch(label@, envelope, payload)),
{
    let mut text = String::from_str(label);
    text.append(" sender mismatch: envelope=");
    push_decimal(&mut text, envelope as u64);
    text.append(", payload=");
    push_decimal(&mut text, payload as u64);
    DkgKitError::Protocol(text)
}

fn protocol_error(text: &str) -> (r: DkgKitError)
    ensures
        r@ == ErrorView::Protocol(text@),
{
    DkgKitError::Protocol(String::from_str(text))
}

fn bad_payload() -> (r: DkgKitError)
    ensures
        r@ == ErrorView::Serialization(msg_bad_payload()),
{
    DkgKitError::Serialization(String::from_str("invalid package payload encoding"))
}

fn bytes32(v: &Vec<u8>) -> (r: [u8; 32])
    requires
        v@.len() == 32,
    ensures
        r@ == v@,
{
    let mut a = [0u8; 32];
    let mut i: usize = 0;
    while i < 32
        invariant
            v@.len() == 32,
            i <= 32,
            forall|k: int| 0 <= k < i ==> a@[k] == v@[k],
        decreases 32 - i,
    {
        a.set(i, v[i]);
        i += 1;
    }
    assert(a@ =~= v@);
    a
}

fn vec_of(a: &[u8; 32]) -> (r: Vec<u8>)
    ensures
        r@ == a@,
{
    let mut v = Vec::new();
    let mut i: usize = 0;
    while i < 32
        invariant
            i <= 32,
            v@ == a@.take(i as int),
        decreases 32 - i,
    {
        v.push(a[i]);
        assert(a@.take(i + 1) =~= a@.take(i as int).push(a@[i as int]));
        i += 1;
    }
    assert(a@.take(32) =~= a@);
    v
}

fn key_list2(a: &[u8], b: &[u8]) -> (r: Vec<Vec<u8>>)
    ensures
        views2(r@) == seq![a@, b@],
{
    let mut v = Vec::new();
    v.push(lit_vec(a));
    v.push(lit_vec(b));
    assert(views2(v@) =~= seq![a@, b@]);
    v
}

fn key_list3(a: &[u8], b: &[u8], c: &[u8]) -> (r: Vec<Vec<u8>>)
    ensures
        views2(r@) == seq![a@, b@, c@],
{
    let mut v = Vec::new();
    v.push(lit_vec(a));
    v.push(lit_vec(b));
    v.push(lit_vec(c));
    assert(views2(v@) =~= seq![a@, b@, c@]);
    v
}

fn key_list4(a: &[u8], b: &[u8], c: &[u8], d: &[u8]) -> (r: Vec<Vec<u8>>)
    ensures
        views2(r@) == seq![a@, b@, c@, d@],
{
    let mut v = Vec::new();
    v.push(lit_vec(a));
    v.push(lit_vec(b));
    v.push(lit_vec(c));
    v.push(lit_vec(d));
    assert(views2(v@) =~= seq![a@, b@, c@, d@]);
    v
}

proof fn lemma_first_bytes()
    ensures
        k_participant_id()[0] == 123u8,
        k_sender()[0] == 123u8,
        k_bytes()[0] == 44u8,
        k_recipient()[0] == 44u8,
        k_signing_session_id()[0] == 44u8,
        k_public_nonce_bytes()[0] == 44u8,
        k_signature_share_bytes()[0] == 44u8,
        k_rank()[0] == 44u8,
        k_commitment_bytes()[0] == 44u8,
        k_recipient_rank()[0] == 44u8,
        k_share_value_bytes()[0] == 44u8,
{
}

proof fn lemma_keys2(a: Seq<u8>, b: Seq<u8>)
    requires
        a.len() > 0 && !is_digit(a[0]),
        b.len() > 0 && !is_digit(b[0]),
    ensures
        keys_ok(seq![a, b]),
{
}

proof fn lemma_keys3(a: Seq<u8>, b: Seq<u8>, c: Seq<u8>)
    requires
        a.len() > 0 && !is_digit(a[0]),
        b.len() > 0 && !is_digit(b[0]),
        c.len() > 0 && !is_digit(c[0]),
    ensures
        keys_ok(seq![a, b, c]),
{
}

proof fn lemma_keys4(a: Seq<u8>, b: Seq<u8>, c: Seq<u8>, d: Seq<u8>)
    requires
        a.len() > 0 && !is_digit(a[0]),
        b.len() > 0 && !is_digit(b[0]),
        c.len() > 0 && !is_digit(c[0]),
        d.len() > 0 && !is_digit(d[0]),
    ensures
        keys_ok(seq![a, b, c, d]),
{
}

/// A package type with a JSON payload form.
pub trait Payload: Sized {
    /// The payload bytes of this value.
    spec fn payload_spec(&self) -> Seq<u8>;

    /// Whether `b` is the payload of some value.
    spec fn accepts(b: Seq<u8>) -> bool;

    fn to_payload(&self) -> (r: Vec<u8>)
        ensures
            r@ == self.payload_spec(),
    ;

    /// Reads a value from exactly its payload bytes.
    fn from_payload(bytes: &[u8]) -> (r: Option<Self>)
        ensures
            match r {
                Some(x) => x.payload_spec() == bytes@,
                None => !Self::accepts(bytes@),
            },
    ;
}

/// The JSON payload of a package.
pub fn encode_payload<T: Payload>(payload: &T) -> (r: Result<Vec<u8>, DkgKitError>)
    ensures
        r matches Ok(v) && v@ == payload.payload_spec(),
{
    Ok(payload.to_payload())
}

/// Reads a package from its JSON payload; bytes that encode no package are refused.
pub fn decode_payload<T: Payload>(bytes: &[u8]) -> (r: Result<T, DkgKitError>)
    ensures
        match r {
            Ok(x) => x.payload_spec() == bytes@,
            Err(e) => e@ == ErrorView::Serialization(msg_bad_payload()) && !T::accepts(bytes@),
        },
{
    match T::from_payload(bytes) {
        Some(x) => Ok(x),
        None => Err(bad_payload()),
    }
}

// ---------------------------------------------------------------- FROST DKG round 1
/// A participant's broadcast DKG contribution.
#[derive(Debug, PartialEq, Eq)]
pub struct Round1Package {
    pub participant_id: ParticipantId,
    /// Serialized keygen input of the contributing participant.
    pub bytes: Vec<u8>,
}

pub struct Round1View {
    pub participant_id: u16,
    pub bytes: Seq<u8>,
}

impl View for Round1Package {
    type V = Round1View;

    open spec fn view(&self) -> Round1View {
        Round1View { participant_id: self.participant_id.0, bytes: self.bytes@ }
    }
}

impl Clone for Round1Package {
    fn clone(&self) -> (res: Self)
        ensures
            res@ == self@,
    {
        Round1Package { participant_id: self.participant_id, bytes: self.bytes.clone() }
    }
}

pub open spec fn round1_keys() -> Seq<Seq<u8>> {
    seq![k_participant_id(), k_bytes()]
}

pub open spec fn round1_kinds() -> Seq<FieldKind> {
    seq![FieldKind::Num, FieldKind::Bytes]
}

pub open spec fn round1_fields(p: Round1View) -> Seq<FieldView> {
    seq![FieldView::Num(p.participant_id), FieldView::Bytes(p.bytes)]
}

/// The JSON payload of a round-1 package.
pub open spec fn enc_round1(p: Round1View) -> Seq<u8> {
    enc_record(round1_keys(), round1_fields(p))
}

/// The round-1 package a payload holds, if any.
pub open spec fn dec_round1(b: Seq<u8>) -> Option<Round1View> {
    match dec_record(round1_keys(), round1_kinds(), b) {
        Some(fs) => match (fs[0], fs[1]) {
            (FieldView::Num(id), FieldView::Bytes(u)) => Some(
                Round1View { participant_id: id, bytes: u },
            ),
            _ => None,
        },
        None => None,
    }
}

/// Round-1 payloads decode to what they were written from, and nothing else decodes.
pub proof fn lemma_round1_codec(p: Round1View, b: Seq<u8>)
    ensures
        dec_round1(enc_round1(p)) == Some(p),
        dec_round1(b) matches Some(q) ==> enc_round1(q) == b,
        dec_record(round1_keys(), round1_kinds(), b) matches Some(fs) ==> fs.len() == 2
            && fs[0] is Num && fs[1] is Bytes,
{
    lemma_first_bytes();
    lemma_keys2(k_participant_id(), k_bytes());
    assert(field_kinds(round1_fields(p)) =~= round1_kinds());
    lemma_record_round_trip(round1_keys(), round1_fields(p));
    if dec_record(round1_keys(), round1_kinds(), b) is Some {
        lemma_record_sound(round1_keys(), round1_kinds(), b);
        let fs = dec_record(round1_keys(), round1_kinds(), b).unwrap();
        assert(field_kinds(fs)[0] == FieldKind::Num);
        assert(field_kinds(fs)[1] == FieldKind::Bytes);
        if let Some(q) = dec_round1(b) {
            assert(round1_fields(q) =~= fs);
        }
    }
}

impl Payload for Round1Package {
    open spec fn payload_spec(&self) -> Seq<u8> {
        enc_round1(self@)
    }

    open spec fn accepts(b: Seq<u8>) -> bool {
        dec_round1(b) is Some
    }

    fn to_payload(&self) -> (r: Vec<u8>) {
        let keys = key_list2(&k_participant_id_bytes(), &k_bytes_bytes());
        let mut fs = Vec::new();
        fs.push(Field::Num(self.participant_id.0));
        fs.push(Field::Bytes(self.bytes.clone()));
        let r = encode_record(&keys, &fs);
        assert(field_views(fs@) =~= round1_fields(self@));
        r
    }

    fn from_payload(bytes: &[u8]) -> (r: Option<Self>) {
        let keys = key_list2(&k_participant_id_bytes(), &k_bytes_bytes());
        let mut kinds = Vec::new();
        kinds.push(FieldKind::Num);
        kinds.push(FieldKind::Bytes);
        assert(kinds@ =~= round1_kinds());
        proof {
            lemma_round1_codec(Round1View { participant_id: 0, bytes: Seq::empty() }, bytes@);
        }
        let fs = match decode_record(&keys, &kinds, bytes) {
            Some(fs) => fs,
            None => return None,
        };
        if fs.len() != 2 {
            return None;
        }
        let r = match (&fs[0], &fs[1]) {
            (Field::Num(id), Field::Bytes(u)) => Some(
                Round1Package { participant_id: ParticipantId(*id), bytes: u.clone() },
            ),
            _ => None,
        };
        r
    }
}

/// What `Round1Package::from_protocol_message` yields for an envelope.
pub open spec fn round1_from_message(m: MessageView) -> Result<Round1View, ErrorView> {
    match envelope_error(m, KindView::FrostDkgRound1, true) {
        Some(e) => Err(e),
        None => match dec_round1(m.payload) {
            None => Err(ErrorView::Serialization(msg_bad_payload())),
            Some(p) => if p.participant_id != m.sender {
                Err(ErrorView::Protocol(msg_sender_mismatch("round1"@, m.sender, p.participant_id)))
            } else {
                Ok(p)
            },
        },
    }
}

impl Round1Package {
    /// The broadcast envelope carrying this package.
    pub fn to_protocol_message(&self, session_id: SessionId) -> (r: Result<
        ProtocolMessage,
        DkgKitError,
    >)
        ensures
            r matches Ok(m) && m@ == envelope(
                session_id@,
                self.participant_id.0,
                None,
                KindView::FrostDkgRound1,
                enc_round1(self@),
            ),
    {
        let payload = encode_payload(self)?;
        Ok(
            ProtocolMessage::broadcast(
                session_id,
                self.participant_id,
                ProtocolMessageKind::FrostDkgRound1,
                payload,
            ),
        )
    }

    /// Reads the package from a round-1 broadcast whose sender is the package's participant.
    pub fn from_protocol_message(message: &ProtocolMessage) -> (r: Result<Self, DkgKitError>)
        ensures
            match round1_from_message(message@) {
                Ok(p) => r matches Ok(x) && x@ == p,
                Err(e) => r matches Err(x) && x@ == e,
            },
    {
        check_envelope(message, ProtocolMessageKind::FrostDkgRound1, true)?;
        let package: Round1Package = decode_payload(message.payload.as_slice())?;
        proof {
            lemma_round1_codec(package@, message.payload@);
        }
        if package.participant_id.0 != message.sender.0 {
            return Err(sender_mismatch("round1", message.sender.0, package.participant_id.0));
        }
        Ok(package)
    }
}


/// The error text for an HTSS public nonce of the wrong length.
pub open spec fn msg_nonce_length(id: u16) -> Seq<char> {
    "HTSS public nonce for participant "@ + decimal(id as nat) + " must be 33 bytes"@
}

fn nonce_length_error(id: u16) -> (r: DkgKitError)
    ensures
        r@ == ErrorView::Protocol(msg_nonce_length(id)),
{
    let mut text = String::from_str("HTSS public nonce for participant ");
    push_decimal(&mut text, id as u64);
    text.append(" must be 33 bytes");
    DkgKitError::Protocol(text)
}

fn clone_rows(v: &Vec<Vec<u8>>) -> (r: Vec<Vec<u8>>)
    ensures
        views2(r@) == views2(v@),
{
    let mut out: Vec<Vec<u8>> = Vec::new();
    let mut i: usize = 0;
    while i < v.len()
        invariant
            i <= v@.len(),
            views2(out@) == views2(v@).take(i as int),
        decreases v@.len() - i,
    {
        let row = v[i].clone();
        assert(row@ =~= v@[i as int]@);
        let ghost prev = out@;
        out.push(row);
        assert(views2(out@) =~= views2(prev).push(row@));
        assert(views2(out@) =~= views2(v@).take(i + 1));
        i += 1;
    }
    assert(views2(v@).take(v@.len() as int) =~= views2(v@));
    out
}

/// An envelope built from a package gives the package back.
pub proof fn lemma_round1_message_round_trip(p: Round1View, session_id: Seq<char>)
    ensures
        round1_from_message(envelope(session_id, p.participant_id, None, KindView::FrostDkgRound1, enc_round1(p))) == Ok::<Round1View, ErrorView>(p),
{
    lemma_round1_codec(p, enc_round1(p));
}

// ---------------------------------------------------------------- Round2Package
/// A secret share sent from one DKG participant to another.
#[derive(Debug, PartialEq, Eq)]
pub struct Round2Package {
    pub sender: ParticipantId,
    pub recipient: ParticipantId,
    /// Serialized secret share sent from `sender` to `recipient`.
    pub bytes: Vec<u8>,
}

pub struct Round2View {
    pub sender: u16,
    pub recipient: u16,
    pub bytes: Seq<u8>,
}

impl View for Round2Package {
    type V = Round2View;

    open spec fn view(&self) -> Round2View {
        Round2View {
            sender: self.sender.0,
            recipient: self.recipient.0,
            bytes: self.bytes@,
        }
    }
}

impl Clone for Round2Package {
    fn clone(&self) -> (res: Self)
        ensures
            res@ == self@,
    {
        Round2Package {
            sender: self.sender,
            recipient: self.recipient,
            bytes: self.bytes.clone(),
        }
    }
}

pub open spec fn round2_keys() -> Seq<Seq<u8>> {
    seq![k_sender(), k_recipient(), k_bytes()]
}

pub open spec fn round2_kinds() -> Seq<FieldKind> {
    seq![FieldKind::Num, FieldKind::Num, FieldKind::Bytes]
}

pub open spec fn round2_fields(p: Round2View) -> Seq<FieldView> {
    seq![FieldView::Num(p.sender), FieldView::Num(p.recipient), FieldView::Bytes(p.bytes)]
}

/// The JSON payload of a package.
pub open spec fn enc_round2(p: Round2View) -> Seq<u8> {
    enc_record(round2_keys(), round2_fields(p))
}

/// The package a payload holds, if any.
pub open spec fn dec_round2(b: Seq<u8>) -> Option<Round2View> {
    match dec_record(round2_keys(), round2_kinds(), b) {
        Some(fs) => match (fs[0], fs[1], fs[2]) {
            (FieldView::Num(v0), FieldView::Num(v1), FieldView::Bytes(v2)) => Some(Round2View { sender: v0, recipient: v1, bytes: v2 }),
            _ => None,
        },
        None => None,
    }
}

/// Payloads decode to what they were written from, and nothing else decodes.
pub proof fn lemma_round2_codec(p: Round2View, b: Seq<u8>)
    ensures
        dec_round2(enc_round2(p)) == Some(p),
        dec_round2(b) matches Some(q) ==> enc_round2(q) == b,
        dec_record(round2_keys(), round2_kinds(), b) matches Some(fs) ==> fs.len() == 3 && fs[0] is Num && fs[1] is Num && fs[2] is Bytes,
{
    lemma_first_bytes();
    lemma_keys3(k_sender(), k_recipient(), k_bytes());
    assert(field_kinds(round2_fields(p)) =~= round2_kinds());
    lemma_record_round_trip(round2_keys(), round2_fields(p));
    if dec_record(round2_keys(), round2_kinds(), b) is Some {
        lemma_record_sound(round2_keys(), round2_kinds(), b);
        let fs = dec_record(round2_keys(), round2_kinds(), b).unwrap();
        assert(field_kinds(fs)[0] == FieldKind::Num);
        assert(field_kinds(fs)[1] == FieldKind::Num);
        assert(field_kinds(fs)[2] == FieldKind::Bytes);
        if let Some(q) = dec_round2(b) {
            assert(round2_fields(q) =~= fs);
        }
    }
}

impl Payload for Round2Package {
    open spec fn payload_spec(&self) -> Seq<u8> {
        enc_round2(self@)
    }

    open spec fn accepts(b: Seq<u8>) -> bool {
        dec_round2(b) is Some
    }

    fn to_payload(&self) -> (r: Vec<u8>) {
        let keys = key_list3(&k_sender_bytes(), &k_recipient_bytes(), &k_bytes_bytes());
        let mut fs = Vec::new();
        fs.push(Field::Num(self.sender.0));
        fs.push(Field::Num(self.recipient.0));
        fs.push(Field::Bytes(self.bytes.clone()));
        let r = encode_record(&keys, &fs);
        assert(field_views(fs@) =~= round2_fields(self@));
        r
    }

    fn from_payload(bytes: &[u8]) -> (r: Option<Self>) {
        let keys = key_list3(&k_sender_bytes(), &k_recipient_bytes(), &k_bytes_bytes());
        let mut kinds = Vec::new();
        kinds.push(FieldKind::Num);
        kinds.push(FieldKind::Num);
        kinds.push(FieldKind::Bytes);
        assert(kinds@ =~= round2_kinds());
        proof {
            lemma_round2_codec(Round2View { sender: 0, recipient: 0, bytes: Seq::empty() }, bytes@);
        }
        let fs = match decode_record(&keys, &kinds, bytes) {
            Some(fs) => fs,
            None => return None,
        };
        if fs.len() != 3 {
            return None;
        }
        match (&fs[0], &fs[1], &fs[2]) {
            (Field::Num(v0), Field::Num(v1), Field::Bytes(v2)) => Some(Round2Package { sender: ParticipantId(*v0), recipient: ParticipantId(*v1), bytes: v2.clone() }),
            _ => None,
        }
    }
}

/// What `Round2Package::from_protocol_message` yields for an envelope.
pub open spec fn round2_from_message(m: MessageView) -> Result<Round2View, ErrorView> {
    match envelope_error(m, KindView::FrostDkgRound2, false) {
        Some(e) => Err(e),
        None => match dec_round2(m.payload) {
            None => Err(ErrorView::Serialization(msg_bad_payload())),
            Some(p) => if p.sender != m.sender {
                Err(ErrorView::Protocol(msg_sender_mismatch("round2"@, m.sender, p.sender)))
            } else if Some(p.recipient) != m.recipient {
                Err(ErrorView::Protocol("round2 recipient mismatch"@))
            } else {
                Ok(p)
            },
        },
    }
}

impl Round2Package {
    /// The envelope carrying this package.
    pub fn to_protocol_message(&self, session_id: SessionId) -> (r: Result<ProtocolMessage, DkgKitError>)
        ensures
            r matches Ok(m) && m@ == envelope(session_id@, self.sender.0, Some(self.recipient.0), KindView::FrostDkgRound2, enc_round2(self@)),
    {
        let payload = encode_payload(self)?;
        Ok(ProtocolMessage::direct(session_id, self.sender, self.recipient, ProtocolMessageKind::FrostDkgRound2, payload))
    }

    /// Reads the package from its envelope, checking that the envelope agrees with it.
    pub fn from_protocol_message(message: &ProtocolMessage) -> (r: Result<Self, DkgKitError>)
        ensures
            match round2_from_message(message@) {
                Ok(p) => r matches Ok(x) && x@ == p,
                Err(e) => r matches Err(x) && x@ == e,
            },
    {
        check_envelope(message, ProtocolMessageKind::FrostDkgRound2, false)?;
        let package: Round2Package = decode_payload(message.payload.as_slice())?;
        proof {
            lemma_round2_codec(package@, message.payload@);
        }
        if package.sender.0 != message.sender.0 {
            return Err(sender_mismatch("round2", message.sender.0, package.sender.0));
        }
        let same_recipient = match message.recipient {
            Some(r) => r.0 == package.recipient.0,
            None => false,
        };
        if !same_recipient {
            return Err(protocol_error("round2 recipient mismatch"));
        }
        Ok(package)
    }
}

/// An envelope built from a package gives the package back.
pub proof fn lemma_round2_message_round_trip(p: Round2View, session_id: Seq<char>)
    ensures
        round2_from_message(envelope(session_id, p.sender, Some(p.recipient), KindView::FrostDkgRound2, enc_round2(p))) == Ok::<Round2View, ErrorView>(p),
{
    lemma_round2_codec(p, enc_round2(p));
}

// ---------------------------------------------------------------- NoncePackage
/// A signer's public nonce for one signing session.
#[derive(Debug, PartialEq, Eq)]
pub struct NoncePackage {
    pub participant_id: ParticipantId,
    pub signing_session_id: SessionId,
    pub public_nonce_bytes: Vec<u8>,
}

pub struct NonceView {
    pub participant_id: u16,
    pub signing_session_id: Seq<char>,
    pub public_nonce_bytes: Seq<u8>,
}

impl View for NoncePackage {
    type V = NonceView;

    open spec fn view(&self) -> NonceView {
        NonceView {
            participant_id: self.participant_id.0,
            signing_session_id: self.signing_session_id@,
            public_nonce_bytes: self.public_nonce_bytes@,
        }
    }
}

impl Clone for NoncePackage {
    fn clone(&self) -> (res: Self)
        ensures
            res@ == self@,
    {
        NoncePackage {
            participant_id: self.participant_id,
            signing_session_id: self.signing_session_id.clone(),
            public_nonce_bytes: self.public_nonce_bytes.clone(),
        }
    }
}

pub open spec fn nonce_keys() -> Seq<Seq<u8>> {
    seq![k_participant_id(), k_signing_session_id(), k_public_nonce_bytes()]
}

pub open spec fn nonce_kinds() -> Seq<FieldKind> {
    seq![FieldKind::Num, FieldKind::Text, FieldKind::Bytes]
}

pub open spec fn nonce_fields(p: NonceView) -> Seq<FieldView> {
    seq![FieldView::Num(p.participant_id), FieldView::Text(p.signing_session_id), FieldView::Bytes(p.public_nonce_bytes)]
}

/// The JSON payload of a package.
pub open spec fn enc_nonce(p: NonceView) -> Seq<u8> {
    enc_record(nonce_keys(), nonce_fields(p))
}

/// The package a payload holds, if any.
pub open spec fn dec_nonce(b: Seq<u8>) -> Option<NonceView> {
    match dec_record(nonce_keys(), nonce_kinds(), b) {
        Some(fs) => match (fs[0], fs[1], fs[2]) {
            (FieldView::Num(v0), FieldView::Text(v1), FieldView::Bytes(v2)) => Some(NonceView { participant_id: v0, signing_session_id: v1, public_nonce_bytes: v2 }),
            _ => None,
        },
        None => None,
    }
}

/// Payloads decode to what they were written from, and nothing else decodes.
pub proof fn lemma_nonce_codec(p: NonceView, b: Seq<u8>)
    ensures
        dec_nonce(enc_nonce(p)) == Some(p),
        dec_nonce(b) matches Some(q) ==> enc_nonce(q) == b,
        dec_record(nonce_keys(), nonce_kinds(), b) matches Some(fs) ==> fs.len() == 3 && fs[0] is Num && fs[1] is Text && fs[2] is Bytes,
{
    lemma_first_bytes();
    lemma_keys3(k_participant_id(), k_signing_session_id(), k_public_nonce_bytes());
    assert(field_kinds(nonce_fields(p)) =~= nonce_kinds());
    lemma_record_round_trip(nonce_keys(), nonce_fields(p));
    if dec_record(nonce_keys(), nonce_kinds(), b) is Some {
        lemma_record_sound(nonce_keys(), nonce_kinds(), b);
        let fs = dec_record(nonce_keys(), nonce_kinds(), b).unwrap();
        assert(field_kinds(fs)[0] == FieldKind::Num);
        assert(field_kinds(fs)[1] == FieldKind::Text);
        assert(field_kinds(fs)[2] == FieldKind::Bytes);
        if let Some(q) = dec_nonce(b) {
            assert(nonce_fields(q) =~= fs);
        }
    }
}

impl Payload for NoncePackage {
    open spec fn payload_spec(&self) -> Seq<u8> {
        enc_nonce(self@)
    }

    open spec fn accepts(b: Seq<u8>) -> bool {
        dec_nonce(b) is Some
    }

    fn to_payload(&self) -> (r: Vec<u8>) {
        let keys = key_list3(&k_participant_id_bytes(), &k_signing_session_id_bytes(), &k_public_nonce_bytes_bytes());
        let mut fs = Vec::new();
        fs.push(Field::Num(self.participant_id.0));
        fs.push(Field::Text(self.signing_session_id.0.clone()));
        fs.push(Field::Bytes(self.public_nonce_bytes.clone()));
        let r = encode_record(&keys, &fs);
        assert(field_views(fs@) =~= nonce_fields(self@));
        r
    }

    fn from_payload(bytes: &[u8]) -> (r: Option<Self>) {
        let keys = key_list3(&k_participant_id_bytes(), &k_signing_session_id_bytes(), &k_public_nonce_bytes_bytes());
        let mut kinds = Vec::new();
        kinds.push(FieldKind::Num);
        kinds.push(FieldKind::Text);
        kinds.push(FieldKind::Bytes);
        assert(kinds@ =~= nonce_kinds());
        proof {
            lemma_nonce_codec(NonceView { participant_id: 0, signing_session_id: Seq::empty(), public_nonce_bytes: Seq::empty() }, bytes@);
        }
        let fs = match decode_record(&keys, &kinds, bytes) {
            Some(fs) => fs,
            None => return None,
        };
        if fs.len() != 3 {
            return None;
        }
        match (&fs[0], &fs[1], &fs[2]) {
            (Field::Num(v0), Field::Text(v1), Field::Bytes(v2)) => Some(NoncePackage { participant_id: ParticipantId(*v0), signing_session_id: SessionId(v1.clone()), public_nonce_bytes: v2.clone() }),
            _ => None,
        }
    }
}

/// What `NoncePackage::from_protocol_message` yields for an envelope.
pub open spec fn nonce_from_message(m: MessageView) -> Result<NonceView, ErrorView> {
    match envelope_error(m, KindView::FrostSigningNonce, true) {
        Some(e) => Err(e),
        None => match dec_nonce(m.payload) {
            None => Err(ErrorView::Serialization(msg_bad_payload())),
            Some(p) => if p.participant_id != m.sender {
                Err(ErrorView::Protocol(msg_sender_mismatch("nonce"@, m.sender, p.participant_id)))
            } else if p.signing_session_id != m.session_id {
                Err(ErrorView::Protocol("nonce session mismatch"@))
            } else {
                Ok(p)
            },
        },
    }
}

impl NoncePackage {
    /// The envelope carrying this package.
    pub fn to_protocol_message(&self) -> (r: Result<ProtocolMessage, DkgKitError>)
        ensures
            r matches Ok(m) && m@ == envelope(self.signing_session_id@, self.participant_id.0, None, KindView::FrostSigningNonce, enc_nonce(self@)),
    {
        let payload = encode_payload(self)?;
        Ok(ProtocolMessage::broadcast(self.signing_session_id.clone(), self.participant_id, ProtocolMessageKind::FrostSigningNonce, payload))
    }

    /// Reads the package from its envelope, checking that the envelope agrees with it.
    pub fn from_protocol_message(message: &ProtocolMessage) -> (r: Result<Self, DkgKitError>)
        ensures
            match nonce_from_message(message@) {
                Ok(p) => r matches Ok(x) && x@ == p,
                Err(e) => r matches Err(x) && x@ == e,
            },
    {
        check_envelope(message, ProtocolMessageKind::FrostSigningNonce, true)?;
        let package: NoncePackage = decode_payload(message.payload.as_slice())?;
        proof {
            lemma_nonce_codec(package@, message.payload@);
        }
        if package.participant_id.0 != message.sender.0 {
            return Err(sender_mismatch("nonce", message.sender.0, package.participant_id.0));
        }
        if !package.signing_session_id.same_as(&message.session_id) {
            return Err(protocol_error("nonce session mismatch"));
        }
        Ok(package)
    }
}

/// An envelope built from a package gives the package back.
pub proof fn lemma_nonce_message_round_trip(p: NonceView)
    ensures
        nonce_from_message(envelope(p.signing_session_id, p.participant_id, None, KindView::FrostSigningNonce, enc_nonce(p))) == Ok::<NonceView, ErrorView>(p),
{
    lemma_nonce_codec(p, enc_nonce(p));
}

// ---------------------------------------------------------------- SignatureSharePackage
/// A signer's signature share with the public nonce it was made with.
#[derive(Debug, PartialEq, Eq)]
pub struct SignatureSharePackage {
    pub participant_id: ParticipantId,
    pub signing_session_id: SessionId,
    pub public_nonce_bytes: Vec<u8>,
    pub signature_share_bytes: Vec<u8>,
}

pub struct SignatureShareView {
    pub participant_id: u16,
    pub signing_session_id: Seq<char>,
    pub public_nonce_bytes: Seq<u8>,
    pub signature_share_bytes: Seq<u8>,
}

impl View for SignatureSharePackage {
    type V = SignatureShareView;

    open spec fn view(&self) -> SignatureShareView {
        SignatureShareView {
            participant_id: self.participant_id.0,
            signing_session_id: self.signing_session_id@,
            public_nonce_bytes: self.public_nonce_bytes@,
            signature_share_bytes: self.signature_share_bytes@,
        }
    }
}

impl Clone for SignatureSharePackage {
    fn clone(&self) -> (res: Self)
        ensures
            res@ == self@,
    {
        SignatureSharePackage {
            participant_id: self.participant_id,
            signing_session_id: self.signing_session_id.clone(),
            public_nonce_bytes: self.public_nonce_bytes.clone(),
            signature_share_bytes: self.signature_share_bytes.clone(),
        }
    }
}

pub open spec fn sig_share_keys() -> Seq<Seq<u8>> {
    seq![k_participant_id(), k_signing_session_id(), k_public_nonce_bytes(), k_signature_share_bytes()]
}

pub open spec fn sig_share_kinds() -> Seq<FieldKind> {
    seq![FieldKind::Num, FieldKind::Text, FieldKind::Bytes, FieldKind::Bytes]
}

pub open spec fn sig_share_fields(p: SignatureShareView) -> Seq<FieldView> {
    seq![FieldView::Num(p.participant_id), FieldView::Text(p.signing_session_id), FieldView::Bytes(p.public_nonce_bytes), FieldView::Bytes(p.signature_share_bytes)]
}

/// The JSON payload of a package.
pub open spec fn enc_sig_share(p: SignatureShareView) -> Seq<u8> {
    enc_record(sig_share_keys(), sig_share_fields(p))
}

/// The package a payload holds, if any.
pub open spec fn dec_sig_share(b: Seq<u8>) -> Option<SignatureShareView> {
    match dec_record(sig_share_keys(), sig_share_kinds(), b) {
        Some(fs) => match (fs[0], fs[1], fs[2], fs[3]) {
            (FieldView::Num(v0), FieldView::Text(v1), FieldView::Bytes(v2), FieldView::Bytes(v3)) => Some(SignatureShareView { participant_id: v0, signing_session_id: v1, public_nonce_bytes: v2, signature_share_bytes: v3 }),
            _ => None,
        },
        None => None,
    }
}

/// Payloads decode to what they were written from, and nothing else decodes.
pub proof fn lemma_sig_share_codec(p: SignatureShareView, b: Seq<u8>)
    ensures
        dec_sig_share(enc_sig_share(p)) == Some(p),
        dec_sig_share(b) matches Some(q) ==> enc_sig_share(q) == b,
        dec_record(sig_share_keys(), sig_share_kinds(), b) matches Some(fs) ==> fs.len() == 4 && fs[0] is Num && fs[1] is Text && fs[2] is Bytes && fs[3] is Bytes,
{
    lemma_first_bytes();
    lemma_keys4(k_participant_id(), k_signing_session_id(), k_public_nonce_bytes(), k_signature_share_bytes());
    assert(field_kinds(sig_share_fields(p)) =~= sig_share_kinds());
    lemma_record_round_trip(sig_share_keys(), sig_share_fields(p));
    if dec_record(sig_share_keys(), sig_share_kinds(), b) is Some {
        lemma_record_sound(sig_share_keys(), sig_share_kinds(), b);
        let fs = dec_record(sig_share_keys(), sig_share_kinds(), b).unwrap();
        assert(field_kinds(fs)[0] == FieldKind::Num);
        assert(field_kinds(fs)[1] == FieldKind::Text);
        assert(field_kinds(fs)[2] == FieldKind::Bytes);
        assert(field_kinds(fs)[3] == FieldKind::Bytes);
        if let Some(q) = dec_sig_share(b) {
            assert(sig_share_fields(q) =~= fs);
        }
    }
}

impl Payload for SignatureSharePackage {
    open spec fn payload_spec(&self) -> Seq<u8> {
        enc_sig_share(self@)
    }

    open spec fn accepts(b: Seq<u8>) -> bool {
        dec_sig_share(b) is Some
    }

    fn to_payload(&self) -> (r: Vec<u8>) {
        let keys = key_list4(&k_participant_id_bytes(), &k_signing_session_id_bytes(), &k_public_nonce_bytes_bytes(), &k_signature_share_bytes_bytes());
        let mut fs = Vec::new();
        fs.push(Field::Num(self.participant_id.0));
        fs.push(Field::Text(self.signing_session_id.0.clone()));
        fs.push(Field::Bytes(self.public_nonce_bytes.clone()));
        fs.push(Field::Bytes(self.signature_share_bytes.clone()));
        let r = encode_record(&keys, &fs);
        assert(field_views(fs@) =~= sig_share_fields(self@));
        r
    }

    fn from_payload(bytes: &[u8]) -> (r: Option<Self>) {
        let keys = key_list4(&k_participant_id_bytes(), &k_signing_session_id_bytes(), &k_public_nonce_bytes_bytes(), &k_signature_share_bytes_bytes());
        let mut kinds = Vec::new();
        kinds.push(FieldKind::Num);
        kinds.push(FieldKind::Text);
        kinds.push(FieldKind::Bytes);
        kinds.push(FieldKind::Bytes);
        assert(kinds@ =~= sig_share_kinds());
        proof {
            lemma_sig_share_codec(SignatureShareView { participant_id: 0, signing_session_id: Seq::empty(), public_nonce_bytes: Seq::empty(), signature_share_bytes: Seq::empty() }, bytes@);
        }
        let fs = match decode_record(&keys, &kinds, bytes) {
            Some(fs) => fs,
            None => return None,
        };
        if fs.len() != 4 {
            return None;
        }
        match (&fs[0], &fs[1], &fs[2], &fs[3]) {
            (Field::Num(v0), Field::Text(v1), Field::Bytes(v2), Field::Bytes(v3)) => Some(SignatureSharePackage { participant_id: ParticipantId(*v0), signing_session_id: SessionId(v1.clone()), public_nonce_bytes: v2.clone(), signature_share_bytes: v3.clone() }),
            _ => None,
        }
    }
}

/// What `SignatureSharePackage::from_protocol_message` yields for an envelope.
pub open spec fn sig_share_from_message(m: MessageView) -> Result<SignatureShareView, ErrorView> {
    match envelope_error(m, KindView::FrostSignatureShare, true) {
        Some(e) => Err(e),
        None => match dec_sig_share(m.payload) {
            None => Err(ErrorView::Serialization(msg_bad_payload())),
            Some(p) => if p.participant_id != m.sender {
                Err(ErrorView::Protocol(msg_sender_mismatch("signature share"@, m.sender, p.participant_id)))
            } else if p.signing_session_id != m.session_id {
                Err(ErrorView::Protocol("signature share session mismatch"@))
            } else {
                Ok(p)
            },
        },
    }
}

impl SignatureSharePackage {
    /// The envelope carrying this package.
    pub fn to_protocol_message(&self) -> (r: Result<ProtocolMessage, DkgKitError>)
        ensures
            r matches Ok(m) && m@ == envelope(self.signing_session_id@, self.participant_id.0, None, KindView::FrostSignatureShare, enc_sig_share(self@)),
    {
        let payload = encode_payload(self)?;
        Ok(ProtocolMessage::broadcast(self.signing_session_id.clone(), self.participant_id, ProtocolMessageKind::FrostSignatureShare, payload))
    }

    /// Reads the package from its envelope, checking that the envelope agrees with it.
    pub fn from_protocol_message(message: &ProtocolMessage) -> (r: Result<Self, DkgKitError>)
        ensures
            match sig_share_from_message(message@) {
                Ok(p) => r matches Ok(x) && x@ == p,
                Err(e) => r matches Err(x) && x@ == e,
            },
    {
        check_envelope(message, ProtocolMessageKind::FrostSignatureShare, true)?;
        let package: SignatureSharePackage = decode_payload(message.payload.as_slice())?;
        proof {
            lemma_sig_share_codec(package@, message.payload@);
        }
        if package.participant_id.0 != message.sender.0 {
            return Err(sender_mismatch("signature share", message.sender.0, package.participant_id.0));
        }
        if !package.signing_session_id.same_as(&message.session_id) {
            return Err(protocol_error("signature share session mismatch"));
        }
        Ok(package)
    }
}

/// An envelope built from a package gives the package back.
pub proof fn lemma_sig_share_message_round_trip(p: SignatureShareView)
    ensures
        sig_share_from_message(envelope(p.signing_session_id, p.participant_id, None, KindView::FrostSignatureShare, enc_sig_share(p))) == Ok::<SignatureShareView, ErrorView>(p),
{
    lemma_sig_share_codec(p, enc_sig_share(p));
}

// ---------------------------------------------------------------- HtssDkgRound1Package
/// A participant's broadcast HTSS DKG commitments.
#[derive(Debug, PartialEq, Eq)]
pub struct HtssDkgRound1Package {
    pub participant_id: ParticipantId,
    pub rank: u16,
    /// Compressed public commitments to the polynomial coefficients.
    pub commitment_bytes: Vec<Vec<u8>>,
}

pub struct HtssDkgRound1View {
    pub participant_id: u16,
    pub rank: u16,
    pub commitment_bytes: Seq<Seq<u8>>,
}

impl View for HtssDkgRound1Package {
    type V = HtssDkgRound1View;

    open spec fn view(&self) -> HtssDkgRound1View {
        HtssDkgRound1View {
            participant_id: self.participant_id.0,
            rank: self.rank,
            commitment_bytes: views2(self.commitment_bytes@),
        }
    }
}

impl Clone for HtssDkgRound1Package {
    fn clone(&self) -> (res: Self)
        ensures
            res@ == self@,
    {
        HtssDkgRound1Package {
            participant_id: self.participant_id,
            rank: self.rank,
            commitment_bytes: clone_rows(&self.commitment_bytes),
        }
    }
}

pub open spec fn htss_round1_keys() -> Seq<Seq<u8>> {
    seq![k_participant_id(), k_rank(), k_commitment_bytes()]
}

pub open spec fn htss_round1_kinds() -> Seq<FieldKind> {
    seq![FieldKind::Num, FieldKind::Num, FieldKind::Rows]
}

pub open spec fn htss_round1_fields(p: HtssDkgRound1View) -> Seq<FieldView> {
    seq![FieldView::Num(p.participant_id), FieldView::Num(p.rank), FieldView::Rows(p.commitment_bytes)]
}

/// The JSON payload of a package.
pub open spec fn enc_htss_round1(p: HtssDkgRound1View) -> Seq<u8> {
    enc_record(htss_round1_keys(), htss_round1_fields(p))
}

/// The package a payload holds, if any.
pub open spec fn dec_htss_round1(b: Seq<u8>) -> Option<HtssDkgRound1View> {
    match dec_record(htss_round1_keys(), htss_round1_kinds(), b) {
        Some(fs) => match (fs[0], fs[1], fs[2]) {
            (FieldView::Num(v0), FieldView::Num(v1), FieldView::Rows(v2)) => Some(HtssDkgRound1View { participant_id: v0, rank: v1, commitment_bytes: v2 }),
            _ => None,
        },
        None => None,
    }
}

/// Payloads decode to what they were written from, and nothing else decodes.
pub proof fn lemma_htss_round1_codec(p: HtssDkgRound1View, b: Seq<u8>)
    ensures
        dec_htss_round1(enc_htss_round1(p)) == Some(p),
        dec_htss_round1(b) matches Some(q) ==> enc_htss_round1(q) == b,
        dec_record(htss_round1_keys(), htss_round1_kinds(), b) matches Some(fs) ==> fs.len() == 3 && fs[0] is Num && fs[1] is Num && fs[2] is Rows,
{
    lemma_first_bytes();
    lemma_keys3(k_participant_id(), k_rank(), k_commitment_bytes());
    assert(field_kinds(htss_round1_fields(p)) =~= htss_round1_kinds());
    lemma_record_round_trip(htss_round1_keys(), htss_round1_fields(p));
    if dec_record(htss_round1_keys(), htss_round1_kinds(), b) is Some {
        lemma_record_sound(htss_round1_keys(), htss_round1_kinds(), b);
        let fs = dec_record(htss_round1_keys(), htss_round1_kinds(), b).unwrap();
        assert(field_kinds(fs)[0] == FieldKind::Num);
        assert(field_kinds(fs)[1] == FieldKind::Num);
        assert(field_kinds(fs)[2] == FieldKind::Rows);
        if let Some(q) = dec_htss_round1(b) {
            assert(htss_round1_fields(q) =~= fs);
        }
    }
}

impl Payload for HtssDkgRound1Package {
    open spec fn payload_spec(&self) -> Seq<u8> {
        enc_htss_round1(self@)
    }

    open spec fn accepts(b: Seq<u8>) -> bool {
        dec_htss_round1(b) is Some
    }

    fn to_payload(&self) -> (r: Vec<u8>) {
        let keys = key_list3(&k_participant_id_bytes(), &k_rank_bytes(), &k_commitment_bytes_bytes());
        let mut fs = Vec::new();
        fs.push(Field::Num(self.participant_id.0));
        fs.push(Field::Num(self.rank));
        fs.push(Field::Rows(clone_rows(&self.commitment_bytes)));
        let r = encode_record(&keys, &fs);
        assert(field_views(fs@) =~= htss_round1_fields(self@));
        r
    }

    fn from_payload(bytes: &[u8]) -> (r: Option<Self>) {
        let keys = key_list3(&k_participant_id_bytes(), &k_rank_bytes(), &k_commitment_bytes_bytes());
        let mut kinds = Vec::new();
        kinds.push(FieldKind::Num);
        kinds.push(FieldKind::Num);
        kinds.push(FieldKind::Rows);
        assert(kinds@ =~= htss_round1_kinds());
        proof {
            lemma_htss_round1_codec(HtssDkgRound1View { participant_id: 0, rank: 0, commitment_bytes: Seq::empty() }, bytes@);
        }
        let fs = match decode_record(&keys, &kinds, bytes) {
            Some(fs) => fs,
            None => return None,
        };
        if fs.len() != 3 {
            return None;
        }
        match (&fs[0], &fs[1], &fs[2]) {
            (Field::Num(v0), Field::Num(v1), Field::Rows(v2)) => Some(HtssDkgRound1Package { participant_id: ParticipantId(*v0), rank: *v1, commitment_bytes: clone_rows(v2) }),
            _ => None,
        }
    }
}

/// What `HtssDkgRound1Package::from_protocol_message` yields for an envelope.
pub open spec fn htss_round1_from_message(m: MessageView) -> Result<HtssDkgRound1View, ErrorView> {
    match envelope_error(m, KindView::HtssDkgRound1, true) {
        Some(e) => Err(e),
        None => match dec_htss_round1(m.payload) {
            None => Err(ErrorView::Serialization(msg_bad_payload())),
            Some(p) => if p.participant_id != m.sender {
                Err(ErrorView::Protocol(msg_sender_mismatch("HTSS DKG round1"@, m.sender, p.participant_id)))
            } else {
                Ok(p)
            },
        },
    }
}

impl HtssDkgRound1Package {
    /// The envelope carrying this package.
    pub fn to_protocol_message(&self, session_id: SessionId) -> (r: Result<ProtocolMessage, DkgKitError>)
        ensures
            r matches Ok(m) && m@ == envelope(session_id@, self.participant_id.0, None, KindView::HtssDkgRound1, enc_htss_round1(self@)),
    {
        let payload = encode_payload(self)?;
        Ok(ProtocolMessage::broadcast(session_id, self.participant_id, ProtocolMessageKind::HtssDkgRound1, payload))
    }

    /// Reads the package from its envelope, checking that the envelope agrees with it.
    pub fn from_protocol_message(message: &ProtocolMessage) -> (r: Result<Self, DkgKitError>)
        ensures
            match htss_round1_from_message(message@) {
                Ok(p) => r matches Ok(x) && x@ == p,
                Err(e) => r matches Err(x) && x@ == e,
            },
    {
        check_envelope(message, ProtocolMessageKind::HtssDkgRound1, true)?;
        let package: HtssDkgRound1Package = decode_payload(message.payload.as_slice())?;
        proof {
            lemma_htss_round1_codec(package@, message.payload@);
        }
        if package.participant_id.0 != message.sender.0 {
            return Err(sender_mismatch("HTSS DKG round1", message.sender.0, package.participant_id.0));
        }
        Ok(package)
    }
}

/// An envelope built from a package gives the package back.
pub proof fn lemma_htss_round1_message_round_trip(p: HtssDkgRound1View, session_id: Seq<char>)
    ensures
        htss_round1_from_message(envelope(session_id, p.participant_id, None, KindView::HtssDkgRound1, enc_htss_round1(p))) == Ok::<HtssDkgRound1View, ErrorView>(p),
{
    lemma_htss_round1_codec(p, enc_htss_round1(p));
}

// ---------------------------------------------------------------- HtssDkgRound2Package
/// A derivative share sent from one HTSS DKG participant to another.
#[derive(Debug, PartialEq, Eq)]
pub struct HtssDkgRound2Package {
    pub sender: ParticipantId,
    pub recipient: ParticipantId,
    pub recipient_rank: u16,
    /// Scalar bytes of the sender polynomial's derivative of order `recipient_rank` at the recipient.
    pub share_value_bytes: [u8; 32],
}

pub struct HtssDkgRound2View {
    pub sender: u16,
    pub recipient: u16,
    pub recipient_rank: u16,
    pub share_value_bytes: Seq<u8>,
}

impl View for HtssDkgRound2Package {
    type V = HtssDkgRound2View;

    open spec fn view(&self) -> HtssDkgRound2View {
        HtssDkgRound2View {
            sender: self.sender.0,
            recipient: self.recipient.0,
            recipient_rank: self.recipient_rank,
            share_value_bytes: self.share_value_bytes@,
        }
    }
}

impl Clone for HtssDkgRound2Package {
    fn clone(&self) -> (res: Self)
        ensures
            res@ == self@,
    {
        HtssDkgRound2Package {
            sender: self.sender,
            recipient: self.recipient,
            recipient_rank: self.recipient_rank,
            share_value_bytes: self.share_value_bytes,
        }
    }
}

pub open spec fn htss_round2_keys() -> Seq<Seq<u8>> {
    seq![k_sender(), k_recipient(), k_recipient_rank(), k_share_value_bytes()]
}

pub open spec fn htss_round2_kinds() -> Seq<FieldKind> {
    seq![FieldKind::Num, FieldKind::Num, FieldKind::Num, FieldKind::Bytes]
}

pub open spec fn htss_round2_fields(p: HtssDkgRound2View) -> Seq<FieldView> {
    seq![FieldView::Num(p.sender), FieldView::Num(p.recipient), FieldView::Num(p.recipient_rank), FieldView::Bytes(p.share_value_bytes)]
}

/// The JSON payload of a package.
pub open spec fn enc_htss_round2(p: HtssDkgRound2View) -> Seq<u8> {
    enc_record(htss_round2_keys(), htss_round2_fields(p))
}

/// The package a payload holds, if any.
pub open spec fn dec_htss_round2(b: Seq<u8>) -> Option<HtssDkgRound2View> {
    match dec_record(htss_round2_keys(), htss_round2_kinds(), b) {
        Some(fs) => match (fs[0], fs[1], fs[2], fs[3]) {
            (FieldView::Num(v0), FieldView::Num(v1), FieldView::Num(v2), FieldView::Bytes(v3)) => if v3.len() == 32 { Some(HtssDkgRound2View { sender: v0, recipient: v1, recipient_rank: v2, share_value_bytes: v3 }) } else { None },
            _ => None,
        },
        None => None,
    }
}

/// Payloads decode to what they were written from, and nothing else decodes.
pub proof fn lemma_htss_round2_codec(p: HtssDkgRound2View, b: Seq<u8>)
    requires
        p.share_value_bytes.len() == 32,

    ensures
        dec_htss_round2(enc_htss_round2(p)) == Some(p),
        dec_htss_round2(b) matches Some(q) ==> enc_htss_round2(q) == b,
        dec_record(htss_round2_keys(), htss_round2_kinds(), b) matches Some(fs) ==> fs.len() == 4 && fs[0] is Num && fs[1] is Num && fs[2] is Num && fs[3] is Bytes,
{
    lemma_first_bytes();
    lemma_keys4(k_sender(), k_recipient(), k_recipient_rank(), k_share_value_bytes());
    assert(field_kinds(htss_round2_fields(p)) =~= htss_round2_kinds());
    lemma_record_round_trip(htss_round2_keys(), htss_round2_fields(p));
    if dec_record(htss_round2_keys(), htss_round2_kinds(), b) is Some {
        lemma_record_sound(htss_round2_keys(), htss_round2_kinds(), b);
        let fs = dec_record(htss_round2_keys(), htss_round2_kinds(), b).unwrap();
        assert(field_kinds(fs)[0] == FieldKind::Num);
        assert(field_kinds(fs)[1] == FieldKind::Num);
        assert(field_kinds(fs)[2] == FieldKind::Num);
        assert(field_kinds(fs)[3] == FieldKind::Bytes);
        if let Some(q) = dec_htss_round2(b) {
            assert(htss_round2_fields(q) =~= fs);
        }
    }
}

impl Payload for HtssDkgRound2Package {
    open spec fn payload_spec(&self) -> Seq<u8> {
        enc_htss_round2(self@)
    }

    open spec fn accepts(b: Seq<u8>) -> bool {
        dec_htss_round2(b) is Some
    }

    fn to_payload(&self) -> (r: Vec<u8>) {
        let keys = key_list4(&k_sender_bytes(), &k_recipient_bytes(), &k_recipient_rank_bytes(), &k_share_value_bytes_bytes());
        let mut fs = Vec::new();
        fs.push(Field::Num(self.sender.0));
        fs.push(Field::Num(self.recipient.0));
        fs.push(Field::Num(self.recipient_rank));
        fs.push(Field::Bytes(vec_of(&self.share_value_bytes)));
        let r = encode_record(&keys, &fs);
        assert(field_views(fs@) =~= htss_round2_fields(self@));
        r
    }

    fn from_payload(bytes: &[u8]) -> (r: Option<Self>) {
        let keys = key_list4(&k_sender_bytes(), &k_recipient_bytes(), &k_recipient_rank_bytes(), &k_share_value_bytes_bytes());
        let mut kinds = Vec::new();
        kinds.push(FieldKind::Num);
        kinds.push(FieldKind::Num);
        kinds.push(FieldKind::Num);
        kinds.push(FieldKind::Bytes);
        assert(kinds@ =~= htss_round2_kinds());
        proof {
            lemma_htss_round2_codec(HtssDkgRound2View { sender: 0, recipient: 0, recipient_rank: 0, share_value_bytes: Seq::new(32, |i: int| 0u8) }, bytes@);
        }
        let fs = match decode_record(&keys, &kinds, bytes) {
            Some(fs) => fs,
            None => return None,
        };
        if fs.len() != 4 {
            return None;
        }
        match (&fs[0], &fs[1], &fs[2], &fs[3]) {
            (Field::Num(v0), Field::Num(v1), Field::Num(v2), Field::Bytes(v3)) => if v3.len() == 32 {
                Some(HtssDkgRound2Package { sender: ParticipantId(*v0), recipient: ParticipantId(*v1), recipient_rank: *v2, share_value_bytes: bytes32(v3) })
            } else {
                None
            },
            _ => None,
        }
    }
}

/// What `HtssDkgRound2Package::from_protocol_message` yields for an envelope.
pub open spec fn htss_round2_from_message(m: MessageView) -> Result<HtssDkgRound2View, ErrorView> {
    match envelope_error(m, KindView::HtssDkgRound2, false) {
        Some(e) => Err(e),
        None => match dec_htss_round2(m.payload) {
            None => Err(ErrorView::Serialization(msg_bad_payload())),
            Some(p) => if p.sender != m.sender {
                Err(ErrorView::Protocol(msg_sender_mismatch("HTSS DKG round2"@, m.sender, p.sender)))
            } else if Some(p.recipient) != m.recipient {
                Err(ErrorView::Protocol("HTSS DKG round2 recipient mismatch"@))
            } else {
                Ok(p)
            },
        },
    }
}

impl HtssDkgRound2Package {
    /// The envelope carrying this package.
    pub fn to_protocol_message(&self, session_id: SessionId) -> (r: Result<ProtocolMessage, DkgKitError>)
        ensures
            r matches Ok(m) && m@ == envelope(session_id@, self.sender.0, Some(self.recipient.0), KindView::HtssDkgRound2, enc_htss_round2(self@)),
    {
        let payload = encode_payload(self)?;
        Ok(ProtocolMessage::direct(session_id, self.sender, self.recipient, ProtocolMessageKind::HtssDkgRound2, payload))
    }

    /// Reads the package from its envelope, checking that the envelope agrees with it.
    pub fn from_protocol_message(message: &ProtocolMessage) -> (r: Result<Self, DkgKitError>)
        ensures
            match htss_round2_from_message(message@) {
                Ok(p) => r matches Ok(x) && x@ == p,
                Err(e) => r matches Err(x) && x@ == e,
            },
    {
        check_envelope(message, ProtocolMessageKind::HtssDkgRound2, false)?;
        let package: HtssDkgRound2Package = decode_payload(message.payload.as_slice())?;
        proof {
            lemma_htss_round2_codec(package@, message.payload@);
        }
        if package.sender.0 != message.sender.0 {
            return Err(sender_mismatch("HTSS DKG round2", message.sender.0, package.sender.0));
        }
        let same_recipient = match message.recipient {
            Some(r) => r.0 == package.recipient.0,
            None => false,
        };
        if !same_recipient {
            return Err(protocol_error("HTSS DKG round2 recipient mismatch"));
        }
        Ok(package)
    }
}

/// An envelope built from a package gives the package back.
pub proof fn lemma_htss_round2_message_round_trip(p: HtssDkgRound2View, session_id: Seq<char>)
    requires
        p.share_value_bytes.len() == 32,
    ensures
        htss_round2_from_message(envelope(session_id, p.sender, Some(p.recipient), KindView::HtssDkgRound2, enc_htss_round2(p))) == Ok::<HtssDkgRound2View, ErrorView>(p),
{
    lemma_htss_round2_codec(p, enc_htss_round2(p));
}

// ---------------------------------------------------------------- HtssNoncePackage
/// A signer's public HTSS nonce point for one signing session.
#[derive(Debug, PartialEq, Eq)]
pub struct HtssNoncePackage {
    pub participant_id: ParticipantId,
    pub signing_session_id: SessionId,
    pub public_nonce_bytes: Vec<u8>,
}

pub struct HtssNonceView {
    pub participant_id: u16,
    pub signing_session_id: Seq<char>,
    pub public_nonce_bytes: Seq<u8>,
}

impl View for HtssNoncePackage {
    type V = HtssNonceView;

    open spec fn view(&self) -> HtssNonceView {
        HtssNonceView {
            participant_id: self.participant_id.0,
            signing_session_id: self.signing_session_id@,
            public_nonce_bytes: self.public_nonce_bytes@,
        }
    }
}

impl Clone for HtssNoncePackage {
    fn clone(&self) -> (res: Self)
        ensures
            res@ == self@,
    {
        HtssNoncePackage {
            participant_id: self.participant_id,
            signing_session_id: self.signing_session_id.clone(),
            public_nonce_bytes: self.public_nonce_bytes.clone(),
        }
    }
}

pub open spec fn htss_nonce_keys() -> Seq<Seq<u8>> {
    seq![k_participant_id(), k_signing_session_id(), k_public_nonce_bytes()]
}

pub open spec fn htss_nonce_kinds() -> Seq<FieldKind> {
    seq![FieldKind::Num, FieldKind::Text, FieldKind::Bytes]
}

pub open spec fn htss_nonce_fields(p: HtssNonceView) -> Seq<FieldView> {
    seq![FieldView::Num(p.participant_id), FieldView::Text(p.signing_session_id), FieldView::Bytes(p.public_nonce_bytes)]
}

/// The JSON payload of a package.
pub open spec fn enc_htss_nonce(p: HtssNonceView) -> Seq<u8> {
    enc_record(htss_nonce_keys(), htss_nonce_fields(p))
}

/// The package a payload holds, if any.
pub open spec fn dec_htss_nonce(b: Seq<u8>) -> Option<HtssNonceView> {
    match dec_record(htss_nonce_keys(), htss_nonce_kinds(), b) {
        Some(fs) => match (fs[0], fs[1], fs[2]) {
            (FieldView::Num(v0), FieldView::Text(v1), FieldView::Bytes(v2)) => Some(HtssNonceView { participant_id: v0, signing_session_id: v1, public_nonce_bytes: v2 }),
            _ => None,
        },
        None => None,
    }
}

/// Payloads decode to what they were written from, and nothing else decodes.
pub proof fn lemma_htss_nonce_codec(p: HtssNonceView, b: Seq<u8>)
    ensures
        dec_htss_nonce(enc_htss_nonce(p)) == Some(p),
        dec_htss_nonce(b) matches Some(q) ==> enc_htss_nonce(q) == b,
        dec_record(htss_nonce_keys(), htss_nonce_kinds(), b) matches Some(fs) ==> fs.len() == 3 && fs[0] is Num && fs[1] is Text && fs[2] is Bytes,
{
    lemma_first_bytes();
    lemma_keys3(k_participant_id(), k_signing_session_id(), k_public_nonce_bytes());
    assert(field_kinds(htss_nonce_fields(p)) =~= htss_nonce_kinds());
    lemma_record_round_trip(htss_nonce_keys(), htss_nonce_fields(p));
    if dec_record(htss_nonce_keys(), htss_nonce_kinds(), b) is Some {
        lemma_record_sound(htss_nonce_keys(), htss_nonce_kinds(), b);
        let fs = dec_record(htss_nonce_keys(), htss_nonce_kinds(), b).unwrap();
        assert(field_kinds(fs)[0] == FieldKind::Num);
        assert(field_kinds(fs)[1] == FieldKind::Text);
        assert(field_kinds(fs)[2] == FieldKind::Bytes);
        if let Some(q) = dec_htss_nonce(b) {
            assert(htss_nonce_fields(q) =~= fs);
        }
    }
}

impl Payload for HtssNoncePackage {
    open spec fn payload_spec(&self) -> Seq<u8> {
        enc_htss_nonce(self@)
    }

    open spec fn accepts(b: Seq<u8>) -> bool {
        dec_htss_nonce(b) is Some
    }

    fn to_payload(&self) -> (r: Vec<u8>) {
        let keys = key_list3(&k_participant_id_bytes(), &k_signing_session_id_bytes(), &k_public_nonce_bytes_bytes());
        let mut fs = Vec::new();
        fs.push(Field::Num(self.participant_id.0));
        fs.push(Field::Text(self.signing_session_id.0.clone()));
        fs.push(Field::Bytes(self.public_nonce_bytes.clone()));
        let r = encode_record(&keys, &fs);
        assert(field_views(fs@) =~= htss_nonce_fields(self@));
        r
    }

    fn from_payload(bytes: &[u8]) -> (r: Option<Self>) {
        let keys = key_list3(&k_participant_id_bytes(), &k_signing_session_id_bytes(), &k_public_nonce_bytes_bytes());
        let mut kinds = Vec::new();
        kinds.push(FieldKind::Num);
        kinds.push(FieldKind::Text);
        kinds.push(FieldKind::Bytes);
        assert(kinds@ =~= htss_nonce_kinds());
        proof {
            lemma_htss_nonce_codec(HtssNonceView { participant_id: 0, signing_session_id: Seq::empty(), public_nonce_bytes: Seq::empty() }, bytes@);
        }
        let fs = match decode_record(&keys, &kinds, bytes) {
            Some(fs) => fs,
            None => return None,
        };
        if fs.len() != 3 {
            return None;
        }
        match (&fs[0], &fs[1], &fs[2]) {
            (Field::Num(v0), Field::Text(v1), Field::Bytes(v2)) => Some(HtssNoncePackage { participant_id: ParticipantId(*v0), signing_session_id: SessionId(v1.clone()), public_nonce_bytes: v2.clone() }),
            _ => None,
        }
    }
}

/// What `HtssNoncePackage::from_protocol_message` yields for an envelope.
pub open spec fn htss_nonce_from_message(m: MessageView) -> Result<HtssNonceView, ErrorView> {
    match envelope_error(m, KindView::HtssSigningNonce, true) {
        Some(e) => Err(e),
        None => match dec_htss_nonce(m.payload) {
            None => Err(ErrorView::Serialization(msg_bad_payload())),
            Some(p) => if p.participant_id != m.sender {
                Err(ErrorView::Protocol(msg_sender_mismatch("HTSS nonce"@, m.sender, p.participant_id)))
            } else if p.signing_session_id != m.session_id {
                Err(ErrorView::Protocol("HTSS nonce session mismatch"@))
            } else if p.public_nonce_bytes.len() != 33 {
                Err(ErrorView::Protocol(msg_nonce_length(p.participant_id)))
            } else {
                Ok(p)
            },
        },
    }
}

impl HtssNoncePackage {
    /// The envelope carrying this package.
    pub fn to_protocol_message(&self) -> (r: Result<ProtocolMessage, DkgKitError>)
        ensures
            r matches Ok(m) && m@ == envelope(self.signing_session_id@, self.participant_id.0, None, KindView::HtssSigningNonce, enc_htss_nonce(self@)),
    {
        let payload = encode_payload(self)?;
        Ok(ProtocolMessage::broadcast(self.signing_session_id.clone(), self.participant_id, ProtocolMessageKind::HtssSigningNonce, payload))
    }

    /// Reads the package from its envelope, checking that the envelope agrees with it.
    pub fn from_protocol_message(message: &ProtocolMessage) -> (r: Result<Self, DkgKitError>)
        ensures
            match htss_nonce_from_message(message@) {
                Ok(p) => r matches Ok(x) && x@ == p,
                Err(e) => r matches Err(x) && x@ == e,
            },
    {
        check_envelope(message, ProtocolMessageKind::HtssSigningNonce, true)?;
        let package: HtssNoncePackage = decode_payload(message.payload.as_slice())?;
        proof {
            lemma_htss_nonce_codec(package@, message.payload@);
        }
        if package.participant_id.0 != message.sender.0 {
            return Err(sender_mismatch("HTSS nonce", message.sender.0, package.participant_id.0));
        }
        if !package.signing_session_id.same_as(&message.session_id) {
            return Err(protocol_error("HTSS nonce session mismatch"));
        }
        if package.public_nonce_bytes.len() != 33 {
            return Err(nonce_length_error(package.participant_id.0));
        }
        Ok(package)
    }
}

/// An envelope built from a package gives the package back.
pub proof fn lemma_htss_nonce_message_round_trip(p: HtssNonceView)
    requires
        p.public_nonce_bytes.len() == 33,
    ensures
        htss_nonce_from_message(envelope(p.signing_session_id, p.participant_id, None, KindView::HtssSigningNonce, enc_htss_nonce(p))) == Ok::<HtssNonceView, ErrorView>(p),
{
    lemma_htss_nonce_codec(p, enc_htss_nonce(p));
}

// ---------------------------------------------------------------- HtssSignatureSharePackage
/// A signer's HTSS signature share scalar.
#[derive(Debug, PartialEq, Eq)]
pub struct HtssSignatureSharePackage {
    pub participant_id: ParticipantId,
    pub signing_session_id: SessionId,
    pub signature_share_bytes: [u8; 32],
}

pub struct HtssSignatureShareView {
    pub participant_id: u16,
    pub signing_session_id: Seq<char>,
    pub signature_share_bytes: Seq<u8>,
}

impl View for HtssSignatureSharePackage {
    type V = HtssSignatureShareView;

    open spec fn view(&self) -> HtssSignatureShareView {
        HtssSignatureShareView {
            participant_id: self.participant_id.0,
            signing_session_id: self.signing_session_id@,
            signature_share_bytes: self.signature_share_bytes@,
        }
    }
}

impl Clone for HtssSignatureSharePackage {
    fn clone(&self) -> (res: Self)
        ensures
            res@ == self@,
    {
        HtssSignatureSharePackage {
            participant_id: self.participant_id,
            signing_session_id: self.signing_session_id.clone(),
            signature_share_bytes: self.signature_share_bytes,
        }
    }
}

pub open spec fn htss_sig_share_keys() -> Seq<Seq<u8>> {
    seq![k_participant_id(), k_signing_session_id(), k_signature_share_bytes()]
}

pub open spec fn htss_sig_share_kinds() -> Seq<FieldKind> {
    seq![FieldKind::Num, FieldKind::Text, FieldKind::Bytes]
}

pub open spec fn htss_sig_share_fields(p: HtssSignatureShareView) -> Seq<FieldView> {
    seq![FieldView::Num(p.participant_id), FieldView::Text(p.signing_session_id), FieldView::Bytes(p.signature_share_bytes)]
}

/// The JSON payload of a package.
pub open spec fn enc_htss_sig_share(p: HtssSignatureShareView) -> Seq<u8> {
    enc_record(htss_sig_share_keys(), htss_sig_share_fields(p))
}

/// The package a payload holds, if any.
pub open spec fn dec_htss_sig_share(b: Seq<u8>) -> Option<HtssSignatureShareView> {
    match dec_record(htss_sig_share_keys(), htss_sig_share_kinds(), b) {
        Some(fs) => match (fs[0], fs[1], fs[2]) {
            (FieldView::Num(v0), FieldView::Text(v1), FieldView::Bytes(v2)) => if v2.len() == 32 { Some(HtssSignatureShareView { participant_id: v0, signing_session_id: v1, signature_share_bytes: v2 }) } else { None },
            _ => None,
        },
        None => None,
    }
}

/// Payloads decode to what they were written from, and nothing else decodes.
pub proof fn lemma_htss_sig_share_codec(p: HtssSignatureShareView, b: Seq<u8>)
    requires
        p.signature_share_bytes.len() == 32,

    ensures
        dec_htss_sig_share(enc_htss_sig_share(p)) == Some(p),
        dec_htss_sig_share(b) matches Some(q) ==> enc_htss_sig_share(q) == b,
        dec_record(htss_sig_share_keys(), htss_sig_share_kinds(), b) matches Some(fs) ==> fs.len() == 3 && fs[0] is Num && fs[1] is Text && fs[2] is Bytes,
{
    lemma_first_bytes();
    lemma_keys3(k_participant_id(), k_signing_session_id(), k_signature_share_bytes());
    assert(field_kinds(htss_sig_share_fields(p)) =~= htss_sig_share_kinds());
    lemma_record_round_trip(htss_sig_share_keys(), htss_sig_share_fields(p));
    if dec_record(htss_sig_share_keys(), htss_sig_share_kinds(), b) is Some {
        lemma_record_sound(htss_sig_share_keys(), htss_sig_share_kinds(), b);
        let fs = dec_record(htss_sig_share_keys(), htss_sig_share_kinds(), b).unwrap();
        assert(field_kinds(fs)[0] == FieldKind::Num);
        assert(field_kinds(fs)[1] == FieldKind::Text);
        assert(field_kinds(fs)[2] == FieldKind::Bytes);
        if let Some(q) = dec_htss_sig_share(b) {
            assert(htss_sig_share_fields(q) =~= fs);
        }
    }
}

impl Payload for HtssSignatureSharePackage {
    open spec fn payload_spec(&self) -> Seq<u8> {
        enc_htss_sig_share(self@)
    }

    open spec fn accepts(b: Seq<u8>) -> bool {
        dec_htss_sig_share(b) is Some
    }

    fn to_payload(&self) -> (r: Vec<u8>) {
        let keys = key_list3(&k_participant_id_bytes(), &k_signing_session_id_bytes(), &k_signature_share_bytes_bytes());
        let mut fs = Vec::new();
        fs.push(Field::Num(self.participant_id.0));
        fs.push(Field::Text(self.signing_session_id.0.clone()));
        fs.push(Field::Bytes(vec_of(&self.signature_share_bytes)));
        let r = encode_record(&keys, &fs);
        assert(field_views(fs@) =~= htss_sig_share_fields(self@));
        r
    }

    fn from_payload(bytes: &[u8]) -> (r: Option<Self>) {
        let keys = key_list3(&k_participant_id_bytes(), &k_signing_session_id_bytes(), &k_signature_share_bytes_bytes());
        let mut kinds = Vec::new();
        kinds.push(FieldKind::Num);
        kinds.push(FieldKind::Text);
        kinds.push(FieldKind::Bytes);
        assert(kinds@ =~= htss_sig_share_kinds());
        proof {
            lemma_htss_sig_share_codec(HtssSignatureShareView { participant_id: 0, signing_session_id: Seq::empty(), signature_share_bytes: Seq::new(32, |i: int| 0u8) }, bytes@);
        }
        let fs = match decode_record(&keys, &kinds, bytes) {
            Some(fs) => fs,
            None => return None,
        };
        if fs.len() != 3 {
            return None;
        }
        match (&fs[0], &fs[1], &fs[2]) {
            (Field::Num(v0), Field::Text(v1), Field::Bytes(v2)) => if v2.len() == 32 {
                Some(HtssSignatureSharePackage { participant_id: ParticipantId(*v0), signing_session_id: SessionId(v1.clone()), signature_share_bytes: bytes32(v2) })
            } else {
                None
            },
            _ => None,
        }
    }
}

/// What `HtssSignatureSharePackage::from_protocol_message` yields for an envelope.
pub open spec fn htss_sig_share_from_message(m: MessageView) -> Result<HtssSignatureShareView, ErrorView> {
    match envelope_error(m, KindView::HtssSignatureShare, true) {
        Some(e) => Err(e),
        None => match dec_htss_sig_share(m.payload) {
            None => Err(ErrorView::Serialization(msg_bad_payload())),
            Some(p) => if p.participant_id != m.sender {
                Err(ErrorView::Protocol(msg_sender_mismatch("HTSS signature share"@, m.sender, p.participant_id)))
            } else if p.signing_session_id != m.session_id {
                Err(ErrorView::Protocol("HTSS signature share session mismatch"@))
            } else {
                Ok(p)
            },
        },
    }
}

impl HtssSignatureSharePackage {
    /// The envelope carrying this package.
    pub fn to_protocol_message(&self) -> (r: Result<ProtocolMessage, DkgKitError>)
        ensures
            r matches Ok(m) && m@ == envelope(self.signing_session_id@, self.participant_id.0, None, KindView::HtssSignatureShare, enc_htss_sig_share(self@)),
    {
        let payload = encode_payload(self)?;
        Ok(ProtocolMessage::broadcast(self.signing_session_id.clone(), self.participant_id, ProtocolMessageKind::HtssSignatureShare, payload))
    }

    /// Reads the package from its envelope, checking that the envelope agrees with it.
    pub fn from_protocol_message(message: &ProtocolMessage) -> (r: Result<Self, DkgKitError>)
        ensures
            match htss_sig_share_from_message(message@) {
                Ok(p) => r matches Ok(x) && x@ == p,
                Err(e) => r matches Err(x) && x@ == e,
            },
    {
        check_envelope(message, ProtocolMessageKind::HtssSignatureShare, true)?;
        let package: HtssSignatureSharePackage = decode_payload(message.payload.as_slice())?;
        proof {
            lemma_htss_sig_share_codec(package@, message.payload@);
        }
        if package.participant_id.0 != message.sender.0 {
            return Err(sender_mismatch("HTSS signature share", message.sender.0, package.participant_id.0));
        }
        if !package.signing_session_id.same_as(&message.session_id) {
            return Err(protocol_error("HTSS signature share session mismatch"));
        }
        Ok(package)
    }
}

/// An envelope built from a package gives the package back.
pub proof fn lemma_htss_sig_share_message_round_trip(p: HtssSignatureShareView)
    requires
        p.signature_share_bytes.len() == 32,
    ensures
        htss_sig_share_from_message(envelope(p.signing_session_id, p.participant_id, None, KindView::HtssSignatureShare, enc_htss_sig_share(p))) == Ok::<HtssSignatureShareView, ErrorView>(p),
{
    lemma_htss_sig_share_codec(p, enc_htss_sig_share(p));
}

} // verus!

//! Mapping between protocol envelopes and Nostr event records, and a local
//! event-queue transport built on that mapping.
use vstd::prelude::*;
use crate::text::{decimal, is_blank, is_blank_text, push_decimal, str_eq};
use crate::transport::{drain_picks, picks_match, reject, select, lemma_select_member, Transport};
use crate::types::{
    kind_from_text, kind_text, opt_id, DkgKitError, ErrorView, KindView, MessageView,
    ParticipantId, ProtocolMessage, ProtocolMessageKind, SessionId,
};
use crate::wire::{dec_message, enc_message, lemma_message_decode_sound, lemma_message_round_trip, string_from_utf8};

verus! {

/// Nostr event kind that carries DKGKit envelopes.
pub const DKGKIT_NOSTR_EVENT_KIND: u64 = 30333;

/// Application tag on every DKGKit Nostr event.
pub const DKGKIT_NOSTR_APP_TAG: &'static str = "dkgkit";

/// A relay-ready event record for one protocol message.
#[derive(Debug, PartialEq, Eq)]
pub struct NostrEnvelopeEvent {
    pub kind: u64,
    pub app: String,
    pub session_id: String,
    pub sender: u16,
    pub recipient: Option<u16>,
    pub message_kind: String,
    pub content: String,
}

/// An event record with its texts taken as character sequences.
pub struct EventView {
    pub kind: u64,
    pub app: Seq<char>,
    pub session_id: Seq<char>,
    pub sender: u16,
    pub recipient: Option<u16>,
    pub message_kind: Seq<char>,
    pub content: Seq<char>,
}

impl View for NostrEnvelopeEvent {
    type V = EventView;

    open spec fn view(&self) -> EventView {
        EventView {
            kind: self.kind,
            app: self.app@,
            session_id: self.session_id@,
            sender: self.sender,
            recipient: self.recipient,
            message_kind: self.message_kind@,
            content: self.content@,
        }
    }
}

impl Clone for NostrEnvelopeEvent {
    fn clone(&self) -> (res: Self)
        ensures
            res@ == self@,
    {
        NostrEnvelopeEvent {
            kind: self.kind,
            app: self.app.clone(),
            session_id: self.session_id.clone(),
            sender: self.sender,
            recipient: self.recipient,
            message_kind: self.message_kind.clone(),
            content: self.content.clone(),
        }
    }
}

/// The event that carries a message: its tags copy the envelope metadata and
/// its content is the JSON wire form, read as UTF-8 text.
pub open spec fn event_of(m: MessageView) -> Option<EventView> {
    let b = enc_message(m);
    if vstd::utf8::valid_utf8(b) {
        Some(
            EventView {
                kind: DKGKIT_NOSTR_EVENT_KIND,
                app: DKGKIT_NOSTR_APP_TAG@,
                session_id: m.session_id,
                sender: m.sender,
                recipient: m.recipient,
                message_kind: kind_text(m.kind),
                content: vstd::utf8::decode_utf8(b),
            },
        )
    } else {
        None
    }
}

pub open spec fn msg_unexpected_kind(kind: u64) -> Seq<char> {
    "unexpected Nostr event kind: expected "@ + decimal(DKGKIT_NOSTR_EVENT_KIND as nat)
        + ", got "@ + decimal(kind as nat)
}

pub open spec fn msg_unexpected_app(app: Seq<char>) -> Seq<char> {
    "unexpected Nostr app tag: expected "@ + DKGKIT_NOSTR_APP_TAG@ + ", got "@ + app
}

/// The metadata error of an event, if any.
pub open spec fn metadata_error(e: EventView) -> Option<ErrorView> {
    if e.kind != DKGKIT_NOSTR_EVENT_KIND {
        Some(ErrorView::Protocol(msg_unexpected_kind(e.kind)))
    } else if e.app != DKGKIT_NOSTR_APP_TAG@ {
        Some(ErrorView::Protocol(msg_unexpected_app(e.app)))
    } else if is_blank_text(e.session_id) {
        Some(ErrorView::EmptySessionId)
    } else if e.sender == 0 {
        Some(ErrorView::InvalidParticipantId(0))
    } else if e.recipient == Some(0u16) {
        Some(ErrorView::InvalidParticipantId(0))
    } else if kind_from_text(e.message_kind) is Custom && is_blank_text(e.message_kind) {
        Some(ErrorView::EmptyMessageKind)
    } else {
        None
    }
}

pub open spec fn msg_session_mismatch() -> Seq<char> {
    "Nostr event session tag does not match message content"@
}

pub open spec fn msg_sender_mismatch() -> Seq<char> {
    "Nostr event sender tag does not match message content"@
}

pub open spec fn msg_recipient_mismatch() -> Seq<char> {
    "Nostr event recipient tag does not match message content"@
}

pub open spec fn msg_kind_mismatch() -> Seq<char> {
    "Nostr event kind tag does not match message content"@
}

pub open spec fn msg_bad_encoding() -> Seq<char> {
    "invalid protocol message encoding"@
}

/// What `to_protocol_message` yields for an event.
#[verifier::opaque]
pub open spec fn event_to_message(e: EventView) -> Result<MessageView, ErrorView> {
    match metadata_error(e) {
        Some(err) => Err(err),
        None => match dec_message(vstd::utf8::encode_utf8(e.content)) {
            None => Err(ErrorView::Serialization(msg_bad_encoding())),
            Some(m) => if m.session_id != e.session_id {
                Err(ErrorView::Protocol(msg_session_mismatch()))
            } else if m.sender != e.sender {
                Err(ErrorView::Protocol(msg_sender_mismatch()))
            } else if m.recipient != e.recipient {
                Err(ErrorView::Protocol(msg_recipient_mismatch()))
            } else if kind_text(m.kind) != e.message_kind {
                Err(ErrorView::Protocol(msg_kind_mismatch()))
            } else {
                Ok(m)
            },
        },
    }
}

/// A message whose envelope metadata is valid (non-blank session, non-zero
/// sender and recipient, no blank custom kind).
pub open spec fn metadata_valid(m: MessageView) -> bool {
    &&& !is_blank_text(m.session_id)
    &&& m.sender != 0
    &&& m.recipient != Some(0u16)
    &&& !(kind_from_text(kind_text(m.kind)) is Custom && is_blank_text(kind_text(m.kind)))
}

/// Every message can be carried in an event, and reading the event back
/// gives the message itself, for every message with valid metadata.
pub proof fn lemma_envelope_round_trip(m: MessageView)
    requires
        metadata_valid(m),
    ensures
        event_of(m) is Some,
        event_to_message(event_of(m)->0) == Ok::<MessageView, ErrorView>(m),
{
    crate::wire::lemma_wire_is_utf8(m);
    reveal(event_to_message);
    vstd::utf8::decode_utf8_encode_utf8(enc_message(m));
    lemma_message_round_trip(m);
}

/// The tag list of an event.
pub open spec fn event_tags(e: EventView) -> Seq<Seq<Seq<char>>> {
    let base = seq![
        seq!["app"@, e.app],
        seq!["session"@, e.session_id],
        seq!["sender"@, decimal(e.sender as nat)],
        seq!["message_kind"@, e.message_kind],
    ];
    match e.recipient {
        Some(r) => base.push(seq!["recipient"@, decimal(r as nat)]),
        None => base,
    }
}

/// The views of a list of string lists.
pub open spec fn tag_views(t: Seq<Vec<String>>) -> Seq<Seq<Seq<char>>> {
    t.map_values(|row: Vec<String>| row@.map_values(|x: String| x@))
}

fn owned(s: &str) -> (r: String)
    ensures
        r@ == s@,
{
    String::from_str(s)
}

fn decimal_string(n: u64) -> (r: String)
    ensures
        r@ == decimal(n as nat),
{
    let mut s = String::new();
    push_decimal(&mut s, n);
    s
}

fn pair(a: String, b: String) -> (r: Vec<String>)
    ensures
        r@.map_values(|x: String| x@) == seq![a@, b@],
{
    let mut v = Vec::new();
    v.push(a);
    v.push(b);
    assert(v@.map_values(|x: String| x@) =~= seq![a@, b@]);
    v
}

impl NostrEnvelopeEvent {
    /// The event that carries `message`; every message has one, since its
    /// wire form is always UTF-8 text.
    pub fn from_protocol_message(message: &ProtocolMessage) -> (r: Result<
        NostrEnvelopeEvent,
        DkgKitError,
    >)
        ensures
            r is Ok,
            match event_of(message@) {
                Some(e) => r matches Ok(x) && x@ == e,
                None => r matches Err(DkgKitError::Serialization(_)),
            },
    {
        proof {
            crate::wire::lemma_wire_is_utf8(message@);
        }
        let bytes = match message.encode_json() {
            Ok(b) => b,
            Err(e) => return Err(e),
        };
        let content = match string_from_utf8(bytes) {
            Some(c) => c,
            None => {
                return Err(
                    DkgKitError::Serialization(String::from_str("content is not valid UTF-8")),
                )
            },
        };
        Ok(
            NostrEnvelopeEvent {
                kind: DKGKIT_NOSTR_EVENT_KIND,
                app: owned(DKGKIT_NOSTR_APP_TAG),
                session_id: message.session_id.0.clone(),
                sender: message.sender.0,
                recipient: match message.recipient {
                    Some(r) => Some(r.0),
                    None => None,
                },
                message_kind: owned(message.kind.as_str()),
                content,
            },
        )
    }

    /// Checks the metadata, decodes the content, and checks that the tags
    /// agree with the decoded message.
    pub fn to_protocol_message(&self) -> (r: Result<ProtocolMessage, DkgKitError>)
        ensures
            match event_to_message(self@) {
                Ok(m) => r matches Ok(x) && x@ == m,
                Err(e) => r matches Err(x) && x@ == e,
            },
    {
        reveal(event_to_message);
        self.validate_metadata()?;
        let message = match ProtocolMessage::decode_json(self.content.as_str().as_bytes()) {
            Ok(m) => m,
            Err(_) => {
                return Err(
                    DkgKitError::Serialization(String::from_str("invalid protocol message encoding")),
                )
            },
        };
        if !str_eq(message.session_id.0.as_str(), self.session_id.as_str()) {
            return Err(
                DkgKitError::Protocol(
                    String::from_str("Nostr event session tag does not match message content"),
                ),
            );
        }
        if message.sender.0 != self.sender {
            return Err(
                DkgKitError::Protocol(
                    String::from_str("Nostr event sender tag does not match message content"),
                ),
            );
        }
        let rc = match message.recipient {
            Some(p) => Some(p.0),
            None => None,
        };
        if rc != self.recipient {
            return Err(
                DkgKitError::Protocol(
                    String::from_str("Nostr event recipient tag does not match message content"),
                ),
            );
        }
        if !str_eq(message.kind.as_str(), self.message_kind.as_str()) {
            return Err(
                DkgKitError::Protocol(
                    String::from_str("Nostr event kind tag does not match message content"),
                ),
            );
        }
        Ok(message)
    }

    /// The relay tags: app, session, sender, message kind, and the recipient
    /// for direct messages.
    pub fn tags(&self) -> (r: Vec<Vec<String>>)
        ensures
            tag_views(r@) == event_tags(self@),
    {
        let mut tags: Vec<Vec<String>> = Vec::new();
        tags.push(pair(owned("app"), self.app.clone()));
        tags.push(pair(owned("session"), self.session_id.clone()));
        tags.push(pair(owned("sender"), decimal_string(self.sender as u64)));
        tags.push(pair(owned("message_kind"), self.message_kind.clone()));
        if let Some(recipient) = self.recipient {
            tags.push(pair(owned("recipient"), decimal_string(recipient as u64)));
        }
        assert(tag_views(tags@) =~= event_tags(self@));
        tags
    }

    fn validate_metadata(&self) -> (r: Result<(), DkgKitError>)
        ensures
            match metadata_error(self@) {
                Some(e) => r matches Err(x) && x@ == e,
                None => r is Ok,
            },
    {
        if self.kind != DKGKIT_NOSTR_EVENT_KIND {
            let mut msg = String::new();
            msg.append("unexpected Nostr event kind: expected ");
            push_decimal(&mut msg, DKGKIT_NOSTR_EVENT_KIND);
            msg.append(", got ");
            push_decimal(&mut msg, self.kind);
            return Err(DkgKitError::Protocol(msg));
        }
        if !str_eq(self.app.as_str(), DKGKIT_NOSTR_APP_TAG) {
            let mut msg = String::new();
            msg.append("unexpected Nostr app tag: expected ");
            msg.append(DKGKIT_NOSTR_APP_TAG);
            msg.append(", got ");
            msg.append(self.app.as_str());
            return Err(DkgKitError::Protocol(msg));
        }
        SessionId::new(self.session_id.as_str())?;
        ParticipantId::new(self.sender)?;
        if let Some(recipient) = self.recipient {
            ParticipantId::new(recipient)?;
        }
        let parsed = ProtocolMessageKind::from_tag(self.message_kind.as_str());
        if let ProtocolMessageKind::Custom(value) = &parsed {
            if is_blank(value.as_str()) {
                return Err(DkgKitError::EmptyMessageKind);
            }
        }
        Ok(())
    }
}

/// Relays a transport would connect to.
#[derive(Debug, Clone)]
pub struct NostrTransportConfig {
    pub relays: Vec<String>,
}

/// The relay transport; relay I/O is not part of this library, so every
/// operation that would need a relay reports that it is not implemented.
#[derive(Debug, Clone)]
pub struct NostrTransport {
    pub config: NostrTransportConfig,
}

impl NostrTransport {
    pub fn new(config: NostrTransportConfig) -> (r: NostrTransport)
        ensures
            r.config == config,
    {
        NostrTransport { config }
    }
}

impl Transport for NostrTransport {
    open spec fn pending_messages(&self) -> Seq<MessageView> {
        Seq::empty()
    }

    fn connect(&mut self) -> (r: Result<(), DkgKitError>)
        ensures
            r matches Err(e) && e@ == ErrorView::NotImplemented(
                "Nostr relay transport migration"@,
            ),
    {
        Err(DkgKitError::NotImplemented("Nostr relay transport migration"))
    }

    fn disconnect(&mut self) -> (r: Result<(), DkgKitError>)
        ensures
            r is Ok,
    {
        Ok(())
    }

    fn publish(&mut self, message: ProtocolMessage) -> (r: Result<(), DkgKitError>)
        ensures
            r matches Err(e) && e@ == ErrorView::NotImplemented("Nostr publish migration"@),
    {
        Err(DkgKitError::NotImplemented("Nostr publish migration"))
    }

    fn drain_matching<F: Fn(&ProtocolMessage) -> bool>(
        &mut self,
        session_id: &SessionId,
        predicate: &F,
    ) -> (r: Result<Vec<ProtocolMessage>, DkgKitError>)
        ensures
            r matches Err(e) && e@ == ErrorView::NotImplemented(
                "Nostr subscribe/drain migration"@,
            ),
    {
        Err(DkgKitError::NotImplemented("Nostr subscribe/drain migration"))
    }
}

/// The message an event carries: the one whose event it is.
pub open spec fn message_of_event(e: EventView) -> MessageView {
    choose|m: MessageView| event_of(m) == Some(e)
}

/// The messages a sequence of events carries.
pub open spec fn event_messages(s: Seq<NostrEnvelopeEvent>) -> Seq<MessageView> {
    s.map_values(|e: NostrEnvelopeEvent| message_of_event(e@))
}

/// An event that reads back as a message is that message's event.
pub proof fn lemma_event_of_read(e: EventView, m: MessageView)
    requires
        event_to_message(e) == Ok::<MessageView, ErrorView>(m),
    ensures
        event_of(m) == Some(e),
{
    reveal(event_to_message);
    let b = vstd::utf8::encode_utf8(e.content);
    lemma_message_decode_sound(b);
    vstd::utf8::encode_utf8_valid_utf8(e.content);
    vstd::utf8::encode_utf8_decode_utf8(e.content);
}

/// Different messages have different events.
pub proof fn lemma_event_of_injective(a: MessageView, b: MessageView)
    requires
        event_of(a) is Some,
        event_of(a) == event_of(b),
    ensures
        a == b,
{
    vstd::utf8::decode_utf8_encode_utf8(enc_message(a));
    vstd::utf8::decode_utf8_encode_utf8(enc_message(b));
    lemma_message_round_trip(a);
    lemma_message_round_trip(b);
}

/// The message of a message's event is the message.
pub proof fn lemma_message_of_event(m: MessageView)
    requires
        event_of(m) is Some,
    ensures
        message_of_event(event_of(m)->0) == m,
{
    let e = event_of(m)->0;
    let c = message_of_event(e);
    assert(event_of(c) == Some(e));
    lemma_event_of_injective(m, c);
}

/// Selecting events and reading their messages commute.
pub proof fn lemma_select_events(s: Seq<NostrEnvelopeEvent>, picks: Seq<bool>)
    ensures
        event_messages(select(s, picks)) == select(event_messages(s), picks),
        event_messages(reject(s, picks)) == reject(event_messages(s), picks),
    decreases s.len(),
{
    if s.len() > 0 && picks.len() > 0 {
        lemma_select_events(s.drop_last(), picks.drop_last());
        assert(event_messages(s).drop_last() =~= event_messages(s.drop_last()));
        assert(event_messages(select(s.drop_last(), picks.drop_last()).push(s.last()))
            =~= event_messages(select(s.drop_last(), picks.drop_last())).push(message_of_event(s.last()@)));
        assert(event_messages(reject(s.drop_last(), picks.drop_last()).push(s.last()))
            =~= event_messages(reject(s.drop_last(), picks.drop_last())).push(message_of_event(s.last()@)));
    } else {
        assert(event_messages(Seq::<NostrEnvelopeEvent>::empty()) =~= Seq::<MessageView>::empty());
    }
}

/// A drain over events that all read back: its verdicts, the messages it
/// returns and the events it keeps, carried to the messages the events carry.
pub proof fn lemma_drain_events<F: Fn(&ProtocolMessage) -> bool>(
    olds: Seq<NostrEnvelopeEvent>,
    msgs: Seq<ProtocolMessage>,
    session: Seq<char>,
    predicate: F,
    picks: Seq<bool>,
)
    requires
        olds.len() == msgs.len(),
        forall|k: int| 0 <= k < msgs.len() ==> Ok::<MessageView, ErrorView>(#[trigger] msgs[k]@)
            == event_to_message(olds[k]@),
        picks_match(msgs, session, predicate, picks),
    ensures
        drain_picks(event_messages(olds), session, predicate, picks),
        crate::transport::message_views(select(msgs, picks)) == select(event_messages(olds), picks),
        event_messages(reject(olds, picks)) == reject(event_messages(olds), picks),
{
    assert forall|k: int| 0 <= k < olds.len() implies #[trigger] event_messages(olds)[k]
        == crate::transport::message_views(msgs)[k] by {
        assert(Ok::<MessageView, ErrorView>(msgs[k]@) == event_to_message(olds[k]@));
        lemma_event_of_read(olds[k]@, msgs[k]@);
        lemma_message_of_event(msgs[k]@);
    }
    assert(event_messages(olds) =~= crate::transport::message_views(msgs));
    crate::transport::lemma_picks_views(msgs, session, predicate, picks);
    crate::transport::lemma_select_views(msgs, picks);
    lemma_select_events(olds, picks);
}

/// An in-process transport that stores Nostr event records.
#[derive(Debug, Clone)]
pub struct LocalNostrEventTransport {
    connected: bool,
    events: Vec<NostrEnvelopeEvent>,
}

impl LocalNostrEventTransport {
    pub closed spec fn spec_connected(&self) -> bool {
        self.connected
    }

    /// The stored events, oldest first.
    pub closed spec fn event_seq(&self) -> Seq<NostrEnvelopeEvent> {
        self.events@
    }

    /// A disconnected transport with no events.
    pub fn new() -> (r: LocalNostrEventTransport)
        ensures
            !r.spec_connected(),
            r.event_seq() == Seq::<NostrEnvelopeEvent>::empty(),
    {
        LocalNostrEventTransport { connected: false, events: Vec::new() }
    }

    pub fn events(&self) -> (r: &[NostrEnvelopeEvent])
        ensures
            r@ == self.event_seq(),
    {
        self.events.as_slice()
    }

    pub fn pending_len(&self) -> (r: usize)
        ensures
            r == self.event_seq().len(),
    {
        self.events.len()
    }
}

impl Default for LocalNostrEventTransport {
    fn default() -> (r: LocalNostrEventTransport)
        ensures
            !r.spec_connected(),
            r.event_seq() == Seq::<NostrEnvelopeEvent>::empty(),
    {
        LocalNostrEventTransport::new()
    }
}

impl Transport for LocalNostrEventTransport {
    open spec fn pending_messages(&self) -> Seq<MessageView> {
        event_messages(self.event_seq())
    }

    fn connect(&mut self) -> (r: Result<(), DkgKitError>)
        ensures
            r is Ok,
            final(self).spec_connected(),
            final(self).event_seq() == old(self).event_seq(),
    {
        self.connected = true;
        Ok(())
    }

    fn disconnect(&mut self) -> (r: Result<(), DkgKitError>)
        ensures
            r is Ok,
            !final(self).spec_connected(),
            final(self).event_seq() == old(self).event_seq(),
    {
        self.connected = false;
        Ok(())
    }

    fn publish(&mut self, message: ProtocolMessage) -> (r: Result<(), DkgKitError>)
        ensures
            r is Ok,
            final(self).spec_connected() == old(self).spec_connected(),
            match event_of(message@) {
                Some(e) => {
                    &&& r is Ok
                    &&& final(self).event_seq().len() == old(self).event_seq().len() + 1
                    &&& final(self).event_seq().drop_last() == old(self).event_seq()
                    &&& final(self).event_seq().last()@ == e
                },
                None => r matches Err(DkgKitError::Serialization(_)) && final(self).event_seq()
                    == old(self).event_seq(),
            },
    {
        let event = NostrEnvelopeEvent::from_protocol_message(&message)?;
        self.events.push(event);
        assert(self.events@.drop_last() =~= old(self).events@);
        proof {
            lemma_message_of_event(message@);
            assert(event_messages(self.events@) =~= event_messages(old(self).events@).push(message@));
        }
        Ok(())
    }

    fn drain_matching<F: Fn(&ProtocolMessage) -> bool>(
        &mut self,
        session_id: &SessionId,
        predicate: &F,
    ) -> (r: Result<Vec<ProtocolMessage>, DkgKitError>)
        ensures
            final(self).spec_connected() == old(self).spec_connected(),
            r matches Err(e) ==> final(self).event_seq().len() == 0 && exists|j: int|
                0 <= j < old(self).event_seq().len() && event_to_message(
                    old(self).event_seq()[j]@,
                ) == Err::<MessageView, ErrorView>(e@) && forall|k: int|
                    0 <= k < j ==> (event_to_message(#[trigger] old(self).event_seq()[k]@) is Ok),
            r matches Ok(v) ==> (forall|k: int|
                0 <= k < old(self).event_seq().len() ==> (event_to_message(
                    #[trigger] old(self).event_seq()[k]@,
                ) is Ok)) && exists|msgs: Seq<ProtocolMessage>, picks: Seq<bool>|
                msgs.len() == old(self).event_seq().len() && (forall|k: int|
                    0 <= k < msgs.len() ==> Ok::<MessageView, ErrorView>(#[trigger] msgs[k]@)
                        == event_to_message(old(self).event_seq()[k]@)) && picks_match(
                    msgs,
                    session_id@,
                    *predicate,
                    picks,
                ) && v@ == select(msgs, picks) && final(self).event_seq() == reject(
                    old(self).event_seq(),
                    picks,
                ),
    {
        let mut rest: Vec<NostrEnvelopeEvent> = Vec::new();
        std::mem::swap(&mut rest, &mut self.events);
        let ghost olds = rest@;
        let mut drained: Vec<ProtocolMessage> = Vec::new();
        let mut kept: Vec<NostrEnvelopeEvent> = Vec::new();
        let ghost mut picks: Seq<bool> = Seq::empty();
        let ghost mut msgs: Seq<ProtocolMessage> = Seq::empty();
        let n = rest.len();
        let mut i: usize = 0;
        while i < n
            invariant
                n == olds.len(),
                olds == old(self).event_seq(),
                i <= n,
                rest@ == olds.skip(i as int),
                self.events@.len() == 0,
                self.connected == old(self).connected,
                picks.len() == i,
                msgs.len() == i,
                forall|k: int|
                    0 <= k < i ==> Ok::<MessageView, ErrorView>(#[trigger] msgs[k]@)
                        == event_to_message(olds[k]@),
                forall|m: &ProtocolMessage| call_requires(*predicate, (m,)),
                forall|k: int|
                    0 <= k < i ==> (#[trigger] picks[k] ==> msgs[k].session_id@ == session_id@
                        && call_ensures(*predicate, (&msgs[k],), true)),
                forall|k: int|
                    0 <= k < i ==> (!#[trigger] picks[k] ==> (msgs[k].session_id@ != session_id@
                        || call_ensures(*predicate, (&msgs[k],), false))),
                drained@ == select(msgs, picks),
                kept@ == reject(olds.take(i as int), picks),
            decreases n - i,
        {
            assert(rest@[0] == olds[i as int]);
            let event = rest.remove(0);
            proof {
                assert(olds.skip(i as int).remove(0) =~= olds.skip(i + 1));
            }
            let message = match event.to_protocol_message() {
                Ok(m) => m,
                Err(e) => {
                    proof {
                        assert forall|k: int| 0 <= k < i implies (event_to_message(
                            #[trigger] olds[k]@,
                        ) is Ok) by {
                            assert(Ok::<MessageView, ErrorView>(msgs[k]@) == event_to_message(
                                olds[k]@,
                            ));
                        }
                        assert(olds == old(self).event_seq());
                        assert(event_to_message(olds[i as int]@) == Err::<MessageView, ErrorView>(
                            e@,
                        ));
                    }
                    return Err(e);
                },
            };
            let take = if message.session_id.same_as(session_id) {
                predicate(&message)
            } else {
                false
            };
            let ghost prev = picks;
            let ghost prev_msgs = msgs;
            proof {
                picks = picks.push(take);
                msgs = msgs.push(message);
                assert(picks.drop_last() =~= prev);
                assert(msgs.drop_last() =~= prev_msgs);
                assert(olds.take(i + 1).drop_last() =~= olds.take(i as int));
                assert(olds.take(i + 1).last() == event);
            }
            if take {
                drained.push(message);
            } else {
                kept.push(event);
            }
            i += 1;
        }
        self.events = kept;
        proof {
            assert(olds.take(n as int) =~= olds);
            assert(olds == old(self).event_seq());
            assert forall|k: int| 0 <= k < olds.len() implies (event_to_message(
                #[trigger] olds[k]@,
            ) is Ok) by {
                assert(Ok::<MessageView, ErrorView>(msgs[k]@) == event_to_message(olds[k]@));
            }
            assert(picks_match(msgs, session_id@, *predicate, picks));
            assert forall|k: int| 0 <= k < drained@.len() implies (#[trigger] drained@[k]).session_id@
                == session_id@ && call_ensures(*predicate, (&drained@[k],), true) by {
                lemma_select_member(msgs, picks, k);
            }
            lemma_drain_events(olds, msgs, session_id@, *predicate, picks);
            assert(old(self).pending_messages() == event_messages(olds));
            assert(self.events@ == reject(olds, picks));
            assert(self.pending_messages() == reject(old(self).pending_messages(), picks));
            assert(drain_picks(old(self).pending_messages(), session_id@, *predicate, picks));
            assert(crate::transport::message_views(drained@) == select(old(self).pending_messages(), picks));
        }
        Ok(drained)
    }
}

/// Placeholder for the live relay participant directory.
pub struct ParticipantDirectory;

/// Placeholder for the live relay transport settings.
pub struct LiveNostrTransportConfig;

/// Placeholder for the live relay transport.
pub struct LiveNostrTransport;

} // verus!

//! Transports move protocol messages; they never interpret them.
use vstd::prelude::*;
use crate::types::{DkgKitError, MessageView, ProtocolMessage, SessionId};

verus! {

/// The items of `s` at the positions where `picks` holds, in order.
pub open spec fn select<T>(s: Seq<T>, picks: Seq<bool>) -> Seq<T>
    decreases s.len(),
{
    if s.len() == 0 || picks.len() == 0 {
        Seq::empty()
    } else if picks.last() {
        select(s.drop_last(), picks.drop_last()).push(s.last())
    } else {
        select(s.drop_last(), picks.drop_last())
    }
}

/// The items of `s` at the positions where `picks` fails, in order.
pub open spec fn reject<T>(s: Seq<T>, picks: Seq<bool>) -> Seq<T>
    decreases s.len(),
{
    if s.len() == 0 || picks.len() == 0 {
        Seq::empty()
    } else if picks.last() {
        reject(s.drop_last(), picks.drop_last())
    } else {
        reject(s.drop_last(), picks.drop_last()).push(s.last())
    }
}

/// The views of a sequence of messages.
pub open spec fn message_views(s: Seq<ProtocolMessage>) -> Seq<MessageView> {
    s.map_values(|m: ProtocolMessage| m@)
}

/// `picks[i]` records the verdict on `msgs[i]`: picked messages are in the
/// session and were accepted by the predicate; every other message is outside
/// the session or was refused by it.
pub open spec fn picks_match<F: Fn(&ProtocolMessage) -> bool>(
    msgs: Seq<ProtocolMessage>,
    session: Seq<char>,
    predicate: F,
    picks: Seq<bool>,
) -> bool {
    &&& picks.len() == msgs.len()
    &&& forall|i: int|
        0 <= i < msgs.len() ==> (#[trigger] picks[i] ==> msgs[i].session_id@ == session
            && call_ensures(predicate, (&msgs[i],), true))
    &&& forall|i: int|
        0 <= i < msgs.len() ==> (!#[trigger] picks[i] ==> (msgs[i].session_id@ != session
            || call_ensures(predicate, (&msgs[i],), false)))
}

/// Every selected item sits at a picked position.
pub proof fn lemma_select_member<T>(s: Seq<T>, picks: Seq<bool>, i: int)
    requires
        picks.len() == s.len(),
        0 <= i < select(s, picks).len(),
    ensures
        exists|k: int| 0 <= k < s.len() && picks[k] && s[k] == select(s, picks)[i],
    decreases s.len(),
{
    let t = select(s.drop_last(), picks.drop_last());
    if picks.last() && i == t.len() {
        assert(picks[s.len() - 1] && s[s.len() - 1] == select(s, picks)[i]);
    } else {
        lemma_select_member(s.drop_last(), picks.drop_last(), i);
        let k = choose|k: int|
            0 <= k < s.drop_last().len() && picks.drop_last()[k] && s.drop_last()[k] == t[i];
        assert(picks[k] && s[k] == select(s, picks)[i]);
    }
}

/// Selecting and viewing commute.
pub proof fn lemma_select_views(s: Seq<ProtocolMessage>, picks: Seq<bool>)
    ensures
        message_views(select(s, picks)) == select(message_views(s), picks),
        message_views(reject(s, picks)) == reject(message_views(s), picks),
    decreases s.len(),
{
    if s.len() > 0 && picks.len() > 0 {
        lemma_select_views(s.drop_last(), picks.drop_last());
        assert(message_views(s).drop_last() =~= message_views(s.drop_last()));
        assert(message_views(select(s.drop_last(), picks.drop_last()).push(s.last()))
            =~= message_views(select(s.drop_last(), picks.drop_last())).push(s.last()@));
        assert(message_views(reject(s.drop_last(), picks.drop_last()).push(s.last()))
            =~= message_views(reject(s.drop_last(), picks.drop_last())).push(s.last()@));
    } else {
        assert(message_views(Seq::<ProtocolMessage>::empty()) =~= Seq::<MessageView>::empty());
    }
}

/// Draining neither loses nor duplicates a message: what is taken and what
/// stays pending are, together, exactly what was pending before.
pub proof fn lemma_drain_partitions<T>(s: Seq<T>, picks: Seq<bool>)
    requires
        picks.len() == s.len(),
    ensures
        select(s, picks).to_multiset().add(reject(s, picks).to_multiset()) == s.to_multiset(),
    decreases s.len(),
{
    broadcast use vstd::seq_lib::group_to_multiset_ensures, vstd::multiset::group_multiset_axioms;

    if s.len() > 0 {
        lemma_drain_partitions(s.drop_last(), picks.drop_last());
        assert(s.drop_last().push(s.last()) =~= s);
        assert(select(s, picks).to_multiset().add(reject(s, picks).to_multiset())
            =~= select(s.drop_last(), picks.drop_last()).to_multiset().add(
            reject(s.drop_last(), picks.drop_last()).to_multiset(),
        ).insert(s.last()));
    } else {
        assert(select(s, picks).to_multiset().add(reject(s, picks).to_multiset())
            =~= s.to_multiset());
    }
}

/// A pending message that is not picked stays pending.
pub proof fn lemma_unpicked_stays<T>(s: Seq<T>, picks: Seq<bool>, i: int)
    requires
        picks.len() == s.len(),
        0 <= i < s.len(),
        !picks[i],
    ensures
        reject(s, picks).contains(s[i]),
    decreases s.len(),
{
    let t = reject(s.drop_last(), picks.drop_last());
    if i == s.len() - 1 {
        assert(reject(s, picks) == t.push(s.last()));
        assert(reject(s, picks)[t.len() as int] == s[i]);
    } else {
        lemma_unpicked_stays(s.drop_last(), picks.drop_last(), i);
        let k = choose|k: int| 0 <= k < t.len() && t[k] == s.drop_last()[i];
        if picks.last() {
            assert(reject(s, picks)[k] == s[i]);
        } else {
            assert(reject(s, picks)[k] == s[i]);
        }
    }
}

/// A pending message that is outside the drained session, or that the
/// predicate refuses on every run, is still pending after the drain.
pub proof fn lemma_refused_stays_pending<F: Fn(&ProtocolMessage) -> bool>(
    msgs: Seq<ProtocolMessage>,
    session: Seq<char>,
    predicate: F,
    picks: Seq<bool>,
    i: int,
)
    requires
        picks_match(msgs, session, predicate, picks),
        0 <= i < msgs.len(),
        msgs[i].session_id@ != session || forall|b: bool|
            #[trigger] call_ensures(predicate, (&msgs[i],), b) ==> !b,
    ensures
        reject(msgs, picks).contains(msgs[i]),
{
    if picks[i] {
        assert(call_ensures(predicate, (&msgs[i],), true));
    }
    lemma_unpicked_stays(msgs, picks, i);
}

/// `picks[i]` records the verdict of a drain on the pending message
/// `pending[i]`: a picked message is of the session and accepted by the
/// predicate (on some message with that view); any other message is of
/// another session or refused by the predicate.
pub open spec fn drain_picks<F: Fn(&ProtocolMessage) -> bool>(
    pending: Seq<MessageView>,
    session: Seq<char>,
    predicate: F,
    picks: Seq<bool>,
) -> bool {
    &&& picks.len() == pending.len()
    &&& forall|i: int| 0 <= i < pending.len() ==> (#[trigger] picks[i] ==> pending[i].session_id == session
        && exists|m: ProtocolMessage| m@ == pending[i] && call_ensures(predicate, (&m,), true))
    &&& forall|i: int| 0 <= i < pending.len() ==> (!#[trigger] picks[i] ==> (pending[i].session_id != session
        || exists|m: ProtocolMessage| m@ == pending[i] && call_ensures(predicate, (&m,), false)))
}

/// The pending messages of a session.
pub open spec fn in_session(session: Seq<char>) -> spec_fn(MessageView) -> bool {
    |m: MessageView| m.session_id == session
}

/// The pending messages of other sessions.
pub open spec fn off_session(session: Seq<char>) -> spec_fn(MessageView) -> bool {
    |m: MessageView| m.session_id != session
}

/// Selecting by a verdict that is a predicate of each item is filtering by
/// it, and rejecting is filtering by its negation.
pub proof fn lemma_select_filter<T>(s: Seq<T>, picks: Seq<bool>, p: spec_fn(T) -> bool, q: spec_fn(T) -> bool)
    requires
        picks.len() == s.len(),
        forall|i: int| 0 <= i < s.len() ==> #[trigger] picks[i] == p(s[i]),
        forall|x: T| #[trigger] q(x) == !p(x),
    ensures
        select(s, picks) == s.filter(p),
        reject(s, picks) == s.filter(q),
    decreases s.len(),
{
    reveal_with_fuel(Seq::filter, 1);
    if s.len() > 0 {
        lemma_select_filter(s.drop_last(), picks.drop_last(), p, q);
        assert(picks.last() == p(s.last()));
    } else {
        assert(s.filter(p) =~= Seq::<T>::empty());
        assert(s.filter(q) =~= Seq::<T>::empty());
    }
}

/// Selecting and mapping commute.
pub proof fn lemma_select_map<A, B>(s: Seq<A>, picks: Seq<bool>, f: spec_fn(A) -> B)
    ensures
        select(s, picks).map_values(f) == select(s.map_values(f), picks),
        reject(s, picks).map_values(f) == reject(s.map_values(f), picks),
    decreases s.len(),
{
    if s.len() > 0 && picks.len() > 0 {
        lemma_select_map(s.drop_last(), picks.drop_last(), f);
        assert(s.map_values(f).drop_last() =~= s.drop_last().map_values(f));
        assert(select(s.drop_last(), picks.drop_last()).push(s.last()).map_values(f)
            =~= select(s.drop_last(), picks.drop_last()).map_values(f).push(f(s.last())));
        assert(reject(s.drop_last(), picks.drop_last()).push(s.last()).map_values(f)
            =~= reject(s.drop_last(), picks.drop_last()).map_values(f).push(f(s.last())));
    } else {
        assert(Seq::<A>::empty().map_values(f) =~= Seq::<B>::empty());
    }
}

/// The verdicts of a drain over real messages, carried to their views.
pub proof fn lemma_picks_views<F: Fn(&ProtocolMessage) -> bool>(
    msgs: Seq<ProtocolMessage>,
    session: Seq<char>,
    predicate: F,
    picks: Seq<bool>,
)
    requires
        picks_match(msgs, session, predicate, picks),
    ensures
        drain_picks(message_views(msgs), session, predicate, picks),
{
    let views = message_views(msgs);
    assert forall|i: int| 0 <= i < views.len() implies (#[trigger] picks[i] ==> views[i].session_id == session
        && exists|m: ProtocolMessage| m@ == views[i] && call_ensures(predicate, (&m,), true)) by {
        if picks[i] {
            assert(msgs[i]@ == views[i]);
        }
    }
    assert forall|i: int| 0 <= i < views.len() implies (!#[trigger] picks[i] ==> (views[i].session_id != session
        || exists|m: ProtocolMessage| m@ == views[i] && call_ensures(predicate, (&m,), false))) by {
        assert(msgs[i]@ == views[i]);
    }
}

/// Moves serialized protocol messages between participants.
///
/// A transport holds pending messages, oldest first: a publication that
/// succeeds appends its message, and a drain that succeeds removes and
/// returns, in order, exactly the pending messages of the session that the
/// predicate accepts, leaving the others pending in order.
pub trait Transport {
    /// The messages published and not yet drained, oldest first.
    spec fn pending_messages(&self) -> Seq<MessageView>;

    fn connect(&mut self) -> (r: Result<(), DkgKitError>);

    fn disconnect(&mut self) -> (r: Result<(), DkgKitError>);

    fn publish(&mut self, message: ProtocolMessage) -> (r: Result<(), DkgKitError>)
        ensures
            r is Ok ==> final(self).pending_messages() == old(self).pending_messages().push(message@),
    ;

    /// Removes and returns the pending messages of `session_id` that the
    /// predicate accepts.
    fn drain_matching<F: Fn(&ProtocolMessage) -> bool>(
        &mut self,
        session_id: &SessionId,
        predicate: &F,
    ) -> (r: Result<Vec<ProtocolMessage>, DkgKitError>)
        requires
            forall|m: &ProtocolMessage| call_requires(*predicate, (m,)),
        ensures
            r matches Ok(v) ==> forall|i: int|
                0 <= i < v@.len() ==> (#[trigger] v@[i]).session_id@ == session_id@
                    && call_ensures(*predicate, (&v@[i],), true),
            r matches Ok(v) ==> exists|picks: Seq<bool>| #[trigger] drain_picks(
                old(self).pending_messages(), session_id@, *predicate, picks)
                && message_views(v@) == select(old(self).pending_messages(), picks)
                && final(self).pending_messages() == reject(old(self).pending_messages(), picks),
    ;

    /// Removes and returns every pending message of `session_id`.
    fn drain_session(&mut self, session_id: &SessionId) -> (r: Result<
        Vec<ProtocolMessage>,
        DkgKitError,
    >)
        ensures
            r matches Ok(v) ==> forall|i: int|
                0 <= i < v@.len() ==> (#[trigger] v@[i]).session_id@ == session_id@,
            r matches Ok(v) ==> message_views(v@) == old(self).pending_messages().filter(in_session(session_id@))
                && final(self).pending_messages() == old(self).pending_messages().filter(off_session(session_id@)),
    {
        let all = |_message: &ProtocolMessage| -> (b: bool)
            ensures
                b,
            { true };
        let r = self.drain_matching(session_id, &all);
        proof {
            if r is Ok {
                let picks = choose|picks: Seq<bool>| #[trigger] drain_picks(
                    old(self).pending_messages(), session_id@, all, picks)
                    && message_views(r->Ok_0@) == select(old(self).pending_messages(), picks)
                    && final(self).pending_messages() == reject(old(self).pending_messages(), picks);
                let s = old(self).pending_messages();
                assert forall|i: int| 0 <= i < s.len() implies #[trigger] picks[i] == in_session(session_id@)(s[i]) by {
                    if !picks[i] && s[i].session_id == session_id@ {
                        let m = choose|m: ProtocolMessage| m@ == s[i] && call_ensures(all, (&m,), false);
                    }
                }
                assert forall|x: MessageView| #[trigger] off_session(session_id@)(x) == !in_session(session_id@)(x) by {}
                lemma_select_filter(s, picks, in_session(session_id@), off_session(session_id@));
            }
        }
        r
    }
}

/// An in-process transport that queues messages in publication order.
#[derive(Debug)]
pub struct MemoryTransport {
    connected: bool,
    messages: Vec<ProtocolMessage>,
}

impl MemoryTransport {
    /// Whether the transport is connected.
    pub closed spec fn spec_connected(&self) -> bool {
        self.connected
    }

    /// The pending messages themselves, oldest first.
    pub closed spec fn queue(&self) -> Seq<ProtocolMessage> {
        self.messages@
    }

    /// The pending messages, oldest first.
    pub closed spec fn pending(&self) -> Seq<MessageView> {
        message_views(self.messages@)
    }

    /// A disconnected transport with nothing pending.
    pub fn new() -> (r: MemoryTransport)
        ensures
            !r.spec_connected(),
            r.pending() == Seq::<MessageView>::empty(),
    {
        let r = MemoryTransport { connected: false, messages: Vec::new() };
        assert(r.pending() =~= Seq::<MessageView>::empty());
        r
    }

    pub fn is_connected(&self) -> (r: bool)
        ensures
            r == self.spec_connected(),
    {
        self.connected
    }

    pub fn pending_len(&self) -> (r: usize)
        ensures
            r == self.pending().len(),
    {
        self.messages.len()
    }

    /// Copies of the pending messages of one session, oldest first.
    pub fn peek_session(&self, session_id: &SessionId) -> (r: Vec<ProtocolMessage>)
        ensures
            message_views(r@) == self.pending().filter(
                |m: MessageView| m.session_id == session_id@,
            ),
    {
        let mut out: Vec<ProtocolMessage> = Vec::new();
        let mut i: usize = 0;
        let ghost all = message_views(self.messages@);
        let ghost f = |m: MessageView| m.session_id == session_id@;
        while i < self.messages.len()
            invariant
                i <= self.messages.len(),
                all == message_views(self.messages@),
                f == (|m: MessageView| m.session_id == session_id@),
                message_views(out@) == all.take(i as int).filter(f),
            decreases self.messages.len() - i,
        {
            proof {
                reveal_with_fuel(Seq::filter, 1);
                assert(all.take(i + 1).drop_last() =~= all.take(i as int));
            }
            if self.messages[i].session_id.same_as(session_id) {
                let c = self.messages[i].clone();
                out.push(c);
                assert(message_views(out@) =~= message_views(out@.drop_last()).push(c@));
            }
            i += 1;
        }
        assert(all.take(self.messages.len() as int) =~= all);
        out
    }
}

impl Default for MemoryTransport {
    fn default() -> (r: MemoryTransport)
        ensures
            !r.spec_connected(),
            r.pending() == Seq::<MessageView>::empty(),
    {
        MemoryTransport::new()
    }
}

impl Transport for MemoryTransport {
    open spec fn pending_messages(&self) -> Seq<MessageView> {
        self.pending()
    }

    fn connect(&mut self) -> (r: Result<(), DkgKitError>)
        ensures
            r is Ok,
            final(self).spec_connected(),
            final(self).pending() == old(self).pending(),
    {
        self.connected = true;
        Ok(())
    }

    fn disconnect(&mut self) -> (r: Result<(), DkgKitError>)
        ensures
            r is Ok,
            !final(self).spec_connected(),
            final(self).pending() == old(self).pending(),
    {
        self.connected = false;
        Ok(())
    }

    fn publish(&mut self, message: ProtocolMessage) -> (r: Result<(), DkgKitError>)
        ensures
            r is Ok,
            final(self).spec_connected() == old(self).spec_connected(),
            final(self).pending() == old(self).pending().push(message@),
    {
        self.messages.push(message);
        assert(message_views(self.messages@) =~= message_views(old(self).queue()).push(
            message@,
        ));
        Ok(())
    }

    fn drain_matching<F: Fn(&ProtocolMessage) -> bool>(
        &mut self,
        session_id: &SessionId,
        predicate: &F,
    ) -> (r: Result<Vec<ProtocolMessage>, DkgKitError>)
        ensures
            final(self).spec_connected() == old(self).spec_connected(),
            r matches Ok(v) && exists|picks: Seq<bool>|
                picks_match(old(self).queue(), session_id@, *predicate, picks) && v@ == select(
                    old(self).queue(),
                    picks,
                ) && final(self).queue() == reject(old(self).queue(), picks) && message_views(
                    v@,
                ) == select(old(self).pending(), picks) && final(self).pending() == reject(
                    old(self).pending(),
                    picks,
                ),
    {
        let mut rest: Vec<ProtocolMessage> = Vec::new();
        std::mem::swap(&mut rest, &mut self.messages);
        let ghost olds = rest@;
        let mut matched: Vec<ProtocolMessage> = Vec::new();
        let mut kept: Vec<ProtocolMessage> = Vec::new();
        let ghost mut picks: Seq<bool> = Seq::empty();
        let n = rest.len();
        let mut i: usize = 0;
        while i < n
            invariant
                n == olds.len(),
                i <= n,
                rest@ == olds.skip(i as int),
                picks.len() == i,
                forall|m: &ProtocolMessage| call_requires(*predicate, (m,)),
                forall|k: int|
                    0 <= k < i ==> (#[trigger] picks[k] ==> olds[k].session_id@ == session_id@
                        && call_ensures(*predicate, (&olds[k],), true)),
                forall|k: int|
                    0 <= k < i ==> (!#[trigger] picks[k] ==> (olds[k].session_id@ != session_id@
                        || call_ensures(*predicate, (&olds[k],), false))),
                matched@ == select(olds.take(i as int), picks),
                kept@ == reject(olds.take(i as int), picks),
            decreases n - i,
        {
            assert(rest@[0] == olds[i as int]);
            let m = rest.remove(0);
            let take = if m.session_id.same_as(session_id) {
                predicate(&m)
            } else {
                false
            };
            let ghost prev = picks;
            proof {
                picks = picks.push(take);
                assert(picks.drop_last() =~= prev);
                assert(olds.take(i + 1).drop_last() =~= olds.take(i as int));
                assert(olds.take(i + 1).last() == m);
                assert(olds.skip(i as int).remove(0) =~= olds.skip(i + 1));
            }
            if take {
                matched.push(m);
            } else {
                kept.push(m);
            }
            i += 1;
        }
        self.messages = kept;
        proof {
            assert(olds.take(n as int) =~= olds);
            lemma_select_views(olds, picks);
            assert(picks_match(olds, session_id@, *predicate, picks));
            assert forall|k: int| 0 <= k < matched@.len() implies (#[trigger] matched@[k]).session_id@
                == session_id@ && call_ensures(*predicate, (&matched@[k],), true) by {
                lemma_select_member(olds, picks, k);
            }
            assert(olds == old(self).queue());
            assert(message_views(olds) == old(self).pending());
            assert(kept@ == self.queue());
            assert(message_views(matched@) == select(old(self).pending(), picks));
            assert(self.pending() == reject(old(self).pending(), picks));
            lemma_picks_views(olds, session_id@, *predicate, picks);
            assert(old(self).pending_messages() == message_views(olds));
            assert(drain_picks(old(self).pending_messages(), session_id@, *predicate, picks));
            assert(message_views(matched@) == select(old(self).pending_messages(), picks));
            assert(self.pending_messages() == reject(old(self).pending_messages(), picks));
        }
        Ok(matched)
    }

    /// Removes and returns every pending message of `session_id`; this
    /// transport always succeeds.
    fn drain_session(&mut self, session_id: &SessionId) -> (r: Result<Vec<ProtocolMessage>, DkgKitError>)
        ensures
            r is Ok,
            final(self).spec_connected() == old(self).spec_connected(),
    {
        let all = |_message: &ProtocolMessage| -> (b: bool)
            ensures
                b,
            { true };
        let r = self.drain_matching(session_id, &all);
        proof {
            let picks = choose|picks: Seq<bool>| #[trigger] drain_picks(
                old(self).pending_messages(), session_id@, all, picks)
                && message_views(r->Ok_0@) == select(old(self).pending_messages(), picks)
                && final(self).pending_messages() == reject(old(self).pending_messages(), picks);
            let s = old(self).pending_messages();
            assert forall|i: int| 0 <= i < s.len() implies #[trigger] picks[i] == in_session(session_id@)(s[i]) by {
                if !picks[i] && s[i].session_id == session_id@ {
                    let m = choose|m: ProtocolMessage| m@ == s[i] && call_ensures(all, (&m,), false);
                }
            }
            assert forall|x: MessageView| #[trigger] off_session(session_id@)(x) == !in_session(session_id@)(x) by {}
            lemma_select_filter(s, picks, in_session(session_id@), off_session(session_id@));
        }
        r
    }
}

} // verus!

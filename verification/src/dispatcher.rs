//! Per-subscription dispatch: the decision a long-running subscription task
//! takes for each observation — a broadcast message to filter and forward, a
//! closed sink, a lagging stream — together with the bookkeeping of the
//! subscription-record map that workflow subscriptions filter through.

use vstd::prelude::*;
use crate::notifier::Message;
use crate::notifier::SubscriptionTyp;
use crate::workflow::Cid;

verus! {

/// The subscription-record map: subscription id to the workflow identifier
/// and run name that subscription filters on. The records live in a
/// concurrent map of the `dashmap` crate, held opaquely; what it holds is
/// named by [`listener_records`], and the wrappers below say how each
/// operation changes that.
#[verifier::external_body]
pub struct WorkflowListeners {
    map: dashmap::DashMap<u64, (Cid, String)>,
}

/// The records the subscription-record map holds, keyed by subscription id:
/// each value is the identifier bytes and name the subscription filters on.
pub uninterp spec fn listener_records(l: WorkflowListeners) -> Map<u64, (Seq<u8>, Seq<char>)>;

/// A record map that holds nothing.
pub open spec fn no_listener_records() -> Map<u64, (Seq<u8>, Seq<char>)> {
    Map::empty()
}

impl WorkflowListeners {
    /// Relies on dashmap's `DashMap::new`: a fresh map holds no record.
    #[verifier::external_body]
    pub fn new() -> (l: WorkflowListeners)
        ensures
            listener_records(l) == no_listener_records(),
    {
        WorkflowListeners { map: dashmap::DashMap::new() }
    }

    /// Relies on dashmap's `DashMap::insert`: the value is recorded under
    /// the key, replacing any earlier record there; nothing else changes.
    #[verifier::external_body]
    pub fn insert(&mut self, id: u64, cid: Cid, name: String)
        ensures
            listener_records(*final(self)) == listener_records(*old(self)).insert(
                id,
                (cid@, name@),
            ),
    {
        self.map.insert(id, (cid, name));
    }

    /// Relies on dashmap's `DashMap::remove`: the record under the key, if
    /// any, is taken out; nothing else changes.
    #[verifier::external_body]
    pub fn remove(&mut self, id: u64)
        ensures
            listener_records(*final(self)) == listener_records(*old(self)).remove(id),
    {
        self.map.remove(&id);
    }

    /// Relies on dashmap's `DashMap::get`: the record under the key, copied
    /// out, or nothing where no record is held.
    #[verifier::external_body]
    pub fn get(&self, id: u64) -> (r: Option<(Cid, String)>)
        ensures
            r matches Some(v) ==> listener_records(*self).dom().contains(id)
                && listener_records(*self)[id] == (v.0@, v.1@),
            r is None ==> !listener_records(*self).dom().contains(id),
    {
        match self.map.get(&id) {
            Some(entry) => {
                let (cid, name) = entry.value();
                Some((Cid { bytes: cid.bytes.clone() }, name.clone()))
            },
            None => None,
        }
    }

    /// Whether this subscription id has a record.
    pub fn contains(&self, id: u64) -> (r: bool)
        ensures
            r == listener_records(*self).dom().contains(id),
    {
        self.get(id).is_some()
    }
}

/// One observation a dispatcher iteration reacts to.
#[derive(Debug, PartialEq, Eq)]
pub enum SubscriptionEvent {
    /// The client closed its side of the sink.
    SinkClosed,
    /// The broadcast stream yielded a message.
    Received(Message),
    /// The broadcast stream reports that this subscriber fell behind the
    /// bus and lost messages.
    Lagged,
    /// The broadcast stream ended.
    StreamEnded,
}

/// What a dispatcher does with one observation.
#[derive(Debug, PartialEq, Eq)]
pub enum DispatcherAction {
    /// Encode this payload as a subscription message and try to send it.
    Forward(Vec<u8>),
    /// Discard the observation and keep the loop running.
    Skip,
    /// Stop the loop normally.
    FinishOk,
    /// Stop the loop with an error.
    FinishErr,
}

/// How trying to send on the client's sink went.
#[derive(Debug, PartialEq, Eq)]
pub enum SinkSendOutcome {
    /// The message was accepted.
    Sent,
    /// The sink's buffer is full; the message was not accepted.
    Full,
    /// The sink is closed.
    Closed,
}

/// Whether the dispatcher loop goes on after a send.
#[derive(Debug, PartialEq, Eq, Structural)]
pub enum LoopDirective {
    /// Keep pulling from the broadcast stream.
    KeepGoing,
    /// Stop the loop with an error.
    StopErr,
}

/// One iteration's decision for an event-class subscription bound to a class
/// string: exactly the messages whose header carries that event class are
/// forwarded; a closed sink and a stream end finish the loop normally; a lag
/// finishes it with an error; everything else is discarded.
pub fn event_step(subscription_type: &String, event: SubscriptionEvent) -> (a: DispatcherAction)
    ensures
        match event {
            SubscriptionEvent::SinkClosed => a == DispatcherAction::FinishOk,
            SubscriptionEvent::Received(m) => (match m.header.subscription {
                SubscriptionTyp::EventSub(e) => if e@ == subscription_type@ {
                    a == DispatcherAction::Forward(m.payload)
                } else {
                    a == DispatcherAction::Skip
                },
                SubscriptionTyp::Cid(_) => a == DispatcherAction::Skip,
            }),
            SubscriptionEvent::Lagged => a == DispatcherAction::FinishErr,
            SubscriptionEvent::StreamEnded => a == DispatcherAction::FinishOk,
        },
        a matches DispatcherAction::Forward(p) ==> (event matches SubscriptionEvent::Received(m)
            && m.header.subscription matches SubscriptionTyp::EventSub(e) && e@
            == subscription_type@ && p == m.payload),
{
    match event {
        SubscriptionEvent::SinkClosed => DispatcherAction::FinishOk,
        SubscriptionEvent::Received(m) => {
            let Message { header, payload } = m;
            match header.subscription {
                SubscriptionTyp::EventSub(e) => {
                    if e == *subscription_type {
                        DispatcherAction::Forward(payload)
                    } else {
                        DispatcherAction::Skip
                    }
                },
                SubscriptionTyp::Cid(_) => DispatcherAction::Skip,
            }
        },
        SubscriptionEvent::Lagged => DispatcherAction::FinishErr,
        SubscriptionEvent::StreamEnded => DispatcherAction::FinishOk,
    }
}

/// One iteration's decision for the workflow subscription with the given
/// subscription id: a message is forwarded exactly when this subscription
/// has a record, the message's header carries that record's identifier, and
/// the header either names no run or names the record's. Every stopping
/// observation — a closed sink, a lagged stream, the stream's end — removes
/// the subscription's record, so no record outlives its dispatcher.
pub fn workflow_step(listeners: &mut WorkflowListeners, id: u64, event: SubscriptionEvent) -> (a:
    DispatcherAction)
    ensures
        match event {
            SubscriptionEvent::SinkClosed => a == DispatcherAction::FinishOk && listener_records(
                *final(listeners),
            ) == listener_records(*old(listeners)).remove(id),
            SubscriptionEvent::Received(m) => listener_records(*final(listeners))
                == listener_records(*old(listeners)) && (match m.header.subscription {
                SubscriptionTyp::Cid(c) => {
                    let recs = listener_records(*old(listeners));
                    if recs.dom().contains(id) && recs[id].0 == c@ && (m.header.ident is None
                        || recs[id].1 == m.header.ident->Some_0@) {
                        a == DispatcherAction::Forward(m.payload)
                    } else {
                        a == DispatcherAction::Skip
                    }
                },
                SubscriptionTyp::EventSub(_) => a == DispatcherAction::Skip,
            }),
            SubscriptionEvent::Lagged => a == DispatcherAction::FinishErr && listener_records(
                *final(listeners),
            ) == listener_records(*old(listeners)).remove(id),
            SubscriptionEvent::StreamEnded => a == DispatcherAction::FinishOk && listener_records(
                *final(listeners),
            ) == listener_records(*old(listeners)).remove(id),
        },
        a matches DispatcherAction::Forward(p) ==> (event matches SubscriptionEvent::Received(m)
            && m.header.subscription matches SubscriptionTyp::Cid(c) && listener_records(
            *old(listeners),
        ).dom().contains(id) && c@ == listener_records(*old(listeners))[id].0 && (m.header.ident
            is None || m.header.ident->Some_0@ == listener_records(*old(listeners))[id].1)),
        a is FinishOk || a is FinishErr ==> !listener_records(*final(listeners)).dom().contains(
            id,
        ),
{
    match event {
        SubscriptionEvent::SinkClosed => {
            listeners.remove(id);
            DispatcherAction::FinishOk
        },
        SubscriptionEvent::Received(m) => {
            let Message { header, payload } = m;
            match header.subscription {
                SubscriptionTyp::Cid(c) => {
                    match listeners.get(id) {
                        Some(rec) => {
                            let cid_matches = rec.0.eq_cid(&c);
                            let ident_matches = match &header.ident {
                                None => true,
                                Some(name) => rec.1 == *name,
                            };
                            if cid_matches && ident_matches {
                                DispatcherAction::Forward(payload)
                            } else {
                                DispatcherAction::Skip
                            }
                        },
                        None => DispatcherAction::Skip,
                    }
                },
                SubscriptionTyp::EventSub(_) => DispatcherAction::Skip,
            }
        },
        SubscriptionEvent::Lagged => {
            listeners.remove(id);
            DispatcherAction::FinishErr
        },
        SubscriptionEvent::StreamEnded => {
            listeners.remove(id);
            DispatcherAction::FinishOk
        },
    }
}

/// The back-pressure policy after trying to send a forwarded message on a
/// workflow subscription's sink: success keeps the loop alive; a full sink
/// drops just that message and keeps the loop alive; a closed sink removes
/// the subscription's record and stops the loop with an error.
pub fn workflow_send_outcome(
    listeners: &mut WorkflowListeners,
    id: u64,
    outcome: SinkSendOutcome,
) -> (d: LoopDirective)
    ensures
        match outcome {
            SinkSendOutcome::Sent => d == LoopDirective::KeepGoing && listener_records(
                *final(listeners),
            ) == listener_records(*old(listeners)),
            SinkSendOutcome::Full => d == LoopDirective::KeepGoing && listener_records(
                *final(listeners),
            ) == listener_records(*old(listeners)),
            SinkSendOutcome::Closed => d == LoopDirective::StopErr && listener_records(
                *final(listeners),
            ) == listener_records(*old(listeners)).remove(id),
        },
        outcome is Closed ==> !listener_records(*final(listeners)).dom().contains(id),
{
    match outcome {
        SinkSendOutcome::Sent => LoopDirective::KeepGoing,
        SinkSendOutcome::Full => LoopDirective::KeepGoing,
        SinkSendOutcome::Closed => {
            listeners.remove(id);
            LoopDirective::StopErr
        },
    }
}

/// The same policy for an event-class subscription, which keeps no record:
/// only a closed sink stops the loop.
pub fn event_send_outcome(outcome: SinkSendOutcome) -> (d: LoopDirective)
    ensures
        d == LoopDirective::StopErr <==> outcome is Closed,
{
    match outcome {
        SinkSendOutcome::Sent => LoopDirective::KeepGoing,
        SinkSendOutcome::Full => LoopDirective::KeepGoing,
        SinkSendOutcome::Closed => LoopDirective::StopErr,
    }
}

} // verus!

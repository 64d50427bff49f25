//! Messages of the in-process broadcast bus: every message carries a header
//! naming the subscription class it addresses — an event class, or a
//! workflow's content identifier with an optional run name — and an opaque
//! payload of encoded bytes.

use vstd::prelude::*;
use crate::workflow::Cid;

verus! {

/// Which class of subscriptions a broadcast message addresses.
#[derive(Debug, PartialEq, Eq)]
pub enum SubscriptionTyp {
    /// An event-class subscription, named by its class string.
    EventSub(String),
    /// The subscribers of the workflow with this content identifier.
    Cid(Cid),
}

/// The mathematical content of a [`SubscriptionTyp`].
pub enum SubscriptionTypModel {
    /// An event-class subscription.
    EventSub(Seq<char>),
    /// A workflow subscription.
    Cid(Seq<u8>),
}

impl View for SubscriptionTyp {
    type V = SubscriptionTypModel;

    open spec fn view(&self) -> SubscriptionTypModel {
        match self {
            SubscriptionTyp::EventSub(s) => SubscriptionTypModel::EventSub(s@),
            SubscriptionTyp::Cid(c) => SubscriptionTypModel::Cid(c@),
        }
    }
}

/// The header a broadcast message carries: its subscription class and,
/// optionally, the name of the workflow run it concerns. An absent name is a
/// broadcast to every subscriber of the class.
#[derive(Debug, PartialEq, Eq)]
pub struct Header {
    /// The subscription class the message addresses.
    pub subscription: SubscriptionTyp,
    /// The workflow run the message concerns, if it names one.
    pub ident: Option<String>,
}

/// The mathematical content of a [`Header`].
pub struct HeaderModel {
    /// The subscription class.
    pub subscription: SubscriptionTypModel,
    /// The named workflow run, if any.
    pub ident: Option<Seq<char>>,
}

impl View for Header {
    type V = HeaderModel;

    open spec fn view(&self) -> HeaderModel {
        HeaderModel {
            subscription: self.subscription@,
            ident: match self.ident {
                Some(s) => Some(s@),
                None => None,
            },
        }
    }
}

/// One message of the bus: a header and an opaque payload of encoded bytes.
#[derive(Debug, PartialEq, Eq)]
pub struct Message {
    /// The header the dispatchers filter on.
    pub header: Header,
    /// The payload handed through untouched.
    pub payload: Vec<u8>,
}

/// The mathematical content of a [`Message`].
pub struct MessageModel {
    /// The header.
    pub header: HeaderModel,
    /// The payload bytes.
    pub payload: Seq<u8>,
}

impl View for Message {
    type V = MessageModel;

    open spec fn view(&self) -> MessageModel {
        MessageModel { header: self.header@, payload: self.payload@ }
    }
}

} // verus!

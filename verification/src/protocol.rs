//! What a connection's actor is told and what it answers: client requests,
//! frames, events, and the actions the transport is to carry out.

use crate::subscriptions::{FeedId, PriceFeedClientConfig};
use vstd::prelude::*;
use vstd::string::StringExecFns;

verus! {

/// Seconds between two firings of a connection's liveness timer.
pub const PING_INTERVAL_SECONDS: u64 = 30;

/// Identifies one connection for the life of the process.
pub type SubscriberId = usize;

/// A request sent by the client.
#[derive(Debug, PartialEq, Eq)]
pub enum ClientMessage {
    Subscribe { ids: Vec<FeedId>, verbose: bool, binary: bool },
    Unsubscribe { ids: Vec<FeedId> },
}

/// The status the server reports after a request.
#[derive(Debug, PartialEq, Eq)]
pub enum ServerResponseMessage {
    Success,
    Failure { error: String },
}

/// A response with its text as a sequence of characters.
pub enum ResponseView {
    Success,
    Failure { error: Seq<char> },
}

impl View for ServerResponseMessage {
    type V = ResponseView;

    open spec fn view(&self) -> ResponseView {
        match self {
            ServerResponseMessage::Success => ResponseView::Success,
            ServerResponseMessage::Failure { error } => ResponseView::Failure { error: error@ },
        }
    }
}

/// The JSON string literal that stands for `text`: the text between double
/// quotes, with the characters that JSON does not take as they are escaped.
pub uninterp spec fn json_string(text: Seq<char>) -> Seq<char>;

/// `serde_json::to_string` of serde_json on a string slice: the JSON string
/// literal for it. Writing a string cannot fail: the function fails only
/// where a value's own serialisation fails or a map has a key that is no
/// string.
#[verifier::external_body]
fn quote_json(text: &str) -> (quoted: Option<String>)
    ensures
        quoted is Some,
        quoted matches Some(literal) ==> literal@ == json_string(text@),
{
    serde_json::to_string(text).ok()
}

/// A response as the JSON text that goes to the client.
pub open spec fn response_json(response: ResponseView) -> Seq<char> {
    match response {
        ResponseView::Success => "{\"type\":\"response\",\"status\":\"ok\"}"@,
        ResponseView::Failure { error } => "{\"type\":\"response\",\"status\":\"error\",\"error\":"@
            + json_string(error) + "}"@,
    }
}

/// A price update as the JSON text that goes to the client, around the
/// rendered feed.
pub open spec fn price_update_json(price_feed: Seq<char>) -> Seq<char> {
    "{\"type\":\"price_update\",\"price_feed\":"@ + price_feed + "}"@
}

impl ServerResponseMessage {
    /// The JSON text of this response.
    pub fn to_json(&self) -> (text: String)
        ensures
            text@ == response_json(self@),
    {
        match self {
            ServerResponseMessage::Success => "{\"type\":\"response\",\"status\":\"ok\"}".to_owned(),
            ServerResponseMessage::Failure { error } => {
                let head = "{\"type\":\"response\",\"status\":\"error\",\"error\":".to_owned();
                match quote_json(error.as_str()) {
                    Some(literal) => head.concat(literal.as_str()).concat("}"),
                    None => head.concat("\"\"}"),
                }
            },
        }
    }
}

/// Wraps a rendered price feed, given as JSON text, into the price update
/// that goes to the client.
pub fn price_update_to_json(price_feed: &str) -> (text: String)
    ensures
        text@ == price_update_json(price_feed@),
{
    "{\"type\":\"price_update\",\"price_feed\":".to_owned().concat(price_feed).concat("}")
}

/// What reading the content of a data frame as a client request gave: the
/// request, or the text that says why it is none.
pub type Payload = Result<ClientMessage, String>;

/// One inbound frame of the transport.
#[derive(Debug, PartialEq, Eq)]
pub enum ClientFrame {
    Text(Payload),
    Binary(Payload),
    Ping,
    Pong,
    Close,
    Other,
}

/// Something that happened to a connection and that its actor has to react to.
#[derive(Debug, PartialEq, Eq)]
pub enum Event {
    /// The registry signalled that new data may be available.
    Notification,
    /// The notification channel was closed.
    NotificationChannelClosed,
    /// The store answered the last request: the feed of each update, in order.
    UpdatesFetched { feed_ids: Vec<FeedId> },
    /// The store could not answer the last request.
    StoreFailed,
    /// The client sent a frame.
    Frame(ClientFrame),
    /// The client's stream ended.
    StreamEnded,
    /// Reading from or writing to the client failed.
    TransportFailed,
    /// The liveness interval elapsed.
    PingTimer,
}

/// What the transport is to do after an event.
#[derive(Debug, PartialEq, Eq)]
pub enum Action {
    /// Nothing.
    Idle,
    /// Ask the store for the latest update of exactly these feeds, then report
    /// `Event::UpdatesFetched` or `Event::StoreFailed`.
    FetchUpdates { ids: Vec<FeedId> },
    /// Push one price update per fetched update, the i-th rendered under the
    /// i-th configuration, and flush once after the last.
    PushUpdates { configs: Vec<PriceFeedClientConfig> },
    /// Send one response.
    Respond(ServerResponseMessage),
    /// Send a ping and restart the liveness timer.
    Ping,
}

/// An action over mathematical values. The feeds to fetch form a set: the
/// order in which they are asked for carries no meaning.
pub enum ActionView {
    Idle,
    FetchUpdates { ids: Set<FeedId> },
    PushUpdates { configs: Seq<PriceFeedClientConfig> },
    Respond(ResponseView),
    Ping,
}

impl View for Action {
    type V = ActionView;

    open spec fn view(&self) -> ActionView {
        match self {
            Action::Idle => ActionView::Idle,
            Action::FetchUpdates { ids } => ActionView::FetchUpdates { ids: ids@.to_set() },
            Action::PushUpdates { configs } => ActionView::PushUpdates { configs: configs@ },
            Action::Respond(response) => ActionView::Respond(response@),
            Action::Ping => ActionView::Ping,
        }
    }
}

/// Why an actor stopped abnormally.
#[derive(Clone, Copy, Debug, PartialEq, Eq, Structural)]
pub enum SubscriberError {
    /// The notification channel was closed.
    UpdateChannelClosed,
    /// An update arrived for a feed that has no configuration.
    ConfigMissing,
    /// The store failed to answer.
    Store,
    /// Reading from or writing to the client failed.
    Transport,
}

impl SubscriberError {
    /// A description for logs.
    pub fn message(&self) -> (text: String)
        ensures
            text@ == match *self {
                SubscriberError::UpdateChannelClosed =>
                    "Update channel closed. This should never happen. Closing connection."@,
                SubscriberError::ConfigMissing =>
                    "Config missing, price feed list was poisoned during iteration."@,
                SubscriberError::Store => "Store request failed."@,
                SubscriberError::Transport => "Transport failed."@,
            },
    {
        match self {
            SubscriberError::UpdateChannelClosed => {
                "Update channel closed. This should never happen. Closing connection.".to_owned()
            },
            SubscriberError::ConfigMissing => {
                "Config missing, price feed list was poisoned during iteration.".to_owned()
            },
            SubscriberError::Store => "Store request failed.".to_owned(),
            SubscriberError::Transport => "Transport failed.".to_owned(),
        }
    }
}

} // verus!

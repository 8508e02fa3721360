//! The actor of one client connection: its subscription table, its liveness
//! state, and the reaction to every event while it is active. Once closed it
//! stays closed.

use crate::protocol::{
    Action, ActionView, ClientFrame, ClientMessage, Event, ResponseView, ServerResponseMessage,
    SubscriberError, SubscriberId,
};
use crate::subscriptions::{FeedId, PriceFeedClientConfig, Subscriptions};
use vstd::prelude::*;

verus! {

/// The state of an actor over mathematical values.
pub struct SubscriberView {
    pub id: SubscriberId,
    pub closed: bool,
    pub responded_to_ping: bool,
    pub price_feeds_with_config: Map<FeedId, PriceFeedClientConfig>,
}

/// Follows every feed of `ids` under `config`, replacing earlier configurations.
pub open spec fn subscribe_all(
    table: Map<FeedId, PriceFeedClientConfig>,
    ids: Seq<FeedId>,
    config: PriceFeedClientConfig,
) -> Map<FeedId, PriceFeedClientConfig> {
    Map::new(
        |id: FeedId| table.dom().contains(id) || ids.contains(id),
        |id: FeedId|
            if ids.contains(id) {
                config
            } else {
                table[id]
            },
    )
}

/// Stops following every feed of `ids`.
pub open spec fn unsubscribe_all(
    table: Map<FeedId, PriceFeedClientConfig>,
    ids: Seq<FeedId>,
) -> Map<FeedId, PriceFeedClientConfig> {
    table.remove_keys(ids.to_set())
}

/// The table after one client request.
pub open spec fn apply_client_message(
    table: Map<FeedId, PriceFeedClientConfig>,
    message: ClientMessage,
) -> Map<FeedId, PriceFeedClientConfig> {
    match message {
        ClientMessage::Subscribe { ids, verbose, binary } => subscribe_all(
            table,
            ids@,
            PriceFeedClientConfig { verbose, binary },
        ),
        ClientMessage::Unsubscribe { ids } => unsubscribe_all(table, ids@),
    }
}

/// Every feed of `feed_ids` has a configuration in `table`.
pub open spec fn all_configured(
    table: Map<FeedId, PriceFeedClientConfig>,
    feed_ids: Seq<FeedId>,
) -> bool {
    forall|i: int| 0 <= i < feed_ids.len() ==> table.dom().contains(#[trigger] feed_ids[i])
}

/// The configuration of each feed of `feed_ids`, in order.
pub open spec fn configs_of(
    table: Map<FeedId, PriceFeedClientConfig>,
    feed_ids: Seq<FeedId>,
) -> Seq<PriceFeedClientConfig> {
    Seq::new(feed_ids.len(), |i: int| table[feed_ids[i]])
}

/// The state after a frame of the client.
pub open spec fn frame_state(state: SubscriberView, frame: ClientFrame) -> SubscriberView {
    match frame {
        ClientFrame::Close => SubscriberView { closed: true, ..state },
        ClientFrame::Pong => SubscriberView { responded_to_ping: true, ..state },
        ClientFrame::Text(Ok(message)) | ClientFrame::Binary(Ok(message)) => SubscriberView {
            price_feeds_with_config: apply_client_message(state.price_feeds_with_config, message),
            ..state
        },
        _ => state,
    }
}

/// What is to be done after a frame of the client.
pub open spec fn frame_action(frame: ClientFrame) -> ActionView {
    match frame {
        ClientFrame::Text(Ok(_)) | ClientFrame::Binary(Ok(_)) => ActionView::Respond(
            ResponseView::Success,
        ),
        ClientFrame::Text(Err(error)) | ClientFrame::Binary(Err(error)) => ActionView::Respond(
            ResponseView::Failure { error: error@ },
        ),
        _ => ActionView::Idle,
    }
}

/// What an event asks of an active actor, or the error that stops it.
pub open spec fn step_result(state: SubscriberView, event: Event) -> Result<
    ActionView,
    SubscriberError,
> {
    if state.closed {
        Ok(ActionView::Idle)
    } else {
        match event {
            Event::Notification => Ok(
                ActionView::FetchUpdates { ids: state.price_feeds_with_config.dom() },
            ),
            Event::NotificationChannelClosed => Err(SubscriberError::UpdateChannelClosed),
            Event::UpdatesFetched { feed_ids } => if all_configured(
                state.price_feeds_with_config,
                feed_ids@,
            ) {
                Ok(
                    ActionView::PushUpdates {
                        configs: configs_of(state.price_feeds_with_config, feed_ids@),
                    },
                )
            } else {
                Err(SubscriberError::ConfigMissing)
            },
            Event::StoreFailed => Err(SubscriberError::Store),
            Event::Frame(frame) => Ok(frame_action(frame)),
            Event::StreamEnded => Ok(ActionView::Idle),
            Event::TransportFailed => Err(SubscriberError::Transport),
            Event::PingTimer => if state.responded_to_ping {
                Ok(ActionView::Ping)
            } else {
                Ok(ActionView::Idle)
            },
        }
    }
}

/// The state after an event. A closed actor ignores every event; an error
/// closes the actor.
pub open spec fn step_state(state: SubscriberView, event: Event) -> SubscriberView {
    if state.closed {
        state
    } else if step_result(state, event) is Err {
        SubscriberView { closed: true, ..state }
    } else {
        match event {
            Event::Frame(frame) => frame_state(state, frame),
            Event::StreamEnded => SubscriberView { closed: true, ..state },
            Event::PingTimer => if state.responded_to_ping {
                SubscriberView { responded_to_ping: false, ..state }
            } else {
                SubscriberView { closed: true, ..state }
            },
            _ => state,
        }
    }
}

/// The state after a sequence of events, taken in order.
pub open spec fn run_state(state: SubscriberView, events: Seq<Event>) -> SubscriberView
    decreases events.len(),
{
    if events.len() == 0 {
        state
    } else {
        run_state(step_state(state, events[0]), events.drop_first())
    }
}

/// What the events ask for one after the other, up to and including the one
/// that closes the actor.
pub open spec fn run_results(state: SubscriberView, events: Seq<Event>) -> Seq<
    Result<ActionView, SubscriberError>,
>
    decreases events.len(),
{
    if events.len() == 0 || state.closed {
        Seq::empty()
    } else {
        seq![step_result(state, events[0])] + run_results(
            step_state(state, events[0]),
            events.drop_first(),
        )
    }
}

/// Whether `result` is what `expected` describes.
pub open spec fn matches_result(
    result: Result<Action, SubscriberError>,
    expected: Result<ActionView, SubscriberError>,
) -> bool {
    match result {
        Ok(action) => expected == Ok::<ActionView, SubscriberError>(action@),
        Err(error) => expected == Err::<ActionView, SubscriberError>(error),
    }
}

/// Following one more feed of the list extends what following the earlier ones gave.
pub proof fn lemma_subscribe_step(
    table: Map<FeedId, PriceFeedClientConfig>,
    ids: Seq<FeedId>,
    n: int,
    config: PriceFeedClientConfig,
)
    requires
        0 <= n < ids.len(),
    ensures
        subscribe_all(table, ids.take(n + 1), config) == subscribe_all(
            table,
            ids.take(n),
            config,
        ).insert(ids[n], config),
{
    let before = ids.take(n);
    let after = ids.take(n + 1);
    assert(after =~= before.push(ids[n]));
    assert forall|id: FeedId| after.contains(id) == (before.contains(id) || id == ids[n]) by {
        if after.contains(id) {
            let i = choose|i: int| 0 <= i < after.len() && after[i] == id;
            if i < n {
                assert(before[i] == id);
            }
        }
        if before.contains(id) {
            let i = choose|i: int| 0 <= i < before.len() && before[i] == id;
            assert(after[i] == id);
        }
        if id == ids[n] {
            assert(after[n] == id);
        }
    }
    assert(subscribe_all(table, after, config) =~= subscribe_all(table, before, config).insert(
        ids[n],
        config,
    ));
}

/// Dropping one more feed of the list extends what dropping the earlier ones gave.
pub proof fn lemma_unsubscribe_step(
    table: Map<FeedId, PriceFeedClientConfig>,
    ids: Seq<FeedId>,
    n: int,
)
    requires
        0 <= n < ids.len(),
    ensures
        unsubscribe_all(table, ids.take(n + 1)) == unsubscribe_all(table, ids.take(n)).remove(
            ids[n],
        ),
{
    let before = ids.take(n);
    let after = ids.take(n + 1);
    assert(after =~= before.push(ids[n]));
    assert forall|id: FeedId| after.contains(id) == (before.contains(id) || id == ids[n]) by {
        if after.contains(id) {
            let i = choose|i: int| 0 <= i < after.len() && after[i] == id;
            if i < n {
                assert(before[i] == id);
            }
        }
        if before.contains(id) {
            let i = choose|i: int| 0 <= i < before.len() && before[i] == id;
            assert(after[i] == id);
        }
        if id == ids[n] {
            assert(after[n] == id);
        }
    }
    assert(unsubscribe_all(table, after) =~= unsubscribe_all(table, before).remove(ids[n]));
}

/// A request for updates names no feed twice.
pub open spec fn asks_each_feed_once(result: Result<Action, SubscriberError>) -> bool {
    result matches Ok(Action::FetchUpdates { ids }) ==> ids@.no_duplicates()
}

/// A closed actor stays as it is whatever happens.
pub proof fn lemma_closed_is_terminal(state: SubscriberView, events: Seq<Event>)
    requires
        state.closed,
    ensures
        run_state(state, events) == state,
        run_results(state, events) == Seq::<Result<ActionView, SubscriberError>>::empty(),
    decreases events.len(),
{
    if events.len() != 0 {
        lemma_closed_is_terminal(state, events.drop_first());
    }
}

/// The actor of one connection.
pub struct Subscriber {
    id: SubscriberId,
    closed: bool,
    price_feeds_with_config: Subscriptions,
    responded_to_ping: bool,
}

impl View for Subscriber {
    type V = SubscriberView;

    closed spec fn view(&self) -> SubscriberView {
        SubscriberView {
            id: self.id,
            closed: self.closed,
            responded_to_ping: self.responded_to_ping,
            price_feeds_with_config: self.price_feeds_with_config@,
        }
    }
}

impl Subscriber {
    /// An active actor that follows no feed. It counts as having answered the
    /// last ping, so that the first liveness interval does not close it.
    pub fn new(id: SubscriberId) -> (subscriber: Self)
        ensures
            subscriber@ == (SubscriberView {
                id,
                closed: false,
                responded_to_ping: true,
                price_feeds_with_config: Map::empty(),
            }),
    {
        Subscriber {
            id,
            closed: false,
            price_feeds_with_config: Subscriptions::new(),
            responded_to_ping: true,
        }
    }

    /// Reacts to a frame of the client: a close frame closes the actor, a pong
    /// counts as the answer to the last ping, and a data frame is answered by
    /// a response after the request it carries, if it carries one, has been
    /// applied to the subscription table.
    pub fn handle_client_message(&mut self, frame: ClientFrame) -> (action: Action)
        ensures
            final(self)@ == frame_state(old(self)@, frame),
            action@ == frame_action(frame),
    {
        let payload = match frame {
            ClientFrame::Close => {
                self.closed = true;
                return Action::Idle;
            },
            ClientFrame::Text(payload) => payload,
            ClientFrame::Binary(payload) => payload,
            ClientFrame::Ping => {
                return Action::Idle;
            },
            ClientFrame::Pong => {
                self.responded_to_ping = true;
                return Action::Idle;
            },
            ClientFrame::Other => {
                return Action::Idle;
            },
        };
        match payload {
            Err(error) => {
                return Action::Respond(ServerResponseMessage::Failure { error });
            },
            Ok(ClientMessage::Subscribe { ids, verbose, binary }) => {
                let config = PriceFeedClientConfig { verbose, binary };
                let ghost before = self.price_feeds_with_config@;
                assert(subscribe_all(before, ids@.take(0), config) =~= before);
                let mut i: usize = 0;
                while i < ids.len()
                    invariant
                        i <= ids@.len(),
                        self.price_feeds_with_config@ == subscribe_all(
                            before,
                            ids@.take(i as int),
                            config,
                        ),
                        self.id == old(self).id,
                        self.closed == old(self).closed,
                        self.responded_to_ping == old(self).responded_to_ping,
                    decreases ids@.len() - i,
                {
                    proof {
                        lemma_subscribe_step(before, ids@, i as int, config);
                    }
                    self.price_feeds_with_config.insert(ids[i], config);
                    i += 1;
                }
                assert(ids@.take(ids@.len() as int) =~= ids@);
            },
            Ok(ClientMessage::Unsubscribe { ids }) => {
                let ghost before = self.price_feeds_with_config@;
                assert(ids@.take(0).to_set() =~= Set::<FeedId>::empty());
                assert(unsubscribe_all(before, ids@.take(0)) =~= before);
                let mut i: usize = 0;
                while i < ids.len()
                    invariant
                        i <= ids@.len(),
                        self.price_feeds_with_config@ == unsubscribe_all(
                            before,
                            ids@.take(i as int),
                        ),
                        self.id == old(self).id,
                        self.closed == old(self).closed,
                        self.responded_to_ping == old(self).responded_to_ping,
                    decreases ids@.len() - i,
                {
                    proof {
                        lemma_unsubscribe_step(before, ids@, i as int);
                    }
                    self.price_feeds_with_config.remove(&ids[i]);
                    i += 1;
                }
                assert(ids@.take(ids@.len() as int) =~= ids@);
            },
        }
        Action::Respond(ServerResponseMessage::Success)
    }

    /// Looks up how each fetched update is to be rendered. An update for a
    /// feed without configuration is an error.
    pub fn handle_price_feeds_update(&self, feed_ids: &Vec<FeedId>) -> (result: Result<
        Vec<PriceFeedClientConfig>,
        SubscriberError,
    >)
        ensures
            match result {
                Ok(configs) => all_configured(self@.price_feeds_with_config, feed_ids@)
                    && configs@ == configs_of(self@.price_feeds_with_config, feed_ids@),
                Err(error) => !all_configured(self@.price_feeds_with_config, feed_ids@) && error
                    == SubscriberError::ConfigMissing,
            },
    {
        let mut configs: Vec<PriceFeedClientConfig> = Vec::new();
        let mut i: usize = 0;
        while i < feed_ids.len()
            invariant
                i <= feed_ids@.len(),
                configs@.len() == i,
                forall|j: int|
                    0 <= j < i ==> self@.price_feeds_with_config.dom().contains(
                        #[trigger] feed_ids@[j],
                    ),
                forall|j: int|
                    0 <= j < i ==> #[trigger] configs@[j] == self@.price_feeds_with_config[feed_ids@[j]],
            decreases feed_ids@.len() - i,
        {
            match self.price_feeds_with_config.get(&feed_ids[i]) {
                Some(config) => {
                    configs.push(config);
                },
                None => {
                    assert(!self@.price_feeds_with_config.dom().contains(feed_ids@[i as int]));
                    return Err(SubscriberError::ConfigMissing);
                },
            }
            i += 1;
        }
        assert(configs@ =~= configs_of(self@.price_feeds_with_config, feed_ids@));
        Ok(configs)
    }

    /// Reacts to one event. A closed actor ignores it. Otherwise: a
    /// notification asks for the latest updates of the followed feeds; fetched
    /// updates are pushed under their configurations; a frame is handled as
    /// `handle_client_message` says; the end of the stream closes the actor;
    /// the liveness timer closes it if the last ping is unanswered, and pings
    /// otherwise. Every error closes the actor.
    pub fn handle_next(&mut self, event: Event) -> (result: Result<Action, SubscriberError>)
        ensures
            final(self)@ == step_state(old(self)@, event),
            matches_result(result, step_result(old(self)@, event)),
            asks_each_feed_once(result),
    {
        if self.closed {
            return Ok(Action::Idle);
        }
        let result = match event {
            Event::Notification => Ok(
                Action::FetchUpdates { ids: self.price_feeds_with_config.feed_ids() },
            ),
            Event::NotificationChannelClosed => Err(SubscriberError::UpdateChannelClosed),
            Event::UpdatesFetched { feed_ids } => match self.handle_price_feeds_update(&feed_ids) {
                Ok(configs) => Ok(Action::PushUpdates { configs }),
                Err(error) => Err(error),
            },
            Event::StoreFailed => Err(SubscriberError::Store),
            Event::Frame(frame) => Ok(self.handle_client_message(frame)),
            Event::StreamEnded => {
                self.closed = true;
                Ok(Action::Idle)
            },
            Event::TransportFailed => Err(SubscriberError::Transport),
            Event::PingTimer => if !self.responded_to_ping {
                self.closed = true;
                Ok(Action::Idle)
            } else {
                self.responded_to_ping = false;
                Ok(Action::Ping)
            },
        };
        if result.is_err() {
            self.closed = true;
        }
        result
    }

    /// Drives the actor over a sequence of events, in order, until it closes
    /// or the events are used up. Returns what each handled event asked for.
    pub fn run(&mut self, events: Vec<Event>) -> (results: Vec<Result<Action, SubscriberError>>)
        ensures
            final(self)@ == run_state(old(self)@, events@),
            results@.len() == run_results(old(self)@, events@).len(),
            forall|i: int|
                0 <= i < results@.len() ==> matches_result(
                    #[trigger] results@[i],
                    run_results(old(self)@, events@)[i],
                ),
            forall|i: int| 0 <= i < results@.len() ==> asks_each_feed_once(#[trigger] results@[i]),
    {
        let ghost all = events@;
        let ghost mut expected: Seq<Result<ActionView, SubscriberError>> = Seq::empty();
        let mut results: Vec<Result<Action, SubscriberError>> = Vec::new();
        assert(all.skip(0) =~= all);
        for event in it: events.into_iter()
            invariant
                it.seq() == all,
                run_state(old(self)@, all) == run_state(self@, all.skip(it.index() as int)),
                run_results(old(self)@, all) == expected + run_results(
                    self@,
                    all.skip(it.index() as int),
                ),
                results@.len() == expected.len(),
                forall|i: int|
                    0 <= i < results@.len() ==> matches_result(#[trigger] results@[i], expected[i]),
                forall|i: int|
                    0 <= i < results@.len() ==> asks_each_feed_once(#[trigger] results@[i]),
        {
            let ghost rest = all.skip(it.index() as int);
            proof {
                assert(rest[0] == event);
                assert(rest.drop_first() =~= all.skip(it.index() + 1));
            }
            if self.closed {
                proof {
                    lemma_closed_is_terminal(self@, rest);
                    lemma_closed_is_terminal(self@, rest.drop_first());
                }
            } else {
                let ghost before = self@;
                let result = self.handle_next(event);
                proof {
                    assert(expected + run_results(before, rest) =~= expected.push(
                        step_result(before, rest[0]),
                    ) + run_results(self@, rest.drop_first()));
                    expected = expected.push(step_result(before, rest[0]));
                }
                results.push(result);
            }
        }
        proof {
            assert(all.skip(all.len() as int) =~= Seq::<Event>::empty());
            assert(expected + Seq::<Result<ActionView, SubscriberError>>::empty() =~= expected);
        }
        results
    }

    /// The identifier given at construction.
    pub fn id(&self) -> (id: SubscriberId)
        ensures
            id == self@.id,
    {
        self.id
    }

    /// Whether the actor has closed.
    pub fn is_closed(&self) -> (closed: bool)
        ensures
            closed == self@.closed,
    {
        self.closed
    }

    /// Whether the last ping has been answered.
    pub fn responded_to_ping(&self) -> (responded: bool)
        ensures
            responded == self@.responded_to_ping,
    {
        self.responded_to_ping
    }

    /// The configuration under which `id` is followed, if it is.
    pub fn config_of(&self, id: &FeedId) -> (config: Option<PriceFeedClientConfig>)
        ensures
            config == if self@.price_feeds_with_config.dom().contains(*id) {
                Some(self@.price_feeds_with_config[*id])
            } else {
                None
            },
    {
        self.price_feeds_with_config.get(id)
    }
}


/// Handling one more event continues from where the earlier ones led.
pub proof fn lemma_run_state_push(state: SubscriberView, events: Seq<Event>, event: Event)
    ensures
        run_state(state, events.push(event)) == step_state(run_state(state, events), event),
    decreases events.len(),
{
    let extended = events.push(event);
    if events.len() == 0 {
        assert(extended[0] == event);
        assert(extended.drop_first() =~= Seq::<Event>::empty());
        assert(run_state(step_state(state, event), extended.drop_first()) == step_state(
            state,
            event,
        ));
    } else {
        assert(extended[0] == events[0]);
        assert(extended.drop_first() =~= events.drop_first().push(event));
        lemma_run_state_push(step_state(state, events[0]), events.drop_first(), event);
    }
}

/// The table after a sequence of client requests, applied in order.
pub open spec fn apply_all(
    table: Map<FeedId, PriceFeedClientConfig>,
    messages: Seq<ClientMessage>,
) -> Map<FeedId, PriceFeedClientConfig>
    decreases messages.len(),
{
    if messages.len() == 0 {
        table
    } else {
        apply_client_message(apply_all(table, messages.drop_last()), messages.last())
    }
}

/// Whether a request names the feed `id`.
pub open spec fn mentions(message: ClientMessage, id: FeedId) -> bool {
    match message {
        ClientMessage::Subscribe { ids, .. } => ids@.contains(id),
        ClientMessage::Unsubscribe { ids } => ids@.contains(id),
    }
}

/// The place of the last request that names `id`, if one does.
pub open spec fn last_mention(messages: Seq<ClientMessage>, id: FeedId) -> Option<int>
    decreases messages.len(),
{
    if messages.len() == 0 {
        None
    } else if mentions(messages.last(), id) {
        Some(messages.len() - 1)
    } else {
        last_mention(messages.drop_last(), id)
    }
}

/// The requests as text frames arriving at the actor.
pub open spec fn request_events(messages: Seq<ClientMessage>) -> Seq<Event> {
    messages.map_values(|message: ClientMessage| Event::Frame(ClientFrame::Text(Ok(message))))
}

/// An active actor that receives a sequence of subscribe and unsubscribe
/// requests stays active and ends with the table that applying the requests
/// one after the other gives.
pub proof fn lemma_requests_apply_in_order(state: SubscriberView, messages: Seq<ClientMessage>)
    requires
        !state.closed,
    ensures
        run_state(state, request_events(messages)) == (SubscriberView {
            price_feeds_with_config: apply_all(state.price_feeds_with_config, messages),
            ..state
        }),
    decreases messages.len(),
{
    if messages.len() == 0 {
        assert(request_events(messages) =~= Seq::<Event>::empty());
    } else {
        let front = messages.drop_last();
        lemma_requests_apply_in_order(state, front);
        let event = Event::Frame(ClientFrame::Text(Ok(messages.last())));
        assert(request_events(messages) =~= request_events(front).push(event));
        lemma_run_state_push(state, request_events(front), event);
    }
}

/// The net effect of a sequence of requests on one feed is that of the last
/// request that names it: followed under that request's configuration after a
/// subscribe, not followed after an unsubscribe, and as before where no
/// request names the feed.
pub proof fn lemma_last_request_decides(
    table: Map<FeedId, PriceFeedClientConfig>,
    messages: Seq<ClientMessage>,
    id: FeedId,
)
    ensures
        match last_mention(messages, id) {
            None => apply_all(table, messages).dom().contains(id) == table.dom().contains(id) && (
            table.dom().contains(id) ==> apply_all(table, messages)[id] == table[id]),
            Some(at) => 0 <= at < messages.len() && mentions(messages[at], id) && match messages[at] {
                ClientMessage::Subscribe { verbose, binary, .. } => apply_all(
                    table,
                    messages,
                ).dom().contains(id) && apply_all(table, messages)[id] == (PriceFeedClientConfig {
                    verbose,
                    binary,
                }),
                ClientMessage::Unsubscribe { .. } => !apply_all(table, messages).dom().contains(id),
            },
        },
    decreases messages.len(),
{
    if messages.len() != 0 {
        lemma_last_request_decides(table, messages.drop_last(), id);
    }
}

/// Unsubscribing from feeds that are not followed changes nothing.
pub proof fn lemma_unsubscribe_absent(table: Map<FeedId, PriceFeedClientConfig>, ids: Seq<FeedId>)
    requires
        forall|i: int| 0 <= i < ids.len() ==> !table.dom().contains(#[trigger] ids[i]),
    ensures
        unsubscribe_all(table, ids) == table,
{
    assert forall|id: FeedId| table.dom().contains(id) implies !ids.to_set().contains(id) by {
        if ids.contains(id) {
            let i = choose|i: int| 0 <= i < ids.len() && ids[i] == id;
            assert(!table.dom().contains(ids[i]));
        }
    }
    assert(unsubscribe_all(table, ids) =~= table);
}

/// Unsubscribing a second time changes nothing.
pub proof fn lemma_unsubscribe_idempotent(
    table: Map<FeedId, PriceFeedClientConfig>,
    ids: Seq<FeedId>,
)
    ensures
        unsubscribe_all(unsubscribe_all(table, ids), ids) == unsubscribe_all(table, ids),
{
    assert(unsubscribe_all(unsubscribe_all(table, ids), ids) =~= unsubscribe_all(table, ids));
}

/// The client's answer to a ping.
pub open spec fn is_pong(event: Event) -> bool {
    event == Event::Frame(ClientFrame::Pong)
}

/// While no pong arrives, an actor that awaits one keeps awaiting it or closes.
pub proof fn lemma_without_pong(state: SubscriberView, events: Seq<Event>)
    requires
        state.closed || !state.responded_to_ping,
        forall|i: int| 0 <= i < events.len() ==> !is_pong(#[trigger] events[i]),
    ensures
        run_state(state, events).closed || !run_state(state, events).responded_to_ping,
    decreases events.len(),
{
    if events.len() != 0 {
        let next = step_state(state, events[0]);
        assert(!is_pong(events[0]));
        assert(next.closed || !next.responded_to_ping);
        assert forall|i: int| 0 <= i < events.drop_first().len() implies !is_pong(
            #[trigger] events.drop_first()[i],
        ) by {
            assert(events.drop_first()[i] == events[i + 1]);
        }
        lemma_without_pong(next, events.drop_first());
    }
}

/// A connection that does not answer a ping is closed when the liveness
/// timer fires the next time: whatever the state at the first firing and
/// whatever happens between the two firings, as long as no pong arrives, the
/// actor is closed after the second.
pub proof fn lemma_unanswered_ping_closes(state: SubscriberView, between: Seq<Event>)
    requires
        forall|i: int| 0 <= i < between.len() ==> !is_pong(#[trigger] between[i]),
    ensures
        run_state(state, seq![Event::PingTimer] + between + seq![Event::PingTimer]).closed,
{
    let first = step_state(state, Event::PingTimer);
    let events = seq![Event::PingTimer] + between;
    assert(events.drop_first() =~= between);
    assert(events[0] == Event::PingTimer);
    assert(run_state(state, events) == run_state(first, between));
    lemma_without_pong(first, between);
    assert(events + seq![Event::PingTimer] =~= events.push(Event::PingTimer));
    lemma_run_state_push(state, events, Event::PingTimer);
}

/// Every firing of the liveness timer but the first has a pong between it
/// and the firing before.
pub open spec fn every_ping_answered(events: Seq<Event>) -> bool {
    forall|i: int, j: int|
        0 <= i < j < events.len() && #[trigger] events[i] == Event::PingTimer
            && #[trigger] events[j] == Event::PingTimer ==> exists|k: int|
            i < k < j && is_pong(#[trigger] events[k])
}

/// Since the last firing of the liveness timer among the first `n` events no
/// pong has arrived.
pub open spec fn ping_pending(events: Seq<Event>, n: int) -> bool {
    exists|i: int|
        0 <= i < n && #[trigger] events[i] == Event::PingTimer && forall|k: int|
            i < k < n ==> !is_pong(#[trigger] events[k])
}

/// An actor that has lost track of a pong can only have a ping pending.
pub proof fn lemma_awaiting_means_pending(state: SubscriberView, events: Seq<Event>, n: int)
    requires
        state.responded_to_ping,
        0 <= n <= events.len(),
    ensures
        run_state(state, events.take(n)).closed || run_state(
            state,
            events.take(n),
        ).responded_to_ping || ping_pending(events, n),
    decreases n,
{
    if n == 0 {
        assert(events.take(0) =~= Seq::<Event>::empty());
    } else {
        lemma_awaiting_means_pending(state, events, n - 1);
        let before = run_state(state, events.take(n - 1));
        assert(events.take(n) =~= events.take(n - 1).push(events[n - 1]));
        lemma_run_state_push(state, events.take(n - 1), events[n - 1]);
        let after = step_state(before, events[n - 1]);
        if !after.closed && !after.responded_to_ping {
            if events[n - 1] == Event::PingTimer {
                assert(ping_pending(events, n));
            } else {
                assert(!before.responded_to_ping);
                assert(!is_pong(events[n - 1]));
                let i = choose|i: int|
                    0 <= i < n - 1 && #[trigger] events[i] == Event::PingTimer && forall|k: int|
                        i < k < n - 1 ==> !is_pong(#[trigger] events[k]);
                assert forall|k: int| i < k < n implies !is_pong(#[trigger] events[k]) by {}
                assert(ping_pending(events, n));
            }
        }
    }
}

/// A connection that answers every ping before the liveness timer fires
/// again is never closed by the timer: at each firing the actor is closed
/// already for another reason, or it stays open.
pub proof fn lemma_answered_pings_keep_open(state: SubscriberView, events: Seq<Event>, at: int)
    requires
        state.responded_to_ping,
        every_ping_answered(events),
        0 <= at < events.len(),
        events[at] == Event::PingTimer,
    ensures
        run_state(state, events.take(at)).closed || !run_state(state, events.take(at + 1)).closed,
{
    lemma_awaiting_means_pending(state, events, at);
    let before = run_state(state, events.take(at));
    assert(events.take(at + 1) =~= events.take(at).push(events[at]));
    lemma_run_state_push(state, events.take(at), events[at]);
    if ping_pending(events, at) {
        let i = choose|i: int|
            0 <= i < at && #[trigger] events[i] == Event::PingTimer && forall|k: int|
                i < k < at ==> !is_pong(#[trigger] events[k]);
        let k = choose|k: int| i < k < at && is_pong(#[trigger] events[k]);
        assert(!is_pong(events[k]));
    }
}

} // verus!

use hermes::protocol::{
    price_update_to_json, Action, ClientFrame, ClientMessage, Event, ServerResponseMessage,
    SubscriberError, PING_INTERVAL_SECONDS,
};
use hermes::subscriber::Subscriber;
use hermes::subscriptions::PriceFeedClientConfig;

fn feed(byte: u8) -> [u8; 32] {
    let mut id = [byte; 32];
    id[31] = 0x11;
    id
}

fn subscribe(ids: Vec<[u8; 32]>, verbose: bool, binary: bool) -> Event {
    Event::Frame(ClientFrame::Text(Ok(ClientMessage::Subscribe { ids, verbose, binary })))
}

fn unsubscribe(ids: Vec<[u8; 32]>) -> Event {
    Event::Frame(ClientFrame::Text(Ok(ClientMessage::Unsubscribe { ids })))
}

fn sorted(mut ids: Vec<[u8; 32]>) -> Vec<[u8; 32]> {
    ids.sort();
    ids
}

#[test]
fn new_subscriber_is_active_and_follows_nothing() {
    let mut subscriber = Subscriber::new(42);
    assert_eq!(subscriber.id(), 42);
    assert!(!subscriber.is_closed());
    assert!(subscriber.responded_to_ping());
    assert_eq!(subscriber.config_of(&feed(0xaa)), None);
    assert_eq!(
        subscriber.handle_next(Event::Notification),
        Ok(Action::FetchUpdates { ids: vec![] })
    );
}

#[test]
fn subscribe_is_answered_with_ok_and_later_updates_are_pushed_verbose() {
    let mut subscriber = Subscriber::new(7);
    let id = feed(0xaa);
    let action = subscriber.handle_next(subscribe(vec![id], true, false));
    assert_eq!(action, Ok(Action::Respond(ServerResponseMessage::Success)));
    assert_eq!(subscriber.config_of(&id), Some(PriceFeedClientConfig::new(true, false)));
    assert!(!subscriber.is_closed());

    assert_eq!(
        subscriber.handle_next(Event::Notification),
        Ok(Action::FetchUpdates { ids: vec![id] })
    );
    assert_eq!(
        subscriber.handle_next(Event::UpdatesFetched { feed_ids: vec![id] }),
        Ok(Action::PushUpdates { configs: vec![PriceFeedClientConfig::new(true, false)] })
    );
    assert!(!subscriber.is_closed());
}

#[test]
fn subscribe_flags_default_to_false_when_the_client_leaves_them_out() {
    let mut subscriber = Subscriber::new(1);
    let id = feed(0x01);
    subscriber.handle_next(subscribe(vec![id], false, false)).unwrap();
    assert_eq!(
        subscriber.config_of(&id),
        Some(PriceFeedClientConfig { verbose: false, binary: false })
    );
}

#[test]
fn invalid_json_is_answered_with_an_error_and_the_connection_stays_usable() {
    let text = match serde_json::from_str::<serde_json::Value>("{") {
        Ok(_) => panic!("a lone brace is no JSON"),
        Err(error) => error.to_string(),
    };
    let mut subscriber = Subscriber::new(3);
    let action = subscriber.handle_next(Event::Frame(ClientFrame::Text(Err(text.clone()))));
    assert_eq!(action, Ok(Action::Respond(ServerResponseMessage::Failure { error: text })));
    assert!(!subscriber.is_closed());

    let id = feed(0x02);
    assert_eq!(
        subscriber.handle_next(subscribe(vec![id], false, true)),
        Ok(Action::Respond(ServerResponseMessage::Success))
    );
    assert_eq!(subscriber.config_of(&id), Some(PriceFeedClientConfig::new(false, true)));
}

#[test]
fn binary_frames_carry_requests_like_text_frames() {
    let mut subscriber = Subscriber::new(3);
    let id = feed(0x03);
    let frame = ClientFrame::Binary(Ok(ClientMessage::Subscribe {
        ids: vec![id],
        verbose: true,
        binary: true,
    }));
    assert_eq!(subscriber.handle_client_message(frame), Action::Respond(ServerResponseMessage::Success));
    assert_eq!(subscriber.config_of(&id), Some(PriceFeedClientConfig::new(true, true)));
    let broken = ClientFrame::Binary(Err("expected value".to_string()));
    assert_eq!(
        subscriber.handle_client_message(broken),
        Action::Respond(ServerResponseMessage::Failure { error: "expected value".to_string() })
    );
}

#[test]
fn liveness_interval_is_thirty_seconds() {
    assert_eq!(PING_INTERVAL_SECONDS, 30);
}

#[test]
fn silent_client_is_pinged_once_and_closed_at_the_second_interval() {
    let mut subscriber = Subscriber::new(9);
    assert_eq!(subscriber.handle_next(Event::PingTimer), Ok(Action::Ping));
    assert!(!subscriber.is_closed());
    assert!(!subscriber.responded_to_ping());
    assert_eq!(subscriber.handle_next(Event::PingTimer), Ok(Action::Idle));
    assert!(subscriber.is_closed());
}

#[test]
fn silent_client_is_closed_even_if_it_keeps_sending_requests() {
    let mut subscriber = Subscriber::new(9);
    let results = subscriber.run(vec![
        Event::PingTimer,
        subscribe(vec![feed(1)], false, false),
        Event::Frame(ClientFrame::Ping),
        Event::Notification,
        Event::PingTimer,
        subscribe(vec![feed(2)], false, false),
    ]);
    assert!(subscriber.is_closed());
    assert_eq!(results.len(), 5);
    assert_eq!(results[4], Ok(Action::Idle));
    assert_eq!(subscriber.config_of(&feed(2)), None);
}

#[test]
fn client_that_answers_every_ping_is_never_closed() {
    let mut subscriber = Subscriber::new(9);
    for _ in 0..50 {
        assert_eq!(subscriber.handle_next(Event::PingTimer), Ok(Action::Ping));
        assert_eq!(subscriber.handle_next(Event::Frame(ClientFrame::Pong)), Ok(Action::Idle));
        assert!(subscriber.responded_to_ping());
        assert!(!subscriber.is_closed());
    }
}

#[test]
fn two_connections_render_the_same_feed_each_under_its_own_configuration() {
    let id = feed(0x0f);
    let mut first = Subscriber::new(0);
    let mut second = Subscriber::new(1);
    first.handle_next(subscribe(vec![id], true, false)).unwrap();
    second.handle_next(subscribe(vec![id], false, true)).unwrap();
    for subscriber in [&mut first, &mut second] {
        assert_eq!(
            subscriber.handle_next(Event::Notification),
            Ok(Action::FetchUpdates { ids: vec![id] })
        );
    }
    assert_eq!(
        first.handle_next(Event::UpdatesFetched { feed_ids: vec![id] }),
        Ok(Action::PushUpdates { configs: vec![PriceFeedClientConfig::new(true, false)] })
    );
    assert_eq!(
        second.handle_next(Event::UpdatesFetched { feed_ids: vec![id] }),
        Ok(Action::PushUpdates { configs: vec![PriceFeedClientConfig::new(false, true)] })
    );
}

#[test]
fn requests_take_effect_in_order() {
    let (a, b, c) = (feed(0xa0), feed(0xb0), feed(0xc0));
    let mut subscriber = Subscriber::new(5);
    let results = subscriber.run(vec![
        subscribe(vec![a, b], false, false),
        subscribe(vec![b, c], true, false),
        unsubscribe(vec![a]),
        subscribe(vec![a], false, true),
        unsubscribe(vec![c, c]),
    ]);
    assert_eq!(results.len(), 5);
    for result in &results {
        assert_eq!(*result, Ok(Action::Respond(ServerResponseMessage::Success)));
    }
    assert_eq!(subscriber.config_of(&a), Some(PriceFeedClientConfig::new(false, true)));
    assert_eq!(subscriber.config_of(&b), Some(PriceFeedClientConfig::new(true, false)));
    assert_eq!(subscriber.config_of(&c), None);
    match subscriber.handle_next(Event::Notification) {
        Ok(Action::FetchUpdates { ids }) => assert_eq!(sorted(ids), sorted(vec![a, b])),
        other => panic!("unexpected {:?}", other),
    }
}

#[test]
fn unsubscribing_a_feed_that_is_not_followed_changes_nothing() {
    let (a, b) = (feed(0xa0), feed(0xb0));
    let mut subscriber = Subscriber::new(5);
    subscriber.handle_next(subscribe(vec![a], true, true)).unwrap();
    assert_eq!(
        subscriber.handle_next(unsubscribe(vec![b])),
        Ok(Action::Respond(ServerResponseMessage::Success))
    );
    assert_eq!(subscriber.config_of(&a), Some(PriceFeedClientConfig::new(true, true)));
    assert_eq!(subscriber.config_of(&b), None);
    subscriber.handle_next(unsubscribe(vec![a])).unwrap();
    subscriber.handle_next(unsubscribe(vec![a])).unwrap();
    assert_eq!(subscriber.config_of(&a), None);
    assert_eq!(
        subscriber.handle_next(Event::Notification),
        Ok(Action::FetchUpdates { ids: vec![] })
    );
}

#[test]
fn resubscribing_overwrites_the_configuration() {
    let a = feed(0xa0);
    let mut subscriber = Subscriber::new(5);
    subscriber.handle_next(subscribe(vec![a], true, true)).unwrap();
    subscriber.handle_next(subscribe(vec![a], false, false)).unwrap();
    assert_eq!(subscriber.config_of(&a), Some(PriceFeedClientConfig::new(false, false)));
    assert_eq!(
        subscriber.handle_next(Event::Notification),
        Ok(Action::FetchUpdates { ids: vec![a] })
    );
}

#[test]
fn close_frame_closes_without_error() {
    let mut subscriber = Subscriber::new(5);
    assert_eq!(subscriber.handle_next(Event::Frame(ClientFrame::Close)), Ok(Action::Idle));
    assert!(subscriber.is_closed());
}

#[test]
fn end_of_stream_closes_without_error() {
    let mut subscriber = Subscriber::new(5);
    assert_eq!(subscriber.handle_next(Event::StreamEnded), Ok(Action::Idle));
    assert!(subscriber.is_closed());
}

#[test]
fn ping_and_unknown_frames_are_ignored() {
    let mut subscriber = Subscriber::new(5);
    assert_eq!(subscriber.handle_next(Event::Frame(ClientFrame::Ping)), Ok(Action::Idle));
    assert_eq!(subscriber.handle_next(Event::Frame(ClientFrame::Other)), Ok(Action::Idle));
    assert!(!subscriber.is_closed());
    assert!(subscriber.responded_to_ping());
}

#[test]
fn pong_clears_the_pending_ping() {
    let mut subscriber = Subscriber::new(5);
    subscriber.handle_next(Event::PingTimer).unwrap();
    assert!(!subscriber.responded_to_ping());
    assert_eq!(subscriber.handle_client_message(ClientFrame::Pong), Action::Idle);
    assert!(subscriber.responded_to_ping());
}

#[test]
fn closed_notification_channel_is_fatal() {
    let mut subscriber = Subscriber::new(5);
    assert_eq!(
        subscriber.handle_next(Event::NotificationChannelClosed),
        Err(SubscriberError::UpdateChannelClosed)
    );
    assert!(subscriber.is_closed());
}

#[test]
fn update_without_configuration_is_fatal() {
    let (a, b) = (feed(0xa0), feed(0xb0));
    let mut subscriber = Subscriber::new(5);
    subscriber.handle_next(subscribe(vec![a], false, false)).unwrap();
    assert_eq!(
        subscriber.handle_price_feeds_update(&vec![a, b]),
        Err(SubscriberError::ConfigMissing)
    );
    assert_eq!(
        subscriber.handle_next(Event::UpdatesFetched { feed_ids: vec![a, b] }),
        Err(SubscriberError::ConfigMissing)
    );
    assert!(subscriber.is_closed());
}

#[test]
fn updates_are_rendered_in_the_order_in_which_they_were_fetched() {
    let (a, b) = (feed(0xa0), feed(0xb0));
    let mut subscriber = Subscriber::new(5);
    subscriber.handle_next(subscribe(vec![a], true, false)).unwrap();
    subscriber.handle_next(subscribe(vec![b], false, true)).unwrap();
    assert_eq!(
        subscriber.handle_price_feeds_update(&vec![b, a, b]),
        Ok(vec![
            PriceFeedClientConfig::new(false, true),
            PriceFeedClientConfig::new(true, false),
            PriceFeedClientConfig::new(false, true),
        ])
    );
    assert_eq!(subscriber.handle_price_feeds_update(&vec![]), Ok(vec![]));
}

#[test]
fn store_and_transport_failures_are_fatal() {
    let mut subscriber = Subscriber::new(5);
    assert_eq!(subscriber.handle_next(Event::StoreFailed), Err(SubscriberError::Store));
    assert!(subscriber.is_closed());
    let mut subscriber = Subscriber::new(6);
    assert_eq!(subscriber.handle_next(Event::TransportFailed), Err(SubscriberError::Transport));
    assert!(subscriber.is_closed());
}

#[test]
fn closed_actor_ignores_every_event() {
    let a = feed(0xa0);
    let mut subscriber = Subscriber::new(5);
    subscriber.handle_next(Event::Frame(ClientFrame::Close)).unwrap();
    assert_eq!(subscriber.handle_next(subscribe(vec![a], true, true)), Ok(Action::Idle));
    assert_eq!(subscriber.handle_next(Event::Notification), Ok(Action::Idle));
    assert_eq!(subscriber.handle_next(Event::PingTimer), Ok(Action::Idle));
    assert_eq!(subscriber.handle_next(Event::NotificationChannelClosed), Ok(Action::Idle));
    assert_eq!(subscriber.config_of(&a), None);
    assert!(subscriber.is_closed());
}

#[test]
fn run_stops_at_the_event_that_closes_the_actor() {
    let a = feed(0xa0);
    let mut subscriber = Subscriber::new(5);
    let results = subscriber.run(vec![
        subscribe(vec![a], false, false),
        Event::NotificationChannelClosed,
        Event::Notification,
        Event::PingTimer,
    ]);
    assert_eq!(
        results,
        vec![
            Ok(Action::Respond(ServerResponseMessage::Success)),
            Err(SubscriberError::UpdateChannelClosed),
        ]
    );
    assert!(subscriber.is_closed());
    assert_eq!(subscriber.run(vec![Event::Notification]), vec![]);
}

#[test]
fn error_messages_name_the_cause() {
    assert_eq!(
        SubscriberError::UpdateChannelClosed.message(),
        "Update channel closed. This should never happen. Closing connection."
    );
    assert_eq!(
        SubscriberError::ConfigMissing.message(),
        "Config missing, price feed list was poisoned during iteration."
    );
    assert_eq!(SubscriberError::Store.message(), "Store request failed.");
    assert_eq!(SubscriberError::Transport.message(), "Transport failed.");
}

#[test]
fn ok_response_is_the_documented_json() {
    assert_eq!(
        ServerResponseMessage::Success.to_json(),
        r#"{"type":"response","status":"ok"}"#
    );
}

#[test]
fn error_response_carries_the_parse_error_as_json() {
    let text = match serde_json::from_str::<serde_json::Value>("{") {
        Ok(_) => panic!("a lone brace is no JSON"),
        Err(error) => error.to_string(),
    };
    let mut subscriber = Subscriber::new(3);
    let response = match subscriber.handle_next(Event::Frame(ClientFrame::Text(Err(text.clone())))) {
        Ok(Action::Respond(response)) => response,
        other => panic!("unexpected {:?}", other),
    };
    assert_eq!(
        response.to_json(),
        r#"{"type":"response","status":"error","error":"EOF while parsing an object at line 1 column 1"}"#
    );
}

#[test]
fn error_text_is_escaped_in_the_response() {
    let response = ServerResponseMessage::Failure { error: "bad \"quote\"\n\\ end".to_string() };
    let json = response.to_json();
    assert_eq!(
        json,
        r#"{"type":"response","status":"error","error":"bad \"quote\"\n\\ end"}"#
    );
    let parsed: serde_json::Value = serde_json::from_str(&json).unwrap();
    assert_eq!(parsed["type"], "response");
    assert_eq!(parsed["status"], "error");
    assert_eq!(parsed["error"], "bad \"quote\"\n\\ end");
}

#[test]
fn price_update_wraps_the_rendered_feed() {
    let json = price_update_to_json(r#"{"id":"aa11","price":{"price":"100"}}"#);
    assert_eq!(
        json,
        r#"{"type":"price_update","price_feed":{"id":"aa11","price":{"price":"100"}}}"#
    );
    let parsed: serde_json::Value = serde_json::from_str(&json).unwrap();
    assert_eq!(parsed["type"], "price_update");
    assert_eq!(parsed["price_feed"]["price"]["price"], "100");
}

use hermes::registry::{
    closed_subscribers, notify_updates, Delivery, WsState, NOTIFICATIONS_CHAN_LEN,
};
use tokio::sync::mpsc;

fn sorted(mut ids: Vec<usize>) -> Vec<usize> {
    ids.sort();
    ids
}

#[test]
fn new_registry_is_empty() {
    let mut ws_state = WsState::new();
    assert!(ws_state.subscriber_ids().is_empty());
    assert!(!ws_state.is_registered(0));
    assert!(notify_updates(&mut ws_state).is_empty());
}

#[test]
fn identifiers_are_handed_out_in_increasing_order() {
    let mut ws_state = WsState::new();
    let mut receivers = Vec::new();
    for expected in 0..5usize {
        let (sender, receiver) = mpsc::channel::<()>(NOTIFICATIONS_CHAN_LEN);
        receivers.push(receiver);
        assert_eq!(ws_state.register(sender), Some(expected));
    }
    assert_eq!(sorted(ws_state.subscriber_ids()), vec![0, 1, 2, 3, 4]);
    assert!(ws_state.is_registered(3));
    assert!(!ws_state.is_registered(5));
}

#[test]
fn sweep_wakes_every_live_subscriber() {
    let mut ws_state = WsState::new();
    let (first, mut first_mailbox) = mpsc::channel::<()>(NOTIFICATIONS_CHAN_LEN);
    let (second, mut second_mailbox) = mpsc::channel::<()>(NOTIFICATIONS_CHAN_LEN);
    ws_state.register(first);
    ws_state.register(second);
    let mut outcomes = notify_updates(&mut ws_state);
    outcomes.sort_by_key(|outcome| outcome.0);
    assert_eq!(outcomes, vec![(0, Delivery::Delivered), (1, Delivery::Delivered)]);
    assert_eq!(first_mailbox.try_recv(), Ok(()));
    assert_eq!(second_mailbox.try_recv(), Ok(()));
    assert!(first_mailbox.try_recv().is_err());
    assert_eq!(sorted(ws_state.subscriber_ids()), vec![0, 1]);
}

#[test]
fn sweep_prunes_subscribers_whose_channel_is_closed() {
    let mut ws_state = WsState::new();
    let (live, mut live_mailbox) = mpsc::channel::<()>(NOTIFICATIONS_CHAN_LEN);
    let (dead, dead_mailbox) = mpsc::channel::<()>(NOTIFICATIONS_CHAN_LEN);
    ws_state.register(live);
    ws_state.register(dead);
    drop(dead_mailbox);
    assert_eq!(sorted(ws_state.subscriber_ids()), vec![0, 1]);

    let mut outcomes = notify_updates(&mut ws_state);
    outcomes.sort_by_key(|outcome| outcome.0);
    assert_eq!(outcomes, vec![(0, Delivery::Delivered), (1, Delivery::Closed)]);
    assert_eq!(ws_state.subscriber_ids(), vec![0]);
    assert!(!ws_state.is_registered(1));
    assert_eq!(live_mailbox.try_recv(), Ok(()));
}

#[test]
fn pruned_subscriber_is_absent_from_all_later_sweeps() {
    let mut ws_state = WsState::new();
    let (dead, dead_mailbox) = mpsc::channel::<()>(NOTIFICATIONS_CHAN_LEN);
    assert_eq!(ws_state.register(dead), Some(0));
    drop(dead_mailbox);
    assert_eq!(notify_updates(&mut ws_state), vec![(0, Delivery::Closed)]);

    let mut receivers = Vec::new();
    for round in 0..4usize {
        let (sender, receiver) = mpsc::channel::<()>(NOTIFICATIONS_CHAN_LEN);
        receivers.push(receiver);
        assert_eq!(ws_state.register(sender), Some(round + 1));
        let outcomes = notify_updates(&mut ws_state);
        assert_eq!(outcomes.len(), round + 1);
        for (id, delivery) in outcomes {
            assert_ne!(id, 0);
            assert_eq!(delivery, Delivery::Delivered);
        }
        assert!(!ws_state.is_registered(0));
    }
}

#[test]
fn full_mailbox_is_no_failure() {
    let mut ws_state = WsState::new();
    let (sender, mut mailbox) = mpsc::channel::<()>(1);
    ws_state.register(sender);
    assert_eq!(notify_updates(&mut ws_state), vec![(0, Delivery::Delivered)]);
    assert_eq!(notify_updates(&mut ws_state), vec![(0, Delivery::MailboxFull)]);
    assert!(ws_state.is_registered(0));
    assert_eq!(mailbox.try_recv(), Ok(()));
    assert!(mailbox.try_recv().is_err());
    assert_eq!(notify_updates(&mut ws_state), vec![(0, Delivery::Delivered)]);
}

#[test]
fn deliver_all_leaves_the_registry_as_it_is() {
    let mut ws_state = WsState::new();
    let (dead, dead_mailbox) = mpsc::channel::<()>(NOTIFICATIONS_CHAN_LEN);
    ws_state.register(dead);
    drop(dead_mailbox);
    assert_eq!(ws_state.deliver_all(), vec![(0, Delivery::Closed)]);
    assert!(ws_state.is_registered(0));
}

#[test]
fn prune_removes_the_listed_and_passes_over_the_unknown() {
    let mut ws_state = WsState::new();
    let mut receivers = Vec::new();
    for _ in 0..4 {
        let (sender, receiver) = mpsc::channel::<()>(NOTIFICATIONS_CHAN_LEN);
        receivers.push(receiver);
        ws_state.register(sender);
    }
    ws_state.prune(&vec![2, 0, 2, 17]);
    assert_eq!(sorted(ws_state.subscriber_ids()), vec![1, 3]);
    ws_state.prune(&vec![]);
    assert_eq!(sorted(ws_state.subscriber_ids()), vec![1, 3]);
}

#[test]
fn only_closed_channels_count_as_failed() {
    let outcomes = vec![
        (4, Delivery::Closed),
        (1, Delivery::Delivered),
        (9, Delivery::MailboxFull),
        (2, Delivery::Closed),
    ];
    assert_eq!(closed_subscribers(&outcomes), vec![4, 2]);
    assert_eq!(closed_subscribers(&vec![]), Vec::<usize>::new());
}

#[test]
fn mailboxes_hold_a_thousand_signals() {
    assert_eq!(NOTIFICATIONS_CHAN_LEN, 1000);
}

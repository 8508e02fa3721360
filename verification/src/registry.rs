//! The registry of live connections: who is registered under which
//! identifier, how they are woken when new data arrives, and how the dead are
//! pruned.

use crate::protocol::SubscriberId;
use dashmap::DashMap;
use tokio::sync::mpsc::error::TrySendError;
use tokio::sync::mpsc::Sender;
use vstd::prelude::*;

verus! {

/// How many wake signals a subscriber's mailbox holds.
pub const NOTIFICATIONS_CHAN_LEN: usize = 1000;

/// `DashMap` of dashmap, taken as opaque.
#[verifier::external_type_specification]
#[verifier::external_body]
#[verifier::reject_recursive_types(K)]
#[verifier::reject_recursive_types(V)]
#[verifier::reject_recursive_types(S)]
pub struct ExDashMap<K, V, S>(DashMap<K, V, S>);

/// `mpsc::Sender` of tokio, taken as opaque: the handle that wakes one
/// subscriber.
#[verifier::external_type_specification]
#[verifier::external_body]
#[verifier::reject_recursive_types(T)]
pub struct ExSender<T>(Sender<T>);

/// The identifiers under which a map holds a handle.
pub uninterp spec fn registered(subscribers: DashMap<usize, Sender<()>>) -> Set<usize>;

/// What became of one wake signal.
#[derive(Clone, Copy, Debug, PartialEq, Eq, Structural)]
pub enum Delivery {
    /// The signal is in the subscriber's mailbox.
    Delivered,
    /// The mailbox is full: the subscriber has wake signals waiting and will
    /// refresh anyway.
    MailboxFull,
    /// The subscriber is gone.
    Closed,
}

/// `DashMap::new` of dashmap: a map that holds nothing.
#[verifier::external_body]
fn registry_new() -> (subscribers: DashMap<usize, Sender<()>>)
    ensures
        registered(subscribers) == Set::<usize>::empty(),
{
    DashMap::new()
}

/// `DashMap::insert` of dashmap: afterwards the map holds a handle under
/// `id` and under every identifier it held before.
#[verifier::external_body]
fn registry_insert(subscribers: &mut DashMap<usize, Sender<()>>, id: usize, handle: Sender<()>)
    ensures
        registered(*final(subscribers)) == registered(*old(subscribers)).insert(id),
{
    subscribers.insert(id, handle);
}

/// `DashMap::remove` of dashmap: afterwards the map holds nothing under `id`
/// and is otherwise as before.
#[verifier::external_body]
fn registry_remove(subscribers: &mut DashMap<usize, Sender<()>>, id: usize)
    ensures
        registered(*final(subscribers)) == registered(*old(subscribers)).remove(id),
{
    subscribers.remove(&id);
}

/// `DashMap::iter` of dashmap, each entry mapped to its key: every
/// identifier the map holds, once, in no particular order.
#[verifier::external_body]
fn registry_ids(subscribers: &DashMap<usize, Sender<()>>) -> (ids: Vec<usize>)
    ensures
        ids@.no_duplicates(),
        ids@.to_set() == registered(*subscribers),
{
    subscribers.iter().map(|entry| *entry.key()).collect()
}

/// `DashMap::get` of dashmap, the handle cloned out of the entry: a handle
/// exactly where the map holds one under `id`.
#[verifier::external_body]
fn registry_get(subscribers: &DashMap<usize, Sender<()>>, id: usize) -> (handle: Option<
    Sender<()>,
>)
    ensures
        handle is Some <==> registered(*subscribers).contains(id),
{
    subscribers.get(&id).map(|entry| entry.value().clone())
}

/// `Sender::try_send` of tokio with the empty wake signal. Which of the three
/// outcomes comes depends on the receiving side alone.
#[verifier::external_body]
fn deliver(handle: &Sender<()>) -> (delivery: Delivery) {
    match handle.try_send(()) {
        Ok(()) => Delivery::Delivered,
        Err(TrySendError::Full(())) => Delivery::MailboxFull,
        Err(TrySendError::Closed(())) => Delivery::Closed,
    }
}

/// The registry over mathematical values: the next identifier to hand out
/// and the identifiers that are registered.
pub struct RegistryView {
    pub next_id: nat,
    pub ids: Set<SubscriberId>,
}

impl RegistryView {
    /// Every registered identifier has been handed out already.
    pub open spec fn wf(self) -> bool {
        forall|id: SubscriberId| self.ids.contains(id) ==> id < self.next_id
    }

    /// The registry after a connection was registered. When the identifiers
    /// are used up nothing is registered.
    pub open spec fn register(self) -> RegistryView {
        if self.next_id < usize::MAX {
            RegistryView { next_id: self.next_id + 1, ids: self.ids.insert(self.next_id as usize) }
        } else {
            self
        }
    }

    /// The registry after a sweep in which delivery to `failed` failed.
    pub open spec fn sweep(self, failed: Set<SubscriberId>) -> RegistryView {
        RegistryView { ids: self.ids.difference(failed), ..self }
    }
}

/// The state shared by all connections: the counter from which identifiers
/// are handed out and the handle of every registered connection. Whoever
/// changes it holds it exclusively.
pub struct WsState {
    subscriber_counter: usize,
    subscribers: DashMap<SubscriberId, Sender<()>>,
}

impl View for WsState {
    type V = RegistryView;

    closed spec fn view(&self) -> RegistryView {
        RegistryView { next_id: self.subscriber_counter as nat, ids: registered(self.subscribers) }
    }
}

/// The subscribers whose wake signal found their channel closed, in the
/// order of `outcomes`.
pub open spec fn closed_among(outcomes: Seq<(SubscriberId, Delivery)>) -> Seq<SubscriberId> {
    outcomes.filter(|outcome: (SubscriberId, Delivery)| outcome.1 == Delivery::Closed).map_values(
        |outcome: (SubscriberId, Delivery)| outcome.0,
    )
}

/// Picks the subscribers to prune after a sweep: those whose channel was
/// closed. A full mailbox is no failure.
pub fn closed_subscribers(outcomes: &Vec<(SubscriberId, Delivery)>) -> (closed: Vec<SubscriberId>)
    ensures
        closed@ == closed_among(outcomes@),
{
    let ghost is_closed = |outcome: (SubscriberId, Delivery)| outcome.1 == Delivery::Closed;
    let mut closed: Vec<SubscriberId> = Vec::new();
    let mut i: usize = 0;
    assert(outcomes@.take(0).filter(is_closed) =~= Seq::empty()) by {
        reveal(Seq::filter);
    }
    while i < outcomes.len()
        invariant
            i <= outcomes@.len(),
            is_closed == |outcome: (SubscriberId, Delivery)| outcome.1 == Delivery::Closed,
            closed@ == outcomes@.take(i as int).filter(is_closed).map_values(
                |outcome: (SubscriberId, Delivery)| outcome.0,
            ),
        decreases outcomes@.len() - i,
    {
        proof {
            assert(outcomes@.take(i + 1) =~= outcomes@.take(i as int).push(outcomes@[i as int]));
            outcomes@.take(i as int).lemma_filter_push(outcomes@[i as int], is_closed);
        }
        let (id, delivery) = outcomes[i];
        match delivery {
            Delivery::Closed => {
                closed.push(id);
                assert(closed@ =~= outcomes@.take(i + 1).filter(is_closed).map_values(
                    |outcome: (SubscriberId, Delivery)| outcome.0,
                ));
            },
            _ => {},
        }
        i += 1;
    }
    assert(outcomes@.take(outcomes@.len() as int) =~= outcomes@);
    closed
}

impl WsState {
    /// Every registered identifier has been handed out already, so that no
    /// identifier is handed out twice.
    pub open spec fn wf(&self) -> bool {
        self@.wf()
    }

    /// A registry without connections. The first identifier is 0.
    pub fn new() -> (ws_state: Self)
        ensures
            ws_state.wf(),
            ws_state@ == (RegistryView { next_id: 0, ids: Set::empty() }),
    {
        WsState { subscriber_counter: 0, subscribers: registry_new() }
    }

    /// Registers a connection under the next identifier and returns it. When
    /// the identifiers are used up nothing is registered.
    pub fn register(&mut self, handle: Sender<()>) -> (id: Option<SubscriberId>)
        ensures
            old(self).wf() ==> final(self).wf(),
            final(self)@ == old(self)@.register(),
            id == if old(self)@.next_id < usize::MAX {
                Some(old(self)@.next_id as usize)
            } else {
                None
            },
    {
        if self.subscriber_counter == usize::MAX {
            return None;
        }
        let id = self.subscriber_counter;
        self.subscriber_counter = id + 1;
        registry_insert(&mut self.subscribers, id, handle);
        proof {
            if old(self).wf() {
                assert forall|other: SubscriberId| self@.ids.contains(other) implies other
                    < self@.next_id by {
                    if other != id {
                        assert(old(self)@.ids.contains(other));
                    }
                }
            }
        }
        Some(id)
    }

    /// The identifiers of the registered connections, each once.
    pub fn subscriber_ids(&self) -> (ids: Vec<SubscriberId>)
        ensures
            ids@.no_duplicates(),
            ids@.to_set() == self@.ids,
    {
        registry_ids(&self.subscribers)
    }

    /// Whether `id` is registered.
    pub fn is_registered(&self, id: SubscriberId) -> (present: bool)
        ensures
            present == self@.ids.contains(id),
    {
        registry_get(&self.subscribers, id).is_some()
    }

    /// Sends a wake signal to every registered connection and says what
    /// became of each. The registry stays as it is.
    pub fn deliver_all(&self) -> (outcomes: Vec<(SubscriberId, Delivery)>)
        ensures
            attempted(outcomes@).no_duplicates(),
            attempted(outcomes@).to_set() == self@.ids,
    {
        let ids = registry_ids(&self.subscribers);
        let mut outcomes: Vec<(SubscriberId, Delivery)> = Vec::new();
        let mut i: usize = 0;
        while i < ids.len()
            invariant
                i <= ids@.len(),
                ids@.to_set() == registered(self.subscribers),
                outcomes@.len() == i,
                forall|j: int| 0 <= j < i ==> (#[trigger] outcomes@[j]).0 == ids@[j],
            decreases ids@.len() - i,
        {
            let id = ids[i];
            assert(ids@.to_set().contains(ids@[i as int]));
            let delivery = match registry_get(&self.subscribers, id) {
                Some(handle) => deliver(&handle),
                None => Delivery::Closed,
            };
            outcomes.push((id, delivery));
            i += 1;
        }
        assert(attempted(outcomes@) =~= ids@);
        outcomes
    }

    /// Removes the connections listed in `closed`. One that is not registered
    /// is passed over.
    pub fn prune(&mut self, closed: &Vec<SubscriberId>)
        ensures
            old(self).wf() ==> final(self).wf(),
            final(self)@ == old(self)@.sweep(closed@.to_set()),
    {
        let mut i: usize = 0;
        assert(registered(self.subscribers).difference(closed@.take(0).to_set()) =~= registered(
            self.subscribers,
        ));
        while i < closed.len()
            invariant
                i <= closed@.len(),
                self.subscriber_counter == old(self).subscriber_counter,
                registered(self.subscribers) == registered(old(self).subscribers).difference(
                    closed@.take(i as int).to_set(),
                ),
            decreases closed@.len() - i,
        {
            proof {
                let before = closed@.take(i as int);
                let after = closed@.take(i + 1);
                assert(after =~= before.push(closed@[i as int]));
                assert forall|id: SubscriberId|
                    after.to_set().contains(id) == (before.to_set().contains(id) || id
                        == closed@[i as int]) by {
                    if after.contains(id) {
                        let j = choose|j: int| 0 <= j < after.len() && after[j] == id;
                        if j < i {
                            assert(before[j] == id);
                        }
                    }
                    if before.contains(id) {
                        let j = choose|j: int| 0 <= j < before.len() && before[j] == id;
                        assert(after[j] == id);
                    }
                    if id == closed@[i as int] {
                        assert(after[i as int] == id);
                    }
                }
                assert(registered(old(self).subscribers).difference(after.to_set())
                    =~= registered(old(self).subscribers).difference(before.to_set()).remove(
                    closed@[i as int],
                ));
            }
            registry_remove(&mut self.subscribers, closed[i]);
            i += 1;
        }
        proof {
            assert(closed@.take(closed@.len() as int) =~= closed@);
            if old(self).wf() {
                assert forall|id: SubscriberId| self@.ids.contains(id) implies id
                    < self@.next_id by {
                    assert(old(self)@.ids.contains(id));
                }
            }
        }
    }
}

/// The subscribers that a list of outcomes speaks of, in order.
pub open spec fn attempted(outcomes: Seq<(SubscriberId, Delivery)>) -> Seq<SubscriberId> {
    outcomes.map_values(|outcome: (SubscriberId, Delivery)| outcome.0)
}

/// Every subscriber found closed was one to which delivery was attempted.
pub proof fn lemma_closed_were_attempted(outcomes: Seq<(SubscriberId, Delivery)>)
    ensures
        closed_among(outcomes).to_set().subset_of(attempted(outcomes).to_set()),
{
    let is_closed = |outcome: (SubscriberId, Delivery)| outcome.1 == Delivery::Closed;
    let kept = outcomes.filter(is_closed);
    assert forall|id: SubscriberId| closed_among(outcomes).to_set().contains(id) implies attempted(
        outcomes,
    ).to_set().contains(id) by {
        let j = choose|j: int|
            0 <= j < closed_among(outcomes).len() && closed_among(outcomes)[j] == id;
        assert(kept.contains(kept[j]));
        outcomes.lemma_filter_contains_rev(is_closed, kept[j]);
        let m = choose|m: int| 0 <= m < outcomes.len() && outcomes[m] == kept[j];
        assert(attempted(outcomes)[m] == id);
    }
}

/// One notification sweep: sends a wake signal to every registered
/// connection, once each, then removes those whose channel was found closed.
/// A connection whose mailbox is full stays registered. Returns what became
/// of each signal.
pub fn notify_updates(ws_state: &mut WsState) -> (outcomes: Vec<(SubscriberId, Delivery)>)
    ensures
        old(ws_state).wf() ==> final(ws_state).wf(),
        attempted(outcomes@).no_duplicates(),
        attempted(outcomes@).to_set() == old(ws_state)@.ids,
        closed_among(outcomes@).to_set().subset_of(old(ws_state)@.ids),
        final(ws_state)@ == old(ws_state)@.sweep(closed_among(outcomes@).to_set()),
{
    let outcomes = ws_state.deliver_all();
    let closed = closed_subscribers(&outcomes);
    proof {
        lemma_closed_were_attempted(outcomes@);
    }
    ws_state.prune(&closed);
    outcomes
}

/// What can happen to the registry: a connection registers, or a sweep finds
/// the channels of `failed` closed.
pub enum RegistryOp {
    Register,
    Sweep { failed: Set<SubscriberId> },
}

impl RegistryView {
    /// The registry after one operation.
    pub open spec fn apply(self, op: RegistryOp) -> RegistryView {
        match op {
            RegistryOp::Register => self.register(),
            RegistryOp::Sweep { failed } => self.sweep(failed),
        }
    }

    /// The registry after a sequence of operations, in order.
    pub open spec fn apply_all(self, ops: Seq<RegistryOp>) -> RegistryView
        decreases ops.len(),
    {
        if ops.len() == 0 {
            self
        } else {
            self.apply(ops[0]).apply_all(ops.drop_first())
        }
    }
}

/// An identifier that has been handed out and is not registered is never
/// registered again.
pub proof fn lemma_removed_stays_absent(
    registry: RegistryView,
    ops: Seq<RegistryOp>,
    id: SubscriberId,
)
    requires
        registry.wf(),
        id < registry.next_id,
        !registry.ids.contains(id),
    ensures
        !registry.apply_all(ops).ids.contains(id),
        registry.apply_all(ops).wf(),
    decreases ops.len(),
{
    if ops.len() != 0 {
        lemma_removed_stays_absent(registry.apply(ops[0]), ops.drop_first(), id);
    }
}

/// A subscriber whose delivery failed during a sweep is absent from the
/// registry after that sweep and after everything that happens later: it is
/// part of no later sweep.
pub proof fn lemma_failed_subscriber_stays_pruned(
    registry: RegistryView,
    failed: Set<SubscriberId>,
    later: Seq<RegistryOp>,
    id: SubscriberId,
)
    requires
        registry.wf(),
        failed.subset_of(registry.ids),
        failed.contains(id),
    ensures
        !registry.sweep(failed).apply_all(later).ids.contains(id),
{
    lemma_removed_stays_absent(registry.sweep(failed), later, id);
}

} // verus!

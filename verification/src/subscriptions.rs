//! The subscription table of one connection: which feeds the client follows
//! and how each update is to be rendered for it.

use vstd::prelude::*;

verus! {

/// Fixed-length binary identifier of one price series.
pub type FeedId = [u8; 32];

/// How one subscribed feed is rendered for the client.
#[derive(Clone, Copy, Debug, PartialEq, Eq, Structural)]
pub struct PriceFeedClientConfig {
    pub verbose: bool,
    pub binary: bool,
}

impl PriceFeedClientConfig {
    /// A configuration with the given flags.
    pub fn new(verbose: bool, binary: bool) -> (config: Self)
        ensures
            config == (PriceFeedClientConfig { verbose, binary }),
    {
        PriceFeedClientConfig { verbose, binary }
    }
}

/// Whether two feed identifiers are the same.
pub fn same_feed(a: &FeedId, b: &FeedId) -> (same: bool)
    ensures
        same == (*a == *b),
{
    let mut i: usize = 0;
    while i < 32
        invariant
            i <= 32,
            forall|j: int| 0 <= j < i ==> a[j] == b[j],
        decreases 32 - i,
    {
        if a[i] != b[i] {
            return false;
        }
        i += 1;
    }
    assert(*a =~= *b);
    true
}

/// The position of `id` among `entries`, or the length where it is absent.
pub open spec fn position_of(entries: Seq<(FeedId, PriceFeedClientConfig)>, id: FeedId) -> int
    decreases entries.len(),
{
    if entries.len() == 0 {
        0
    } else if entries[0].0 == id {
        0
    } else {
        1 + position_of(entries.drop_first(), id)
    }
}

/// The configuration per feed that a list of entries with distinct keys stands for.
pub open spec fn entries_map(entries: Seq<(FeedId, PriceFeedClientConfig)>) -> Map<
    FeedId,
    PriceFeedClientConfig,
> {
    Map::new(
        |id: FeedId| exists|i: int| 0 <= i < entries.len() && (#[trigger] entries[i]).0 == id,
        |id: FeedId| entries[position_of(entries, id)].1,
    )
}

/// No feed occurs twice among `entries`.
pub open spec fn distinct_feeds(entries: Seq<(FeedId, PriceFeedClientConfig)>) -> bool {
    forall|i: int, j: int|
        0 <= i < j < entries.len() ==> (#[trigger] entries[i]).0 != (#[trigger] entries[j]).0
}

/// The position of a feed lies within the list or at its end, holds the
/// feed where it lies within, and is the first place that does.
pub proof fn lemma_position_of(entries: Seq<(FeedId, PriceFeedClientConfig)>, id: FeedId)
    ensures
        0 <= position_of(entries, id) <= entries.len(),
        position_of(entries, id) < entries.len() ==> entries[position_of(entries, id)].0 == id,
        forall|i: int| 0 <= i < position_of(entries, id) ==> (#[trigger] entries[i]).0 != id,
    decreases entries.len(),
{
    if entries.len() != 0 && entries[0].0 != id {
        let rest = entries.drop_first();
        lemma_position_of(rest, id);
        assert forall|i: int| 0 <= i < position_of(entries, id) implies (#[trigger] entries[i]).0
            != id by {
            if i > 0 {
                assert(entries[i] == rest[i - 1]);
            }
        }
    }
}

/// Where a feed sits in a list with distinct keys, its position is the one
/// place that holds it.
pub proof fn lemma_position_unique(
    entries: Seq<(FeedId, PriceFeedClientConfig)>,
    i: int,
)
    requires
        distinct_feeds(entries),
        0 <= i < entries.len(),
    ensures
        position_of(entries, entries[i].0) == i,
{
    lemma_position_of(entries, entries[i].0);
}


/// Appending a feed that is not yet listed adds exactly that feed.
pub proof fn lemma_entries_push(
    entries: Seq<(FeedId, PriceFeedClientConfig)>,
    id: FeedId,
    config: PriceFeedClientConfig,
)
    requires
        distinct_feeds(entries),
        !entries_map(entries).dom().contains(id),
    ensures
        distinct_feeds(entries.push((id, config))),
        entries_map(entries.push((id, config))) == entries_map(entries).insert(id, config),
{
    let after = entries.push((id, config));
    assert forall|i: int, j: int| 0 <= i < j < after.len() implies (#[trigger] after[i]).0 != (
    #[trigger] after[j]).0 by {
        if j == entries.len() {
            assert(entries[i].0 != id);
        }
    }
    assert forall|k: FeedId| #[trigger]
        entries_map(after).dom().contains(k) == entries_map(entries).insert(
            id,
            config,
        ).dom().contains(k) by {
        if entries_map(after).dom().contains(k) {
            let i = choose|i: int| 0 <= i < after.len() && (#[trigger] after[i]).0 == k;
            if i < entries.len() {
                assert(entries[i].0 == k);
            }
        }
        if entries_map(entries).dom().contains(k) {
            let i = choose|i: int| 0 <= i < entries.len() && (#[trigger] entries[i]).0 == k;
            assert(after[i].0 == k);
        }
        if k == id {
            assert(after[entries.len() as int].0 == k);
        }
    }
    assert forall|k: FeedId| #[trigger]
        entries_map(after).dom().contains(k) implies entries_map(after)[k] == entries_map(
        entries,
    ).insert(id, config)[k] by {
        let i = choose|i: int| 0 <= i < after.len() && (#[trigger] after[i]).0 == k;
        lemma_position_unique(after, i);
        if i < entries.len() {
            assert(entries[i].0 == k);
            lemma_position_unique(entries, i);
        }
    }
    assert(entries_map(after) =~= entries_map(entries).insert(id, config));
}

/// Replacing the configuration at one position replaces it for that feed alone.
pub proof fn lemma_entries_update(
    entries: Seq<(FeedId, PriceFeedClientConfig)>,
    at: int,
    config: PriceFeedClientConfig,
)
    requires
        distinct_feeds(entries),
        0 <= at < entries.len(),
    ensures
        distinct_feeds(entries.update(at, (entries[at].0, config))),
        entries_map(entries.update(at, (entries[at].0, config))) == entries_map(entries).insert(
            entries[at].0,
            config,
        ),
{
    let id = entries[at].0;
    let after = entries.update(at, (id, config));
    assert forall|i: int, j: int| 0 <= i < j < after.len() implies (#[trigger] after[i]).0 != (
    #[trigger] after[j]).0 by {
        assert(after[i].0 == entries[i].0);
        assert(after[j].0 == entries[j].0);
    }
    assert forall|k: FeedId| #[trigger]
        entries_map(after).dom().contains(k) == entries_map(entries).insert(
            id,
            config,
        ).dom().contains(k) by {
        if entries_map(after).dom().contains(k) {
            let i = choose|i: int| 0 <= i < after.len() && (#[trigger] after[i]).0 == k;
            assert(entries[i].0 == k);
        }
        if entries_map(entries).dom().contains(k) {
            let i = choose|i: int| 0 <= i < entries.len() && (#[trigger] entries[i]).0 == k;
            assert(after[i].0 == k);
        }
        if k == id {
            assert(after[at].0 == k);
        }
    }
    assert forall|k: FeedId| #[trigger]
        entries_map(after).dom().contains(k) implies entries_map(after)[k] == entries_map(
        entries,
    ).insert(id, config)[k] by {
        let i = choose|i: int| 0 <= i < after.len() && (#[trigger] after[i]).0 == k;
        lemma_position_unique(after, i);
        assert(entries[i].0 == k);
        lemma_position_unique(entries, i);
    }
    assert(entries_map(after) =~= entries_map(entries).insert(id, config));
}

/// Taking one position out drops that feed alone.
pub proof fn lemma_entries_remove(entries: Seq<(FeedId, PriceFeedClientConfig)>, at: int)
    requires
        distinct_feeds(entries),
        0 <= at < entries.len(),
    ensures
        distinct_feeds(entries.remove(at)),
        entries_map(entries.remove(at)) == entries_map(entries).remove(entries[at].0),
{
    let id = entries[at].0;
    let after = entries.remove(at);
    assert forall|i: int| 0 <= i < after.len() implies #[trigger] after[i] == entries[if i
        < at {
        i
    } else {
        i + 1
    }] by {}
    assert forall|i: int, j: int| 0 <= i < j < after.len() implies (#[trigger] after[i]).0 != (
    #[trigger] after[j]).0 by {
        let oi = if i < at { i } else { i + 1 };
        let oj = if j < at { j } else { j + 1 };
        assert(after[i] == entries[oi]);
        assert(after[j] == entries[oj]);
        assert(entries[oi].0 != entries[oj].0);
    }
    assert forall|k: FeedId| #[trigger]
        entries_map(after).dom().contains(k) == entries_map(entries).remove(id).dom().contains(
            k,
        ) by {
        if entries_map(after).dom().contains(k) {
            let i = choose|i: int| 0 <= i < after.len() && (#[trigger] after[i]).0 == k;
            let oi = if i < at { i } else { i + 1 };
            assert(after[i] == entries[oi]);
            assert(entries[oi].0 == k);
            if k == id {
                if oi < at {
                    assert(entries[oi].0 != entries[at].0);
                } else {
                    assert(entries[at].0 != entries[oi].0);
                }
            }
        }
        if entries_map(entries).remove(id).dom().contains(k) {
            let i = choose|i: int| 0 <= i < entries.len() && (#[trigger] entries[i]).0 == k;
            let ni = if i < at { i } else { i - 1 };
            assert(after[ni] == entries[i]);
            assert(after[ni].0 == k);
        }
    }
    assert forall|k: FeedId| #[trigger]
        entries_map(after).dom().contains(k) implies entries_map(after)[k] == entries_map(
        entries,
    ).remove(id)[k] by {
        let i = choose|i: int| 0 <= i < after.len() && (#[trigger] after[i]).0 == k;
        let oi = if i < at { i } else { i + 1 };
        lemma_position_unique(after, i);
        assert(after[i] == entries[oi]);
        lemma_position_unique(entries, oi);
    }
    assert(entries_map(after) =~= entries_map(entries).remove(id));
}

/// The feeds a connection follows, each with its rendering configuration.
/// No feed is listed twice.
pub struct Subscriptions {
    entries: Vec<(FeedId, PriceFeedClientConfig)>,
}

impl View for Subscriptions {
    type V = Map<FeedId, PriceFeedClientConfig>;

    closed spec fn view(&self) -> Map<FeedId, PriceFeedClientConfig> {
        entries_map(self.entries@)
    }
}

impl Subscriptions {
    #[verifier::type_invariant]
    spec fn well_formed(self) -> bool {
        distinct_feeds(self.entries@)
    }

    /// An empty table.
    pub fn new() -> (table: Self)
        ensures
            table@ == Map::<FeedId, PriceFeedClientConfig>::empty(),
    {
        let table = Subscriptions { entries: Vec::new() };
        assert(table@ =~= Map::<FeedId, PriceFeedClientConfig>::empty());
        table
    }

    /// The position at which `id` is listed, if it is.
    fn find(&self, id: &FeedId) -> (found: Option<usize>)
        ensures
            match found {
                Some(at) => at < self.entries@.len() && self.entries@[at as int].0 == *id,
                None => !self@.dom().contains(*id),
            },
    {
        let mut i: usize = 0;
        while i < self.entries.len()
            invariant
                i <= self.entries@.len(),
                forall|j: int| 0 <= j < i ==> (#[trigger] self.entries@[j]).0 != *id,
            decreases self.entries@.len() - i,
        {
            if same_feed(&self.entries[i].0, id) {
                return Some(i);
            }
            i += 1;
        }
        None
    }

    /// The configuration under which `id` is followed, if it is.
    pub fn get(&self, id: &FeedId) -> (config: Option<PriceFeedClientConfig>)
        ensures
            config == if self@.dom().contains(*id) {
                Some(self@[*id])
            } else {
                None
            },
    {
        proof {
            use_type_invariant(self);
        }
        match self.find(id) {
            Some(at) => {
                proof {
                    lemma_position_unique(self.entries@, at as int);
                }
                Some(self.entries[at].1)
            },
            None => None,
        }
    }

    /// Whether `id` is followed.
    pub fn contains(&self, id: &FeedId) -> (followed: bool)
        ensures
            followed == self@.dom().contains(*id),
    {
        self.find(id).is_some()
    }

    /// Follows `id` under `config`, replacing any earlier configuration of it.
    pub fn insert(&mut self, id: FeedId, config: PriceFeedClientConfig)
        ensures
            final(self)@ == old(self)@.insert(id, config),
    {
        proof {
            use_type_invariant(&*self);
        }
        let found = self.find(&id);
        let mut entries: Vec<(FeedId, PriceFeedClientConfig)> = Vec::new();
        core::mem::swap(&mut self.entries, &mut entries);
        match found {
            Some(at) => {
                proof {
                    lemma_entries_update(entries@, at as int, config);
                }
                entries.set(at, (id, config));
            },
            None => {
                proof {
                    lemma_entries_push(entries@, id, config);
                }
                entries.push((id, config));
            },
        }
        self.entries = entries;
    }

    /// Stops following `id`; a feed that is not followed is left as it is.
    pub fn remove(&mut self, id: &FeedId)
        ensures
            final(self)@ == old(self)@.remove(*id),
    {
        proof {
            use_type_invariant(&*self);
        }
        let found = self.find(id);
        let mut entries: Vec<(FeedId, PriceFeedClientConfig)> = Vec::new();
        core::mem::swap(&mut self.entries, &mut entries);
        match found {
            Some(at) => {
                proof {
                    lemma_entries_remove(entries@, at as int);
                }
                entries.remove(at);
            },
            None => {
                assert(entries_map(entries@).remove(*id) =~= entries_map(entries@));
            },
        }
        self.entries = entries;
    }

    /// How many feeds are followed.
    pub fn len(&self) -> (count: usize)
        ensures
            count == self@.dom().len(),
            self@.dom().finite(),
    {
        proof {
            use_type_invariant(self);
            lemma_entries_domain(self.entries@);
        }
        self.entries.len()
    }

    /// The followed feeds, each once.
    pub fn feed_ids(&self) -> (ids: Vec<FeedId>)
        ensures
            ids@.no_duplicates(),
            ids@.to_set() == self@.dom(),
    {
        proof {
            use_type_invariant(self);
        }
        let mut ids: Vec<FeedId> = Vec::new();
        let mut i: usize = 0;
        while i < self.entries.len()
            invariant
                i <= self.entries@.len(),
                ids@.len() == i,
                forall|j: int| 0 <= j < i ==> ids@[j] == (#[trigger] self.entries@[j]).0,
            decreases self.entries@.len() - i,
        {
            ids.push(self.entries[i].0);
            i += 1;
        }
        proof {
            assert forall|a: int, b: int| 0 <= a < ids@.len() && 0 <= b < ids@.len() && a
                != b implies ids@[a] != ids@[b] by {
                assert(ids@[a] == self.entries@[a].0);
                assert(ids@[b] == self.entries@[b].0);
                if a < b {
                    assert(self.entries@[a].0 != self.entries@[b].0);
                } else {
                    assert(self.entries@[b].0 != self.entries@[a].0);
                }
            }
            assert forall|k: FeedId| ids@.to_set().contains(k) == self@.dom().contains(k) by {
                if ids@.to_set().contains(k) {
                    let j = choose|j: int| 0 <= j < ids@.len() && ids@[j] == k;
                    assert(self.entries@[j].0 == k);
                }
                if self@.dom().contains(k) {
                    let j = choose|j: int|
                        0 <= j < self.entries@.len() && (#[trigger] self.entries@[j]).0 == k;
                    assert(ids@[j] == k);
                }
            }
            assert(ids@.to_set() =~= self@.dom());
        }
        ids
    }
}

/// A list with distinct keys stands for as many feeds as it has entries.
pub proof fn lemma_entries_domain(entries: Seq<(FeedId, PriceFeedClientConfig)>)
    requires
        distinct_feeds(entries),
    ensures
        entries_map(entries).dom().finite(),
        entries_map(entries).dom().len() == entries.len(),
    decreases entries.len(),
{
    if entries.len() == 0 {
        assert(entries_map(entries).dom() =~= Set::<FeedId>::empty());
    } else {
        let last = entries.last();
        let front = entries.drop_last();
        assert forall|i: int, j: int| 0 <= i < j < front.len() implies (#[trigger] front[i]).0 != (
        #[trigger] front[j]).0 by {
            assert(front[i] == entries[i]);
            assert(front[j] == entries[j]);
        }
        lemma_entries_domain(front);
        if entries_map(front).dom().contains(last.0) {
            let i = choose|i: int| 0 <= i < front.len() && (#[trigger] front[i]).0 == last.0;
            assert(front[i] == entries[i]);
            assert(entries[i].0 != entries[entries.len() - 1].0);
        }
        lemma_entries_push(front, last.0, last.1);
        assert(front.push((last.0, last.1)) =~= entries);
    }
}

} // verus!

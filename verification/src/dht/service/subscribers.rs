//! Who waits for DHT peers of which torrent: each subscriber gets an id when
//! it registers, peers found for a torrent go to all of its subscribers, and
//! a torrent with no subscriber left is forgotten.
//!
//! The registry keeps subscriber ids; the channel each id stands for is the
//! caller's.
use vstd::prelude::*;
use crate::dht::InfoHash;
use crate::dht::service::planner::invariants::{same_hash, DhtDemandState};

verus! {

/// A subscriber that peers are to be handed to.
#[derive(Debug, Clone, Copy, PartialEq, Eq, Structural)]
pub struct DemandSubscriberDelivery {
    pub subscriber_id: u64,
}

/// Something asked of the registry.
#[derive(Debug)]
pub enum DemandSubscriberAction {
    Register { info_hash: InfoHash, demand: DhtDemandState },
    Unregister { info_hash: InfoHash, subscriber_id: u64 },
    /// Peers found for a torrent, as (address, port).
    DeliverPeers { info_hash: InfoHash, peers: Vec<(String, u16)> },
    /// Subscribers whose channels turned out closed.
    PruneDeadSubscribers { info_hash: InfoHash, subscriber_ids: Vec<u64> },
}

/// What the caller must do after an action.
#[derive(Debug)]
pub enum DemandSubscriberEffect {
    Registered { info_hash: InfoHash, demand: DhtDemandState, subscriber_id: u64 },
    SubscriberRemoved { info_hash: InfoHash },
    DeliverPeers { info_hash: InfoHash, peers: Vec<(String, u16)>, deliveries: Vec<DemandSubscriberDelivery> },
}

/// The outcome of an action: the new subscriber's id, for a registration,
/// and the effects.
#[derive(Debug)]
pub struct DemandSubscriberReduction {
    pub subscriber_id: Option<u64>,
    pub effects: Vec<DemandSubscriberEffect>,
}

/// The subscribers of each torrent, torrents in the order they were first
/// subscribed to.
#[derive(Debug)]
pub struct DemandSubscriberRegistry {
    pub subscribers: Vec<(InfoHash, Vec<u64>)>,
    /// The id the next registration gets.
    pub next_subscriber_id: u64,
}

/// Whether some entry is for torrent `h`.
pub open spec fn has_hash(s: Seq<(InfoHash, Vec<u64>)>, h: InfoHash) -> bool {
    exists|i: int| 0 <= i < s.len() && (#[trigger] s[i]).0 == h
}

/// The subscribers of torrent `h`.
pub open spec fn ids_of(s: Seq<(InfoHash, Vec<u64>)>, h: InfoHash) -> Set<u64> {
    Set::new(|id: u64| exists|i: int| 0 <= i < s.len() && (#[trigger] s[i]).0 == h && s[i].1@.contains(id))
}

/// The registry as a map from torrent to its subscribers.
pub open spec fn subscriber_map(s: Seq<(InfoHash, Vec<u64>)>) -> Map<InfoHash, Set<u64>> {
    Map::new(|h: InfoHash| has_hash(s, h), |h: InfoHash| ids_of(s, h))
}

/// The subscribers of `h` in `m` (none when `h` is absent).
pub open spec fn subscribers_in(m: Map<InfoHash, Set<u64>>, h: InfoHash) -> Set<u64> {
    if m.contains_key(h) { m[h] } else { Set::empty() }
}

/// `m` with subscriber `id` added to torrent `h`.
pub open spec fn spec_register(m: Map<InfoHash, Set<u64>>, h: InfoHash, id: u64) -> Map<InfoHash, Set<u64>> {
    m.insert(h, subscribers_in(m, h).insert(id))
}

/// Whether `m` has subscriber `id` for torrent `h`.
pub open spec fn subscribed(m: Map<InfoHash, Set<u64>>, h: InfoHash, id: u64) -> bool {
    m.contains_key(h) && m[h].contains(id)
}

/// `m` without subscriber `id` of torrent `h`; a torrent left without
/// subscribers is dropped.
pub open spec fn spec_remove(m: Map<InfoHash, Set<u64>>, h: InfoHash, id: u64) -> Map<InfoHash, Set<u64>> {
    if subscribed(m, h, id) {
        let rest = m[h].remove(id);
        if rest == Set::<u64>::empty() { m.remove(h) } else { m.insert(h, rest) }
    } else {
        m
    }
}

/// `m` after removing the subscribers `ids` of torrent `h` one by one.
pub open spec fn spec_prune(m: Map<InfoHash, Set<u64>>, h: InfoHash, ids: Seq<u64>) -> Map<InfoHash, Set<u64>>
    decreases ids.len(),
{
    if ids.len() == 0 {
        m
    } else {
        spec_remove(spec_prune(m, h, ids.drop_last()), h, ids.last())
    }
}

/// How many of the removals in `spec_prune` found their subscriber.
pub open spec fn prune_count(m: Map<InfoHash, Set<u64>>, h: InfoHash, ids: Seq<u64>) -> nat
    decreases ids.len(),
{
    if ids.len() == 0 {
        0
    } else {
        prune_count(m, h, ids.drop_last()) + if subscribed(spec_prune(m, h, ids.drop_last()), h, ids.last()) {
            1nat
        } else {
            0nat
        }
    }
}

/// Whether every set in `m` is non-empty.
pub open spec fn no_empty_sets(m: Map<InfoHash, Set<u64>>) -> bool {
    forall|h: InfoHash| #[trigger] m.contains_key(h) ==> m[h] != Set::<u64>::empty()
}

impl View for DemandSubscriberRegistry {
    type V = Map<InfoHash, Set<u64>>;

    open spec fn view(&self) -> Map<InfoHash, Set<u64>> {
        subscriber_map(self.subscribers@)
    }
}

impl DemandSubscriberRegistry {
    /// One entry per torrent, each with at least one subscriber and no id
    /// twice; every id below the next one to hand out (unless the counter is
    /// exhausted).
    pub open spec fn wf(&self) -> bool {
        let s = self.subscribers@;
        &&& forall|i: int, j: int| 0 <= i < j < s.len() ==> (#[trigger] s[i]).0 != (#[trigger] s[j]).0
        &&& forall|i: int| 0 <= i < s.len() ==> (#[trigger] s[i]).1@.len() > 0 && s[i].1@.no_duplicates()
        &&& forall|i: int, k: int| 0 <= i < s.len() && 0 <= k < s[i].1@.len() ==>
            (#[trigger] s[i].1@[k] < self.next_subscriber_id || self.next_subscriber_id == u64::MAX)
    }

    /// An empty registry whose first id is 1.
    pub fn new() -> (r: Self)
        ensures
            r.wf(),
            r@ == Map::<InfoHash, Set<u64>>::empty(),
            r.next_subscriber_id == 1,
    {
        let r = DemandSubscriberRegistry { subscribers: Vec::new(), next_subscriber_id: 1 };
        assert(r@ =~= Map::<InfoHash, Set<u64>>::empty());
        r
    }

    /// A well-formed registry has no torrent without subscribers, and no
    /// subscriber holds the next id while the counter has room.
    pub proof fn lemma_wf_view(&self)
        requires
            self.wf(),
        ensures
            no_empty_sets(self@),
            self.next_subscriber_id < u64::MAX ==> forall|h: InfoHash| !subscribed(self@, h, self.next_subscriber_id),
    {
        let s = self.subscribers@;
        assert forall|h: InfoHash| #[trigger] self@.contains_key(h) implies self@[h] != Set::<u64>::empty() by {
            let i = choose|i: int| 0 <= i < s.len() && (#[trigger] s[i]).0 == h;
            assert(s[i].1@.contains(s[i].1@[0]));
            assert(ids_of(s, h).contains(s[i].1@[0]));
        }
        if self.next_subscriber_id < u64::MAX {
            assert forall|h: InfoHash| !subscribed(self@, h, self.next_subscriber_id) by {
                if subscribed(self@, h, self.next_subscriber_id) {
                    let i = choose|i: int| 0 <= i < s.len() && (#[trigger] s[i]).0 == h && s[i].1@.contains(self.next_subscriber_id);
                    let k = s[i].1@.index_of(self.next_subscriber_id);
                    assert(s[i].1@[k] < self.next_subscriber_id);
                }
            }
        }
    }

    /// Where torrent `h`'s entry is.
    fn find_hash(&self, h: &InfoHash) -> (r: Option<usize>)
        ensures
            match r {
                Some(i) => i < self.subscribers@.len() && self.subscribers@[i as int].0 == *h,
                None => !has_hash(self.subscribers@, *h),
            },
    {
        let mut i: usize = 0;
        while i < self.subscribers.len()
            invariant
                i <= self.subscribers@.len(),
                forall|j: int| 0 <= j < i ==> (#[trigger] self.subscribers@[j]).0 != *h,
            decreases self.subscribers@.len() - i,
        {
            if same_hash(&self.subscribers[i].0, h) {
                return Some(i);
            }
            i = i + 1;
        }
        None
    }

    /// In a well-formed registry, the subscribers of the torrent at entry `i`
    /// are that entry's ids.
    proof fn lemma_entry_ids(&self, i: int)
        requires
            self.wf(),
            0 <= i < self.subscribers@.len(),
        ensures
            forall|id: u64| #[trigger] ids_of(self.subscribers@, self.subscribers@[i].0).contains(id)
                <==> self.subscribers@[i].1@.contains(id),
            self@.contains_key(self.subscribers@[i].0),
    {
        let s = self.subscribers@;
        assert forall|id: u64| #[trigger] ids_of(s, s[i].0).contains(id) <==> s[i].1@.contains(id) by {
            if ids_of(s, s[i].0).contains(id) {
                let j = choose|j: int| 0 <= j < s.len() && (#[trigger] s[j]).0 == s[i].0 && s[j].1@.contains(id);
                if j != i {
                    if i < j {
                        assert(s[i].0 != s[j].0);
                    } else {
                        assert(s[j].0 != s[i].0);
                    }
                }
            }
        }
        assert(has_hash(s, s[i].0));
    }

    /// Adds subscriber `id` to torrent `h`.
    fn add_subscriber(&mut self, h: InfoHash, id: u64)
        requires
            old(self).wf(),
            id < old(self).next_subscriber_id || old(self).next_subscriber_id == u64::MAX,
        ensures
            final(self).wf(),
            final(self)@ == spec_register(old(self)@, h, id),
            final(self).next_subscriber_id == old(self).next_subscriber_id,
    {
        let ghost s0 = self.subscribers@;
        match self.find_hash(&h) {
            Some(i) => {
                proof {
                    self.lemma_entry_ids(i as int);
                }
                if !contains_id(&self.subscribers[i].1, id) {
                    self.subscribers[i].1.push(id);
                }
                let ghost s1 = self.subscribers@;
                proof {
                    assert forall|a: int, b: int| 0 <= a < b < s1.len() implies (#[trigger] s1[a]).0 != (#[trigger] s1[b]).0 by {
                        assert(s1[a].0 == s0[a].0 && s1[b].0 == s0[b].0);
                    }
                    assert forall|a: int| 0 <= a < s1.len() implies (#[trigger] s1[a]).1@.len() > 0 && s1[a].1@.no_duplicates() by {
                        if a != i {
                            assert(s1[a] == s0[a]);
                        }
                    }
                    assert forall|a: int, k: int| 0 <= a < s1.len() && 0 <= k < s1[a].1@.len() implies
                        (#[trigger] s1[a].1@[k] < self.next_subscriber_id || self.next_subscriber_id == u64::MAX) by {
                        if a != i {
                            assert(s1[a] == s0[a]);
                        } else if k < s0[a].1@.len() {
                            assert(s1[a].1@[k] == s0[a].1@[k]);
                        }
                    }
                    assert(self@ =~= spec_register(old(self)@, h, id)) by {
                        assert forall|g: InfoHash| has_hash(s1, g) <==> #[trigger] spec_register(old(self)@, h, id).contains_key(g) by {
                            if has_hash(s0, g) {
                                let j = choose|j: int| 0 <= j < s0.len() && (#[trigger] s0[j]).0 == g;
                                assert(s1[j].0 == g);
                            }
                            if has_hash(s1, g) {
                                let j = choose|j: int| 0 <= j < s1.len() && (#[trigger] s1[j]).0 == g;
                                assert(s0[j].0 == g);
                            }
                        }
                        assert forall|g: InfoHash| #[trigger] has_hash(s1, g) implies ids_of(s1, g) =~= spec_register(old(self)@, h, id)[g] by {
                            assert forall|x: u64| ids_of(s1, g).contains(x) <==> #[trigger] spec_register(old(self)@, h, id)[g].contains(x) by {
                                if ids_of(s1, g).contains(x) {
                                    let j = choose|j: int| 0 <= j < s1.len() && (#[trigger] s1[j]).0 == g && s1[j].1@.contains(x);
                                    if j != i {
                                        assert(s1[j] == s0[j]);
                                        assert(ids_of(s0, g).contains(x));
                                    } else if x != id {
                                        let k = s1[j].1@.index_of(x);
                                        assert(s0[j].1@.contains(x)) by {
                                            if k >= s0[j].1@.len() {
                                                assert(s1[j].1@[k] == id);
                                            } else {
                                                assert(s0[j].1@[k] == x);
                                            }
                                        }
                                        assert(ids_of(s0, g).contains(x));
                                    }
                                }
                                if spec_register(old(self)@, h, id)[g].contains(x) {
                                    if g == h && x == id {
                                        if s0[i as int].1@.contains(id) {
                                            let k = s0[i as int].1@.index_of(id);
                                            assert(s1[i as int].1@[k] == id);
                                        } else {
                                            assert(s1[i as int].1@[s0[i as int].1@.len() as int] == id);
                                        }
                                        assert(s1[i as int].1@.contains(id));
                                        assert(ids_of(s1, g).contains(x));
                                    } else {
                                        assert(ids_of(s0, g).contains(x));
                                        let j = choose|j: int| 0 <= j < s0.len() && (#[trigger] s0[j]).0 == g && s0[j].1@.contains(x);
                                        if j != i {
                                            assert(s1[j] == s0[j]);
                                        } else {
                                            let k = s0[j].1@.index_of(x);
                                            assert(s1[j].1@[k] == x);
                                        }
                                        assert(ids_of(s1, g).contains(x));
                                    }
                                }
                            }
                        }
                    }
                }
            },
            None => {
                let mut ids: Vec<u64> = Vec::new();
                ids.push(id);
                self.subscribers.push((h, ids));
                let ghost s1 = self.subscribers@;
                proof {
                    let n = s0.len() as int;
                    assert forall|a: int, b: int| 0 <= a < b < s1.len() implies (#[trigger] s1[a]).0 != (#[trigger] s1[b]).0 by {
                        if b == n {
                            assert(s1[a] == s0[a]);
                        } else {
                            assert(s1[a] == s0[a] && s1[b] == s0[b]);
                        }
                    }
                    assert forall|a: int| 0 <= a < s1.len() implies (#[trigger] s1[a]).1@.len() > 0 && s1[a].1@.no_duplicates() by {
                        if a < n {
                            assert(s1[a] == s0[a]);
                        }
                    }
                    assert forall|a: int, k: int| 0 <= a < s1.len() && 0 <= k < s1[a].1@.len() implies
                        (#[trigger] s1[a].1@[k] < self.next_subscriber_id || self.next_subscriber_id == u64::MAX) by {
                        if a < n {
                            assert(s1[a] == s0[a]);
                        }
                    }
                    assert(self@ =~= spec_register(old(self)@, h, id)) by {
                        assert forall|g: InfoHash| has_hash(s1, g) <==> #[trigger] spec_register(old(self)@, h, id).contains_key(g) by {
                            if has_hash(s0, g) {
                                let j = choose|j: int| 0 <= j < s0.len() && (#[trigger] s0[j]).0 == g;
                                assert(s1[j] == s0[j]);
                            }
                            if g == h {
                                assert(s1[n].0 == h);
                            }
                            if has_hash(s1, g) && g != h {
                                let j = choose|j: int| 0 <= j < s1.len() && (#[trigger] s1[j]).0 == g;
                                assert(s0[j] == s1[j]);
                            }
                        }
                        assert forall|g: InfoHash| #[trigger] has_hash(s1, g) implies ids_of(s1, g) =~= spec_register(old(self)@, h, id)[g] by {
                            assert forall|x: u64| ids_of(s1, g).contains(x) <==> #[trigger] spec_register(old(self)@, h, id)[g].contains(x) by {
                                if ids_of(s1, g).contains(x) {
                                    let j = choose|j: int| 0 <= j < s1.len() && (#[trigger] s1[j]).0 == g && s1[j].1@.contains(x);
                                    if j < n {
                                        assert(s1[j] == s0[j]);
                                        assert(ids_of(s0, g).contains(x));
                                    } else {
                                        assert(s1[j].1@ == seq![id]);
                                    }
                                }
                                if spec_register(old(self)@, h, id)[g].contains(x) {
                                    if g == h && x == id {
                                        assert(s1[n].1@[0] == id);
                                        assert(s1[n].1@.contains(id));
                                        assert(ids_of(s1, g).contains(x));
                                    } else {
                                        assert(ids_of(s0, g).contains(x));
                                        let j = choose|j: int| 0 <= j < s0.len() && (#[trigger] s0[j]).0 == g && s0[j].1@.contains(x);
                                        assert(s1[j] == s0[j]);
                                        assert(ids_of(s1, g).contains(x));
                                    }
                                }
                            }
                        }
                    }
                }
            },
        }
    }

    /// Applies one action. A registration takes the next id (the counter
    /// stops at `u64::MAX`); unregistering and pruning remove subscribers
    /// and report each one found; peers go to every subscriber of their
    /// torrent, and nowhere when it has none.
    pub fn update(&mut self, action: DemandSubscriberAction) -> (r: DemandSubscriberReduction)
        requires
            old(self).wf(),
        ensures
            final(self).wf(),
            counter_step(old(self).next_subscriber_id, action, final(self).next_subscriber_id, r.subscriber_id),
            match action {
                DemandSubscriberAction::Register { info_hash, demand } => {
                    let id = old(self).next_subscriber_id;
                    &&& r.subscriber_id == Some(id)
                    &&& final(self).next_subscriber_id == if id == u64::MAX { id } else { (id + 1) as u64 }
                    &&& final(self)@ == spec_register(old(self)@, info_hash, id)
                    &&& r.effects@ == seq![(DemandSubscriberEffect::Registered { info_hash, demand, subscriber_id: id })]
                },
                DemandSubscriberAction::Unregister { info_hash, subscriber_id } => {
                    &&& r.subscriber_id is None
                    &&& final(self).next_subscriber_id == old(self).next_subscriber_id
                    &&& final(self)@ == spec_remove(old(self)@, info_hash, subscriber_id)
                    &&& r.effects@ == if subscribed(old(self)@, info_hash, subscriber_id) {
                        seq![(DemandSubscriberEffect::SubscriberRemoved { info_hash })]
                    } else {
                        Seq::empty()
                    }
                },
                DemandSubscriberAction::DeliverPeers { info_hash, peers } => {
                    &&& r.subscriber_id is None
                    &&& *final(self) == *old(self)
                    &&& if old(self)@.contains_key(info_hash) {
                        &&& r.effects@.len() == 1
                        &&& r.effects@[0] matches DemandSubscriberEffect::DeliverPeers { info_hash: h, peers: p, deliveries }
                        &&& h == info_hash
                        &&& p == peers
                        &&& delivered_ids(deliveries@).no_duplicates()
                        &&& forall|id: u64| #[trigger] delivered_ids(deliveries@).contains(id) <==> old(self)@[info_hash].contains(id)
                    } else {
                        r.effects@.len() == 0
                    }
                },
                DemandSubscriberAction::PruneDeadSubscribers { info_hash, subscriber_ids } => {
                    &&& r.subscriber_id is None
                    &&& final(self).next_subscriber_id == old(self).next_subscriber_id
                    &&& final(self)@ == spec_prune(old(self)@, info_hash, subscriber_ids@)
                    &&& r.effects@.len() == prune_count(old(self)@, info_hash, subscriber_ids@)
                    &&& forall|j: int| 0 <= j < r.effects@.len() ==> #[trigger] r.effects@[j]
                        == (DemandSubscriberEffect::SubscriberRemoved { info_hash })
                },
            },
    {
        match action {
            DemandSubscriberAction::Register { info_hash, demand } => {
                let id = self.next_subscriber_id;
                self.next_subscriber_id = self.next_subscriber_id.saturating_add(1);
                self.add_subscriber(info_hash, id);
                let mut effects: Vec<DemandSubscriberEffect> = Vec::new();
                effects.push(DemandSubscriberEffect::Registered { info_hash, demand, subscriber_id: id });
                proof {
                    assert(effects@ =~= seq![DemandSubscriberEffect::Registered { info_hash, demand, subscriber_id: id }]);
                }
                DemandSubscriberReduction { subscriber_id: Some(id), effects }
            },
            DemandSubscriberAction::Unregister { info_hash, subscriber_id } => {
                let removed = self.remove_subscriber(&info_hash, subscriber_id);
                let mut effects: Vec<DemandSubscriberEffect> = Vec::new();
                if removed {
                    effects.push(DemandSubscriberEffect::SubscriberRemoved { info_hash });
                }
                proof {
                    if removed {
                        assert(effects@ =~= seq![DemandSubscriberEffect::SubscriberRemoved { info_hash }]);
                    } else {
                        assert(effects@ =~= Seq::<DemandSubscriberEffect>::empty());
                    }
                }
                DemandSubscriberReduction { subscriber_id: None, effects }
            },
            DemandSubscriberAction::DeliverPeers { info_hash, peers } => {
                let mut effects: Vec<DemandSubscriberEffect> = Vec::new();
                match self.find_hash(&info_hash) {
                    Some(i) => {
                        proof {
                            self.lemma_entry_ids(i as int);
                        }
                        let ids = &self.subscribers[i].1;
                        let mut deliveries: Vec<DemandSubscriberDelivery> = Vec::new();
                        let mut k: usize = 0;
                        while k < ids.len()
                            invariant
                                k <= ids@.len(),
                                delivered_ids(deliveries@) == ids@.take(k as int),
                            decreases ids@.len() - k,
                        {
                            deliveries.push(DemandSubscriberDelivery { subscriber_id: ids[k] });
                            proof {
                                assert(ids@.take(k + 1) =~= ids@.take(k as int).push(ids@[k as int]));
                                assert(delivered_ids(deliveries@) =~= ids@.take(k + 1));
                            }
                            k = k + 1;
                        }
                        proof {
                            assert(ids@.take(k as int) =~= ids@);
                            assert(self.subscribers@[i as int].1@.no_duplicates());
                        }
                        effects.push(DemandSubscriberEffect::DeliverPeers { info_hash, peers, deliveries });
                    },
                    None => {},
                }
                DemandSubscriberReduction { subscriber_id: None, effects }
            },
            DemandSubscriberAction::PruneDeadSubscribers { info_hash, subscriber_ids } => {
                let mut effects: Vec<DemandSubscriberEffect> = Vec::new();
                let mut k: usize = 0;
                while k < subscriber_ids.len()
                    invariant
                        self.wf(),
                        k <= subscriber_ids@.len(),
                        self.next_subscriber_id == old(self).next_subscriber_id,
                        self@ == spec_prune(old(self)@, info_hash, subscriber_ids@.take(k as int)),
                        effects@.len() == prune_count(old(self)@, info_hash, subscriber_ids@.take(k as int)),
                        forall|j: int| 0 <= j < effects@.len() ==> #[trigger] effects@[j]
                            == (DemandSubscriberEffect::SubscriberRemoved { info_hash }),
                    decreases subscriber_ids@.len() - k,
                {
                    proof {
                        let t = subscriber_ids@.take(k + 1);
                        assert(t.drop_last() =~= subscriber_ids@.take(k as int));
                        assert(t.last() == subscriber_ids@[k as int]);
                    }
                    let removed = self.remove_subscriber(&info_hash, subscriber_ids[k]);
                    if removed {
                        effects.push(DemandSubscriberEffect::SubscriberRemoved { info_hash });
                    }
                    k = k + 1;
                }
                proof {
                    assert(subscriber_ids@.take(k as int) =~= subscriber_ids@);
                }
                DemandSubscriberReduction { subscriber_id: None, effects }
            },
        }
    }

    /// Removes subscriber `id` of torrent `h`, dropping the torrent when it
    /// was the last; says whether it was there.
    fn remove_subscriber(&mut self, h: &InfoHash, id: u64) -> (removed: bool)
        requires
            old(self).wf(),
        ensures
            final(self).wf(),
            removed == subscribed(old(self)@, *h, id),
            final(self)@ == spec_remove(old(self)@, *h, id),
            final(self).next_subscriber_id == old(self).next_subscriber_id,
    {
        let ghost s0 = self.subscribers@;
        match self.find_hash(h) {
            None => {
                assert(!self@.contains_key(*h));
                false
            },
            Some(i) => {
                proof {
                    self.lemma_entry_ids(i as int);
                }
                match position_of(&self.subscribers[i].1, id) {
                    None => {
                        assert(!subscribed(self@, *h, id));
                        false
                    },
                    Some(k) => {
                        let ghost v0 = s0[i as int].1@;
                        self.subscribers[i].1.remove(k);
                        let ghost s1 = self.subscribers@;
                        proof {
                            assert(s1[i as int].1@ == v0.remove(k as int));
                            assert(!s1[i as int].1@.contains(id)) by {
                                if s1[i as int].1@.contains(id) {
                                    let j = s1[i as int].1@.index_of(id);
                                    if j < k {
                                        assert(v0[j] == id);
                                    } else {
                                        assert(v0[j + 1] == id);
                                    }
                                }
                            }
                            assert forall|x: u64| #[trigger] s1[i as int].1@.contains(x) <==> (v0.contains(x) && x != id) by {
                                if v0.contains(x) && x != id {
                                    let j = v0.index_of(x);
                                    if j < k {
                                        assert(s1[i as int].1@[j] == x);
                                    } else {
                                        assert(j != k);
                                        assert(s1[i as int].1@[j - 1] == x);
                                    }
                                }
                                if s1[i as int].1@.contains(x) {
                                    let j = s1[i as int].1@.index_of(x);
                                    if j < k {
                                        assert(v0[j] == x);
                                    } else {
                                        assert(v0[j + 1] == x);
                                    }
                                }
                            }
                            assert(s1 =~= s0.update(i as int, (*h, self.subscribers@[i as int].1)));
                            lemma_map_update(s0, i as int, self.subscribers@[i as int].1);
                            assert(Set::new(|x: u64| s1[i as int].1@.contains(x)) =~= old(self)@[*h].remove(id));
                        }
                        if self.subscribers[i].1.len() == 0 {
                            self.subscribers.remove(i);
                            proof {
                                assert(old(self)@[*h].remove(id) =~= Set::<u64>::empty());
                                lemma_map_remove(s1, i as int);
                                assert(self@ =~= spec_remove(old(self)@, *h, id));
                                let s2 = self.subscribers@;
                                assert forall|a: int, b: int| 0 <= a < b < s2.len() implies (#[trigger] s2[a]).0 != (#[trigger] s2[b]).0 by {
                                    let a1 = if a < i { a } else { a + 1 };
                                    let b1 = if b < i { b } else { b + 1 };
                                    assert(s2[a] == s1[a1] && s2[b] == s1[b1]);
                                    assert(s1[a1].0 == s0[a1].0 && s1[b1].0 == s0[b1].0);
                                }
                                assert forall|a: int| 0 <= a < s2.len() implies (#[trigger] s2[a]).1@.len() > 0 && s2[a].1@.no_duplicates() by {
                                    let a1 = if a < i { a } else { a + 1 };
                                    assert(s2[a] == s1[a1]);
                                    assert(s1[a1] == s0[a1]);
                                }
                                assert forall|a: int, q: int| 0 <= a < s2.len() && 0 <= q < s2[a].1@.len() implies
                                    (#[trigger] s2[a].1@[q] < self.next_subscriber_id || self.next_subscriber_id == u64::MAX) by {
                                    let a1 = if a < i { a } else { a + 1 };
                                    assert(s2[a] == s1[a1]);
                                    assert(s1[a1] == s0[a1]);
                                }
                            }
                        } else {
                            proof {
                                assert(s1[i as int].1@.contains(s1[i as int].1@[0]));
                                assert(old(self)@[*h].remove(id).contains(s1[i as int].1@[0]));
                                assert(old(self)@[*h].remove(id) != Set::<u64>::empty());
                                assert(self@ =~= spec_remove(old(self)@, *h, id));
                                assert forall|a: int, b: int| 0 <= a < b < s1.len() implies (#[trigger] s1[a]).0 != (#[trigger] s1[b]).0 by {
                                    assert(s1[a].0 == s0[a].0 && s1[b].0 == s0[b].0);
                                }
                                assert forall|a: int| 0 <= a < s1.len() implies (#[trigger] s1[a]).1@.len() > 0 && s1[a].1@.no_duplicates() by {
                                    if a != i {
                                        assert(s1[a] == s0[a]);
                                    } else {
                                        assert forall|p: int, q: int| 0 <= p < q < s1[a].1@.len() implies s1[a].1@[p] != s1[a].1@[q] by {
                                            let p0 = if p < k { p } else { p + 1 };
                                            let q0 = if q < k { q } else { q + 1 };
                                            assert(s1[a].1@[p] == v0[p0] && s1[a].1@[q] == v0[q0]);
                                        }
                                    }
                                }
                                assert forall|a: int, q: int| 0 <= a < s1.len() && 0 <= q < s1[a].1@.len() implies
                                    (#[trigger] s1[a].1@[q] < self.next_subscriber_id || self.next_subscriber_id == u64::MAX) by {
                                    if a != i {
                                        assert(s1[a] == s0[a]);
                                    } else {
                                        let q0 = if q < k { q } else { q + 1 };
                                        assert(s1[a].1@[q] == v0[q0]);
                                    }
                                }
                            }
                        }
                        true
                    },
                }
            },
        }
    }
}

/// How one action moves the id counter: a registration hands out the
/// counter's value and moves it on by one, stopping at `u64::MAX`; any other
/// action hands out nothing and leaves it.
pub open spec fn counter_step(before: u64, action: DemandSubscriberAction, after: u64, handed: Option<u64>) -> bool {
    match action {
        DemandSubscriberAction::Register { .. } => handed == Some(before) && after == if before == u64::MAX {
            before
        } else {
            (before + 1) as u64
        },
        _ => handed is None && after == before,
    }
}

proof fn lemma_counter_monotone(counters: Seq<u64>, actions: Seq<DemandSubscriberAction>, handed: Seq<Option<u64>>, a: int, b: int)
    requires
        counters.len() == actions.len() + 1,
        handed.len() == actions.len(),
        forall|i: int| 0 <= i < actions.len() ==> #[trigger] counter_step(counters[i], actions[i], counters[i + 1], handed[i]),
        0 <= a <= b < counters.len(),
    ensures
        counters[a] <= counters[b],
    decreases b - a,
{
    if a < b {
        lemma_counter_monotone(counters, actions, handed, a, b - 1);
        let i = b - 1;
        assert(counter_step(counters[i], actions[i], counters[i + 1], handed[i]));
    }
}

/// Over any run of actions, while the id counter stays below `u64::MAX`,
/// the registrations hand out strictly increasing ids, each at least the
/// counter's starting value and below its final one: an id is never handed
/// out twice.
pub proof fn lemma_ids_increase(counters: Seq<u64>, actions: Seq<DemandSubscriberAction>, handed: Seq<Option<u64>>)
    requires
        counters.len() == actions.len() + 1,
        handed.len() == actions.len(),
        forall|i: int| 0 <= i < actions.len() ==> #[trigger] counter_step(counters[i], actions[i], counters[i + 1], handed[i]),
        counters.last() < u64::MAX,
    ensures
        forall|i: int, j: int| 0 <= i < j < handed.len() && handed[i] is Some && handed[j] is Some
            ==> (#[trigger] handed[i])->0 < (#[trigger] handed[j])->0,
        forall|i: int| 0 <= i < handed.len() && (#[trigger] handed[i]) is Some
            ==> counters[0] <= handed[i]->0 < counters.last(),
{
    let n = actions.len() as int;
    assert forall|i: int| 0 <= i < handed.len() && (#[trigger] handed[i]) is Some
        implies counters[0] <= handed[i]->0 < counters.last() && handed[i]->0 == counters[i]
            && counters[i + 1] == counters[i] + 1 by {
        assert(counter_step(counters[i], actions[i], counters[i + 1], handed[i]));
        lemma_counter_monotone(counters, actions, handed, 0, i);
        lemma_counter_monotone(counters, actions, handed, i + 1, n);
    }
    assert forall|i: int, j: int| 0 <= i < j < handed.len() && handed[i] is Some && handed[j] is Some
        implies (#[trigger] handed[i])->0 < (#[trigger] handed[j])->0 by {
        assert(counter_step(counters[i], actions[i], counters[i + 1], handed[i]));
        assert(counter_step(counters[j], actions[j], counters[j + 1], handed[j]));
        lemma_counter_monotone(counters, actions, handed, i + 1, j);
        lemma_counter_monotone(counters, actions, handed, j + 1, n);
    }
}

/// A subscriber registered for a torrent is among that torrent's
/// subscribers, so the next peers found for it reach it.
pub proof fn lemma_registered_receives(m: Map<InfoHash, Set<u64>>, h: InfoHash, id: u64)
    ensures
        spec_register(m, h, id).contains_key(h),
        spec_register(m, h, id)[h].contains(id),
{
}

/// Unregistering the id a registration handed out undoes the registration,
/// when that id was new to the torrent (as it is while the id counter has
/// room) and no torrent is kept without subscribers.
pub proof fn lemma_unregister_undoes_register(m: Map<InfoHash, Set<u64>>, h: InfoHash, id: u64)
    requires
        no_empty_sets(m),
        !subscribed(m, h, id),
    ensures
        spec_remove(spec_register(m, h, id), h, id) == m,
{
    let m1 = spec_register(m, h, id);
    assert(subscribed(m1, h, id));
    if m.contains_key(h) {
        assert(m1[h].remove(id) =~= m[h]);
        assert(m[h] != Set::<u64>::empty());
        assert(spec_remove(m1, h, id) =~= m);
    } else {
        assert(m1[h].remove(id) =~= Set::<u64>::empty());
        assert(spec_remove(m1, h, id) =~= m);
    }
}

/// The subscriber ids of some deliveries, in order.
pub open spec fn delivered_ids(ds: Seq<DemandSubscriberDelivery>) -> Seq<u64> {
    ds.map_values(|d: DemandSubscriberDelivery| d.subscriber_id)
}

/// Whether the entries are for distinct torrents.
pub open spec fn distinct_hashes(s: Seq<(InfoHash, Vec<u64>)>) -> bool {
    forall|i: int, j: int| 0 <= i < j < s.len() ==> (#[trigger] s[i]).0 != (#[trigger] s[j]).0
}

/// Replacing the ids of entry `i` replaces that torrent's subscribers.
proof fn lemma_map_update(s0: Seq<(InfoHash, Vec<u64>)>, i: int, v: Vec<u64>)
    requires
        distinct_hashes(s0),
        0 <= i < s0.len(),
    ensures
        subscriber_map(s0.update(i, (s0[i].0, v))) =~= subscriber_map(s0).insert(
            s0[i].0,
            Set::new(|x: u64| v@.contains(x)),
        ),
{
    let h = s0[i].0;
    let s1 = s0.update(i, (h, v));
    let m1 = subscriber_map(s0).insert(h, Set::new(|x: u64| v@.contains(x)));
    assert forall|g: InfoHash| has_hash(s1, g) <==> #[trigger] m1.contains_key(g) by {
        if has_hash(s0, g) {
            let j = choose|j: int| 0 <= j < s0.len() && (#[trigger] s0[j]).0 == g;
            assert(s1[j].0 == g);
        }
        if g == h {
            assert(s1[i].0 == h);
        }
        if has_hash(s1, g) {
            let j = choose|j: int| 0 <= j < s1.len() && (#[trigger] s1[j]).0 == g;
            assert(s0[j].0 == g);
        }
    }
    assert forall|g: InfoHash| #[trigger] has_hash(s1, g) implies ids_of(s1, g) =~= m1[g] by {
        assert forall|x: u64| ids_of(s1, g).contains(x) <==> #[trigger] m1[g].contains(x) by {
            if ids_of(s1, g).contains(x) {
                let j = choose|j: int| 0 <= j < s1.len() && (#[trigger] s1[j]).0 == g && s1[j].1@.contains(x);
                if j != i {
                    assert(s1[j] == s0[j]);
                    if g == h {
                        if i < j {
                            assert(s0[i].0 != s0[j].0);
                        } else {
                            assert(s0[j].0 != s0[i].0);
                        }
                    }
                    assert(ids_of(s0, g).contains(x));
                }
            }
            if m1[g].contains(x) {
                if g == h {
                    assert(s1[i].1@.contains(x));
                } else {
                    let j = choose|j: int| 0 <= j < s0.len() && (#[trigger] s0[j]).0 == g && s0[j].1@.contains(x);
                    assert(s1[j] == s0[j]);
                }
            }
        }
    }
    assert(subscriber_map(s1) =~= m1);
}

/// Dropping entry `i` drops that torrent.
proof fn lemma_map_remove(s0: Seq<(InfoHash, Vec<u64>)>, i: int)
    requires
        distinct_hashes(s0),
        0 <= i < s0.len(),
    ensures
        subscriber_map(s0.remove(i)) =~= subscriber_map(s0).remove(s0[i].0),
{
    let h = s0[i].0;
    let s1 = s0.remove(i);
    let m1 = subscriber_map(s0).remove(h);
    assert forall|g: InfoHash| has_hash(s1, g) <==> #[trigger] m1.contains_key(g) by {
        if has_hash(s0, g) && g != h {
            let j = choose|j: int| 0 <= j < s0.len() && (#[trigger] s0[j]).0 == g;
            if j < i {
                assert(s1[j] == s0[j]);
            } else {
                assert(s1[j - 1] == s0[j]);
            }
        }
        if has_hash(s1, g) {
            let j = choose|j: int| 0 <= j < s1.len() && (#[trigger] s1[j]).0 == g;
            if j < i {
                assert(s0[j] == s1[j]);
                assert(s0[j].0 != s0[i].0);
            } else {
                assert(s0[j + 1] == s1[j]);
                assert(s0[i].0 != s0[j + 1].0);
            }
        }
    }
    assert forall|g: InfoHash| #[trigger] has_hash(s1, g) implies ids_of(s1, g) =~= m1[g] by {
        assert forall|x: u64| ids_of(s1, g).contains(x) <==> #[trigger] m1[g].contains(x) by {
            if ids_of(s1, g).contains(x) {
                let j = choose|j: int| 0 <= j < s1.len() && (#[trigger] s1[j]).0 == g && s1[j].1@.contains(x);
                if j < i {
                    assert(s0[j] == s1[j]);
                } else {
                    assert(s0[j + 1] == s1[j]);
                }
            }
            if m1[g].contains(x) {
                let j = choose|j: int| 0 <= j < s0.len() && (#[trigger] s0[j]).0 == g && s0[j].1@.contains(x);
                if j < i {
                    assert(s1[j] == s0[j]);
                } else {
                    assert(j != i);
                    assert(s1[j - 1] == s0[j]);
                }
            }
        }
    }
    assert(subscriber_map(s1) =~= m1);
}

/// Where `id` is among `ids`.
fn position_of(ids: &Vec<u64>, id: u64) -> (r: Option<usize>)
    ensures
        match r {
            Some(k) => k < ids@.len() && ids@[k as int] == id,
            None => !ids@.contains(id),
        },
{
    let mut k: usize = 0;
    while k < ids.len()
        invariant
            k <= ids@.len(),
            forall|j: int| 0 <= j < k ==> ids@[j] != id,
        decreases ids@.len() - k,
    {
        if ids[k] == id {
            return Some(k);
        }
        k = k + 1;
    }
    None
}

/// Whether `id` is among `ids`.
fn contains_id(ids: &Vec<u64>, id: u64) -> (r: bool)
    ensures
        r == ids@.contains(id),
{
    let mut k: usize = 0;
    while k < ids.len()
        invariant
            k <= ids@.len(),
            forall|j: int| 0 <= j < k ==> ids@[j] != id,
        decreases ids@.len() - k,
    {
        if ids[k] == id {
            return true;
        }
        k = k + 1;
    }
    false
}

} // verus!

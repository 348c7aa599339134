use superseedr_core::dht::service::planner::invariants::DhtDemandState;
use superseedr_core::dht::service::subscribers::{
    DemandSubscriberAction, DemandSubscriberEffect, DemandSubscriberRegistry,
};
use superseedr_core::dht::InfoHash;

fn hash(b: u8) -> InfoHash {
    [b; 20]
}

fn demand() -> DhtDemandState {
    DhtDemandState { awaiting_metadata: true, connected_peers: 0 }
}

fn register(reg: &mut DemandSubscriberRegistry, h: InfoHash) -> u64 {
    let r = reg.update(DemandSubscriberAction::Register { info_hash: h, demand: demand() });
    r.subscriber_id.expect("registration hands out an id")
}

fn delivered_ids(reg: &mut DemandSubscriberRegistry, h: InfoHash) -> Option<Vec<u64>> {
    let r = reg.update(DemandSubscriberAction::DeliverPeers {
        info_hash: h,
        peers: vec![("10.0.0.1".to_string(), 6881)],
    });
    match r.effects.as_slice() {
        [] => None,
        [DemandSubscriberEffect::DeliverPeers { info_hash, peers, deliveries }] => {
            assert_eq!(*info_hash, h);
            assert_eq!(peers, &vec![("10.0.0.1".to_string(), 6881)]);
            let mut ids: Vec<u64> = deliveries.iter().map(|d| d.subscriber_id).collect();
            ids.sort();
            Some(ids)
        }
        other => panic!("unexpected effects {:?}", other),
    }
}

#[test]
fn registrations_get_consecutive_ids_and_report_the_demand() {
    let mut reg = DemandSubscriberRegistry::new();
    let r = reg.update(DemandSubscriberAction::Register { info_hash: hash(1), demand: demand() });
    assert_eq!(r.subscriber_id, Some(1));
    assert!(matches!(
        r.effects.as_slice(),
        [DemandSubscriberEffect::Registered { subscriber_id: 1, demand: DhtDemandState { awaiting_metadata: true, connected_peers: 0 }, .. }]
    ));
    assert_eq!(register(&mut reg, hash(2)), 2);
    assert_eq!(register(&mut reg, hash(1)), 3);
    assert_eq!(reg.next_subscriber_id, 4);
}

#[test]
fn peers_reach_every_subscriber_of_their_torrent_only() {
    let mut reg = DemandSubscriberRegistry::new();
    let a = register(&mut reg, hash(1));
    let b = register(&mut reg, hash(1));
    let c = register(&mut reg, hash(2));
    assert_eq!(delivered_ids(&mut reg, hash(1)), Some(vec![a, b]));
    assert_eq!(delivered_ids(&mut reg, hash(2)), Some(vec![c]));
    assert_eq!(delivered_ids(&mut reg, hash(3)), None);
}

#[test]
fn unregister_reports_only_known_subscribers() {
    let mut reg = DemandSubscriberRegistry::new();
    let a = register(&mut reg, hash(1));
    let b = register(&mut reg, hash(1));
    let r = reg.update(DemandSubscriberAction::Unregister { info_hash: hash(1), subscriber_id: a });
    assert_eq!(r.subscriber_id, None);
    assert!(matches!(r.effects.as_slice(), [DemandSubscriberEffect::SubscriberRemoved { .. }]));
    let again = reg.update(DemandSubscriberAction::Unregister { info_hash: hash(1), subscriber_id: a });
    assert!(again.effects.is_empty());
    let wrong_torrent = reg.update(DemandSubscriberAction::Unregister { info_hash: hash(2), subscriber_id: b });
    assert!(wrong_torrent.effects.is_empty());
    assert_eq!(delivered_ids(&mut reg, hash(1)), Some(vec![b]));
}

#[test]
fn last_unregistration_forgets_the_torrent() {
    let mut reg = DemandSubscriberRegistry::new();
    let a = register(&mut reg, hash(7));
    assert_eq!(reg.subscribers.len(), 1);
    reg.update(DemandSubscriberAction::Unregister { info_hash: hash(7), subscriber_id: a });
    assert!(reg.subscribers.is_empty());
    assert_eq!(delivered_ids(&mut reg, hash(7)), None);
}

#[test]
fn prune_counts_the_subscribers_it_found() {
    let mut reg = DemandSubscriberRegistry::new();
    let a = register(&mut reg, hash(1));
    let b = register(&mut reg, hash(1));
    let c = register(&mut reg, hash(1));
    let r = reg.update(DemandSubscriberAction::PruneDeadSubscribers {
        info_hash: hash(1),
        subscriber_ids: vec![a, 99, a, c],
    });
    assert_eq!(r.effects.len(), 2);
    assert!(r
        .effects
        .iter()
        .all(|e| matches!(e, DemandSubscriberEffect::SubscriberRemoved { info_hash } if *info_hash == hash(1))));
    assert_eq!(delivered_ids(&mut reg, hash(1)), Some(vec![b]));
}

#[test]
fn register_then_unregister_restores_the_registry() {
    let mut reg = DemandSubscriberRegistry::new();
    register(&mut reg, hash(1));
    let before = format!("{:?}", reg.subscribers);
    let id = register(&mut reg, hash(1));
    reg.update(DemandSubscriberAction::Unregister { info_hash: hash(1), subscriber_id: id });
    assert_eq!(format!("{:?}", reg.subscribers), before);
    let other = register(&mut reg, hash(2));
    reg.update(DemandSubscriberAction::Unregister { info_hash: hash(2), subscriber_id: other });
    assert_eq!(format!("{:?}", reg.subscribers), before);
}

#[test]
fn ids_are_never_handed_out_twice() {
    let mut reg = DemandSubscriberRegistry::new();
    let a = register(&mut reg, hash(1));
    reg.update(DemandSubscriberAction::Unregister { info_hash: hash(1), subscriber_id: a });
    let b = register(&mut reg, hash(1));
    reg.update(DemandSubscriberAction::PruneDeadSubscribers { info_hash: hash(1), subscriber_ids: vec![b] });
    let c = register(&mut reg, hash(2));
    let d = register(&mut reg, hash(1));
    assert!(a < b && b < c && c < d);
    assert_eq!(delivered_ids(&mut reg, hash(1)), Some(vec![d]));
}

//! UDP peers grouped by socket.

use portmaster_kext::ip::{IpAddress, IpProtocol, Ipv4Address};
use portmaster_kext::key::Key;
use portmaster_kext::udp_endpoint_cache::{has_excess_capacity, UdpEndpointCache};

fn key(remote_port: u16) -> Key {
    Key {
        protocol: IpProtocol::Udp,
        local_address: IpAddress::Ipv4(Ipv4Address::new(10, 0, 0, 1)),
        local_port: 40_000,
        remote_address: IpAddress::Ipv4(Ipv4Address::new(192, 0, 2, 1)),
        remote_port,
    }
}

#[test]
fn groups_remote_tuples_under_one_endpoint_and_takes_once() {
    let mut cache = UdpEndpointCache::new();
    assert!(cache.associate_instance(10, key(1000), 100));
    assert!(cache.associate_instance(10, key(1001), 101));
    assert!(!cache.associate_instance(10, key(1001), 101));

    let closed = cache.take(10).expect("endpoint was not tracked");
    assert_eq!(closed.len(), 2);
    assert!(cache.take(10).is_none());
}

#[test]
fn resolves_only_an_accepted_exact_instance_for_a_flow_callback() {
    let mut cache = UdpEndpointCache::new();
    let peer = key(1000);
    assert!(cache.associate_instance(10, peer, 100));
    assert!(cache.associate_instance(10, peer, 300));
    assert!(cache.associate_instance(20, peer, 200));

    assert_eq!(
        cache.with_instance_id(10, &peer, |instance_id| {
            (instance_id == 300).then_some(instance_id)
        }),
        Some(300)
    );
    assert_eq!(
        cache.with_instance_id(20, &peer, |instance_id| Some(instance_id)),
        Some(200)
    );
    assert_eq!(
        cache.with_instance_id(10, &peer, |instance_id| {
            (instance_id == 200).then_some(instance_id)
        }),
        None
    );
    assert_eq!(
        cache.with_instance_id(30, &peer, |instance_id| Some(instance_id)),
        None
    );
    assert_eq!(
        cache.with_instance_id(10, &key(1001), |instance_id| Some(instance_id)),
        None
    );
}

#[test]
fn flow_delete_dissociates_only_its_cache_instance() {
    let mut cache = UdpEndpointCache::new();
    let peer = key(1000);
    assert!(cache.associate_instance(10, peer, 100));
    assert!(cache.associate_instance(10, peer, 200));

    assert!(cache.dissociate(10, peer, 100));
    assert!(!cache.dissociate(10, peer, 100));

    let closed = cache.take(10).expect("endpoint was no longer tracked");
    assert_eq!(closed.len(), 1);
    assert_eq!(closed[0].instance_id, 200);
}

#[test]
fn flow_delete_removes_empty_endpoint_and_peer_buffer() {
    let mut cache = UdpEndpointCache::new();
    let peer = key(1000);
    assert!(cache.associate_instance(10, peer, 100));

    assert!(cache.dissociate(10, peer, 100));
    assert_eq!(cache.get_entries_counts(), (0, 0));
    assert!(cache.take(10).is_none());
}

#[test]
fn dissociate_releases_excess_capacity_while_peers_remain() {
    let mut cache = UdpEndpointCache::new();
    let mut full = UdpEndpointCache::new();
    for offset in 0..64u16 {
        assert!(cache.associate_instance(10, key(1_000 + offset), 1_000 + u64::from(offset),));
        assert!(full.associate_instance(10, key(1_000 + offset), 1_000 + u64::from(offset),));
    }
    let peak_capacity = full.take(10).expect("endpoint").capacity();

    for offset in 0..63u16 {
        assert!(cache.dissociate(10, key(1_000 + offset), 1_000 + u64::from(offset),));
    }

    let peers = cache.take(10).expect("live peer was removed");
    assert_eq!(peers.len(), 1);
    assert!(peers.capacity() < peak_capacity);
    assert!(peers.capacity() <= peers.len() * 4);
}

#[test]
fn unknown_handles_leave_no_tombstones() {
    let mut cache = UdpEndpointCache::new();
    assert!(cache.take(10).is_none());
    assert!(cache.take(10).is_none());
    assert_eq!(cache.get_entries_counts(), (0, 0));
}

#[test]
fn cleanup_removes_stale_instances_and_empty_endpoints() {
    let mut cache = UdpEndpointCache::new();
    assert!(cache.associate_instance(10, key(1000), 100));
    assert!(cache.associate_instance(10, key(1001), 101));
    assert!(cache.associate_instance(20, key(2000), 200));

    assert_eq!(cache.remove_instances(vec![200, 100, 200]), 2);
    assert_eq!(cache.instance_ids(), vec![101]);

    let first = cache.take(10).expect("first endpoint was removed");
    assert_eq!(first.len(), 1);
    assert_eq!(first[0].instance_id, 101);
    assert!(cache.take(20).is_none());
}

#[test]
fn capacity_is_in_excess_from_four_times_the_live_state_on() {
    assert!(has_excess_capacity(16, 64));
    assert!(has_excess_capacity(16, 67));
    assert!(!has_excess_capacity(17, 68 - 1));
    assert!(!has_excess_capacity(1, 3));
    assert!(has_excess_capacity(0, 0));
    assert!(!has_excess_capacity(usize::MAX, usize::MAX));
}

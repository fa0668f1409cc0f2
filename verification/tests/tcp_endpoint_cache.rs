//! Connection generations by transport endpoint handle.

use portmaster_kext::connection::{ConnectionV4, Direction};
use portmaster_kext::connection_map::ConnectionMap;
use portmaster_kext::ip::{IpAddress, IpProtocol, Ipv4Address};
use portmaster_kext::key::Key;
use portmaster_kext::tcp_endpoint_cache::{TcpEndpointCache, TcpEndpointConnection};

const NOW: u64 = 3_600_000;

fn key() -> Key {
    Key {
        protocol: IpProtocol::Tcp,
        local_address: IpAddress::Ipv4(Ipv4Address::new(10, 0, 0, 1)),
        local_port: 40_000,
        remote_address: IpAddress::Ipv4(Ipv4Address::new(192, 0, 2, 1)),
        remote_port: 443,
    }
}

fn connection(key: &Key, process_id: u64) -> ConnectionV4 {
    ConnectionV4::from_key(key, process_id, Direction::Outbound, process_id + 1_000, NOW)
        .expect("IPv4 key")
}

#[test]
fn established_flow_rebinds_the_authorization_handle() {
    let mut cache = TcpEndpointCache::new();
    let tuple = key();
    let parent = Some(20);

    assert!(cache.associate_instance(10, tuple, parent, 100));
    let endpoint = cache
        .resolve_live_instance(&tuple, parent, |instance_id| instance_id == 100)
        .expect("authorization generation");
    assert!(cache.rebind_established(30, endpoint));

    assert!(cache.lookup_is_consistent());
    assert!(cache.take(10).is_none());
    assert_eq!(
        cache.take(30).expect("established endpoint").instance_id,
        100
    );
}

#[test]
fn reauthorization_may_omit_parent_endpoint() {
    let mut cache = TcpEndpointCache::new();
    let tuple = key();

    assert!(cache.associate_instance(10, tuple, Some(20), 100));
    assert!(cache.associate_instance(10, tuple, None, 100));
    assert_eq!(
        cache
            .resolve_live_instance(&tuple, Some(20), |_| true)
            .expect("preserved parent endpoint")
            .instance_id,
        100
    );
}

#[test]
fn repeated_association_fills_but_does_not_replace_parent() {
    let mut cache = TcpEndpointCache::new();
    let tuple = key();

    assert!(cache.associate_instance(10, tuple, None, 100));
    assert!(cache.associate_instance(10, tuple, Some(20), 100));
    assert!(cache.lookup_is_consistent());
    assert!(!cache.associate_instance(10, tuple, Some(21), 100));
    assert!(!cache.associate_instance(10, tuple, None, 101));
    let mut other_tuple = tuple;
    other_tuple.remote_port = 8443;
    assert!(!cache.associate_instance(10, other_tuple, None, 100));
    assert_eq!(
        cache
            .resolve_live_instance(&tuple, Some(20), |_| true)
            .expect("filled parent endpoint")
            .instance_id,
        100
    );
}

#[test]
fn flow_rebind_requires_matching_parent_and_live_instance() {
    let mut cache = TcpEndpointCache::new();
    let tuple = key();
    assert!(cache.associate_instance(10, tuple, Some(20), 100));

    assert!(cache
        .resolve_live_instance(&tuple, Some(21), |_| true)
        .is_none());
    assert!(cache
        .resolve_live_instance(&tuple, Some(20), |_| false)
        .is_none());
    assert_eq!(
        cache
            .resolve_live_instance(&tuple, Some(20), |_| true)
            .expect("matching generation")
            .instance_id,
        100
    );
}

#[test]
fn delayed_closure_cannot_end_reused_tuple() {
    let tuple = key();
    let mut connections = ConnectionMap::new();
    let old = connection(&tuple, 100);
    let old_instance_id = old.get_instance_id();
    assert!(matches!(
        connections.insert_if_absent(old),
        Ok(instance_id) if instance_id == old_instance_id
    ));

    let mut endpoints = TcpEndpointCache::new();
    assert!(endpoints.associate_instance(10, tuple, Some(1), old_instance_id));
    assert!(connections.end_instance(tuple, old_instance_id, NOW).is_some());

    let replacement = connection(&tuple, 200);
    let replacement_instance_id = replacement.get_instance_id();
    assert!(matches!(
        connections.insert_if_absent(replacement),
        Ok(instance_id) if instance_id == replacement_instance_id
    ));
    assert!(endpoints.associate_instance(20, tuple, Some(1), replacement_instance_id));

    let delayed = endpoints.take(10).expect("old endpoint identity");
    assert_eq!(delayed.instance_id, old_instance_id);
    assert!(connections
        .end_instance(delayed.key, delayed.instance_id, NOW)
        .is_none());
    assert!(connections.has_live_instance(&tuple, replacement_instance_id));

    let current = endpoints.take(20).expect("replacement endpoint identity");
    assert_eq!(current.instance_id, replacement_instance_id);
    assert!(connections
        .end_instance(current.key, current.instance_id, NOW)
        .is_some());
}

#[test]
fn identical_tuple_isolated_by_parent_endpoint() {
    let mut cache = TcpEndpointCache::new();
    let tuple = key();

    assert!(cache.associate_instance(10, tuple, Some(20), 100));
    assert!(cache.associate_instance(11, tuple, Some(21), 101));

    assert_eq!(
        cache
            .resolve_live_instance(&tuple, Some(20), |_| true)
            .expect("first listener child")
            .instance_id,
        100
    );
    assert_eq!(
        cache
            .resolve_live_instance(&tuple, Some(21), |_| true)
            .expect("second listener child")
            .instance_id,
        101
    );
    assert!(cache
        .resolve_live_instance(&tuple, None, |_| true)
        .is_none());
}

#[test]
fn parentless_authorization_matches_only_parentless_flow() {
    let mut cache = TcpEndpointCache::new();
    let tuple = key();

    assert!(cache.associate_instance(10, tuple, None, 100));
    assert!(cache
        .resolve_live_instance(&tuple, Some(20), |_| true)
        .is_none());
    assert_eq!(
        cache
            .resolve_live_instance(&tuple, None, |_| true)
            .expect("parentless outbound endpoint")
            .instance_id,
        100
    );
}

#[test]
fn established_rebind_removes_every_provisional_alias() {
    let mut cache = TcpEndpointCache::new();
    let tuple = key();

    assert!(cache.associate_instance(10, tuple, Some(20), 100));
    assert!(cache.associate_instance(11, tuple, Some(20), 100));
    let endpoint = cache
        .resolve_live_instance(&tuple, Some(20), |instance_id| instance_id == 100)
        .expect("authorization generation");

    assert!(cache.rebind_established(30, endpoint));
    assert!(cache.lookup_is_consistent());
    assert!(cache.take(10).is_none());
    assert!(cache.take(11).is_none());
    assert!(cache
        .take(30)
        .is_some_and(|candidate| candidate == endpoint));
}

#[test]
fn timeout_removes_all_provisional_aliases_for_one_generation() {
    let mut cache = TcpEndpointCache::new();
    let tuple = key();

    assert!(cache.associate_instance_at(10, tuple, Some(20), 100, 10));
    assert!(cache.associate_instance_at(11, tuple, Some(20), 100, 10));
    assert!(cache
        .take_unestablished_before(20, |_| true)
        .iter()
        .any(|endpoint| endpoint.instance_id == 100));
    assert!(cache.lookup_is_consistent());
    assert_eq!(cache.get_entries_count(), 0);
}

#[test]
fn timeout_does_not_remove_rebound_established_generation() {
    let mut cache = TcpEndpointCache::new();
    let tuple = key();

    assert!(cache.associate_instance_at(10, tuple, Some(20), 100, 10));
    let endpoint = cache
        .resolve_live_instance(&tuple, Some(20), |_| true)
        .expect("provisional endpoint");
    assert!(cache.rebind_established(30, endpoint));

    assert!(cache
        .take_unestablished_before(20, |_| true)
        .is_empty());
    assert!(cache.take(30).is_some());
}

#[test]
fn established_alias_is_not_expired_with_a_provisional_alias() {
    let mut cache = TcpEndpointCache::new();
    let tuple = key();

    assert!(cache.associate_instance_at(10, tuple, Some(20), 100, 10));
    let endpoint = cache
        .resolve_live_instance(&tuple, Some(20), |_| true)
        .expect("provisional endpoint");
    assert!(cache.rebind_established(30, endpoint));
    assert!(cache.associate_instance_at(31, tuple, Some(20), 100, 10));

    assert!(cache
        .take_unestablished_before(20, |_| true)
        .is_empty());
    assert!(cache.take(30).is_some());
    assert!(cache.take(31).is_none());
}

#[test]
fn established_handle_cannot_replace_another_generation() {
    let mut cache = TcpEndpointCache::new();
    let tuple = key();
    assert!(cache.associate_instance(10, tuple, Some(20), 100));
    assert!(cache.associate_instance(30, tuple, Some(20), 101));
    let endpoint = cache
        .resolve_live_instance(&tuple, Some(20), |instance_id| instance_id == 100)
        .expect("first generation");

    assert!(!cache.rebind_established(30, endpoint));
    assert!(cache
        .take(10)
        .is_some_and(|candidate| candidate == endpoint));
    assert_eq!(
        cache.take(30).expect("conflicting generation").instance_id,
        101
    );
}

#[test]
fn zero_endpoint_or_instance_is_never_associated() {
    let mut cache = TcpEndpointCache::new();
    let tuple = key();

    assert!(!cache.associate_instance(0, tuple, Some(20), 100));
    assert!(!cache.associate_instance(10, tuple, Some(20), 0));
    assert!(cache
        .resolve_live_instance(&tuple, Some(20), |_| true)
        .is_none());
    assert!(!cache.rebind_established(
        0,
        TcpEndpointConnection {
            key: tuple,
            parent_endpoint_handle: Some(20),
            instance_id: 100,
        }
    ));
}

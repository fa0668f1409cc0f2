//! TCP endpoints that wait for their requests before they close.

use portmaster_kext::ip::{IpAddress, IpProtocol, Ipv4Address};
use portmaster_kext::key::Key;
use portmaster_kext::tcp_closure_cache::{PendingTcpClosure, TcpClosureCache};
use portmaster_kext::tcp_endpoint_cache::TcpEndpointConnection;

fn endpoint(loopback: bool, instance_id: u64) -> TcpEndpointConnection {
    let local_address = if loopback {
        Ipv4Address::new(127, 0, 0, 1)
    } else {
        Ipv4Address::new(10, 0, 0, 1)
    };
    TcpEndpointConnection {
        key: Key {
            protocol: IpProtocol::Tcp,
            local_address: IpAddress::Ipv4(local_address),
            local_port: 40_000,
            remote_address: IpAddress::Ipv4(Ipv4Address::new(192, 0, 2, 1)),
            remote_port: 50_000,
        },
        parent_endpoint_handle: None,
        instance_id,
    }
}

#[test]
fn closure_tracks_snapshot_and_later_direct_requests() {
    let endpoint = endpoint(false, 100);
    let mut cache = TcpClosureCache::new();
    assert!(cache
        .insert(PendingTcpClosure::new(endpoint, 10, (), vec![7, 9, 7]))
        .is_ok());

    let unrelated_key = endpoint.key.reverse();
    cache.add_request(8, &unrelated_key, Some(100));
    assert!(cache.finish_request(7).is_empty());
    assert!(cache.finish_request(9).is_empty());
    assert!(cache.finish_request(8) == vec![endpoint]);
    assert!(cache.take_ready(100).unwrap().endpoint == endpoint);
}

#[test]
fn loopback_closure_tracks_reverse_tuple_requests() {
    let mut endpoint = endpoint(true, 100);
    endpoint.key.remote_address = endpoint.key.local_address;
    let mut cache = TcpClosureCache::new();
    assert!(cache
        .insert(PendingTcpClosure::new(endpoint, 10, (), vec![7]))
        .is_ok());

    cache.add_request(8, &endpoint.key.reverse(), Some(200));
    assert!(cache.finish_request(7).is_empty());
    assert!(cache.finish_request(8) == vec![endpoint]);
}

#[test]
fn non_loopback_closure_ignores_reverse_tuple_requests() {
    let endpoint = endpoint(false, 100);
    let mut cache = TcpClosureCache::new();
    assert!(cache
        .insert(PendingTcpClosure::new(endpoint, 10, (), vec![7]))
        .is_ok());

    cache.add_request(8, &endpoint.key.reverse(), Some(200));
    assert!(cache.finish_request(7) == vec![endpoint]);
    assert!(cache.take_ready(100).is_some());
}

//! Connections by tuple and generation.

use core::mem::size_of;
use core::time::Duration;
use portmaster_kext::connection::{
    ConnectionV4, ConnectionV6, Direction, Verdict, PM_DNS_PORT,
};
use portmaster_kext::connection_map::{
    remote_endpoint_from_key, ConnectionBucket, ConnectionMap, RemoteConnections, RemoteEndpoint,
};
use portmaster_kext::ip::{IpAddress, IpProtocol, Ipv4Address, Ipv6Address};
use portmaster_kext::key::Key;

const NOW: u64 = 3_600_000;

fn key(remote_address: [u8; 4], remote_port: u16) -> Key {
    Key {
        protocol: IpProtocol::Udp,
        local_address: IpAddress::Ipv4(Ipv4Address::new(10, 0, 0, 1)),
        local_port: 50_000,
        remote_address: IpAddress::Ipv4(Ipv4Address::from_bytes(&remote_address)),
        remote_port,
    }
}

fn key_v6(remote_address: [u8; 16], remote_port: u16) -> Key {
    Key {
        protocol: IpProtocol::Udp,
        local_address: IpAddress::Ipv6(Ipv6Address::new(0x2001, 0xdb8, 0, 0, 0, 0, 0, 1)),
        local_port: 50_000,
        remote_address: IpAddress::Ipv6(Ipv6Address::from_bytes(&remote_address)),
        remote_port,
    }
}

fn instance(process_id: u64) -> u64 {
    process_id + 1_000
}

fn live(key: &Key, process_id: u64) -> ConnectionV4 {
    ConnectionV4::from_key(key, process_id, Direction::Outbound, instance(process_id), 0)
        .expect("IPv4 key")
}

fn live_v6(key: &Key, process_id: u64) -> ConnectionV6 {
    ConnectionV6::from_key(key, process_id, Direction::Outbound, instance(process_id), 0)
        .expect("IPv6 key")
}

fn untracked(key: &Key, process_id: u64) -> ConnectionV4 {
    ConnectionV4::from_untracked_key(key, process_id, Direction::Outbound, instance(process_id), 0)
        .expect("IPv4 key")
}

fn ended(key: &Key, process_id: u64) -> ConnectionV4 {
    let mut conn = live(key, process_id);
    conn.end(1);
    conn
}

fn ended_in_direction(key: &Key, process_id: u64, direction: Direction) -> ConnectionV4 {
    let mut conn =
        ConnectionV4::from_key(key, process_id, direction, instance(process_id), 0).expect("IPv4 key");
    conn.end(1);
    conn
}

fn redirected(mut conn: ConnectionV4) -> ConnectionV4 {
    conn.verdict = Verdict::RedirectNameServer;
    conn
}

fn read_process_id(conn: &ConnectionV4) -> Option<u64> {
    Some(conn.process_id)
}

fn read_process_id_v6(conn: &ConnectionV6) -> Option<u64> {
    Some(conn.process_id)
}

#[test]
fn remote_endpoint_indexes_are_compact() {
    assert_eq!(size_of::<RemoteEndpoint<u32>>(), 8);
    assert_eq!(size_of::<RemoteEndpoint<(u64, u64)>>(), 24);
}

#[test]
fn compact_ipv6_endpoints_remain_exactly_searchable() {
    const CONNECTIONS: u16 = 1_024;
    let mut map = ConnectionMap::new();

    for ordinal in 0..CONNECTIONS {
        let suffix = ((u32::from(ordinal) * 1_019) % u32::from(CONNECTIONS)) as u16;
        let mut address = [0u8; 16];
        address[..4].copy_from_slice(&[0x20, 0x01, 0x0d, 0xb8]);
        address[14..].copy_from_slice(&suffix.to_be_bytes());
        let tuple = key_v6(address, 10_000 + suffix);
        map.add(live_v6(&tuple, u64::from(suffix)));
    }

    assert_eq!(map.get_count(), usize::from(CONNECTIONS));
    for suffix in 0..CONNECTIONS {
        let mut address = [0u8; 16];
        address[..4].copy_from_slice(&[0x20, 0x01, 0x0d, 0xb8]);
        address[14..].copy_from_slice(&suffix.to_be_bytes());
        let tuple = key_v6(address, 10_000 + suffix);
        assert_eq!(
            map.read(&tuple, read_process_id_v6, NOW),
            Some(u64::from(suffix))
        );
    }
}

#[test]
fn remote_connections_keep_single_endpoint_inline() {
    let tuple = key([198, 51, 100, 12], 443);
    let mut map = ConnectionMap::new();
    map.add(live(&tuple, 10));

    let connections = map.group(tuple.small()).expect("local endpoint bucket");
    assert!(matches!(connections, RemoteConnections::One(_)));
    assert_eq!(connections.endpoint_count(), 1);
}

#[test]
fn remote_connections_promote_and_compact() {
    let first = key([198, 51, 100, 13], 443);
    let mut second = first;
    second.remote_address = IpAddress::Ipv4(Ipv4Address::new(198, 51, 100, 14));
    let mut map = ConnectionMap::new();
    map.add(live(&first, 10));
    map.add(ended(&second, 20));

    let connections = map.group(first.small()).expect("local endpoint bucket");
    assert!(matches!(connections, RemoteConnections::Many(_)));
    assert_eq!(connections.endpoint_count(), 2);

    map.clean_ended_connections(NOW);

    let connections = map.group(first.small()).expect("local endpoint bucket");
    assert!(matches!(connections, RemoteConnections::One(_)));
    assert_eq!(connections.endpoint_count(), 1);
}

#[test]
fn remote_endpoint_bucket_keeps_reused_generations_inline() {
    let tuple = key([198, 51, 100, 9], 443);
    let endpoint = remote_endpoint_from_key::<Ipv4Address>(&tuple)
        .expect("IPv4 endpoint")
        .into_pair();
    let mut map = ConnectionMap::new();
    map.add(ended(&tuple, 10));

    let bucket = map
        .group(tuple.small())
        .and_then(|connections| connections.get(&endpoint))
        .expect("inline connection bucket");
    assert!(matches!(bucket, ConnectionBucket::One(_)));

    map.add(live(&tuple, 20));
    let bucket = map
        .group(tuple.small())
        .and_then(|connections| connections.get(&endpoint))
        .expect("reused connection bucket");
    assert!(
        matches!(bucket, ConnectionBucket::Multiple(connections) if connections.len() == 2)
    );

    map.clean_ended_connections(NOW);
    let bucket = map
        .group(tuple.small())
        .and_then(|connections| connections.get(&endpoint))
        .expect("compacted connection bucket");
    assert!(matches!(bucket, ConnectionBucket::One(connection) if connection.process_id == 20));
}

#[test]
fn remote_endpoint_bucket_distinguishes_local_addresses() {
    let first = key([198, 51, 100, 10], 443);
    let mut second = first;
    second.local_address = IpAddress::Ipv4(Ipv4Address::new(10, 0, 0, 2));
    let mut map = ConnectionMap::new();
    assert!(map.insert_if_absent(live(&first, 10)).is_ok());
    assert!(map.insert_if_absent(live(&second, 20)).is_ok());

    assert_eq!(map.get_count(), 2);
    assert_eq!(map.read(&first, read_process_id, NOW), Some(10));
    assert_eq!(map.read(&second, read_process_id, NOW), Some(20));
}

#[test]
fn ended_fallback_preserves_insertion_order() {
    let tuple = key([198, 51, 100, 11], 443);
    let created_first = ended(&tuple, 10);
    let created_second = ended(&tuple, 20);
    let mut map = ConnectionMap::new();

    // Insert in reverse construction/instance-ID order. Selection must follow
    // the old vector's insertion-order rule rather than the instance value.
    map.add(created_second);
    map.add(created_first);
    assert_eq!(
        map.read_with_ended_fallback(&tuple, read_process_id, NOW),
        Some(20)
    );

    map.add(live(&tuple, 30));
    assert_eq!(
        map.read_with_ended_fallback(&tuple, read_process_id, NOW),
        Some(30)
    );
}

#[test]
fn unordered_remote_insertions_remain_exactly_searchable() {
    const CONNECTIONS: u16 = 4_096;
    let mut map = ConnectionMap::new();

    for ordinal in 0..CONNECTIONS {
        let remote_port = 10_000 + ((u32::from(ordinal) * 4_051) % 4_096) as u16;
        let tuple = key([203, 0, 113, 1], remote_port);
        map.add(live(&tuple, u64::from(remote_port)));
    }

    assert_eq!(map.get_count(), usize::from(CONNECTIONS));
    for remote_port in 10_000..10_000 + CONNECTIONS {
        let tuple = key([203, 0, 113, 1], remote_port);
        assert_eq!(
            map.read(&tuple, read_process_id, NOW),
            Some(u64::from(remote_port))
        );
    }
}

#[test]
fn reused_live_exact_entry_wins_and_survives_cleanup() {
    let tuple = key([8, 8, 8, 8], 53);
    let mut map = ConnectionMap::new();
    map.add(ended(&tuple, 10));
    map.add(live(&tuple, 20));

    assert_eq!(map.read(&tuple, read_process_id, NOW), Some(20));
    assert_eq!(
        map.read_with_ended_fallback(&tuple, read_process_id, NOW),
        Some(20)
    );

    let conn = map.get_mut(&tuple, NOW).expect("live entry");
    assert_eq!(conn.process_id, 20);
    conn.process_id = 21;

    map.clean_ended_connections(NOW);

    assert_eq!(map.get_count(), 1);
    assert_eq!(map.read(&tuple, read_process_id, NOW), Some(21));
}

#[test]
fn ended_exact_entry_is_not_inbound_packet_fallback() {
    let tuple = key([8, 8, 4, 4], 53);

    for connection_direction in [Direction::Inbound, Direction::Outbound] {
        let mut map = ConnectionMap::new();
        map.add(ended_in_direction(&tuple, 10, connection_direction));

        assert_eq!(
            map.read_for_packet(&tuple, Direction::Inbound, read_process_id, NOW),
            None
        );
    }
}

#[test]
fn ended_exact_entry_is_read_only_late_packet_fallback() {
    let tuple = key([8, 8, 4, 4], 53);
    let mut map = ConnectionMap::new();
    map.add(ended(&tuple, 10));

    assert_eq!(map.read(&tuple, read_process_id, NOW), None);
    assert_eq!(
        map.read_with_ended_fallback(&tuple, read_process_id, NOW),
        Some(10)
    );
    assert_eq!(
        map.read_for_packet(&tuple, Direction::Outbound, read_process_id, NOW),
        Some(10)
    );
    assert!(map.get_mut(&tuple, NOW).is_none());
}

#[test]
fn ended_exact_lookup_selects_latest_retained_generation_only() {
    let tuple = key([8, 8, 4, 4], 443);
    let redirect_target = key([127, 0, 0, 1], PM_DNS_PORT);
    let mut map = ConnectionMap::new();
    map.add(ended(&tuple, 10));
    map.add(ended(&tuple, 20));
    map.add(redirected(ended(&key([1, 1, 1, 1], 53), 30)));

    assert_eq!(map.read_ended_exact(&tuple, read_process_id), Some(20));
    assert_eq!(
        map.read_ended_exact(&redirect_target, read_process_id),
        None
    );
}

#[test]
fn insert_if_absent_rejects_duplicate_live_tuple() {
    let tuple = key([8, 8, 8, 8], 443);
    let mut map = ConnectionMap::new();
    let existing = live(&tuple, 10);
    let existing_instance_id = existing.get_instance_id();
    map.add(existing);

    let rejected = match map.insert_if_absent(live(&tuple, 20)) {
        Ok(_) => panic!("duplicate live tuple was inserted"),
        Err((connection, returned_instance_id)) => {
            assert_eq!(returned_instance_id, existing_instance_id);
            assert_ne!(returned_instance_id, connection.get_instance_id());
            connection
        }
    };

    assert_eq!(rejected.process_id, 20);
    assert_eq!(map.get_count(), 1);
    assert_eq!(map.read(&tuple, read_process_id, NOW), Some(10));
}

#[test]
fn duplicate_update_reuses_the_located_live_entry() {
    let tuple = key([8, 8, 8, 8], 8443);
    let mut map = ConnectionMap::new();
    let existing = untracked(&tuple, 0);
    let existing_instance_id = existing.get_instance_id();
    map.add(existing);

    let result = map.insert_if_absent_with(live(&tuple, 20), |mut connection| {
        connection.process_id = 20;
        connection.mark_native_lifecycle();
        connection
    });

    assert!(matches!(
        result,
        Err((_rejected, instance_id)) if instance_id == existing_instance_id
    ));
    assert_eq!(map.get_count(), 1);
    assert_eq!(map.read(&tuple, read_process_id, NOW), Some(20));
    assert!(map.end_inactive_untracked_connections(NOW).is_empty());
}

#[test]
fn insert_if_absent_allows_tuple_reuse_after_end() {
    let tuple = key([8, 8, 4, 4], 443);
    let mut map = ConnectionMap::new();
    map.add(ended(&tuple, 10));

    assert!(map.insert_if_absent(live(&tuple, 20)).is_ok());
    assert_eq!(map.get_count(), 2);
    assert_eq!(map.read(&tuple, read_process_id, NOW), Some(20));
}

#[test]
fn reused_live_redirect_entry_wins() {
    let original = key([8, 8, 8, 8], 53);
    let redirect_target = key([127, 0, 0, 1], PM_DNS_PORT);
    let mut map = ConnectionMap::new();
    map.add(redirected(ended(&original, 10)));
    map.add(redirected(live(&original, 20)));

    assert_eq!(map.read(&redirect_target, read_process_id, NOW), Some(20));
    assert_eq!(
        map.read_with_ended_fallback(&redirect_target, read_process_id, NOW),
        Some(20)
    );
}

#[test]
fn live_redirect_wins_over_ended_exact_fallback() {
    let redirect_target = key([127, 0, 0, 1], PM_DNS_PORT);
    let original = key([8, 8, 8, 8], 53);
    let mut map = ConnectionMap::new();
    map.add(ended(&redirect_target, 10));
    map.add(redirected(live(&original, 20)));

    assert_eq!(
        map.read_with_ended_fallback(&redirect_target, read_process_id, NOW),
        Some(20)
    );
}

#[test]
fn live_exact_wins_over_live_redirect() {
    let redirect_target = key([127, 0, 0, 1], PM_DNS_PORT);
    let original = key([8, 8, 8, 8], 53);
    let mut map = ConnectionMap::new();
    map.add(redirected(live(&original, 20)));
    map.add(live(&redirect_target, 10));

    assert_eq!(map.read(&redirect_target, read_process_id, NOW), Some(10));
}

#[test]
fn cleanup_keeps_inactive_live_udp_until_lifecycle_end() {
    let tuple = key([203, 0, 113, 1], 443);
    let mut conn = live(&tuple, 10);
    conn.set_last_accessed_time(Duration::from_secs(50 * 60).as_millis() as u64);
    let mut map = ConnectionMap::new();
    map.add(conn);

    map.clean_ended_connections(NOW);

    assert_eq!(map.get_count(), 1);
    assert_eq!(map.read(&tuple, read_process_id, NOW), Some(10));
}

#[test]
fn inactive_untracked_udp_ends_without_expiring_tracked_peer() {
    let fallback_tuple = key([203, 0, 113, 2], 443);
    let tracked_tuple = key([203, 0, 113, 3], 443);
    let mut map = ConnectionMap::new();
    map.add(untracked(&fallback_tuple, 0));
    map.add(live(&tracked_tuple, 20));

    let ended = map.end_inactive_untracked_connections(NOW);

    assert_eq!(ended.len(), 1);
    assert!(ended[0].has_ended());
    assert!(ended[0].get_key() == fallback_tuple);
    assert_eq!(map.read(&fallback_tuple, read_process_id, NOW), None);
    assert_eq!(map.read(&tracked_tuple, read_process_id, NOW), Some(20));
}

#[test]
fn packet_lookup_refreshes_outbound_untracked_activity() {
    let tuple = key([203, 0, 113, 7], 443);
    let mut map = ConnectionMap::new();
    map.add(untracked(&tuple, 10));

    assert_eq!(map.read(&tuple, read_process_id, NOW), Some(10));
    assert!(map.end_inactive_untracked_connections(NOW).is_empty());
    assert_eq!(map.get_count(), 1);
}

#[test]
fn inactive_untracked_inbound_waits_for_socket_closure() {
    let tuple = key([203, 0, 113, 4], 443);
    let connection =
        ConnectionV4::from_untracked_key(&tuple, 20, Direction::Inbound, instance(20), 0)
            .expect("IPv4 key");
    let mut map = ConnectionMap::new();
    map.add(connection);

    assert!(map.end_inactive_untracked_connections(NOW).is_empty());
    assert_eq!(map.read(&tuple, read_process_id, NOW), Some(20));
}

#[test]
fn endpoint_closure_ends_only_untracked_fallbacks() {
    let fallback_tuple = key([203, 0, 113, 2], 443);
    let tracked_tuple = key([203, 0, 113, 3], 443);
    let mut map = ConnectionMap::new();
    map.add(untracked(&fallback_tuple, 0));
    map.add(live(&tracked_tuple, 20));

    let ended = map
        .end_untracked_on_endpoint(
            (IpProtocol::Udp, fallback_tuple.local_port),
            Some(fallback_tuple.local_address),
            Some(20),
            NOW,
        )
        .expect("local endpoint bucket");

    assert_eq!(ended.len(), 1);
    assert!(ended[0].get_key() == fallback_tuple);
    assert_eq!(map.read(&fallback_tuple, read_process_id, NOW), None);
    assert_eq!(map.read(&tracked_tuple, read_process_id, NOW), Some(20));
}

#[test]
fn cleanup_keeps_inactive_live_tcp_until_lifecycle_end() {
    let mut tuple = key([203, 0, 113, 4], 443);
    tuple.protocol = IpProtocol::Tcp;
    let mut conn = live(&tuple, 10);
    conn.set_last_accessed_time(Duration::from_secs(50 * 60).as_millis() as u64);
    let mut map = ConnectionMap::new();
    map.add(conn);

    map.clean_ended_connections(NOW);

    assert_eq!(map.get_count(), 1);
    assert_eq!(map.read(&tuple, read_process_id, NOW), Some(10));
}

#[test]
fn cleanup_removes_ended_entry_after_grace_period() {
    let tuple = key([203, 0, 113, 2], 443);
    let mut map = ConnectionMap::new();
    map.add(ended(&tuple, 10));

    map.clean_ended_connections(NOW);
    assert_eq!(map.get_count(), 0);
}

#[test]
fn cleanup_reclaims_ended_entries_while_bucket_remains() {
    let live_tuple = key([203, 0, 113, 255], 443);
    let mut map = ConnectionMap::new();
    for last_octet in 1..=64 {
        map.add(ended(&key([203, 0, 113, last_octet], 443), 10));
    }
    map.add(live(&live_tuple, 20));
    let bucket_key = live_tuple.small();
    let connections = map.group(bucket_key).expect("connection bucket");
    assert_eq!(connections.endpoint_count(), 65);

    map.clean_ended_connections(NOW);

    let connections = map.group(bucket_key).expect("live connection bucket");
    assert_eq!(connections.endpoint_count(), 1);
    assert_eq!(map.read(&live_tuple, read_process_id, NOW), Some(20));
}

#[test]
fn stale_flow_instance_cannot_end_reused_tuple() {
    let tuple = key([198, 51, 100, 1], 443);
    let old = live(&tuple, 10);
    let old_instance_id = old.get_instance_id();
    let mut map = ConnectionMap::new();
    map.add(old);
    map.clear();
    map.add(live(&tuple, 20));

    assert!(map.end_instance(tuple, old_instance_id, NOW).is_none());
    assert_eq!(map.read(&tuple, read_process_id, NOW), Some(20));
}

#[test]
fn exact_live_fallback_can_acquire_native_lifecycle() {
    let tuple = key([198, 51, 100, 3], 443);
    let conn = untracked(&tuple, 10);
    let instance_id = conn.get_instance_id();
    let mut map = ConnectionMap::new();
    map.add(conn);

    assert!(map.mark_native_lifecycle_instance(&tuple, instance_id));
    assert!(map.end_inactive_untracked_connections(NOW).is_empty());
    assert_eq!(map.get_count(), 1);
}

#[test]
fn live_udp_instance_snapshot_excludes_ended_and_tcp() {
    let udp_key = key([198, 51, 100, 4], 443);
    let live_udp = live(&udp_key, 10);
    let live_udp_instance_id = live_udp.get_instance_id();
    let ended_udp = ended(&key([198, 51, 100, 5], 443), 20);
    let mut tcp_key = key([198, 51, 100, 6], 443);
    tcp_key.protocol = IpProtocol::Tcp;
    let live_tcp = live(&tcp_key, 30);

    let mut map = ConnectionMap::new();
    map.add(live_udp);
    map.add(ended_udp);
    map.add(live_tcp);

    let mut instance_ids = Vec::new();
    map.append_live_udp_instance_ids(&mut instance_ids);
    assert_eq!(instance_ids, vec![live_udp_instance_id]);
}

#[test]
fn stale_instance_cannot_mutate_reused_tuple() {
    let tuple = key([198, 51, 100, 7], 443);
    let old = live(&tuple, 10);
    let old_instance_id = old.get_instance_id();
    let mut map = ConnectionMap::new();
    map.add(old);
    map.clear();

    let replacement = live(&tuple, 20);
    let replacement_instance_id = replacement.get_instance_id();
    map.add(replacement);

    assert!(!map.has_live_instance(&tuple, old_instance_id));
    assert!(map.has_live_instance(&tuple, replacement_instance_id));
    assert!(map.get_mut_instance(&tuple, old_instance_id, NOW).is_none());
    map.get_mut_instance(&tuple, replacement_instance_id, NOW)
        .expect("replacement instance")
        .process_id = 30;
    assert_eq!(map.read(&tuple, read_process_id, NOW), Some(30));
}

#[test]
fn exact_instance_update_resolves_redirected_packet_key() {
    let original = key([198, 51, 100, 8], 53);
    let redirect_target = key([127, 0, 0, 1], PM_DNS_PORT);
    let connection = redirected(live(&original, 10));
    let instance_id = connection.get_instance_id();
    let mut map = ConnectionMap::new();
    map.add(connection);

    map.get_mut_instance(&redirect_target, instance_id, NOW)
        .expect("redirected instance")
        .process_id = 40;
    assert_eq!(map.read(&original, read_process_id, NOW), Some(40));
}

#[test]
fn stale_instance_cannot_promote_reused_tuple() {
    let tuple = key([198, 51, 100, 2], 443);
    let old = untracked(&tuple, 10);
    let old_instance_id = old.get_instance_id();
    let mut map = ConnectionMap::new();
    map.add(old);
    map.clear();
    map.add(untracked(&tuple, 20));

    assert!(!map.mark_native_lifecycle_instance(&tuple, old_instance_id));
    assert_eq!(map.end_inactive_untracked_connections(NOW).len(), 1);
}

#[test]
fn ended_redirect_is_late_packet_fallback() {
    let original = key([8, 8, 8, 8], 53);
    let redirect_target = key([127, 0, 0, 1], PM_DNS_PORT);
    let mut map = ConnectionMap::new();
    map.add(redirected(ended(&original, 10)));

    assert_eq!(map.read(&redirect_target, read_process_id, NOW), None);
    assert_eq!(
        map.read_with_ended_fallback(&redirect_target, read_process_id, NOW),
        Some(10)
    );
}

#[test]
fn ended_redirect_is_not_inbound_packet_fallback() {
    let original = key([8, 8, 8, 8], 53);
    let redirect_target = key([127, 0, 0, 1], PM_DNS_PORT);

    for connection_direction in [Direction::Inbound, Direction::Outbound] {
        let mut map = ConnectionMap::new();
        map.add(redirected(ended_in_direction(
            &original,
            10,
            connection_direction,
        )));

        assert_eq!(
            map.read_for_packet(&redirect_target, Direction::Inbound, read_process_id, NOW),
            None
        );
    }
}

#[test]
fn fallback_instance_is_found_until_it_is_bound() {
    let mut map = ConnectionMap::new();
    let tuple = key([192, 0, 2, 1], 443);
    assert!(!untracked(&tuple, 7).has_native_lifecycle());
    map.add(untracked(&tuple, 7));
    assert_eq!(map.untracked_instance_id(&tuple), Some(instance(7)));
    assert_eq!(map.untracked_instance_id(&key([192, 0, 2, 2], 443)), None);
    assert!(map.mark_native_lifecycle_instance(&tuple, instance(7)));
    assert_eq!(map.untracked_instance_id(&tuple), None);
}

#[test]
fn reply_of_a_name_server_redirect_comes_from_loopback() {
    let original = key([198, 51, 100, 8], 53);
    let connection = redirected(live(&original, 10));
    let info = connection.redirect_info().expect("redirect");
    let loopback = key([127, 0, 0, 1], info.redirect_port);
    let reply = Key {
        local_address: loopback.remote_address,
        ..loopback
    };
    assert_eq!(info.redirect_address, reply.remote_address);
    assert!(connection.redirect_equals(&reply));
    assert!(!connection.redirect_equals(&Key {
        remote_port: 54,
        ..reply
    }));
}

#[test]
fn missing_instance_is_nowhere() {
    let original = key([198, 51, 100, 8], 53);
    let redirect_target = key([127, 0, 0, 1], PM_DNS_PORT);
    let mut map = ConnectionMap::new();
    map.add(redirected(live(&original, 10)));
    for tuple in [original, redirect_target] {
        assert!(map.has_live_instance_matching(&tuple, instance(10)));
        assert!(!map.has_live_instance_matching(&tuple, instance(11)));
        assert!(map.get_mut_instance(&tuple, instance(11), NOW).is_none());
    }
}

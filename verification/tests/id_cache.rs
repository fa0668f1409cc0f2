//! Requests that wait for a verdict.

use portmaster_kext::connection::Direction;
use portmaster_kext::id_cache::{record_has_room, Entry, IdCache, PendingPacket};
use portmaster_kext::ip::{IpAddress, IpProtocol, Ipv4Address, Ipv6Address};
use portmaster_kext::key::Key;
use portmaster_kext::packet::{InjectInfo, NetBuffer, Packet};
use std::collections::VecDeque;

fn key(remote_port: u16) -> Key {
    Key {
        protocol: IpProtocol::Udp,
        local_address: IpAddress::Ipv4(Ipv4Address::new(10, 0, 0, 1)),
        local_port: 40_000,
        remote_address: IpAddress::Ipv4(Ipv4Address::new(192, 0, 2, 1)),
        remote_port,
    }
}

fn tcp_key() -> Key {
    let mut key = key(443);
    key.protocol = IpProtocol::Tcp;
    key
}

fn queue(
    cache: &mut IdCache<()>,
    id: u64,
    connection_instance_id: Option<u64>,
    survives_connection_end: bool,
) {
    let buffer = NetBuffer {
        handle: (),
        data: Vec::new(),
        writable: true,
    };
    let inject_info = InjectInfo {
        ipv6: false,
        inbound: !survives_connection_end,
        loopback: false,
        compartment_id: None,
        interface_index: 0,
        sub_interface_index: 0,
    };
    let queued = cache.push(
        (key(id as u16), Packet::Network(buffer, inject_info)),
        connection_instance_id,
        0,
        Direction::Outbound,
        false,
    );
    assert_eq!(queued.len(), 1);
    assert_eq!(queued[0].0, id);
}

fn ids(requests: &VecDeque<Entry<PendingPacket<()>>>) -> Vec<u64> {
    requests.iter().map(Entry::id).collect()
}

#[test]
fn surviving_request_is_detached_in_place() {
    let mut cache: IdCache<()> = IdCache::new();
    queue(&mut cache, 1, Some(10), false);
    queue(&mut cache, 2, Some(20), true);
    queue(&mut cache, 3, Some(30), false);

    let removed = cache.retire_connection_instances(&[20]);

    assert!(removed.is_empty());
    assert_eq!(cache.queued_ids(), vec![1, 2, 3]);
    assert_eq!(cache.queued_instance(2), Some(None));
    assert_eq!(cache.pending_request_count(20), 0);
    assert_eq!(cache.pending_request_count(10), 1);
    assert_eq!(cache.pending_request_count(30), 1);

    let detached = cache.pop_id(2).expect("detached request remains claimable");
    assert_eq!(detached.connection_instance_id, None);
    assert_eq!(cache.queued_ids(), vec![1, 3]);
}

#[test]
fn batched_retirement_preserves_global_request_order() {
    let mut cache: IdCache<()> = IdCache::new();
    queue(&mut cache, 1, Some(10), false);
    queue(&mut cache, 2, Some(20), false);
    queue(&mut cache, 3, Some(30), true);
    queue(&mut cache, 4, Some(20), false);
    queue(&mut cache, 5, Some(40), false);

    let removed = cache.retire_connection_instances(&[20, 30]);

    assert_eq!(ids(&removed), vec![2, 4]);
    assert_eq!(cache.queued_ids(), vec![1, 3, 5]);
    assert_eq!(cache.queued_instance(3), Some(None));
    assert_eq!(cache.pending_request_count(20), 0);
    assert_eq!(cache.pending_request_count(30), 0);
    assert_eq!(cache.pending_request_count(10), 1);
    assert_eq!(cache.pending_request_count(40), 1);
}

#[test]
fn claiming_requests_keeps_reverse_index_exact() {
    let mut cache: IdCache<()> = IdCache::new();
    queue(&mut cache, 1, Some(10), false);
    queue(&mut cache, 2, Some(10), false);
    queue(&mut cache, 3, Some(20), false);

    let claimed = cache.pop_id(1).expect("first request");
    assert_eq!(claimed.connection_instance_id, Some(10));
    assert_eq!(cache.pending_request_count(10), 1);
    assert_eq!(cache.tcp_endpoint_request_ids(&tcp_key(), 10), vec![1, 2]);

    let removed = cache.retire_connection_instances(&[10]);
    assert_eq!(ids(&removed), vec![2]);
    assert_eq!(cache.queued_ids(), vec![3]);
    assert_eq!(cache.pending_request_count(10), 0);
    // The claimed request stays in progress beside the one that is queued.
    assert_eq!(cache.get_entries_count(), 2);
    cache.finish_id(1);
    assert_eq!(cache.get_entries_count(), 1);
}

#[test]
fn unknown_instances_do_not_rotate_or_reallocate_queue() {
    let mut cache: IdCache<()> = IdCache::new();
    queue(&mut cache, 1, Some(10), false);
    queue(&mut cache, 2, None, false);
    queue(&mut cache, 3, Some(30), false);

    let removed = cache.retire_connection_instances(&[20]);

    assert!(removed.is_empty());
    assert_eq!(cache.queued_ids(), vec![1, 2, 3]);
}

#[test]
fn duplicate_instance_ids_are_retired_once() {
    let mut cache: IdCache<()> = IdCache::new();
    queue(&mut cache, 1, Some(10), false);
    queue(&mut cache, 2, Some(20), false);

    let removed = cache.retire_connection_instances(&[10, 10]);

    assert_eq!(ids(&removed), vec![1]);
    assert_eq!(cache.queued_ids(), vec![2]);
}

#[test]
fn draining_pending_requests_clears_reverse_index() {
    let mut cache: IdCache<()> = IdCache::new();
    queue(&mut cache, 1, Some(10), false);
    queue(&mut cache, 2, Some(20), false);

    let drained = cache.pop_all();

    assert_eq!(ids(&drained), vec![1, 2]);
    assert!(cache.queued_ids().is_empty());
    assert_eq!(cache.pending_request_count(10), 0);
    assert_eq!(cache.pending_request_count(20), 0);
}

#[test]
fn claimed_request_counts_until_it_is_finished() {
    let mut cache: IdCache<()> = IdCache::new();
    queue(&mut cache, 1, Some(10), false);
    queue(&mut cache, 2, None, false);
    assert_eq!(cache.get_entries_count(), 2);
    assert!(cache.pop_id(1).is_some());
    assert_eq!(cache.get_entries_count(), 2);
    assert!(cache.pop_id(1).is_none());
    assert_eq!(cache.get_entries_count(), 2);
    cache.finish_id(1);
    assert_eq!(cache.get_entries_count(), 1);
}

#[test]
fn captured_packet_must_fit_a_record_length() {
    let v4 = key(443);
    assert!(record_has_room(&v4, 0xffff_ffdc));
    assert!(!record_has_room(&v4, 0xffff_ffdd));
    let address = IpAddress::Ipv6(Ipv6Address::new(0x2001, 0xdb8, 0, 0, 0, 0, 0, 1));
    let v6 = Key {
        local_address: address,
        remote_address: address,
        ..key(443)
    };
    assert!(record_has_room(&v6, 0xffff_ffc4));
    assert!(!record_has_room(&v6, 0xffff_ffc5));
}

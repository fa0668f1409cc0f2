//! Registering and publishing connections.

use portmaster_kext::connection::{Direction, Verdict, PM_DNS_PORT};
use portmaster_kext::connection_cache::ConnectionCache;
use portmaster_kext::ip::{IpAddress, IpProtocol, Ipv4Address};
use portmaster_kext::key::Key;
use std::cell::Cell;

const NOW: u64 = 3_600_000;

fn key(remote_address: [u8; 4], remote_port: u16) -> Key {
    Key {
        protocol: IpProtocol::Tcp,
        local_address: IpAddress::Ipv4(Ipv4Address::new(10, 0, 0, 1)),
        local_port: 50_000,
        remote_address: IpAddress::Ipv4(Ipv4Address::from_bytes(&remote_address)),
        remote_port,
    }
}

#[test]
fn publication_callback_holds_liveness_guard_until_it_returns() {
    let mut cache = ConnectionCache::new();
    let tuple = key([192, 0, 2, 1], 443);
    let registration = cache
        .register_connection(&tuple, 100, Direction::Outbound, NOW)
        .expect("connection registration");

    let result = cache.with_live_connection_instance_matching(
        &tuple,
        registration.instance_id,
        41,
        |_, value| value + 1,
    );
    assert_eq!(result, Ok(42));

    assert!(cache
        .end_connection_instance_v4(tuple, registration.instance_id, NOW)
        .is_some());
    let callback_ran = Cell::new(false);
    let result = cache.with_live_connection_instance_matching(
        &tuple,
        registration.instance_id,
        42,
        |_, value| {
            callback_ran.set(true);
            value
        },
    );

    assert_eq!(result, Err(42));
    assert!(!callback_ran.get());
}

#[test]
fn publication_accepts_exact_redirect_generation_only_while_live() {
    let mut cache = ConnectionCache::new();
    let original = key([203, 0, 113, 1], 53);
    let redirect = key([127, 0, 0, 1], PM_DNS_PORT);
    let registration = cache
        .register_connection(&original, 100, Direction::Outbound, NOW)
        .expect("connection registration");
    assert!(cache
        .update_connection_instance(
            original,
            registration.instance_id,
            Verdict::RedirectNameServer,
            NOW,
        )
        .is_some());

    assert_eq!(
        cache.with_live_connection_instance_matching(
            &redirect,
            registration.instance_id,
            41,
            |_, value| value + 1,
        ),
        Ok(42)
    );
    assert_eq!(
        cache.with_live_connection_instance_matching(
            &redirect,
            registration.instance_id.wrapping_add(1),
            41,
            |_, value| value + 1,
        ),
        Err(41)
    );

    assert!(cache
        .end_connection_instance_v4(original, registration.instance_id, NOW)
        .is_some());
    assert_eq!(
        cache.with_live_connection_instance_matching(
            &redirect,
            registration.instance_id,
            41,
            |_, value| value + 1,
        ),
        Err(41)
    );
}

#[test]
fn live_instance_is_found_and_refreshed_by_its_id_only() {
    let mut cache = ConnectionCache::new();
    let tuple = key([192, 0, 2, 1], 443);
    assert_eq!(cache.get_connection_instance_id(&tuple, NOW), None);
    let id = cache
        .register_connection(&tuple, 100, Direction::Outbound, NOW)
        .expect("connection registration")
        .instance_id;
    assert_eq!(cache.get_connection_instance_id(&tuple, NOW), Some(id));
    assert!(cache.touch_connection_instance(&tuple, id, NOW));
    assert!(!cache.touch_connection_instance(&tuple, id + 1, NOW));
    assert!(cache.end_connection_instance_v4(tuple, id, NOW).is_some());
    assert_eq!(cache.get_connection_instance_id(&tuple, NOW), None);
    assert!(!cache.touch_connection_instance(&tuple, id, NOW));
}

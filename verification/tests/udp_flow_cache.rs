//! Flow contexts that the network stack holds.

use portmaster_kext::udp_flow_cache::{UdpFlowCache, UdpFlowRegistration};

fn registration(flow_id: u64) -> UdpFlowRegistration {
    UdpFlowRegistration::new(flow_id, 48, 7, flow_id + 1_000)
}

#[test]
fn failed_association_cancels_registration() {
    let mut cache = UdpFlowCache::new();
    assert!(cache.register(100, registration(1)));
    assert!(cache.cancel_registration(100, 1_001));
    assert!(!cache.cancel_registration(100, 1_001));
    assert!(cache.is_drained());
}

#[test]
fn stale_cancel_cannot_reclaim_reused_context() {
    let mut cache = UdpFlowCache::new();
    assert!(cache.register(100, registration(1)));
    assert!(!cache.cancel_registration(100, 2_002));
    assert_eq!(cache.snapshot().len(), 1);
}

#[test]
fn rejects_registration_without_connection_instance() {
    let mut cache = UdpFlowCache::new();
    assert!(!cache.register(100, UdpFlowRegistration::new(1, 48, 7, 0)));
    assert!(cache.is_drained());
}

#[test]
fn tracks_context_until_flow_delete() {
    let mut cache = UdpFlowCache::new();
    assert!(cache.register(100, registration(1)));
    assert!(!cache.register(100, registration(2)));
    assert!(cache.mark_associated(100, 1_001));
    assert_eq!(
        cache.snapshot(),
        vec![UdpFlowRegistration {
            flow_context: 100,
            associated: true,
            ..registration(1)
        }]
    );
    assert_eq!(cache.begin_callback(100, 48, 7), Some(false));
    assert!(!cache.is_drained());
    assert_eq!(cache.callbacks_in_progress(), 1);
    cache.finish_callback();
    assert!(cache.is_drained());
    assert!(cache.begin_callback(100, 48, 7).is_none());
}

#[test]
fn periodic_removal_is_claimed_once_and_can_be_retried() {
    let mut cache = UdpFlowCache::new();
    assert!(cache.register(100, registration(1)));
    assert!(cache.removal_candidates().is_empty());
    assert!(cache.mark_associated(100, 1_001));

    assert_eq!(cache.removal_candidates().len(), 1);
    let claimed = cache
        .claim_removal(100, 1_001)
        .expect("candidate was not claimed");
    assert!(claimed.removal_requested);
    assert!(cache.removal_candidates().is_empty());
    assert!(cache.claim_removal(100, 1_001).is_none());
    assert!(cache.claim_removal(100, 2_002).is_none());

    cache.retry_removal(100, 1_001);
    assert_eq!(cache.removal_candidates().len(), 1);
    assert!(cache.claim_removal(100, 1_001).is_some());
    assert_eq!(cache.begin_callback(100, 48, 7), Some(true));
    cache.finish_callback();
    assert!(cache.is_drained());
}

#[test]
fn shutdown_blocks_late_associations_and_drains_callback() {
    let mut cache = UdpFlowCache::new();
    assert!(cache.register(100, registration(1)));
    assert!(cache.mark_associated(100, 1_001));
    cache.start_shutdown();
    assert_eq!(
        cache.pending_removals(),
        vec![UdpFlowRegistration {
            flow_context: 100,
            associated: true,
            removal_requested: true,
            ..registration(1)
        }]
    );
    assert!(cache.pending_removals().is_empty());
    assert!(!cache.register(200, registration(2)));
    assert_eq!(cache.begin_callback(100, 48, 7), Some(true));
    assert!(!cache.is_drained());
    assert_eq!(cache.callbacks_in_progress(), 1);
    cache.finish_callback();
    assert!(cache.is_drained());
}

#[test]
fn shutdown_waits_for_association_in_progress() {
    let mut cache = UdpFlowCache::new();
    assert!(cache.register(100, registration(1)));
    cache.start_shutdown();
    assert!(cache.pending_removals().is_empty());
    assert!(!cache.is_drained());

    assert!(cache.mark_associated(100, 1_001));
    assert_eq!(cache.pending_removals().len(), 1);
}

#[test]
fn failed_removal_can_be_retried() {
    let mut cache = UdpFlowCache::new();
    assert!(cache.register(100, registration(1)));
    assert!(cache.mark_associated(100, 1_001));
    cache.start_shutdown();
    let removal = cache.pending_removals().pop().expect("pending removal");
    cache.retry_removal(removal.flow_context, removal.connection_instance_id);
    assert_eq!(cache.pending_removals().len(), 1);
}

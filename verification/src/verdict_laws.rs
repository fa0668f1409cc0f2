//! What a verdict does to the packet that waits for it.

use crate::connection::{AddressFamily, RedirectInfo, Verdict};
use crate::connection_laws::stale_instance_reaches_nothing;
use crate::connection_map::{at, holds, Place};
use crate::device::Device;
use crate::device_state::{ready, without_awaited, ActionView, ClosureView, DeviceView};
use crate::device_verdict::lemma_queued_packet;
use crate::ip::{IpAddress, Ipv4Address, Ipv6Address};
use crate::key::Key;
use crate::ordered::{lemma_integer_keys, ordered_keys, ordered_keys_list_the_set};
use crate::packet::{injections, InjectionView, PacketView};
use crate::packet_util::{packet_failure, packet_redirected};
use crate::state_laws::{knows, lemma_stored_place, verdict_reaches_its_connection, Known};
use vstd::prelude::*;

verus! {

/// Where a redirecting verdict sends the packets of a tuple: to the name server of the
/// service at the loopback address, or to one of its tunnel entries at the local address.
pub open spec fn destination_of(key: Key, verdict: Verdict) -> RedirectInfo {
    RedirectInfo {
        local_address: key.local_address,
        remote_address: key.remote_address,
        remote_port: key.remote_port,
        redirect_port: if verdict is RedirectNameServer {
            53
        } else if verdict is RedirectTunnel {
            717
        } else {
            719
        },
        unify: !(verdict is RedirectNameServer),
        redirect_address: if !(verdict is RedirectNameServer) {
            key.local_address
        } else if key.local_address is Ipv6 {
            IpAddress::Ipv6(Ipv6Address { high: 0, low: 1 })
        } else {
            IpAddress::Ipv4(Ipv4Address(0x7f00_0001))
        },
    }
}

/// The packet is completed by the action at `place`.
pub open spec fn completes<H, C>(
    s: DeviceView<H, C>,
    place: int,
    packet: PacketView<H>,
    blocked: bool,
    reset_first: bool,
) -> bool {
    0 <= place < s.actions.len() && s.actions[place] == (ActionView::<H, C>::Inject {
        packet,
        blocked,
        reset_first,
    })
}

/// The packet of an indication that could not be pended.
pub open spec fn reauthorized<H>(packet: PacketView<H>) -> bool {
    packet matches PacketView::AleLayer(defer) && defer.reauthorization
}

/// A clone of an outbound datagram, which needs no connection to be sent.
pub open spec fn outlives_its_connection<H>(key: Key, packet: PacketView<H>) -> bool {
    key.protocol is Udp && match packet {
        PacketView::Network(_, inject) => !inject.inbound,
        PacketView::NetworkBatch(_, inject) => !inject.inbound,
        PacketView::AleLayer(_) => false,
    }
}

/// No connection carries the instance ID.
pub open spec fn generation_is_gone<H, C>(s: DeviceView<H, C>, instance_id: u64) -> bool {
    &&& forall|p: Place<Ipv4Address>| #[trigger]
        holds(s.connections_v4, p) ==> at(s.connections_v4, p).instance_id != instance_id
    &&& forall|p: Place<Ipv6Address>| #[trigger]
        holds(s.connections_v6, p) ==> at(s.connections_v6, p).instance_id != instance_id
}

/// Where no endpoint waits, finishing a request finishes nothing else.
pub proof fn lemma_nothing_closes<H, C>(s: DeviceView<H, C>, id: u64, now: u64)
    requires
        s.closures == Map::<u64, ClosureView<C>>::empty(),
    ensures
        s.finished(id, now) == (DeviceView { in_progress: s.in_progress.remove(id), ..s }),
{
    let closures = without_awaited(s.closures, id);
    assert(closures =~= Map::<u64, ClosureView<C>>::empty());
    lemma_integer_keys();
    ordered_keys_list_the_set(closures.dom());
    assert(ordered_keys(closures.dom()).len() == 0);
    assert(ready(closures).len() == 0);
}

/// A verdict completes the waiting packet that it names, and nobody else's. An accepted
/// packet returns to the network; a refused one is completed as blocked; a redirected one
/// returns rewritten, and never as it was: if it cannot be rewritten, it does not return at
/// all. The connection generation that the packet belongs to remembers the verdict.
pub proof fn waiting_packet_is_answered<H, C>(
    device: Device<H, C>,
    k: int,
    known: Known,
    verdict: Verdict,
    now: u64,
)
    requires
        device.wf(),
        0 <= k < device@.queue.len(),
        device@.closures == Map::<u64, ClosureView<C>>::empty(),
        device@.queue[k].value.connection_instance_id == Some(known.instance_id),
        known.instance_id != 0,
        knows(device@, device@.queue[k].value.key, known),
    ensures
        ({
            let s = device@;
            let key = s.queue[k].value.key;
            let packet = s.queue[k].value.packet@;
            let after = s.verdict_applied(s.queue[k].id, verdict, now);
            let place = s.actions.len() as int;
            let reset = reauthorized(packet);
            let info = destination_of(key, verdict);
            let redirects = verdict is RedirectNameServer || verdict is RedirectTunnel
                || verdict is RedirectSplitTunnel;
            let accepts = verdict is Accept || verdict is PermanentAccept;
            &&& accepts ==> completes(after, place, packet, false, reset)
            &&& !accepts && !redirects ==> completes(after, place, packet, true, reset)
            &&& redirects && packet_failure(packet, info) is None ==> completes(
                after,
                place,
                packet_redirected(packet, info),
                false,
                reset,
            )
            &&& redirects && packet_failure(packet, info) is Some ==> after.actions == s.actions
            &&& !(redirects && packet_failure(packet, info) is Some) ==> after.actions.len()
                == place + 1 && after.actions.take(place) == s.actions
            &&& knows(after, key, Known { verdict, ..known })
            &&& after.events == s.events
        }),
{
    let s = device@;
    let pending = s.queue[k].value;
    let id = s.queue[k].id;
    let key = pending.key;
    let packet = pending.packet@;
    device.packet_cache.ids_are_unique();
    lemma_queued_packet(s.queue, id, pending);
    let claimed = s.claimed(id, pending);
    assert(knows(claimed, key, known));
    verdict_reaches_its_connection(claimed, key, known, verdict, now, key, known);
    Ipv4Address::lemma_family();
    Ipv6Address::lemma_family();
    if key.local_address is Ipv6 {
        let p = lemma_stored_place(claimed.connections_v6, key, known);
    } else {
        let p = lemma_stored_place(claimed.connections_v4, key, known);
    }
    let given = claimed.given(pending, verdict, now);
    lemma_nothing_closes(given, id, now);
    let after = s.verdict_applied(id, verdict, now);
    if after.actions.len() > s.actions.len() {
        assert(after.actions.take(s.actions.len() as int) =~= s.actions);
    }
}

/// A verdict for a packet without a connection decides that packet alone, and so does one for
/// an outbound datagram whose connection is gone: only an accepted packet returns to the
/// network. Any other packet whose connection is gone is completed as blocked, whatever the
/// verdict.
pub proof fn packet_without_connection_is_answered<H, C>(
    device: Device<H, C>,
    k: int,
    verdict: Verdict,
    now: u64,
)
    requires
        device.wf(),
        0 <= k < device@.queue.len(),
        device@.closures == Map::<u64, ClosureView<C>>::empty(),
        device@.queue[k].value.connection_instance_id matches Some(id) ==> generation_is_gone(
            device@,
            id,
        ),
    ensures
        ({
            let s = device@;
            let key = s.queue[k].value.key;
            let packet = s.queue[k].value.packet@;
            let after = s.verdict_applied(s.queue[k].id, verdict, now);
            let place = s.actions.len() as int;
            let accepts = verdict is Accept || verdict is PermanentAccept;
            let alone = s.queue[k].value.connection_instance_id is None || outlives_its_connection(
                key,
                packet,
            );
            &&& alone ==> completes(after, place, packet, !accepts, reauthorized(packet))
            &&& !alone ==> completes(after, place, packet, true, false)
            &&& after.actions.len() == place + 1 && after.actions.take(place) == s.actions
            &&& after.connections_v4 == s.connections_v4
            &&& after.connections_v6 == s.connections_v6
            &&& after.events == s.events
        }),
{
    let s = device@;
    let pending = s.queue[k].value;
    let id = s.queue[k].id;
    device.packet_cache.ids_are_unique();
    lemma_queued_packet(s.queue, id, pending);
    let claimed = s.claimed(id, pending);
    if let Some(instance) = pending.connection_instance_id {
        stale_instance_reaches_nothing(s.connections_v4, pending.key, instance);
        stale_instance_reaches_nothing(s.connections_v6, pending.key, instance);
    }
    let given = claimed.given(pending, verdict, now);
    lemma_nothing_closes(given, id, now);
    let after = s.verdict_applied(id, verdict, now);
    assert(after.actions.take(s.actions.len() as int) =~= s.actions);
}

/// Completing a packet as blocked injects no byte of it; completing it otherwise injects each
/// of its clones once, in order and as it is. A held operation is completed either way, and
/// permitted only if it is not blocked.
pub proof fn blocked_packet_is_not_injected<H>(packet: PacketView<H>, blocked: bool)
    ensures
        match packet {
            PacketView::Network(buffer, inject) => {
                &&& blocked ==> injections(packet, blocked).len() == 0
                &&& !blocked ==> injections(packet, blocked) == seq![
                    InjectionView::<H>::Clone(buffer, inject),
                ]
            },
            PacketView::NetworkBatch(buffers, inject) => {
                &&& blocked ==> injections(packet, blocked).len() == 0
                &&& !blocked ==> injections(packet, blocked).len() == buffers.len()
                &&& !blocked ==> forall|i: int|
                    0 <= i < buffers.len() ==> #[trigger] injections(packet, blocked)[i]
                        == InjectionView::<H>::Clone(buffers[i], inject)
            },
            PacketView::AleLayer(defer) => {
                &&& injections(packet, blocked).len() == 1
                &&& injections(packet, blocked)[0] matches InjectionView::Ale(d, permit) && d
                    == defer && permit == !blocked
            },
        },
{
}

} // verus!

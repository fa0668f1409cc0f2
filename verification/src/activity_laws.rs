//! Which traffic keeps a connection alive.

use crate::ale_callouts::AleLayerData;
use crate::ale_laws::{is_classified, tuple_of};
use crate::ale_policy::InjectionStatus;
use crate::connection::{AddressFamily, Connection, Direction};
use crate::connection_map::{
    at, endpoint_of, generations, group_key, holds, map_push, map_set, MapView, Place,
};
use crate::device_lookup::{selected_refreshed, with_registration};
use crate::device_state::DeviceView;
use crate::ip::{IpAddress, Ipv4Address, Ipv6Address};
use crate::key::Key;
use crate::packet::Packet;
use crate::packet_callouts::PacketContext;
use crate::packet_laws::{lemma_untouched, on_redirect_entry, untouched};
use crate::packet_metadata::{PacketInspection, PacketMetadata, PacketMetadataError};
use crate::state_laws::{
    knows, lacks, lemma_lacked, lemma_replaced, lemma_stored_place, misses, one_family, stores,
    Known,
};
use vstd::prelude::*;

verus! {

/// The live connection of a tuple was last used at `time`. Its end is reported by the network
/// stack if it is `native`; otherwise it ends when it has been idle for too long.
pub open spec fn used_at<A: AddressFamily>(
    m: MapView<A>,
    key: Key,
    native: bool,
    time: u64,
) -> bool {
    exists|p: Place<A>| #[trigger]
        holds(m, p) && at(m, p).end_time is None && at(m, p).spec_key() == key && at(
            m,
            p,
        ).native_lifecycle == native && at(m, p).last_accessed_time == time
}

/// The driver holds a live connection with the tuple that was last used at `time`.
pub open spec fn last_used<H, C>(s: DeviceView<H, C>, key: Key, native: bool, time: u64) -> bool {
    match key.local_address {
        IpAddress::Ipv4(_) => used_at::<Ipv4Address>(s.connections_v4, key, native, time),
        IpAddress::Ipv6(_) => used_at::<Ipv6Address>(s.connections_v6, key, native, time),
    }
}

proof fn lemma_new_used<A: AddressFamily>(m: MapView<A>, c: Connection<A>, now: u64)
    requires
        lacks(m, c.spec_key()),
        c.end_time is None,
    ensures
        used_at(
            with_registration(m, c, now),
            c.spec_key(),
            c.native_lifecycle,
            c.last_accessed_time,
        ),
{
    A::lemma_family();
    let key = c.spec_key();
    lemma_lacked(m, key);
    let n = map_push(m, c);
    let p: Place<A> = (
        group_key(key.spec_small()),
        endpoint_of(c),
        generations(m, key).len() as int,
    );
    assert(holds(n, p));
    assert(at(n, p) == c);
}

/// A new connection was used just now, and it is marked by whether the network stack reports
/// its end.
pub proof fn new_connection_is_used_now<H, C>(
    s: DeviceView<H, C>,
    key: Key,
    process_id: u64,
    direction: Direction,
    native: bool,
    now: u64,
)
    requires
        misses(s, key),
        one_family(key),
    ensures
        last_used(s.registered(key, process_id, direction, native, now), key, native, now),
{
    Ipv4Address::lemma_family();
    Ipv6Address::lemma_family();
    if key.local_address is Ipv6 {
        let c = Connection::<Ipv6Address>::spec_new(
            key,
            process_id,
            direction,
            native,
            s.next_instance,
            now,
        )->Some_0;
        assert(c.spec_key() == key);
        lemma_new_used(s.connections_v6, c, now);
    } else {
        let c = Connection::<Ipv4Address>::spec_new(
            key,
            process_id,
            direction,
            native,
            s.next_instance,
            now,
        )->Some_0;
        assert(c.spec_key() == key);
        lemma_new_used(s.connections_v4, c, now);
    }
}

proof fn lemma_refreshed<A: AddressFamily>(
    m: MapView<A>,
    key: Key,
    known: Known,
    native: bool,
    time: u64,
    fallback: bool,
    now: u64,
)
    requires
        stores(m, key, known),
        used_at(m, key, native, time),
    ensures
        used_at(
            selected_refreshed(m, key, fallback, now),
            key,
            native,
            if !native && known.opened is Outbound {
                now
            } else {
                time
            },
        ),
{
    let p = lemma_stored_place(m, key, known);
    let q = choose|q: Place<A>| #[trigger]
        holds(m, q) && at(m, q).end_time is None && at(m, q).spec_key() == key && at(
            m,
            q,
        ).native_lifecycle == native && at(m, q).last_accessed_time == time;
    assert(p == q);
    let c = at(m, p).spec_refreshed(now);
    lemma_replaced(m, p, c);
    let n = map_set(m, p, c);
    assert(holds(n, p));
    assert(at(n, p) == c);
}

/// Looking a connection up counts as use of it where only its traffic keeps it alive: where it
/// was opened from here and nothing else would report its end.
pub proof fn lookup_is_use<H, C>(
    s: DeviceView<H, C>,
    key: Key,
    known: Known,
    native: bool,
    time: u64,
    fallback: bool,
    now: u64,
)
    requires
        knows(s, key, known),
        last_used(s, key, native, time),
    ensures
        last_used(
            s.looked_up(key, key.local_address is Ipv6, fallback, now),
            key,
            native,
            if !native && known.opened is Outbound {
                now
            } else {
                time
            },
        ),
{
    if key.local_address is Ipv6 {
        lemma_refreshed(s.connections_v6, key, known, native, time, fallback, now);
    } else {
        lemma_refreshed(s.connections_v4, key, known, native, time, fallback, now);
    }
}

/// A packet keeps its connection alive, in either direction, where nothing else would report
/// the end of it.
pub proof fn packet_keeps_its_connection_alive<H, C>(
    s: DeviceView<H, C>,
    inspection: PacketInspection,
    metadata: PacketMetadata,
    context: PacketContext,
    now: u64,
    known: Known,
    native: bool,
    time: u64,
)
    requires
        inspection.metadata == Ok::<PacketMetadata, PacketMetadataError>(metadata),
        metadata.key.protocol is Tcp || metadata.key.protocol is Udp,
        !metadata.is_icmp_port_unreachable,
        !on_redirect_entry(metadata.key),
        context.ipv6 == (metadata.key.local_address is Ipv6),
        knows(s, metadata.key, known),
        last_used(s, metadata.key, native, time),
    ensures
        last_used(
            s.packet_seen(inspection, context, now),
            metadata.key,
            native,
            if !native && known.opened is Outbound {
                now
            } else {
                time
            },
        ),
{
    let history = !context.injected_by_other && context.direction is Outbound;
    lookup_is_use(s, metadata.key, known, native, time, history, now);
    if metadata.key.local_address is Ipv6 {
        let p = lemma_stored_place(s.connections_v6, metadata.key, known);
    } else {
        let p = lemma_stored_place(s.connections_v4, metadata.key, known);
    }
}

/// A connection that only the packet layer has seen ends when it is idle: nothing reports its
/// end.
pub proof fn connection_of_a_packet_can_idle<H, C>(
    s: DeviceView<H, C>,
    inspection: PacketInspection,
    metadata: PacketMetadata,
    context: PacketContext,
    now: u64,
)
    requires
        inspection.metadata == Ok::<PacketMetadata, PacketMetadataError>(metadata),
        metadata.key.protocol is Tcp || metadata.key.protocol is Udp,
        !metadata.is_icmp_port_unreachable && !metadata.is_tcp_reset,
        !on_redirect_entry(metadata.key),
        one_family(metadata.key),
        context.ipv6 == (metadata.key.local_address is Ipv6),
        context.direction is Outbound && !context.injected_by_other,
        match metadata.key.local_address {
            IpAddress::Ipv4(_) => untouched::<Ipv4Address>(s.connections_v4, metadata.key),
            IpAddress::Ipv6(_) => untouched::<Ipv6Address>(s.connections_v6, metadata.key),
        },
    ensures
        last_used(s.packet_seen(inspection, context, now), metadata.key, false, now),
{
    let key = metadata.key;
    if key.local_address is Ipv6 {
        lemma_untouched(s.connections_v6, key, true);
    } else {
        lemma_untouched(s.connections_v4, key, true);
    }
    new_connection_is_used_now(s, key, 0, context.direction, false, now);
    assert(s.looked_up(key, context.ipv6, true, now) == s);
}

/// A connection that was authorized lives until the network stack reports its end.
pub proof fn authorized_connection_does_not_idle<H, C>(
    s: DeviceView<H, C>,
    data: AleLayerData,
    injection: InjectionStatus,
    packet: Packet<H>,
    now: u64,
)
    requires
        is_classified(data, injection),
        data.protocol is Tcp || data.protocol is Udp,
        data.is_ipv6 == (data.local_ip is Ipv6),
        one_family(tuple_of(data)),
        match data.local_ip {
            IpAddress::Ipv4(_) => untouched::<Ipv4Address>(s.connections_v4, tuple_of(data)),
            IpAddress::Ipv6(_) => untouched::<Ipv6Address>(s.connections_v6, tuple_of(data)),
        },
    ensures
        data.protocol is Udp && data.direction is Outbound ==> last_used(
            s.ale_seen(data, injection, now),
            tuple_of(data),
            true,
            now,
        ),
        last_used(s.ale_saved(data, None, packet, now), tuple_of(data), true, now),
{
    let key = tuple_of(data);
    assert(data.spec_as_key() == key);
    if key.local_address is Ipv6 {
        lemma_untouched(s.connections_v6, key, false);
    } else {
        lemma_untouched(s.connections_v4, key, false);
    }
    new_connection_is_used_now(s, key, data.process_id, data.direction, true, now);
    assert(s.looked_up(key, data.is_ipv6, false, now) == s);
}

} // verus!

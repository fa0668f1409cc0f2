//! What the authorization layers promise of every connection.

use crate::ale_callouts::{
    endpoint_selection, known_process, AleDecision, AleLayerData, ResourceLayer,
};
use crate::ale_policy::InjectionStatus;
use crate::connection::{AddressFamily, Connection, Direction, Verdict};
use crate::connection_map::{
    at, group_key, holds, lemma_exact_holds, lemma_redirect_holds, map_wf, Place, Query,
};
use crate::device_laws::{
    ends_only, released_port_keeps_no_connection_v4, released_port_keeps_no_connection_v6,
};
use crate::device_state::{end_event_v4, end_event_v6, DeviceView};
use crate::id_cache::PendingPacket;
use crate::ip::{IpAddress, IpProtocol, Ipv4Address, Ipv6Address};
use crate::key::Key;
use crate::packet::Packet;
use crate::packet_callouts::ClassifyAction;
use crate::packet_laws::{lemma_untouched, untouched};
use crate::record_laws::{
    asked_packet_is_reported, asks_about, end_record_v4_names_the_connection,
    end_record_v6_names_the_connection, part_bytes, reports_end,
};
use crate::state_laws::{
    knows, lemma_stored_place, lookup_changes_no_connection, misses, one_family,
    registration_adds_a_connection, Known,
};
use crate::verdict_laws::{completes, generation_is_gone};
use vstd::prelude::*;

verus! {

/// The tuple of an indication of TCP or UDP.
pub open spec fn tuple_of(data: AleLayerData) -> Key {
    Key {
        protocol: data.protocol,
        local_address: data.local_ip,
        local_port: data.local_port,
        remote_address: data.remote_ip,
        remote_port: data.remote_port,
    }
}

/// The process has the device open.
pub open spec fn owns<H, C>(s: DeviceView<H, C>, process_id: u64) -> bool {
    s.owner matches Some(owner) && owner.process_id != 0 && owner.process_id == process_id
        % 0x1_0000_0000
}

/// The indication is left with an action.
pub open spec fn acts(decision: AleDecision, action: ClassifyAction, protect: bool) -> bool {
    decision matches AleDecision::Act { action: a, protect: p } && a == action && p == protect
}

/// The indication is the first that a listening socket on this machine sees of a connection of
/// the machine with itself.
pub open spec fn reaches_listener(data: AleLayerData) -> bool {
    &&& data.protocol is Tcp || data.protocol is Udp
    &&& data.local_ip == data.remote_ip || match data.local_ip {
        IpAddress::Ipv4(address) => address.0 / 0x100_0000 == 127,
        IpAddress::Ipv6(address) => address.high == 0 && address.low == 1,
    }
    &&& data.direction is Inbound
    &&& data.packet_direction is Inbound
}

/// The indication is one to decide about: neither this driver injected its packet, unless it
/// reaches a listening socket, nor did another driver send it.
pub open spec fn is_classified(data: AleLayerData, injection: InjectionStatus) -> bool {
    &&& !injection.self_injected || reaches_listener(data)
    &&& !injection.injected_by_other || data.packet_direction is Inbound
}

/// The stored verdict of a live connection rules its authorizations. An accepted or redirected
/// connection is permitted, a permanently refused or failed one is not, and a temporary
/// refusal of an outbound connection is left to the packet layer. An undecided connection
/// waits under its own generation.
pub proof fn stored_verdict_rules_authorizations<H, C>(
    s: DeviceView<H, C>,
    data: AleLayerData,
    injection: InjectionStatus,
    now: u64,
    known: Known,
)
    requires
        is_classified(data, injection),
        data.protocol is Tcp || (data.protocol is Udp && data.direction is Inbound),
        data.is_ipv6 == (data.local_ip is Ipv6),
        knows(s, tuple_of(data), known),
    ensures
        ({
            let decision = s.ale_decision(data, injection);
            let outbound = data.direction is Outbound;
            &&& match known.verdict {
                Verdict::Undecided => decision matches AleDecision::Save { instance_id }
                    && instance_id == Some(known.instance_id),
                Verdict::PermanentAccept
                | Verdict::Accept
                | Verdict::RedirectNameServer
                | Verdict::RedirectTunnel
                | Verdict::RedirectSplitTunnel => acts(
                    decision,
                    ClassifyAction::Permit,
                    outbound && owns(s, data.process_id),
                ),
                Verdict::PermanentBlock | Verdict::Undeterminable | Verdict::Failed => acts(
                    decision,
                    ClassifyAction::BlockHard,
                    false,
                ),
                Verdict::PermanentDrop => acts(decision, ClassifyAction::BlockAndAbsorb, false),
                Verdict::Block => acts(
                    decision,
                    if outbound {
                        ClassifyAction::Permit
                    } else {
                        ClassifyAction::BlockHard
                    },
                    false,
                ),
                Verdict::Drop => acts(
                    decision,
                    if outbound {
                        ClassifyAction::Permit
                    } else {
                        ClassifyAction::BlockAndAbsorb
                    },
                    false,
                ),
            }
            &&& knows(s.ale_seen(data, injection, now), tuple_of(data), known)
        }),
{
    let key = tuple_of(data);
    assert(data.spec_as_key() == key);
    if key.local_address is Ipv6 {
        let p = lemma_stored_place(s.connections_v6, key, known);
    } else {
        let p = lemma_stored_place(s.connections_v4, key, known);
    }
    lookup_changes_no_connection(s, key, data.is_ipv6, false, now, key, known);
}

/// The first indication of a connection that the driver has not seen: a TCP connection and an
/// inbound UDP flow wait for user space, while an outbound UDP flow is permitted here and
/// registered under its process, so that the packet layer decides its datagrams.
pub proof fn first_indication_is_decided<H, C>(
    s: DeviceView<H, C>,
    data: AleLayerData,
    injection: InjectionStatus,
    now: u64,
)
    requires
        is_classified(data, injection),
        data.protocol is Tcp || data.protocol is Udp,
        data.is_ipv6 == (data.local_ip is Ipv6),
        one_family(tuple_of(data)),
        match data.local_ip {
            IpAddress::Ipv4(_) => untouched::<Ipv4Address>(s.connections_v4, tuple_of(data)),
            IpAddress::Ipv6(_) => untouched::<Ipv6Address>(s.connections_v6, tuple_of(data)),
        },
    ensures
        ({
            let decision = s.ale_decision(data, injection);
            let t = s.ale_seen(data, injection, now);
            if data.protocol is Udp && data.direction is Outbound {
                &&& acts(decision, ClassifyAction::Permit, owns(s, data.process_id))
                &&& knows(
                    t,
                    tuple_of(data),
                    Known {
                        verdict: Verdict::Undecided,
                        process_id: data.process_id,
                        opened: Direction::Outbound,
                        instance_id: s.next_instance,
                    },
                )
                &&& t.queue == s.queue && t.events == s.events && t.actions == s.actions
            } else {
                &&& decision matches AleDecision::Save { instance_id } && instance_id is None
                &&& t == s
            }
        }),
{
    let key = tuple_of(data);
    assert(data.spec_as_key() == key);
    if key.local_address is Ipv6 {
        lemma_untouched(s.connections_v6, key, false);
    } else {
        lemma_untouched(s.connections_v4, key, false);
    }
    assert(s.looked_up(key, data.is_ipv6, false, now) == s);
    registration_adds_a_connection(
        s,
        key,
        data.process_id,
        data.direction,
        true,
        now,
        key,
        Known {
            verdict: Verdict::Undecided,
            process_id: 0,
            opened: data.direction,
            instance_id: 0,
        },
    );
}

/// A known UDP flow that goes out is let pass at this layer, decided or not. Its datagrams are
/// decided at the packet layer.
pub proof fn outbound_datagrams_are_left_to_the_packet_layer<H, C>(
    s: DeviceView<H, C>,
    data: AleLayerData,
    injection: InjectionStatus,
    now: u64,
    known: Known,
)
    requires
        is_classified(data, injection),
        data.protocol is Udp && data.direction is Outbound,
        data.is_ipv6 == (data.local_ip is Ipv6),
        knows(s, tuple_of(data), known),
    ensures
        acts(
            s.ale_decision(data, injection),
            ClassifyAction::Permit,
            owns(s, data.process_id),
        ),
        knows(s.ale_seen(data, injection, now), tuple_of(data), known),
{
    let key = tuple_of(data);
    assert(data.spec_as_key() == key);
    if key.local_address is Ipv6 {
        let p = lemma_stored_place(s.connections_v6, key, known);
    } else {
        let p = lemma_stored_place(s.connections_v4, key, known);
    }
    lookup_changes_no_connection(s, key, data.is_ipv6, false, now, key, known);
}

/// What the driver injected itself is permitted, unless it is the first packet that a
/// listening socket on this machine sees. What another driver injected is permitted where it
/// leaves, and everything without ports is. None of that changes anything.
pub proof fn injected_indication_is_permitted<H, C>(
    s: DeviceView<H, C>,
    data: AleLayerData,
    injection: InjectionStatus,
    now: u64,
)
    requires
        !is_classified(data, injection) || !(data.protocol is Tcp || data.protocol is Udp),
    ensures
        acts(s.ale_decision(data, injection), ClassifyAction::Permit, false),
        s.ale_seen(data, injection, now) == s,
{
}

/// A saved packet waits for user space under its connection: a new connection is added for it
/// first, undecided and of the process and direction of the indication. The request that user
/// space reads names the tuple and the process, and carries the packet.
pub proof fn saved_packet_is_asked_about<H, C>(
    s: DeviceView<H, C>,
    data: AleLayerData,
    packet: Packet<H>,
    now: u64,
)
    requires
        data.protocol is Tcp || data.protocol is Udp,
        one_family(tuple_of(data)),
        misses(s, tuple_of(data)),
        s.next_instance != 0,
        packet is AleLayer,
        s.next_request < u64::MAX,
        part_bytes(packet, 0).len() <= 0xffff_ffc4,
    ensures
        ({
            let t = s.ale_saved(data, None, packet, now);
            &&& knows(
                t,
                tuple_of(data),
                Known {
                    verdict: Verdict::Undecided,
                    process_id: data.process_id,
                    opened: data.direction,
                    instance_id: s.next_instance,
                },
            )
            &&& t.events.len() == s.events.len() + 1
            &&& asks_about(
                t.events.last(),
                s.next_request,
                tuple_of(data),
                data.process_id,
                data.direction,
                true,
                part_bytes(packet, 0),
            )
            &&& t.queue.len() == s.queue.len() + 1
            &&& t.queue.last().id == s.next_request
            &&& t.queue.last().value.key == tuple_of(data)
            &&& t.queue.last().value.packet == packet
            &&& t.queue.last().value.connection_instance_id == Some(s.next_instance)
            &&& t.actions == s.actions
        }),
{
    let key = tuple_of(data);
    assert(data.spec_as_key() == key);
    let known = Known {
        verdict: Verdict::Undecided,
        process_id: data.process_id,
        opened: data.direction,
        instance_id: s.next_instance,
    };
    registration_adds_a_connection(
        s,
        key,
        data.process_id,
        data.direction,
        true,
        now,
        key,
        known,
    );
    let r = s.registered(key, data.process_id, data.direction, true, now);
    if key.local_address is Ipv6 {
        let p = lemma_stored_place(r.connections_v6, key, known);
    } else {
        let p = lemma_stored_place(r.connections_v4, key, known);
    }
    let pending = PendingPacket {
        key,
        packet,
        connection_instance_id: Some(s.next_instance),
    };
    asked_packet_is_reported(r, pending, 0, data.process_id, data.direction, true);
}

/// A saved packet of a connection that is already known waits under that generation while it
/// is live, and is completed as blocked when it is gone.
pub proof fn saved_packet_waits_with_its_connection<H, C>(
    s: DeviceView<H, C>,
    data: AleLayerData,
    packet: Packet<H>,
    now: u64,
    known: Known,
    stale: u64,
)
    requires
        data.protocol is Tcp || data.protocol is Udp,
        one_family(tuple_of(data)),
        packet is AleLayer,
        s.next_request < u64::MAX,
        part_bytes(packet, 0).len() <= 0xffff_ffc4,
    ensures
        knows(s, tuple_of(data), known) && known.instance_id != 0 ==> ({
            let t = s.ale_saved(data, Some(known.instance_id), packet, now);
            &&& t.events.len() == s.events.len() + 1
            &&& asks_about(
                t.events.last(),
                s.next_request,
                tuple_of(data),
                data.process_id,
                data.direction,
                true,
                part_bytes(packet, 0),
            )
            &&& t.queue.len() == s.queue.len() + 1
            &&& t.queue.last().id == s.next_request
            &&& t.queue.last().value.packet == packet
            &&& t.queue.last().value.connection_instance_id == Some(known.instance_id)
            &&& t.actions == s.actions
        }),
        generation_is_gone(s, stale) ==> ({
            let t = s.ale_saved(data, Some(stale), packet, now);
            &&& completes(t, s.actions.len() as int, packet@, true, false)
            &&& t == (DeviceView { actions: t.actions, ..s })
        }),
{
    let key = tuple_of(data);
    assert(data.spec_as_key() == key);
    if knows(s, key, known) && known.instance_id != 0 {
        if key.local_address is Ipv6 {
            let p = lemma_stored_place(s.connections_v6, key, known);
        } else {
            let p = lemma_stored_place(s.connections_v4, key, known);
        }
        let pending = PendingPacket {
            key,
            packet,
            connection_instance_id: Some(known.instance_id),
        };
        asked_packet_is_reported(s, pending, 0, data.process_id, data.direction, true);
    }
    let q = Query::instance(key, stale);
    lemma_exact_holds(s.connections_v4, q);
    lemma_exact_holds(s.connections_v6, q);
    lemma_redirect_holds(s.connections_v4, Query { redirect: true, ..q });
    lemma_redirect_holds(s.connections_v6, Query { redirect: true, ..q });
}

/// The endpoint that was given up is the local one of the connection: its protocol and port,
/// its address where one is named, and its process where both are known.
pub open spec fn uses_endpoint<A: AddressFamily>(
    c: Connection<A>,
    endpoint: (IpProtocol, u16),
    local_address: Option<IpAddress>,
    process_id: Option<u64>,
) -> bool {
    &&& c.end_time is None
    &&& c.protocol == endpoint.0
    &&& c.local_port == endpoint.1
    &&& local_address matches Some(address) ==> c.local_address.spec_ip() == address
    &&& process_id matches Some(pid) ==> pid == 0 || c.process_id == 0 || c.process_id == pid
}

/// Giving up a local IPv4 endpoint ends each live connection on it and reports it by its own
/// endpoints, and the connections of the other family and of other endpoints are no concern
/// of it. Giving up an IPv6 endpoint ends no IPv4 connection.
pub proof fn given_up_endpoint_keeps_no_connection_v4<H, C>(
    s: DeviceView<H, C>,
    endpoint: (IpProtocol, u16),
    local_address: Option<IpAddress>,
    process_id: Option<u64>,
    now: u64,
    p: Place<Ipv4Address>,
)
    requires
        map_wf(s.connections_v4),
        holds(s.connections_v4, p),
        s.connections_v4[p.0].dom().finite(),
        uses_endpoint(at(s.connections_v4, p), endpoint, local_address, process_id),
    ensures
        forall|layer: ResourceLayer|
            layer is ReleaseV4 || layer is AssignmentV4Discard ==> ({
                let t = #[trigger] s.endpoint_given_up(
                    layer,
                    endpoint,
                    local_address,
                    process_id,
                    now,
                );
                let c = at(s.connections_v4, p);
                &&& holds(t.connections_v4, p)
                &&& at(t.connections_v4, p) == (Connection { end_time: Some(now), ..c })
                &&& exists|i: int|
                    0 <= i < t.events.len() && reports_end(
                        #[trigger] t.events[i],
                        c.spec_key(),
                        c.direction,
                        match process_id {
                            Some(pid) => pid,
                            None => 0,
                        },
                    )
                &&& ends_only(s, t, now)
            }),
        s.endpoint_given_up(ResourceLayer::Other, endpoint, local_address, process_id, now) == s,
{
    let c = at(s.connections_v4, p);
    assert(s.connections_v4.contains_key(p.0) && s.connections_v4[p.0].contains_key(p.1));
    assert(group_key(s.connections_v4[p.0][p.1][p.2].spec_key().spec_small()) == p.0);
    let pid = known_process(process_id);
    released_port_keeps_no_connection_v4(s, endpoint, local_address, pid, now, p);
    end_record_v4_names_the_connection(c, pid);
    assert(endpoint_selection(local_address, pid).selects(c));
    let t = s.port_released_v4(endpoint, local_address, pid, now);
    assert(t.events.contains(end_event_v4(c, pid)));
    let i = choose|i: int| 0 <= i < t.events.len() && t.events[i] == end_event_v4(c, pid);
    assert(reports_end(t.events[i], c.spec_key(), c.direction, pid));
}

/// Giving up a local IPv6 endpoint ends each live connection on it and reports it by its own
/// endpoints.
pub proof fn given_up_endpoint_keeps_no_connection_v6<H, C>(
    s: DeviceView<H, C>,
    endpoint: (IpProtocol, u16),
    local_address: Option<IpAddress>,
    process_id: Option<u64>,
    now: u64,
    p: Place<Ipv6Address>,
)
    requires
        map_wf(s.connections_v6),
        holds(s.connections_v6, p),
        s.connections_v6[p.0].dom().finite(),
        uses_endpoint(at(s.connections_v6, p), endpoint, local_address, process_id),
    ensures
        forall|layer: ResourceLayer|
            layer is ReleaseV6 || layer is AssignmentV6Discard ==> ({
                let t = #[trigger] s.endpoint_given_up(
                    layer,
                    endpoint,
                    local_address,
                    process_id,
                    now,
                );
                let c = at(s.connections_v6, p);
                &&& holds(t.connections_v6, p)
                &&& at(t.connections_v6, p) == (Connection { end_time: Some(now), ..c })
                &&& exists|i: int|
                    0 <= i < t.events.len() && reports_end(
                        #[trigger] t.events[i],
                        c.spec_key(),
                        c.direction,
                        match process_id {
                            Some(pid) => pid,
                            None => 0,
                        },
                    )
                &&& ends_only(s, t, now)
            }),
{
    let c = at(s.connections_v6, p);
    assert(s.connections_v6.contains_key(p.0) && s.connections_v6[p.0].contains_key(p.1));
    assert(group_key(s.connections_v6[p.0][p.1][p.2].spec_key().spec_small()) == p.0);
    let pid = known_process(process_id);
    released_port_keeps_no_connection_v6(s, endpoint, local_address, pid, now, p);
    end_record_v6_names_the_connection(c, pid);
    assert(endpoint_selection(local_address, pid).selects(c));
    let t = s.port_released_v6(endpoint, local_address, pid, now);
    assert(t.events.contains(end_event_v6(c, pid)));
    let i = choose|i: int| 0 <= i < t.events.len() && t.events[i] == end_event_v6(c, pid);
    assert(reports_end(t.events[i], c.spec_key(), c.direction, pid));
}

} // verus!

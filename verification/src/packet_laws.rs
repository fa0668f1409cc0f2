//! What the packet layers promise of every packet.

use crate::connection::{AddressFamily, Connection, Direction, Verdict};
use crate::connection_laws::{lemma_first_exists, lemma_first_in_finite_group};
use crate::connection_map::{
    at, endpoint_of, exact_match, generations, group_key, holds, lemma_exact_holds,
    lemma_redirect_holds, redirect_match, MapView, Place, Query,
};
use crate::device_lookup::selected_info;
use crate::device_state::DeviceView;
use crate::icmp_echo_cache::{answers, sender, without_request, EchoRequest};
use crate::id_cache::PendingPacket;
use crate::ip::{protocol_rank_is_injective, IpAddress, Ipv4Address, Ipv6Address};
use crate::key::Key;
use crate::lists::{lemma_filter_source, lemma_filter_target};
use crate::packet::{InjectInfo, Packet};
use crate::packet_callouts::{Indication, PacketContext, PacketDecision, PacketRequest};
use crate::packet_metadata::{PacketInspection, PacketMetadata, PacketMetadataError};
use crate::state_laws::{
    carries, knows, lacks, lemma_lacked, lemma_stored_place, lookup_changes_no_connection,
    one_family, registration_adds_a_connection, verdict_reaches_its_connection, Known,
};
use crate::verdict_laws::{completes, generation_is_gone};
use vstd::prelude::*;

verus! {

/// A packet on a local redirect entry of the service: one of its three ports, reached from
/// the same address.
pub open spec fn on_redirect_entry(key: Key) -> bool {
    &&& key.local_port == 53 || key.local_port == 717 || key.local_port == 719
    &&& key.local_address == key.remote_address
}

/// A clone returns where the packet was taken from.
pub open spec fn returns_to(
    inject: InjectInfo,
    context: PacketContext,
    direction: Direction,
    key: Key,
) -> bool {
    &&& inject.ipv6 == context.ipv6
    &&& inject.inbound == (direction is Inbound)
    &&& inject.loopback == match key.local_address {
        IpAddress::Ipv4(address) => address.0 / 0x100_0000 == 127,
        IpAddress::Ipv6(address) => address.high == 0 && address.low == 1,
    }
    &&& inject.compartment_id == context.compartment_id
    &&& inject.interface_index == context.interface_index
    &&& inject.sub_interface_index == context.sub_interface_index
}

/// The policy of a connection decides a packet of it. Only a permanent accept lets packets
/// through without a question, and only a permanent verdict, a failed one or a redirect
/// settles them. Any other verdict covered the packet that it was given for: the next
/// packet is kept, and user space is asked about it under the same connection generation. A
/// connection that came from outside and whose program is not known yet goes on to the layer
/// that authorizes it.
pub open spec fn ruled_by(
    decision: PacketDecision,
    key: Key,
    context: PacketContext,
    known: Known,
) -> bool {
    let unattributed = known.verdict is Undecided && known.opened is Inbound && (known.process_id
        == 0 || known.process_id == 4);
    &&& decision is Permit <==> known.verdict is PermanentAccept
    &&& decision is BlockHard <==> known.verdict is PermanentBlock
    &&& decision is Absorb <==> (known.verdict is PermanentDrop || known.verdict is Undeterminable
        || known.verdict is Failed)
    &&& decision is Redirect <==> (known.verdict is RedirectNameServer
        || known.verdict is RedirectTunnel || known.verdict is RedirectSplitTunnel)
    &&& decision is PermitIndication <==> unattributed
    &&& decision is Ask <==> (known.verdict is Accept || known.verdict is Block
        || known.verdict is Drop || (known.verdict is Undecided && !unattributed))
    &&& decision matches PacketDecision::Redirect(info, inject) ==> {
        &&& info.local_address == key.local_address
        &&& info.remote_address == key.remote_address
        &&& info.remote_port == key.remote_port
        &&& known.verdict is RedirectNameServer ==> info.redirect_port == 53
            && info.redirect_address.loopback() && !info.unify
        &&& known.verdict is RedirectTunnel ==> info.redirect_port == 717
            && info.redirect_address == key.local_address && info.unify
        &&& known.verdict is RedirectSplitTunnel ==> info.redirect_port == 719
            && info.redirect_address == key.local_address && info.unify
        &&& returns_to(inject, context, context.direction, key)
    }
    &&& decision matches PacketDecision::Ask(request) ==> {
        &&& request.key == key
        &&& request.connection_instance_id == Some(known.instance_id)
        &&& request.process_id == known.process_id
        &&& request.direction == context.direction
        &&& returns_to(request.inject_info, context, context.direction, key)
    }
}

/// The stored verdict of a live connection rules each packet of it, in both directions.
pub proof fn stored_verdict_rules_packets<H, C>(
    s: DeviceView<H, C>,
    inspection: PacketInspection,
    metadata: PacketMetadata,
    context: PacketContext,
    now: u64,
    known: Known,
)
    requires
        inspection.metadata == Ok::<PacketMetadata, PacketMetadataError>(metadata),
        metadata.key.protocol is Tcp || metadata.key.protocol is Udp,
        !metadata.is_icmp_port_unreachable,
        !on_redirect_entry(metadata.key),
        context.ipv6 == (metadata.key.local_address is Ipv6),
        knows(s, metadata.key, known),
    ensures
        ruled_by(s.packet_decision(inspection, context, now), metadata.key, context, known),
        knows(s.packet_seen(inspection, context, now), metadata.key, known),
{
    let key = metadata.key;
    let history = !context.injected_by_other && context.direction is Outbound;
    Ipv4Address::lemma_family();
    Ipv6Address::lemma_family();
    if key.local_address is Ipv6 {
        let p = lemma_stored_place(s.connections_v6, key, known);
    } else {
        let p = lemma_stored_place(s.connections_v4, key, known);
    }
    lookup_changes_no_connection(
        s,
        key,
        context.ipv6,
        history,
        now,
        key,
        known,
    );
}

/// A temporary verdict decides one packet: after a connection generation was given an accept,
/// a block or a drop for the packet that waited, user space is asked about the next one. A
/// permanent verdict decides all that follow.
pub proof fn given_verdict_rules_the_next_packet<H, C>(
    s: DeviceView<H, C>,
    inspection: PacketInspection,
    metadata: PacketMetadata,
    context: PacketContext,
    decided_at: u64,
    now: u64,
    known: Known,
    verdict: Verdict,
)
    requires
        inspection.metadata == Ok::<PacketMetadata, PacketMetadataError>(metadata),
        metadata.key.protocol is Tcp || metadata.key.protocol is Udp,
        !metadata.is_icmp_port_unreachable,
        !on_redirect_entry(metadata.key),
        context.ipv6 == (metadata.key.local_address is Ipv6),
        knows(s, metadata.key, known),
        known.instance_id != 0,
    ensures
        ({
            let t = s.decided(metadata.key, known.instance_id, verdict, decided_at);
            ruled_by(
                t.packet_decision(inspection, context, now),
                metadata.key,
                context,
                Known { verdict, ..known },
            )
        }),
{
    verdict_reaches_its_connection(
        s,
        metadata.key,
        known,
        verdict,
        decided_at,
        metadata.key,
        known,
    );
    stored_verdict_rules_packets(
        s.decided(metadata.key, known.instance_id, verdict, decided_at),
        inspection,
        metadata,
        context,
        now,
        Known { verdict, ..known },
    );
}

/// One connection with the tuple is stored, it has ended, and it is as `known` says.
pub open spec fn remembers<A: AddressFamily>(m: MapView<A>, key: Key, known: Known) -> bool {
    &&& lacks(m, key)
    &&& exists|p: Place<A>|
        {
            &&& #[trigger] holds(m, p)
            &&& at(m, p).end_time is Some
            &&& carries(Connection { end_time: None, ..at(m, p) }, key, known)
            &&& forall|q: Place<A>| #[trigger] holds(m, q) && at(m, q).spec_key() == key ==> q == p
        }
}

proof fn lemma_remembered<A: AddressFamily>(m: MapView<A>, key: Key, known: Known)
    requires
        remembers(m, key, known),
        key.remote_port != 53 && key.remote_port != 717 && key.remote_port != 719,
    ensures
        selected_info(m, key, false) is None,
        selected_info(m, key, true) matches Some(info) && info.verdict == known.verdict
            && info.process_id == known.process_id && info.direction == known.opened
            && info.instance_id == known.instance_id,
        known.verdict is RedirectNameServer || known.verdict is RedirectTunnel
            || known.verdict is RedirectSplitTunnel ==> selected_info(m, key, true)->Some_0
            .redirect_info is Some,
        selected_info(m, key, true)->Some_0.redirect_info matches Some(info) ==> {
            &&& info.local_address == key.local_address
            &&& info.remote_address == key.remote_address
            &&& info.remote_port == key.remote_port
            &&& known.verdict is RedirectNameServer ==> info.redirect_port == 53
                && info.redirect_address.loopback() && !info.unify
            &&& known.verdict is RedirectTunnel ==> info.redirect_port == 717
                && info.redirect_address == key.local_address && info.unify
            &&& known.verdict is RedirectSplitTunnel ==> info.redirect_port == 719
                && info.redirect_address == key.local_address && info.unify
        },
{
    A::lemma_family();
    let p = choose|p: Place<A>|
        {
            &&& #[trigger] holds(m, p)
            &&& at(m, p).end_time is Some
            &&& carries(Connection { end_time: None, ..at(m, p) }, key, known)
            &&& forall|q: Place<A>| #[trigger] holds(m, q) && at(m, q).spec_key() == key ==> q == p
        };
    let c = at(m, p);
    assert(c.spec_key() == key);
    let live = Query::live(key);
    let ended = Query { ended: true, ..live };
    lemma_lacked(m, key);
    // The connection stands where its tuple is looked for.
    assert(m.contains_key(p.0) && m[p.0].contains_key(p.1));
    assert(group_key(m[p.0][p.1][p.2].spec_key().spec_small()) == p.0);
    assert(endpoint_of(m[p.0][p.1][p.2]) == p.1);
    let s = generations(m, key);
    assert(s == m[p.0][p.1]);
    assert(ended.accepts(s[p.2]));
    lemma_first_exists(s, ended, p.2);
    lemma_exact_holds(m, ended);
    let found = exact_match(m, ended)->Some_0;
    protocol_rank_is_injective(at(m, found).protocol, key.protocol);
    assert(m.contains_key(found.0) && m[found.0].contains_key(found.1));
    assert(group_key(m[found.0][found.1][found.2].spec_key().spec_small()) == found.0);
    assert(at(m, found).spec_key() == key);
}

/// A packet that leaves after its connection has ended is still ruled by the policy of that
/// connection. One that comes in is not: its tuple may belong to a new connection, which the
/// authorizing layer decides.
pub proof fn late_packet_keeps_its_policy<H, C>(
    s: DeviceView<H, C>,
    inspection: PacketInspection,
    metadata: PacketMetadata,
    context: PacketContext,
    now: u64,
    known: Known,
)
    requires
        inspection.metadata == Ok::<PacketMetadata, PacketMetadataError>(metadata),
        metadata.key.protocol is Tcp || metadata.key.protocol is Udp,
        !metadata.is_icmp_port_unreachable,
        !on_redirect_entry(metadata.key),
        metadata.key.remote_port != 53 && metadata.key.remote_port != 717
            && metadata.key.remote_port != 719,
        context.ipv6 == (metadata.key.local_address is Ipv6),
        match metadata.key.local_address {
            IpAddress::Ipv4(_) => remembers::<Ipv4Address>(s.connections_v4, metadata.key, known),
            IpAddress::Ipv6(_) => remembers::<Ipv6Address>(s.connections_v6, metadata.key, known),
        },
    ensures
        context.direction is Outbound && !context.injected_by_other ==> ruled_by(
            s.packet_decision(inspection, context, now),
            metadata.key,
            context,
            known,
        ),
        context.direction is Inbound ==> s.packet_decision(inspection, context, now)
            is PermitIndication,
{
    let key = metadata.key;
    if key.local_address is Ipv6 {
        lemma_remembered(s.connections_v6, key, known);
    } else {
        lemma_remembered(s.connections_v4, key, known);
    }
}

/// A connection with the protocol and the local port of a tuple is stored, as the only one,
/// and the redirect target of its packets has the tuple.
pub open spec fn redirects_to<A: AddressFamily>(
    m: MapView<A>,
    p: Place<A>,
    key: Key,
) -> bool {
    let c = at(m, p);
    &&& lacks(m, key)
    &&& holds(m, p)
    &&& c.end_time is None
    &&& c.protocol == key.protocol
    &&& c.local_port == key.local_port
    &&& m[p.0].dom().finite()
    &&& forall|q: Place<A>| #[trigger] holds(m, q) && q.0 == p.0 ==> q == p
    &&& match c.verdict {
        Verdict::RedirectNameServer => key.remote_port == 53 && match key.remote_address {
            IpAddress::Ipv4(address) => address.0 / 0x100_0000 == 127,
            IpAddress::Ipv6(address) => address.high == 0 && address.low == 1,
        },
        Verdict::RedirectTunnel => key.remote_port == 717 && key.remote_address
            == key.local_address,
        Verdict::RedirectSplitTunnel => key.remote_port == 719 && key.remote_address
            == key.local_address,
        _ => false,
    }
}

proof fn lemma_redirect_found<A: AddressFamily>(
    m: MapView<A>,
    p: Place<A>,
    key: Key,
    use_ended_fallback: bool,
)
    requires
        redirects_to(m, p, key),
    ensures
        selected_info(m, key, use_ended_fallback) matches Some(info) && info.verdict == at(
            m,
            p,
        ).verdict && (info.redirect_info matches Some(r) && r.local_address == at(
            m,
            p,
        ).local_address.spec_ip() && r.remote_address == at(m, p).remote_address.spec_ip()
            && r.remote_port == at(m, p).remote_port),
{
    let q = Query { redirect: true, ..Query::live(key) };
    let c = at(m, p);
    assert(m.contains_key(p.0) && m[p.0].contains_key(p.1));
    assert(group_key(m[p.0][p.1][p.2].spec_key().spec_small()) == p.0);
    lemma_lacked(m, key);
    lemma_first_in_finite_group(m[p.0], q, p.1, p.2);
    lemma_redirect_holds(m, q);
    let found = redirect_match(m, q)->Some_0;
    assert(found == p);
}

/// What comes back from the redirect target of a connection belongs to that connection: it is
/// rewritten to look as if it came from the endpoint that the program knows.
pub proof fn reply_of_a_redirect_is_rewritten_v4<H, C>(
    s: DeviceView<H, C>,
    p: Place<Ipv4Address>,
    inspection: PacketInspection,
    metadata: PacketMetadata,
    context: PacketContext,
    now: u64,
)
    requires
        inspection.metadata == Ok::<PacketMetadata, PacketMetadataError>(metadata),
        metadata.key.protocol is Tcp || metadata.key.protocol is Udp,
        !metadata.is_icmp_port_unreachable,
        !on_redirect_entry(metadata.key),
        !context.ipv6,
        redirects_to(s.connections_v4, p, metadata.key),
    ensures
        ({
            let c = at(s.connections_v4, p);
            s.packet_decision(inspection, context, now) matches PacketDecision::Redirect(
                info,
                inject,
            ) && info.local_address == IpAddress::Ipv4(c.local_address) && info.remote_address
                == IpAddress::Ipv4(c.remote_address) && info.remote_port == c.remote_port
                && returns_to(inject, context, context.direction, metadata.key)
        }),
{
    let history = !context.injected_by_other && context.direction is Outbound;
    lemma_redirect_found(s.connections_v4, p, metadata.key, history);
}

/// What comes back from the redirect target of a connection belongs to that connection: it is
/// rewritten to look as if it came from the endpoint that the program knows.
pub proof fn reply_of_a_redirect_is_rewritten_v6<H, C>(
    s: DeviceView<H, C>,
    p: Place<Ipv6Address>,
    inspection: PacketInspection,
    metadata: PacketMetadata,
    context: PacketContext,
    now: u64,
)
    requires
        inspection.metadata == Ok::<PacketMetadata, PacketMetadataError>(metadata),
        metadata.key.protocol is Tcp || metadata.key.protocol is Udp,
        !metadata.is_icmp_port_unreachable,
        !on_redirect_entry(metadata.key),
        context.ipv6,
        redirects_to(s.connections_v6, p, metadata.key),
    ensures
        ({
            let c = at(s.connections_v6, p);
            s.packet_decision(inspection, context, now) matches PacketDecision::Redirect(
                info,
                inject,
            ) && info.local_address == IpAddress::Ipv6(c.local_address) && info.remote_address
                == IpAddress::Ipv6(c.remote_address) && info.remote_port == c.remote_port
                && returns_to(inject, context, context.direction, metadata.key)
        }),
{
    let history = !context.injected_by_other && context.direction is Outbound;
    lemma_redirect_found(s.connections_v6, p, metadata.key, history);
}

/// Nothing of the protocol and local port of the tuple is stored.
pub open spec fn untouched<A: AddressFamily>(m: MapView<A>, key: Key) -> bool {
    &&& lacks(m, key)
    &&& forall|p: Place<A>| #[trigger]
        holds(m, p) ==> at(m, p).protocol != key.protocol || at(m, p).local_port != key.local_port
}

/// A tuple that nothing resembles is not found.
pub proof fn lemma_untouched<A: AddressFamily>(m: MapView<A>, key: Key, use_ended_fallback: bool)
    requires
        untouched(m, key),
    ensures
        selected_info(m, key, use_ended_fallback) is None,
{
    let live = Query::live(key);
    lemma_none_matches(m, live, key);
    lemma_none_matches(m, Query { redirect: true, ..live }, key);
    lemma_none_matches(m, Query { ended: true, ..live }, key);
    lemma_none_matches(m, Query { redirect: true, ended: true, ..live }, key);
}

proof fn lemma_none_matches<A: AddressFamily>(m: MapView<A>, q: Query, key: Key)
    requires
        untouched(m, key),
        q.key == key,
    ensures
        exact_match(m, q) is None,
        redirect_match(m, q) is None,
{
    lemma_exact_holds(m, q);
    lemma_redirect_holds(m, q);
    if let Some(p) = exact_match(m, q) {
        assert(m.contains_key(p.0) && m[p.0].contains_key(p.1));
        assert(group_key(m[p.0][p.1][p.2].spec_key().spec_small()) == p.0);
        protocol_rank_is_injective(at(m, p).protocol, key.protocol);
    }
    if let Some(p) = redirect_match(m, q) {
        assert(m.contains_key(p.0) && m[p.0].contains_key(p.1));
        assert(group_key(m[p.0][p.1][p.2].spec_key().spec_small()) == p.0);
        protocol_rank_is_injective(at(m, p).protocol, key.protocol);
    }
}

/// The first packet of a connection that the driver has not seen: one that leaves gets a
/// connection of its own, undecided and of no known process, and user space is asked about it
/// under that connection; a reset for which there is no connection passes, and so does one
/// that comes in, on its way to the layer that authorizes it. Neither leaves a connection.
pub proof fn first_packet_is_asked_about<H, C>(
    s: DeviceView<H, C>,
    inspection: PacketInspection,
    metadata: PacketMetadata,
    context: PacketContext,
    now: u64,
)
    requires
        inspection.metadata == Ok::<PacketMetadata, PacketMetadataError>(metadata),
        metadata.key.protocol is Tcp || metadata.key.protocol is Udp,
        !metadata.is_icmp_port_unreachable,
        !on_redirect_entry(metadata.key),
        one_family(metadata.key),
        context.ipv6 == (metadata.key.local_address is Ipv6),
        match metadata.key.local_address {
            IpAddress::Ipv4(_) => untouched::<Ipv4Address>(s.connections_v4, metadata.key),
            IpAddress::Ipv6(_) => untouched::<Ipv6Address>(s.connections_v6, metadata.key),
        },
    ensures
        ({
            let key = metadata.key;
            let decision = s.packet_decision(inspection, context, now);
            let t = s.packet_seen(inspection, context, now);
            let asks = context.direction is Outbound && !metadata.is_tcp_reset;
            &&& !asks ==> decision is PermitIndication && t == s
            &&& asks ==> (decision matches PacketDecision::Ask(request) && {
                &&& request.key == key
                &&& request.direction == context.direction
                &&& returns_to(request.inject_info, context, context.direction, key)
                &&& context.injected_by_other ==> request.connection_instance_id is None
                    && request.process_id == context.current_process_id && t == s
                &&& !context.injected_by_other ==> request.connection_instance_id == Some(
                    s.next_instance,
                ) && request.process_id == 0 && knows(
                    t,
                    key,
                    Known {
                        verdict: Verdict::Undecided,
                        process_id: 0,
                        opened: Direction::Outbound,
                        instance_id: s.next_instance,
                    },
                )
            })
        }),
{
    let key = metadata.key;
    let history = !context.injected_by_other && context.direction is Outbound;
    if key.local_address is Ipv6 {
        lemma_untouched(s.connections_v6, key, history);
    } else {
        lemma_untouched(s.connections_v4, key, history);
    }
    registration_adds_a_connection(
        s,
        key,
        0,
        context.direction,
        false,
        now,
        key,
        Known {
            verdict: Verdict::Undecided,
            process_id: 0,
            opened: context.direction,
            instance_id: 0,
        },
    );
    assert(s.looked_up(key, context.ipv6, history, now) == s);
}

/// What needs no decision passes at once and changes nothing: a packet on a redirect entry of
/// the service, and a message that a port is unreachable. A packet without a tuple stops the
/// classification, which fails closed, and is recorded.
pub proof fn packet_without_decision_passes<H, C>(
    s: DeviceView<H, C>,
    inspection: PacketInspection,
    context: PacketContext,
    now: u64,
)
    ensures
        inspection.metadata matches Ok(metadata) ==> (metadata.is_icmp_port_unreachable
            || on_redirect_entry(metadata.key)) ==> s.packet_decision(inspection, context, now)
            is PermitIndication && s.packet_seen(inspection, context, now) == s,
        inspection.metadata is Err ==> ({
            let t = s.packet_seen(inspection, context, now);
            &&& s.packet_decision(inspection, context, now) is Stop
            &&& t == (DeviceView { log: t.log, ..s })
            &&& t.log.len() > 0
        }),
{
}

/// The request is a remembered echo request to this host under this identifier.
pub open spec fn asked_for(request: EchoRequest, host: IpAddress, identifier: u16) -> bool {
    request.remote_address == host && request.identifier == identifier
}

/// Every packet of a protocol without ports is asked about on its own, under no connection. An
/// outbound echo request belongs to the process that sends it. A reply belongs to the process
/// whose request it answers and counts as inbound, whatever the stack reports. Nothing else
/// has a process.
pub proof fn packet_without_ports_is_asked_about<H, C>(
    s: DeviceView<H, C>,
    inspection: PacketInspection,
    metadata: PacketMetadata,
    context: PacketContext,
    now: u64,
)
    requires
        inspection.metadata == Ok::<PacketMetadata, PacketMetadataError>(metadata),
        !(metadata.key.protocol is Tcp || metadata.key.protocol is Udp),
        !metadata.is_icmp_port_unreachable,
        !metadata.is_tcp_reset,
        !on_redirect_entry(metadata.key),
    ensures
        ({
            let host = metadata.key.remote_address;
            let t = s.packet_seen(inspection, context, now);
            s.packet_decision(inspection, context, now) matches PacketDecision::Ask(request) && {
                &&& request.key == metadata.key
                &&& request.connection_instance_id is None
                &&& returns_to(request.inject_info, context, request.direction, metadata.key)
                &&& t == (DeviceView { echoes: t.echoes, ..s })
                &&& match metadata.icmp_echo {
                    None => request.direction == context.direction && request.process_id == 0
                        && t.echoes == s.echoes,
                    Some(echo) => if echo.is_request {
                        &&& request.direction == context.direction
                        &&& request.process_id == if context.direction is Outbound {
                            context.current_process_id
                        } else {
                            0
                        }
                        &&& context.direction is Inbound ==> t.echoes == s.echoes
                        &&& context.direction is Outbound ==> t.echoes.len() > 0
                            && t.echoes.last().remote_address == host
                            && t.echoes.last().identifier == echo.identifier
                            && t.echoes.last().process_id == context.current_process_id
                            && t.echoes.last().sent_at_ms == now
                    } else {
                        &&& (forall|i: int|
                            0 <= i < s.echoes.len() ==> !asked_for(
                                #[trigger] s.echoes[i],
                                host,
                                echo.identifier,
                            )) ==> request.direction == context.direction && request.process_id
                            == 0
                        &&& forall|i: int|
                            0 <= i < s.echoes.len() && asked_for(
                                #[trigger] s.echoes[i],
                                host,
                                echo.identifier,
                            ) ==> request.direction is Inbound && exists|j: int|
                                0 <= j < s.echoes.len() && asked_for(
                                    #[trigger] s.echoes[j],
                                    host,
                                    echo.identifier,
                                ) && request.process_id == s.echoes[j].process_id
                        &&& forall|i: int|
                            0 <= i < t.echoes.len() ==> !asked_for(
                                #[trigger] t.echoes[i],
                                host,
                                echo.identifier,
                            )
                    },
                }
                &&& forall|i: int|
                    0 <= i < s.echoes.len() && !(metadata.icmp_echo matches Some(echo) && asked_for(
                        #[trigger] s.echoes[i],
                        host,
                        echo.identifier,
                    )) ==> t.echoes.contains(s.echoes[i])
            }
        }),
{
    let host = metadata.key.remote_address;
    let t = s.packet_seen(inspection, context, now);
    if let Some(echo) = metadata.icmp_echo {
        let keep = |r: EchoRequest| !answers(r, host, echo.identifier);
        let others = without_request(s.echoes, host, echo.identifier);
        assert forall|i: int| 0 <= i < others.len() implies !asked_for(
            #[trigger] others[i],
            host,
            echo.identifier,
        ) by {
            lemma_filter_source(s.echoes, keep, i);
        }
        assert forall|i: int|
            0 <= i < s.echoes.len() && !asked_for(
                #[trigger] s.echoes[i],
                host,
                echo.identifier,
            ) implies t.echoes.contains(s.echoes[i]) by {
            lemma_filter_target(s.echoes, keep, i);
            let j = choose|j: int|
                0 <= j < s.echoes.filter(keep).len() && #[trigger] s.echoes.filter(keep)[j]
                    == s.echoes[i];
            if !echo.is_request {
                assert(t.echoes[j] == s.echoes[i]);
            } else if context.direction is Outbound {
                assert(t.echoes[j] == s.echoes[i]);
            } else {
                assert(t.echoes[i] == s.echoes[i]);
            }
        }
        if !echo.is_request {
            assert forall|i: int|
                0 <= i < s.echoes.len() && asked_for(
                    #[trigger] s.echoes[i],
                    host,
                    echo.identifier,
                ) implies sender(s.echoes, host, echo.identifier)
                is Some by {
                assert(answers(s.echoes[i], host, echo.identifier));
            }
        }
    } else {
        assert forall|i: int| 0 <= i < s.echoes.len() implies t.echoes.contains(
            #[trigger] s.echoes[i],
        ) by {
            assert(t.echoes[i] == s.echoes[i]);
        }
    }
}

/// The action that one packet leaves an indication with: a permitted packet permits it, a
/// blocked one blocks it for good, and one that is dropped, rewritten or kept is absorbed. A
/// packet that cannot be kept ends the classification with the action so far.
pub proof fn packet_decides_the_indication(
    indication: Indication,
    decision: PacketDecision,
    cloned: bool,
)
    ensures
        ({
            let next = indication.spec_after_packet(decision, cloned);
            let kept = decision is Ask && cloned;
            &&& decision is Permit || decision is PermitIndication ==> next.action is Permit
            &&& decision is BlockHard ==> next.action is BlockHard
            &&& decision is Absorb || decision is Redirect || kept ==> next.action is BlockAndAbsorb
            &&& decision is Stop || (decision is Ask && !cloned) ==> next.action
                == indication.action && next.finished
            &&& decision is PermitIndication ==> next.finished
            &&& decision is Permit || decision is BlockHard || decision is Absorb
                || decision is Redirect || kept ==> next.finished == indication.finished
        }),
{
}

/// The first packet decides for the chain only where nothing is left to decide: a fragment
/// passes with all that follow, and so does a packet that needs no decision. Any other chain
/// starts out blocked.
pub proof fn first_packet_decides_for_the_chain(probe: Option<PacketInspection>)
    ensures
        ({
            let first = Indication::spec_after_first(probe);
            let passes = probe matches Some(inspection) && (inspection.is_fragment || (
            inspection.metadata matches Ok(metadata) && (metadata.is_icmp_port_unreachable
                || on_redirect_entry(metadata.key))));
            &&& first.indication.finished <==> passes
            &&& first.indication.action is Permit <==> passes
            &&& !passes ==> first.indication.action is DefaultBlock
            &&& first.inspection matches Some(inspection) ==> probe == Some(inspection)
                && inspection.metadata is Ok && !inspection.is_fragment
        }),
{
}

/// The clone of a packet that has to wait is queued for user space as long as the connection
/// generation that it belongs to is live. If that has ended, the clone is completed as blocked
/// and nobody is asked.
pub proof fn clone_waits_with_its_connection<H, C>(
    s: DeviceView<H, C>,
    request: PacketRequest,
    packet: Packet<H>,
    known: Known,
)
    ensures
        request.connection_instance_id is None || (knows(s, request.key, known)
            && known.instance_id != 0 && request.connection_instance_id == Some(
            known.instance_id,
        )) ==> s.packet_asked(request, packet) == s.asked(
            PendingPacket {
                key: request.key,
                packet,
                connection_instance_id: request.connection_instance_id,
            },
            request.process_id,
            request.direction,
            false,
        ),
        request.connection_instance_id matches Some(id) && generation_is_gone(s, id) ==> ({
            let t = s.packet_asked(request, packet);
            &&& completes(t, s.actions.len() as int, packet@, true, false)
            &&& t == (DeviceView { actions: t.actions, ..s })
            &&& t.actions.len() == s.actions.len() + 1
        }),
{
    if knows(s, request.key, known) && known.instance_id != 0 {
        if request.key.local_address is Ipv6 {
            let p = lemma_stored_place(s.connections_v6, request.key, known);
        } else {
            let p = lemma_stored_place(s.connections_v4, request.key, known);
        }
    }
    if let Some(id) = request.connection_instance_id {
        let q = Query::instance(request.key, id);
        lemma_exact_holds(s.connections_v4, q);
        lemma_exact_holds(s.connections_v6, q);
        lemma_redirect_holds(s.connections_v4, Query { redirect: true, ..q });
        lemma_redirect_holds(s.connections_v6, Query { redirect: true, ..q });
    }
}

} // verus!

//! What user space reads in the records of the driver.
//!
//! Every law gives the place of a field in the bytes of a record, counted from its first byte.

use crate::bytes::{
    be_bytes, be_decode_of_encode, be_value, le_bytes, le_decode_of_encode, le_value,
    lemma_be_bytes_len, lemma_byte_ranges, lemma_le_bytes_len,
};
use crate::connection::{ConnectionV4, ConnectionV6, Direction};
use crate::connection_map::at;
use crate::device_state::{end_event_v4, end_event_v6, DeviceView};
use crate::id_cache::{fits_record, packet_parts, request_record, PendingPacket};
use crate::info::{
    connection_end_payload, connection_payload, log_record, record, BandwidthValueV4,
    BandwidthValueV6, Severity,
};
use crate::ip::{IpAddress, IpProtocol, Ipv4Address, Ipv6Address};
use crate::key::Key;
use crate::packet::Packet;
use crate::state_laws::{knows, lemma_stored_place, Known};
use vstd::prelude::*;

verus! {

/// The protocol number of the transport protocols, and of those that carry errors for them.
pub open spec fn numbered(protocol: IpProtocol, number: u8) -> bool {
    &&& protocol is Tcp ==> number == 6
    &&& protocol is Udp ==> number == 17
    &&& protocol is Icmp ==> number == 1
    &&& protocol is Icmpv6 ==> number == 58
}

/// An outbound flow is marked by zero, an inbound one by one.
pub open spec fn directed(direction: Direction, number: u8) -> bool {
    match direction {
        Direction::Outbound => number == 0,
        Direction::Inbound => number == 1,
    }
}

/// The field holds the address, in network order.
pub open spec fn holds_ipv4(field: Seq<u8>, address: Ipv4Address) -> bool {
    field.len() == 4 && be_value(field) == address.0
}

/// The field holds the address, in network order.
pub open spec fn holds_ipv6(field: Seq<u8>, address: Ipv6Address) -> bool {
    &&& field.len() == 16
    &&& be_value(field.subrange(0, 8)) == address.high
    &&& be_value(field.subrange(8, 16)) == address.low
}

/// The field holds the number, the least significant byte first.
pub open spec fn holds_number(field: Seq<u8>, n: int) -> bool {
    le_value(field) == n
}

/// The octets of an address hold it.
pub proof fn lemma_ipv4_field(address: Ipv4Address)
    ensures
        holds_ipv4(address.octets(), address),
{
    address.lemma_octets();
}

/// The octets of an address hold it.
pub proof fn lemma_ipv6_field(address: Ipv6Address)
    ensures
        holds_ipv6(address.octets(), address),
{
    address.lemma_octets();
    lemma_byte_ranges();
    be_decode_of_encode(address.high as nat, 8);
    be_decode_of_encode(address.low as nat, 8);
    lemma_be_bytes_len(address.high as nat, 8);
    assert(address.octets().subrange(0, 8) =~= be_bytes(address.high as nat, 8));
    assert(address.octets().subrange(8, 16) =~= be_bytes(address.low as nat, 8));
}

proof fn lemma_number(x: nat, n: nat)
    requires
        n == 2 && x <= u16::MAX || n == 4 && x <= u32::MAX || n == 8 && x <= u64::MAX,
    ensures
        le_bytes(x, n).len() == n,
        le_value(le_bytes(x, n)) == x,
{
    lemma_byte_ranges();
    lemma_le_bytes_len(x, n);
    le_decode_of_encode(x, n);
}

/// Where the payload of a record stands.
pub proof fn lemma_record(info_type: u8, payload: Seq<u8>)
    requires
        payload.len() <= u32::MAX,
    ensures
        record(info_type, payload).len() == 5 + payload.len(),
        record(info_type, payload)[0] == info_type,
        holds_number(record(info_type, payload).subrange(1, 5), payload.len() as int),
        record(info_type, payload).skip(5) == payload,
        forall|i: int, j: int|
            0 <= i <= j <= payload.len() ==> #[trigger] payload.subrange(i, j) == record(
                info_type,
                payload,
            ).subrange(i + 5, j + 5),
        forall|i: int|
            0 <= i < payload.len() ==> #[trigger] payload[i] == record(info_type, payload)[i + 5],
{
    lemma_number(payload.len(), 4);
    let r = record(info_type, payload);
    assert(r.subrange(1, 5) =~= le_bytes(payload.len(), 4));
    assert(r.skip(5) =~= payload);
    assert forall|i: int, j: int| 0 <= i <= j <= payload.len() implies #[trigger] payload.subrange(
        i,
        j,
    ) == r.subrange(i + 5, j + 5) by {
        assert(payload.subrange(i, j) =~= r.subrange(i + 5, j + 5));
    }
}

/// The report of the end of an IPv4 connection names it by its own endpoints: the local address
/// and port stand in the local fields, the remote ones in the remote fields.
pub proof fn end_record_v4_names_the_connection(c: ConnectionV4, process_id: u64)
    ensures
        ({
            let r = end_event_v4(c, process_id);
            &&& r.len() == 27
            &&& r[0] == 3
            &&& holds_number(r.subrange(1, 5), 22)
            &&& holds_number(r.subrange(5, 13), process_id as int)
            &&& directed(c.direction, r[13])
            &&& numbered(c.protocol, r[14])
            &&& holds_ipv4(r.subrange(15, 19), c.local_address)
            &&& holds_ipv4(r.subrange(19, 23), c.remote_address)
            &&& holds_number(r.subrange(23, 25), c.local_port as int)
            &&& holds_number(r.subrange(25, 27), c.remote_port as int)
        }),
{
    let p = connection_end_payload(
        process_id,
        c.direction.spec_number(),
        c.protocol.spec_number(),
        c.local_address.octets(),
        c.remote_address.octets(),
        c.local_port,
        c.remote_port,
    );
    let r = end_event_v4(c, process_id);
    lemma_number(process_id as nat, 8);
    lemma_number(c.local_port as nat, 2);
    lemma_number(c.remote_port as nat, 2);
    lemma_ipv4_field(c.local_address);
    lemma_ipv4_field(c.remote_address);
    lemma_record(3, p);
    assert(p.subrange(0, 8) =~= le_bytes(process_id as nat, 8));
    assert(p.subrange(10, 14) =~= c.local_address.octets());
    assert(p.subrange(14, 18) =~= c.remote_address.octets());
    assert(p.subrange(18, 20) =~= le_bytes(c.local_port as nat, 2));
    assert(p.subrange(20, 22) =~= le_bytes(c.remote_port as nat, 2));
    assert(p[8] == r[13] && p[9] == r[14]);
}

/// The report of the end of an IPv6 connection names it by its own endpoints: the local address
/// and port stand in the local fields, the remote ones in the remote fields.
pub proof fn end_record_v6_names_the_connection(c: ConnectionV6, process_id: u64)
    ensures
        ({
            let r = end_event_v6(c, process_id);
            &&& r.len() == 51
            &&& r[0] == 4
            &&& holds_number(r.subrange(1, 5), 46)
            &&& holds_number(r.subrange(5, 13), process_id as int)
            &&& directed(c.direction, r[13])
            &&& numbered(c.protocol, r[14])
            &&& holds_ipv6(r.subrange(15, 31), c.local_address)
            &&& holds_ipv6(r.subrange(31, 47), c.remote_address)
            &&& holds_number(r.subrange(47, 49), c.local_port as int)
            &&& holds_number(r.subrange(49, 51), c.remote_port as int)
        }),
{
    let p = connection_end_payload(
        process_id,
        c.direction.spec_number(),
        c.protocol.spec_number(),
        c.local_address.octets(),
        c.remote_address.octets(),
        c.local_port,
        c.remote_port,
    );
    let r = end_event_v6(c, process_id);
    lemma_number(process_id as nat, 8);
    lemma_number(c.local_port as nat, 2);
    lemma_number(c.remote_port as nat, 2);
    lemma_ipv6_field(c.local_address);
    lemma_ipv6_field(c.remote_address);
    lemma_record(4, p);
    assert(p.subrange(0, 8) =~= le_bytes(process_id as nat, 8));
    assert(p.subrange(10, 26) =~= c.local_address.octets());
    assert(p.subrange(26, 42) =~= c.remote_address.octets());
    assert(p.subrange(42, 44) =~= le_bytes(c.local_port as nat, 2));
    assert(p.subrange(44, 46) =~= le_bytes(c.remote_port as nat, 2));
    assert(p[8] == r[13] && p[9] == r[14]);
}

/// The bytes report the end of the connection of a tuple.
pub open spec fn reports_end(r: Seq<u8>, key: Key, opened: Direction, process_id: u64) -> bool {
    match (key.local_address, key.remote_address) {
        (IpAddress::Ipv4(local), IpAddress::Ipv4(remote)) => {
            &&& r.len() == 27
            &&& r[0] == 3
            &&& holds_number(r.subrange(5, 13), process_id as int)
            &&& directed(opened, r[13])
            &&& numbered(key.protocol, r[14])
            &&& holds_ipv4(r.subrange(15, 19), local)
            &&& holds_ipv4(r.subrange(19, 23), remote)
            &&& holds_number(r.subrange(23, 25), key.local_port as int)
            &&& holds_number(r.subrange(25, 27), key.remote_port as int)
        },
        (IpAddress::Ipv6(local), IpAddress::Ipv6(remote)) => {
            &&& r.len() == 51
            &&& r[0] == 4
            &&& holds_number(r.subrange(5, 13), process_id as int)
            &&& directed(opened, r[13])
            &&& numbered(key.protocol, r[14])
            &&& holds_ipv6(r.subrange(15, 31), local)
            &&& holds_ipv6(r.subrange(31, 47), remote)
            &&& holds_number(r.subrange(47, 49), key.local_port as int)
            &&& holds_number(r.subrange(49, 51), key.remote_port as int)
        },
        _ => false,
    }
}

/// Ending a connection generation reports exactly the connection that had the tuple.
pub proof fn ended_connection_is_reported<H, C>(
    s: DeviceView<H, C>,
    key: Key,
    known: Known,
    process_id: u64,
    now: u64,
)
    requires
        knows(s, key, known),
        known.instance_id != 0,
    ensures
        ({
            let t = s.ended(key, known.instance_id, process_id, now);
            &&& t.events.len() == s.events.len() + 1
            &&& reports_end(t.events.last(), key, known.opened, process_id)
        }),
{
    if key.local_address is Ipv6 {
        let p = lemma_stored_place(s.connections_v6, key, known);
        let c = at(s.connections_v6, p);
        end_record_v6_names_the_connection(c.spec_ended(now), process_id);
    } else {
        let p = lemma_stored_place(s.connections_v4, key, known);
        let c = at(s.connections_v4, p);
        end_record_v4_names_the_connection(c.spec_ended(now), process_id);
    }
}

/// A protocol without ports is reported with zeros in their place.
pub open spec fn port_of(protocol: IpProtocol, port: u16) -> int {
    if protocol is Tcp || protocol is Udp {
        port as int
    } else {
        0
    }
}

/// The bytes ask about one packet: they give the ID that the verdict has to name, the process
/// behind the packet, its direction and tuple, the layer it was taken from, and its bytes.
pub open spec fn asks_about(
    r: Seq<u8>,
    id: u64,
    key: Key,
    process_id: u64,
    direction: Direction,
    ale_layer: bool,
    captured: Seq<u8>,
) -> bool {
    match (key.local_address, key.remote_address) {
        (IpAddress::Ipv4(local), IpAddress::Ipv4(remote)) => {
            &&& r.len() == 40 + captured.len()
            &&& r[0] == 1
            &&& holds_number(r.subrange(1, 5), 35 + captured.len() as int)
            &&& holds_number(r.subrange(5, 13), id as int)
            &&& holds_number(r.subrange(13, 21), process_id as int)
            &&& directed(direction, r[21])
            &&& numbered(key.protocol, r[22])
            &&& holds_ipv4(r.subrange(23, 27), local)
            &&& holds_ipv4(r.subrange(27, 31), remote)
            &&& holds_number(r.subrange(31, 33), port_of(key.protocol, key.local_port))
            &&& holds_number(r.subrange(33, 35), port_of(key.protocol, key.remote_port))
            &&& r[35] == if ale_layer {
                4u8
            } else {
                3u8
            }
            &&& holds_number(r.subrange(36, 40), captured.len() as int)
            &&& r.skip(40) == captured
        },
        (IpAddress::Ipv6(local), IpAddress::Ipv6(remote)) => {
            &&& r.len() == 64 + captured.len()
            &&& r[0] == 2
            &&& holds_number(r.subrange(1, 5), 59 + captured.len() as int)
            &&& holds_number(r.subrange(5, 13), id as int)
            &&& holds_number(r.subrange(13, 21), process_id as int)
            &&& directed(direction, r[21])
            &&& numbered(key.protocol, r[22])
            &&& holds_ipv6(r.subrange(23, 39), local)
            &&& holds_ipv6(r.subrange(39, 55), remote)
            &&& holds_number(r.subrange(55, 57), port_of(key.protocol, key.local_port))
            &&& holds_number(r.subrange(57, 59), port_of(key.protocol, key.remote_port))
            &&& r[59] == if ale_layer {
                4u8
            } else {
                3u8
            }
            &&& holds_number(r.subrange(60, 64), captured.len() as int)
            &&& r.skip(64) == captured
        },
        _ => false,
    }
}

/// Where the fields of a decision request stand, for addresses of `n` bytes.
#[verifier::rlimit(40)]
proof fn lemma_request_fields(
    kind: u8,
    id: u64,
    process_id: u64,
    direction: u8,
    protocol: u8,
    local: Seq<u8>,
    remote: Seq<u8>,
    local_port: u16,
    remote_port: u16,
    layer: u8,
    captured: Seq<u8>,
    n: int,
)
    requires
        n == 4 || n == 16,
        local.len() == n,
        remote.len() == n,
        captured.len() <= 0xffff_ffc4,
    ensures
        ({
            let r = record(
                kind,
                connection_payload(
                    id,
                    process_id,
                    direction,
                    protocol,
                    local,
                    remote,
                    local_port,
                    remote_port,
                    layer,
                    captured,
                ),
            );
            &&& r.len() == 32 + 2 * n + captured.len()
            &&& r[0] == kind
            &&& holds_number(r.subrange(1, 5), 27 + 2 * n + captured.len() as int)
            &&& holds_number(r.subrange(5, 13), id as int)
            &&& holds_number(r.subrange(13, 21), process_id as int)
            &&& r[21] == direction
            &&& r[22] == protocol
            &&& r.subrange(23, 23 + n) == local
            &&& r.subrange(23 + n, 23 + 2 * n) == remote
            &&& holds_number(r.subrange(23 + 2 * n, 25 + 2 * n), local_port as int)
            &&& holds_number(r.subrange(25 + 2 * n, 27 + 2 * n), remote_port as int)
            &&& r[27 + 2 * n] == layer
            &&& holds_number(r.subrange(28 + 2 * n, 32 + 2 * n), captured.len() as int)
            &&& r.skip(32 + 2 * n) == captured
        }),
{
    lemma_number(id as nat, 8);
    lemma_number(process_id as nat, 8);
    lemma_number(local_port as nat, 2);
    lemma_number(remote_port as nat, 2);
    lemma_number(captured.len(), 4);
    let q = connection_payload(
        id,
        process_id,
        direction,
        protocol,
        local,
        remote,
        local_port,
        remote_port,
        layer,
        captured,
    );
    let r = record(kind, q);
    lemma_record(kind, q);
    assert(r.subrange(5, 13) =~= le_bytes(id as nat, 8));
    assert(r.subrange(13, 21) =~= le_bytes(process_id as nat, 8));
    assert(r.subrange(23, 23 + n) =~= local);
    assert(r.subrange(23 + n, 23 + 2 * n) =~= remote);
    assert(r.subrange(23 + 2 * n, 25 + 2 * n) =~= le_bytes(local_port as nat, 2));
    assert(r.subrange(25 + 2 * n, 27 + 2 * n) =~= le_bytes(remote_port as nat, 2));
    assert(r.subrange(28 + 2 * n, 32 + 2 * n) =~= le_bytes(captured.len(), 4));
    assert(r.skip(32 + 2 * n) =~= captured);
}

/// A decision request names the packet by its own endpoints and carries its bytes.
pub proof fn request_names_the_packet(
    id: u64,
    key: Key,
    process_id: u64,
    direction: Direction,
    ale_layer: bool,
    captured: Seq<u8>,
)
    requires
        key.local_address is Ipv6 <==> key.remote_address is Ipv6,
        captured.len() <= 0xffff_ffc4,
    ensures
        request_record(key, id, process_id, direction, captured, ale_layer) matches Some(r)
            && asks_about(r, id, key, process_id, direction, ale_layer, captured),
{
    let local_port = port_of(key.protocol, key.local_port) as u16;
    let remote_port = port_of(key.protocol, key.remote_port) as u16;
    let layer: u8 = if ale_layer {
        4
    } else {
        3
    };
    match (key.local_address, key.remote_address) {
        (IpAddress::Ipv4(local), IpAddress::Ipv4(remote)) => {
            lemma_ipv4_field(local);
            lemma_ipv4_field(remote);
            lemma_request_fields(
                1,
                id,
                process_id,
                direction.spec_number(),
                key.protocol.spec_number(),
                local.octets(),
                remote.octets(),
                local_port,
                remote_port,
                layer,
                captured,
                4,
            );
        },
        (IpAddress::Ipv6(local), IpAddress::Ipv6(remote)) => {
            lemma_ipv6_field(local);
            lemma_ipv6_field(remote);
            lemma_request_fields(
                2,
                id,
                process_id,
                direction.spec_number(),
                key.protocol.spec_number(),
                local.octets(),
                remote.octets(),
                local_port,
                remote_port,
                layer,
                captured,
                16,
            );
        },
        _ => {},
    }
}

/// How many requests a packet becomes: each buffer of a batch is one of its own.
pub open spec fn part_count<H>(packet: Packet<H>) -> int {
    match packet {
        Packet::NetworkBatch(buffers, _) => buffers@.len() as int,
        _ => 1,
    }
}

/// The packet of one of these requests.
pub open spec fn part_of<H>(packet: Packet<H>, part: int) -> Packet<H> {
    match packet {
        Packet::NetworkBatch(buffers, inject) => Packet::Network(buffers@[part], inject),
        _ => packet,
    }
}

/// The bytes that user space sees of it.
pub open spec fn part_bytes<H>(packet: Packet<H>, part: int) -> Seq<u8> {
    match packet {
        Packet::Network(buffer, _) => buffer.data@,
        Packet::NetworkBatch(buffers, _) => buffers@[part].data@,
        Packet::AleLayer(defer) => defer.data@,
    }
}

/// A packet can be asked about where there are IDs left for its requests and each of them fits
/// a record.
pub proof fn small_packet_can_be_asked_about<H, C>(
    s: DeviceView<H, C>,
    key: Key,
    packet: Packet<H>,
)
    requires
        key.local_address is Ipv6 <==> key.remote_address is Ipv6,
        s.next_request + part_count(packet) <= u64::MAX,
        forall|i: int|
            0 <= i < part_count(packet) ==> (#[trigger] part_bytes(packet, i)).len() <= 0xffff_ffc4,
    ensures
        s.can_ask(key, packet),
{
    let parts = packet_parts(packet);
    assert forall|i: int| 0 <= i < parts.len() implies fits_record(
        key,
        (#[trigger] parts[i]).spec_payload().len(),
    ) by {
        assert(parts[i].spec_payload() == part_bytes(packet, i));
    }
}

/// Asking about a packet queues each part of it under the next ID and sends user space one
/// request for each, in the same order and under the same ID, with the bytes of that part.
pub proof fn asked_packet_is_reported<H, C>(
    s: DeviceView<H, C>,
    pending: PendingPacket<H>,
    part: int,
    process_id: u64,
    direction: Direction,
    ale_layer: bool,
)
    requires
        pending.key.local_address is Ipv6 <==> pending.key.remote_address is Ipv6,
        s.next_request + part_count(pending.packet) <= u64::MAX,
        0 <= part < part_count(pending.packet),
        part_bytes(pending.packet, part).len() <= 0xffff_ffc4,
    ensures
        ({
            let t = s.asked(pending, process_id, direction, ale_layer);
            let count = part_count(pending.packet);
            let id = (s.next_request + part) as u64;
            let event = t.events[s.events.len() + part];
            let request = t.queue[s.queue.len() + part];
            &&& t.events.len() == s.events.len() + count
            &&& t.queue.len() == s.queue.len() + count
            &&& t.events.take(s.events.len() as int) == s.events
            &&& t.queue.take(s.queue.len() as int) == s.queue
            &&& t.next_request == s.next_request + count
            &&& asks_about(
                event,
                id,
                pending.key,
                process_id,
                direction,
                ale_layer,
                part_bytes(pending.packet, part),
            )
            &&& request.id == id
            &&& request.value.key == pending.key
            &&& request.value.packet == part_of(pending.packet, part)
            &&& request.value.connection_instance_id == pending.connection_instance_id
            &&& t.connections_v4 == s.connections_v4 && t.connections_v6 == s.connections_v6
            &&& t.actions == s.actions
        }),
{
    let t = s.asked(pending, process_id, direction, ale_layer);
    let id = (s.next_request + part) as u64;
    assert(packet_parts(pending.packet)[part] == part_of(pending.packet, part));
    request_names_the_packet(
        id,
        pending.key,
        process_id,
        direction,
        ale_layer,
        part_bytes(pending.packet, part),
    );
    assert(t.events.take(s.events.len() as int) =~= s.events);
    assert(t.queue.take(s.queue.len() as int) =~= s.queue);
}

/// The IPv4 entry of a bandwidth report gives the flow and its counters, sent before received.
pub proof fn bandwidth_entry_v4_names_the_flow(value: BandwidthValueV4)
    ensures
        ({
            let r = value.encoded();
            &&& r.len() == 28
            &&& holds_ipv4(r.subrange(0, 4), value.local_ip)
            &&& holds_number(r.subrange(4, 6), value.local_port as int)
            &&& holds_ipv4(r.subrange(6, 10), value.remote_ip)
            &&& holds_number(r.subrange(10, 12), value.remote_port as int)
            &&& holds_number(r.subrange(12, 20), value.transmitted_bytes as int)
            &&& holds_number(r.subrange(20, 28), value.received_bytes as int)
        }),
{
    let r = value.encoded();
    lemma_ipv4_field(value.local_ip);
    lemma_ipv4_field(value.remote_ip);
    lemma_number(value.local_port as nat, 2);
    lemma_number(value.remote_port as nat, 2);
    lemma_number(value.transmitted_bytes as nat, 8);
    lemma_number(value.received_bytes as nat, 8);
    assert(r.subrange(0, 4) =~= value.local_ip.octets());
    assert(r.subrange(4, 6) =~= le_bytes(value.local_port as nat, 2));
    assert(r.subrange(6, 10) =~= value.remote_ip.octets());
    assert(r.subrange(10, 12) =~= le_bytes(value.remote_port as nat, 2));
    assert(r.subrange(12, 20) =~= le_bytes(value.transmitted_bytes as nat, 8));
    assert(r.subrange(20, 28) =~= le_bytes(value.received_bytes as nat, 8));
}

/// The IPv6 entry of a bandwidth report gives the flow and its counters, sent before received.
pub proof fn bandwidth_entry_v6_names_the_flow(value: BandwidthValueV6)
    ensures
        ({
            let r = value.encoded();
            &&& r.len() == 52
            &&& holds_ipv6(r.subrange(0, 16), value.local_ip)
            &&& holds_number(r.subrange(16, 18), value.local_port as int)
            &&& holds_ipv6(r.subrange(18, 34), value.remote_ip)
            &&& holds_number(r.subrange(34, 36), value.remote_port as int)
            &&& holds_number(r.subrange(36, 44), value.transmitted_bytes as int)
            &&& holds_number(r.subrange(44, 52), value.received_bytes as int)
        }),
{
    let r = value.encoded();
    lemma_ipv6_field(value.local_ip);
    lemma_ipv6_field(value.remote_ip);
    lemma_number(value.local_port as nat, 2);
    lemma_number(value.remote_port as nat, 2);
    lemma_number(value.transmitted_bytes as nat, 8);
    lemma_number(value.received_bytes as nat, 8);
    assert(r.subrange(0, 16) =~= value.local_ip.octets());
    assert(r.subrange(16, 18) =~= le_bytes(value.local_port as nat, 2));
    assert(r.subrange(18, 34) =~= value.remote_ip.octets());
    assert(r.subrange(34, 36) =~= le_bytes(value.remote_port as nat, 2));
    assert(r.subrange(36, 44) =~= le_bytes(value.transmitted_bytes as nat, 8));
    assert(r.subrange(44, 52) =~= le_bytes(value.received_bytes as nat, 8));
}

/// A log line carries its severity, from one for a trace to six for a critical error, and its
/// text as far as it fits.
pub proof fn log_line_carries_its_text(severity: Severity, text: Seq<u8>)
    ensures
        ({
            let r = log_record(severity, text);
            let n = if text.len() <= 0xffff {
                text.len() as int
            } else {
                0xffff
            };
            &&& r.len() == 6 + n
            &&& r[0] == 0
            &&& holds_number(r.subrange(1, 5), 1 + n)
            &&& match severity {
                Severity::Trace => r[5] == 1,
                Severity::Debug => r[5] == 2,
                Severity::Info => r[5] == 3,
                Severity::Warning => r[5] == 4,
                Severity::Error => r[5] == 5,
                Severity::Critical => r[5] == 6,
                Severity::Disabled => r[5] == 7,
            }
            &&& r.skip(6) == text.take(n)
        }),
{
    let r = log_record(severity, text);
    let shown = if text.len() <= 0xffff {
        text
    } else {
        text.take(0xffff)
    };
    let q = seq![severity.spec_number()] + shown;
    lemma_record(0, q);
    assert(q[0] == r[5]);
    assert(text.take(shown.len() as int) =~= shown);
    assert(r.skip(6) =~= shown);
}

/// What goes wrong is recorded as an error, and what is refused as a warning. The log keeps the
/// newest 1024 lines.
pub proof fn failures_are_recorded<H, C>(s: DeviceView<H, C>, text: Seq<u8>)
    requires
        text.len() <= 0xffff,
    ensures
        ({
            let error = s.with_error(text);
            let warning = s.with_warning(text);
            &&& error == (DeviceView { log: error.log, ..s })
            &&& warning == (DeviceView { log: warning.log, ..s })
            &&& error.log.last()[5] == 5 && error.log.last().skip(6) == text
            &&& warning.log.last()[5] == 4 && warning.log.last().skip(6) == text
            &&& s.log.len() < 1024 ==> error.log.drop_last() == s.log && warning.log.drop_last()
                == s.log
            &&& s.log.len() == 1024 ==> error.log.drop_last() == s.log.skip(1)
                && warning.log.drop_last() == s.log.skip(1)
        }),
{
    log_line_carries_its_text(Severity::Error, text);
    log_line_carries_its_text(Severity::Warning, text);
    let error = s.with_error(text);
    let warning = s.with_warning(text);
    assert(text.take(text.len() as int) =~= text);
    if s.log.len() < 1024 {
        assert(error.log.drop_last() =~= s.log);
        assert(warning.log.drop_last() =~= s.log);
    } else if s.log.len() == 1024 {
        assert(error.log.drop_last() =~= s.log.skip(1));
        assert(warning.log.drop_last() =~= s.log.skip(1));
    }
}

} // verus!

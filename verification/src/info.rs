//! Records sent to user space.
//!
//! Every record is a type byte, the payload size as a little-endian `u32`, and the
//! payload.

use crate::bytes::{
    le_bytes, le_decode_of_encode, lemma_be_bytes_len, lemma_byte_ranges, lemma_le_bytes_len,
    push_le,
};
use crate::ip::{Ipv4Address, Ipv6Address};
use vstd::prelude::*;

verus! {

/// Type byte of a log line.
pub const INFO_LOG_LINE: u8 = 0;

/// Type byte of an IPv4 decision request.
pub const INFO_CONNECTION_V4: u8 = 1;

/// Type byte of an IPv6 decision request.
pub const INFO_CONNECTION_V6: u8 = 2;

/// Type byte of the end of an IPv4 connection.
pub const INFO_CONNECTION_END_V4: u8 = 3;

/// Type byte of the end of an IPv6 connection.
pub const INFO_CONNECTION_END_V6: u8 = 4;

/// Type byte of IPv4 bandwidth counters.
pub const INFO_BANDWIDTH_V4: u8 = 5;

/// Type byte of IPv6 bandwidth counters.
pub const INFO_BANDWIDTH_V6: u8 = 6;

/// Bytes of a record before its payload.
pub const INFO_HEADER_SIZE: usize = 5;

/// The most captured bytes of an IPv4 decision request: with one more of them the payload
/// would not fit the 32-bit length of a record.
pub const MAX_CAPTURED_V4: usize = 0xffff_ffdc;

/// The most captured bytes of an IPv6 decision request: with one more of them the payload
/// would not fit the 32-bit length of a record.
pub const MAX_CAPTURED_V6: usize = 0xffff_ffc4;

/// The most IPv4 entries of one bandwidth record: with one more of them the payload would
/// not fit the 32-bit length of a record.
pub const MAX_BANDWIDTH_ENTRIES_V4: usize = 153_391_688;

/// The most IPv6 entries of one bandwidth record: with one more of them the payload would
/// not fit the 32-bit length of a record.
pub const MAX_BANDWIDTH_ENTRIES_V6: usize = 82_595_524;

/// How urgent a log line is.
#[derive(Clone, Copy, Debug, PartialEq, Eq, Structural)]
pub enum Severity {
    Trace,
    Debug,
    Info,
    Warning,
    Error,
    Critical,
    Disabled,
}

impl Severity {
    /// Value of the severity field.
    pub open spec fn spec_number(self) -> u8 {
        match self {
            Severity::Trace => 1,
            Severity::Debug => 2,
            Severity::Info => 3,
            Severity::Warning => 4,
            Severity::Error => 5,
            Severity::Critical => 6,
            Severity::Disabled => 7,
        }
    }

    /// Value of the severity field.
    pub fn number(self) -> (number: u8)
        ensures
            number == self.spec_number(),
    {
        match self {
            Severity::Trace => 1,
            Severity::Debug => 2,
            Severity::Info => 3,
            Severity::Warning => 4,
            Severity::Error => 5,
            Severity::Critical => 6,
            Severity::Disabled => 7,
        }
    }
}

/// A record with a type and a payload.
pub open spec fn record(info_type: u8, payload: Seq<u8>) -> Seq<u8> {
    seq![info_type] + le_bytes(payload.len(), 4) + payload
}

/// One encoded record.
pub struct Info {
    bytes: Vec<u8>,
}

impl Info {
    /// The bytes of the record.
    pub closed spec fn view(&self) -> Seq<u8> {
        self.bytes@
    }

    /// Returns the bytes of the record.
    pub fn as_bytes(&self) -> (bytes: &[u8])
        ensures
            bytes@ == self@,
    {
        self.bytes.as_slice()
    }

    fn new(info_type: u8, payload: &Vec<u8>) -> (info: Info)
        requires
            payload@.len() <= u32::MAX,
        ensures
            info@ == record(info_type, payload@),
    {
        let mut bytes: Vec<u8> = Vec::new();
        bytes.push(info_type);
        push_le(&mut bytes, payload.len() as u64, 4);
        bytes.extend_from_slice(payload.as_slice());
        assert(bytes@ =~= record(info_type, payload@));
        Info { bytes }
    }
}

/// Payload of a decision request, up to the family's address octets.
pub open spec fn connection_payload(
    id: u64,
    process_id: u64,
    direction: u8,
    protocol: u8,
    local_ip: Seq<u8>,
    remote_ip: Seq<u8>,
    local_port: u16,
    remote_port: u16,
    payload_layer: u8,
    captured: Seq<u8>,
) -> Seq<u8> {
    le_bytes(id as nat, 8) + le_bytes(process_id as nat, 8) + seq![direction, protocol] + local_ip
        + remote_ip + le_bytes(local_port as nat, 2) + le_bytes(remote_port as nat, 2)
        + seq![payload_layer] + le_bytes(captured.len(), 4) + captured
}

/// Payload of a connection end.
pub open spec fn connection_end_payload(
    process_id: u64,
    direction: u8,
    protocol: u8,
    local_ip: Seq<u8>,
    remote_ip: Seq<u8>,
    local_port: u16,
    remote_port: u16,
) -> Seq<u8> {
    le_bytes(process_id as nat, 8) + seq![direction, protocol] + local_ip + remote_ip + le_bytes(
        local_port as nat,
        2,
    ) + le_bytes(remote_port as nat, 2)
}

/// Encodes an IPv4 decision request.
pub fn connection_info_v4(
    id: u64,
    process_id: u64,
    direction: u8,
    protocol: u8,
    local_ip: Ipv4Address,
    remote_ip: Ipv4Address,
    local_port: u16,
    remote_port: u16,
    payload_layer: u8,
    captured: &[u8],
) -> (info: Info)
    requires
        captured@.len() <= MAX_CAPTURED_V4,
    ensures
        info@ == record(
            INFO_CONNECTION_V4,
            connection_payload(
                id,
                process_id,
                direction,
                protocol,
                local_ip.octets(),
                remote_ip.octets(),
                local_port,
                remote_port,
                payload_layer,
                captured@,
            ),
        ),
{
    let mut out: Vec<u8> = Vec::new();
    push_le(&mut out, id, 8);
    push_le(&mut out, process_id, 8);
    out.push(direction);
    out.push(protocol);
    local_ip.push_to(&mut out);
    remote_ip.push_to(&mut out);
    push_le(&mut out, local_port as u64, 2);
    push_le(&mut out, remote_port as u64, 2);
    out.push(payload_layer);
    push_le(&mut out, captured.len() as u64, 4);
    out.extend_from_slice(captured);
    proof {
        lemma_le_bytes_len(id as nat, 8);
        lemma_le_bytes_len(process_id as nat, 8);
        lemma_le_bytes_len(local_port as nat, 2);
        lemma_le_bytes_len(remote_port as nat, 2);
        lemma_le_bytes_len(captured@.len(), 4);
        lemma_be_bytes_len(local_ip.0 as nat, 4);
        lemma_be_bytes_len(remote_ip.0 as nat, 4);
        assert(out@ =~= connection_payload(
            id,
            process_id,
            direction,
            protocol,
            local_ip.octets(),
            remote_ip.octets(),
            local_port,
            remote_port,
            payload_layer,
            captured@,
        ));
    }
    Info::new(INFO_CONNECTION_V4, &out)
}

/// Encodes an IPv6 decision request.
pub fn connection_info_v6(
    id: u64,
    process_id: u64,
    direction: u8,
    protocol: u8,
    local_ip: Ipv6Address,
    remote_ip: Ipv6Address,
    local_port: u16,
    remote_port: u16,
    payload_layer: u8,
    captured: &[u8],
) -> (info: Info)
    requires
        captured@.len() <= MAX_CAPTURED_V6,
    ensures
        info@ == record(
            INFO_CONNECTION_V6,
            connection_payload(
                id,
                process_id,
                direction,
                protocol,
                local_ip.octets(),
                remote_ip.octets(),
                local_port,
                remote_port,
                payload_layer,
                captured@,
            ),
        ),
{
    let mut out: Vec<u8> = Vec::new();
    push_le(&mut out, id, 8);
    push_le(&mut out, process_id, 8);
    out.push(direction);
    out.push(protocol);
    local_ip.push_to(&mut out);
    remote_ip.push_to(&mut out);
    push_le(&mut out, local_port as u64, 2);
    push_le(&mut out, remote_port as u64, 2);
    out.push(payload_layer);
    push_le(&mut out, captured.len() as u64, 4);
    out.extend_from_slice(captured);
    proof {
        lemma_le_bytes_len(id as nat, 8);
        lemma_le_bytes_len(process_id as nat, 8);
        lemma_le_bytes_len(local_port as nat, 2);
        lemma_le_bytes_len(remote_port as nat, 2);
        lemma_le_bytes_len(captured@.len(), 4);
        local_ip.lemma_octets();
        remote_ip.lemma_octets();
        assert(out@ =~= connection_payload(
            id,
            process_id,
            direction,
            protocol,
            local_ip.octets(),
            remote_ip.octets(),
            local_port,
            remote_port,
            payload_layer,
            captured@,
        ));
    }
    Info::new(INFO_CONNECTION_V6, &out)
}

/// Encodes the end of an IPv4 connection.
pub fn connection_end_event_v4_info(
    process_id: u64,
    direction: u8,
    protocol: u8,
    local_ip: Ipv4Address,
    remote_ip: Ipv4Address,
    local_port: u16,
    remote_port: u16,
) -> (info: Info)
    ensures
        info@ == record(
            INFO_CONNECTION_END_V4,
            connection_end_payload(
                process_id,
                direction,
                protocol,
                local_ip.octets(),
                remote_ip.octets(),
                local_port,
                remote_port,
            ),
        ),
{
    let mut out: Vec<u8> = Vec::new();
    push_le(&mut out, process_id, 8);
    out.push(direction);
    out.push(protocol);
    local_ip.push_to(&mut out);
    remote_ip.push_to(&mut out);
    push_le(&mut out, local_port as u64, 2);
    push_le(&mut out, remote_port as u64, 2);
    proof {
        lemma_le_bytes_len(process_id as nat, 8);
        lemma_le_bytes_len(local_port as nat, 2);
        lemma_le_bytes_len(remote_port as nat, 2);
        lemma_be_bytes_len(local_ip.0 as nat, 4);
        lemma_be_bytes_len(remote_ip.0 as nat, 4);
        assert(out@ =~= connection_end_payload(
            process_id,
            direction,
            protocol,
            local_ip.octets(),
            remote_ip.octets(),
            local_port,
            remote_port,
        ));
    }
    Info::new(INFO_CONNECTION_END_V4, &out)
}

/// Encodes the end of an IPv6 connection.
pub fn connection_end_event_v6_info(
    process_id: u64,
    direction: u8,
    protocol: u8,
    local_ip: Ipv6Address,
    remote_ip: Ipv6Address,
    local_port: u16,
    remote_port: u16,
) -> (info: Info)
    ensures
        info@ == record(
            INFO_CONNECTION_END_V6,
            connection_end_payload(
                process_id,
                direction,
                protocol,
                local_ip.octets(),
                remote_ip.octets(),
                local_port,
                remote_port,
            ),
        ),
{
    let mut out: Vec<u8> = Vec::new();
    push_le(&mut out, process_id, 8);
    out.push(direction);
    out.push(protocol);
    local_ip.push_to(&mut out);
    remote_ip.push_to(&mut out);
    push_le(&mut out, local_port as u64, 2);
    push_le(&mut out, remote_port as u64, 2);
    proof {
        lemma_le_bytes_len(process_id as nat, 8);
        lemma_le_bytes_len(local_port as nat, 2);
        lemma_le_bytes_len(remote_port as nat, 2);
        local_ip.lemma_octets();
        remote_ip.lemma_octets();
        assert(out@ =~= connection_end_payload(
            process_id,
            direction,
            protocol,
            local_ip.octets(),
            remote_ip.octets(),
            local_port,
            remote_port,
        ));
    }
    Info::new(INFO_CONNECTION_END_V6, &out)
}

/// Longest text of a log line.
pub const MAX_LOG_TEXT: usize = 0xffff;

/// The record of a log line. A text that is too long is cut off.
pub open spec fn log_record(severity: Severity, text: Seq<u8>) -> Seq<u8> {
    record(
        INFO_LOG_LINE,
        seq![severity.spec_number()] + if text.len() <= MAX_LOG_TEXT {
            text
        } else {
            text.take(MAX_LOG_TEXT as int)
        },
    )
}

/// Encodes a log line.
pub fn log_line(severity: Severity, text: &[u8]) -> (info: Info)
    ensures
        info@ == log_record(severity, text@),
{
    let mut out: Vec<u8> = Vec::new();
    out.push(severity.number());
    if text.len() <= MAX_LOG_TEXT {
        out.extend_from_slice(text);
        assert(out@ =~= seq![severity.spec_number()] + text@);
    } else {
        out.extend_from_slice(vstd::slice::slice_subrange(text, 0, MAX_LOG_TEXT));
        assert(out@ =~= seq![severity.spec_number()] + text@.take(MAX_LOG_TEXT as int));
    }
    Info::new(INFO_LOG_LINE, &out)
}

/// Traffic of one IPv4 flow.
#[derive(Clone, Copy, Debug, PartialEq, Eq, Structural)]
pub struct BandwidthValueV4 {
    pub local_ip: Ipv4Address,
    pub local_port: u16,
    pub remote_ip: Ipv4Address,
    pub remote_port: u16,
    pub transmitted_bytes: u64,
    pub received_bytes: u64,
}

impl BandwidthValueV4 {
    /// The bytes of the entry.
    pub open spec fn encoded(self) -> Seq<u8> {
        self.local_ip.octets() + le_bytes(self.local_port as nat, 2) + self.remote_ip.octets()
            + le_bytes(self.remote_port as nat, 2) + le_bytes(self.transmitted_bytes as nat, 8)
            + le_bytes(self.received_bytes as nat, 8)
    }
}

/// Traffic of one IPv6 flow.
#[derive(Clone, Copy, Debug, PartialEq, Eq, Structural)]
pub struct BandwidthValueV6 {
    pub local_ip: Ipv6Address,
    pub local_port: u16,
    pub remote_ip: Ipv6Address,
    pub remote_port: u16,
    pub transmitted_bytes: u64,
    pub received_bytes: u64,
}

impl BandwidthValueV6 {
    /// The bytes of the entry.
    pub open spec fn encoded(self) -> Seq<u8> {
        self.local_ip.octets() + le_bytes(self.local_port as nat, 2) + self.remote_ip.octets()
            + le_bytes(self.remote_port as nat, 2) + le_bytes(self.transmitted_bytes as nat, 8)
            + le_bytes(self.received_bytes as nat, 8)
    }
}

/// The bytes of IPv4 entries, one after the other.
pub open spec fn entries_v4(values: Seq<BandwidthValueV4>) -> Seq<u8>
    decreases values.len(),
{
    if values.len() == 0 {
        Seq::empty()
    } else {
        entries_v4(values.drop_last()) + values.last().encoded()
    }
}

/// The bytes of IPv6 entries, one after the other.
pub open spec fn entries_v6(values: Seq<BandwidthValueV6>) -> Seq<u8>
    decreases values.len(),
{
    if values.len() == 0 {
        Seq::empty()
    } else {
        entries_v6(values.drop_last()) + values.last().encoded()
    }
}

/// An IPv4 entry takes 28 bytes.
pub proof fn bandwidth_entry_v4_size(value: BandwidthValueV4)
    ensures
        value.encoded().len() == 28,
{
    lemma_be_bytes_len(value.local_ip.0 as nat, 4);
    lemma_be_bytes_len(value.remote_ip.0 as nat, 4);
    lemma_le_bytes_len(value.local_port as nat, 2);
    lemma_le_bytes_len(value.remote_port as nat, 2);
    lemma_le_bytes_len(value.transmitted_bytes as nat, 8);
    lemma_le_bytes_len(value.received_bytes as nat, 8);
}

/// An IPv6 entry takes 52 bytes.
pub proof fn bandwidth_entry_v6_size(value: BandwidthValueV6)
    ensures
        value.encoded().len() == 52,
{
    value.local_ip.lemma_octets();
    value.remote_ip.lemma_octets();
    lemma_le_bytes_len(value.local_port as nat, 2);
    lemma_le_bytes_len(value.remote_port as nat, 2);
    lemma_le_bytes_len(value.transmitted_bytes as nat, 8);
    lemma_le_bytes_len(value.received_bytes as nat, 8);
}

/// Encodes IPv4 bandwidth counters.
pub fn bandiwth_stats_array_v4(protocol: u8, values: Vec<BandwidthValueV4>) -> (info: Info)
    requires
        values@.len() <= MAX_BANDWIDTH_ENTRIES_V4,
    ensures
        info@ == record(
            INFO_BANDWIDTH_V4,
            seq![protocol] + le_bytes(values@.len(), 4) + entries_v4(values@),
        ),
{
    let mut out: Vec<u8> = Vec::new();
    out.push(protocol);
    push_le(&mut out, values.len() as u64, 4);
    let ghost head = out@;
    let count: usize = values.len();
    let mut i: usize = 0;
    assert(out@ =~= head + entries_v4(values@.take(0)));
    proof {
        lemma_le_bytes_len(values@.len(), 4);
    }
    while i < count
        invariant
            i <= count == values@.len() <= MAX_BANDWIDTH_ENTRIES_V4,
            head.len() == 5,
            out@ == head + entries_v4(values@.take(i as int)),
            out@.len() == 5 + 28 * i,
        decreases count - i,
    {
        let value: BandwidthValueV4 = values[i];
        let ghost before = out@;
        value.local_ip.push_to(&mut out);
        push_le(&mut out, value.local_port as u64, 2);
        value.remote_ip.push_to(&mut out);
        push_le(&mut out, value.remote_port as u64, 2);
        push_le(&mut out, value.transmitted_bytes, 8);
        push_le(&mut out, value.received_bytes, 8);
        proof {
            assert(out@ =~= before + value.encoded());
            bandwidth_entry_v4_size(value);
            assert(values@.take(i + 1).drop_last() =~= values@.take(i as int));
            assert(values@.take(i + 1).last() == value);
            assert(out@ =~= head + entries_v4(values@.take(i + 1)));
        }
        i = i + 1;
    }
    assert(values@.take(count as int) =~= values@);
    Info::new(INFO_BANDWIDTH_V4, &out)
}

/// Encodes IPv6 bandwidth counters.
pub fn bandiwth_stats_array_v6(protocol: u8, values: Vec<BandwidthValueV6>) -> (info: Info)
    requires
        values@.len() <= MAX_BANDWIDTH_ENTRIES_V6,
    ensures
        info@ == record(
            INFO_BANDWIDTH_V6,
            seq![protocol] + le_bytes(values@.len(), 4) + entries_v6(values@),
        ),
{
    let mut out: Vec<u8> = Vec::new();
    out.push(protocol);
    push_le(&mut out, values.len() as u64, 4);
    let ghost head = out@;
    let count: usize = values.len();
    let mut i: usize = 0;
    assert(out@ =~= head + entries_v6(values@.take(0)));
    proof {
        lemma_le_bytes_len(values@.len(), 4);
    }
    while i < count
        invariant
            i <= count == values@.len() <= MAX_BANDWIDTH_ENTRIES_V6,
            head.len() == 5,
            out@ == head + entries_v6(values@.take(i as int)),
            out@.len() == 5 + 52 * i,
        decreases count - i,
    {
        let value: BandwidthValueV6 = values[i];
        let ghost before = out@;
        value.local_ip.push_to(&mut out);
        push_le(&mut out, value.local_port as u64, 2);
        value.remote_ip.push_to(&mut out);
        push_le(&mut out, value.remote_port as u64, 2);
        push_le(&mut out, value.transmitted_bytes, 8);
        push_le(&mut out, value.received_bytes, 8);
        proof {
            assert(out@ =~= before + value.encoded());
            bandwidth_entry_v6_size(value);
            assert(values@.take(i + 1).drop_last() =~= values@.take(i as int));
            assert(values@.take(i + 1).last() == value);
            assert(out@ =~= head + entries_v6(values@.take(i + 1)));
        }
        i = i + 1;
    }
    assert(values@.take(count as int) =~= values@);
    Info::new(INFO_BANDWIDTH_V6, &out)
}

/// Concatenated records can be read in one way only: equal byte strings start with the
/// same record, for as long as payload sizes fit their field.
pub proof fn record_stream_is_unambiguous(
    type_a: u8,
    payload_a: Seq<u8>,
    rest_a: Seq<u8>,
    type_b: u8,
    payload_b: Seq<u8>,
    rest_b: Seq<u8>,
)
    requires
        payload_a.len() <= u32::MAX,
        payload_b.len() <= u32::MAX,
        record(type_a, payload_a) + rest_a == record(type_b, payload_b) + rest_b,
    ensures
        type_a == type_b,
        payload_a == payload_b,
        rest_a == rest_b,
{
    let a = record(type_a, payload_a) + rest_a;
    let b = record(type_b, payload_b) + rest_b;
    lemma_le_bytes_len(payload_a.len(), 4);
    lemma_le_bytes_len(payload_b.len(), 4);
    lemma_byte_ranges();
    assert(a[0] == type_a && b[0] == type_b);
    assert(a.subrange(1, 5) =~= le_bytes(payload_a.len(), 4));
    assert(b.subrange(1, 5) =~= le_bytes(payload_b.len(), 4));
    le_decode_of_encode(payload_a.len(), 4);
    le_decode_of_encode(payload_b.len(), 4);
    let n = 5 + payload_a.len() as int;
    assert(a.subrange(5, n) =~= payload_a);
    assert(b.subrange(5, n) =~= payload_b);
    assert(a.skip(n) =~= rest_a);
    assert(b.skip(n) =~= rest_b);
}

/// The fixed part of a decision request is 35 bytes for IPv4 and 59 for IPv6, and that
/// of a connection end is 22 and 46 bytes: the addresses make the difference.
pub proof fn connection_payload_sizes(
    id: u64,
    process_id: u64,
    direction: u8,
    protocol: u8,
    local_ip: Seq<u8>,
    remote_ip: Seq<u8>,
    local_port: u16,
    remote_port: u16,
    payload_layer: u8,
    captured: Seq<u8>,
)
    ensures
        connection_payload(
            id,
            process_id,
            direction,
            protocol,
            local_ip,
            remote_ip,
            local_port,
            remote_port,
            payload_layer,
            captured,
        ).len() == 27 + local_ip.len() + remote_ip.len() + captured.len(),
        connection_end_payload(
            process_id,
            direction,
            protocol,
            local_ip,
            remote_ip,
            local_port,
            remote_port,
        ).len() == 14 + local_ip.len() + remote_ip.len(),
{
    lemma_le_bytes_len(id as nat, 8);
    lemma_le_bytes_len(process_id as nat, 8);
    lemma_le_bytes_len(local_port as nat, 2);
    lemma_le_bytes_len(remote_port as nat, 2);
    lemma_le_bytes_len(captured.len(), 4);
}

} // verus!

//! IPv6 extension headers and the transport header behind them.

use crate::checksum::{be16, splice};
use crate::ip::{IpAddress, IpProtocol, Ipv6Address};
use crate::transport::{
    checksum_verifies, fill_transport_checksum, filled_checksum_verifies, has_ports,
    segment_valid, set_port, with_checksum, with_port, PortRewrite,
};
use crate::wire::{
    check_extension, check_ipv6, check_tcp, check_udp, extension_valid, ip_version,
    ipv6_address_at, ipv6_payload_len, ipv6_total_len, ipv6_valid, read_be16, read_ip_version,
    read_ipv6_address, read_ipv6_total_len, set_ipv6_destination, set_ipv6_source, IPV6_HEADER_LEN,
};
use vstd::prelude::*;
use vstd::slice::slice_subrange;

verus! {

/// Maximum number of IPv6 extension headers followed before a packet is
/// considered unresolved. This bounds work performed by a packet callout at
/// DISPATCH_LEVEL.
pub const MAX_IPV6_EXT_HEADERS: usize = 8;

/// Result of walking an IPv6 extension-header chain.
#[derive(Debug, Clone, Copy, PartialEq, Eq, Structural)]
pub struct Ipv6Headers {
    /// The upper-layer protocol after all supported extension headers.
    pub protocol: IpProtocol,
    /// Byte offset of the upper-layer header from the IPv6 base header.
    pub transport_offset: usize,
    /// True for a non-atomic fragment. Its transport checksum cannot be
    /// recalculated from this packet alone.
    pub is_fragment: bool,
    /// A routing header with Segments Left greater than zero was encountered.
    /// In that case the final destination needed by the pseudo-header is not
    /// necessarily the destination in the IPv6 base header.
    pub active_routing_header: bool,
    /// True when the walk reached an upper-layer protocol within the limit.
    pub resolved: bool,
}

impl Ipv6Headers {
    /// Where the upper-layer header starts.
    pub open spec fn start(self) -> int {
        self.transport_offset as int
    }
}

/// A header that another header follows.
pub open spec fn is_extension(protocol: IpProtocol) -> bool {
    protocol is HopByHop || protocol is Ipv6Route || protocol is Ipv6Opts || protocol is Ipv6Frag
}

/// The extension header at `offset` is complete.
pub open spec fn extension_complete(packet: Seq<u8>, protocol: IpProtocol, offset: int) -> bool {
    if protocol is Ipv6Frag {
        offset + 8 <= packet.len()
    } else {
        extension_valid(packet.subrange(offset, packet.len() as int))
    }
}

/// Length of the extension header at `offset`.
pub open spec fn extension_len(packet: Seq<u8>, protocol: IpProtocol, offset: int) -> int {
    if protocol is Ipv6Frag {
        8
    } else {
        (packet[offset + 1] + 1) * 8
    }
}

/// The Fragment header at `offset` belongs to one fragment of several: its offset or its
/// More Fragments bit is not zero.
pub open spec fn marks_fragment(packet: Seq<u8>, protocol: IpProtocol, offset: int) -> bool {
    protocol is Ipv6Frag && (be16(packet, offset + 2) / 8 != 0 || packet[offset + 3] % 2 == 1)
}

/// The header at `offset` is a Routing header with segments left.
pub open spec fn marks_routing(packet: Seq<u8>, protocol: IpProtocol, offset: int) -> bool {
    protocol is Ipv6Route && packet[offset + 3] != 0
}

/// What following the chain from the header `protocol` at `offset` finds, when at most
/// `left` more extension headers are followed.
pub open spec fn follow(
    packet: Seq<u8>,
    protocol: IpProtocol,
    offset: int,
    left: nat,
    is_fragment: bool,
    active_routing_header: bool,
) -> Ipv6Headers
    decreases left,
{
    if is_extension(protocol) && left > 0 && extension_complete(packet, protocol, offset) {
        follow(
            packet,
            IpProtocol::spec_from_number(packet[offset]),
            offset + extension_len(packet, protocol, offset),
            (left - 1) as nat,
            is_fragment || marks_fragment(packet, protocol, offset),
            active_routing_header || marks_routing(packet, protocol, offset),
        )
    } else {
        Ipv6Headers {
            protocol,
            transport_offset: offset as usize,
            is_fragment,
            active_routing_header,
            resolved: !is_extension(protocol),
        }
    }
}

/// What walking the extension-header chain of a packet finds.
pub open spec fn spec_walk(packet: Seq<u8>) -> Ipv6Headers {
    if packet.len() < 40 {
        Ipv6Headers {
            protocol: IpProtocol::Unknown(0),
            transport_offset: 40,
            is_fragment: false,
            active_routing_header: false,
            resolved: false,
        }
    } else {
        follow(packet, IpProtocol::spec_from_number(packet[6]), 40, 8, false, false)
    }
}

/// The walk ends within the packet.
pub proof fn lemma_follow_in_bounds(
    packet: Seq<u8>,
    protocol: IpProtocol,
    offset: int,
    left: nat,
    is_fragment: bool,
    active_routing_header: bool,
)
    requires
        0 <= offset <= packet.len() <= usize::MAX,
    ensures
        offset <= follow(
            packet,
            protocol,
            offset,
            left,
            is_fragment,
            active_routing_header,
        ).transport_offset <= packet.len(),
    decreases left,
{
    if is_extension(protocol) && left > 0 && extension_complete(packet, protocol, offset) {
        lemma_follow_in_bounds(
            packet,
            IpProtocol::spec_from_number(packet[offset]),
            offset + extension_len(packet, protocol, offset),
            (left - 1) as nat,
            is_fragment || marks_fragment(packet, protocol, offset),
            active_routing_header || marks_routing(packet, protocol, offset),
        );
    }
}

/// Exactly `count` complete extension headers stand from `offset` on, and an upper-layer
/// protocol follows them.
pub open spec fn chain_of(packet: Seq<u8>, protocol: IpProtocol, offset: int, count: nat) -> bool
    decreases count,
{
    if count == 0 {
        !is_extension(protocol)
    } else {
        &&& is_extension(protocol)
        &&& extension_complete(packet, protocol, offset)
        &&& chain_of(
            packet,
            IpProtocol::spec_from_number(packet[offset]),
            offset + extension_len(packet, protocol, offset),
            (count - 1) as nat,
        )
    }
}

/// A chain resolves exactly if it has at most eight extension headers: the eighth may
/// still point to an upper-layer protocol, a ninth is not followed.
pub proof fn eight_extension_headers_resolve(packet: Seq<u8>, count: nat)
    requires
        packet.len() >= 40,
        chain_of(packet, IpProtocol::spec_from_number(packet[6]), 40, count),
    ensures
        spec_walk(packet).resolved <==> count <= 8,
{
    lemma_chain_resolves(
        packet,
        IpProtocol::spec_from_number(packet[6]),
        40,
        8,
        count,
        false,
        false,
    );
}

proof fn lemma_chain_resolves(
    packet: Seq<u8>,
    protocol: IpProtocol,
    offset: int,
    left: nat,
    count: nat,
    is_fragment: bool,
    active_routing_header: bool,
)
    requires
        chain_of(packet, protocol, offset, count),
    ensures
        follow(packet, protocol, offset, left, is_fragment, active_routing_header).resolved
            <==> count <= left,
    decreases left,
{
    if count > 0 && left > 0 {
        lemma_chain_resolves(
            packet,
            IpProtocol::spec_from_number(packet[offset]),
            offset + extension_len(packet, protocol, offset),
            (left - 1) as nat,
            (count - 1) as nat,
            is_fragment || marks_fragment(packet, protocol, offset),
            active_routing_header || marks_routing(packet, protocol, offset),
        );
    }
}

/// Walks the supported IPv6 extension headers and returns the upper-layer
/// protocol and offset. `packet` must begin at the IPv6 base header.
///
/// The walker understands Hop-by-Hop Options, Routing, Fragment and Destination
/// Options headers. An exact chain of `MAX_IPV6_EXT_HEADERS` is accepted when
/// the eighth header points to an upper-layer protocol; a ninth extension
/// header remains unresolved.
pub fn walk_ipv6_headers(packet: &[u8]) -> (headers: Ipv6Headers)
    ensures
        headers == spec_walk(packet@),
        packet@.len() >= 40 ==> 40 <= headers.transport_offset <= packet@.len(),
{
    if packet.len() < IPV6_HEADER_LEN {
        return Ipv6Headers {
            protocol: IpProtocol::Unknown(0),
            transport_offset: IPV6_HEADER_LEN,
            is_fragment: false,
            active_routing_header: false,
            resolved: false,
        };
    }
    proof {
        lemma_follow_in_bounds(
            packet@,
            IpProtocol::spec_from_number(packet@[6]),
            40,
            8,
            false,
            false,
        );
    }
    let mut protocol: IpProtocol = IpProtocol::from(packet[6]);
    let mut offset: usize = IPV6_HEADER_LEN;
    let mut is_fragment: bool = false;
    let mut active_routing_header: bool = false;
    let mut left: usize = MAX_IPV6_EXT_HEADERS;
    loop
        invariant
            packet@.len() >= 40,
            left <= 8,
            offset <= packet@.len(),
            follow(
                packet@,
                protocol,
                offset as int,
                left as nat,
                is_fragment,
                active_routing_header,
            ) == spec_walk(packet@),
            40 <= spec_walk(packet@).transport_offset <= packet@.len(),
        decreases left,
    {
        let resolved: bool = match protocol {
            IpProtocol::HopByHop | IpProtocol::Ipv6Route | IpProtocol::Ipv6Opts
            | IpProtocol::Ipv6Frag => false,
            _ => true,
        };
        let stop = Ipv6Headers {
            protocol,
            transport_offset: offset,
            is_fragment,
            active_routing_header,
            resolved,
        };
        if resolved || left == 0 {
            return stop;
        }
        let rest = slice_subrange(packet, offset, packet.len());
        // The complete Fragment header has eight bytes and no length field; in the other
        // headers the second byte counts eight-octet units after the first eight.
        let length: usize = if protocol == IpProtocol::Ipv6Frag {
            if rest.len() < 8 {
                return stop;
            }
            if read_be16(rest, 2) / 8 != 0 || rest[3] % 2 == 1 {
                is_fragment = true;
            }
            8
        } else {
            if !check_extension(rest) {
                return stop;
            }
            // The pseudo-header uses the final destination while a Routing header is
            // active. Its place differs between routing types, so that checksum
            // rewriting is refused unless Segments Left is zero.
            if protocol == IpProtocol::Ipv6Route && rest[3] != 0 {
                active_routing_header = true;
            }
            (rest[1] as usize + 1) * 8
        };
        protocol = IpProtocol::from(rest[0]);
        offset = offset + length;
        left = left - 1;
    }
}

/// Why a transport header was not rewritten.
#[derive(Debug, Clone, Copy, PartialEq, Eq, Structural)]
pub enum Ipv6TransportError {
    InvalidPacket,
    UnresolvedHeaders,
    FragmentedPacket,
    ActiveRoutingHeader,
    UnsupportedProtocol,
    InvalidTransportHeader,
}

impl Ipv6TransportError {
    /// Describes the error.
    pub open spec fn spec_message(self) -> &'static str {
        match self {
            Ipv6TransportError::InvalidPacket => "invalid IPv6 packet",
            Ipv6TransportError::UnresolvedHeaders => "IPv6 extension header chain did not resolve",
            Ipv6TransportError::FragmentedPacket => "cannot rewrite an individual IPv6 fragment",
            Ipv6TransportError::ActiveRoutingHeader =>
                "cannot calculate a checksum through an active IPv6 routing header",
            Ipv6TransportError::UnsupportedProtocol => "IPv6 packet does not contain TCP or UDP",
            Ipv6TransportError::InvalidTransportHeader => "invalid IPv6 transport header",
        }
    }

    /// Describes the error.
    pub fn message(self) -> (message: &'static str)
        ensures
            message == self.spec_message(),
    {
        match self {
            Ipv6TransportError::InvalidPacket => "invalid IPv6 packet",
            Ipv6TransportError::UnresolvedHeaders => "IPv6 extension header chain did not resolve",
            Ipv6TransportError::FragmentedPacket => "cannot rewrite an individual IPv6 fragment",
            Ipv6TransportError::ActiveRoutingHeader =>
                "cannot calculate a checksum through an active IPv6 routing header",
            Ipv6TransportError::UnsupportedProtocol => "IPv6 packet does not contain TCP or UDP",
            Ipv6TransportError::InvalidTransportHeader => "invalid IPv6 transport header",
        }
    }
}

/// Where a packet's transport segment stands, and between whom it travels.
#[derive(Debug, Clone, Copy, PartialEq, Eq, Structural)]
pub struct TransportContext {
    pub protocol: IpProtocol,
    pub offset: usize,
    pub total_len: usize,
    pub source: Ipv6Address,
    pub destination: Ipv6Address,
}

/// The bytes that the packet's own length covers.
pub open spec fn ipv6_contents(packet: Seq<u8>) -> Seq<u8> {
    packet.subrange(0, ipv6_total_len(packet))
}

/// What keeps the transport segment of a packet from being located.
pub open spec fn context_error(packet: Seq<u8>) -> Option<Ipv6TransportError> {
    if !ipv6_valid(packet) || ip_version(packet) != 6 || (ipv6_payload_len(packet) == 0
        && packet.len() > 40) {
        Some(Ipv6TransportError::InvalidPacket)
    } else {
        let headers = spec_walk(ipv6_contents(packet));
        if !headers.resolved {
            Some(Ipv6TransportError::UnresolvedHeaders)
        } else if headers.is_fragment {
            Some(Ipv6TransportError::FragmentedPacket)
        } else if headers.active_routing_header {
            Some(Ipv6TransportError::ActiveRoutingHeader)
        } else {
            None
        }
    }
}

/// The transport segment of a packet.
pub open spec fn ipv6_segment(packet: Seq<u8>) -> Seq<u8> {
    packet.subrange(
        spec_walk(ipv6_contents(packet)).start(),
        ipv6_total_len(packet),
    )
}

/// What keeps the transport segment of a packet from being rewritten.
pub open spec fn rewrite_error(packet: Seq<u8>) -> Option<Ipv6TransportError> {
    match context_error(packet) {
        Some(error) => Some(error),
        None => {
            let protocol = spec_walk(ipv6_contents(packet)).protocol;
            if !has_ports(protocol) {
                Some(Ipv6TransportError::UnsupportedProtocol)
            } else if !segment_valid(protocol, ipv6_segment(packet)) {
                Some(Ipv6TransportError::InvalidTransportHeader)
            } else {
                None
            }
        },
    }
}

/// `packet` with both addresses of its base header replaced.
pub open spec fn with_addresses(
    packet: Seq<u8>,
    source: Ipv6Address,
    destination: Ipv6Address,
) -> Seq<u8> {
    splice(splice(packet, 8, source.octets()), 24, destination.octets())
}

/// `packet` with its addresses and one port replaced, and with the transport checksum
/// that belongs to them.
pub open spec fn rewritten(
    packet: Seq<u8>,
    source: Ipv6Address,
    destination: Ipv6Address,
    port: PortRewrite,
) -> Seq<u8> {
    let headers = spec_walk(ipv6_contents(packet));
    with_checksum(
        with_port(
            with_addresses(packet, source, destination),
            headers.start(),
            port,
        ),
        headers.protocol,
        headers.start(),
        ipv6_total_len(packet),
        source.octets(),
        destination.octets(),
    )
}

/// Locates the transport segment of a packet whose checksum can be computed.
pub fn transport_context(packet: &[u8]) -> (r: Result<TransportContext, Ipv6TransportError>)
    ensures
        match r {
            Ok(context) => {
                let headers = spec_walk(ipv6_contents(packet@));
                &&& context_error(packet@) is None
                &&& context.protocol == headers.protocol
                &&& context.offset == headers.transport_offset
                &&& context.total_len == ipv6_total_len(packet@)
                &&& 40 <= context.offset <= context.total_len <= packet@.len()
                &&& ipv6_address_at(packet@, 8, context.source)
                &&& ipv6_address_at(packet@, 24, context.destination)
            },
            Err(error) => context_error(packet@) == Some(error),
        },
{
    if !check_ipv6(packet) {
        return Err(Ipv6TransportError::InvalidPacket);
    }
    if read_ip_version(packet) != 6 {
        return Err(Ipv6TransportError::InvalidPacket);
    }
    // A zero Payload Length can denote a jumbogram, whose 32-bit length lives in the
    // Hop-by-Hop Jumbo Payload option. Treating the trailing bytes as a normal transport
    // segment would calculate the wrong pseudo-header length.
    if read_be16(packet, 4) == 0 && packet.len() > IPV6_HEADER_LEN {
        return Err(Ipv6TransportError::InvalidPacket);
    }
    let total_len: usize = read_ipv6_total_len(packet);
    let headers = walk_ipv6_headers(slice_subrange(packet, 0, total_len));
    if !headers.resolved {
        return Err(Ipv6TransportError::UnresolvedHeaders);
    }
    if headers.is_fragment {
        return Err(Ipv6TransportError::FragmentedPacket);
    }
    if headers.active_routing_header {
        return Err(Ipv6TransportError::ActiveRoutingHeader);
    }
    Ok(
        TransportContext {
            protocol: headers.protocol,
            offset: headers.transport_offset,
            total_len,
            source: read_ipv6_address(packet, 8),
            destination: read_ipv6_address(packet, 24),
        },
    )
}

/// Checks the transport header that a context points to.
pub fn validate_transport(packet: &[u8], context: &TransportContext) -> (r: Result<
    (),
    Ipv6TransportError,
>)
    ensures
        match r {
            Ok(()) => {
                &&& context.offset <= context.total_len <= packet@.len()
                &&& segment_valid(
                    context.protocol,
                    packet@.subrange(context.offset as int, context.total_len as int),
                )
            },
            Err(error) => {
                let inside = context.offset <= context.total_len <= packet@.len();
                if inside && !has_ports(context.protocol) {
                    error == Ipv6TransportError::UnsupportedProtocol
                } else {
                    &&& error == Ipv6TransportError::InvalidTransportHeader
                    &&& !inside || !segment_valid(
                        context.protocol,
                        packet@.subrange(context.offset as int, context.total_len as int),
                    )
                }
            },
        },
{
    if context.offset > context.total_len || context.total_len > packet.len() {
        return Err(Ipv6TransportError::InvalidTransportHeader);
    }
    let segment = slice_subrange(packet, context.offset, context.total_len);
    let valid: bool = match context.protocol {
        IpProtocol::Udp => check_udp(segment),
        IpProtocol::Tcp => check_tcp(segment),
        _ => {
            return Err(Ipv6TransportError::UnsupportedProtocol);
        },
    };
    if valid {
        Ok(())
    } else {
        Err(Ipv6TransportError::InvalidTransportHeader)
    }
}

/// Rewrites both IPv6 addresses and one TCP/UDP port, then computes the
/// upper-layer checksum over the bytes after the extension-header chain.
///
/// Validation is completed before any byte is modified, so malformed,
/// fragmented or unsupported packets are returned unchanged.
pub fn rewrite_ipv6_tcp_udp(
    packet: &mut [u8],
    source: Ipv6Address,
    destination: Ipv6Address,
    port: PortRewrite,
) -> (r: Result<(), Ipv6TransportError>)
    ensures
        match r {
            Ok(()) => {
                &&& rewrite_error(old(packet)@) is None
                &&& final(packet)@ == rewritten(old(packet)@, source, destination, port)
            },
            Err(error) => {
                &&& rewrite_error(old(packet)@) == Some(error)
                &&& final(packet)@ == old(packet)@
            },
        },
{
    let context = match transport_context(packet) {
        Ok(context) => context,
        Err(error) => {
            return Err(error);
        },
    };
    match validate_transport(packet, &context) {
        Ok(()) => {},
        Err(error) => {
            return Err(error);
        },
    }
    let ghost before = packet@;
    proof {
        source.lemma_octets();
        destination.lemma_octets();
    }
    // Neither operation changes a length field, so the offset stays valid.
    set_ipv6_source(packet, source);
    set_ipv6_destination(packet, destination);
    proof {
        let start = context.offset as int;
        let end = context.total_len as int;
        assert(packet@.subrange(start, end) =~= before.subrange(start, end));
    }
    set_port(packet, context.protocol, context.offset, context.total_len, port);
    fill_transport_checksum(
        packet,
        context.protocol,
        context.offset,
        context.total_len,
        IpAddress::Ipv6(source),
        IpAddress::Ipv6(destination),
    );
    Ok(())
}

/// `after` is `packet` with new addresses and one new port, and with a checksum that a
/// receiver accepts. Everything else is that of `packet`: the extension headers, the
/// lengths, the other port, the payload and what stands behind the packet.
pub open spec fn ipv6_rewrite_of(
    packet: Seq<u8>,
    after: Seq<u8>,
    source: Ipv6Address,
    destination: Ipv6Address,
    port: PortRewrite,
) -> bool {
    let headers = spec_walk(ipv6_contents(packet));
    let start = headers.start();
    let end = ipv6_total_len(packet);
    let checksum = start + if headers.protocol is Udp {
        6int
    } else {
        16
    };
    &&& after.len() == packet.len()
    &&& ipv6_address_at(after, 8, source)
    &&& ipv6_address_at(after, 24, destination)
    &&& match port {
        PortRewrite::Source(value) => be16(after, start) == value && be16(after, start + 2)
            == be16(packet, start + 2),
        PortRewrite::Destination(value) => be16(after, start + 2) == value && be16(after, start)
            == be16(packet, start),
    }
    &&& checksum_verifies(
        headers.protocol,
        after.subrange(start, end),
        source.octets(),
        destination.octets(),
    )
    &&& forall|i: int|
        0 <= i < packet.len() && !(8 <= i < 40) && !(start <= i < start + 4) && !(checksum <= i
            < checksum + 2) ==> #[trigger] after[i] == packet[i]
}

/// A rewrite sets the addresses and the port it was given and a checksum that a receiver
/// accepts, and leaves everything else alone.
pub proof fn rewrite_touches_only_its_fields(
    packet: Seq<u8>,
    source: Ipv6Address,
    destination: Ipv6Address,
    port: PortRewrite,
)
    requires
        packet.len() <= usize::MAX,
        rewrite_error(packet) is None,
    ensures
        ipv6_rewrite_of(
            packet,
            rewritten(packet, source, destination, port),
            source,
            destination,
            port,
        ),
{
    let contents = ipv6_contents(packet);
    let headers = spec_walk(contents);
    let start = headers.start();
    let end = ipv6_total_len(packet);
    lemma_follow_in_bounds(
        contents,
        IpProtocol::spec_from_number(contents[6]),
        40,
        8,
        false,
        false,
    );
    source.lemma_octets();
    destination.lemma_octets();
    let addressed = with_addresses(packet, source, destination);
    let ported = with_port(addressed, start, port);
    let before = packet.subrange(start, end);
    let segment = ported.subrange(start, end);
    assert forall|i: int| 4 <= i < end - start implies segment[i] == before[i] by {}
    filled_checksum_verifies(
        ported,
        headers.protocol,
        start,
        end,
        source.octets(),
        destination.octets(),
    );
    let after = rewritten(packet, source, destination, port);
    assert(after.subrange(8, 24) =~= source.octets());
    assert(after.subrange(24, 40) =~= destination.octets());
}

/// What keeps the transport checksum of a packet from being recalculated.
pub open spec fn recalculation_error(packet: Seq<u8>) -> Option<Ipv6TransportError> {
    match rewrite_error(packet) {
        Some(Ipv6TransportError::UnsupportedProtocol) => None,
        other => other,
    }
}

/// `packet` with the transport checksum that belongs to it.
pub open spec fn recalculated(packet: Seq<u8>) -> Seq<u8> {
    let headers = spec_walk(ipv6_contents(packet));
    with_checksum(
        packet,
        headers.protocol,
        headers.start(),
        ipv6_total_len(packet),
        packet.subrange(8, 24),
        packet.subrange(24, 40),
    )
}

/// Recomputes a TCP or UDP checksum using the upper-layer length, excluding all
/// IPv6 extension headers from the pseudo-header length. A packet that carries neither
/// is left as it is.
pub fn recalculate_ipv6_transport_checksum(packet: &mut [u8]) -> (r: Result<
    (),
    Ipv6TransportError,
>)
    ensures
        match r {
            Ok(()) => {
                &&& recalculation_error(old(packet)@) is None
                &&& final(packet)@ == recalculated(old(packet)@)
            },
            Err(error) => {
                &&& recalculation_error(old(packet)@) == Some(error)
                &&& final(packet)@ == old(packet)@
            },
        },
{
    let context = match transport_context(packet) {
        Ok(context) => context,
        Err(error) => {
            return Err(error);
        },
    };
    match context.protocol {
        IpProtocol::Tcp | IpProtocol::Udp => {},
        _ => {
            return Ok(());
        },
    }
    match validate_transport(packet, &context) {
        Ok(()) => {},
        Err(error) => {
            return Err(error);
        },
    }
    fill_transport_checksum(
        packet,
        context.protocol,
        context.offset,
        context.total_len,
        IpAddress::Ipv6(context.source),
        IpAddress::Ipv6(context.destination),
    );
    Ok(())
}

} // verus!

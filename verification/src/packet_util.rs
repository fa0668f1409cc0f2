//! Redirecting packets, and reading them from the network stack.

use crate::bytes::{be_encode_of_decode, lemma_byte_ranges, lemma_value_range};
use crate::checksum::{
    be16, be16_bytes, complement_completes_the_sum, folded, lemma_word_sum_splice, splice,
    word_sum,
};
use crate::connection::{Direction, RedirectInfo};
use crate::ip::{IpAddress, IpProtocol, Ipv4Address, Ipv6Address};
use crate::ipv6_packet::{
    ipv6_rewrite_of, recalculate_ipv6_transport_checksum, recalculated, recalculation_error,
    rewrite_error, rewrite_ipv6_tcp_udp, rewrite_touches_only_its_fields, rewritten,
};
use crate::packet::{NetBuffer, NetBufferView, Packet, PacketView};
use crate::packet_metadata::{
    inspect_packet as inspect_packet_bytes, spec_inspect, PacketInspection,
};
use crate::transport::{
    checksum_verifies, fill_transport_checksum, filled_checksum_verifies, segment_valid, set_port,
    with_checksum, with_port, PortRewrite,
};
use crate::wire::{
    check_ipv4, check_ipv6, check_tcp, check_udp, fill_ipv4_checksum, ipv4_address,
    ipv4_checksum, ipv4_header_len, ipv4_protocol, ipv4_total_len, ipv4_valid, ipv6_address,
    ipv6_valid, read_ipv4_address, read_ipv4_header_len, read_ipv4_total_len, read_ipv6_address,
    set_ipv4_destination, set_ipv4_source, IPV4_HEADER_LEN, IPV6_HEADER_LEN,
};
use vstd::prelude::*;
use vstd::slice::slice_subrange;

verus! {

/// An IPv4 packet with the header checksum that belongs to it.
pub open spec fn with_header_checksum(packet: Seq<u8>) -> Seq<u8> {
    splice(packet, 10, be16_bytes(ipv4_checksum(packet)))
}

/// A receiver accepts the header checksum that is filled in, and no other byte changes.
pub proof fn filled_header_checksum_verifies(packet: Seq<u8>)
    requires
        ipv4_valid(packet),
        ipv4_header_len(packet) >= 20,
    ensures
        folded(
            word_sum(with_header_checksum(packet).subrange(0, ipv4_header_len(packet))),
        ) == 0xffff,
        with_header_checksum(packet).len() == packet.len(),
        forall|i: int|
            0 <= i < packet.len() && i != 10 && i != 11 ==> #[trigger] with_header_checksum(
                packet,
            )[i] == packet[i],
{
    let length = ipv4_header_len(packet);
    let covered = splice(packet, 10, be16_bytes(0)).subrange(0, length);
    let value = ipv4_checksum(packet);
    assert(with_header_checksum(packet).subrange(0, length) =~= splice(
        covered,
        10,
        be16_bytes(value),
    ));
    lemma_word_sum_splice(covered, 10, value);
    complement_completes_the_sum(word_sum(covered));
}

/// An IPv4 packet with one port replaced, where one is given, and with the transport
/// checksum that belongs to it. A packet without a valid TCP or UDP header stays as it is.
pub open spec fn with_ipv4_transport(packet: Seq<u8>, port: Option<PortRewrite>) -> Seq<u8> {
    let protocol = ipv4_protocol(packet);
    let start = ipv4_header_len(packet);
    let end = ipv4_total_len(packet);
    if !segment_valid(protocol, packet.subrange(start, end)) {
        packet
    } else {
        with_checksum(
            match port {
                Some(port) => with_port(packet, start, port),
                None => packet,
            },
            protocol,
            start,
            end,
            ipv4_address(packet, 12).octets(),
            ipv4_address(packet, 16).octets(),
        )
    }
}

/// Replaces one port of an IPv4 packet, where one is given, and recomputes the transport
/// checksum.
fn rewrite_ipv4_transport(packet: &mut [u8], port: Option<PortRewrite>)
    requires
        ipv4_valid(old(packet)@),
    ensures
        final(packet)@ == with_ipv4_transport(old(packet)@, port),
{
    let protocol = IpProtocol::from(packet[9]);
    let source = IpAddress::Ipv4(read_ipv4_address(packet, 12));
    let destination = IpAddress::Ipv4(read_ipv4_address(packet, 16));
    let start: usize = read_ipv4_header_len(packet);
    let end: usize = read_ipv4_total_len(packet);
    let segment = slice_subrange(packet, start, end);
    let valid: bool = match protocol {
        IpProtocol::Udp => check_udp(segment),
        IpProtocol::Tcp => check_tcp(segment),
        _ => false,
    };
    if !valid {
        return;
    }
    match port {
        Some(port) => set_port(packet, protocol, start, end, port),
        None => {},
    }
    fill_transport_checksum(packet, protocol, start, end, source, destination);
}

/// Why an IPv4 packet cannot be rewritten: its lengths are inconsistent, its header is
/// shorter than the fixed part that holds the addresses, or it carries no complete TCP or
/// UDP header.
pub open spec fn ipv4_rewrite_failure(packet: Seq<u8>) -> Option<Seq<char>> {
    if !ipv4_valid(packet) || ipv4_header_len(packet) < 20 {
        Some("invalid IPv4 packet"@)
    } else if !segment_valid(
        ipv4_protocol(packet),
        packet.subrange(ipv4_header_len(packet), ipv4_total_len(packet)),
    ) {
        Some("IPv4 packet has no valid TCP or UDP header"@)
    } else {
        None
    }
}

/// Checks that an IPv4 packet can be rewritten.
fn check_ipv4_rewrite(packet: &[u8]) -> (r: Result<(), String>)
    ensures
        ipv4_rewrite_failure(packet@) == match r {
            Ok(()) => None,
            Err(error) => Some(error@),
        },
{
    if !check_ipv4(packet) || read_ipv4_header_len(packet) < IPV4_HEADER_LEN {
        return Err("invalid IPv4 packet".to_string());
    }
    let segment = slice_subrange(
        packet,
        read_ipv4_header_len(packet),
        read_ipv4_total_len(packet),
    );
    let valid: bool = match IpProtocol::from(packet[9]) {
        IpProtocol::Udp => check_udp(segment),
        IpProtocol::Tcp => check_tcp(segment),
        _ => false,
    };
    if valid {
        Ok(())
    } else {
        Err("IPv4 packet has no valid TCP or UDP header".to_string())
    }
}

/// An outbound IPv4 packet with the addresses of its redirection.
pub open spec fn ipv4_outbound_addresses(
    packet: Seq<u8>,
    remote_address: Ipv4Address,
    unify: bool,
) -> Seq<u8> {
    if unify {
        splice(packet, 16, ipv4_address(packet, 12).octets())
    } else if remote_address.loopback() {
        splice(
            splice(packet, 16, remote_address.octets()),
            12,
            Ipv4Address::spec_localhost().octets(),
        )
    } else {
        splice(packet, 16, remote_address.octets())
    }
}

/// Source and destination of a redirected outbound IPv6 packet.
pub open spec fn ipv6_outbound_addresses(
    packet: Seq<u8>,
    remote_address: Ipv6Address,
    unify: bool,
) -> (Ipv6Address, Ipv6Address) {
    let source = ipv6_address(packet, 8);
    if unify {
        (source, source)
    } else if remote_address.loopback() {
        (Ipv6Address::spec_localhost(), remote_address)
    } else {
        (source, remote_address)
    }
}

/// The error with which an outbound packet is not redirected.
pub open spec fn outbound_failure(packet: Seq<u8>, remote_address: IpAddress) -> Option<
    Seq<char>,
> {
    if remote_address is Ipv4 {
        ipv4_rewrite_failure(packet)
    } else if !ipv6_valid(packet) {
        Some("invalid outbound IPv6 packet"@)
    } else {
        match rewrite_error(packet) {
            Some(error) => Some(error.spec_message()@),
            None => None,
        }
    }
}

/// A redirected outbound packet.
pub open spec fn redirected_outbound(
    packet: Seq<u8>,
    remote_address: IpAddress,
    remote_port: u16,
    unify: bool,
) -> Seq<u8> {
    match remote_address {
        IpAddress::Ipv4(ip) => with_ipv4_transport(
            with_header_checksum(ipv4_outbound_addresses(packet, ip, unify)),
            Some(PortRewrite::Destination(remote_port)),
        ),
        IpAddress::Ipv6(ip) => {
            let (source, destination) = ipv6_outbound_addresses(packet, ip, unify);
            rewritten(packet, source, destination, PortRewrite::Destination(remote_port))
        },
    }
}

/// Replacing addresses and the header checksum leaves a packet's lengths alone.
proof fn lemma_addresses_keep_header(before: Seq<u8>, after: Seq<u8>)
    requires
        ipv4_valid(before),
        after.len() == before.len(),
        after.subrange(0, 10) == before.subrange(0, 10),
    ensures
        ipv4_valid(after),
        ipv4_header_len(after) == ipv4_header_len(before),
        ipv4_total_len(after) == ipv4_total_len(before),
        ipv4_protocol(after) == ipv4_protocol(before),
{
    assert(forall|i: int| 0 <= i < 10 ==> #[trigger] after[i] == after.subrange(0, 10)[i]);
    assert(forall|i: int| 0 <= i < 10 ==> #[trigger] before[i] == before.subrange(0, 10)[i]);
    assert(after[0] == before[0] && after[2] == before[2] && after[3] == before[3] && after[9]
        == before[9]);
}

/// Redirects an outbound packet to a specified remote address and port.
///
/// # Arguments
///
/// * `packet` - A mutable reference to the packet data.
/// * `remote_address` - The IP address to redirect the packet to.
/// * `remote_port` - The port to redirect the packet to.
/// * `unify` - If true, the source and destination addresses of the packet will be set to the
///   same value.
///
/// This function modifies the packet in-place to change its destination address and port.
/// It also updates the checksums for the IP and transport layer headers.
/// If the `unify` parameter is true, it sets the source and destination addresses to be the same.
/// If the remote address is a loopback address, it sets the source address to the loopback address.
///
/// A packet that cannot be rewritten is refused before any byte of it changes.
pub fn redirect_outbound_packet(
    packet: &mut [u8],
    remote_address: IpAddress,
    remote_port: u16,
    unify: bool,
) -> (r: Result<(), String>)
    ensures
        match r {
            Ok(()) => {
                &&& outbound_failure(old(packet)@, remote_address) is None
                &&& final(packet)@ == redirected_outbound(
                    old(packet)@,
                    remote_address,
                    remote_port,
                    unify,
                )
            },
            Err(error) => {
                &&& outbound_failure(old(packet)@, remote_address) == Some(error@)
                &&& final(packet)@ == old(packet)@
            },
        },
{
    match remote_address {
        IpAddress::Ipv4(remote_address) => {
            match check_ipv4_rewrite(packet) {
                Ok(()) => {},
                Err(error) => {
                    return Err(error);
                },
            }
            let ghost before = packet@;
            if unify {
                let source = read_ipv4_address(packet, 12);
                set_ipv4_destination(packet, source);
            } else {
                set_ipv4_destination(packet, remote_address);
                if remote_address.is_loopback() {
                    set_ipv4_source(packet, Ipv4Address::localhost());
                }
            }
            proof {
                assert(packet@.subrange(0, 10) =~= before.subrange(0, 10));
                lemma_addresses_keep_header(before, packet@);
            }
            let ghost addressed = packet@;
            fill_ipv4_checksum(packet);
            proof {
                assert(packet@.subrange(0, 10) =~= addressed.subrange(0, 10));
                lemma_addresses_keep_header(addressed, packet@);
            }
            rewrite_ipv4_transport(packet, Some(PortRewrite::Destination(remote_port)));
            Ok(())
        },
        IpAddress::Ipv6(remote_address) => {
            // The base Next Header can name an extension header, so that the upper-layer
            // offset is resolved before addresses or ports change.
            if !check_ipv6(packet) {
                return Err("invalid outbound IPv6 packet".to_string());
            }
            let original_source = read_ipv6_address(packet, 8);
            let destination = if unify {
                original_source
            } else {
                remote_address
            };
            let source = if !unify && remote_address.is_loopback() {
                Ipv6Address::localhost()
            } else {
                original_source
            };
            match rewrite_ipv6_tcp_udp(
                packet,
                source,
                destination,
                PortRewrite::Destination(remote_port),
            ) {
                Ok(()) => Ok(()),
                Err(error) => Err(error.message().to_string()),
            }
        },
    }
}

/// The error with which an inbound packet is not redirected.
pub open spec fn inbound_failure(
    packet: Seq<u8>,
    local_address: IpAddress,
    original_remote_address: IpAddress,
) -> Option<Seq<char>> {
    if local_address is Ipv4 && original_remote_address is Ipv6 {
        Some("IPv4 redirect has an IPv6 remote address"@)
    } else if local_address is Ipv6 && original_remote_address is Ipv4 {
        Some("IPv6 redirect has an IPv4 remote address"@)
    } else if local_address is Ipv4 {
        ipv4_rewrite_failure(packet)
    } else {
        match rewrite_error(packet) {
            Some(error) => Some(error.spec_message()@),
            None => None,
        }
    }
}

/// A redirected inbound packet.
pub open spec fn redirected_inbound(
    packet: Seq<u8>,
    local_address: IpAddress,
    original_remote_address: IpAddress,
    original_remote_port: u16,
) -> Seq<u8> {
    let port = PortRewrite::Source(original_remote_port);
    match (local_address, original_remote_address) {
        (IpAddress::Ipv4(local), IpAddress::Ipv4(remote)) => with_ipv4_transport(
            with_header_checksum(splice(splice(packet, 16, local.octets()), 12, remote.octets())),
            Some(port),
        ),
        (IpAddress::Ipv6(local), IpAddress::Ipv6(remote)) => rewritten(packet, remote, local, port),
        _ => packet,
    }
}

/// Redirects an inbound packet to a local address.
///
/// This function takes a mutable reference to a packet and modifies it in place.
/// It changes the destination address to the provided local address and the source address
/// to the original remote address. It also sets the source port to the original remote port.
/// The function handles both IPv4 and IPv6 addresses.
///
/// # Arguments
///
/// * `packet` - A mutable reference to the packet data.
/// * `local_address` - The local IP address to redirect the packet to.
/// * `original_remote_address` - The original remote IP address of the packet.
/// * `original_remote_port` - The original remote port of the packet.
///
/// A packet that cannot be rewritten is refused before any byte of it changes.
pub fn redirect_inbound_packet(
    packet: &mut [u8],
    local_address: IpAddress,
    original_remote_address: IpAddress,
    original_remote_port: u16,
) -> (r: Result<(), String>)
    ensures
        match r {
            Ok(()) => {
                &&& inbound_failure(old(packet)@, local_address, original_remote_address) is None
                &&& final(packet)@ == redirected_inbound(
                    old(packet)@,
                    local_address,
                    original_remote_address,
                    original_remote_port,
                )
            },
            Err(error) => {
                &&& inbound_failure(old(packet)@, local_address, original_remote_address) == Some(
                    error@,
                )
                &&& final(packet)@ == old(packet)@
            },
        },
{
    match local_address {
        IpAddress::Ipv4(local_address) => {
            let original_remote_address = match original_remote_address {
                IpAddress::Ipv4(ip) => ip,
                IpAddress::Ipv6(_) => {
                    return Err("IPv4 redirect has an IPv6 remote address".to_string());
                },
            };
            match check_ipv4_rewrite(packet) {
                Ok(()) => {},
                Err(error) => {
                    return Err(error);
                },
            }
            let ghost before = packet@;
            set_ipv4_destination(packet, local_address);
            set_ipv4_source(packet, original_remote_address);
            proof {
                assert(packet@.subrange(0, 10) =~= before.subrange(0, 10));
                lemma_addresses_keep_header(before, packet@);
            }
            let ghost addressed = packet@;
            fill_ipv4_checksum(packet);
            proof {
                assert(packet@.subrange(0, 10) =~= addressed.subrange(0, 10));
                lemma_addresses_keep_header(addressed, packet@);
            }
            rewrite_ipv4_transport(packet, Some(PortRewrite::Source(original_remote_port)));
            Ok(())
        },
        IpAddress::Ipv6(local_address) => {
            let original_remote_address = match original_remote_address {
                IpAddress::Ipv6(ip) => ip,
                IpAddress::Ipv4(_) => {
                    return Err("IPv6 redirect has an IPv4 remote address".to_string());
                },
            };
            match rewrite_ipv6_tcp_udp(
                packet,
                original_remote_address,
                local_address,
                PortRewrite::Source(original_remote_port),
            ) {
                Ok(()) => Ok(()),
                Err(error) => Err(error.message().to_string()),
            }
        },
    }
}

/// The octets of the address that stands at `at` are the bytes there.
proof fn lemma_ipv4_address_octets(packet: Seq<u8>, at: int)
    requires
        0 <= at <= packet.len() - 4,
    ensures
        ipv4_address(packet, at).octets() == packet.subrange(at, at + 4),
{
    let bytes = packet.subrange(at, at + 4);
    lemma_byte_ranges();
    lemma_value_range(bytes);
    be_encode_of_decode(bytes);
}

/// Setting addresses and filling both checksums of an IPv4 packet that can be rewritten
/// changes nothing but the addresses, the port and the checksums, and a receiver accepts
/// the result.
proof fn lemma_ipv4_rewrite(
    packet: Seq<u8>,
    addressed: Seq<u8>,
    source: Ipv4Address,
    destination: Ipv4Address,
    port: PortRewrite,
)
    requires
        ipv4_rewrite_failure(packet) is None,
        addressed.len() == packet.len(),
        forall|i: int|
            0 <= i < packet.len() && !(12 <= i < 20) ==> #[trigger] addressed[i] == packet[i],
        addressed.subrange(12, 16) == source.octets(),
        addressed.subrange(16, 20) == destination.octets(),
    ensures
        ipv4_rewrite_of(
            packet,
            with_ipv4_transport(with_header_checksum(addressed), Some(port)),
            source,
            destination,
            port,
        ),
{
    source.lemma_octets();
    destination.lemma_octets();
    let protocol = ipv4_protocol(packet);
    let start = ipv4_header_len(packet);
    let end = ipv4_total_len(packet);
    let headed = with_header_checksum(addressed);
    let ported = with_port(headed, start, port);
    let after = with_ipv4_transport(headed, Some(port));
    assert(addressed.subrange(0, 10) =~= packet.subrange(0, 10));
    lemma_addresses_keep_header(packet, addressed);
    assert(headed.subrange(0, 10) =~= addressed.subrange(0, 10));
    lemma_addresses_keep_header(addressed, headed);
    let before = packet.subrange(start, end);
    assert(headed.subrange(start, end) =~= before);
    let segment = ported.subrange(start, end);
    assert(forall|i: int| 4 <= i < end - start ==> #[trigger] segment[i] == before[i]);
    assert(headed.subrange(12, 16) =~= source.octets());
    assert(headed.subrange(16, 20) =~= destination.octets());
    assert(ipv4_address(headed, 12) == source);
    assert(ipv4_address(headed, 16) == destination);
    filled_checksum_verifies(
        ported,
        protocol,
        start,
        end,
        source.octets(),
        destination.octets(),
    );
    filled_header_checksum_verifies(addressed);
    assert(after.subrange(0, start) =~= headed.subrange(0, start));
    assert(after.subrange(12, 16) =~= source.octets());
    assert(after.subrange(16, 20) =~= destination.octets());
}

/// `after` is `packet` with new addresses and one new port: both checksums are those that a
/// receiver accepts, and lengths, protocol and payload are those of `packet`.
pub open spec fn ipv4_rewrite_of(
    packet: Seq<u8>,
    after: Seq<u8>,
    source: Ipv4Address,
    destination: Ipv4Address,
    port: PortRewrite,
) -> bool {
    let protocol = ipv4_protocol(packet);
    let start = ipv4_header_len(packet);
    let end = ipv4_total_len(packet);
    let checksum = start + if protocol is Udp {
        6int
    } else {
        16
    };
    &&& after.len() == packet.len()
    &&& after.subrange(12, 16) == source.octets()
    &&& after.subrange(16, 20) == destination.octets()
    &&& match port {
        PortRewrite::Source(value) => be16(after, start) == value && be16(after, start + 2)
            == be16(packet, start + 2),
        PortRewrite::Destination(value) => be16(after, start + 2) == value && be16(after, start)
            == be16(packet, start),
    }
    &&& folded(word_sum(after.subrange(0, start))) == 0xffff
    &&& checksum_verifies(
        protocol,
        after.subrange(start, end),
        source.octets(),
        destination.octets(),
    )
    &&& forall|i: int|
        0 <= i < packet.len() && !(10 <= i < 20) && !(start <= i < start + 4) && !(checksum <= i
            < checksum + 2) ==> #[trigger] after[i] == packet[i]
}

/// A redirected IPv4 packet goes where the redirection says: an outbound one to the
/// redirect port, at its own address, at the loopback address from the loopback address, or
/// at the redirect address; an inbound one to the local address from the tuple that the
/// program knows. A receiver accepts it, and its payload is untouched.
pub proof fn ipv4_redirect_reaches_its_target(
    packet: Seq<u8>,
    redirect_address: Ipv4Address,
    redirect_port: u16,
    unify: bool,
    local_address: Ipv4Address,
    remote_address: Ipv4Address,
    remote_port: u16,
)
    requires
        ipv4_rewrite_failure(packet) is None,
    ensures
        ({
            let own = ipv4_address(packet, 12);
            ipv4_rewrite_of(
                packet,
                redirected_outbound(
                    packet,
                    IpAddress::Ipv4(redirect_address),
                    redirect_port,
                    unify,
                ),
                if !unify && redirect_address.loopback() {
                    Ipv4Address::spec_localhost()
                } else {
                    own
                },
                if unify {
                    own
                } else {
                    redirect_address
                },
                PortRewrite::Destination(redirect_port),
            )
        }),
        ipv4_rewrite_of(
            packet,
            redirected_inbound(
                packet,
                IpAddress::Ipv4(local_address),
                IpAddress::Ipv4(remote_address),
                remote_port,
            ),
            remote_address,
            local_address,
            PortRewrite::Source(remote_port),
        ),
{
    let own = ipv4_address(packet, 12);
    let source = if !unify && redirect_address.loopback() {
        Ipv4Address::spec_localhost()
    } else {
        own
    };
    let destination = if unify {
        own
    } else {
        redirect_address
    };
    own.lemma_octets();
    redirect_address.lemma_octets();
    local_address.lemma_octets();
    remote_address.lemma_octets();
    Ipv4Address::spec_localhost().lemma_octets();
    lemma_ipv4_address_octets(packet, 12);
    let outbound = ipv4_outbound_addresses(packet, redirect_address, unify);
    assert(outbound.subrange(12, 16) =~= source.octets());
    assert(outbound.subrange(16, 20) =~= destination.octets());
    lemma_ipv4_rewrite(
        packet,
        outbound,
        source,
        destination,
        PortRewrite::Destination(redirect_port),
    );
    let inbound = splice(
        splice(packet, 16, local_address.octets()),
        12,
        remote_address.octets(),
    );
    assert(inbound.subrange(12, 16) =~= remote_address.octets());
    assert(inbound.subrange(16, 20) =~= local_address.octets());
    lemma_ipv4_rewrite(
        packet,
        inbound,
        remote_address,
        local_address,
        PortRewrite::Source(remote_port),
    );
}

/// A redirected IPv6 packet goes where the redirection says, as an IPv4 packet does. A
/// receiver accepts it, and its extension headers and payload are untouched.
pub proof fn ipv6_redirect_reaches_its_target(
    packet: Seq<u8>,
    redirect_address: Ipv6Address,
    redirect_port: u16,
    unify: bool,
    local_address: Ipv6Address,
    remote_address: Ipv6Address,
    remote_port: u16,
)
    requires
        packet.len() <= usize::MAX,
        rewrite_error(packet) is None,
    ensures
        ({
            let own = ipv6_address(packet, 8);
            ipv6_rewrite_of(
                packet,
                redirected_outbound(
                    packet,
                    IpAddress::Ipv6(redirect_address),
                    redirect_port,
                    unify,
                ),
                if !unify && redirect_address.loopback() {
                    Ipv6Address::spec_localhost()
                } else {
                    own
                },
                if unify {
                    own
                } else {
                    redirect_address
                },
                PortRewrite::Destination(redirect_port),
            )
        }),
        ipv6_rewrite_of(
            packet,
            redirected_inbound(
                packet,
                IpAddress::Ipv6(local_address),
                IpAddress::Ipv6(remote_address),
                remote_port,
            ),
            remote_address,
            local_address,
            PortRewrite::Source(remote_port),
        ),
{
    let (source, destination) = ipv6_outbound_addresses(packet, redirect_address, unify);
    rewrite_touches_only_its_fields(
        packet,
        source,
        destination,
        PortRewrite::Destination(redirect_port),
    );
    rewrite_touches_only_its_fields(
        packet,
        remote_address,
        local_address,
        PortRewrite::Source(remote_port),
    );
}

/// The error with which checksums are not recomputed.
pub open spec fn recalc_failure(packet: Seq<u8>, ipv6: bool) -> Option<Seq<char>> {
    if !ipv6 {
        None
    } else {
        match recalculation_error(packet) {
            Some(error) => Some(error.spec_message()@),
            None => None,
        }
    }
}

/// A packet with the checksums that belong to it. An IPv4 packet with inconsistent lengths
/// stays as it is.
pub open spec fn with_checksums(packet: Seq<u8>, ipv6: bool) -> Seq<u8> {
    if ipv6 {
        recalculated(packet)
    } else if ipv4_valid(packet) {
        with_ipv4_transport(with_header_checksum(packet), None)
    } else {
        packet
    }
}

/// Recomputes the header and transport checksums of a packet.
pub fn recalc_header_checksums(packet: &mut [u8], ipv6: bool) -> (r: Result<(), String>)
    ensures
        match r {
            Ok(()) => {
                &&& recalc_failure(old(packet)@, ipv6) is None
                &&& final(packet)@ == with_checksums(old(packet)@, ipv6)
            },
            Err(error) => {
                &&& recalc_failure(old(packet)@, ipv6) == Some(error@)
                &&& final(packet)@ == old(packet)@
            },
        },
{
    if ipv6 {
        match recalculate_ipv6_transport_checksum(packet) {
            Ok(()) => Ok(()),
            Err(error) => Err(error.message().to_string()),
        }
    } else {
        if check_ipv4(packet) {
            let ghost before = packet@;
            fill_ipv4_checksum(packet);
            proof {
                assert(packet@.subrange(0, 10) =~= before.subrange(0, 10));
                lemma_addresses_keep_header(before, packet@);
            }
            rewrite_ipv4_transport(packet, None);
        }
        Ok(())
    }
}

/// The error with which a packet is not redirected.
pub open spec fn redirect_failure(
    packet: Seq<u8>,
    writable: bool,
    inbound: bool,
    info: RedirectInfo,
) -> Option<Seq<char>> {
    if !writable {
        Some("trying to redirect immutable NBL"@)
    } else if inbound {
        inbound_failure(packet, info.local_address, info.remote_address)
    } else {
        outbound_failure(packet, info.redirect_address)
    }
}

/// A redirected packet.
pub open spec fn redirected(packet: Seq<u8>, inbound: bool, info: RedirectInfo) -> Seq<u8> {
    if inbound {
        redirected_inbound(packet, info.local_address, info.remote_address, info.remote_port)
    } else {
        redirected_outbound(packet, info.redirect_address, info.redirect_port, info.unify)
    }
}

/// The error with which a clone is not redirected.
pub open spec fn buffer_failure<H>(
    buffer: NetBufferView<H>,
    inbound: bool,
    info: RedirectInfo,
) -> Option<Seq<char>> {
    redirect_failure(buffer.data, buffer.writable, inbound, info)
}

/// A clone with redirected bytes.
pub open spec fn buffer_redirected<H>(
    buffer: NetBufferView<H>,
    inbound: bool,
    info: RedirectInfo,
) -> NetBufferView<H> {
    NetBufferView { data: redirected(buffer.data, inbound, info), ..buffer }
}

/// Redirects one packet.
pub fn redirect_net_buffer<H>(
    buffer: &mut NetBuffer<H>,
    inbound: bool,
    redirect_info: &RedirectInfo,
) -> (r: Result<(), String>)
    ensures
        match r {
            Ok(()) => {
                &&& buffer_failure(old(buffer)@, inbound, *redirect_info) is None
                &&& final(buffer)@ == buffer_redirected(old(buffer)@, inbound, *redirect_info)
            },
            Err(error) => {
                &&& buffer_failure(old(buffer)@, inbound, *redirect_info) == Some(error@)
                &&& final(buffer)@ == old(buffer)@
            },
        },
{
    if !buffer.writable {
        return Err("trying to redirect immutable NBL".to_string());
    }
    if inbound {
        redirect_inbound_packet(
            buffer.data.as_mut_slice(),
            redirect_info.local_address,
            redirect_info.remote_address,
            redirect_info.remote_port,
        )
    } else {
        redirect_outbound_packet(
            buffer.data.as_mut_slice(),
            redirect_info.redirect_address,
            redirect_info.redirect_port,
            redirect_info.unify,
        )
    }
}

/// The error with which the first of some clones that cannot be redirected fails.
pub open spec fn batch_failure<H>(
    buffers: Seq<NetBufferView<H>>,
    inbound: bool,
    info: RedirectInfo,
) -> Option<Seq<char>>
    decreases buffers.len(),
{
    if buffers.len() == 0 {
        None
    } else {
        match batch_failure(buffers.drop_last(), inbound, info) {
            Some(error) => Some(error),
            None => buffer_failure(buffers.last(), inbound, info),
        }
    }
}

/// The clones after redirecting them in turn until one fails.
pub open spec fn batch_redirected<H>(
    buffers: Seq<NetBufferView<H>>,
    inbound: bool,
    info: RedirectInfo,
) -> Seq<NetBufferView<H>> {
    Seq::new(
        buffers.len(),
        |i: int|
            if batch_failure(buffers.take(i + 1), inbound, info) is None {
                buffer_redirected(buffers[i], inbound, info)
            } else {
                buffers[i]
            },
    )
}

/// `Redirect` is a trait that defines a method for redirecting network packets.
///
/// This trait is used to implement different strategies for redirecting packets,
/// depending on the specific requirements of the application.
pub trait Redirect {
    /// Redirects a network packet based on the provided `RedirectInfo`.
    ///
    /// # Arguments
    ///
    /// * `redirect_info` - A struct containing information about how to redirect the packet.
    ///
    /// # Returns
    ///
    /// * `Ok(())` if the packet was successfully redirected.
    /// * `Err(String)` if there was an error redirecting the packet.
    fn redirect(&mut self, redirect_info: RedirectInfo) -> (r: Result<(), String>);
}

/// The error with which a waiting packet is not redirected. An ALE operation has no bytes
/// of its own.
pub open spec fn packet_failure<H>(packet: PacketView<H>, info: RedirectInfo) -> Option<
    Seq<char>,
> {
    match packet {
        PacketView::Network(buffer, inject) => buffer_failure(buffer, inject.inbound, info),
        PacketView::NetworkBatch(buffers, inject) => batch_failure(buffers, inject.inbound, info),
        PacketView::AleLayer(_) => None,
    }
}

/// A waiting packet after redirecting it. A clone that cannot be redirected stays as it
/// is, and so do those behind it.
pub open spec fn packet_redirected<H>(packet: PacketView<H>, info: RedirectInfo) -> PacketView<H> {
    match packet {
        PacketView::Network(buffer, inject) => PacketView::Network(
            if buffer_failure(buffer, inject.inbound, info) is None {
                buffer_redirected(buffer, inject.inbound, info)
            } else {
                buffer
            },
            inject,
        ),
        PacketView::NetworkBatch(buffers, inject) => PacketView::NetworkBatch(
            batch_redirected(buffers, inject.inbound, info),
            inject,
        ),
        PacketView::AleLayer(defer) => packet,
    }
}

impl<H> Redirect for Packet<H> {
    fn redirect(&mut self, redirect_info: RedirectInfo) -> (r: Result<(), String>)
        ensures
            final(self)@ == packet_redirected(old(self)@, redirect_info),
            packet_failure(old(self)@, redirect_info) == match r {
                Ok(()) => None,
                Err(error) => Some(error@),
            },
            final(self).spec_requires_reauthorization()
                == old(self).spec_requires_reauthorization(),
    {
        match self {
            Packet::Network(buffer, inject_info) => redirect_net_buffer(
                buffer,
                inject_info.inbound,
                &redirect_info,
            ),
            Packet::NetworkBatch(buffers, inject_info) => redirect_net_buffers(
                buffers,
                inject_info.inbound,
                &redirect_info,
            ),
            Packet::AleLayer(_) => Ok(()),
        }
    }
}

/// The views of some clones.
pub open spec fn buffer_views<H>(buffers: Seq<NetBuffer<H>>) -> Seq<NetBufferView<H>> {
    buffers.map_values(|b: NetBuffer<H>| b@)
}

/// Once a clone fails, so does every longer batch.
proof fn lemma_batch_failure_stays<H>(
    buffers: Seq<NetBufferView<H>>,
    i: int,
    inbound: bool,
    info: RedirectInfo,
)
    requires
        0 <= i <= buffers.len(),
        batch_failure(buffers.take(i), inbound, info) is Some,
    ensures
        batch_failure(buffers, inbound, info) == batch_failure(buffers.take(i), inbound, info),
    decreases buffers.len(),
{
    if i == buffers.len() {
        assert(buffers.take(i) =~= buffers);
    } else {
        assert(buffers.drop_last().take(i) =~= buffers.take(i));
        lemma_batch_failure_stays(buffers.drop_last(), i, inbound, info);
    }
}

/// Redirects packets in turn until one fails.
fn redirect_net_buffers<H>(
    buffers: &mut Vec<NetBuffer<H>>,
    inbound: bool,
    redirect_info: &RedirectInfo,
) -> (r: Result<(), String>)
    ensures
        buffer_views(final(buffers)@) == batch_redirected(
            buffer_views(old(buffers)@),
            inbound,
            *redirect_info,
        ),
        batch_failure(buffer_views(old(buffers)@), inbound, *redirect_info) == match r {
            Ok(()) => None,
            Err(error) => Some(error@),
        },
{
    let ghost all = buffer_views(buffers@);
    let ghost info = *redirect_info;
    let mut index: usize = 0;
    while index < buffers.len()
        invariant
            index <= buffers@.len() == all.len(),
            info == *redirect_info,
            all == buffer_views(old(buffers)@),
            batch_failure(all.take(index as int), inbound, info) is None,
            forall|i: int|
                0 <= i < index ==> batch_failure(#[trigger] all.take(i + 1), inbound, info) is None,
            forall|i: int|
                0 <= i < index ==> (#[trigger] buffers@[i])@ == buffer_redirected(
                    all[i],
                    inbound,
                    info,
                ),
            forall|i: int| index <= i < all.len() ==> (#[trigger] buffers@[i])@ == all[i],
        decreases buffers@.len() - index,
    {
        let ghost k = index as int;
        assert(all.take(k + 1).drop_last() =~= all.take(k));
        assert(all.take(k + 1).last() == all[k]);
        let result = redirect_net_buffer(&mut buffers[index], inbound, redirect_info);
        match result {
            Ok(()) => {},
            Err(error) => {
                proof {
                    assert forall|i: int| k <= i < all.len() implies batch_failure(
                        #[trigger] all.take(i + 1),
                        inbound,
                        info,
                    ) is Some by {
                        assert(all.take(i + 1).take(k + 1) =~= all.take(k + 1));
                        lemma_batch_failure_stays(all.take(i + 1), k + 1, inbound, info);
                    }
                    lemma_batch_failure_stays(all, k + 1, inbound, info);
                    assert(buffer_views(buffers@) =~= batch_redirected(all, inbound, info));
                }
                return Err(error);
            },
        }
        index = index + 1;
    }
    proof {
        assert(all.take(all.len() as int) =~= all);
        assert(buffer_views(buffers@) =~= batch_redirected(all, inbound, info));
    }
    Ok(())
}

/// The inspection of what could be read of a packet.
pub open spec fn spec_inspect_read(
    prefix: Option<Seq<u8>>,
    ipv6: bool,
    direction: Direction,
) -> PacketInspection {
    match prefix {
        Some(bytes) => spec_inspect(bytes, ipv6, direction),
        None => PacketInspection::spec_unreadable(),
    }
}

/// Number of bytes that must be readable when the whole inspection prefix is not: for IPv4
/// a base header and a TCP header up to its flags, for IPv6 the base header.
pub fn inspection_fallback_len(ipv6: bool) -> (length: usize)
    ensures
        length == if ipv6 {
            40int
        } else {
            34int
        },
{
    if ipv6 {
        IPV6_HEADER_LEN
    } else {
        IPV4_HEADER_LEN + 14
    }
}

/// Derives all packet-callout metadata from one prefix read from the network stack, if
/// there was one to read.
pub fn inspect_packet(prefix: Option<&[u8]>, ipv6: bool, direction: Direction) -> (inspection:
    PacketInspection)
    ensures
        inspection == spec_inspect_read(
            match prefix {
                Some(bytes) => Some(bytes@),
                None => None,
            },
            ipv6,
            direction,
        ),
{
    match prefix {
        Some(bytes) => inspect_packet_bytes(bytes, ipv6, direction),
        None => PacketInspection::unreadable(),
    }
}

} // verus!

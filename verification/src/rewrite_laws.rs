//! What a packet that returns to the network stack looks like.

use crate::bytes::{be_encode_of_decode, lemma_byte_ranges, lemma_value_range};
use crate::checksum::{be16, folded, word_sum};
use crate::connection::RedirectInfo;
use crate::device_state::DeviceView;
use crate::inspection_laws::{
    fragmented, leads_to, lemma_ipv4_at, routed, walk_finds_the_upper_layer, word,
};
use crate::ip::{IpAddress, IpProtocol, Ipv4Address, Ipv6Address};
use crate::ipv6_packet::{ipv6_contents, ipv6_segment, recalculated, rewrite_error, spec_walk};
use crate::packet::{InjectInfo, NetBuffer, NetBufferView, PacketView};
use crate::packet_callouts::{
    clone_packet_failure, packet_of_clones, CloneChecksum, NetBufferListClones,
};
use crate::packet_util::{
    batch_failure, batch_redirected, buffer_failure, filled_header_checksum_verifies,
    ipv4_redirect_reaches_its_target, ipv6_redirect_reaches_its_target, packet_failure,
    packet_redirected, with_checksums, with_header_checksum,
};
use crate::record_laws::{holds_ipv4, holds_ipv6, lemma_ipv4_field, lemma_ipv6_field};
use crate::transport::{checksum_verifies, filled_checksum_verifies};
use crate::verdict_laws::completes;
use crate::wire::{ipv4_address, ipv6_address};
use vstd::prelude::*;

verus! {

/// The segment between `start` and `end` is a TCP segment or a UDP datagram with a complete
/// header and a length that fits.
pub open spec fn sound_segment(packet: Seq<u8>, number: u8, start: int, end: int) -> bool {
    ||| number == 17 && start + 8 <= end && 8 <= word(packet, start + 4) <= end - start
    ||| number == 6 && start + 20 <= end && 20 <= 4 * (packet[start + 12] / 16) <= end - start
}

/// An IPv4 packet with consistent lengths that carries TCP or UDP.
pub open spec fn sound_ipv4(packet: Seq<u8>) -> bool {
    let start = 4 * (packet[0] % 16);
    let end = word(packet, 2);
    &&& packet.len() >= 20
    &&& 20 <= start <= end <= packet.len()
    &&& sound_segment(packet, packet[9], start, end)
}

/// An IPv6 packet with consistent lengths whose `count` extension headers lead to TCP or UDP
/// at `start`.
pub open spec fn sound_ipv6(packet: Seq<u8>, count: nat, last: u8, start: int) -> bool {
    let end = 40 + word(packet, 4);
    let own = packet.subrange(0, end);
    &&& 40 < end <= packet.len() <= usize::MAX
    &&& packet[0] / 16 == 6
    &&& count <= 8
    &&& leads_to(own, packet[6], 40, count, last, start)
    &&& !fragmented(own, packet[6], 40, count)
    &&& !routed(own, packet[6], 40, count)
    &&& sound_segment(packet, last, start, end)
}

/// The transport protocol that a number names.
pub open spec fn transport_of(number: u8) -> IpProtocol {
    if number == 17 {
        IpProtocol::Udp
    } else {
        IpProtocol::Tcp
    }
}

/// Where the checksum of a segment stands.
pub open spec fn checksum_place(number: u8, start: int) -> int {
    if number == 17 {
        start + 6
    } else {
        start + 16
    }
}

/// The ports of the segment at `start` are exchanged as a redirection asks: a packet that comes
/// in gets the source port that the program knows, and a packet that leaves goes to the port
/// of the service. The other port stays.
pub open spec fn ports_follow(
    before: Seq<u8>,
    after: Seq<u8>,
    start: int,
    inbound: bool,
    info: RedirectInfo,
) -> bool {
    if inbound {
        word(after, start) == info.remote_port && word(after, start + 2) == word(before, start + 2)
    } else {
        word(after, start + 2) == info.redirect_port && word(after, start) == word(before, start)
    }
}

/// The IPv4 addresses of a redirected packet: one that comes in seems to come from the address
/// that the program knows and goes to the local address; one that leaves goes to its own
/// address, or to the address of the service, which a loopback packet has to come from.
pub open spec fn ipv4_follows(
    before: Seq<u8>,
    after: Seq<u8>,
    inbound: bool,
    unify: bool,
    local: Ipv4Address,
    remote: Ipv4Address,
    target: Ipv4Address,
) -> bool {
    let from = after.subrange(12, 16);
    let to = after.subrange(16, 20);
    let own = before.subrange(12, 16);
    if inbound {
        holds_ipv4(from, remote) && holds_ipv4(to, local)
    } else if unify {
        from == own && to == own
    } else {
        &&& holds_ipv4(to, target)
        &&& if target.0 / 0x100_0000 == 127 {
            holds_ipv4(from, Ipv4Address(0x7f00_0001))
        } else {
            from == own
        }
    }
}

/// The IPv6 addresses of a redirected packet, as those of an IPv4 packet.
pub open spec fn ipv6_follows(
    before: Seq<u8>,
    after: Seq<u8>,
    inbound: bool,
    unify: bool,
    local: Ipv6Address,
    remote: Ipv6Address,
    target: Ipv6Address,
) -> bool {
    let from = after.subrange(8, 24);
    let to = after.subrange(24, 40);
    let own = before.subrange(8, 24);
    if inbound {
        holds_ipv6(from, remote) && holds_ipv6(to, local)
    } else if unify {
        from == own && to == own
    } else {
        &&& holds_ipv6(to, target)
        &&& if target.high == 0 && target.low == 1 {
            holds_ipv6(from, Ipv6Address { high: 0, low: 1 })
        } else {
            from == own
        }
    }
}

/// Nothing but addresses, ports and checksums of an IPv4 packet differs.
pub open spec fn same_ipv4_payload(before: Seq<u8>, after: Seq<u8>) -> bool {
    let start = 4 * (before[0] % 16);
    let sum = checksum_place(before[9], start);
    &&& after.len() == before.len()
    &&& forall|i: int|
        0 <= i < before.len() && !(10 <= i < 20) && !(start <= i < start + 4) && i != sum && i
            != sum + 1 ==> #[trigger] after[i] == before[i]
}

/// Nothing but addresses, ports and the checksum of an IPv6 packet differs.
pub open spec fn same_ipv6_payload(
    before: Seq<u8>,
    after: Seq<u8>,
    last: u8,
    start: int,
) -> bool {
    let sum = checksum_place(last, start);
    &&& after.len() == before.len()
    &&& forall|i: int|
        0 <= i < before.len() && !(8 <= i < 40) && !(start <= i < start + 4) && i != sum && i != sum
            + 1 ==> #[trigger] after[i] == before[i]
}

/// A receiver accepts the checksums of an IPv4 packet.
pub open spec fn ipv4_accepted(packet: Seq<u8>) -> bool {
    let start = 4 * (packet[0] % 16);
    &&& folded(word_sum(packet.subrange(0, start))) == 0xffff
    &&& checksum_verifies(
        transport_of(packet[9]),
        packet.subrange(start, word(packet, 2)),
        packet.subrange(12, 16),
        packet.subrange(16, 20),
    )
}

/// A receiver accepts the checksum of an IPv6 packet.
pub open spec fn ipv6_accepted(packet: Seq<u8>, last: u8, start: int) -> bool {
    checksum_verifies(
        transport_of(last),
        packet.subrange(start, 40 + word(packet, 4)),
        packet.subrange(8, 24),
        packet.subrange(24, 40),
    )
}

proof fn lemma_sound_ipv4<H>(buffer: NetBufferView<H>, inbound: bool, info: RedirectInfo)
    requires
        sound_ipv4(buffer.data),
        buffer.writable,
        info.local_address is Ipv4,
        info.remote_address is Ipv4,
        info.redirect_address is Ipv4,
    ensures
        buffer_failure(buffer, inbound, info) is None,
{
    let start = 4 * (buffer.data[0] % 16);
    let end = word(buffer.data, 2);
    let segment = buffer.data.subrange(start, end);
    if buffer.data[9] == 17 {
        assert(be16(segment, 4) == word(buffer.data, start + 4));
    } else {
        assert(segment[12] == buffer.data[start + 12]);
    }
}

/// A sound IPv4 clone is redirected: the bytes that are injected go where the redirection says,
/// a receiver accepts them, and the payload is the one that was sent. The clone is returned the
/// way it was taken.
pub proof fn redirected_ipv4_clone_is_injected<H, C>(
    s: DeviceView<H, C>,
    buffer: NetBufferView<H>,
    inject: InjectInfo,
    info: RedirectInfo,
    local: Ipv4Address,
    remote: Ipv4Address,
    target: Ipv4Address,
)
    requires
        sound_ipv4(buffer.data),
        buffer.writable,
        info.local_address == IpAddress::Ipv4(local),
        info.remote_address == IpAddress::Ipv4(remote),
        info.redirect_address == IpAddress::Ipv4(target),
    ensures
        packet_redirected(PacketView::Network(buffer, inject), info) matches PacketView::Network(
            after,
            how,
        ) && {
            let start = 4 * (buffer.data[0] % 16);
            &&& how == inject
            &&& after.handle == buffer.handle
            &&& after.writable
            &&& ipv4_follows(
                buffer.data,
                after.data,
                inject.inbound,
                info.unify,
                local,
                remote,
                target,
            )
            &&& ports_follow(buffer.data, after.data, start, inject.inbound, info)
            &&& ipv4_accepted(after.data)
            &&& same_ipv4_payload(buffer.data, after.data)
            &&& s.clone_redirected(PacketView::Network(buffer, inject), info).actions.len()
                == s.actions.len() + 1
            &&& completes(
                s.clone_redirected(PacketView::Network(buffer, inject), info),
                s.actions.len() as int,
                PacketView::Network(after, inject),
                false,
                false,
            )
        },
{
    lemma_sound_ipv4(buffer, inject.inbound, info);
    ipv4_redirect_reaches_its_target(
        buffer.data,
        target,
        info.redirect_port,
        info.unify,
        local,
        remote,
        info.remote_port,
    );
    lemma_ipv4_field(local);
    lemma_ipv4_field(remote);
    lemma_ipv4_field(target);
    lemma_ipv4_field(Ipv4Address(0x7f00_0001));
    lemma_ipv4_at(buffer.data, 12);
    let own = ipv4_address(buffer.data, 12);
    be_encode_of_decode(buffer.data.subrange(12, 16));
    assert(own.octets() == buffer.data.subrange(12, 16));
    let after = packet_redirected(PacketView::Network(buffer, inject), info)->Network_0.data;
    assert(after[0] == buffer.data[0]);
    assert(after[2] == buffer.data[2]);
    assert(after[3] == buffer.data[3]);
    assert(after[9] == buffer.data[9]);
}

proof fn lemma_sound_ipv6(packet: Seq<u8>, count: nat, last: u8, start: int)
    requires
        sound_ipv6(packet, count, last, start),
    ensures
        rewrite_error(packet) is None,
        spec_walk(ipv6_contents(packet)).start() == start,
        spec_walk(ipv6_contents(packet)).protocol == transport_of(last),
        40 <= start,
{
    let own = packet.subrange(0, 40 + word(packet, 4));
    assert(own[6] == packet[6]);
    walk_finds_the_upper_layer(own, count, last, start);
    assert(ipv6_contents(packet) =~= own);
    let segment = ipv6_segment(packet);
    if last == 17 {
        assert(be16(segment, 4) == word(packet, start + 4));
    } else {
        assert(segment[12] == packet[start + 12]);
    }
}

proof fn lemma_ipv6_octets_at(packet: Seq<u8>, at: int)
    requires
        0 <= at <= at + 16 <= packet.len(),
    ensures
        ipv6_address(packet, at).octets() == packet.subrange(at, at + 16),
{
    lemma_byte_ranges();
    let high = packet.subrange(at, at + 8);
    let low = packet.subrange(at + 8, at + 16);
    be_encode_of_decode(high);
    be_encode_of_decode(low);
    lemma_value_range(high);
    lemma_value_range(low);
    assert(packet.subrange(at, at + 16) =~= high + low);
}

/// A sound IPv6 clone is redirected as an IPv4 clone is. Its extension headers stay.
pub proof fn redirected_ipv6_clone_is_injected<H, C>(
    s: DeviceView<H, C>,
    buffer: NetBufferView<H>,
    inject: InjectInfo,
    info: RedirectInfo,
    local: Ipv6Address,
    remote: Ipv6Address,
    target: Ipv6Address,
    count: nat,
    last: u8,
    start: int,
)
    requires
        sound_ipv6(buffer.data, count, last, start),
        buffer.writable,
        info.local_address == IpAddress::Ipv6(local),
        info.remote_address == IpAddress::Ipv6(remote),
        info.redirect_address == IpAddress::Ipv6(target),
    ensures
        packet_redirected(PacketView::Network(buffer, inject), info) matches PacketView::Network(
            after,
            how,
        ) && {
            &&& how == inject
            &&& after.handle == buffer.handle
            &&& after.writable
            &&& ipv6_follows(
                buffer.data,
                after.data,
                inject.inbound,
                info.unify,
                local,
                remote,
                target,
            )
            &&& ports_follow(buffer.data, after.data, start, inject.inbound, info)
            &&& ipv6_accepted(after.data, last, start)
            &&& same_ipv6_payload(buffer.data, after.data, last, start)
            &&& s.clone_redirected(PacketView::Network(buffer, inject), info).actions.len()
                == s.actions.len() + 1
            &&& completes(
                s.clone_redirected(PacketView::Network(buffer, inject), info),
                s.actions.len() as int,
                PacketView::Network(after, inject),
                false,
                false,
            )
        },
{
    lemma_sound_ipv6(buffer.data, count, last, start);
    ipv6_redirect_reaches_its_target(
        buffer.data,
        target,
        info.redirect_port,
        info.unify,
        local,
        remote,
        info.remote_port,
    );
    lemma_ipv6_field(local);
    lemma_ipv6_field(remote);
    lemma_ipv6_field(target);
    lemma_ipv6_field(Ipv6Address { high: 0, low: 1 });
    lemma_ipv6_octets_at(buffer.data, 8);
    let after = packet_redirected(PacketView::Network(buffer, inject), info)->Network_0.data;
    assert(after[4] == buffer.data[4]);
    assert(after[5] == buffer.data[5]);
}

/// What cannot be rewritten is not injected: the log tells of it, and nothing else happens.
pub proof fn unwritable_clone_is_not_injected<H, C>(
    s: DeviceView<H, C>,
    buffer: NetBufferView<H>,
    inject: InjectInfo,
    info: RedirectInfo,
)
    requires
        !buffer.writable || (inject.inbound && (info.local_address is Ipv4)
            != (info.remote_address is Ipv4)),
    ensures
        ({
            let t = s.clone_redirected(PacketView::Network(buffer, inject), info);
            t == (DeviceView { log: t.log, ..s })
        }),
        packet_redirected(PacketView::Network(buffer, inject), info) == PacketView::Network(
            buffer,
            inject,
        ),
{
}

/// Where every packet of a batch can be redirected, each of them is, as it would be alone.
pub proof fn batch_is_redirected_as_its_parts<H>(
    buffers: Seq<NetBufferView<H>>,
    inject: InjectInfo,
    info: RedirectInfo,
)
    requires
        forall|i: int|
            0 <= i < buffers.len() ==> packet_failure(
                PacketView::Network(#[trigger] buffers[i], inject),
                info,
            ) is None,
    ensures
        packet_failure(PacketView::NetworkBatch(buffers, inject), info) is None,
        packet_redirected(PacketView::NetworkBatch(buffers, inject), info) matches
            PacketView::NetworkBatch(after, how) && how == inject && after.len() == buffers.len()
            && (forall|i: int|
            0 <= i < buffers.len() ==> packet_redirected(
                PacketView::Network(#[trigger] buffers[i], inject),
                info,
            ) == PacketView::Network(after[i], inject)),
{
    lemma_batch_sound(buffers, inject.inbound, info);
    assert forall|i: int| 0 <= i < buffers.len() implies batch_failure(
        #[trigger] buffers.take(i + 1),
        inject.inbound,
        info,
    ) is None by {
        lemma_batch_sound(buffers.take(i + 1), inject.inbound, info);
    }
    let after = batch_redirected(buffers, inject.inbound, info);
    assert forall|i: int| 0 <= i < buffers.len() implies packet_redirected(
        PacketView::Network(#[trigger] buffers[i], inject),
        info,
    ) == PacketView::Network(after[i], inject) by {
        assert(packet_failure(PacketView::Network(buffers[i], inject), info) is None);
        assert(batch_failure(buffers.take(i + 1), inject.inbound, info) is None);
    }
}

proof fn lemma_batch_sound<H>(buffers: Seq<NetBufferView<H>>, inbound: bool, info: RedirectInfo)
    requires
        forall|i: int|
            0 <= i < buffers.len() ==> buffer_failure(#[trigger] buffers[i], inbound, info) is None,
    ensures
        batch_failure(buffers, inbound, info) is None,
    decreases buffers.len(),
{
    if buffers.len() > 0 {
        lemma_batch_sound(buffers.drop_last(), inbound, info);
    }
}

/// A sound IPv4 clone that waits gets the checksums that a receiver accepts, and nothing else
/// of it changes.
pub proof fn waiting_ipv4_clone_is_complete<H>(clone: NetBuffer<H>, inject: InjectInfo)
    requires
        sound_ipv4(clone.data@),
        clone.writable,
        !inject.ipv6,
    ensures
        clone_packet_failure(
            NetBufferListClones::Single(clone),
            false,
            CloneChecksum::Recalculate,
        ) is None,
        packet_of_clones(
            NetBufferListClones::Single(clone),
            inject,
            CloneChecksum::Recalculate,
        ) matches PacketView::Network(after, how) && {
            let start = 4 * (clone.data@[0] % 16);
            &&& how == inject
            &&& after.handle == clone.handle
            &&& after.writable
            &&& ipv4_accepted(after.data)
            &&& same_ipv4_payload(clone.data@, after.data)
            &&& after.data.subrange(12, 20) == clone.data@.subrange(12, 20)
            &&& after.data.subrange(start, start + 4) == clone.data@.subrange(start, start + 4)
        },
{
    let packet = clone.data@;
    let start = 4 * (packet[0] % 16);
    let end = word(packet, 2);
    let headed = with_header_checksum(packet);
    filled_header_checksum_verifies(packet);
    assert(headed.subrange(start, end) =~= packet.subrange(start, end));
    let segment = packet.subrange(start, end);
    if packet[9] == 17 {
        assert(be16(segment, 4) == word(packet, start + 4));
    } else {
        assert(segment[12] == packet[start + 12]);
    }
    assert(headed[0] == packet[0] && headed[2] == packet[2] && headed[3] == packet[3] && headed[9]
        == packet[9]);
    be_encode_of_decode(headed.subrange(12, 16));
    be_encode_of_decode(headed.subrange(16, 20));
    lemma_ipv4_at(headed, 12);
    lemma_ipv4_at(headed, 16);
    let source = ipv4_address(headed, 12).octets();
    let destination = ipv4_address(headed, 16).octets();
    assert(source == headed.subrange(12, 16));
    assert(destination == headed.subrange(16, 20));
    filled_checksum_verifies(headed, transport_of(packet[9]), start, end, source, destination);
    let after = with_checksums(packet, false);
    assert(after.subrange(0, start) =~= headed.subrange(0, start));
    assert(after.subrange(12, 16) =~= source);
    assert(after.subrange(16, 20) =~= destination);
    assert(after.subrange(12, 20) =~= packet.subrange(12, 20));
    assert(after.subrange(start, start + 4) =~= packet.subrange(start, start + 4));
}

/// A sound IPv6 clone that waits gets the checksum that a receiver accepts, and nothing else
/// of it changes.
pub proof fn waiting_ipv6_clone_is_complete<H>(
    clone: NetBuffer<H>,
    inject: InjectInfo,
    count: nat,
    last: u8,
    start: int,
)
    requires
        sound_ipv6(clone.data@, count, last, start),
        clone.writable,
        inject.ipv6,
    ensures
        clone_packet_failure(
            NetBufferListClones::Single(clone),
            true,
            CloneChecksum::Recalculate,
        ) is None,
        packet_of_clones(
            NetBufferListClones::Single(clone),
            inject,
            CloneChecksum::Recalculate,
        ) matches PacketView::Network(after, how) && {
            &&& how == inject
            &&& after.handle == clone.handle
            &&& after.writable
            &&& ipv6_accepted(after.data, last, start)
            &&& same_ipv6_payload(clone.data@, after.data, last, start)
            &&& after.data.subrange(8, 40) == clone.data@.subrange(8, 40)
            &&& after.data.subrange(start, start + 4) == clone.data@.subrange(start, start + 4)
        },
{
    let packet = clone.data@;
    let end = 40 + word(packet, 4);
    lemma_sound_ipv6(packet, count, last, start);
    let source = packet.subrange(8, 24);
    let destination = packet.subrange(24, 40);
    let segment = packet.subrange(start, end);
    if last == 17 {
        assert(be16(segment, 4) == word(packet, start + 4));
    } else {
        assert(segment[12] == packet[start + 12]);
    }
    filled_checksum_verifies(packet, transport_of(last), start, end, source, destination);
    let after = recalculated(packet);
    assert(after.subrange(8, 24) =~= source);
    assert(after.subrange(24, 40) =~= destination);
    assert(after.subrange(8, 40) =~= packet.subrange(8, 40));
    assert(after.subrange(start, start + 4) =~= packet.subrange(start, start + 4));
    assert(after[4] == packet[4] && after[5] == packet[5]);
}

} // verus!

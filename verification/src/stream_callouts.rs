//! Byte counting at the stream and datagram layers.

use crate::bandwidth::{updated, Key};
use crate::connection::Direction;
use crate::device::Device;
use crate::device_state::DeviceView;
use crate::ip::{IpProtocol, Ipv4Address, Ipv6Address};
use vstd::prelude::*;

verus! {

/// Length of a UDP header.
pub const UDP_HEADER_LEN: usize = 8;

/// The payload of a net buffer with this many bytes. Outbound data starts at the transport
/// header, inbound data behind it.
pub open spec fn datagram_payload(direction: Direction, length: usize) -> nat {
    match direction {
        Direction::Outbound => if length >= UDP_HEADER_LEN {
            (length - UDP_HEADER_LEN) as nat
        } else {
            0
        },
        Direction::Inbound => length as nat,
    }
}

/// The payload of some net buffers.
pub open spec fn payload_sum(direction: Direction, lengths: Seq<usize>) -> nat
    decreases lengths.len(),
{
    if lengths.len() == 0 {
        0
    } else {
        payload_sum(direction, lengths.drop_last()) + datagram_payload(direction, lengths.last())
    }
}

/// The direction of a datagram-layer indication.
pub open spec fn spec_datagram_direction(value: u32) -> Direction {
    if value == 0 {
        Direction::Outbound
    } else {
        Direction::Inbound
    }
}

/// A datagram indication whose bytes count.
///
/// The datagram data layer is not UDP only: raw sockets and ICMP are indicated here as
/// well. Of a datagram that was held and injected again, the outbound copy is a second
/// indication, while the inbound copy is the only one.
pub open spec fn counts_datagram(
    protocol: IpProtocol,
    direction: Direction,
    self_injected: bool,
) -> bool {
    protocol is Udp && !(direction is Outbound && self_injected)
}

proof fn lemma_payload_prefix(direction: Direction, lengths: Seq<usize>, n: int)
    requires
        0 <= n <= lengths.len(),
    ensures
        payload_sum(direction, lengths.take(n)) <= payload_sum(direction, lengths),
    decreases lengths.len() - n,
{
    if n < lengths.len() {
        assert(lengths.take(n + 1).drop_last() =~= lengths.take(n));
        lemma_payload_prefix(direction, lengths, n + 1);
    } else {
        assert(lengths.take(n) =~= lengths);
    }
}

/// Returns the number of transport payload bytes in some net buffers.
pub fn get_datagram_payload_length(direction: Direction, lengths: &[usize]) -> (length: usize)
    requires
        payload_sum(direction, lengths@) <= usize::MAX,
    ensures
        length == payload_sum(direction, lengths@),
{
    let mut sum: usize = 0;
    let mut n: usize = 0;
    while n < lengths.len()
        invariant
            n <= lengths@.len(),
            sum == payload_sum(direction, lengths@.take(n as int)),
            payload_sum(direction, lengths@) <= usize::MAX,
        decreases lengths@.len() - n,
    {
        let length: usize = lengths[n];
        let payload: usize = match direction {
            Direction::Outbound => if length >= UDP_HEADER_LEN {
                length - UDP_HEADER_LEN
            } else {
                0
            },
            Direction::Inbound => length,
        };
        proof {
            assert(lengths@.take(n + 1).drop_last() =~= lengths@.take(n as int));
            lemma_payload_prefix(direction, lengths@, n + 1);
        }
        sum = sum + payload;
        n = n + 1;
    }
    assert(lengths@.take(n as int) =~= lengths@);
    sum
}

/// Returns what a stream indication counts. Lifecycle indications that carry no payload
/// must not create zero-valued entries.
pub fn get_stream_direction_and_length(is_receive: bool, data_length: usize) -> (sample: Option<
    (Direction, usize),
>)
    ensures
        sample == if data_length == 0 {
            None
        } else if is_receive {
            Some((Direction::Inbound, data_length))
        } else {
            Some((Direction::Outbound, data_length))
        },
{
    let direction = if is_receive {
        Direction::Inbound
    } else {
        Direction::Outbound
    };
    if data_length == 0 {
        None
    } else {
        Some((direction, data_length))
    }
}

/// What a datagram indication counts.
pub open spec fn spec_datagram_sample(
    protocol: IpProtocol,
    direction_value: u32,
    self_injected: bool,
    lengths: Seq<usize>,
) -> Option<(Direction, usize)> {
    let direction = spec_datagram_direction(direction_value);
    let sum = payload_sum(direction, lengths);
    if counts_datagram(protocol, direction, self_injected) && sum > 0 {
        Some((direction, sum as usize))
    } else {
        None
    }
}

/// Returns what a datagram indication counts.
pub fn datagram_sample(
    protocol: IpProtocol,
    direction_value: u32,
    self_injected: bool,
    lengths: &[usize],
) -> (sample: Option<(Direction, usize)>)
    requires
        payload_sum(spec_datagram_direction(direction_value), lengths@) <= usize::MAX,
    ensures
        sample == spec_datagram_sample(protocol, direction_value, self_injected, lengths@),
{
    if protocol != IpProtocol::Udp {
        return None;
    }
    let direction = if direction_value == 0 {
        Direction::Outbound
    } else {
        Direction::Inbound
    };
    if direction == Direction::Outbound && self_injected {
        return None;
    }
    let length: usize = get_datagram_payload_length(direction, lengths);
    if length == 0 {
        None
    } else {
        Some((direction, length))
    }
}

impl<H, C> DeviceView<H, C> {
    /// The bytes of an IPv4 stream indication were counted. One without bytes is not.
    pub open spec fn stream_seen_v4(
        self,
        key: Key<Ipv4Address>,
        is_receive: bool,
        data_length: usize,
    ) -> Self {
        if data_length == 0 {
            self
        } else {
            DeviceView {
                tcp_v4: updated(
                    self.tcp_v4,
                    key,
                    if is_receive {
                        Direction::Inbound
                    } else {
                        Direction::Outbound
                    },
                    data_length as u64,
                ),
                ..self
            }
        }
    }

    /// The bytes of an IPv4 datagram indication were counted.
    pub open spec fn datagram_seen_v4(
        self,
        key: Key<Ipv4Address>,
        protocol: IpProtocol,
        direction_value: u32,
        self_injected: bool,
        lengths: Seq<usize>,
    ) -> Self {
        match spec_datagram_sample(protocol, direction_value, self_injected, lengths) {
            Some((direction, length)) => DeviceView {
                udp_v4: updated(self.udp_v4, key, direction, length as u64),
                ..self
            },
            None => self,
        }
    }

    /// The bytes of an IPv6 stream indication were counted. One without bytes is not.
    pub open spec fn stream_seen_v6(
        self,
        key: Key<Ipv6Address>,
        is_receive: bool,
        data_length: usize,
    ) -> Self {
        if data_length == 0 {
            self
        } else {
            DeviceView {
                tcp_v6: updated(
                    self.tcp_v6,
                    key,
                    if is_receive {
                        Direction::Inbound
                    } else {
                        Direction::Outbound
                    },
                    data_length as u64,
                ),
                ..self
            }
        }
    }

    /// The bytes of an IPv6 datagram indication were counted.
    pub open spec fn datagram_seen_v6(
        self,
        key: Key<Ipv6Address>,
        protocol: IpProtocol,
        direction_value: u32,
        self_injected: bool,
        lengths: Seq<usize>,
    ) -> Self {
        match spec_datagram_sample(protocol, direction_value, self_injected, lengths) {
            Some((direction, length)) => DeviceView {
                udp_v6: updated(self.udp_v6, key, direction, length as u64),
                ..self
            },
            None => self,
        }
    }
}

/// Counts the bytes of an IPv4 stream indication.
pub fn stream_layer_tcp_v4<H, C>(
    device: &mut Device<H, C>,
    key: Key<Ipv4Address>,
    is_receive: bool,
    data_length: usize,
)
    requires
        old(device).wf(),
    ensures
        final(device).wf(),
        final(device)@ == old(device)@.stream_seen_v4(key, is_receive, data_length),
{
    if let Some((direction, length)) = get_stream_direction_and_length(is_receive, data_length) {
        device.bandwidth_stats.update_tcp_v4(key, direction, length as u64);
    }
}

/// Counts the bytes of an IPv6 stream indication.
pub fn stream_layer_tcp_v6<H, C>(
    device: &mut Device<H, C>,
    key: Key<Ipv6Address>,
    is_receive: bool,
    data_length: usize,
)
    requires
        old(device).wf(),
    ensures
        final(device).wf(),
        final(device)@ == old(device)@.stream_seen_v6(key, is_receive, data_length),
{
    if let Some((direction, length)) = get_stream_direction_and_length(is_receive, data_length) {
        device.bandwidth_stats.update_tcp_v6(key, direction, length as u64);
    }
}

/// Counts the bytes of an IPv4 datagram indication.
pub fn stream_layer_udp_v4<H, C>(
    device: &mut Device<H, C>,
    key: Key<Ipv4Address>,
    protocol: IpProtocol,
    direction_value: u32,
    self_injected: bool,
    lengths: &[usize],
)
    requires
        old(device).wf(),
        payload_sum(spec_datagram_direction(direction_value), lengths@) <= usize::MAX,
    ensures
        final(device).wf(),
        final(device)@ == old(device)@.datagram_seen_v4(
            key,
            protocol,
            direction_value,
            self_injected,
            lengths@,
        ),
{
    if let Some((direction, length)) = datagram_sample(
        protocol,
        direction_value,
        self_injected,
        lengths,
    ) {
        device.bandwidth_stats.update_udp_v4(key, direction, length as u64);
    }
}

/// Counts the bytes of an IPv6 datagram indication.
pub fn stream_layer_udp_v6<H, C>(
    device: &mut Device<H, C>,
    key: Key<Ipv6Address>,
    protocol: IpProtocol,
    direction_value: u32,
    self_injected: bool,
    lengths: &[usize],
)
    requires
        old(device).wf(),
        payload_sum(spec_datagram_direction(direction_value), lengths@) <= usize::MAX,
    ensures
        final(device).wf(),
        final(device)@ == old(device)@.datagram_seen_v6(
            key,
            protocol,
            direction_value,
            self_injected,
            lengths@,
        ),
{
    if let Some((direction, length)) = datagram_sample(
        protocol,
        direction_value,
        self_injected,
        lengths,
    ) {
        device.bandwidth_stats.update_udp_v6(key, direction, length as u64);
    }
}

} // verus!

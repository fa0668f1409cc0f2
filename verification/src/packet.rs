//! Packets that wait for a decision.
//!
//! A packet is a clone of what the network stack indicated. Its bytes stand here; `H`
//! is whatever the stack needs to take the clone back.

use crate::ip::IpProtocol;
use crate::key::Key;
use vstd::prelude::*;

verus! {

/// How a packet-layer clone returns to the network stack.
#[derive(Clone, Copy, Debug, PartialEq, Eq, Structural)]
pub struct InjectInfo {
    pub ipv6: bool,
    pub inbound: bool,
    pub loopback: bool,
    pub compartment_id: Option<u32>,
    pub interface_index: u32,
    pub sub_interface_index: u32,
}

/// One cloned packet.
pub struct NetBuffer<H> {
    pub handle: H,
    pub data: Vec<u8>,
    /// The clone owns its bytes, so that they can be rewritten.
    pub writable: bool,
}

/// An ALE operation that waits for its completion.
pub struct ClassifyDefer<H> {
    pub handle: H,
    /// The indication could not be pended: completing it takes a policy reset.
    pub reauthorization: bool,
    /// Transport bytes reported with the request.
    pub data: Vec<u8>,
}

/// A packet that waits for a decision.
pub enum Packet<H> {
    Network(NetBuffer<H>, InjectInfo),
    NetworkBatch(Vec<NetBuffer<H>>, InjectInfo),
    AleLayer(ClassifyDefer<H>),
}

/// What a cloned packet holds.
#[verifier::ext_equal]
pub struct NetBufferView<H> {
    pub handle: H,
    pub data: Seq<u8>,
    pub writable: bool,
}

/// What a waiting ALE operation holds.
#[verifier::ext_equal]
pub struct DeferView<H> {
    pub handle: H,
    pub reauthorization: bool,
    pub data: Seq<u8>,
}

/// What a waiting packet holds.
#[verifier::ext_equal]
pub enum PacketView<H> {
    Network(NetBufferView<H>, InjectInfo),
    NetworkBatch(Seq<NetBufferView<H>>, InjectInfo),
    AleLayer(DeferView<H>),
}

impl<H> NetBuffer<H> {
    /// What the clone holds.
    pub open spec fn view(&self) -> NetBufferView<H> {
        NetBufferView { handle: self.handle, data: self.data@, writable: self.writable }
    }
}

impl<H> ClassifyDefer<H> {
    /// What the operation holds.
    pub open spec fn view(&self) -> DeferView<H> {
        DeferView {
            handle: self.handle,
            reauthorization: self.reauthorization,
            data: self.data@,
        }
    }
}

impl<H> Packet<H> {
    /// What the packet holds.
    pub open spec fn view(&self) -> PacketView<H> {
        match self {
            Packet::Network(buffer, inject_info) => PacketView::Network(buffer@, *inject_info),
            Packet::NetworkBatch(buffers, inject_info) => PacketView::NetworkBatch(
                buffers@.map_values(|b: NetBuffer<H>| b@),
                *inject_info,
            ),
            Packet::AleLayer(defer) => PacketView::AleLayer(defer@),
        }
    }

    /// Applying a verdict takes a policy reset before the packet can return.
    pub open spec fn spec_requires_reauthorization(&self) -> bool {
        match self {
            Packet::AleLayer(defer) => defer.reauthorization,
            _ => false,
        }
    }

    /// The packet can be delivered without the endpoint that sent it.
    pub open spec fn spec_survives_connection_end(&self, key: Key) -> bool {
        key.protocol is Udp && match self {
            Packet::Network(_, inject_info) => !inject_info.inbound,
            Packet::NetworkBatch(_, inject_info) => !inject_info.inbound,
            Packet::AleLayer(_) => false,
        }
    }

    /// The bytes reported with a request for this packet.
    pub open spec fn spec_payload(&self) -> Seq<u8> {
        match self {
            Packet::Network(buffer, _) => buffer.data@,
            Packet::NetworkBatch(buffers, _) => if buffers@.len() > 0 {
                buffers@[0].data@
            } else {
                Seq::empty()
            },
            Packet::AleLayer(defer) => defer.data@,
        }
    }

    /// Returns whether applying a verdict requires a passive-level WFP
    /// management transaction before the saved packet can be reinjected.
    pub fn requires_reauthorization(&self) -> (r: bool)
        ensures
            r == self.spec_requires_reauthorization(),
    {
        match self {
            Packet::AleLayer(defer) => defer.reauthorization,
            _ => false,
        }
    }

    /// Returns whether this packet remains independently deliverable after its
    /// socket connection has ended.
    ///
    /// Outbound UDP is absorbed only after the socket send has completed. Its
    /// network-layer clone already contains the complete datagram and can be
    /// injected without the endpoint that originated it. ALE packets and inbound
    /// network packets still depend on their live connection lifecycle.
    pub fn survives_connection_end(&self, key: &Key) -> (r: bool)
        ensures
            r == self.spec_survives_connection_end(*key),
    {
        let outbound_clone: bool = match self {
            Packet::Network(_, inject_info) => !inject_info.inbound,
            Packet::NetworkBatch(_, inject_info) => !inject_info.inbound,
            Packet::AleLayer(_) => false,
        };
        key.protocol == IpProtocol::Udp && outbound_clone
    }

    /// Returns the bytes reported with a request for this packet.
    pub fn payload(&self) -> (data: &[u8])
        ensures
            data@ == self.spec_payload(),
    {
        match self {
            Packet::Network(buffer, _) => buffer.data.as_slice(),
            Packet::NetworkBatch(buffers, _) => {
                if buffers.len() > 0 {
                    buffers[0].data.as_slice()
                } else {
                    let none: &[u8] = &[];
                    assert(none@ =~= Seq::empty());
                    none
                }
            },
            Packet::AleLayer(defer) => defer.data.as_slice(),
        }
    }
}

/// One thing that returning a packet takes.
pub enum Injection<H> {
    /// Inject a clone.
    Clone(NetBuffer<H>, InjectInfo),
    /// Complete an ALE operation, and inject its packet if it is permitted.
    Ale(ClassifyDefer<H>, bool),
}

/// What one injection holds.
#[verifier::ext_equal]
pub enum InjectionView<H> {
    Clone(NetBufferView<H>, InjectInfo),
    Ale(DeferView<H>, bool),
}

impl<H> Injection<H> {
    /// What the injection holds.
    pub open spec fn view(&self) -> InjectionView<H> {
        match self {
            Injection::Clone(buffer, inject_info) => InjectionView::Clone(buffer@, *inject_info),
            Injection::Ale(defer, permit) => InjectionView::Ale(defer@, *permit),
        }
    }
}

/// What returning a packet takes, in order. A blocked clone is only dropped; an ALE operation
/// is completed in any case.
pub open spec fn injections<H>(packet: PacketView<H>, blocked: bool) -> Seq<InjectionView<H>> {
    match packet {
        PacketView::Network(buffer, inject_info) => if blocked {
            Seq::empty()
        } else {
            seq![InjectionView::Clone(buffer, inject_info)]
        },
        PacketView::NetworkBatch(buffers, inject_info) => if blocked {
            Seq::empty()
        } else {
            buffers.map_values(|b: NetBufferView<H>| InjectionView::Clone(b, inject_info))
        },
        PacketView::AleLayer(defer) => seq![InjectionView::Ale(defer, !blocked)],
    }
}

/// Returns what returning a packet takes, in order.
pub fn inject_packet<H>(packet: Packet<H>, blocked: bool) -> (list: Vec<Injection<H>>)
    ensures
        list@.map_values(|i: Injection<H>| i@) == injections(packet@, blocked),
{
    let ghost given = packet@;
    let mut list: Vec<Injection<H>> = Vec::new();
    match packet {
        Packet::Network(buffer, inject_info) => {
            if !blocked {
                list.push(Injection::Clone(buffer, inject_info));
            }
        },
        Packet::NetworkBatch(buffers, inject_info) => {
            if !blocked {
                let ghost all = buffers@;
                for buffer in iter: buffers.into_iter()
                    invariant
                        iter.seq() == all,
                        list@.len() == iter.index(),
                        forall|i: int|
                            0 <= i < iter.index() ==> (#[trigger] list@[i])@
                                == InjectionView::Clone(all[i]@, inject_info),
                {
                    list.push(Injection::Clone(buffer, inject_info));
                }
            }
        },
        Packet::AleLayer(defer) => {
            list.push(Injection::Ale(defer, !blocked));
        },
    }
    assert(list@.map_values(|i: Injection<H>| i@) =~= injections(given, blocked));
    list
}

} // verus!

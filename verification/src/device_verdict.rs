//! Applying the decisions of user space.

use crate::command::{UpdateV4, UpdateV6};
use crate::connection::{RedirectInfo, Verdict};
use crate::connection_cache::{
    with_tuple_verdict, with_verdict, verdict_redirect, ConnectionUpdate,
};
use crate::connection_map::instance_match;
use crate::device::Device;
use crate::device_state::{awaits, Action, ActionView, DeviceView};
use crate::id_cache::{request_ids, without, Entry, PendingIdentity, PendingPacket, Request};
use crate::ip::{IpAddress, IpProtocol, Ipv4Address, Ipv6Address};
use crate::key::Key;
use crate::lists::{increasing, lemma_filter_source};
use crate::packet::{Packet, PacketView};
use crate::packet_util::{packet_failure, packet_redirected, Redirect};
use crate::text::{decimal, push_decimal, push_text};
use crate::wire::{ipv4_address, ipv6_address};
use vstd::array::array_as_slice;
use vstd::prelude::*;
use vstd::utf8::encode_utf8;

verus! {

/// The queued packet with a request ID.
pub open spec fn queued_packet<H>(queue: Seq<Request<H>>, id: u64) -> Option<PendingPacket<H>> {
    if exists|k: int| 0 <= k < queue.len() && (#[trigger] queue[k]).id == id {
        let k = choose|k: int| 0 <= k < queue.len() && (#[trigger] queue[k]).id == id;
        Some(queue[k].value)
    } else {
        None
    }
}

/// Completing the packet takes a reset of the filters.
pub open spec fn needs_reset<H>(packet: PacketView<H>) -> bool {
    packet matches PacketView::AleLayer(defer) && defer.reauthorization
}

/// The text that reports a verdict without a request.
pub open spec fn invalid_id_text(id: u64) -> Seq<u8> {
    encode_utf8("Verdict invalid id: "@) + decimal(id as nat)
}

/// The text that reports a packet that was not redirected.
pub open spec fn redirect_error_text(error: Seq<char>) -> Seq<u8> {
    encode_utf8("failed to redirect packet: "@) + encode_utf8(error)
}

/// The tuple that an IPv4 update selects.
pub open spec fn update_key_v4(update: UpdateV4) -> Key {
    Key {
        protocol: IpProtocol::spec_from_number(update.protocol),
        local_address: IpAddress::Ipv4(ipv4_address(update.local_address@, 0)),
        local_port: update.local_port,
        remote_address: IpAddress::Ipv4(ipv4_address(update.remote_address@, 0)),
        remote_port: update.remote_port,
    }
}

/// The tuple that an IPv6 update selects.
pub open spec fn update_key_v6(update: UpdateV6) -> Key {
    Key {
        protocol: IpProtocol::spec_from_number(update.protocol),
        local_address: IpAddress::Ipv6(ipv6_address(update.local_address@, 0)),
        local_port: update.local_port,
        remote_address: IpAddress::Ipv6(ipv6_address(update.remote_address@, 0)),
        remote_port: update.remote_port,
    }
}

impl<H, C> DeviceView<H, C> {
    /// A request was claimed for its verdict.
    pub open spec fn claimed(self, id: u64, pending: PendingPacket<H>) -> Self {
        DeviceView {
            queue: without(self.queue, id),
            in_progress: self.in_progress.insert(
                id,
                PendingIdentity {
                    key: pending.key,
                    connection_instance_id: pending.connection_instance_id,
                },
            ),
            ..self
        }
    }

    /// The exact connection generation can still be given a verdict.
    pub open spec fn has_instance(self, key: Key, instance_id: u64) -> bool {
        if key.spec_is_ipv6() {
            instance_match(self.connections_v6, key, instance_id) is Some
        } else {
            instance_match(self.connections_v4, key, instance_id) is Some
        }
    }

    /// One exact connection generation got a verdict.
    pub open spec fn decided(self, key: Key, instance_id: u64, verdict: Verdict, now: u64) -> Self {
        if key.spec_is_ipv6() {
            DeviceView {
                connections_v6: with_verdict(self.connections_v6, key, instance_id, verdict, now),
                ..self
            }
        } else {
            DeviceView {
                connections_v4: with_verdict(self.connections_v4, key, instance_id, verdict, now),
                ..self
            }
        }
    }

    /// The redirection that a verdict gives to one exact connection generation.
    pub open spec fn redirect_for(
        self,
        key: Key,
        instance_id: u64,
        verdict: Verdict,
        now: u64,
    ) -> Option<RedirectInfo> {
        if key.spec_is_ipv6() {
            verdict_redirect(self.connections_v6, key, instance_id, verdict, now)
        } else {
            verdict_redirect(self.connections_v4, key, instance_id, verdict, now)
        }
    }

    /// A waiting packet was completed after its verdict.
    pub open spec fn injected(self, packet: PacketView<H>, blocked: bool) -> Self {
        self.with_action(
            ActionView::Inject { packet, blocked, reset_first: needs_reset(packet) },
        )
    }

    /// A waiting packet was completed as its verdict demands. A packet that was to be
    /// redirected and could not be is given up, and so is one without redirect state; both
    /// are recorded.
    pub open spec fn answered(
        self,
        packet: PacketView<H>,
        verdict: Verdict,
        redirect_info: Option<RedirectInfo>,
    ) -> Self {
        match verdict {
            Verdict::Accept | Verdict::PermanentAccept => self.injected(packet, false),
            Verdict::RedirectNameServer | Verdict::RedirectTunnel
            | Verdict::RedirectSplitTunnel => match redirect_info {
                Some(info) => match packet_failure(packet, info) {
                    None => self.injected(packet_redirected(packet, info), false),
                    Some(error) => self.with_error(redirect_error_text(error)),
                },
                None => self.with_error(
                    redirect_error_text("redirect state is unavailable"@),
                ).injected(packet, true),
            },
            _ => self.injected(packet, true),
        }
    }

    /// A claimed request got its verdict. A verdict belongs to the exact connection
    /// generation that queued the packet. When that generation is gone, a packet that
    /// depends on it is completed as blocked, and one that does not is decided alone.
    pub open spec fn given(self, pending: PendingPacket<H>, verdict: Verdict, now: u64) -> Self {
        let packet = pending.packet@;
        match pending.connection_instance_id {
            None => self.answered(packet, verdict, None),
            Some(instance_id) => if self.has_instance(pending.key, instance_id) {
                self.decided(pending.key, instance_id, verdict, now).answered(
                    packet,
                    verdict,
                    self.redirect_for(pending.key, instance_id, verdict, now),
                )
            } else if pending.packet.spec_survives_connection_end(pending.key) {
                self.answered(packet, verdict, None)
            } else {
                self.with_action(
                    ActionView::Inject { packet, blocked: true, reset_first: false },
                )
            },
        }
    }

    /// A verdict command was applied. One without a waiting request is only recorded.
    pub open spec fn verdict_applied(self, id: u64, verdict: Verdict, now: u64) -> Self {
        match queued_packet(self.queue, id) {
            None => self.with_error(invalid_id_text(id)),
            Some(pending) => self.claimed(id, pending).given(pending, verdict, now).finished(
                id,
                now,
            ),
        }
    }

    /// An update command was applied: the tuple's live connection has the verdict, and
    /// existing flows are authorized again.
    pub open spec fn update_applied(self, key: Key, verdict: Verdict, now: u64) -> Self {
        if key.spec_is_ipv6() {
            DeviceView {
                connections_v6: with_tuple_verdict(self.connections_v6, key, verdict, now),
                ..self
            }.with_action(ActionView::ResetFilters)
        } else {
            DeviceView {
                connections_v4: with_tuple_verdict(self.connections_v4, key, verdict, now),
                ..self
            }.with_action(ActionView::ResetFilters)
        }
    }
}

/// The queue holds the packet of a request under its ID.
pub proof fn lemma_queued_packet<H>(queue: Seq<Request<H>>, id: u64, pending: PendingPacket<H>)
    requires
        increasing(request_ids(queue)),
        exists|k: int|
            0 <= k < queue.len() && #[trigger] queue[k] == (Entry { value: pending, id }),
    ensures
        queued_packet(queue, id) == Some(pending),
{
    let k = choose|k: int|
        0 <= k < queue.len() && #[trigger] queue[k] == (Entry { value: pending, id });
    assert(queue[k].id == id);
    let j = choose|j: int| 0 <= j < queue.len() && (#[trigger] queue[j]).id == id;
    assert(request_ids(queue)[k] == request_ids(queue)[j]);
    assert(k == j);
}

/// Claiming a request keeps what closing endpoints wait for, and takes it from the queue.
proof fn lemma_claim_keeps_cover<H, C>(s: DeviceView<H, C>, id: u64, pending: PendingPacket<H>)
    requires
        s.closures_cover(),
        exists|k: int|
            0 <= k < s.queue.len() && #[trigger] s.queue[k] == (Entry { value: pending, id }),
    ensures
        s.claimed(id, pending).closures_cover(),
        !s.claimed(id, pending).is_queued(id),
{
    let t = s.claimed(id, pending);
    let stays = |e: Request<H>| e.spec_id() != id;
    let at = choose|k: int|
        0 <= k < s.queue.len() && #[trigger] s.queue[k] == (Entry { value: pending, id });
    assert forall|k: int| 0 <= k < t.queue.len() implies (#[trigger] t.queue[k]).id != id by {
        lemma_filter_source(s.queue, stays, k);
    }
    assert forall|g: u64, k: int|
        #![trigger t.closures[g], t.queue[k]]
        t.closures.contains_key(g) && 0 <= k < t.queue.len() && awaits(
            t.closures[g].endpoint,
            t.queue[k].value.key,
            t.queue[k].value.connection_instance_id,
        ) implies t.closures[g].waits_for.contains(t.queue[k].id) by {
        lemma_filter_source(s.queue, stays, k);
        let j = choose|j: int|
            0 <= j < s.queue.len() && s.queue[j] == s.queue.filter(stays)[k] && stays(s.queue[j]);
        assert(s.closures[g].waits_for.contains(s.queue[j].id));
    }
    assert forall|g: u64, i: u64|
        #![trigger t.closures[g], t.in_progress[i]]
        t.closures.contains_key(g) && t.in_progress.contains_key(i) && awaits(
            t.closures[g].endpoint,
            t.in_progress[i].key,
            t.in_progress[i].connection_instance_id,
        ) implies t.closures[g].waits_for.contains(i) by {
        if i == id {
            assert(s.closures[g].waits_for.contains(s.queue[at].id));
        } else {
            assert(s.in_progress.contains_key(i));
            assert(t.in_progress[i] == s.in_progress[i]);
            assert(s.closures[g].waits_for.contains(i));
        }
    }
}

impl<H, C> Device<H, C> {
    /// Completes a waiting packet after its verdict.
    ///
    /// A reauthorization marker is created only for an ALE indication that could
    /// not be pended. The filters are reset before that marker is consumed.
    fn inject_verdict_packet(&mut self, packet: Packet<H>, blocked: bool)
        requires
            old(self).wf(),
        ensures
            final(self).wf(),
            final(self)@ == old(self)@.injected(packet@, blocked),
    {
        let reset_first: bool = packet.requires_reauthorization();
        self.push_action(Action::Inject { packet, blocked, reset_first });
    }

    fn record_redirect_error(&mut self, cause: &str)
        requires
            old(self).wf(),
        ensures
            final(self).wf(),
            final(self)@ == old(self)@.with_error(redirect_error_text(cause@)),
    {
        let mut text: Vec<u8> = Vec::new();
        push_text(&mut text, "failed to redirect packet: ");
        push_text(&mut text, cause);
        assert(text@ =~= redirect_error_text(cause@));
        self.record_error(text.as_slice());
    }

    /// Completes a waiting packet as its verdict demands.
    fn answer(&mut self, packet: Packet<H>, verdict: Verdict, redirect_info: Option<RedirectInfo>)
        requires
            old(self).wf(),
        ensures
            final(self).wf(),
            final(self)@ == old(self)@.answered(packet@, verdict, redirect_info),
    {
        match verdict {
            Verdict::Accept | Verdict::PermanentAccept => {
                self.inject_verdict_packet(packet, false);
            },
            Verdict::RedirectNameServer | Verdict::RedirectTunnel
            | Verdict::RedirectSplitTunnel => {
                match redirect_info {
                    Some(redirect_info) => {
                        // A clone is never injected when redirect validation or checksum
                        // reconstruction failed: the packet is dropped with this verdict
                        // instead of escaping unredirected.
                        let mut packet: Packet<H> = packet;
                        match packet.redirect(redirect_info) {
                            Ok(()) => {
                                self.inject_verdict_packet(packet, false);
                            },
                            Err(error) => {
                                self.record_redirect_error(error.as_str());
                            },
                        }
                    },
                    // The connection disappeared before its verdict was applied. An ALE
                    // pend is completed, but no packet without redirect state is injected.
                    None => {
                        self.record_redirect_error("redirect state is unavailable");
                        self.inject_verdict_packet(packet, true);
                    },
                }
            },
            _ => {
                self.inject_verdict_packet(packet, true);
            },
        }
    }

    /// Gives one exact connection generation a verdict.
    pub(crate) fn decide(&mut self, key: Key, instance_id: u64, verdict: Verdict, now: u64) -> (update:
        Option<ConnectionUpdate>)
        requires
            old(self).wf(),
        ensures
            final(self).wf(),
            final(self)@ == old(self)@.decided(key, instance_id, verdict, now),
            update is Some <==> old(self)@.has_instance(key, instance_id),
            update matches Some(u) ==> u.redirect_info == old(self)@.redirect_for(
                key,
                instance_id,
                verdict,
                now,
            ),
    {
        let update: Option<ConnectionUpdate> = self.connection_cache.update_connection_instance(
            key,
            instance_id,
            verdict,
            now,
        );
        assert(self@ =~= old(self)@.decided(key, instance_id, verdict, now));
        update
    }

    /// Applies the verdict of a claimed request.
    fn give(&mut self, pending: PendingPacket<H>, verdict: Verdict, now: u64)
        requires
            old(self).wf(),
        ensures
            final(self).wf(),
            final(self)@ == old(self)@.given(pending, verdict, now),
            final(self)@.queue == old(self)@.queue,
    {
        let survives: bool = pending.packet.survives_connection_end(&pending.key);
        let PendingPacket { key, packet, connection_instance_id } = pending;
        match connection_instance_id {
            None => {
                self.answer(packet, verdict, None);
            },
            Some(instance_id) => {
                let ghost before = self@;
                match self.decide(key, instance_id, verdict, now) {
                    Some(update) => {
                        self.answer(packet, verdict, update.redirect_info);
                    },
                    None => {
                        assert(self@ =~= before);
                        if survives {
                            // Endpoint closure does not revoke an outbound UDP datagram
                            // whose send already completed. The verdict is applied to this
                            // clone only, without caching it against a tuple that may
                            // already belong to a replacement socket.
                            self.answer(packet, verdict, None);
                        } else {
                            self.push_action(
                                Action::Inject { packet, blocked: true, reset_first: false },
                            );
                        }
                    },
                }
            },
        }
    }

    /// Answers one pending request. A request that is not waiting any more is recorded
    /// in the log.
    pub fn apply_verdict(&mut self, id: u64, verdict: Verdict, now: u64)
        requires
            old(self).wf(),
        ensures
            final(self).wf(),
            final(self)@ == old(self)@.verdict_applied(id, verdict, now),
    {
        let ghost before = self@;
        proof {
            self.packet_cache.ids_are_unique();
        }
        let popped: Option<PendingPacket<H>> = self.packet_cache.pop_id(id);
        match popped {
            Some(pending) => {
                proof {
                    lemma_queued_packet(before.queue, id, pending);
                    lemma_claim_keeps_cover(before, id, pending);
                    assert(self@ =~= before.claimed(id, pending));
                }
                self.give(pending, verdict, now);
                self.finish_pending_request(id, now);
            },
            None => {
                proof {
                    if queued_packet(before.queue, id) is Some {
                        let k = choose|k: int|
                            0 <= k < before.queue.len() && (#[trigger] before.queue[k]).id == id;
                        assert(request_ids(before.queue)[k] == id);
                    }
                }
                let mut text: Vec<u8> = Vec::new();
                push_text(&mut text, "Verdict invalid id: ");
                push_decimal(&mut text, id);
                assert(text@ =~= invalid_id_text(id));
                self.record_error(text.as_slice());
            },
        }
    }

    /// Changes the verdict of a tuple's live connection.
    pub fn apply_update(&mut self, key: Key, verdict: Verdict, now: u64)
        requires
            old(self).wf(),
        ensures
            final(self).wf(),
            final(self)@ == old(self)@.update_applied(key, verdict, now),
    {
        let _ = self.connection_cache.update_connection(key, verdict, now);
        // Packet-layer lookups observe cache updates on the next packet. ALE-authorized
        // flows need an explicit policy reauthorization.
        self.push_action(Action::ResetFilters);
        assert(self@ =~= old(self)@.update_applied(key, verdict, now));
    }
}

/// Reads the tuple that an IPv4 update selects.
pub fn read_update_key_v4(update: &UpdateV4) -> (key: Key)
    ensures
        key == update_key_v4(*update),
{
    proof {
        assert(update.local_address@.subrange(0, 4) =~= update.local_address@);
        assert(update.remote_address@.subrange(0, 4) =~= update.remote_address@);
    }
    Key {
        protocol: IpProtocol::from(update.protocol),
        local_address: IpAddress::Ipv4(
            Ipv4Address::from_bytes(array_as_slice(&update.local_address)),
        ),
        local_port: update.local_port,
        remote_address: IpAddress::Ipv4(
            Ipv4Address::from_bytes(array_as_slice(&update.remote_address)),
        ),
        remote_port: update.remote_port,
    }
}

/// Reads the tuple that an IPv6 update selects.
pub fn read_update_key_v6(update: &UpdateV6) -> (key: Key)
    ensures
        key == update_key_v6(*update),
{
    Key {
        protocol: IpProtocol::from(update.protocol),
        local_address: IpAddress::Ipv6(
            Ipv6Address::from_bytes(array_as_slice(&update.local_address)),
        ),
        local_port: update.local_port,
        remote_address: IpAddress::Ipv6(
            Ipv6Address::from_bytes(array_as_slice(&update.remote_address)),
        ),
        remote_port: update.remote_port,
    }
}

} // verus!

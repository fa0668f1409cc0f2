//! Looking connections up, and registering new ones.

use crate::connection::{
    AddressFamily, Connection, ConnectionError, ConnectionV4, ConnectionV6, Direction,
    RedirectInfo, Verdict,
};
use crate::connection_cache::{attributed, next_instance, ConnectionRegistration};
use crate::connection_map::{at, best_match, exact_match, map_push, map_set, MapView, Query};
use crate::device::Device;
use crate::device_state::DeviceView;
use crate::key::Key;
use vstd::prelude::*;

verus! {

/// What the callouts need to know of a connection.
#[derive(Clone, Copy, Debug, PartialEq, Eq, Structural)]
pub struct ConnectionInfo {
    pub verdict: Verdict,
    pub process_id: u64,
    pub direction: Direction,
    pub instance_id: u64,
    pub redirect_info: Option<RedirectInfo>,
}

impl ConnectionInfo {
    /// What the callouts need to know of a connection.
    pub open spec fn spec_from_connection<A: AddressFamily>(c: Connection<A>) -> ConnectionInfo {
        ConnectionInfo {
            verdict: c.verdict,
            process_id: c.process_id,
            direction: c.direction,
            instance_id: c.instance_id,
            redirect_info: c.spec_redirect_info(),
        }
    }

    /// Copies what the callouts need to know of a connection.
    pub fn from_connection<A: AddressFamily>(connection: &Connection<A>) -> (info: Self)
        ensures
            info == ConnectionInfo::spec_from_connection(*connection),
    {
        ConnectionInfo {
            verdict: connection.verdict,
            process_id: connection.process_id,
            direction: connection.direction,
            instance_id: connection.instance_id,
            redirect_info: connection.redirect_info(),
        }
    }
}

fn info_v4(connection: &ConnectionV4) -> (info: Option<ConnectionInfo>)
    ensures
        info == Some(ConnectionInfo::spec_from_connection(*connection)),
{
    Some(ConnectionInfo::from_connection(connection))
}

fn info_v6(connection: &ConnectionV6) -> (info: Option<ConnectionInfo>)
    ensures
        info == Some(ConnectionInfo::spec_from_connection(*connection)),
{
    Some(ConnectionInfo::from_connection(connection))
}

/// What is known of the connection that a read selects.
pub open spec fn selected_info<A: AddressFamily>(
    m: MapView<A>,
    key: Key,
    use_ended_fallback: bool,
) -> Option<ConnectionInfo> {
    match best_match(m, key, use_ended_fallback) {
        Some(place) => Some(ConnectionInfo::spec_from_connection(at(m, place))),
        None => None,
    }
}

/// The connections after a read refreshed the one that it selected.
pub open spec fn selected_refreshed<A: AddressFamily>(
    m: MapView<A>,
    key: Key,
    use_ended_fallback: bool,
    now: u64,
) -> MapView<A> {
    match best_match(m, key, use_ended_fallback) {
        Some(place) => map_set(m, place, at(m, place).spec_refreshed(now)),
        None => m,
    }
}

/// The connections after `c` was registered.
pub open spec fn with_registration<A: AddressFamily>(
    m: MapView<A>,
    c: Connection<A>,
    now: u64,
) -> MapView<A> {
    match exact_match(m, Query::live(c.spec_key())) {
        None => map_push(m, c),
        Some(place) => if at(m, place).instance_id == 0 {
            m
        } else {
            map_set(m, place, attributed(at(m, place).spec_refreshed(now), c.process_id))
        },
    }
}

/// The entry that registering `c` selects.
pub open spec fn selected_registration<A: AddressFamily>(
    m: MapView<A>,
    c: Connection<A>,
) -> ConnectionRegistration {
    match exact_match(m, Query::live(c.spec_key())) {
        None => ConnectionRegistration { inserted: true, instance_id: c.instance_id },
        Some(place) => ConnectionRegistration {
            inserted: false,
            instance_id: at(m, place).instance_id,
        },
    }
}

impl<H, C> DeviceView<H, C> {
    /// What is known of the connection of a tuple.
    pub open spec fn info(self, key: Key, ipv6: bool, use_ended_fallback: bool) -> Option<
        ConnectionInfo,
    > {
        if ipv6 {
            selected_info(self.connections_v6, key, use_ended_fallback)
        } else {
            selected_info(self.connections_v4, key, use_ended_fallback)
        }
    }

    /// The connection of a tuple was read.
    pub open spec fn looked_up(
        self,
        key: Key,
        ipv6: bool,
        use_ended_fallback: bool,
        now: u64,
    ) -> Self {
        if ipv6 {
            DeviceView {
                connections_v6: selected_refreshed(
                    self.connections_v6,
                    key,
                    use_ended_fallback,
                    now,
                ),
                ..self
            }
        } else {
            DeviceView {
                connections_v4: selected_refreshed(
                    self.connections_v4,
                    key,
                    use_ended_fallback,
                    now,
                ),
                ..self
            }
        }
    }

    /// The entry that registering a tuple selects, none for a tuple that mixes address
    /// families.
    pub open spec fn registration(
        self,
        key: Key,
        process_id: u64,
        direction: Direction,
        native_lifecycle: bool,
        now: u64,
    ) -> Option<ConnectionRegistration> {
        let id = self.next_instance;
        if key.spec_is_ipv6() {
            match ConnectionV6::spec_new(key, process_id, direction, native_lifecycle, id, now) {
                Some(c) => Some(selected_registration(self.connections_v6, c)),
                None => None,
            }
        } else {
            match ConnectionV4::spec_new(key, process_id, direction, native_lifecycle, id, now) {
                Some(c) => Some(selected_registration(self.connections_v4, c)),
                None => None,
            }
        }
    }

    /// A tuple was registered.
    pub open spec fn registered(
        self,
        key: Key,
        process_id: u64,
        direction: Direction,
        native_lifecycle: bool,
        now: u64,
    ) -> Self {
        let id = self.next_instance;
        if key.spec_is_ipv6() {
            match ConnectionV6::spec_new(key, process_id, direction, native_lifecycle, id, now) {
                Some(c) => DeviceView {
                    connections_v6: with_registration(self.connections_v6, c, now),
                    next_instance: next_instance(id),
                    ..self
                },
                None => self,
            }
        } else {
            match ConnectionV4::spec_new(key, process_id, direction, native_lifecycle, id, now) {
                Some(c) => DeviceView {
                    connections_v4: with_registration(self.connections_v4, c, now),
                    next_instance: next_instance(id),
                    ..self
                },
                None => self,
            }
        }
    }
}

impl<H, C> Device<H, C> {
    /// Reads the connection of a packet's tuple.
    ///
    /// A packet already in flight can arrive after endpoint closure. Ended entries count
    /// only for outbound packets, and only with `use_ended_fallback`: an inbound tuple can
    /// identify a new flow awaiting ALE authorization.
    pub fn get_connection_info(
        &mut self,
        key: &Key,
        ipv6: bool,
        packet_direction: Direction,
        use_ended_fallback: bool,
        now: u64,
    ) -> (info: Option<ConnectionInfo>)
        requires
            old(self).wf(),
        ensures
            final(self).wf(),
            ({
                let history = use_ended_fallback && packet_direction is Outbound;
                &&& info == old(self)@.info(*key, ipv6, history)
                &&& final(self)@ == old(self)@.looked_up(*key, ipv6, history, now)
            }),
    {
        let ghost history = use_ended_fallback && packet_direction is Outbound;
        let info: Option<ConnectionInfo> = if ipv6 {
            if use_ended_fallback {
                self.connection_cache.read_connection_v6_for_packet(
                    key,
                    packet_direction,
                    info_v6,
                    now,
                )
            } else {
                self.connection_cache.read_connection_v6(key, info_v6, now)
            }
        } else {
            if use_ended_fallback {
                self.connection_cache.read_connection_v4_for_packet(
                    key,
                    packet_direction,
                    info_v4,
                    now,
                )
            } else {
                self.connection_cache.read_connection_v4(key, info_v4, now)
            }
        };
        assert(self@ =~= old(self)@.looked_up(*key, ipv6, history, now));
        info
    }

    /// Registers a tuple, or selects its live connection.
    pub(crate) fn register(
        &mut self,
        key: &Key,
        process_id: u64,
        direction: Direction,
        native_lifecycle: bool,
        now: u64,
    ) -> (result: Result<ConnectionRegistration, ConnectionError>)
        requires
            old(self).wf(),
        ensures
            final(self).wf(),
            match old(self)@.registration(*key, process_id, direction, native_lifecycle, now) {
                Some(registration) => result == Ok::<ConnectionRegistration, ConnectionError>(
                    registration,
                ),
                None => result == Err::<ConnectionRegistration, ConnectionError>(
                    ConnectionError::AddressFamily,
                ),
            },
            final(self)@ == old(self)@.registered(
                *key,
                process_id,
                direction,
                native_lifecycle,
                now,
            ),
    {
        let result = if native_lifecycle {
            self.connection_cache.register_connection(key, process_id, direction, now)
        } else {
            self.connection_cache.register_untracked_connection(key, process_id, direction, now)
        };
        assert(self@ =~= old(self)@.registered(*key, process_id, direction, native_lifecycle, now));
        result
    }
}

/// A known connection whose verdict redirects packets has the state to do so: its packets
/// are never absorbed for want of it.
pub proof fn redirected_connection_has_its_target<H, C>(
    s: DeviceView<H, C>,
    key: Key,
    ipv6: bool,
    use_ended_fallback: bool,
)
    ensures
        s.info(key, ipv6, use_ended_fallback) matches Some(info) ==> (info.redirect_info is Some
            <==> info.verdict.spec_is_redirect()),
{
}

} // verus!

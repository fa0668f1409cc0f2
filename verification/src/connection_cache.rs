//! The connections of both address families.

use crate::connection::{
    AddressFamily, Connection, ConnectionError, ConnectionV4, ConnectionV6, Direction, RedirectInfo,
    Verdict,
};
use crate::connection_laws::lemma_first_unique;
use crate::connection_map::{
    at, best_match, capped, earlier, endpoint_ended, exact_match, generations, group_key,
    instance_match, is_first, live_instance, live_instance_matching, live_udp_ids, live_untracked,
    map_applied, map_push, map_retained, map_sequence, map_set, ConnectionMap, MapView, Query,
    Selection, ENDED_GRACE_MS, UNTRACKED_IDLE_TIMEOUT_MS,
};
use crate::ip::{IpAddress, IpProtocol, Ipv4Address, Ipv6Address};
use crate::key::Key;
use crate::lists::{sort_unstable, sorted};
use vstd::prelude::*;

verus! {

/// Which cache entry a registration selected.
#[derive(Clone, Copy, Debug, PartialEq, Eq, Structural)]
pub struct ConnectionRegistration {
    pub inserted: bool,
    pub instance_id: u64,
}

/// Result of applying a verdict to one exact live cache instance.
#[derive(Clone, Copy, Debug, PartialEq, Eq, Structural)]
pub struct ConnectionUpdate {
    pub redirect_info: Option<RedirectInfo>,
}

/// PID of the System process, which owns what no application can be named for.
pub const SYSTEM_PROCESS_ID: u64 = 4;

/// The incoming PID is more useful than the stored one.
pub open spec fn attributes(stored: u64, incoming: u64) -> bool {
    incoming != 0 && (stored == 0 || incoming != SYSTEM_PROCESS_ID)
}

/// The PID that remains after merging attribution.
pub open spec fn merged(stored: u64, incoming: u64) -> u64 {
    if attributes(stored, incoming) {
        incoming
    } else {
        stored
    }
}

/// Merges process attribution using the same precedence for registration and
/// later flow-established updates.
///
/// PID 0 carries no attribution. PID 4 (System) can fill an unknown entry but
/// must not replace a concrete application PID. Any other concrete PID is the
/// most useful attribution currently available.
pub fn merge_process_id(stored: &mut u64, incoming: u64) -> (changed: bool)
    ensures
        changed == attributes(*old(stored), incoming),
        *final(stored) == merged(*old(stored), incoming),
{
    if incoming != 0 && (*stored == 0 || incoming != SYSTEM_PROCESS_ID) {
        *stored = incoming;
        return true;
    }
    false
}

/// Merging never loses an attribution, and an application's PID survives any number of
/// System and unknown reports.
pub proof fn attribution_is_kept(stored: u64, incoming: u64)
    ensures
        stored != 0 ==> merged(stored, incoming) != 0,
        merged(stored, 0) == stored,
        stored != 0 ==> merged(stored, SYSTEM_PROCESS_ID) == stored,
        merged(merged(stored, incoming), incoming) == merged(stored, incoming),
{
}

/// A connection with merged process attribution.
pub open spec fn attributed<A>(c: Connection<A>, process_id: u64) -> Connection<A> {
    Connection { process_id: merged(c.process_id, process_id), ..c }
}

/// What registering `c` leaves and returns: a tuple without a live connection gets `c`,
/// and the live connection of any other tuple merges its process attribution.
pub open spec fn registered<A: AddressFamily>(
    before: MapView<A>,
    after: MapView<A>,
    c: Connection<A>,
    now: u64,
    registration: ConnectionRegistration,
) -> bool {
    match exact_match(before, Query::live(c.spec_key())) {
        None => {
            &&& registration == ConnectionRegistration { inserted: true, instance_id: c.instance_id }
            &&& after == map_push(before, c)
        },
        Some(place) => {
            let existing = at(before, place);
            &&& registration == ConnectionRegistration {
                inserted: false,
                instance_id: existing.instance_id,
            }
            &&& after == if existing.instance_id == 0 {
                before
            } else {
                map_set(before, place, attributed(existing.spec_refreshed(now), c.process_id))
            }
        },
    }
}

/// What a read leaves, and what it returns: the answer of `process_connection` about
/// the selected connection.
pub open spec fn read_by<A: AddressFamily, T, F: Fn(&Connection<A>) -> Option<T>>(
    before: MapView<A>,
    after: MapView<A>,
    key: Key,
    use_ended_fallback: bool,
    now: u64,
    process_connection: F,
    result: Option<T>,
) -> bool {
    match best_match(before, key, use_ended_fallback) {
        Some(place) => {
            let c = at(before, place).spec_refreshed(now);
            &&& after == map_set(before, place, c)
            &&& call_ensures(process_connection, (&c,), result)
        },
        None => result is None && after == before,
    }
}

/// The instance ID of the connection that a read without history selects.
pub open spec fn current_instance<A: AddressFamily>(m: MapView<A>, key: Key) -> Option<u64> {
    match best_match(m, key, false) {
        Some(place) => Some(at(m, place).instance_id),
        None => None,
    }
}

/// What reading the current connection leaves.
pub open spec fn current_refreshed<A: AddressFamily>(m: MapView<A>, key: Key, now: u64) -> MapView<
    A,
> {
    match best_match(m, key, false) {
        Some(place) => map_set(m, place, at(m, place).spec_refreshed(now)),
        None => m,
    }
}

/// What applying a verdict to one exact instance leaves and returns.
pub open spec fn instance_updated<A: AddressFamily>(
    before: MapView<A>,
    after: MapView<A>,
    key: Key,
    instance_id: u64,
    verdict: Verdict,
    now: u64,
    update: Option<ConnectionUpdate>,
) -> bool {
    match instance_match(before, key, instance_id) {
        Some(place) => {
            let c = Connection { verdict, ..at(before, place).spec_refreshed(now) };
            &&& update == Some(ConnectionUpdate { redirect_info: c.spec_redirect_info() })
            &&& after == map_set(before, place, c)
        },
        None => update is None && after == before,
    }
}

/// What applying a verdict to a tuple's live connection leaves and returns.
pub open spec fn tuple_updated<A: AddressFamily>(
    before: MapView<A>,
    after: MapView<A>,
    key: Key,
    verdict: Verdict,
    now: u64,
    redirect_info: Option<RedirectInfo>,
) -> bool {
    match exact_match(before, Query::live(key)) {
        Some(place) => {
            let c = Connection { verdict, ..at(before, place).spec_refreshed(now) };
            &&& redirect_info == c.spec_redirect_info()
            &&& after == map_set(before, place, c)
        },
        None => redirect_info is None && after == before,
    }
}

/// What merging attribution into one exact instance leaves and returns.
pub open spec fn instance_attributed<A: AddressFamily>(
    before: MapView<A>,
    after: MapView<A>,
    key: Key,
    instance_id: u64,
    process_id: u64,
    now: u64,
    changed: bool,
) -> bool {
    match instance_match(before, key, instance_id) {
        Some(place) if process_id != 0 => {
            let c = at(before, place).spec_refreshed(now);
            &&& changed == attributes(c.process_id, process_id)
            &&& after == map_set(before, place, attributed(c, process_id))
        },
        _ => !changed && after == before,
    }
}

/// What ending one exact live instance leaves and returns.
pub open spec fn instance_ended<A: AddressFamily>(
    before: MapView<A>,
    after: MapView<A>,
    key: Key,
    instance_id: u64,
    now: u64,
    ended: Option<Connection<A>>,
) -> bool {
    match ended {
        Some(c) => {
            let place = exact_match(before, Query::instance(key, instance_id))->Some_0;
            &&& live_instance(before, key, instance_id)
            &&& c == at(before, place).spec_ended(now)
            &&& after == map_set(before, place, c)
        },
        None => !live_instance(before, key, instance_id) && after == before,
    }
}

/// The connections after one exact instance got a verdict.
pub open spec fn with_verdict<A: AddressFamily>(
    m: MapView<A>,
    key: Key,
    instance_id: u64,
    verdict: Verdict,
    now: u64,
) -> MapView<A> {
    match instance_match(m, key, instance_id) {
        Some(place) => map_set(
            m,
            place,
            Connection { verdict, ..at(m, place).spec_refreshed(now) },
        ),
        None => m,
    }
}

/// The redirection that a verdict gives to one exact instance.
pub open spec fn verdict_redirect<A: AddressFamily>(
    m: MapView<A>,
    key: Key,
    instance_id: u64,
    verdict: Verdict,
    now: u64,
) -> Option<RedirectInfo> {
    let place = instance_match(m, key, instance_id)->Some_0;
    let c: Connection<A> = Connection { verdict, ..at(m, place).spec_refreshed(now) };
    c.spec_redirect_info()
}

/// The connections after a tuple's live connection got a verdict.
pub open spec fn with_tuple_verdict<A: AddressFamily>(
    m: MapView<A>,
    key: Key,
    verdict: Verdict,
    now: u64,
) -> MapView<A> {
    match exact_match(m, Query::live(key)) {
        Some(place) => map_set(
            m,
            place,
            Connection { verdict, ..at(m, place).spec_refreshed(now) },
        ),
        None => m,
    }
}

/// The connection that ending one exact instance reports.
pub open spec fn ended_connection<A: AddressFamily>(
    m: MapView<A>,
    key: Key,
    instance_id: u64,
    now: u64,
) -> Option<Connection<A>> {
    if live_instance(m, key, instance_id) {
        Some(at(m, exact_match(m, Query::instance(key, instance_id))->Some_0).spec_ended(now))
    } else {
        None
    }
}

/// The instance ID of an exact tuple's live connection.
pub open spec fn exact_instance<A: AddressFamily>(m: MapView<A>, key: Key) -> Option<u64> {
    match exact_match(m, Query::live(key)) {
        Some(place) => Some(at(m, place).instance_id),
        None => None,
    }
}

/// The process that owns one exact live instance, zero for none.
pub open spec fn live_owner<A: AddressFamily>(m: MapView<A>, key: Key, instance_id: u64) -> u64 {
    match ended_connection(m, key, instance_id, 0) {
        Some(c) => c.process_id,
        None => 0,
    }
}

/// The connections after one exact instance ended.
pub open spec fn with_end<A: AddressFamily>(
    m: MapView<A>,
    key: Key,
    instance_id: u64,
    now: u64,
) -> MapView<A> {
    match ended_connection(m, key, instance_id, now) {
        Some(c) => map_set(m, exact_match(m, Query::instance(key, instance_id))->Some_0, c),
        None => m,
    }
}

/// The live connection of a tuple is what its own instance ID reaches.
pub proof fn live_entry_is_its_instance<A: AddressFamily>(m: MapView<A>, key: Key)
    ensures
        exact_match(m, Query::live(key)) matches Some(place) ==> at(m, place).instance_id != 0
            ==> instance_match(m, key, at(m, place).instance_id) == Some(place),
{
    if let Some(place) = exact_match(m, Query::live(key)) {
        let id = at(m, place).instance_id;
        let q = Query::instance(key, id);
        let s = generations(m, key);
        let i = place.2;
        assert(is_first(s, Query::live(key), i));
        assert forall|j: int| 0 <= j < i implies !q.accepts(#[trigger] s[j]) by {
            assert(!Query::live(key).accepts(s[j]));
        }
        assert(is_first(s, q, i));
        lemma_first_unique(s, q, i);
    }
}

fn register<A: AddressFamily>(
    connections: &mut ConnectionMap<A>,
    connection: Connection<A>,
    now: u64,
) -> (registration: ConnectionRegistration)
    requires
        old(connections).wf(),
    ensures
        final(connections).wf(),
        registered(old(connections)@, final(connections)@, connection, now, registration),
{
    let ghost m = connections@;
    let key: Key = connection.get_key();
    let process_id: u64 = connection.process_id;
    match connections.insert_if_absent(connection) {
        Ok(instance_id) => ConnectionRegistration { inserted: true, instance_id },
        Err((_, instance_id)) => {
            proof {
                live_entry_is_its_instance(m, key);
            }
            if let Some(existing) = connections.get_mut_instance(&key, instance_id, now) {
                let mut owner: u64 = existing.process_id;
                merge_process_id(&mut owner, process_id);
                existing.process_id = owner;
            }
            ConnectionRegistration { inserted: false, instance_id }
        },
    }
}

fn set_verdict<A: AddressFamily>(
    connections: &mut ConnectionMap<A>,
    key: &Key,
    verdict: Verdict,
    now: u64,
) -> (redirect_info: Option<RedirectInfo>)
    requires
        old(connections).wf(),
    ensures
        final(connections).wf(),
        tuple_updated(old(connections)@, final(connections)@, *key, verdict, now, redirect_info),
{
    match connections.get_mut(key, now) {
        Some(connection) => {
            connection.verdict = verdict;
            connection.redirect_info()
        },
        None => None,
    }
}

fn set_instance_verdict<A: AddressFamily>(
    connections: &mut ConnectionMap<A>,
    key: &Key,
    instance_id: u64,
    verdict: Verdict,
    now: u64,
) -> (update: Option<ConnectionUpdate>)
    requires
        old(connections).wf(),
    ensures
        final(connections).wf(),
        instance_updated(
            old(connections)@,
            final(connections)@,
            *key,
            instance_id,
            verdict,
            now,
            update,
        ),
{
    match connections.get_mut_instance(key, instance_id, now) {
        Some(connection) => {
            connection.verdict = verdict;
            Some(ConnectionUpdate { redirect_info: connection.redirect_info() })
        },
        None => None,
    }
}

fn attribute_instance<A: AddressFamily>(
    connections: &mut ConnectionMap<A>,
    key: &Key,
    instance_id: u64,
    process_id: u64,
    now: u64,
) -> (changed: bool)
    requires
        old(connections).wf(),
    ensures
        final(connections).wf(),
        instance_attributed(
            old(connections)@,
            final(connections)@,
            *key,
            instance_id,
            process_id,
            now,
            changed,
        ),
{
    if process_id == 0 {
        return false;
    }
    match connections.get_mut_instance(key, instance_id, now) {
        Some(connection) => {
            let mut owner: u64 = connection.process_id;
            let changed: bool = merge_process_id(&mut owner, process_id);
            connection.process_id = owner;
            changed
        },
        None => false,
    }
}

fn instance_id_of<A: AddressFamily>(connection: &Connection<A>) -> (id: Option<u64>)
    ensures
        id == Some(connection.instance_id),
{
    Some(connection.get_instance_id())
}

/// The instance ID after `id`. Zero is never one.
pub open spec fn next_instance(id: u64) -> u64 {
    if id == u64::MAX {
        1
    } else {
        (id + 1) as u64
    }
}

/// Connection cache with one map per address family.
///
/// Each map changes only while its caller holds it exclusively, so that what one
/// operation checks and what it then changes cannot be separated.
pub struct ConnectionCache {
    connections_v4: ConnectionMap<Ipv4Address>,
    connections_v6: ConnectionMap<Ipv6Address>,
    next_instance_id: u64,
}

impl ConnectionCache {
    /// The IPv4 connections.
    pub closed spec fn v4(&self) -> MapView<Ipv4Address> {
        self.connections_v4@
    }

    /// The IPv6 connections.
    pub closed spec fn v6(&self) -> MapView<Ipv6Address> {
        self.connections_v6@
    }

    /// The ID that the next connection gets.
    pub closed spec fn next_id(&self) -> u64 {
        self.next_instance_id
    }

    /// Both maps are well formed, and the next ID is one.
    pub closed spec fn wf(&self) -> bool {
        self.connections_v4.wf() && self.connections_v6.wf() && self.next_instance_id != 0
    }

    /// Creates an empty cache.
    pub fn new() -> (cache: Self)
        ensures
            cache.wf(),
            cache.v4() == MapView::<Ipv4Address>::empty(),
            cache.v6() == MapView::<Ipv6Address>::empty(),
            cache.next_id() == 1,
    {
        ConnectionCache {
            connections_v4: ConnectionMap::new(),
            connections_v6: ConnectionMap::new(),
            next_instance_id: 1,
        }
    }

    /// Returns the existing live connection or inserts a new one.
    ///
    /// If another callback won the race, its verdict and instance ID are preserved
    /// while any more useful process attribution is merged from the rejected
    /// candidate. The returned instance ID belongs to the entry selected by this
    /// operation. Callers must carry it into endpoint and pending-packet state rather
    /// than looking the tuple up again.
    pub fn register_connection(
        &mut self,
        key: &Key,
        process_id: u64,
        direction: Direction,
        now: u64,
    ) -> (result: Result<ConnectionRegistration, ConnectionError>)
        requires
            old(self).wf(),
        ensures
            final(self).wf(),
            cache_registered(*old(self), *final(self), *key, process_id, direction, true, now, result),
    {
        self.register(key, process_id, direction, true, now)
    }

    /// Registers a connection whose end no native lifecycle event will report.
    pub fn register_untracked_connection(
        &mut self,
        key: &Key,
        process_id: u64,
        direction: Direction,
        now: u64,
    ) -> (result: Result<ConnectionRegistration, ConnectionError>)
        requires
            old(self).wf(),
        ensures
            final(self).wf(),
            cache_registered(*old(self), *final(self), *key, process_id, direction, false, now, result),
    {
        self.register(key, process_id, direction, false, now)
    }

    fn register(
        &mut self,
        key: &Key,
        process_id: u64,
        direction: Direction,
        native_lifecycle: bool,
        now: u64,
    ) -> (result: Result<ConnectionRegistration, ConnectionError>)
        requires
            old(self).wf(),
        ensures
            final(self).wf(),
            cache_registered(
                *old(self),
                *final(self),
                *key,
                process_id,
                direction,
                native_lifecycle,
                now,
                result,
            ),
    {
        let id: u64 = self.next_instance_id;
        let next: u64 = if id == u64::MAX {
            1
        } else {
            id + 1
        };
        if key.is_ipv6() {
            let built = if native_lifecycle {
                ConnectionV6::from_key(key, process_id, direction, id, now)
            } else {
                ConnectionV6::from_untracked_key(key, process_id, direction, id, now)
            };
            match built {
                Ok(connection) => {
                    self.next_instance_id = next;
                    Ok(register(&mut self.connections_v6, connection, now))
                },
                Err(error) => Err(error),
            }
        } else {
            let built = if native_lifecycle {
                ConnectionV4::from_key(key, process_id, direction, id, now)
            } else {
                ConnectionV4::from_untracked_key(key, process_id, direction, id, now)
            };
            match built {
                Ok(connection) => {
                    self.next_instance_id = next;
                    Ok(register(&mut self.connections_v4, connection, now))
                },
                Err(error) => Err(error),
            }
        }
    }

    /// The exact tuple has a live connection with this instance ID.
    pub open spec fn live(&self, key: Key, instance_id: u64) -> bool {
        if key.spec_is_ipv6() {
            live_instance(self.v6(), key, instance_id)
        } else {
            live_instance(self.v4(), key, instance_id)
        }
    }

    /// A live connection with this instance ID has the tuple, or its redirect target
    /// has it.
    pub open spec fn live_matching(&self, key: Key, instance_id: u64) -> bool {
        if key.spec_is_ipv6() {
            live_instance_matching(self.v6(), key, instance_id)
        } else {
            live_instance_matching(self.v4(), key, instance_id)
        }
    }

    /// Runs `use_instance` only while the exact cache instance is still live.
    pub fn with_live_connection_instance<T>(
        &self,
        key: &Key,
        instance_id: u64,
        use_instance: impl FnOnce(u64) -> Option<T>,
    ) -> (result: Option<T>)
        requires
            self.wf(),
            call_requires(use_instance, (instance_id,)),
        ensures
            self.live(*key, instance_id) ==> call_ensures(use_instance, (instance_id,), result),
            !self.live(*key, instance_id) ==> result is None,
    {
        let live: bool = if key.is_ipv6() {
            self.connections_v6.has_live_instance(key, instance_id)
        } else {
            self.connections_v4.has_live_instance(key, instance_id)
        };
        if live {
            use_instance(instance_id)
        } else {
            None
        }
    }

    /// Runs `use_instance` only while the exact cache generation matching a packet
    /// key is still live.
    ///
    /// Unlike the endpoint-oriented method above, this accepts a reverse-redirect
    /// key. The cache stays borrowed while `use_instance` publishes both the pending
    /// packet and its userspace event. A lifecycle end needs the cache exclusively, so
    /// it cannot emit END between validation and publication.
    pub fn with_live_connection_instance_matching<T, R>(
        &self,
        key: &Key,
        instance_id: u64,
        value: T,
        use_instance: impl FnOnce(u64, T) -> R,
    ) -> (result: Result<R, T>)
        requires
            self.wf(),
            call_requires(use_instance, (instance_id, value)),
        ensures
            match result {
                Ok(r) => self.live_matching(*key, instance_id) && call_ensures(
                    use_instance,
                    (instance_id, value),
                    r,
                ),
                Err(v) => !self.live_matching(*key, instance_id) && v == value,
            },
    {
        if self.has_live_instance_matching(key, instance_id) {
            Ok(use_instance(instance_id, value))
        } else {
            Err(value)
        }
    }

    /// Whether the exact cache generation matching a packet key is live.
    pub fn has_live_instance_matching(&self, key: &Key, instance_id: u64) -> (r: bool)
        requires
            self.wf(),
        ensures
            r == self.live_matching(*key, instance_id),
    {
        if key.is_ipv6() {
            self.connections_v6.has_live_instance_matching(key, instance_id)
        } else {
            self.connections_v4.has_live_instance_matching(key, instance_id)
        }
    }

    /// Updates attribution on one exact live cache instance.
    ///
    /// A flow-established callback may arrive after the tuple has been reused.
    /// When its instance was learned from endpoint state, it must not update the
    /// replacement entry selected by a tuple-only lookup.
    pub fn update_process_id_instance(
        &mut self,
        key: &Key,
        instance_id: u64,
        process_id: u64,
        now: u64,
    ) -> (changed: bool)
        requires
            old(self).wf(),
        ensures
            final(self).wf(),
            final(self).next_id() == old(self).next_id(),
            if key.spec_is_ipv6() {
                final(self).v4() == old(self).v4() && instance_attributed(
                    old(self).v6(),
                    final(self).v6(),
                    *key,
                    instance_id,
                    process_id,
                    now,
                    changed,
                )
            } else {
                final(self).v6() == old(self).v6() && instance_attributed(
                    old(self).v4(),
                    final(self).v4(),
                    *key,
                    instance_id,
                    process_id,
                    now,
                    changed,
                )
            },
    {
        if key.is_ipv6() {
            attribute_instance(&mut self.connections_v6, key, instance_id, process_id, now)
        } else {
            attribute_instance(&mut self.connections_v4, key, instance_id, process_id, now)
        }
    }

    /// Returns the instance ID of the current live entry.
    pub fn get_connection_instance_id(&mut self, key: &Key, now: u64) -> (id: Option<u64>)
        requires
            old(self).wf(),
        ensures
            final(self).wf(),
            final(self).next_id() == old(self).next_id(),
            if key.spec_is_ipv6() {
                &&& id == current_instance(old(self).v6(), *key)
                &&& final(self).v6() == current_refreshed(old(self).v6(), *key, now)
                &&& final(self).v4() == old(self).v4()
            } else {
                &&& id == current_instance(old(self).v4(), *key)
                &&& final(self).v4() == current_refreshed(old(self).v4(), *key, now)
                &&& final(self).v6() == old(self).v6()
            },
    {
        if key.is_ipv6() {
            self.read_connection_v6(key, instance_id_of::<Ipv6Address>, now)
        } else {
            self.read_connection_v4(key, instance_id_of::<Ipv4Address>, now)
        }
    }

    /// Returns the instance ID of an exact tuple's live connection without refreshing it.
    pub fn live_instance_id(&self, key: &Key) -> (id: Option<u64>)
        requires
            self.wf(),
        ensures
            id == if key.spec_is_ipv6() {
                exact_instance(self.v6(), *key)
            } else {
                exact_instance(self.v4(), *key)
            },
    {
        if key.is_ipv6() {
            self.connections_v6.live_instance_id(key)
        } else {
            self.connections_v4.live_instance_id(key)
        }
    }

    /// Refreshes one exact live cache instance.
    pub fn touch_connection_instance(&mut self, key: &Key, instance_id: u64, now: u64) -> (touched:
        bool)
        requires
            old(self).wf(),
        ensures
            final(self).wf(),
            final(self).next_id() == old(self).next_id(),
            if key.spec_is_ipv6() {
                &&& final(self).v4() == old(self).v4()
                &&& touched == (instance_match(old(self).v6(), *key, instance_id) is Some)
                &&& final(self).v6() == if touched {
                    let place = instance_match(old(self).v6(), *key, instance_id)->Some_0;
                    map_set(old(self).v6(), place, at(old(self).v6(), place).spec_refreshed(now))
                } else {
                    old(self).v6()
                }
            } else {
                &&& final(self).v6() == old(self).v6()
                &&& touched == (instance_match(old(self).v4(), *key, instance_id) is Some)
                &&& final(self).v4() == if touched {
                    let place = instance_match(old(self).v4(), *key, instance_id)->Some_0;
                    map_set(old(self).v4(), place, at(old(self).v4(), place).spec_refreshed(now))
                } else {
                    old(self).v4()
                }
            },
    {
        if key.is_ipv6() {
            self.connections_v6.touch_instance(key, instance_id, now)
        } else {
            self.connections_v4.touch_instance(key, instance_id, now)
        }
    }

    /// Applies a verdict to the live connection of an exact tuple.
    pub fn update_connection(&mut self, key: Key, verdict: Verdict, now: u64) -> (redirect_info:
        Option<RedirectInfo>)
        requires
            old(self).wf(),
        ensures
            final(self).wf(),
            final(self).next_id() == old(self).next_id(),
            if key.spec_is_ipv6() {
                final(self).v4() == old(self).v4() && tuple_updated(
                    old(self).v6(),
                    final(self).v6(),
                    key,
                    verdict,
                    now,
                    redirect_info,
                )
            } else {
                final(self).v6() == old(self).v6() && tuple_updated(
                    old(self).v4(),
                    final(self).v4(),
                    key,
                    verdict,
                    now,
                    redirect_info,
                )
            },
    {
        if key.is_ipv6() {
            set_verdict(&mut self.connections_v6, &key, verdict, now)
        } else {
            set_verdict(&mut self.connections_v4, &key, verdict, now)
        }
    }

    /// Applies a pending verdict only to the cache instance that queued it.
    ///
    /// An endpoint can close while user space is deciding, and the same five-tuple
    /// can then be reused. Matching the instance ID prevents that delayed verdict
    /// from changing the replacement connection's policy.
    pub fn update_connection_instance(
        &mut self,
        key: Key,
        instance_id: u64,
        verdict: Verdict,
        now: u64,
    ) -> (update: Option<ConnectionUpdate>)
        requires
            old(self).wf(),
        ensures
            final(self).wf(),
            final(self).next_id() == old(self).next_id(),
            cache_instance_updated(
                *old(self),
                *final(self),
                key,
                instance_id,
                verdict,
                now,
                update,
            ),
    {
        if key.is_ipv6() {
            set_instance_verdict(&mut self.connections_v6, &key, instance_id, verdict, now)
        } else {
            set_instance_verdict(&mut self.connections_v4, &key, instance_id, verdict, now)
        }
    }

    /// Reads a live IPv4 connection. Ended entries are not current connection
    /// state and are ignored by ALE and update paths.
    pub fn read_connection_v4<T, F: Fn(&ConnectionV4) -> Option<T>>(
        &mut self,
        key: &Key,
        process_connection: F,
        now: u64,
    ) -> (result: Option<T>)
        requires
            old(self).wf(),
            forall|c: ConnectionV4| #[trigger] call_requires(process_connection, (&c,)),
        ensures
            final(self).wf(),
            final(self).v6() == old(self).v6(),
            final(self).next_id() == old(self).next_id(),
            read_by(
                old(self).v4(),
                final(self).v4(),
                *key,
                false,
                now,
                process_connection,
                result,
            ),
    {
        self.connections_v4.read(key, process_connection, now)
    }

    /// Reads a live IPv6 connection. Ended entries are not current connection
    /// state and are ignored by ALE and update paths.
    pub fn read_connection_v6<T, F: Fn(&ConnectionV6) -> Option<T>>(
        &mut self,
        key: &Key,
        process_connection: F,
        now: u64,
    ) -> (result: Option<T>)
        requires
            old(self).wf(),
            forall|c: ConnectionV6| #[trigger] call_requires(process_connection, (&c,)),
        ensures
            final(self).wf(),
            final(self).v4() == old(self).v4(),
            final(self).next_id() == old(self).next_id(),
            read_by(
                old(self).v6(),
                final(self).v6(),
                *key,
                false,
                now,
                process_connection,
                result,
            ),
    {
        self.connections_v6.read(key, process_connection, now)
    }

    /// Reads IPv4 policy for one packet indication. Inbound lookups use live
    /// state only so a retained tuple cannot shadow a new flow before ALE
    /// authorization; outbound lookups may use ended history for packets already
    /// in flight after closure.
    pub fn read_connection_v4_for_packet<T, F: Fn(&ConnectionV4) -> Option<T>>(
        &mut self,
        key: &Key,
        packet_direction: Direction,
        process_connection: F,
        now: u64,
    ) -> (result: Option<T>)
        requires
            old(self).wf(),
            forall|c: ConnectionV4| #[trigger] call_requires(process_connection, (&c,)),
        ensures
            final(self).wf(),
            final(self).v6() == old(self).v6(),
            final(self).next_id() == old(self).next_id(),
            read_by(
                old(self).v4(),
                final(self).v4(),
                *key,
                packet_direction is Outbound,
                now,
                process_connection,
                result,
            ),
    {
        self.connections_v4.read_for_packet(key, packet_direction, process_connection, now)
    }

    /// IPv6 counterpart of [`Self::read_connection_v4_for_packet`].
    pub fn read_connection_v6_for_packet<T, F: Fn(&ConnectionV6) -> Option<T>>(
        &mut self,
        key: &Key,
        packet_direction: Direction,
        process_connection: F,
        now: u64,
    ) -> (result: Option<T>)
        requires
            old(self).wf(),
            forall|c: ConnectionV6| #[trigger] call_requires(process_connection, (&c,)),
        ensures
            final(self).wf(),
            final(self).v4() == old(self).v4(),
            final(self).next_id() == old(self).next_id(),
            read_by(
                old(self).v6(),
                final(self).v6(),
                *key,
                packet_direction is Outbound,
                now,
                process_connection,
                result,
            ),
    {
        self.connections_v6.read_for_packet(key, packet_direction, process_connection, now)
    }

    /// Ends one exact IPv4 cache instance.
    pub fn end_connection_instance_v4(&mut self, key: Key, instance_id: u64, now: u64) -> (ended:
        Option<ConnectionV4>)
        requires
            old(self).wf(),
        ensures
            final(self).wf(),
            final(self).v6() == old(self).v6(),
            final(self).next_id() == old(self).next_id(),
            instance_ended(old(self).v4(), final(self).v4(), key, instance_id, now, ended),
    {
        self.connections_v4.end_instance(key, instance_id, now)
    }

    /// Ends one exact IPv6 cache instance.
    pub fn end_connection_instance_v6(&mut self, key: Key, instance_id: u64, now: u64) -> (ended:
        Option<ConnectionV6>)
        requires
            old(self).wf(),
        ensures
            final(self).wf(),
            final(self).v4() == old(self).v4(),
            final(self).next_id() == old(self).next_id(),
            instance_ended(old(self).v6(), final(self).v6(), key, instance_id, now, ended),
    {
        self.connections_v6.end_instance(key, instance_id, now)
    }

    /// Ends the live IPv4 connections of one local endpoint.
    pub fn end_all_on_endpoint_v4(
        &mut self,
        key: (IpProtocol, u16),
        local_address: Option<IpAddress>,
        process_id: Option<u64>,
        now: u64,
    ) -> (ended: Option<Vec<ConnectionV4>>)
        requires
            old(self).wf(),
        ensures
            final(self).wf(),
            final(self).v6() == old(self).v6(),
            final(self).next_id() == old(self).next_id(),
            endpoint_ended(
                old(self).v4(),
                final(self).v4(),
                group_key(key),
                (Selection::Endpoint { local_address, process_id, untracked_only: false }),
                now,
                ended,
            ),
    {
        self.connections_v4.end_all_on_endpoint(key, local_address, process_id, now)
    }

    /// Ends the live IPv6 connections of one local endpoint.
    pub fn end_all_on_endpoint_v6(
        &mut self,
        key: (IpProtocol, u16),
        local_address: Option<IpAddress>,
        process_id: Option<u64>,
        now: u64,
    ) -> (ended: Option<Vec<ConnectionV6>>)
        requires
            old(self).wf(),
        ensures
            final(self).wf(),
            final(self).v4() == old(self).v4(),
            final(self).next_id() == old(self).next_id(),
            endpoint_ended(
                old(self).v6(),
                final(self).v6(),
                group_key(key),
                (Selection::Endpoint { local_address, process_id, untracked_only: false }),
                now,
                ended,
            ),
    {
        self.connections_v6.end_all_on_endpoint(key, local_address, process_id, now)
    }

    /// Removes retained ended history after its late-packet grace period.
    pub fn clean_ended_connections(&mut self, now: u64)
        requires
            old(self).wf(),
        ensures
            final(self).wf(),
            final(self).next_id() == old(self).next_id(),
            final(self).v4() == map_retained(old(self).v4(), earlier(now, ENDED_GRACE_MS)),
            final(self).v6() == map_retained(old(self).v6(), earlier(now, ENDED_GRACE_MS)),
    {
        self.connections_v4.clean_ended_connections(now);
        self.connections_v6.clean_ended_connections(now);
    }

    /// Ends outbound fallback connections after a minute of silence.
    pub fn end_inactive_untracked_connections(&mut self, now: u64) -> (ended: (
        Vec<ConnectionV4>,
        Vec<ConnectionV6>,
    ))
        requires
            old(self).wf(),
        ensures
            final(self).wf(),
            final(self).next_id() == old(self).next_id(),
            ({
                let idle = Selection::Idle { cutoff: earlier(now, UNTRACKED_IDLE_TIMEOUT_MS) };
                &&& final(self).v4() == map_applied(old(self).v4(), idle, now)
                &&& final(self).v6() == map_applied(old(self).v6(), idle, now)
                &&& ended.0@ == idle.reported(map_sequence(old(self).v4()), now)
                &&& ended.1@ == idle.reported(map_sequence(old(self).v6()), now)
            }),
    {
        let v4: Vec<ConnectionV4> = self.connections_v4.end_inactive_untracked_connections(now);
        let v6: Vec<ConnectionV6> = self.connections_v6.end_inactive_untracked_connections(now);
        (v4, v6)
    }

    /// Returns a sorted snapshot of every live UDP connection-cache instance ID
    /// without refreshing connection activity.
    pub fn live_udp_instance_ids(&self) -> (ids: Vec<u64>)
        requires
            self.wf(),
        ensures
            sorted(ids@),
            ids@.to_multiset() == (live_udp_ids(map_sequence(self.v4())) + live_udp_ids(
                map_sequence(self.v6()),
            )).to_multiset(),
    {
        let mut instance_ids: Vec<u64> = Vec::new();
        self.connections_v4.append_live_udp_instance_ids(&mut instance_ids);
        self.connections_v6.append_live_udp_instance_ids(&mut instance_ids);
        assert(instance_ids@ =~= live_udp_ids(map_sequence(self.v4())) + live_udp_ids(
            map_sequence(self.v6()),
        ));
        sort_unstable(&mut instance_ids);
        instance_ids
    }

    /// Forgets every connection of both families.
    pub fn clear(&mut self)
        requires
            old(self).wf(),
        ensures
            final(self).wf(),
            final(self).v4() == MapView::<Ipv4Address>::empty(),
            final(self).v6() == MapView::<Ipv6Address>::empty(),
            final(self).next_id() == old(self).next_id(),
    {
        self.connections_v4.clear();
        self.connections_v6.clear();
    }

    /// Number of retained IPv4 and of retained IPv6 connections.
    pub fn get_entries_counts(&self) -> (counts: (usize, usize))
        requires
            self.wf(),
        ensures
            counts.0 == capped(map_sequence(self.v4()).len() as int),
            counts.1 == capped(map_sequence(self.v6()).len() as int),
    {
        (self.connections_v4.get_count(), self.connections_v6.get_count())
    }

    /// Number of live connections without native lifecycle, of both families.
    pub fn get_untracked_count(&self) -> (n: usize)
        requires
            self.wf(),
        ensures
            n == capped(
                map_sequence(self.v4()).filter(|c: ConnectionV4| live_untracked(c)).len()
                    + map_sequence(self.v6()).filter(|c: ConnectionV6| live_untracked(c)).len() as int,
            ),
    {
        self.connections_v4.get_untracked_count().saturating_add(
            self.connections_v6.get_untracked_count(),
        )
    }

    /// Number of retained connections of both families.
    pub fn get_entries_count(&self) -> (n: usize)
        requires
            self.wf(),
        ensures
            n == capped(
                map_sequence(self.v4()).len() + map_sequence(self.v6()).len() as int,
            ),
    {
        self.connections_v4.get_count().saturating_add(self.connections_v6.get_count())
    }
}

/// What registering a tuple leaves and returns. A tuple that mixes address families is
/// refused and changes nothing.
pub open spec fn cache_registered(
    before: ConnectionCache,
    after: ConnectionCache,
    key: Key,
    process_id: u64,
    direction: Direction,
    native_lifecycle: bool,
    now: u64,
    result: Result<ConnectionRegistration, ConnectionError>,
) -> bool {
    let id = before.next_id();
    let v4 = ConnectionV4::spec_new(key, process_id, direction, native_lifecycle, id, now);
    let v6 = ConnectionV6::spec_new(key, process_id, direction, native_lifecycle, id, now);
    match result {
        Ok(registration) => {
            &&& after.next_id() == next_instance(id)
            &&& if key.spec_is_ipv6() {
                after.v4() == before.v4() && (v6 matches Some(c) && registered(
                    before.v6(),
                    after.v6(),
                    c,
                    now,
                    registration,
                ))
            } else {
                after.v6() == before.v6() && (v4 matches Some(c) && registered(
                    before.v4(),
                    after.v4(),
                    c,
                    now,
                    registration,
                ))
            }
        },
        Err(error) => {
            &&& error == ConnectionError::AddressFamily
            &&& after == before
            &&& if key.spec_is_ipv6() {
                v6 is None
            } else {
                v4 is None
            }
        },
    }
}

/// What applying a verdict to one exact instance of either family leaves and returns.
pub open spec fn cache_instance_updated(
    before: ConnectionCache,
    after: ConnectionCache,
    key: Key,
    instance_id: u64,
    verdict: Verdict,
    now: u64,
    update: Option<ConnectionUpdate>,
) -> bool {
    if key.spec_is_ipv6() {
        after.v4() == before.v4() && instance_updated(
            before.v6(),
            after.v6(),
            key,
            instance_id,
            verdict,
            now,
            update,
        )
    } else {
        after.v6() == before.v6() && instance_updated(
            before.v4(),
            after.v4(),
            key,
            instance_id,
            verdict,
            now,
            update,
        )
    }
}

} // verus!

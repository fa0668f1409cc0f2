//! What the operations of the driver do to the connections that it holds.

use crate::ale_callouts::with_attribution;
use crate::bytes::{be_bytes, be_decode_of_encode, lemma_be_bytes_len, lemma_byte_ranges};
use crate::command::{Command, UpdateV4, UpdateV6};
use crate::connection::{AddressFamily, Connection, Direction, Verdict};
use crate::connection_cache::{
    attributed, ended_connection, with_end, with_tuple_verdict, with_verdict,
};
use crate::connection_laws::{
    insertion_keeps_live_unique, lemma_first_unique, live_connection_is_found, unique_live,
};
use crate::connection_map::{
    at, best_match, endpoint_of, exact_match, generations, group_key, holds, instance_match,
    is_first, lemma_exact_holds, lemma_redirect_holds, map_push, map_set, map_wf, occupied,
    EndpointKey, MapView, Place, Query,
};
use crate::device_lookup::{selected_refreshed, selected_registration, with_registration};
use crate::device_state::{ActionView, DeviceView};
use crate::device_stream::command_applied;
use crate::ip::{protocol_rank_is_injective, IpAddress, Ipv4Address, Ipv6Address};
use crate::key::Key;
use crate::wire::{ipv4_address, ipv6_address};
use vstd::prelude::*;

verus! {

/// What is known of the live connection of a tuple.
pub struct Known {
    pub verdict: Verdict,
    pub process_id: u64,
    pub opened: Direction,
    pub instance_id: u64,
}

/// The connection is live, has the tuple, and is as `known` says.
pub open spec fn carries<A: AddressFamily>(c: Connection<A>, key: Key, known: Known) -> bool {
    &&& c.end_time is None
    &&& c.protocol == key.protocol
    &&& c.local_address.spec_ip() == key.local_address
    &&& c.local_port == key.local_port
    &&& c.remote_address.spec_ip() == key.remote_address
    &&& c.remote_port == key.remote_port
    &&& c.verdict == known.verdict
    &&& c.process_id == known.process_id
    &&& c.direction == known.opened
    &&& c.instance_id == known.instance_id
}

/// A live connection with the tuple is stored, as the only one, and is as `known` says.
pub open spec fn stores<A: AddressFamily>(m: MapView<A>, key: Key, known: Known) -> bool {
    &&& map_wf(m)
    &&& unique_live(m)
    &&& exists|p: Place<A>| #[trigger] holds(m, p) && carries(at(m, p), key, known)
}

/// The driver holds a live connection with the tuple, and it is as `known` says.
pub open spec fn knows<H, C>(s: DeviceView<H, C>, key: Key, known: Known) -> bool {
    match key.local_address {
        IpAddress::Ipv4(_) => stores::<Ipv4Address>(s.connections_v4, key, known),
        IpAddress::Ipv6(_) => stores::<Ipv6Address>(s.connections_v6, key, known),
    }
}

/// No live connection with the tuple is stored.
pub open spec fn lacks<A: AddressFamily>(m: MapView<A>, key: Key) -> bool {
    &&& map_wf(m)
    &&& unique_live(m)
    &&& forall|p: Place<A>| #[trigger]
        holds(m, p) && at(m, p).end_time is None ==> at(m, p).spec_key() != key
}

/// The driver holds no live connection with the tuple.
pub open spec fn misses<H, C>(s: DeviceView<H, C>, key: Key) -> bool {
    match key.local_address {
        IpAddress::Ipv4(_) => lacks::<Ipv4Address>(s.connections_v4, key),
        IpAddress::Ipv6(_) => lacks::<Ipv6Address>(s.connections_v6, key),
    }
}

/// The place of the live connection of a tuple.
pub proof fn lemma_stored_place<A: AddressFamily>(m: MapView<A>, key: Key, known: Known) -> (p:
    Place<A>)
    requires
        stores(m, key, known),
    ensures
        holds(m, p),
        carries(at(m, p), key, known),
        at(m, p).spec_key() == key,
        exact_match(m, Query::live(key)) == Some(p),
        known.instance_id != 0 ==> instance_match(m, key, known.instance_id) == Some(p)
            && exact_match(m, Query::instance(key, known.instance_id)) == Some(p),
{
    let p = choose|p: Place<A>| #[trigger] holds(m, p) && carries(at(m, p), key, known);
    assert(at(m, p).spec_key() == key);
    live_connection_is_found(m, p);
    let q = Query::live(key);
    let qi = Query::instance(key, known.instance_id);
    lemma_exact_holds(m, q);
    let s = generations(m, key);
    assert(is_first(s, q, p.2));
    assert(is_first(s, qi, p.2)) by {
        assert forall|j: int| 0 <= j < p.2 implies !qi.accepts(#[trigger] s[j]) by {
            assert(!q.accepts(s[j]));
        }
    }
    lemma_first_unique(s, qi, p.2);
    p
}

/// A tuple without a live connection is found nowhere as its own.
pub proof fn lemma_lacked<A: AddressFamily>(m: MapView<A>, key: Key)
    requires
        lacks(m, key),
    ensures
        exact_match(m, Query::live(key)) is None,
{
    lemma_exact_holds(m, Query::live(key));
    if let Some(p) = exact_match(m, Query::live(key)) {
        let c = at(m, p);
        assert(m.contains_key(p.0) && m[p.0].contains_key(p.1));
        assert(group_key(m[p.0][p.1][p.2].spec_key().spec_small()) == p.0);
        protocol_rank_is_injective(c.protocol, key.protocol);
        assert(c.spec_key() == key);
    }
}

/// Replacing a connection by one with the same tuple changes nothing else.
pub proof fn lemma_replaced<A: AddressFamily>(m: MapView<A>, p: Place<A>, c: Connection<A>)
    requires
        map_wf(m),
        unique_live(m),
        holds(m, p),
        c.spec_key() == at(m, p).spec_key(),
        c.live() ==> at(m, p).live(),
    ensures
        ({
            let n = map_set(m, p, c);
            &&& map_wf(n)
            &&& unique_live(n)
            &&& forall|q: Place<A>| #[trigger] holds(n, q) <==> holds(m, q)
            &&& forall|q: Place<A>| #[trigger]
                holds(n, q) ==> at(n, q) == if q == p {
                    c
                } else {
                    at(m, q)
                }
        }),
{
    let n = map_set(m, p, c);
    A::lemma_family();
    assert(m.contains_key(p.0) && m[p.0].contains_key(p.1));
    assert(endpoint_of(m[p.0][p.1][p.2]) == p.1);
    assert(c.remote_address.spec_ip() == at(m, p).remote_address.spec_ip());
    assert forall|q: Place<A>| #[trigger] holds(n, q) implies holds(m, q) && at(n, q) == (if q == p {
        c
    } else {
        at(m, q)
    }) by {}
    assert forall|q: Place<A>| holds(m, q) implies #[trigger] holds(n, q) by {}
    assert(unique_live(n)) by {
        assert forall|r: Place<A>, t: Place<A>|
            #![trigger holds(n, r), holds(n, t)]
            holds(n, r) && holds(n, t) && at(n, r).live() && at(n, t).live() && at(n, r).spec_key()
                == at(n, t).spec_key() implies r == t by {
            assert(holds(m, r) && holds(m, t));
        }
    }
    assert(map_wf(n)) by {
        assert forall|g: (u16, u16), e, i: int| #![trigger n[g][e][i]]
            n.contains_key(g) && occupied(n[g], e, i) implies endpoint_of(n[g][e][i]) == e
            && group_key(n[g][e][i].spec_key().spec_small()) == g by {
            assert(m.contains_key(g) && occupied(m[g], e, i));
            assert(endpoint_of(m[g][e][i]) == e);
            assert(group_key(m[g][e][i].spec_key().spec_small()) == g);
        }
        assert forall|g: (u16, u16)| #[trigger] n.contains_key(g) implies n[g].dom()
            != Set::<EndpointKey<A>>::empty() by {
            if g == p.0 {
                assert(n[g].dom().contains(p.1));
            }
        }
    }
}

/// What is known of other tuples outlives the replacement of a connection.
proof fn lemma_others_stored<A: AddressFamily>(
    m: MapView<A>,
    p: Place<A>,
    c: Connection<A>,
    other: Key,
    known: Known,
)
    requires
        stores(m, other, known),
        holds(m, p),
        c.spec_key() == at(m, p).spec_key(),
        c.live() ==> at(m, p).live(),
        at(m, p).spec_key() != other,
    ensures
        stores(map_set(m, p, c), other, known),
{
    lemma_replaced(m, p, c);
    let q = choose|q: Place<A>| #[trigger] holds(m, q) && carries(at(m, q), other, known);
    assert(at(m, q).spec_key() == other);
    assert(holds(map_set(m, p, c), q));
}

proof fn lemma_changed<A: AddressFamily>(
    m: MapView<A>,
    p: Place<A>,
    c: Connection<A>,
    key: Key,
    known: Known,
)
    requires
        map_wf(m),
        unique_live(m),
        holds(m, p),
        at(m, p).spec_key() == key,
        at(m, p).live(),
        carries(c, key, known),
    ensures
        stores(map_set(m, p, c), key, known),
{
    assert(c.spec_key() == key);
    lemma_replaced(m, p, c);
    assert(holds(map_set(m, p, c), p));
}

proof fn lemma_verdict_stored<A: AddressFamily>(
    m: MapView<A>,
    key: Key,
    known: Known,
    verdict: Verdict,
    now: u64,
    other: Key,
    other_known: Known,
)
    requires
        stores(m, key, known),
    ensures
        stores(with_tuple_verdict(m, key, verdict, now), key, Known { verdict, ..known }),
        known.instance_id != 0 ==> stores(
            with_verdict(m, key, known.instance_id, verdict, now),
            key,
            Known { verdict, ..known },
        ),
        stores(m, other, other_known) && other != key ==> stores(
            with_tuple_verdict(m, key, verdict, now),
            other,
            other_known,
        ),
        stores(m, other, other_known) && other != key && known.instance_id != 0 ==> stores(
            with_verdict(m, key, known.instance_id, verdict, now),
            other,
            other_known,
        ),
{
    let p = lemma_stored_place(m, key, known);
    let c = Connection { verdict, ..at(m, p).spec_refreshed(now) };
    lemma_changed(m, p, c, key, Known { verdict, ..known });
    if stores(m, other, other_known) && other != key {
        lemma_others_stored(m, p, c, other, other_known);
    }
}

/// The verdict that a connection generation gets is stored with it, nothing else of the
/// connection changes, and no other connection does.
pub proof fn verdict_reaches_its_connection<H, C>(
    s: DeviceView<H, C>,
    key: Key,
    known: Known,
    verdict: Verdict,
    now: u64,
    other: Key,
    other_known: Known,
)
    requires
        knows(s, key, known),
        known.instance_id != 0,
    ensures
        knows(s.decided(key, known.instance_id, verdict, now), key, Known { verdict, ..known }),
        knows(s, other, other_known) && other != key ==> knows(
            s.decided(key, known.instance_id, verdict, now),
            other,
            other_known,
        ),
{
    if key.local_address is Ipv6 {
        lemma_verdict_stored(s.connections_v6, key, known, verdict, now, other, other_known);
    } else {
        lemma_verdict_stored(s.connections_v4, key, known, verdict, now, other, other_known);
    }
}

/// An update of a tuple gives its live connection the verdict, and asks for existing flows to
/// be authorized again. Nothing else of the connection changes, and no other connection does.
pub proof fn update_reaches_its_connection<H, C>(
    s: DeviceView<H, C>,
    key: Key,
    known: Known,
    verdict: Verdict,
    now: u64,
    other: Key,
    other_known: Known,
)
    requires
        knows(s, key, known),
    ensures
        knows(s.update_applied(key, verdict, now), key, Known { verdict, ..known }),
        s.update_applied(key, verdict, now).actions == s.actions.push(ActionView::ResetFilters),
        knows(s, other, other_known) && other != key ==> knows(
            s.update_applied(key, verdict, now),
            other,
            other_known,
        ),
{
    if key.local_address is Ipv6 {
        lemma_verdict_stored(s.connections_v6, key, known, verdict, now, other, other_known);
    } else {
        lemma_verdict_stored(s.connections_v4, key, known, verdict, now, other, other_known);
    }
}

/// Equal octets are of equal addresses.
pub proof fn lemma_ipv6_octets(a: Ipv6Address, bytes: Seq<u8>)
    requires
        a.octets() == bytes,
    ensures
        ipv6_address(bytes, 0) == a,
        bytes.len() == 16,
{
    lemma_byte_ranges();
    lemma_be_bytes_len(a.high as nat, 8);
    lemma_be_bytes_len(a.low as nat, 8);
    be_decode_of_encode(a.high as nat, 8);
    be_decode_of_encode(a.low as nat, 8);
    assert(bytes.subrange(0, 8) =~= be_bytes(a.high as nat, 8));
    assert(bytes.subrange(8, 16) =~= be_bytes(a.low as nat, 8));
}

/// Equal octets are of equal addresses.
pub proof fn lemma_ipv4_octets(a: Ipv4Address, bytes: Seq<u8>)
    requires
        a.octets() == bytes,
    ensures
        ipv4_address(bytes, 0) == a,
        bytes.len() == 4,
{
    a.lemma_octets();
    assert(bytes.subrange(0, 4) =~= bytes);
}

/// An IPv4 update names a connection by its own local and remote endpoint: written with the
/// octets and ports of a live connection, it gives exactly that connection the verdict.
pub proof fn update_v4_names_the_connection<H, C>(
    s: DeviceView<H, C>,
    t: DeviceView<H, C>,
    c: Key,
    local: Ipv4Address,
    remote: Ipv4Address,
    known: Known,
    update: UpdateV4,
    verdict: Verdict,
    now: u64,
    other: Key,
    other_known: Known,
)
    requires
        c.local_address == IpAddress::Ipv4(local),
        c.remote_address == IpAddress::Ipv4(remote),
        knows(s, c, known),
        c.protocol is Tcp && update.protocol == 6 || c.protocol is Udp && update.protocol == 17,
        update.local_address@ == local.octets(),
        update.local_port == c.local_port,
        update.remote_address@ == remote.octets(),
        update.remote_port == c.remote_port,
        Verdict::spec_from_number(update.verdict) == Some(verdict),
        command_applied(s, t, Command::UpdateV4(update), now),
    ensures
        knows(t, c, Known { verdict, ..known }),
        t.actions == s.actions.push(ActionView::ResetFilters),
        knows(s, other, other_known) && other != c ==> knows(t, other, other_known),
{
    lemma_ipv4_octets(local, update.local_address@);
    lemma_ipv4_octets(remote, update.remote_address@);
    update_reaches_its_connection(s, c, known, verdict, now, other, other_known);
}

/// An IPv6 update names a connection by its own local and remote endpoint: written with the
/// octets and ports of a live connection, it gives exactly that connection the verdict.
pub proof fn update_v6_names_the_connection<H, C>(
    s: DeviceView<H, C>,
    t: DeviceView<H, C>,
    c: Key,
    local: Ipv6Address,
    remote: Ipv6Address,
    known: Known,
    update: UpdateV6,
    verdict: Verdict,
    now: u64,
    other: Key,
    other_known: Known,
)
    requires
        c.local_address == IpAddress::Ipv6(local),
        c.remote_address == IpAddress::Ipv6(remote),
        knows(s, c, known),
        c.protocol is Tcp && update.protocol == 6 || c.protocol is Udp && update.protocol == 17,
        update.local_address@ == local.octets(),
        update.local_port == c.local_port,
        update.remote_address@ == remote.octets(),
        update.remote_port == c.remote_port,
        Verdict::spec_from_number(update.verdict) == Some(verdict),
        command_applied(s, t, Command::UpdateV6(update), now),
    ensures
        knows(t, c, Known { verdict, ..known }),
        t.actions == s.actions.push(ActionView::ResetFilters),
        knows(s, other, other_known) && other != c ==> knows(t, other, other_known),
{
    lemma_ipv6_octets(local, update.local_address@);
    lemma_ipv6_octets(remote, update.remote_address@);
    update_reaches_its_connection(s, c, known, verdict, now, other, other_known);
}

/// Storing a connection keeps everything that is stored.
proof fn lemma_pushed<A: AddressFamily>(m: MapView<A>, c: Connection<A>) -> (new: Place<A>)
    requires
        map_wf(m),
        unique_live(m),
        exact_match(m, Query::live(c.spec_key())) is None,
    ensures
        ({
            let n = map_push(m, c);
            &&& map_wf(n)
            &&& unique_live(n)
            &&& holds(n, new) && at(n, new) == c
            &&& forall|q: Place<A>| #[trigger]
                holds(m, q) ==> q != new && holds(n, q) && at(n, q) == at(m, q)
            &&& forall|q: Place<A>| #[trigger] holds(n, q) && q != new ==> holds(m, q)
        }),
{
    insertion_keeps_live_unique(m, c);
    let n = map_push(m, c);
    let group = group_key(c.spec_key().spec_small());
    let e = endpoint_of(c);
    let count: int = if m.contains_key(group) && m[group].contains_key(e) {
        m[group][e].len() as int
    } else {
        0
    };
    let new: Place<A> = (group, e, count);
    assert forall|q: Place<A>| #[trigger] holds(n, q) && q != new implies holds(m, q) && at(n, q)
        == at(m, q) by {}
    assert forall|q: Place<A>| #[trigger] holds(m, q) implies q != new && holds(n, q) by {}
    assert(map_wf(n)) by {
        assert forall|g: (u16, u16), e, i: int| #![trigger n[g][e][i]]
            n.contains_key(g) && occupied(n[g], e, i) implies endpoint_of(n[g][e][i]) == e
            && group_key(n[g][e][i].spec_key().spec_small()) == g by {
            let q: Place<A> = (g, e, i);
            assert(holds(n, q));
            if q != new {
                assert(holds(m, q));
                assert(endpoint_of(m[g][e][i]) == e);
                assert(group_key(m[g][e][i].spec_key().spec_small()) == g);
            }
        }
        assert forall|g: (u16, u16)| #[trigger] n.contains_key(g) implies n[g].dom()
            != Set::<EndpointKey<A>>::empty() by {
            if g == group {
                assert(n[g].dom().contains(e));
            }
        }
    }
    new
}

proof fn lemma_registered_new<A: AddressFamily>(
    m: MapView<A>,
    c: Connection<A>,
    now: u64,
    known: Known,
    other: Key,
    other_known: Known,
)
    requires
        lacks(m, c.spec_key()),
        carries(c, c.spec_key(), known),
    ensures
        stores(with_registration(m, c, now), c.spec_key(), known),
        stores(m, other, other_known) ==> stores(with_registration(m, c, now), other, other_known),
        selected_registration(m, c).inserted,
        selected_registration(m, c).instance_id == c.instance_id,
{
    lemma_lacked(m, c.spec_key());
    let n = with_registration(m, c, now);
    let new = lemma_pushed(m, c);
    assert(holds(n, new));
    if stores(m, other, other_known) {
        let q = choose|q: Place<A>| #[trigger] holds(m, q) && carries(at(m, q), other, other_known);
        assert(holds(n, q));
    }
}

/// The PID that is more useful: zero names nobody, and the System process never replaces a
/// program.
pub open spec fn better_owner(stored: u64, incoming: u64) -> u64 {
    if incoming == 0 || (incoming == 4 && stored != 0) {
        stored
    } else {
        incoming
    }
}

proof fn lemma_registered_again<A: AddressFamily>(
    m: MapView<A>,
    c: Connection<A>,
    now: u64,
    known: Known,
    other: Key,
    other_known: Known,
)
    requires
        stores(m, c.spec_key(), known),
        known.instance_id != 0,
    ensures
        stores(
            with_registration(m, c, now),
            c.spec_key(),
            Known { process_id: better_owner(known.process_id, c.process_id), ..known },
        ),
        stores(m, other, other_known) && other != c.spec_key() ==> stores(
            with_registration(m, c, now),
            other,
            other_known,
        ),
        !selected_registration(m, c).inserted,
        selected_registration(m, c).instance_id == known.instance_id,
{
    let key = c.spec_key();
    let p = lemma_stored_place(m, key, known);
    let d = attributed(at(m, p).spec_refreshed(now), c.process_id);
    lemma_changed(
        m,
        p,
        d,
        key,
        Known { process_id: better_owner(known.process_id, c.process_id), ..known },
    );
    if stores(m, other, other_known) && other != key {
        lemma_others_stored(m, p, d, other, other_known);
    }
}

/// Both addresses of a tuple belong to one family.
pub open spec fn one_family(key: Key) -> bool {
    key.local_address is Ipv6 <==> key.remote_address is Ipv6
}

/// Registering a tuple without a live connection adds one: undecided, of the given process
/// and direction, under an instance ID that is used up with it. Every other connection stays.
pub proof fn registration_adds_a_connection<H, C>(
    s: DeviceView<H, C>,
    key: Key,
    process_id: u64,
    direction: Direction,
    native_lifecycle: bool,
    now: u64,
    other: Key,
    other_known: Known,
)
    requires
        misses(s, key),
        one_family(key),
    ensures
        ({
            let t = s.registered(key, process_id, direction, native_lifecycle, now);
            let known = Known {
                verdict: Verdict::Undecided,
                process_id,
                opened: direction,
                instance_id: s.next_instance,
            };
            &&& knows(t, key, known)
            &&& knows(s, other, other_known) ==> knows(t, other, other_known)
            &&& s.registration(key, process_id, direction, native_lifecycle, now) matches Some(r)
                && r.inserted && r.instance_id == s.next_instance
            &&& t.next_instance == if s.next_instance == u64::MAX {
                1
            } else {
                s.next_instance + 1
            }
            &&& t.events == s.events && t.queue == s.queue && t.actions == s.actions
        }),
{
    Ipv4Address::lemma_family();
    Ipv6Address::lemma_family();
    let known = Known {
        verdict: Verdict::Undecided,
        process_id,
        opened: direction,
        instance_id: s.next_instance,
    };
    if key.local_address is Ipv6 {
        let c = Connection::<Ipv6Address>::spec_new(
            key,
            process_id,
            direction,
            native_lifecycle,
            s.next_instance,
            now,
        )->Some_0;
        assert(c.spec_key() == key);
        lemma_registered_new(s.connections_v6, c, now, known, other, other_known);
    } else {
        let c = Connection::<Ipv4Address>::spec_new(
            key,
            process_id,
            direction,
            native_lifecycle,
            s.next_instance,
            now,
        )->Some_0;
        assert(c.spec_key() == key);
        lemma_registered_new(s.connections_v4, c, now, known, other, other_known);
    }
}

/// Registering a tuple that has a live connection selects that one: it keeps its verdict, its
/// direction and its instance ID, and at most learns of its process.
pub proof fn registration_selects_the_live_connection<H, C>(
    s: DeviceView<H, C>,
    key: Key,
    known: Known,
    process_id: u64,
    direction: Direction,
    native_lifecycle: bool,
    now: u64,
    other: Key,
    other_known: Known,
)
    requires
        knows(s, key, known),
        known.instance_id != 0,
        one_family(key),
    ensures
        ({
            let t = s.registered(key, process_id, direction, native_lifecycle, now);
            &&& knows(
                t,
                key,
                Known { process_id: better_owner(known.process_id, process_id), ..known },
            )
            &&& knows(s, other, other_known) && other != key ==> knows(t, other, other_known)
            &&& s.registration(key, process_id, direction, native_lifecycle, now) matches Some(r)
                && !r.inserted && r.instance_id == known.instance_id
        }),
{
    Ipv4Address::lemma_family();
    Ipv6Address::lemma_family();
    if key.local_address is Ipv6 {
        let c = Connection::<Ipv6Address>::spec_new(
            key,
            process_id,
            direction,
            native_lifecycle,
            s.next_instance,
            now,
        )->Some_0;
        assert(c.spec_key() == key);
        lemma_registered_again(s.connections_v6, c, now, known, other, other_known);
    } else {
        let c = Connection::<Ipv4Address>::spec_new(
            key,
            process_id,
            direction,
            native_lifecycle,
            s.next_instance,
            now,
        )->Some_0;
        assert(c.spec_key() == key);
        lemma_registered_again(s.connections_v4, c, now, known, other, other_known);
    }
}

proof fn lemma_attributed_stored<A: AddressFamily>(
    m: MapView<A>,
    key: Key,
    known: Known,
    process_id: u64,
    now: u64,
    other: Key,
    other_known: Known,
)
    requires
        stores(m, key, known),
        known.instance_id != 0,
    ensures
        stores(
            with_attribution(m, key, known.instance_id, process_id, now),
            key,
            Known { process_id: better_owner(known.process_id, process_id), ..known },
        ),
        stores(m, other, other_known) && other != key ==> stores(
            with_attribution(m, key, known.instance_id, process_id, now),
            other,
            other_known,
        ),
        exact_match(m, Query::live(key)) matches Some(p) && at(m, p).instance_id
            == known.instance_id,
{
    let p = lemma_stored_place(m, key, known);
    let d = attributed(at(m, p).spec_refreshed(now), process_id);
    if process_id != 0 {
        lemma_changed(
            m,
            p,
            d,
            key,
            Known { process_id: better_owner(known.process_id, process_id), ..known },
        );
        if stores(m, other, other_known) && other != key {
            lemma_others_stored(m, p, d, other, other_known);
        }
    }
}

/// An established flow tells its connection the process behind it, and changes nothing else.
pub proof fn established_flow_names_the_process<H, C>(
    s: DeviceView<H, C>,
    key: Key,
    known: Known,
    process_id: u64,
    now: u64,
    other: Key,
    other_known: Known,
)
    requires
        knows(s, key, known),
        known.instance_id != 0,
    ensures
        ({
            let t = s.flow_attributed(key, process_id, now);
            &&& knows(
                t,
                key,
                Known { process_id: better_owner(known.process_id, process_id), ..known },
            )
            &&& knows(s, other, other_known) && other != key ==> knows(t, other, other_known)
            &&& t.events == s.events && t.queue == s.queue && t.actions == s.actions
        }),
{
    if key.local_address is Ipv6 {
        lemma_attributed_stored(s.connections_v6, key, known, process_id, now, other, other_known);
    } else {
        lemma_attributed_stored(s.connections_v4, key, known, process_id, now, other, other_known);
    }
}

proof fn lemma_end_stored<A: AddressFamily>(
    m: MapView<A>,
    key: Key,
    known: Known,
    now: u64,
    other: Key,
    other_known: Known,
)
    requires
        stores(m, key, known),
        known.instance_id != 0,
    ensures
        lacks(with_end(m, key, known.instance_id, now), key),
        stores(m, other, other_known) && other != key ==> stores(
            with_end(m, key, known.instance_id, now),
            other,
            other_known,
        ),
        ended_connection(m, key, known.instance_id, now) matches Some(c) && carries(
            Connection { end_time: None, ..c },
            key,
            known,
        ) && c.end_time == Some(now),
{
    let p = lemma_stored_place(m, key, known);
    let d = at(m, p).spec_ended(now);
    lemma_replaced(m, p, d);
    let n = with_end(m, key, known.instance_id, now);
    assert(n == map_set(m, p, d));
    assert forall|q: Place<A>| #[trigger] holds(n, q) && at(n, q).end_time is None implies at(
        n,
        q,
    ).spec_key() != key by {
        assert(holds(m, q));
        if at(m, q).spec_key() == key {
            assert(holds(m, p) && q == p);
        }
    }
    if stores(m, other, other_known) && other != key {
        lemma_others_stored(m, p, d, other, other_known);
    }
}

/// Ending a connection generation leaves no live connection with its tuple, reports the end
/// once, and leaves every other connection alone.
pub proof fn ending_removes_the_live_connection<H, C>(
    s: DeviceView<H, C>,
    key: Key,
    known: Known,
    process_id: u64,
    now: u64,
    other: Key,
    other_known: Known,
)
    requires
        knows(s, key, known),
        known.instance_id != 0,
    ensures
        ({
            let t = s.ended(key, known.instance_id, process_id, now);
            &&& misses(t, key)
            &&& knows(s, other, other_known) && other != key ==> knows(t, other, other_known)
            &&& t.events.len() == s.events.len() + 1
            &&& t.events.drop_last() == s.events
            &&& t.queue == s.queue && t.actions == s.actions
            &&& t.ended(key, known.instance_id, process_id, now) == t
        }),
{
    let t = s.ended(key, known.instance_id, process_id, now);
    if key.local_address is Ipv6 {
        lemma_end_stored(s.connections_v6, key, known, now, other, other_known);
        lemma_exact_holds(t.connections_v6, Query::instance(key, known.instance_id));
        lemma_never_live(t.connections_v6, key, known.instance_id);
    } else {
        lemma_end_stored(s.connections_v4, key, known, now, other, other_known);
        lemma_never_live(t.connections_v4, key, known.instance_id);
    }
    assert(t.events.drop_last() =~= s.events);
}

proof fn lemma_never_live<A: AddressFamily>(m: MapView<A>, key: Key, instance_id: u64)
    requires
        lacks(m, key),
    ensures
        ended_connection(m, key, instance_id, 0) is None,
        forall|now: u64| #[trigger] ended_connection(m, key, instance_id, now) is None,
{
    let q = Query::instance(key, instance_id);
    lemma_exact_holds(m, q);
    if let Some(p) = exact_match(m, q) {
        let c = at(m, p);
        assert(m.contains_key(p.0) && m[p.0].contains_key(p.1));
        assert(group_key(m[p.0][p.1][p.2].spec_key().spec_small()) == p.0);
        protocol_rank_is_injective(c.protocol, key.protocol);
        assert(c.spec_key() == key);
    }
}

proof fn lemma_refresh_stored<A: AddressFamily>(
    m: MapView<A>,
    key: Key,
    use_ended_fallback: bool,
    now: u64,
    other: Key,
    other_known: Known,
)
    requires
        stores(m, other, other_known),
    ensures
        stores(selected_refreshed(m, key, use_ended_fallback, now), other, other_known),
{
    let live = Query::live(key);
    lemma_exact_holds(m, live);
    lemma_redirect_holds(m, Query { redirect: true, ..live });
    lemma_exact_holds(m, Query { ended: true, ..live });
    lemma_redirect_holds(m, Query { redirect: true, ended: true, ..live });
    if let Some(p) = best_match(m, key, use_ended_fallback) {
        let c = at(m, p).spec_refreshed(now);
        if at(m, p).spec_key() == other && at(m, p).live() {
            let q = lemma_stored_place(m, other, other_known);
            assert(p == q);
            lemma_changed(m, p, c, other, other_known);
        } else if at(m, p).spec_key() == other {
            lemma_replaced(m, p, c);
            let q = lemma_stored_place(m, other, other_known);
            assert(holds(map_set(m, p, c), q));
        } else {
            lemma_others_stored(m, p, c, other, other_known);
        }
    }
}

/// Looking a connection up changes nothing that is known of any connection.
pub proof fn lookup_changes_no_connection<H, C>(
    s: DeviceView<H, C>,
    key: Key,
    ipv6: bool,
    use_ended_fallback: bool,
    now: u64,
    other: Key,
    other_known: Known,
)
    requires
        knows(s, other, other_known),
    ensures
        knows(s.looked_up(key, ipv6, use_ended_fallback, now), other, other_known),
{
    if ipv6 && other.local_address is Ipv6 {
        lemma_refresh_stored(s.connections_v6, key, use_ended_fallback, now, other, other_known);
    } else if !ipv6 && other.local_address is Ipv4 {
        lemma_refresh_stored(s.connections_v4, key, use_ended_fallback, now, other, other_known);
    }
}

/// A tuple without a live connection has none of any generation.
pub proof fn lemma_missing_is_not_live<H, C>(s: DeviceView<H, C>, key: Key, instance_id: u64)
    requires
        misses(s, key),
    ensures
        !s.live(key, instance_id),
        s.instance_of(key) is None,
{
    if key.local_address is Ipv6 {
        lemma_never_live(s.connections_v6, key, instance_id);
        lemma_lacked(s.connections_v6, key);
    } else {
        lemma_never_live(s.connections_v4, key, instance_id);
        lemma_lacked(s.connections_v4, key);
    }
}

} // verus!

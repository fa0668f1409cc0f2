//! Connections and the policy decided for them.

use crate::ip::{IpAddress, IpProtocol, Ipv4Address, Ipv6Address};
use crate::key::Key;
use crate::ordered::{lawful_key, lemma_integer_keys, lemma_pair_key};
use vstd::prelude::*;

verus! {

/// Port of the local name server that DNS traffic is redirected to.
pub const PM_DNS_PORT: u16 = 53;

/// Port of the local tunnel entry.
pub const PM_SPN_PORT: u16 = 717;

/// Port of the local split-tunnel entry.
pub const PM_SPLIT_TUN_PORT: u16 = 719;

/// A port that redirected packets are sent to.
pub open spec fn spec_is_redirect_port(port: u16) -> bool {
    port == PM_DNS_PORT || port == PM_SPN_PORT || port == PM_SPLIT_TUN_PORT
}

/// Whether redirected packets are sent to this port.
pub fn is_redirect_port(port: u16) -> (r: bool)
    ensures
        r == spec_is_redirect_port(port),
{
    port == PM_DNS_PORT || port == PM_SPN_PORT || port == PM_SPLIT_TUN_PORT
}

/// Direction of a packet or of the connection that it opened.
#[derive(Clone, Copy, Debug, PartialEq, Eq, Structural)]
pub enum Direction {
    Outbound,
    Inbound,
}

impl Direction {
    /// Value of the direction field on the wire.
    pub open spec fn spec_number(self) -> u8 {
        match self {
            Direction::Outbound => 0,
            Direction::Inbound => 1,
        }
    }

    /// Value of the direction field on the wire.
    pub fn number(self) -> (number: u8)
        ensures
            number == self.spec_number(),
    {
        match self {
            Direction::Outbound => 0,
            Direction::Inbound => 1,
        }
    }
}

/// What user space decided about a connection.
#[derive(Clone, Copy, Debug, PartialEq, Eq, Structural)]
pub enum Verdict {
    /// Initial state: every packet asks for a decision.
    Undecided,
    /// Fail closed without asking again.
    Undeterminable,
    /// Admit the current packet only.
    Accept,
    /// Admit the current and later packets.
    PermanentAccept,
    /// Block the current packet only.
    Block,
    /// Hard-block the current and later packets.
    PermanentBlock,
    /// Absorb the current packet only.
    Drop,
    /// Absorb the current and later packets.
    PermanentDrop,
    /// Redirect to the local name server.
    RedirectNameServer,
    /// Redirect to the local tunnel entry.
    RedirectTunnel,
    /// Fail closed: the decision itself failed.
    Failed,
    /// Redirect to the local split-tunnel entry.
    RedirectSplitTunnel,
}

impl Verdict {
    /// Value of the verdict on the wire.
    pub open spec fn spec_number(self) -> u8 {
        match self {
            Verdict::Undecided => 0,
            Verdict::Undeterminable => 1,
            Verdict::Accept => 2,
            Verdict::PermanentAccept => 3,
            Verdict::Block => 4,
            Verdict::PermanentBlock => 5,
            Verdict::Drop => 6,
            Verdict::PermanentDrop => 7,
            Verdict::RedirectNameServer => 8,
            Verdict::RedirectTunnel => 9,
            Verdict::Failed => 10,
            Verdict::RedirectSplitTunnel => 11,
        }
    }

    /// The verdict redirects packets.
    pub open spec fn spec_is_redirect(self) -> bool {
        self is RedirectNameServer || self is RedirectTunnel || self is RedirectSplitTunnel
    }

    /// The verdict with a given wire value.
    pub open spec fn spec_from_number(value: u8) -> Option<Verdict> {
        match value {
            0 => Some(Verdict::Undecided),
            1 => Some(Verdict::Undeterminable),
            2 => Some(Verdict::Accept),
            3 => Some(Verdict::PermanentAccept),
            4 => Some(Verdict::Block),
            5 => Some(Verdict::PermanentBlock),
            6 => Some(Verdict::Drop),
            7 => Some(Verdict::PermanentDrop),
            8 => Some(Verdict::RedirectNameServer),
            9 => Some(Verdict::RedirectTunnel),
            10 => Some(Verdict::Failed),
            11 => Some(Verdict::RedirectSplitTunnel),
            _ => None,
        }
    }

    /// The verdict with a given wire value.
    pub fn from_u8(value: u8) -> (verdict: Option<Verdict>)
        ensures
            verdict == Verdict::spec_from_number(value),
            verdict is Some <==> value <= 11,
            verdict matches Some(v) ==> v.spec_number() == value,
    {
        match value {
            0 => Some(Verdict::Undecided),
            1 => Some(Verdict::Undeterminable),
            2 => Some(Verdict::Accept),
            3 => Some(Verdict::PermanentAccept),
            4 => Some(Verdict::Block),
            5 => Some(Verdict::PermanentBlock),
            6 => Some(Verdict::Drop),
            7 => Some(Verdict::PermanentDrop),
            8 => Some(Verdict::RedirectNameServer),
            9 => Some(Verdict::RedirectTunnel),
            10 => Some(Verdict::Failed),
            11 => Some(Verdict::RedirectSplitTunnel),
            _ => None,
        }
    }
}

/// Verdicts differ in their wire value.
pub proof fn verdict_numbers_are_distinct(a: Verdict, b: Verdict)
    ensures
        a.spec_number() == b.spec_number() ==> a == b,
        a.spec_number() <= 11,
{
}

/// Where packets of a redirected connection go, and what the application believes.
#[derive(Clone, Copy, Debug, PartialEq, Eq, Structural)]
pub struct RedirectInfo {
    pub local_address: IpAddress,
    pub remote_address: IpAddress,
    pub remote_port: u16,
    pub redirect_port: u16,
    /// Source and destination of the redirected packet become the same address.
    pub unify: bool,
    pub redirect_address: IpAddress,
}

/// Why a connection could not be built from a tuple.
#[derive(Clone, Copy, Debug, PartialEq, Eq, Structural)]
pub enum ConnectionError {
    /// An address of the tuple belongs to the other address family.
    AddressFamily,
}

/// An address family: IPv4 or IPv6.
pub trait AddressFamily: Sized + Copy {
    /// Compact form of an address by which remote endpoints are ordered.
    type RemoteAddressKey: Ord;

    /// The address without its family.
    spec fn spec_ip(self) -> IpAddress;

    /// The address, if it belongs to this family.
    spec fn spec_from_ip(ip: IpAddress) -> Option<Self>;

    /// Compact form of the address.
    spec fn spec_remote_key(self) -> Self::RemoteAddressKey;

    /// The loopback address that redirected name-server traffic goes to.
    spec fn spec_local() -> Self;

    /// Conversions lose nothing, and compact forms are totally ordered.
    proof fn lemma_family()
        ensures
            lawful_key::<Self::RemoteAddressKey>(),
            lawful_key::<(Self::RemoteAddressKey, u16)>(),
            forall|a: Self| #[trigger] Self::spec_from_ip(a.spec_ip()) == Some(a),
            forall|a: Self, b: Self| #[trigger] a.spec_ip() == #[trigger] b.spec_ip() ==> a == b,
            forall|ip: IpAddress| #[trigger]
                Self::spec_from_ip(ip) matches Some(a) ==> a.spec_ip() == ip,
            forall|a: Self, b: Self| #[trigger]
                a.spec_remote_key() == #[trigger] b.spec_remote_key() ==> a == b,
            Self::spec_local().spec_ip().loopback(),
    ;

    /// Forgets the family.
    fn ip(self) -> (ip: IpAddress)
        ensures
            ip == self.spec_ip(),
    ;

    /// Recovers the family.
    fn from_ip(ip: IpAddress) -> (address: Option<Self>)
        ensures
            address == Self::spec_from_ip(ip),
    ;

    /// Compact form of the address.
    fn remote_key(self) -> (key: Self::RemoteAddressKey)
        ensures
            key == self.spec_remote_key(),
    ;

    /// Copies a compact form.
    fn copy_key(key: &Self::RemoteAddressKey) -> (copy: Self::RemoteAddressKey)
        ensures
            copy == *key,
    ;

    /// The loopback address that redirected name-server traffic goes to.
    fn local() -> (address: Self)
        ensures
            address == Self::spec_local(),
    ;
}

impl AddressFamily for Ipv4Address {
    type RemoteAddressKey = u32;

    open spec fn spec_ip(self) -> IpAddress {
        IpAddress::Ipv4(self)
    }

    open spec fn spec_from_ip(ip: IpAddress) -> Option<Ipv4Address> {
        match ip {
            IpAddress::Ipv4(address) => Some(address),
            IpAddress::Ipv6(_) => None,
        }
    }

    open spec fn spec_remote_key(self) -> u32 {
        self.0
    }

    open spec fn spec_local() -> Ipv4Address {
        Ipv4Address::spec_localhost()
    }

    proof fn lemma_family() {
        lemma_integer_keys();
        lemma_pair_key::<u32, u16>();
    }

    fn ip(self) -> (ip: IpAddress) {
        IpAddress::Ipv4(self)
    }

    fn from_ip(ip: IpAddress) -> (address: Option<Ipv4Address>) {
        match ip {
            IpAddress::Ipv4(address) => Some(address),
            IpAddress::Ipv6(_) => None,
        }
    }

    fn remote_key(self) -> (key: u32) {
        self.0
    }

    fn copy_key(key: &u32) -> (copy: u32) {
        *key
    }

    fn local() -> (address: Ipv4Address) {
        Ipv4Address::localhost()
    }
}

impl AddressFamily for Ipv6Address {
    type RemoteAddressKey = (u64, u64);

    open spec fn spec_ip(self) -> IpAddress {
        IpAddress::Ipv6(self)
    }

    open spec fn spec_from_ip(ip: IpAddress) -> Option<Ipv6Address> {
        match ip {
            IpAddress::Ipv4(_) => None,
            IpAddress::Ipv6(address) => Some(address),
        }
    }

    open spec fn spec_remote_key(self) -> (u64, u64) {
        (self.high, self.low)
    }

    open spec fn spec_local() -> Ipv6Address {
        Ipv6Address::spec_localhost()
    }

    proof fn lemma_family() {
        lemma_integer_keys();
        lemma_pair_key::<u64, u64>();
        lemma_pair_key::<(u64, u64), u16>();
    }

    fn ip(self) -> (ip: IpAddress) {
        IpAddress::Ipv6(self)
    }

    fn from_ip(ip: IpAddress) -> (address: Option<Ipv6Address>) {
        match ip {
            IpAddress::Ipv4(_) => None,
            IpAddress::Ipv6(address) => Some(address),
        }
    }

    fn remote_key(self) -> (key: (u64, u64)) {
        (self.high, self.low)
    }

    fn copy_key(key: &(u64, u64)) -> (copy: (u64, u64)) {
        (key.0, key.1)
    }

    fn local() -> (address: Ipv6Address) {
        Ipv6Address::localhost()
    }
}

/// One cached connection generation.
///
/// `instance_id` tells generations apart that reuse one tuple; zero is no instance.
#[derive(Debug)]
pub struct Connection<A> {
    pub protocol: IpProtocol,
    pub local_address: A,
    pub local_port: u16,
    pub remote_address: A,
    pub remote_port: u16,
    pub verdict: Verdict,
    pub process_id: u64,
    pub direction: Direction,
    /// Endpoint closure or flow deletion ends this connection. Without it only
    /// inactivity or the closure of its local endpoint does.
    pub native_lifecycle: bool,
    pub last_accessed_time: u64,
    pub end_time: Option<u64>,
    pub instance_id: u64,
}

impl<A: Copy> Clone for Connection<A> {
    fn clone(&self) -> (copy: Self)
        ensures
            copy == *self,
    {
        *self
    }
}

impl<A: Copy> Copy for Connection<A> {

}

pub type ConnectionV4 = Connection<Ipv4Address>;

pub type ConnectionV6 = Connection<Ipv6Address>;

impl<A: AddressFamily> Connection<A> {
    /// The connection's five-tuple.
    pub open spec fn spec_key(self) -> Key {
        Key {
            protocol: self.protocol,
            local_address: self.local_address.spec_ip(),
            local_port: self.local_port,
            remote_address: self.remote_address.spec_ip(),
            remote_port: self.remote_port,
        }
    }

    /// The connection has not ended.
    pub open spec fn live(self) -> bool {
        self.end_time is None
    }

    /// The connection's addresses and remote port are those of `key`.
    pub open spec fn spec_remote_equals(self, key: Key) -> bool {
        &&& self.local_address.spec_ip() == key.local_address
        &&& self.remote_address.spec_ip() == key.remote_address
        &&& self.remote_port == key.remote_port
    }

    /// `key` is what a packet from this connection's redirect target carries.
    pub open spec fn spec_redirect_equals(self, key: Key) -> bool {
        match self.verdict {
            Verdict::RedirectNameServer => key.remote_port == PM_DNS_PORT
                && key.remote_address.loopback(),
            Verdict::RedirectTunnel => key.remote_port == PM_SPN_PORT && key.local_address
                == key.remote_address,
            Verdict::RedirectSplitTunnel => key.remote_port == PM_SPLIT_TUN_PORT
                && key.local_address == key.remote_address,
            _ => false,
        }
    }

    /// How packets of this connection are rewritten, if its verdict redirects them.
    pub open spec fn spec_redirect_info(self) -> Option<RedirectInfo> {
        let base = RedirectInfo {
            local_address: self.local_address.spec_ip(),
            remote_address: self.remote_address.spec_ip(),
            remote_port: self.remote_port,
            redirect_port: PM_DNS_PORT,
            unify: false,
            redirect_address: A::spec_local().spec_ip(),
        };
        match self.verdict {
            Verdict::RedirectNameServer => Some(base),
            Verdict::RedirectTunnel => Some(
                RedirectInfo {
                    redirect_port: PM_SPN_PORT,
                    unify: true,
                    redirect_address: self.local_address.spec_ip(),
                    ..base
                },
            ),
            Verdict::RedirectSplitTunnel => Some(
                RedirectInfo {
                    redirect_port: PM_SPLIT_TUN_PORT,
                    unify: true,
                    redirect_address: self.local_address.spec_ip(),
                    ..base
                },
            ),
            _ => None,
        }
    }

    /// The connection ended at `time`.
    pub open spec fn spec_ended(self, time: u64) -> Connection<A> {
        Connection { end_time: Some(time), ..self }
    }

    /// Only packet activity keeps this connection alive.
    pub open spec fn activity_bound(self) -> bool {
        self.live() && !self.native_lifecycle && self.direction is Outbound
    }

    /// The connection after packet activity at `now`.
    pub open spec fn spec_refreshed(self, now: u64) -> Connection<A> {
        if self.activity_bound() {
            Connection { last_accessed_time: now, ..self }
        } else {
            self
        }
    }

    /// A new live, undecided connection.
    pub open spec fn spec_new(
        key: Key,
        process_id: u64,
        direction: Direction,
        native_lifecycle: bool,
        instance_id: u64,
        now: u64,
    ) -> Option<Connection<A>> {
        match (A::spec_from_ip(key.local_address), A::spec_from_ip(key.remote_address)) {
            (Some(local_address), Some(remote_address)) => Some(
                Connection {
                    protocol: key.protocol,
                    local_address,
                    local_port: key.local_port,
                    remote_address,
                    remote_port: key.remote_port,
                    verdict: Verdict::Undecided,
                    process_id,
                    direction,
                    native_lifecycle,
                    last_accessed_time: now,
                    end_time: None,
                    instance_id,
                },
            ),
            _ => None,
        }
    }

    fn build(
        key: &Key,
        process_id: u64,
        direction: Direction,
        native_lifecycle: bool,
        instance_id: u64,
        now: u64,
    ) -> (connection: Result<Connection<A>, ConnectionError>)
        ensures
            match connection {
                Ok(c) => Self::spec_new(
                    *key,
                    process_id,
                    direction,
                    native_lifecycle,
                    instance_id,
                    now,
                ) == Some(c),
                Err(e) => e == ConnectionError::AddressFamily && Self::spec_new(
                    *key,
                    process_id,
                    direction,
                    native_lifecycle,
                    instance_id,
                    now,
                ) is None,
            },
    {
        match (A::from_ip(key.local_address), A::from_ip(key.remote_address)) {
            (Some(local_address), Some(remote_address)) => Ok(
                Connection {
                    protocol: key.protocol,
                    local_address,
                    local_port: key.local_port,
                    remote_address,
                    remote_port: key.remote_port,
                    verdict: Verdict::Undecided,
                    process_id,
                    direction,
                    native_lifecycle,
                    last_accessed_time: now,
                    end_time: None,
                    instance_id,
                },
            ),
            _ => Err(ConnectionError::AddressFamily),
        }
    }

    /// Builds a live connection whose end a native lifecycle event will report.
    pub fn from_key(
        key: &Key,
        process_id: u64,
        direction: Direction,
        instance_id: u64,
        now: u64,
    ) -> (connection: Result<Connection<A>, ConnectionError>)
        ensures
            match connection {
                Ok(c) => Self::spec_new(*key, process_id, direction, true, instance_id, now)
                    == Some(c),
                Err(e) => e == ConnectionError::AddressFamily && Self::spec_new(
                    *key,
                    process_id,
                    direction,
                    true,
                    instance_id,
                    now,
                ) is None,
            },
    {
        Self::build(key, process_id, direction, true, instance_id, now)
    }

    /// Builds a live connection without native lifecycle identity.
    pub fn from_untracked_key(
        key: &Key,
        process_id: u64,
        direction: Direction,
        instance_id: u64,
        now: u64,
    ) -> (connection: Result<Connection<A>, ConnectionError>)
        ensures
            match connection {
                Ok(c) => Self::spec_new(*key, process_id, direction, false, instance_id, now)
                    == Some(c),
                Err(e) => e == ConnectionError::AddressFamily && Self::spec_new(
                    *key,
                    process_id,
                    direction,
                    false,
                    instance_id,
                    now,
                ) is None,
            },
    {
        Self::build(key, process_id, direction, false, instance_id, now)
    }

    /// Returns the connection's five-tuple.
    pub fn get_key(&self) -> (key: Key)
        ensures
            key == self.spec_key(),
    {
        Key {
            protocol: self.protocol,
            local_address: self.local_address.ip(),
            local_port: self.local_port,
            remote_address: self.remote_address.ip(),
            remote_port: self.remote_port,
        }
    }

    /// Returns the cache-instance ID.
    pub fn get_instance_id(&self) -> (id: u64)
        ensures
            id == self.instance_id,
    {
        self.instance_id
    }

    /// Whether the connection has ended.
    pub fn has_ended(&self) -> (r: bool)
        ensures
            r == !self.live(),
    {
        self.end_time.is_some()
    }

    /// Whether a native lifecycle event will report the connection's end.
    pub fn has_native_lifecycle(&self) -> (r: bool)
        ensures
            r == self.native_lifecycle,
    {
        self.native_lifecycle
    }

    /// Binds the connection to native endpoint or flow lifetime.
    pub fn mark_native_lifecycle(&mut self)
        ensures
            *final(self) == (Connection { native_lifecycle: true, ..*old(self) }),
    {
        self.native_lifecycle = true;
    }

    /// Records packet activity.
    pub fn set_last_accessed_time(&mut self, time: u64)
        ensures
            *final(self) == (Connection { last_accessed_time: time, ..*old(self) }),
    {
        self.last_accessed_time = time;
    }

    /// Ends the connection.
    pub fn end(&mut self, time: u64)
        ensures
            *final(self) == old(self).spec_ended(time),
    {
        self.end_time = Some(time);
    }

    /// Whether the connection's addresses and remote port are those of `key`.
    pub fn remote_equals(&self, key: &Key) -> (r: bool)
        ensures
            r == self.spec_remote_equals(*key),
    {
        self.remote_port == key.remote_port && self.remote_address.ip() == key.remote_address
            && self.local_address.ip() == key.local_address
    }

    /// Whether `key` is what a packet from this connection's redirect target carries.
    pub fn redirect_equals(&self, key: &Key) -> (r: bool)
        ensures
            r == self.spec_redirect_equals(*key),
    {
        match self.verdict {
            Verdict::RedirectNameServer => key.remote_port == PM_DNS_PORT
                && key.remote_address.is_loopback(),
            Verdict::RedirectTunnel => key.remote_port == PM_SPN_PORT && key.local_address
                == key.remote_address,
            Verdict::RedirectSplitTunnel => key.remote_port == PM_SPLIT_TUN_PORT
                && key.local_address == key.remote_address,
            _ => false,
        }
    }

    /// How packets of this connection are rewritten, if its verdict redirects them.
    pub fn redirect_info(&self) -> (info: Option<RedirectInfo>)
        ensures
            info == self.spec_redirect_info(),
    {
        match self.verdict {
            Verdict::RedirectNameServer => Some(
                RedirectInfo {
                    local_address: self.local_address.ip(),
                    remote_address: self.remote_address.ip(),
                    remote_port: self.remote_port,
                    redirect_port: PM_DNS_PORT,
                    unify: false,
                    redirect_address: A::local().ip(),
                },
            ),
            Verdict::RedirectTunnel => Some(
                RedirectInfo {
                    local_address: self.local_address.ip(),
                    remote_address: self.remote_address.ip(),
                    remote_port: self.remote_port,
                    redirect_port: PM_SPN_PORT,
                    unify: true,
                    redirect_address: self.local_address.ip(),
                },
            ),
            Verdict::RedirectSplitTunnel => Some(
                RedirectInfo {
                    local_address: self.local_address.ip(),
                    remote_address: self.remote_address.ip(),
                    remote_port: self.remote_port,
                    redirect_port: PM_SPLIT_TUN_PORT,
                    unify: true,
                    redirect_address: self.local_address.ip(),
                },
            ),
            _ => None,
        }
    }

    /// Refreshes the only connections whose lifetime depends on packet activity.
    ///
    /// Native state retires tracked connections and inbound fallbacks wait for
    /// endpoint closure, so a timestamp could affect neither.
    pub fn refresh_activity(&mut self, now: u64)
        ensures
            *final(self) == old(self).spec_refreshed(now),
    {
        if self.end_time.is_none() && !self.native_lifecycle && self.direction
            == Direction::Outbound {
            self.last_accessed_time = now;
        }
    }
}

/// A redirected connection's rewritten packets are recognised by `redirect_equals`:
/// what comes back from the redirect target carries a redirect port.
pub proof fn redirect_matches_only_redirect_ports<A: AddressFamily>(
    connection: Connection<A>,
    key: Key,
)
    ensures
        connection.spec_redirect_equals(key) ==> spec_is_redirect_port(key.remote_port)
            && connection.verdict.spec_is_redirect(),
        connection.spec_redirect_info() is Some <==> connection.verdict.spec_is_redirect(),
{
}

/// The tuple that a reply from the redirect target carries is one that its
/// connection's `redirect_equals` accepts. A reply to a packet that was returned to its
/// sender comes from the address that it goes to; any other comes from the redirect address,
/// whatever the source of the packet was rewritten to.
pub proof fn redirect_target_is_recognised<A: AddressFamily>(
    connection: Connection<A>,
    reply: Key,
)
    requires
        connection.spec_redirect_info() matches Some(info) && reply.remote_port
            == info.redirect_port && reply.remote_address == if info.unify {
            reply.local_address
        } else {
            info.redirect_address
        },
    ensures
        connection.spec_redirect_equals(reply),
{
    A::lemma_family();
}

} // verus!

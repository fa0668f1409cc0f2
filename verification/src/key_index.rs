//! Tuples as ordered integers.
//!
//! A B-tree orders integers the way its callers expect. These indexes order tuples by
//! protocol, local address, local port, remote address and remote port, with IPv4
//! before IPv6.

use crate::ip::{protocol_rank_is_injective, IpAddress};
use crate::key::Key;
use crate::ordered::{lawful_key, lemma_integer_keys, lemma_pair_key};
use vstd::prelude::*;

verus! {

/// An address in address order.
pub type AddressIndex = (u16, (u64, u64));

/// A tuple in tuple order.
pub type KeyIndex = (u16, (AddressIndex, (u16, (AddressIndex, u16))));

/// An optional handle: absent before present.
pub type HandleIndex = (u16, u64);

/// The index of an address.
pub open spec fn address_index(address: IpAddress) -> AddressIndex {
    match address {
        IpAddress::Ipv4(ip) => (0, (0, ip.0 as u64)),
        IpAddress::Ipv6(ip) => (1, (ip.high, ip.low)),
    }
}

/// The index of a tuple.
pub open spec fn key_index(key: Key) -> KeyIndex {
    (
        key.protocol.spec_rank(),
        (
            address_index(key.local_address),
            (key.local_port, (address_index(key.remote_address), key.remote_port)),
        ),
    )
}

/// The index of an optional handle.
pub open spec fn handle_index(handle: Option<u64>) -> HandleIndex {
    match handle {
        Some(handle) => (1, handle),
        None => (0, 0),
    }
}

/// Indexes tell tuples and handles apart.
pub proof fn indexes_are_injective(a: Key, b: Key, x: Option<u64>, y: Option<u64>)
    ensures
        key_index(a) == key_index(b) ==> a == b,
        handle_index(x) == handle_index(y) ==> x == y,
{
    protocol_rank_is_injective(a.protocol, b.protocol);
}

/// Indexes are totally ordered.
pub proof fn lemma_index_order()
    ensures
        lawful_key::<KeyIndex>(),
        lawful_key::<HandleIndex>(),
        lawful_key::<(KeyIndex, HandleIndex)>(),
        lawful_key::<((KeyIndex, HandleIndex), u64)>(),
{
    lemma_integer_keys();
    lemma_pair_key::<u64, u64>();
    lemma_pair_key::<u16, (u64, u64)>();
    lemma_pair_key::<AddressIndex, u16>();
    lemma_pair_key::<u16, (AddressIndex, u16)>();
    lemma_pair_key::<AddressIndex, (u16, (AddressIndex, u16))>();
    lemma_pair_key::<u16, (AddressIndex, (u16, (AddressIndex, u16)))>();
    lemma_pair_key::<u16, u64>();
    lemma_pair_key::<KeyIndex, HandleIndex>();
    lemma_pair_key::<(KeyIndex, HandleIndex), u64>();
}

fn index_address(address: IpAddress) -> (index: AddressIndex)
    ensures
        index == address_index(address),
{
    match address {
        IpAddress::Ipv4(ip) => (0, (0, ip.0 as u64)),
        IpAddress::Ipv6(ip) => (1, (ip.high, ip.low)),
    }
}

/// Returns the index of a tuple.
pub fn index_key(key: &Key) -> (index: KeyIndex)
    ensures
        index == key_index(*key),
{
    (
        key.protocol.rank(),
        (
            index_address(key.local_address),
            (key.local_port, (index_address(key.remote_address), key.remote_port)),
        ),
    )
}

/// Returns the index of an optional handle.
pub fn index_handle(handle: Option<u64>) -> (index: HandleIndex)
    ensures
        index == handle_index(handle),
{
    match handle {
        Some(handle) => (1, handle),
        None => (0, 0),
    }
}

} // verus!

//! Tracks driver-owned contexts associated with UDP ALE flows.
//!
//! WFP owns each context after `FwpsFlowAssociateContext0` succeeds and returns it
//! through flowDeleteFn when the flow expires. The registration tuple is retained
//! separately so periodic lifecycle reconciliation and driver unload can
//! explicitly remove outstanding contexts without terminating their underlying
//! network flows.

use crate::id_cache::copy_id;
use crate::ordered::{get_mut, lawful_key, lemma_integer_keys, ordered_keys, sorted_keys};
use std::collections::BTreeMap;
use vstd::prelude::*;

verus! {

/// One flow context and who owns it.
#[derive(Clone, Copy, Debug, PartialEq, Eq, Structural)]
pub struct UdpFlowRegistration {
    pub flow_context: u64,
    pub flow_id: u64,
    pub layer_id: u16,
    pub callout_id: u32,
    pub connection_instance_id: u64,
    /// WFP owns the context.
    pub associated: bool,
    /// WFP was asked to return the context.
    pub removal_requested: bool,
}

impl UdpFlowRegistration {
    /// Creates a registration that no context belongs to yet.
    pub fn new(flow_id: u64, layer_id: u16, callout_id: u32, connection_instance_id: u64) -> (
    registration: Self)
        ensures
            registration == (UdpFlowRegistration {
                flow_context: 0,
                flow_id,
                layer_id,
                callout_id,
                connection_instance_id,
                associated: false,
                removal_requested: false,
            }),
    {
        UdpFlowRegistration {
            flow_context: 0,
            flow_id,
            layer_id,
            callout_id,
            connection_instance_id,
            associated: false,
            removal_requested: false,
        }
    }
}

/// WFP owns the context and was not asked to return it.
pub open spec fn removable(registration: UdpFlowRegistration) -> bool {
    registration.associated && !registration.removal_requested
}

/// The registration after its removal was requested.
pub open spec fn requested(registration: UdpFlowRegistration) -> UdpFlowRegistration {
    UdpFlowRegistration { removal_requested: true, ..registration }
}

/// The registrations by context.
pub type Registrations = Map<u64, UdpFlowRegistration>;

/// The registration that a context and connection instance name together.
pub open spec fn named(
    registrations: Registrations,
    flow_context: u64,
    connection_instance_id: u64,
) -> bool {
    flow_context != 0 && connection_instance_id != 0 && registrations.contains_key(flow_context)
        && registrations[flow_context].connection_instance_id == connection_instance_id
}

/// The registrations among some contexts that WFP can be asked for, in order.
pub open spec fn removables(contexts: Seq<u64>, registrations: Registrations) -> Seq<
    UdpFlowRegistration,
>
    decreases contexts.len(),
{
    if contexts.len() == 0 {
        Seq::empty()
    } else {
        let rest = removables(contexts.drop_last(), registrations);
        let registration = registrations[contexts.last()];
        if removable(registration) {
            rest.push(registration)
        } else {
            rest
        }
    }
}

/// Every registration carries its context and a connection instance.
pub open spec fn registrations_wf(registrations: Registrations) -> bool {
    forall|c: u64| #[trigger]
        registrations.contains_key(c) ==> c != 0 && registrations[c].flow_context == c
            && registrations[c].connection_instance_id != 0
}

/// Contexts owned by WFP and callbacks that return them.
pub struct UdpFlowCache {
    registrations: BTreeMap<u64, UdpFlowRegistration>,
    callbacks_in_progress: usize,
    shutting_down: bool,
}

impl UdpFlowCache {
    /// The registrations by context.
    pub closed spec fn view(&self) -> Registrations {
        self.registrations@
    }

    /// Number of callbacks that have claimed a context and not finished.
    pub closed spec fn callbacks(&self) -> usize {
        self.callbacks_in_progress
    }

    /// No new registration is accepted.
    pub closed spec fn closing(&self) -> bool {
        self.shutting_down
    }

    /// Every registration carries its context and a connection instance.
    pub open spec fn wf(&self) -> bool {
        registrations_wf(self@)
    }

    /// Creates an empty cache.
    pub fn new() -> (cache: Self)
        ensures
            cache.wf(),
            cache@ == Registrations::empty(),
            cache.callbacks() == 0,
            !cache.closing(),
    {
        UdpFlowCache {
            registrations: BTreeMap::new(),
            callbacks_in_progress: 0,
            shutting_down: false,
        }
    }

    /// Records a context before it is exposed to WFP.
    ///
    /// Returns false once unload has started or if the pointer/connection instance
    /// is invalid or already registered. A false result leaves ownership with the
    /// caller.
    pub fn register(&mut self, flow_context: u64, registration: UdpFlowRegistration) -> (accepted:
        bool)
        requires
            old(self).wf(),
        ensures
            final(self).wf(),
            final(self).callbacks() == old(self).callbacks(),
            final(self).closing() == old(self).closing(),
            accepted == (flow_context != 0 && registration.connection_instance_id != 0 && !old(
                self
            ).closing() && !old(self)@.contains_key(flow_context)),
            final(self)@ == if accepted {
                old(self)@.insert(
                    flow_context,
                    UdpFlowRegistration {
                        flow_context,
                        associated: false,
                        removal_requested: false,
                        ..registration
                    },
                )
            } else {
                old(self)@
            },
    {
        proof {
            lemma_integer_keys();
        }
        if flow_context == 0 || registration.connection_instance_id == 0 {
            return false;
        }
        if self.shutting_down || self.registrations.contains_key(&flow_context) {
            return false;
        }
        self.registrations.insert(
            flow_context,
            UdpFlowRegistration {
                flow_context,
                associated: false,
                removal_requested: false,
                ..registration
            },
        );
        true
    }

    /// Marks a registration after WFP accepted ownership of its context. False
    /// means flowDeleteFn already claimed it while `FwpsFlowAssociateContext0` was
    /// returning, or the allocation address has since been reused.
    pub fn mark_associated(&mut self, flow_context: u64, connection_instance_id: u64) -> (marked:
        bool)
        requires
            old(self).wf(),
        ensures
            final(self).wf(),
            final(self).callbacks() == old(self).callbacks(),
            final(self).closing() == old(self).closing(),
            marked == named(old(self)@, flow_context, connection_instance_id),
            final(self)@ == if marked {
                old(self)@.insert(
                    flow_context,
                    UdpFlowRegistration { associated: true, ..old(self)@[flow_context] },
                )
            } else {
                old(self)@
            },
    {
        proof {
            lemma_integer_keys();
        }
        if flow_context == 0 || connection_instance_id == 0 {
            return false;
        }
        let ghost before = self@;
        let mut marked: bool = false;
        if let Some(registration) = get_mut(&mut self.registrations, &flow_context) {
            if registration.connection_instance_id == connection_instance_id {
                registration.associated = true;
                marked = true;
            }
        }
        proof {
            if !marked {
                assert(self@ =~= before);
            }
        }
        marked
    }

    /// Cancels a registration after `FwpsFlowAssociateContext0` failed. WFP never
    /// owned the context in this case, so flowDeleteFn cannot race this removal.
    /// The instance check prevents an ABA pointer reuse from reclaiming a newer
    /// registration at the same allocation address.
    pub fn cancel_registration(&mut self, flow_context: u64, connection_instance_id: u64) -> (
    cancelled: bool)
        requires
            old(self).wf(),
        ensures
            final(self).wf(),
            final(self).callbacks() == old(self).callbacks(),
            final(self).closing() == old(self).closing(),
            cancelled == named(old(self)@, flow_context, connection_instance_id),
            final(self)@ == if cancelled {
                old(self)@.remove(flow_context)
            } else {
                old(self)@
            },
    {
        proof {
            lemma_integer_keys();
        }
        if flow_context == 0 || connection_instance_id == 0 {
            return false;
        }
        let matches: bool = match self.registrations.get(&flow_context) {
            Some(registration) => registration.connection_instance_id == connection_instance_id,
            None => false,
        };
        if matches {
            self.registrations.remove(&flow_context);
        }
        matches
    }

    /// Claims a callback and returns whether it only needs to reclaim the context.
    ///
    /// Removing the record before doing callback work makes the record an explicit
    /// in-flight count: unload cannot drop `Device` until `finish_callback` runs.
    /// Cleanup-requested callbacks skip connection and endpoint mutation because
    /// those cache instances were already found stale. `None` means a duplicate or
    /// unknown callback whose pointer has already been reclaimed.
    /// The layer/callout check rejects a delayed callback for an older context if
    /// the allocator has reused the same address for a different registration.
    pub fn begin_callback(&mut self, flow_context: u64, layer_id: u16, callout_id: u32) -> (
    reclaim_only: Option<bool>)
        requires
            old(self).wf(),
        ensures
            final(self).wf(),
            final(self).closing() == old(self).closing(),
            ({
                let registration = old(self)@[flow_context];
                let claimed = old(self)@.contains_key(flow_context) && registration.layer_id
                    == layer_id && registration.callout_id == callout_id;
                &&& reclaim_only == if claimed {
                    Some(old(self).closing() || registration.removal_requested)
                } else {
                    None
                }
                &&& final(self)@ == if claimed {
                    old(self)@.remove(flow_context)
                } else {
                    old(self)@
                }
                &&& final(self).callbacks() == if claimed && old(self).callbacks() < usize::MAX {
                    (old(self).callbacks() + 1) as usize
                } else {
                    old(self).callbacks()
                }
            }),
    {
        proof {
            lemma_integer_keys();
        }
        let removal_requested: bool = match self.registrations.get(&flow_context) {
            Some(registration) => {
                if registration.layer_id != layer_id || registration.callout_id != callout_id {
                    return None;
                }
                registration.removal_requested
            },
            None => {
                return None;
            },
        };
        self.registrations.remove(&flow_context);
        self.callbacks_in_progress = self.callbacks_in_progress.saturating_add(1);
        Some(self.shutting_down || removal_requested)
    }

    /// Ends the work of one callback.
    pub fn finish_callback(&mut self)
        requires
            old(self).wf(),
        ensures
            final(self).wf(),
            final(self)@ == old(self)@,
            final(self).closing() == old(self).closing(),
            final(self).callbacks() == if old(self).callbacks() > 0 {
                (old(self).callbacks() - 1) as usize
            } else {
                0
            },
    {
        self.callbacks_in_progress = self.callbacks_in_progress.saturating_sub(1);
    }

    /// Returns associated contexts that periodic cleanup may consider removing, with
    /// their connection instances, in context order.
    ///
    /// Taking this snapshot does not claim anything. The caller first compares the
    /// connection instance IDs with a later live-connection snapshot, then uses
    /// `claim_removal` to resolve races with flowDeleteFn and other cleanup paths.
    pub fn removal_candidates(&self) -> (candidates: Vec<(u64, u64)>)
        ensures
            candidates@ == removables(ordered_keys(self@.dom()), self@).map_values(
                |r: UdpFlowRegistration| (r.flow_context, r.connection_instance_id),
            ),
    {
        proof {
            lemma_integer_keys();
        }
        let keys: Vec<u64> = sorted_keys(&self.registrations, copy_id);
        let count: usize = keys.len();
        let mut candidates: Vec<(u64, u64)> = Vec::new();
        let mut k: usize = 0;
        assert(candidates@ =~= removables(keys@.take(0), self@).map_values(
            |r: UdpFlowRegistration| (r.flow_context, r.connection_instance_id),
        ));
        while k < count
            invariant
                k <= count == keys@.len(),
                lawful_key::<u64>(),
                keys@.to_set() == self.registrations@.dom(),
                candidates@ == removables(keys@.take(k as int), self@).map_values(
                    |r: UdpFlowRegistration| (r.flow_context, r.connection_instance_id),
                ),
            decreases count - k,
        {
            assert(keys@.to_set().contains(keys@[k as int]));
            assert(keys@.take(k + 1).drop_last() =~= keys@.take(k as int));
            if let Some(registration) = self.registrations.get(&keys[k]) {
                if registration.associated && !registration.removal_requested {
                    candidates.push(
                        (registration.flow_context, registration.connection_instance_id),
                    );
                }
            }
            k = k + 1;
            assert(candidates@ =~= removables(keys@.take(k as int), self@).map_values(
                |r: UdpFlowRegistration| (r.flow_context, r.connection_instance_id),
            ));
        }
        assert(keys@.take(count as int) =~= keys@);
        candidates
    }

    /// Claims one context for `FwpsFlowRemoveContext0`. The instance check prevents a
    /// stale cleanup snapshot from claiming a newly allocated context whose pointer
    /// was reused by the allocator.
    pub fn claim_removal(&mut self, flow_context: u64, connection_instance_id: u64) -> (claimed:
        Option<UdpFlowRegistration>)
        requires
            old(self).wf(),
        ensures
            final(self).wf(),
            final(self).callbacks() == old(self).callbacks(),
            final(self).closing() == old(self).closing(),
            if named(old(self)@, flow_context, connection_instance_id) && removable(
                old(self)@[flow_context],
            ) {
                let registration = requested(old(self)@[flow_context]);
                claimed == Some(registration) && final(self)@ == old(self)@.insert(
                    flow_context,
                    registration,
                )
            } else {
                claimed is None && final(self)@ == old(self)@
            },
    {
        proof {
            lemma_integer_keys();
        }
        if flow_context == 0 || connection_instance_id == 0 {
            return None;
        }
        let ghost before = self@;
        let mut claimed: Option<UdpFlowRegistration> = None;
        if let Some(registration) = get_mut(&mut self.registrations, &flow_context) {
            if registration.connection_instance_id == connection_instance_id
                && registration.associated && !registration.removal_requested {
                registration.removal_requested = true;
                claimed = Some(*registration);
            }
        }
        proof {
            if claimed is None {
                assert(self@ =~= before);
            }
        }
        claimed
    }

    /// Prevents new associations before driver unload removes the outstanding ones.
    pub fn start_shutdown(&mut self)
        requires
            old(self).wf(),
        ensures
            final(self).wf(),
            final(self)@ == old(self)@,
            final(self).callbacks() == old(self).callbacks(),
            final(self).closing(),
    {
        self.shutting_down = true;
    }

    /// Returns the registrations still owned by WFP and marks each as requested.
    /// A record is yielded once; it remains in the map until flowDeleteFn claims it.
    pub fn pending_removals(&mut self) -> (pending: Vec<UdpFlowRegistration>)
        requires
            old(self).wf(),
        ensures
            final(self).wf(),
            final(self).callbacks() == old(self).callbacks(),
            final(self).closing() == old(self).closing(),
            pending@ == removables(ordered_keys(old(self)@.dom()), old(self)@).map_values(
                |r: UdpFlowRegistration| requested(r),
            ),
            final(self)@ == old(self)@.map_values(
                |r: UdpFlowRegistration|
                    if removable(r) {
                        requested(r)
                    } else {
                        r
                    },
            ),
    {
        proof {
            lemma_integer_keys();
        }
        let ghost before = self@;
        let keys: Vec<u64> = sorted_keys(&self.registrations, copy_id);
        let count: usize = keys.len();
        let mut pending: Vec<UdpFlowRegistration> = Vec::new();
        let mut k: usize = 0;
        assert(pending@ =~= removables(keys@.take(0), before).map_values(
            |r: UdpFlowRegistration| requested(r),
        ));
        while k < count
            invariant
                k <= count == keys@.len(),
                lawful_key::<u64>(),
                keys@.no_duplicates(),
                keys@.to_set() == before.dom(),
                self@.dom() == before.dom(),
                self.callbacks() == old(self).callbacks(),
                self.closing() == old(self).closing(),
                forall|m: int|
                    0 <= m < k ==> self@[#[trigger] keys@[m]] == if removable(before[keys@[m]]) {
                        requested(before[keys@[m]])
                    } else {
                        before[keys@[m]]
                    },
                forall|m: int| k <= m < count ==> self@[#[trigger] keys@[m]] == before[keys@[m]],
                pending@ == removables(keys@.take(k as int), before).map_values(
                    |r: UdpFlowRegistration| requested(r),
                ),
            decreases count - k,
        {
            let ghost current = self@;
            proof {
                assert(keys@.to_set().contains(keys@[k as int]));
                assert(current.contains_key(keys@[k as int]));
                assert(keys@.take(k + 1).drop_last() =~= keys@.take(k as int));
            }
            if let Some(registration) = get_mut(&mut self.registrations, &keys[k]) {
                if registration.associated && !registration.removal_requested {
                    registration.removal_requested = true;
                    let copy: UdpFlowRegistration = *registration;
                    pending.push(copy);
                }
            }
            k = k + 1;
            proof {
                assert(self@.dom() =~= before.dom());
                assert forall|m: int| k <= m < count implies self@[#[trigger] keys@[m]]
                    == before[keys@[m]] by {
                    assert(keys@[m] != keys@[k - 1]);
                    assert(current[keys@[m]] == before[keys@[m]]);
                }
                assert forall|m: int| 0 <= m < k implies self@[#[trigger] keys@[m]] == (
                if removable(before[keys@[m]]) {
                    requested(before[keys@[m]])
                } else {
                    before[keys@[m]]
                }) by {
                    if m < k - 1 {
                        assert(keys@[m] != keys@[k - 1]);
                        assert(current[keys@[m]] == (if removable(before[keys@[m]]) {
                            requested(before[keys@[m]])
                        } else {
                            before[keys@[m]]
                        }));
                    }
                }
                assert(pending@ =~= removables(keys@.take(k as int), before).map_values(
                    |r: UdpFlowRegistration| requested(r),
                ));
            }
        }
        proof {
            assert(keys@.take(count as int) =~= keys@);
            assert forall|c: u64| #[trigger] before.contains_key(c) implies self@[c] == (
            if removable(before[c]) {
                requested(before[c])
            } else {
                before[c]
            }) by {
                assert(keys@.to_set().contains(c));
                let m = choose|m: int| 0 <= m < keys@.len() && keys@[m] == c;
                assert(keys@[m] == c);
            }
            assert(self@ =~= before.map_values(
                |r: UdpFlowRegistration|
                    if removable(r) {
                        requested(r)
                    } else {
                        r
                    },
            ));
        }
        pending
    }

    /// Makes a context claimable again after WFP refused to return it.
    pub fn retry_removal(&mut self, flow_context: u64, connection_instance_id: u64)
        requires
            old(self).wf(),
        ensures
            final(self).wf(),
            final(self).callbacks() == old(self).callbacks(),
            final(self).closing() == old(self).closing(),
            final(self)@ == if named(old(self)@, flow_context, connection_instance_id) {
                old(self)@.insert(
                    flow_context,
                    UdpFlowRegistration { removal_requested: false, ..old(self)@[flow_context] },
                )
            } else {
                old(self)@
            },
    {
        proof {
            lemma_integer_keys();
        }
        if flow_context == 0 || connection_instance_id == 0 {
            return;
        }
        let ghost before = self@;
        if let Some(registration) = get_mut(&mut self.registrations, &flow_context) {
            if registration.connection_instance_id == connection_instance_id {
                registration.removal_requested = false;
            }
        }
        proof {
            if !named(before, flow_context, connection_instance_id) {
                assert(self@ =~= before);
            }
        }
    }

    /// Whether no context and no callback is outstanding.
    pub fn is_drained(&self) -> (r: bool)
        ensures
            r == (self@.dom().len() == 0 && self.callbacks() == 0),
    {
        proof {
            lemma_integer_keys();
        }
        self.registrations.len() == 0 && self.callbacks_in_progress == 0
    }

    /// The registrations in context order.
    pub fn snapshot(&self) -> (registrations: Vec<UdpFlowRegistration>)
        ensures
            registrations@ == ordered_keys(self@.dom()).map_values(|c: u64| self@[c]),
    {
        proof {
            lemma_integer_keys();
        }
        let keys: Vec<u64> = sorted_keys(&self.registrations, copy_id);
        let count: usize = keys.len();
        let mut list: Vec<UdpFlowRegistration> = Vec::with_capacity(count);
        let mut k: usize = 0;
        while k < count
            invariant
                k <= count == keys@.len(),
                lawful_key::<u64>(),
                keys@.to_set() == self.registrations@.dom(),
                list@ == keys@.take(k as int).map_values(|c: u64| self@[c]),
            decreases count - k,
        {
            assert(keys@.to_set().contains(keys@[k as int]));
            if let Some(registration) = self.registrations.get(&keys[k]) {
                list.push(*registration);
            }
            k = k + 1;
            assert(list@ =~= keys@.take(k as int).map_values(|c: u64| self@[c]));
        }
        assert(keys@.take(count as int) =~= keys@);
        list
    }

    /// Number of callbacks that have claimed a context and not finished.
    pub fn callbacks_in_progress(&self) -> (n: usize)
        ensures
            n == self.callbacks(),
    {
        self.callbacks_in_progress
    }

    /// Number of registrations and of callbacks in progress.
    pub fn get_entries_counts(&self) -> (counts: (usize, usize))
        ensures
            counts.0 == self@.dom().len(),
            counts.1 == self.callbacks(),
    {
        proof {
            lemma_integer_keys();
        }
        (self.registrations.len(), self.callbacks_in_progress)
    }
}

/// A context is handed out for removal once: after a claim, or after the sweep at
/// unload, it is not removable until the removal is retried.
pub proof fn removal_is_claimed_once(registrations: Registrations, context: u64)
    ensures
        !removable(requested(registrations[context])),
        removable(registrations[context]) ==> removable(
            UdpFlowRegistration {
                removal_requested: false,
                ..requested(registrations[context])
            },
        ),
{
}

} // verus!

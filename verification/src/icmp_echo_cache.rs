//! Attribution of ICMP echo replies.
//!
//! An inbound echo reply has no process of its own, so it is matched against the
//! outbound request that caused it.

use crate::connection_map::lemma_filter_push;
use crate::ip::IpAddress;
use crate::lists::{lemma_filter_all, lemma_filter_source, lemma_filter_split};
use vstd::prelude::*;

verus! {

/// An echo request that was sent and not answered yet.
#[derive(Clone, Copy, Debug, PartialEq, Eq, Structural)]
pub struct EchoRequest {
    pub remote_address: IpAddress,
    pub identifier: u16,
    pub process_id: u64,
    pub sent_at_ms: u64,
}

/// The request belongs to a remote host and identifier.
pub open spec fn answers(request: EchoRequest, remote_address: IpAddress, identifier: u16) -> bool {
    request.remote_address == remote_address && request.identifier == identifier
}

/// The process that sent the request to a remote host with this identifier.
pub open spec fn sender(
    requests: Seq<EchoRequest>,
    remote_address: IpAddress,
    identifier: u16,
) -> Option<u64> {
    if exists|i: int|
        0 <= i < requests.len() && answers(#[trigger] requests[i], remote_address, identifier) {
        let i = choose|i: int|
            0 <= i < requests.len() && answers(#[trigger] requests[i], remote_address, identifier);
        Some(requests[i].process_id)
    } else {
        None
    }
}

/// The requests without those of a remote host and identifier.
pub open spec fn without_request(
    requests: Seq<EchoRequest>,
    remote_address: IpAddress,
    identifier: u16,
) -> Seq<EchoRequest> {
    requests.filter(|r: EchoRequest| !answers(r, remote_address, identifier))
}

/// The request was sent longer than `lifetime_ms` ago.
pub open spec fn expired(request: EchoRequest, now: u64, lifetime_ms: u64) -> bool {
    request.sent_at_ms + lifetime_ms < now
}

/// Echo requests in the order they were sent.
pub struct IcmpEchoCache {
    requests: Vec<EchoRequest>,
    lifetime_ms: u64,
}

impl IcmpEchoCache {
    /// The unanswered requests, oldest first.
    pub closed spec fn view(&self) -> Seq<EchoRequest> {
        self.requests@
    }

    /// How long a request is kept.
    pub closed spec fn lifetime(&self) -> u64 {
        self.lifetime_ms
    }

    /// No remote host and identifier occur twice.
    pub open spec fn wf(&self) -> bool {
        forall|i: int, j: int|
            0 <= i < j < self@.len() ==> !answers(
                #[trigger] self@[i],
                (#[trigger] self@[j]).remote_address,
                self@[j].identifier,
            )
    }

    /// Creates an empty cache whose requests expire after `lifetime_ms`.
    pub fn new(lifetime_ms: u64) -> (cache: Self)
        ensures
            cache.wf(),
            cache@ == Seq::<EchoRequest>::empty(),
            cache.lifetime() == lifetime_ms,
    {
        IcmpEchoCache { requests: Vec::new(), lifetime_ms }
    }

    /// Remembers the process that sent a request, in place of any earlier request with
    /// the same remote host and identifier.
    pub fn insert_request(
        &mut self,
        remote_address: IpAddress,
        identifier: u16,
        process_id: u64,
        now: u64,
    )
        requires
            old(self).wf(),
        ensures
            final(self).wf(),
            final(self).lifetime() == old(self).lifetime(),
            final(self)@ == without_request(old(self)@, remote_address, identifier).push(
                EchoRequest { remote_address, identifier, process_id, sent_at_ms: now },
            ),
    {
        let _ = self.take_request_pid(remote_address, identifier);
        let ghost kept = self@;
        proof {
            assert forall|i: int| 0 <= i < kept.len() implies !answers(
                #[trigger] kept[i],
                remote_address,
                identifier,
            ) by {
                lemma_filter_source(
                    old(self)@,
                    |r: EchoRequest| !answers(r, remote_address, identifier),
                    i,
                );
            }
        }
        self.requests.push(EchoRequest { remote_address, identifier, process_id, sent_at_ms: now });
    }

    /// Takes the process that sent the request which a reply answers.
    pub fn take_request_pid(&mut self, remote_address: IpAddress, identifier: u16) -> (process_id:
        Option<u64>)
        requires
            old(self).wf(),
        ensures
            final(self).wf(),
            final(self).lifetime() == old(self).lifetime(),
            final(self)@ == without_request(old(self)@, remote_address, identifier),
            process_id == sender(old(self)@, remote_address, identifier),
    {
        let ghost all = self@;
        let ghost keep = |r: EchoRequest| !answers(r, remote_address, identifier);
        let count: usize = self.requests.len();
        let mut n: usize = 0;
        while n < count
            invariant
                n <= count == self.requests@.len(),
                self.requests@ == all,
                self.lifetime_ms == old(self).lifetime_ms,
                all == old(self)@,
                old(self).wf(),
                keep == (|r: EchoRequest| !answers(r, remote_address, identifier)),
                forall|i: int|
                    0 <= i < n ==> !answers(#[trigger] all[i], remote_address, identifier),
            decreases count - n,
        {
            let request: EchoRequest = self.requests[n];
            if request.remote_address == remote_address && request.identifier == identifier {
                let ghost head = all.take(n as int);
                let ghost rest = all.skip(n + 1);
                self.requests.remove(n);
                proof {
                    lemma_filter_split(all, keep, n as int);
                    assert forall|i: int| 0 <= i < head.len() implies keep(#[trigger] head[i]) by {
                        assert(!answers(all[i], remote_address, identifier));
                    }
                    lemma_filter_all(head, keep);
                    assert forall|i: int| 0 <= i < rest.len() implies keep(#[trigger] rest[i]) by {
                        assert(!answers(
                            all[n as int],
                            all[n + 1 + i].remote_address,
                            all[n + 1 + i].identifier,
                        ));
                    }
                    lemma_filter_all(rest, keep);
                    assert(self@ =~= without_request(all, remote_address, identifier));
                    assert forall|i: int, j: int| 0 <= i < j < self@.len() implies !answers(
                        #[trigger] self@[i],
                        (#[trigger] self@[j]).remote_address,
                        self@[j].identifier,
                    ) by {
                        let a = if i < n {
                            i
                        } else {
                            i + 1
                        };
                        let b = if j < n {
                            j
                        } else {
                            j + 1
                        };
                        assert(self@[i] == all[a] && self@[j] == all[b]);
                    }
                    assert(answers(all[n as int], remote_address, identifier));
                    let k = choose|k: int|
                        0 <= k < all.len() && answers(
                            #[trigger] all[k],
                            remote_address,
                            identifier,
                        );
                    assert(!(n < k)) by {
                        if n < k {
                            assert(!answers(
                                all[n as int],
                                all[k].remote_address,
                                all[k].identifier,
                            ));
                        }
                    }
                }
                return Some(request.process_id);
            }
            n = n + 1;
        }
        proof {
            lemma_filter_all(all, keep);
        }
        None
    }

    /// Forgets requests that stayed unanswered for too long.
    pub fn clean_expired_entries(&mut self, now: u64)
        requires
            old(self).wf(),
        ensures
            final(self).wf(),
            final(self).lifetime() == old(self).lifetime(),
            final(self)@ == old(self)@.filter(
                |r: EchoRequest| !expired(r, now, old(self).lifetime()),
            ),
    {
        let ghost all = self@;
        let ghost keep = |r: EchoRequest| !expired(r, now, old(self).lifetime());
        let lifetime: u64 = self.lifetime_ms;
        let count: usize = self.requests.len();
        let mut kept: Vec<EchoRequest> = Vec::new();
        let mut n: usize = 0;
        proof {
            reveal(Seq::filter);
            assert(all.take(0).filter(keep) =~= Seq::empty());
        }
        while n < count
            invariant
                n <= count == self.requests@.len(),
                self.requests@ == all,
                lifetime == old(self).lifetime(),
                self.lifetime_ms == lifetime,
                keep == (|r: EchoRequest| !expired(r, now, old(self).lifetime())),
                kept@ == all.take(n as int).filter(keep),
            decreases count - n,
        {
            let request: EchoRequest = self.requests[n];
            proof {
                assert(all.take(n + 1) =~= all.take(n as int).push(request));
                lemma_filter_push(all.take(n as int), keep, request);
            }
            let overdue: bool = now >= lifetime && request.sent_at_ms < now - lifetime;
            if !overdue {
                kept.push(request);
            }
            n = n + 1;
        }
        proof {
            assert(all.take(count as int) =~= all);
            lemma_filter_keeps_distinct(all, keep);
        }
        self.requests = kept;
    }

    /// Number of unanswered requests.
    pub fn get_entries_count(&self) -> (n: usize)
        ensures
            n == self@.len(),
    {
        self.requests.len()
    }
}

spec fn distinct(s: Seq<EchoRequest>) -> bool {
    forall|i: int, j: int|
        0 <= i < j < s.len() ==> !answers(
            #[trigger] s[i],
            (#[trigger] s[j]).remote_address,
            s[j].identifier,
        )
}

proof fn lemma_filter_keeps_distinct(s: Seq<EchoRequest>, keep: spec_fn(EchoRequest) -> bool)
    requires
        distinct(s),
    ensures
        distinct(s.filter(keep)),
    decreases s.len(),
{
    reveal(Seq::filter);
    if s.len() > 0 {
        let rest = s.drop_last();
        assert(distinct(rest)) by {
            assert forall|i: int, j: int| 0 <= i < j < rest.len() implies !answers(
                #[trigger] rest[i],
                (#[trigger] rest[j]).remote_address,
                rest[j].identifier,
            ) by {
                assert(!answers(s[i], s[j].remote_address, s[j].identifier));
            }
        }
        lemma_filter_keeps_distinct(rest, keep);
        let kept = s.filter(keep);
        assert forall|i: int, j: int| 0 <= i < j < kept.len() implies !answers(
            #[trigger] kept[i],
            (#[trigger] kept[j]).remote_address,
            kept[j].identifier,
        ) by {
            let inner = rest.filter(keep);
            if j < inner.len() {
                assert(kept[i] == inner[i] && kept[j] == inner[j]);
            } else {
                lemma_filter_source(rest, keep, i);
                let k = choose|k: int| 0 <= k < rest.len() && rest[k] == inner[i] && keep(rest[k]);
                assert(kept[i] == s[k]);
                assert(kept[j] == s[s.len() - 1]);
                assert(!answers(s[k], s[s.len() - 1].remote_address, s[s.len() - 1].identifier));
            }
        }
    }
}

} // verus!

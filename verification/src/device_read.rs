//! Reading events as a byte stream.

use crate::device::{record_bytes, Device};
use crate::device_state::DeviceView;
use vstd::prelude::*;
use vstd::slice::slice_subrange;

verus! {

/// A read goes on to the next record only while more than a record header fits.
pub const RECORD_HEADER_LEN: usize = 5;

/// Some records one after the other.
pub open spec fn joined(records: Seq<Seq<u8>>) -> Seq<u8>
    decreases records.len(),
{
    if records.len() == 0 {
        Seq::empty()
    } else {
        records[0] + joined(records.drop_first())
    }
}

/// How many of some records a read with `free` bytes left starts.
pub open spec fn started(free: int, records: Seq<Seq<u8>>) -> int
    decreases records.len(),
{
    if records.len() == 0 || free <= RECORD_HEADER_LEN {
        0
    } else {
        1 + started(free - records[0].len(), records.drop_first())
    }
}

impl<H, C> DeviceView<H, C> {
    /// Everything that user space has still to read.
    pub open spec fn unread(self) -> Seq<u8> {
        match self.leftover {
            Some(bytes) => bytes + joined(self.events),
            None => joined(self.events),
        }
    }

    /// There is something to read.
    pub open spec fn readable(self) -> bool {
        self.leftover is Some || self.events.len() > 0
    }

    /// What a read starts with: the rest of the last record or the next record.
    pub open spec fn next_record(self) -> Seq<u8> {
        match self.leftover {
            Some(bytes) => bytes,
            None => self.events[0],
        }
    }

    /// The records behind that.
    pub open spec fn later_records(self) -> Seq<Seq<u8>> {
        match self.leftover {
            Some(_) => self.events,
            None => self.events.drop_first(),
        }
    }

    /// The records that a read starts, one after the other.
    pub open spec fn read_records(self, capacity: int) -> Seq<u8> {
        let later = self.later_records();
        let count = started(capacity - self.next_record().len(), later);
        self.next_record() + joined(later.take(count))
    }

    /// A read took as much as fits. What does not fit of the last record waits for the
    /// next read.
    pub open spec fn after_read(self, capacity: int) -> Self {
        let whole = self.read_records(capacity);
        let later = self.later_records();
        DeviceView {
            leftover: if whole.len() > capacity {
                Some(whole.skip(capacity))
            } else {
                None
            },
            events: later.skip(started(capacity - self.next_record().len(), later)),
            ..self
        }
    }

    /// The bytes that a read returns.
    pub open spec fn read_bytes(self, capacity: int) -> Seq<u8> {
        let whole = self.read_records(capacity);
        if whole.len() > capacity {
            whole.take(capacity)
        } else {
            whole
        }
    }
}

proof fn lemma_started(free: int, records: Seq<Seq<u8>>)
    ensures
        0 <= started(free, records) <= records.len(),
    decreases records.len(),
{
    if records.len() > 0 {
        lemma_started(free - records[0].len(), records.drop_first());
    }
}

proof fn lemma_joined_split(records: Seq<Seq<u8>>, n: int)
    requires
        0 <= n <= records.len(),
    ensures
        joined(records.take(n)) + joined(records.skip(n)) == joined(records),
    decreases n,
{
    if n > 0 {
        lemma_joined_split(records.drop_first(), n - 1);
        assert(records.take(n).drop_first() =~= records.drop_first().take(n - 1));
        assert(records.drop_first().skip(n - 1) =~= records.skip(n));
        assert(joined(records.take(n)) + joined(records.skip(n)) =~= joined(records));
    } else {
        assert(records.skip(0) =~= records);
        assert(joined(records.take(0)) =~= Seq::empty());
        assert(joined(records.take(0)) + joined(records) =~= joined(records));
    }
}

/// Reads take nothing away from the stream: what one read returns and what is left are
/// together what was there before, whatever the size of the read.
pub proof fn reads_keep_the_stream<H, C>(s: DeviceView<H, C>, capacity: int)
    requires
        s.readable(),
        0 <= capacity,
    ensures
        s.read_bytes(capacity) + s.after_read(capacity).unread() == s.unread(),
        s.read_bytes(capacity).len() <= capacity,
{
    let later = s.later_records();
    let free = capacity - s.next_record().len();
    let count = started(free, later);
    lemma_started(free, later);
    lemma_joined_split(later, count);
    let whole = s.read_records(capacity);
    assert(whole + joined(later.skip(count)) =~= s.next_record() + joined(later));
    assert(s.unread() =~= s.next_record() + joined(later));
    if whole.len() > capacity {
        assert(whole.take(capacity) + (whole.skip(capacity) + joined(later.skip(count)))
            =~= whole + joined(later.skip(count)));
    }
}

impl<H, C> Device<H, C> {
    /// Reads events into a buffer of `capacity` bytes, or returns nothing if there is none
    /// to read and the caller has to wait.
    pub fn read(&mut self, capacity: usize) -> (data: Option<Vec<u8>>)
        requires
            old(self).wf(),
        ensures
            final(self).wf(),
            match data {
                Some(bytes) => {
                    &&& old(self)@.readable()
                    &&& bytes@ == old(self)@.read_bytes(capacity as int)
                    &&& final(self)@ == old(self)@.after_read(capacity as int)
                },
                None => !old(self)@.readable() && final(self)@ == old(self)@,
            },
    {
        let ghost before = self@;
        let saved: Option<Vec<u8>> = self.read_stream.load();
        let mut out: Vec<u8> = Vec::new();
        let ghost mut pending = Seq::<u8>::empty();
        match saved {
            Some(bytes) => {
                self.write_part(bytes.as_slice(), capacity, &mut out);
                assert(before.next_record() == bytes@);
                proof {
                    pending = bytes@;
                }
            },
            None => {
                match self.event_queue.pop_front() {
                    Some(info) => {
                        proof {
                            assert(before.events[0] == info@);
                            assert(record_bytes(self.event_queue@) =~= before.events.drop_first());
                        }
                        self.write_part(info.as_bytes(), capacity, &mut out);
                        assert(before.next_record() == info@);
                        proof {
                            pending = info@;
                        }
                    },
                    None => {
                        assert(self@ =~= before);
                        return None;
                    },
                }
            },
        }
        let ghost later = before.later_records();
        let ghost free = capacity - before.next_record().len();
        proof {
            assert(self@.events =~= later);
            assert(later.skip(0) =~= later);
            lemma_started(free, later);
            assert(pending + joined(later.take(0)) =~= pending);
        }
        let ghost mut done: int = 0;
        while capacity - out.len() > RECORD_HEADER_LEN && self.event_queue.len() > 0
            invariant
                self.wf(),
                out@.len() <= capacity,
                0 <= done <= later.len(),
                later == before.later_records(),
                free == capacity - before.next_record().len(),
                pending == before.next_record() + joined(later.take(done)),
                out@ == if pending.len() > capacity {
                    pending.take(capacity as int)
                } else {
                    pending
                },
                self@ == (DeviceView {
                    leftover: if pending.len() > capacity {
                        Some(pending.skip(capacity as int))
                    } else {
                        None
                    },
                    events: later.skip(done),
                    ..before
                }),
                done + started(capacity - pending.len(), later.skip(done)) == started(free, later),
            decreases self.event_queue@.len(),
        {
            let ghost left = self@;
            let ghost queue = self.event_queue@;
            match self.event_queue.pop_front() {
                Some(info) => {
                    proof {
                        assert(left.events[0] == info@);
                        assert(later.skip(done)[0] == later[done]);
                        assert forall|i: int| 0 <= i < self.event_queue@.len() implies
                            #[trigger] record_bytes(self.event_queue@)[i] == later.skip(done + 1)[i] by {
                            assert(self.event_queue@[i] == queue[i + 1]);
                            assert(record_bytes(queue)[i + 1] == later.skip(done)[i + 1]);
                        }
                        assert(record_bytes(self.event_queue@) =~= later.skip(done + 1));
                        assert(later.skip(done).drop_first() =~= later.skip(done + 1));
                        assert(later.take(done + 1).drop_last() =~= later.take(done));
                        lemma_joined_push(later.take(done), info@);
                        assert(later.take(done + 1) =~= later.take(done).push(info@));
                        assert(before.next_record() + joined(later.take(done + 1))
                            =~= pending + info@);
                    }
                    self.write_part(info.as_bytes(), capacity, &mut out);
                    proof {
                        let more = pending + info@;
                        if more.len() > capacity {
                            assert(out@ =~= more.take(capacity as int));
                            assert(self@.leftover =~= Some(more.skip(capacity as int)));
                        } else {
                            assert(out@ =~= more);
                        }
                        pending = more;
                        done = done + 1;
                        assert(self@ =~= (DeviceView {
                            leftover: if pending.len() > capacity {
                                Some(pending.skip(capacity as int))
                            } else {
                                None
                            },
                            events: later.skip(done),
                            ..before
                        }));
                    }
                },
                None => {
                    assert(false);
                },
            }
        }
        proof {
            assert(record_bytes(self.event_queue@).len() == self.event_queue@.len());
            assert(started(capacity - pending.len(), later.skip(done)) == 0);
            assert(pending == before.read_records(capacity as int));
            assert(self@ =~= before.after_read(capacity as int));
        }
        Some(out)
    }

    /// Copies as much of a record as fits and saves the rest for the next read.
    fn write_part(&mut self, bytes: &[u8], capacity: usize, out: &mut Vec<u8>)
        requires
            old(self).wf(),
            old(self)@.leftover is None,
            old(out)@.len() <= capacity,
        ensures
            final(self).wf(),
            final(out)@.len() <= capacity,
            ({
                let free = capacity - old(out)@.len();
                if bytes@.len() <= free {
                    &&& final(out)@ == old(out)@ + bytes@
                    &&& final(self)@ == old(self)@
                } else {
                    &&& final(out)@ == old(out)@ + bytes@.take(free)
                    &&& final(self)@ == (DeviceView {
                        leftover: Some(bytes@.skip(free)),
                        ..old(self)@
                    })
                }
            }),
    {
        let ghost before = self@;
        let free: usize = capacity - out.len();
        if bytes.len() <= free {
            out.extend_from_slice(bytes);
            assert(out@ =~= old(out)@ + bytes@);
        } else {
            out.extend_from_slice(slice_subrange(bytes, 0, free));
            let rest = slice_subrange(bytes, free, bytes.len());
            self.read_stream.save(rest);
            proof {
                assert(out@ =~= old(out)@ + bytes@.take(free as int));
                assert(rest@ =~= bytes@.skip(free as int));
                assert(self@ =~= (DeviceView {
                    leftover: Some(bytes@.skip(free as int)),
                    ..before
                }));
            }
        }
    }

    /// Discards a partial record. A replacement handle must always begin at a record
    /// boundary.
    pub fn clear_read_leftover(&mut self)
        requires
            old(self).wf(),
        ensures
            final(self).wf(),
            final(self)@ == (DeviceView { leftover: None, ..old(self)@ }),
    {
        self.read_stream.clear();
        assert(self@ =~= (DeviceView { leftover: None, ..old(self)@ }));
    }
}

proof fn lemma_joined_push(records: Seq<Seq<u8>>, record: Seq<u8>)
    ensures
        joined(records.push(record)) == joined(records) + record,
    decreases records.len(),
{
    if records.len() > 0 {
        lemma_joined_push(records.drop_first(), record);
        assert(records.push(record).drop_first() =~= records.drop_first().push(record));
        assert(joined(records.push(record)) =~= joined(records) + record);
    } else {
        assert(records.push(record).drop_first() =~= Seq::empty());
        reveal_with_fuel(joined, 2);
        assert(joined(records.push(record)) =~= joined(records) + record);
    }
}

} // verus!

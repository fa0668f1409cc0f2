//! The log ring.

use crate::info::{Info, Severity};
use vstd::prelude::*;

verus! {

/// Number of lines that the ring holds.
pub const SIZE_OF_LOG_LINE_BUFFER: usize = 1024;

/// The least severity that is recorded.
pub const LOG_LEVEL: u8 = 4;

/// Whether lines of a severity are recorded.
pub fn is_recorded(severity: Severity) -> (r: bool)
    ensures
        r == (severity.spec_number() >= Severity::Warning.spec_number()),
{
    severity.number() >= LOG_LEVEL
}

spec fn slot_of(start: int, i: int) -> int {
    (start + i) % SIZE_OF_LOG_LINE_BUFFER as int
}

/// A ring of log lines that overwrites its oldest line when it is full.
pub struct LogBuffer {
    lines: Vec<Option<Info>>,
    start: usize,
    len: usize,
}

/// What a full ring keeps of its lines when one more comes.
pub open spec fn line_added(lines: Seq<Info>, line: Info) -> Seq<Info> {
    if lines.len() < SIZE_OF_LOG_LINE_BUFFER {
        lines.push(line)
    } else {
        lines.drop_first().push(line)
    }
}

/// What the ring holds after some lines, one after the other.
pub open spec fn lines_added(lines: Seq<Info>) -> Seq<Info>
    decreases lines.len(),
{
    if lines.len() == 0 {
        Seq::empty()
    } else {
        line_added(lines_added(lines.drop_last()), lines.last())
    }
}

impl LogBuffer {
    /// The lines, oldest first.
    pub closed spec fn view(&self) -> Seq<Info> {
        Seq::new(
            self.len as nat,
            |i: int| self.lines@[slot_of(self.start as int, i)]->Some_0,
        )
    }

    /// Every line in use is there.
    pub closed spec fn wf(&self) -> bool {
        &&& self.lines@.len() == SIZE_OF_LOG_LINE_BUFFER
        &&& self.start < SIZE_OF_LOG_LINE_BUFFER
        &&& self.len <= SIZE_OF_LOG_LINE_BUFFER
        &&& forall|i: int|
            0 <= i < self.len ==> (#[trigger] self.lines@[slot_of(self.start as int, i)]) is Some
    }

    /// Creates an empty ring.
    pub fn new() -> (buffer: Self)
        ensures
            buffer.wf(),
            buffer@ == Seq::<Info>::empty(),
    {
        let mut lines: Vec<Option<Info>> = Vec::with_capacity(SIZE_OF_LOG_LINE_BUFFER);
        while lines.len() < SIZE_OF_LOG_LINE_BUFFER
            invariant
                lines@.len() <= SIZE_OF_LOG_LINE_BUFFER,
            decreases SIZE_OF_LOG_LINE_BUFFER - lines@.len(),
        {
            lines.push(None);
        }
        let buffer = LogBuffer { lines, start: 0, len: 0 };
        assert(buffer@ =~= Seq::<Info>::empty());
        buffer
    }
}

/// Adds a line, overwriting the oldest one of a full ring.
pub fn add_line(buffer: &mut LogBuffer, log_line: Info)
    requires
        old(buffer).wf(),
    ensures
        final(buffer).wf(),
        final(buffer)@ == line_added(old(buffer)@, log_line),
{
    let ghost before = *buffer;
    let mut slot: Option<Info> = Some(log_line);
    if buffer.len < SIZE_OF_LOG_LINE_BUFFER {
        let index: usize = (buffer.start + buffer.len) % SIZE_OF_LOG_LINE_BUFFER;
        core::mem::swap(&mut buffer.lines[index], &mut slot);
        buffer.len = buffer.len + 1;
        proof {
            assert forall|i: int| 0 <= i < before.len implies #[trigger] slot_of(
                before.start as int,
                i,
            ) != index by {
                lemma_ring_distinct(before.start as int, i, before.len as int);
            }
            assert forall|i: int| 0 <= i < buffer.len implies (
            #[trigger] buffer.lines@[slot_of(buffer.start as int, i)]) is Some by {
                if i < before.len {
                    assert(before.lines@[slot_of(before.start as int, i)]
                        is Some);
                }
            }
        }
    } else {
        let index: usize = buffer.start;
        core::mem::swap(&mut buffer.lines[index], &mut slot);
        buffer.start = (buffer.start + 1) % SIZE_OF_LOG_LINE_BUFFER;
        proof {
            assert forall|i: int| 0 <= i < SIZE_OF_LOG_LINE_BUFFER implies {
                let old_index = slot_of(before.start as int, i + 1);
                &&& (#[trigger] slot_of(buffer.start as int, i)) == old_index
                &&& i < SIZE_OF_LOG_LINE_BUFFER - 1 ==> old_index != index
                &&& i == SIZE_OF_LOG_LINE_BUFFER - 1 ==> old_index == index
            } by {
                lemma_ring_step(before.start as int, i);
            }
            assert forall|i: int| 0 <= i < buffer.len implies (
            #[trigger] buffer.lines@[slot_of(buffer.start as int, i)]) is Some by {
                if i < SIZE_OF_LOG_LINE_BUFFER - 1 {
                    assert(before.lines@[slot_of(before.start as int, i + 1)]
                        is Some);
                }
            }
        }
    }
    assert(buffer@ =~= line_added(before@, log_line));
}

/// Takes all lines, oldest first.
pub fn flush(buffer: &mut LogBuffer) -> (lines: Vec<Info>)
    requires
        old(buffer).wf(),
    ensures
        final(buffer).wf(),
        final(buffer)@ == Seq::<Info>::empty(),
        lines@ == old(buffer)@,
{
    let ghost before = *buffer;
    let mut lines: Vec<Info> = Vec::with_capacity(SIZE_OF_LOG_LINE_BUFFER);
    let mut offset: usize = 0;
    while offset < buffer.len
        invariant
            before.wf(),
            buffer.len == before.len,
            buffer.start == before.start,
            buffer.lines@.len() == SIZE_OF_LOG_LINE_BUFFER,
            offset <= before.len,
            lines@ == before@.take(offset as int),
            forall|i: int|
                offset <= i < before.len ==> (#[trigger] buffer.lines@[slot_of(
                    before.start as int,
                    i,
                )]) == before.lines@[slot_of(before.start as int, i)],
        decreases before.len - offset,
    {
        let index: usize = (buffer.start + offset) % SIZE_OF_LOG_LINE_BUFFER;
        proof {
            assert(before.lines@[slot_of(before.start as int, offset as int)] is Some);
            assert(buffer.lines@[slot_of(before.start as int, offset as int)]
                == before.lines@[slot_of(before.start as int, offset as int)]);
            assert forall|i: int| offset < i < before.len implies #[trigger] slot_of(
                before.start as int,
                i,
            ) != index by {
                lemma_ring_distinct(before.start as int, offset as int, i);
            }
        }
        let mut slot: Option<Info> = None;
        core::mem::swap(&mut buffer.lines[index], &mut slot);
        if let Some(line) = slot {
            lines.push(line);
        }
        offset = offset + 1;
        assert(before@.take(offset as int) =~= before@.take(offset - 1).push(
            before@[offset - 1],
        ));
    }
    buffer.start = 0;
    buffer.len = 0;
    assert(before@.take(before.len as int) =~= before@);
    assert(buffer@ =~= Seq::<Info>::empty());
    lines
}

proof fn lemma_ring_distinct(start: int, i: int, j: int)
    requires
        0 <= start < SIZE_OF_LOG_LINE_BUFFER,
        0 <= i < j < SIZE_OF_LOG_LINE_BUFFER,
    ensures
        slot_of(start, i) != slot_of(start, j),
{
}

proof fn lemma_ring_step(start: int, i: int)
    requires
        0 <= start < SIZE_OF_LOG_LINE_BUFFER,
        0 <= i < SIZE_OF_LOG_LINE_BUFFER,
    ensures
        slot_of((start + 1) % SIZE_OF_LOG_LINE_BUFFER as int, i) == slot_of(start, i + 1),
        i < SIZE_OF_LOG_LINE_BUFFER - 1 ==> slot_of(start, i + 1) != start,
        i == SIZE_OF_LOG_LINE_BUFFER - 1 ==> slot_of(start, i + 1) == start,
{
}

/// The ring holds the newest lines, as many as fit, in the order in which they came.
pub proof fn ring_keeps_the_newest_lines(lines: Seq<Info>)
    ensures
        lines_added(lines) == if lines.len() <= SIZE_OF_LOG_LINE_BUFFER {
            lines
        } else {
            lines.skip(lines.len() - SIZE_OF_LOG_LINE_BUFFER)
        },
    decreases lines.len(),
{
    if lines.len() > 0 {
        ring_keeps_the_newest_lines(lines.drop_last());
        let kept = if lines.len() <= SIZE_OF_LOG_LINE_BUFFER {
            lines
        } else {
            lines.skip(lines.len() - SIZE_OF_LOG_LINE_BUFFER)
        };
        assert(lines_added(lines) =~= kept);
    }
}

} // verus!

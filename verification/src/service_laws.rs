//! What user space can rely on when it talks to the driver.

use crate::bytes::{le_bytes, le_decode_of_encode, lemma_byte_ranges, lemma_le_bytes_len};
use crate::command::{command_length_is_fixed, Command};
use crate::common::{interface_version, ControlCode};
use crate::connection::Verdict;
use crate::device_read::{joined, started};
use crate::device_state::DeviceView;
use crate::device_stream::{
    command_applied, command_at, command_step, command_valid, lemma_same_command, no_command_at,
    written,
};
use crate::entry::{spec_precheck, Completion, DispatchGuard, GateView, Request};
use crate::info::Severity;
use crate::record_laws::holds_number;
use crate::startup::{comes_before, spec_rollback, spec_unload, StartupStage, TeardownStep};
use vstd::prelude::*;

verus! {

/// The value of every verdict on the wire.
pub proof fn verdicts_have_their_numbers(verdict: Verdict, number: u8)
    ensures
        verdict.spec_number() == match verdict {
            Verdict::Undecided => 0u8,
            Verdict::Undeterminable => 1,
            Verdict::Accept => 2,
            Verdict::PermanentAccept => 3,
            Verdict::Block => 4,
            Verdict::PermanentBlock => 5,
            Verdict::Drop => 6,
            Verdict::PermanentDrop => 7,
            Verdict::RedirectNameServer => 8,
            Verdict::RedirectTunnel => 9,
            Verdict::Failed => 10,
            Verdict::RedirectSplitTunnel => 11,
        },
        Verdict::spec_from_number(verdict.spec_number()) == Some(verdict),
        Verdict::spec_from_number(number) is Some <==> number < 12,
        Verdict::spec_from_number(number) matches Some(v) ==> v.spec_number() == number,
{
}

proof fn lemma_port(port: u16)
    ensures
        le_bytes(port as nat, 2).len() == 2,
        holds_number(le_bytes(port as nat, 2), port as int),
{
    lemma_byte_ranges();
    lemma_le_bytes_len(port as nat, 2);
    le_decode_of_encode(port as nat, 2);
}

/// Where the fields of a command stand in its bytes: the type comes first, local endpoints
/// come before remote ones, and the verdict comes last.
pub proof fn commands_have_their_layout(command: Command)
    ensures
        ({
            let b = command.encoded();
            match command {
                Command::Shutdown => b == seq![0u8],
                Command::ClearCache => b == seq![4u8],
                Command::GetLogs => b == seq![5u8],
                Command::GetBandwidthStats => b == seq![6u8],
                Command::PrintMemoryStats => b == seq![7u8],
                Command::CleanEndedConnections => b == seq![8u8],
                Command::Verdict(v) => {
                    &&& b.len() == 10
                    &&& b[0] == 1
                    &&& holds_number(b.subrange(1, 9), v.id as int)
                    &&& b[9] == v.verdict
                },
                Command::UpdateV4(u) => {
                    &&& b.len() == 15
                    &&& b[0] == 2
                    &&& b[1] == u.protocol
                    &&& b.subrange(2, 6) == u.local_address@
                    &&& holds_number(b.subrange(6, 8), u.local_port as int)
                    &&& b.subrange(8, 12) == u.remote_address@
                    &&& holds_number(b.subrange(12, 14), u.remote_port as int)
                    &&& b[14] == u.verdict
                },
                Command::UpdateV6(u) => {
                    &&& b.len() == 39
                    &&& b[0] == 3
                    &&& b[1] == u.protocol
                    &&& b.subrange(2, 18) == u.local_address@
                    &&& holds_number(b.subrange(18, 20), u.local_port as int)
                    &&& b.subrange(20, 36) == u.remote_address@
                    &&& holds_number(b.subrange(36, 38), u.remote_port as int)
                    &&& b[38] == u.verdict
                },
            }
        }),
{
    let b = command.encoded();
    match command {
        Command::Verdict(v) => {
            lemma_byte_ranges();
            lemma_le_bytes_len(v.id as nat, 8);
            le_decode_of_encode(v.id as nat, 8);
            assert(b.subrange(1, 9) =~= le_bytes(v.id as nat, 8));
        },
        Command::UpdateV4(u) => {
            lemma_port(u.local_port);
            lemma_port(u.remote_port);
            assert(b.subrange(2, 6) =~= u.local_address@);
            assert(b.subrange(6, 8) =~= le_bytes(u.local_port as nat, 2));
            assert(b.subrange(8, 12) =~= u.remote_address@);
            assert(b.subrange(12, 14) =~= le_bytes(u.remote_port as nat, 2));
        },
        Command::UpdateV6(u) => {
            lemma_port(u.local_port);
            lemma_port(u.remote_port);
            assert(b.subrange(2, 18) =~= u.local_address@);
            assert(b.subrange(18, 20) =~= le_bytes(u.local_port as nat, 2));
            assert(b.subrange(20, 36) =~= u.remote_address@);
            assert(b.subrange(36, 38) =~= le_bytes(u.remote_port as nat, 2));
        },
        Command::Shutdown => {
            assert(b =~= seq![0u8]);
        },
        Command::ClearCache => {
            assert(b =~= seq![4u8]);
        },
        Command::GetLogs => {
            assert(b =~= seq![5u8]);
        },
        Command::GetBandwidthStats => {
            assert(b =~= seq![6u8]);
        },
        Command::PrintMemoryStats => {
            assert(b =~= seq![7u8]);
        },
        Command::CleanEndedConnections => {
            assert(b =~= seq![8u8]);
        },
    }
}

/// Writing the bytes of a valid command succeeds and applies exactly that command. Writing
/// those of a command with an unknown verdict fails at its first byte and changes only the
/// log.
pub proof fn written_command_is_applied<H, C>(
    s: DeviceView<H, C>,
    t: DeviceView<H, C>,
    command: Command,
    now: u64,
    result: Result<(), usize>,
)
    requires
        written(s, t, command.encoded(), 0, now, result),
    ensures
        command_valid(command) ==> result is Ok && command_applied(s, t, command, now),
        !command_valid(command) ==> result == Err::<(), usize>(0) && t == (DeviceView {
            log: t.log,
            ..s
        }),
{
    let bytes = command.encoded();
    command_length_is_fixed(command);
    assert(bytes.subrange(0, bytes.len() as int) =~= bytes);
    assert(command_at(bytes, 0, command));
    if exists|c: Command, mid: DeviceView<H, C>|
        #[trigger] command_step(s, mid, bytes, 0, c, now) && written(
            mid,
            t,
            bytes,
            0 + c.encoded().len() as int,
            now,
            result,
        ) {
        let (c, mid) = choose|c: Command, mid: DeviceView<H, C>|
            #[trigger] command_step(s, mid, bytes, 0, c, now) && written(
                mid,
                t,
                bytes,
                0 + c.encoded().len() as int,
                now,
                result,
            );
        lemma_same_command(bytes, 0, c, command);
        assert(written(mid, t, bytes, bytes.len() as int, now, result));
    } else {
        assert(no_command_at(bytes, 0));
    }
}

/// What each command does: a verdict answers its request, an update changes the verdict of a
/// tuple, and the others hand out the log or the counters, or stop the driver.
pub proof fn commands_do_what_they_say<H, C>(
    s: DeviceView<H, C>,
    t: DeviceView<H, C>,
    command: Command,
    now: u64,
)
    requires
        command_applied(s, t, command, now),
    ensures
        match command {
            Command::Verdict(v) => (Verdict::spec_from_number(v.verdict) matches Some(verdict) && t
                == s.verdict_applied(v.id, verdict, now)),
            Command::GetLogs => t.events == s.events + s.log && t.log.len() == 0 && t.queue
                == s.queue,
            Command::GetBandwidthStats => t.tcp_v4.dom().len() == 0 && t.tcp_v6.dom().len() == 0
                && t.udp_v4.dom().len() == 0 && t.udp_v6.dom().len() == 0 && t.queue == s.queue
                && t.connections_v4 == s.connections_v4 && t.connections_v6 == s.connections_v6,
            Command::Shutdown => t == s.shut_down(now),
            Command::ClearCache => t == s.caches_cleared(),
            _ => true,
        },
{
}

proof fn lemma_all_started(free: int, records: Seq<Seq<u8>>)
    requires
        free > joined(records).len() + 5,
    ensures
        started(free, records) == records.len(),
    decreases records.len(),
{
    if records.len() > 0 {
        lemma_all_started(free - records[0].len(), records.drop_first());
    }
}

/// A read brings what comes next: one that has room for everything that waits takes all of it,
/// and one with any room at all takes something, if the next record is not empty.
pub proof fn read_brings_what_waits<H, C>(s: DeviceView<H, C>, capacity: int)
    requires
        s.leftover is Some || s.events.len() > 0,
        capacity > 0,
    ensures
        capacity > s.unread().len() + 5 ==> s.read_bytes(capacity) == s.unread()
            && s.after_read(capacity).unread().len() == 0 && s.after_read(capacity).events.len()
            == 0 && s.after_read(capacity).leftover is None,
        s.next_record().len() > 0 ==> s.read_bytes(capacity).len() > 0,
        s.after_read(capacity).queue == s.queue && s.after_read(capacity).log == s.log,
{
    let later = s.later_records();
    let next = s.next_record();
    assert(s.unread() =~= next + joined(later)) by {
        if s.leftover is None {
            assert(joined(s.events) == s.events[0] + joined(s.events.drop_first()));
        }
    }
    if capacity > s.unread().len() + 5 {
        lemma_all_started(capacity - next.len(), later);
        assert(later.take(later.len() as int) =~= later);
        assert(later.skip(later.len() as int) =~= Seq::<Seq<u8>>::empty());
        assert(joined(Seq::<Seq<u8>>::empty()) =~= Seq::empty());
    }
}

/// The device has one owner at a time: an open is accepted only where there is none, the
/// driver is not unloading and the file object names something. Only the owner's file object
/// releases the device, and what it had read of a record is dropped with it.
pub proof fn device_has_one_owner<H, C>(
    s: DeviceView<H, C>,
    file_object: u64,
    process_id: u32,
    other: u64,
    unloading: bool,
)
    ensures
        ({
            let completion = s.open_completion(file_object, unloading);
            let t = s.opened(file_object, process_id, unloading);
            let accepted = !unloading && file_object != 0 && s.owner is None;
            &&& completion is Complete <==> accepted
            &&& unloading ==> completion is DeviceNotReady && t == s
            &&& !unloading && !accepted ==> completion is SharingViolation && t.owner == s.owner
            &&& accepted ==> (t.owner matches Some(owner) && owner.file_object == file_object
                && owner.process_id == process_id)
            &&& t.events == s.events && t.leftover == s.leftover && t.queue == s.queue
            &&& accepted ==> t.closed_by(file_object).owner is None && t.closed_by(
                file_object,
            ).leftover is None && t.closed_by(file_object).events == s.events
            &&& accepted && other != file_object ==> t.closed_by(other) == t && t.open_completion(
                other,
                false,
            ) is SharingViolation
        }),
{
}

/// A request reaches the device exactly if it was admitted, runs where it may wait, and there
/// is a device. What is not admitted ends by its kind: a read at the end of the file, an open
/// with a device that is not ready.
pub proof fn only_admitted_requests_reach_the_device(
    request: Request,
    guard: Option<DispatchGuard>,
    passive_level: bool,
    has_device: bool,
)
    ensures
        ({
            let completion = spec_precheck(request, guard, passive_level, has_device);
            let admitted = (guard matches Some(g) && g.admitted);
            &&& completion is None <==> !(request is Close) && admitted && passive_level
                && has_device
            &&& request is Close ==> completion == Some(Completion::Complete)
            &&& !admitted && request is Create ==> completion == Some(Completion::DeviceNotReady)
            &&& !admitted && request is Read ==> completion == Some(Completion::EndOfFile)
            &&& !admitted && request is Control ==> completion == Some(Completion::NotImplemented)
            &&& !admitted && (request is Write || request is Cleanup) ==> completion == Some(
                Completion::Complete,
            )
            &&& admitted && !passive_level && !(request is Close) ==> completion == Some(
                Completion::InvalidDeviceState,
            )
        }),
{
}

/// A dispatch is admitted unless the driver unloads or, for a read, reads are closed. What is
/// admitted is counted by its kind, and whatever was let in counts as a running callback until
/// it leaves. Once the driver has drained, nothing is let in.
pub proof fn admission_is_counted(gate: GateView, is_read: bool, guard: DispatchGuard)
    requires
        gate.counts_agree(),
        gate.callbacks < u32::MAX,
    ensures
        gate.admits(is_read) <==> !gate.unloading && (!is_read || !gate.reads_closed),
        ({
            let t = gate.entered(is_read);
            let admitted: int = if gate.admits(is_read) {
                1
            } else {
                0
            };
            &&& !gate.lifetime_open ==> t == gate
            &&& gate.lifetime_open ==> {
                &&& t.callbacks == gate.callbacks + 1
                &&& t.active == gate.active + admitted
                &&& is_read ==> t.reads == gate.reads + admitted && t.non_read == gate.non_read
                &&& !is_read ==> t.non_read == gate.non_read + admitted && t.reads == gate.reads
            }
            &&& t.unloading == gate.unloading && t.reads_closed == gate.reads_closed
                && t.session_busy == gate.session_busy && t.lifetime_open == gate.lifetime_open
        }),
        gate.holds(guard) ==> ({
            let t = gate.left(guard);
            &&& t.callbacks == gate.callbacks - 1
            &&& t.counts_agree()
            &&& guard.admitted && guard.is_read ==> t.reads == gate.reads - 1 && t.non_read
                == gate.non_read
            &&& guard.admitted && !guard.is_read ==> t.non_read == gate.non_read - 1 && t.reads
                == gate.reads
            &&& !guard.admitted ==> t.active == gate.active
            &&& t.unloading == gate.unloading && t.reads_closed == gate.reads_closed
                && t.session_busy == gate.session_busy && t.lifetime_open == gate.lifetime_open
        }),
{
}

/// The numbers of the control requests, and the version that one of them returns.
pub proof fn control_requests_have_their_numbers(code: u32)
    ensures
        ControlCode::spec_from_number(code) == Some(ControlCode::Version) <==> code == 0x9C40_E000,
        ControlCode::spec_from_number(code) == Some(ControlCode::ShutdownRequest) <==> code
            == 0x9C40_E004,
        interface_version() == seq![2u8, 1, 1, 0],
{
}

/// The value of every severity in a log record. Lines are recorded from warnings on.
pub proof fn severities_have_their_numbers(severity: Severity)
    ensures
        severity.spec_number() == match severity {
            Severity::Trace => 1u8,
            Severity::Debug => 2,
            Severity::Info => 3,
            Severity::Warning => 4,
            Severity::Error => 5,
            Severity::Critical => 6,
            Severity::Disabled => 7,
        },
{
}

/// Driver start takes its steps in one order.
pub proof fn start_has_one_order(stage: StartupStage)
    ensures
        stage is Barrier <==> stage.spec_next() == Some(StartupStage::DriverObject),
        stage is DriverObject <==> stage.spec_next() == Some(StartupStage::Device),
        stage is Device <==> stage.spec_next() == Some(StartupStage::Filters),
        stage is Filters <==> stage.spec_next() == Some(StartupStage::Activation),
        stage is Activation <==> stage.spec_next() is None,
{
}

/// Unload closes every way in before it waits for what is inside, wakes blocked reads before
/// it waits for them, and resolves what is pending only when nothing new can come: no flow
/// context is accepted then, and callouts are taken down afterwards. The same holds of a start
/// that failed at its last stage.
pub proof fn unload_resolves_in_order(has_device: bool)
    ensures
        ({
            let u = spec_unload(has_device);
            let r = spec_rollback(StartupStage::Activation);
            &&& u.contains(TeardownStep::WithdrawDevice)
            &&& u.contains(TeardownStep::WaitForNonReads)
            &&& u.contains(TeardownStep::WaitForReads)
            &&& u.contains(TeardownStep::Shutdown) <==> has_device
            &&& u.contains(TeardownStep::PrepareUnload) <==> has_device
            &&& comes_before(u, TeardownStep::CloseGate, TeardownStep::WaitForNonReads)
            &&& comes_before(u, TeardownStep::CloseClassifyBarrier, TeardownStep::WaitForNonReads)
            &&& has_device ==> comes_before(
                u,
                TeardownStep::CancelReads,
                TeardownStep::WaitForNonReads,
            ) && comes_before(u, TeardownStep::CancelReads, TeardownStep::WaitForReads)
            &&& comes_before(u, TeardownStep::WaitForReads, TeardownStep::Shutdown)
            &&& comes_before(u, TeardownStep::WaitForNonReads, TeardownStep::Shutdown)
            &&& comes_before(u, TeardownStep::BeginUnload, TeardownStep::Shutdown)
            &&& comes_before(u, TeardownStep::Shutdown, TeardownStep::PrepareUnload)
            &&& comes_before(r, TeardownStep::CloseGate, TeardownStep::Shutdown)
            &&& comes_before(r, TeardownStep::BeginUnload, TeardownStep::Shutdown)
            &&& comes_before(r, TeardownStep::Shutdown, TeardownStep::PrepareUnload)
        }),
{
    let u = spec_unload(has_device);
    let r = spec_rollback(StartupStage::Activation);
    assert(u[0] == TeardownStep::CloseGate);
    assert(u[1] == TeardownStep::CloseClassifyBarrier);
    if has_device {
        assert(u[2] == TeardownStep::CancelReads);
        assert(u[3] == TeardownStep::WaitForNonReads);
        assert(u[4] == TeardownStep::WaitForReads);
        assert(u[5] == TeardownStep::BeginUnload);
        assert(u[6] == TeardownStep::Shutdown);
        assert(u[7] == TeardownStep::PrepareUnload);
        assert(u[11] == TeardownStep::WithdrawDevice);
    } else {
        assert(u[2] == TeardownStep::WaitForNonReads);
        assert(u[3] == TeardownStep::WaitForReads);
        assert(u[7] == TeardownStep::WithdrawDevice);
    }
    assert(r[0] == TeardownStep::CloseGate);
    assert(r[1] == TeardownStep::BeginUnload);
    assert(r[2] == TeardownStep::Shutdown);
}

} // verus!

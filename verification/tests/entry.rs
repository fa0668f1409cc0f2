//! The control device, and the order of start and teardown.

use portmaster_kext::device::Device;
use portmaster_kext::entry::{
    device_control, precheck, Completion, ControlAction, DispatchGate, DispatchGuard, Request,
};
use portmaster_kext::startup::{rollback, unload, StartupStage, TeardownStep};

fn open_gate() -> DispatchGate {
    let mut gate = DispatchGate::new();
    gate.reopen();
    gate
}

#[test]
fn nothing_enters_before_the_driver_started() {
    let mut gate = DispatchGate::new();
    assert_eq!(gate.enter(false), None);
    gate.reopen();
    assert_eq!(
        gate.enter(false),
        Some(DispatchGuard {
            is_read: false,
            admitted: true
        })
    );
}

#[test]
fn closed_reads_do_not_stop_other_requests() {
    let mut gate = open_gate();
    gate.close_reads();
    let read = gate.enter(true).unwrap();
    assert!(!read.admitted);
    assert!(gate.all_drained());
    assert!(!gate.lifetime_drained());
    let write = gate.enter(false).unwrap();
    assert!(write.admitted);
    assert!(!gate.non_read_drained());
    gate.leave(write);
    gate.leave(read);
    assert!(gate.lifetime_drained());
    gate.open_reads();
    let read = gate.enter(true).unwrap();
    assert!(read.admitted);
    assert!(!gate.reads_drained());
    gate.leave(read);
}

#[test]
fn drained_gate_admits_nothing_any_more() {
    let mut gate = open_gate();
    let running = gate.enter(true).unwrap();
    gate.close();
    assert!(gate.is_unloading());
    let late = gate.enter(false).unwrap();
    assert!(!late.admitted);
    gate.leave(late);
    assert!(!gate.all_drained());
    gate.leave(running);
    assert!(gate.all_drained());
    gate.close_lifetime();
    assert_eq!(gate.enter(false), None);
}

#[test]
fn one_session_transition_at_a_time() {
    let mut gate = open_gate();
    assert!(gate.acquire_session());
    assert!(!gate.acquire_session());
    gate.release_session();
    assert!(gate.acquire_session());
}

#[test]
fn refused_requests_complete_by_their_kind() {
    let refused = Some(DispatchGuard {
        is_read: false,
        admitted: false,
    });
    for guard in [None, refused] {
        assert_eq!(
            precheck(Request::Create, guard, true, true),
            Some(Completion::DeviceNotReady)
        );
        assert_eq!(
            precheck(Request::Read, guard, true, true),
            Some(Completion::EndOfFile)
        );
        assert_eq!(
            precheck(Request::Control, guard, true, true),
            Some(Completion::NotImplemented)
        );
        assert_eq!(
            precheck(Request::Write, guard, true, true),
            Some(Completion::Complete)
        );
        assert_eq!(
            precheck(Request::Cleanup, guard, true, true),
            Some(Completion::Complete)
        );
    }
    let admitted = Some(DispatchGuard {
        is_read: false,
        admitted: true,
    });
    assert_eq!(
        precheck(Request::Write, admitted, false, true),
        Some(Completion::InvalidDeviceState)
    );
    assert_eq!(
        precheck(Request::Create, admitted, true, false),
        Some(Completion::DeviceNotReady)
    );
    assert_eq!(
        precheck(Request::Read, admitted, true, false),
        Some(Completion::Complete)
    );
    assert_eq!(precheck(Request::Write, admitted, true, true), None);
    assert_eq!(
        precheck(Request::Close, admitted, true, true),
        Some(Completion::Complete)
    );
}

#[test]
fn control_requests_are_answered() {
    assert_eq!(
        device_control(0x9C40_E000, 4),
        ControlAction::Version([2, 1, 1, 0])
    );
    assert_eq!(
        device_control(0x9C40_E000, 3),
        ControlAction::End(Completion::BufferTooSmall)
    );
    assert_eq!(device_control(0x9C40_E004, 0), ControlAction::Shutdown);
    assert_eq!(
        device_control(0x9C40_E008, 64),
        ControlAction::End(Completion::NotImplemented)
    );
}

#[test]
fn device_has_one_owner_at_a_time() {
    let mut device: Device<u32, u32> = Device::new(1_000);
    assert_eq!(device.create(0, 7, false), Completion::SharingViolation);
    assert_eq!(device.create(11, 7, true), Completion::DeviceNotReady);
    assert_eq!(device.create(11, 7, false), Completion::Complete);
    assert!(device.is_owner(11));
    assert!(device.is_owner_pid(7));
    assert_eq!(device.create(12, 8, false), Completion::SharingViolation);
    device.cleanup(12);
    assert!(device.is_owner(11));
    device.cleanup(11);
    assert!(!device.is_owner(11));
    assert!(!device.is_owner_pid(7));
    assert_eq!(device.create(12, 8, false), Completion::Complete);
}

#[test]
fn failed_start_undoes_what_was_done() {
    assert!(rollback(StartupStage::Barrier).is_empty());
    assert_eq!(
        rollback(StartupStage::Device),
        vec![
            TeardownStep::CloseGate,
            TeardownStep::WaitForAll,
            TeardownStep::WaitForLifetime,
            TeardownStep::CloseBarrier,
        ]
    );
    assert_eq!(
        rollback(StartupStage::Filters).last(),
        Some(&TeardownStep::WithdrawDevice)
    );
    assert_eq!(rollback(StartupStage::Activation).len(), 8);
}

#[test]
fn unload_withdraws_the_device_last() {
    for has_device in [false, true] {
        let steps = unload(has_device);
        assert_eq!(steps[0], TeardownStep::CloseGate);
        assert_eq!(steps.last(), Some(&TeardownStep::WithdrawDevice));
        assert_eq!(steps.contains(&TeardownStep::Shutdown), has_device);
        assert_eq!(steps.contains(&TeardownStep::CancelReads), has_device);
    }
}

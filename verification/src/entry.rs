//! The control device: who may use it, when, and how each request completes.

use crate::common::{interface_version, version, ControlCode};
use crate::device::Device;
use crate::device_state::{DeviceView, Owner};
use crate::text::{decimal, push_decimal, push_text};
use vstd::prelude::*;
use vstd::utf8::encode_utf8;

verus! {

/// How a request ends.
#[derive(Clone, Copy, Debug, PartialEq, Eq, Structural)]
pub enum Completion {
    Complete,
    EndOfFile,
    NotImplemented,
    InvalidParameter,
    InvalidDeviceState,
    DeviceNotReady,
    SharingViolation,
    BufferTooSmall,
}

/// The requests that user mode can send.
#[derive(Clone, Copy, Debug, PartialEq, Eq, Structural)]
pub enum Request {
    Create,
    Cleanup,
    Close,
    Read,
    Write,
    Control,
}

/// What a dispatch routine was granted on entry.
#[derive(Clone, Copy, Debug, PartialEq, Eq, Structural)]
pub struct DispatchGuard {
    pub is_read: bool,
    pub admitted: bool,
}

/// Admission of dispatch routines.
#[derive(Clone, Copy, Debug, PartialEq, Eq, Structural)]
pub struct GateView {
    /// New callbacks may run at all.
    pub lifetime_open: bool,
    /// Callbacks that are running, admitted or not.
    pub callbacks: u32,
    /// No new dispatch is admitted.
    pub unloading: bool,
    /// No new read is admitted.
    pub reads_closed: bool,
    /// Admitted dispatches that are running, reads and others.
    pub active: u32,
    pub reads: u32,
    pub non_read: u32,
    /// A session transition is under way.
    pub session_busy: bool,
}

impl GateView {
    /// Every admitted dispatch is a read or another one, and a running callback.
    pub open spec fn counts_agree(self) -> bool {
        &&& self.active == self.reads + self.non_read
        &&& self.active <= self.callbacks
    }

    /// A dispatch would be admitted.
    pub open spec fn admits(self, is_read: bool) -> bool {
        !self.unloading && !(is_read && self.reads_closed)
    }

    /// A callback began.
    pub open spec fn entered(self, is_read: bool) -> GateView {
        if !self.lifetime_open {
            self
        } else if !self.admits(is_read) {
            GateView { callbacks: (self.callbacks + 1) as u32, ..self }
        } else if is_read {
            GateView {
                callbacks: (self.callbacks + 1) as u32,
                active: (self.active + 1) as u32,
                reads: (self.reads + 1) as u32,
                ..self
            }
        } else {
            GateView {
                callbacks: (self.callbacks + 1) as u32,
                active: (self.active + 1) as u32,
                non_read: (self.non_read + 1) as u32,
                ..self
            }
        }
    }

    /// The guard belongs to a callback that is running.
    pub open spec fn holds(self, guard: DispatchGuard) -> bool {
        &&& self.callbacks > 0
        &&& guard.admitted && guard.is_read ==> self.reads > 0
        &&& guard.admitted && !guard.is_read ==> self.non_read > 0
        &&& !guard.admitted ==> self.active < self.callbacks
    }

    /// A callback ended.
    pub open spec fn left(self, guard: DispatchGuard) -> GateView {
        if !guard.admitted {
            GateView { callbacks: (self.callbacks - 1) as u32, ..self }
        } else if guard.is_read {
            GateView {
                callbacks: (self.callbacks - 1) as u32,
                active: (self.active - 1) as u32,
                reads: (self.reads - 1) as u32,
                ..self
            }
        } else {
            GateView {
                callbacks: (self.callbacks - 1) as u32,
                active: (self.active - 1) as u32,
                non_read: (self.non_read - 1) as u32,
                ..self
            }
        }
    }
}

/// Serializes user-mode dispatch routines with driver teardown.
///
/// A dispatch increments the active count only while unload is not closing admission.
/// Unload drains ordinary dispatches, wakes blocked reads, and then waits for those reads
/// before the device is destroyed.
pub struct DispatchGate {
    state: GateView,
}

impl DispatchGate {
    /// Admission of dispatch routines.
    pub closed spec fn view(&self) -> GateView {
        self.state
    }

    /// The counters agree.
    pub open spec fn wf(&self) -> bool {
        self@.counts_agree()
    }

    /// Creates an instance that no callback can pass until it is opened.
    pub fn new() -> (gate: Self)
        ensures
            gate.wf(),
            gate@ == (GateView {
                lifetime_open: false,
                callbacks: 0,
                unloading: false,
                reads_closed: false,
                active: 0,
                reads: 0,
                non_read: 0,
                session_busy: false,
            }),
    {
        DispatchGate {
            state: GateView {
                lifetime_open: false,
                callbacks: 0,
                unloading: false,
                reads_closed: false,
                active: 0,
                reads: 0,
                non_read: 0,
                session_busy: false,
            },
        }
    }

    /// Opens admission for a new driver instance, once the previous one has drained.
    pub fn reopen(&mut self)
        requires
            old(self).wf(),
            old(self)@.callbacks == 0,
            !old(self)@.session_busy,
        ensures
            final(self).wf(),
            final(self)@ == (GateView {
                lifetime_open: true,
                unloading: false,
                reads_closed: false,
                ..old(self)@
            }),
    {
        self.state.reads_closed = false;
        self.state.unloading = false;
        self.state.lifetime_open = true;
    }

    /// Lets a callback in. It may touch the device only if it was admitted; one that was
    /// not only completes its request. Nothing is granted once the driver has drained.
    pub fn enter(&mut self, is_read: bool) -> (guard: Option<DispatchGuard>)
        requires
            old(self).wf(),
            old(self)@.callbacks < u32::MAX,
        ensures
            final(self).wf(),
            final(self)@ == old(self)@.entered(is_read),
            guard == if old(self)@.lifetime_open {
                Some(DispatchGuard { is_read, admitted: old(self)@.admits(is_read) })
            } else {
                None
            },
            guard matches Some(g) ==> final(self)@.holds(g),
    {
        if !self.state.lifetime_open {
            return None;
        }
        self.state.callbacks = self.state.callbacks + 1;
        let admitted: bool = !self.state.unloading && !(is_read && self.state.reads_closed);
        if admitted {
            self.state.active = self.state.active + 1;
            if is_read {
                self.state.reads = self.state.reads + 1;
            } else {
                self.state.non_read = self.state.non_read + 1;
            }
        }
        Some(DispatchGuard { is_read, admitted })
    }

    /// Lets a callback out.
    pub fn leave(&mut self, guard: DispatchGuard)
        requires
            old(self).wf(),
            old(self)@.holds(guard),
        ensures
            final(self).wf(),
            final(self)@ == old(self)@.left(guard),
    {
        if guard.admitted {
            if guard.is_read {
                self.state.reads = self.state.reads - 1;
            } else {
                self.state.non_read = self.state.non_read - 1;
            }
            self.state.active = self.state.active - 1;
        }
        self.state.callbacks = self.state.callbacks - 1;
    }

    /// Closes admission for all new dispatches.
    pub fn close(&mut self)
        requires
            old(self).wf(),
        ensures
            final(self).wf(),
            final(self)@ == (GateView { reads_closed: true, unloading: true, ..old(self)@ }),
    {
        self.state.reads_closed = true;
        self.state.unloading = true;
    }

    /// Prevents a new read from racing session cancellation.
    pub fn close_reads(&mut self)
        requires
            old(self).wf(),
        ensures
            final(self).wf(),
            final(self)@ == (GateView { reads_closed: true, ..old(self)@ }),
    {
        self.state.reads_closed = true;
    }

    /// Allows reads for the newly accepted file object.
    pub fn open_reads(&mut self)
        requires
            old(self).wf(),
        ensures
            final(self).wf(),
            final(self)@ == (GateView { reads_closed: false, ..old(self)@ }),
    {
        self.state.reads_closed = false;
    }

    /// Lets no further callback in.
    pub fn close_lifetime(&mut self)
        requires
            old(self).wf(),
        ensures
            final(self).wf(),
            final(self)@ == (GateView { lifetime_open: false, ..old(self)@ }),
    {
        self.state.lifetime_open = false;
    }

    /// Returns whether the driver is closing admission for unload.
    pub fn is_unloading(&self) -> (r: bool)
        ensures
            r == self@.unloading,
    {
        self.state.unloading
    }

    /// Returns whether every ordinary dispatch has ended. A read may still be blocked.
    pub fn non_read_drained(&self) -> (r: bool)
        ensures
            r == (self@.non_read == 0),
    {
        self.state.non_read == 0
    }

    /// Returns whether every admitted read has ended.
    pub fn reads_drained(&self) -> (r: bool)
        ensures
            r == (self@.reads == 0),
    {
        self.state.reads == 0
    }

    /// Returns whether every admitted dispatch has ended.
    pub fn all_drained(&self) -> (r: bool)
        ensures
            r == (self@.active == 0),
    {
        self.state.active == 0
    }

    /// Returns whether every callback has ended, also those that were not admitted.
    pub fn lifetime_drained(&self) -> (r: bool)
        ensures
            r == (self@.callbacks == 0),
    {
        self.state.callbacks == 0
    }

    /// Claims the transition between two owners of the device, unless another one is under
    /// way.
    pub fn acquire_session(&mut self) -> (acquired: bool)
        requires
            old(self).wf(),
        ensures
            final(self).wf(),
            acquired == !old(self)@.session_busy,
            final(self)@ == (GateView { session_busy: true, ..old(self)@ }),
    {
        let acquired: bool = !self.state.session_busy;
        self.state.session_busy = true;
        acquired
    }

    /// Ends a transition.
    pub fn release_session(&mut self)
        requires
            old(self).wf(),
        ensures
            final(self).wf(),
            final(self)@ == (GateView { session_busy: false, ..old(self)@ }),
    {
        self.state.session_busy = false;
    }
}

/// Once admission is closed and drained, it stays drained, whatever callbacks come.
pub proof fn drained_gate_stays_drained(gate: GateView, is_read: bool, guard: DispatchGuard)
    requires
        gate.counts_agree(),
        gate.callbacks < u32::MAX,
        gate.unloading,
        gate.active == 0,
    ensures
        gate.entered(is_read).active == 0,
        gate.entered(is_read).unloading,
        gate.holds(guard) ==> gate.left(guard).active == 0 && gate.left(guard).unloading,
{
}

/// A callback that leaves gives back exactly what it was granted.
pub proof fn leaving_undoes_entering(gate: GateView, is_read: bool)
    requires
        gate.counts_agree(),
        gate.callbacks < u32::MAX,
        gate.lifetime_open,
    ensures
        gate.entered(is_read).left(DispatchGuard { is_read, admitted: gate.admits(is_read) })
            == gate,
{
}

/// How a request ends that does not reach the device.
pub open spec fn spec_precheck(
    request: Request,
    guard: Option<DispatchGuard>,
    passive_level: bool,
    has_device: bool,
) -> Option<Completion> {
    if request is Close {
        Some(Completion::Complete)
    } else if !(guard matches Some(g) && g.admitted) {
        Some(
            match request {
                Request::Create => Completion::DeviceNotReady,
                Request::Read => Completion::EndOfFile,
                Request::Control => Completion::NotImplemented,
                _ => Completion::Complete,
            },
        )
    } else if !passive_level {
        Some(Completion::InvalidDeviceState)
    } else if !has_device {
        Some(
            match request {
                Request::Create => Completion::DeviceNotReady,
                _ => Completion::Complete,
            },
        )
    } else {
        None
    }
}

/// Decides whether a request reaches the device.
pub fn precheck(
    request: Request,
    guard: Option<DispatchGuard>,
    passive_level: bool,
    has_device: bool,
) -> (completion: Option<Completion>)
    ensures
        completion == spec_precheck(request, guard, passive_level, has_device),
{
    if request == Request::Close {
        return Some(Completion::Complete);
    }
    let admitted: bool = match guard {
        Some(guard) => guard.admitted,
        None => false,
    };
    if !admitted {
        return Some(
            match request {
                Request::Create => Completion::DeviceNotReady,
                Request::Read => Completion::EndOfFile,
                Request::Control => Completion::NotImplemented,
                _ => Completion::Complete,
            },
        );
    }
    if !passive_level {
        return Some(Completion::InvalidDeviceState);
    }
    if !has_device {
        return Some(
            match request {
                Request::Create => Completion::DeviceNotReady,
                _ => Completion::Complete,
            },
        );
    }
    None
}

/// What a control request asks for.
#[derive(Clone, Copy, Debug, PartialEq, Eq)]
pub enum ControlAction {
    /// Return the version of the interface.
    Version([u8; 4]),
    /// Shut the driver down.
    Shutdown,
    /// End the request.
    End(Completion),
}

/// Decides what a control request does. The version is returned whole or not at all.
pub fn device_control(code: u32, output_len: usize) -> (action: ControlAction)
    ensures
        match ControlCode::spec_from_number(code) {
            Some(ControlCode::Version) => if output_len < 4 {
                action == ControlAction::End(Completion::BufferTooSmall)
            } else {
                action matches ControlAction::Version(bytes) && bytes@ == interface_version()
            },
            Some(ControlCode::ShutdownRequest) => action is Shutdown,
            None => action == ControlAction::End(Completion::NotImplemented),
        },
{
    match ControlCode::from_u32(code) {
        Some(ControlCode::Version) => {
            if output_len < 4 {
                ControlAction::End(Completion::BufferTooSmall)
            } else {
                ControlAction::Version(version())
            }
        },
        Some(ControlCode::ShutdownRequest) => ControlAction::Shutdown,
        None => ControlAction::End(Completion::NotImplemented),
    }
}

impl<H, C> DeviceView<H, C> {
    /// An open of the device is accepted. There is one owner at a time.
    pub open spec fn accepts_open(self, file_object: u64) -> bool {
        file_object != 0 && self.owner is None
    }

    /// The device has no owner, and the next one begins at a record boundary.
    pub open spec fn released(self) -> Self {
        DeviceView { owner: None, leftover: None, ..self }
    }

    /// How an open ends. While the driver unloads, none is accepted.
    pub open spec fn open_completion(self, file_object: u64, unloading: bool) -> Completion {
        if unloading {
            Completion::DeviceNotReady
        } else if !self.accepts_open(file_object) {
            Completion::SharingViolation
        } else {
            Completion::Complete
        }
    }

    /// The device was opened, or the open was refused. A refused one is recorded.
    pub open spec fn opened(self, file_object: u64, process_id: u32, unloading: bool) -> Self {
        match self.open_completion(file_object, unloading) {
            Completion::Complete => DeviceView {
                owner: Some(Owner { file_object, process_id }),
                ..self
            },
            Completion::SharingViolation => self.with_warning(
                encode_utf8("Rejecting additional device open from PID "@) + decimal(
                    process_id as nat,
                ),
            ),
            _ => self,
        }
    }

    /// A file object was closed. Its owner releases the device.
    pub open spec fn closed_by(self, file_object: u64) -> Self {
        if self.owned_by(file_object) {
            self.released()
        } else {
            self
        }
    }

    /// The file object owns the device.
    pub open spec fn owned_by(self, file_object: u64) -> bool {
        file_object != 0 && (self.owner matches Some(owner) && owner.file_object == file_object)
    }
}

impl<H, C> Device<H, C> {
    /// Accepts the one open of the device. While the driver unloads, none is accepted.
    pub fn create(&mut self, file_object: u64, process_id: u32, unloading: bool) -> (completion:
        Completion)
        requires
            old(self).wf(),
        ensures
            final(self).wf(),
            completion == old(self)@.open_completion(file_object, unloading),
            final(self)@ == old(self)@.opened(file_object, process_id, unloading),
    {
        if unloading {
            return Completion::DeviceNotReady;
        }
        if file_object == 0 || self.owner.is_some() {
            let mut line: Vec<u8> = Vec::new();
            push_text(&mut line, "Rejecting additional device open from PID ");
            push_decimal(&mut line, process_id as u64);
            assert(line@ =~= encode_utf8("Rejecting additional device open from PID "@) + decimal(
                process_id as nat,
            ));
            self.record_warning(line.as_slice());
            return Completion::SharingViolation;
        }
        self.owner = Some(Owner { file_object, process_id });
        Completion::Complete
    }

    /// Returns whether a file object owns the device. The handle of an open that was
    /// refused does not.
    pub fn is_owner(&self, file_object: u64) -> (r: bool)
        ensures
            r == self@.owned_by(file_object),
    {
        match self.owner {
            Some(owner) => file_object != 0 && owner.file_object == file_object,
            None => false,
        }
    }

    /// Releases the device when its owner closes the last handle. A replacement handle
    /// begins at a complete record boundary.
    pub fn cleanup(&mut self, file_object: u64)
        requires
            old(self).wf(),
        ensures
            final(self).wf(),
            final(self)@ == old(self)@.closed_by(file_object),
    {
        if self.is_owner(file_object) {
            self.clear_read_leftover();
            self.owner = None;
        }
    }
}

/// A refused open does not release the device, and the owner's handle does.
pub proof fn only_the_owner_releases<H, C>(s: DeviceView<H, C>, file_object: u64, other: u64)
    requires
        s.owned_by(file_object),
        other != file_object,
    ensures
        !s.accepts_open(other),
        !s.owned_by(other),
        s.released().accepts_open(file_object),
{
}

} // verus!

//! The order of driver start and teardown.

use vstd::prelude::*;

verus! {

/// The steps of driver start that can fail, in order.
#[derive(Clone, Copy, Debug, PartialEq, Eq, Structural)]
pub enum StartupStage {
    /// Preparing the callback barrier. Then dispatch admission opens.
    Barrier,
    /// Creating the driver object.
    DriverObject,
    /// Creating the device. Then it is published: a committed filter can be invoked at
    /// once, and every callout resolves its state through the published device.
    Device,
    /// Committing the filters.
    Filters,
    /// Activating the callback barrier. Then user-mode I/O is enabled.
    Activation,
}

/// One step of teardown.
#[derive(Clone, Copy, Debug, PartialEq, Eq, Structural)]
pub enum TeardownStep {
    /// Close dispatch admission.
    CloseGate,
    /// Admit no further classification, and wait for those under way. Flow deletions are
    /// still admitted.
    CloseClassifyBarrier,
    /// Wake blocked reads.
    CancelReads,
    WaitForNonReads,
    WaitForReads,
    /// Accept no further flow context.
    BeginUnload,
    /// Resolve every pending decision.
    Shutdown,
    /// Take all flow contexts back, unregister all callouts, destroy injection handles.
    PrepareUnload,
    /// Admit no callback at all, and wait for those under way.
    CloseBarrier,
    /// Wait for every admitted dispatch.
    WaitForAll,
    /// Wait for every dispatch that is only completing its request.
    WaitForLifetime,
    /// Withdraw the published device and free it.
    WithdrawDevice,
}

impl StartupStage {
    /// The stage that follows.
    pub open spec fn spec_next(self) -> Option<StartupStage> {
        match self {
            StartupStage::Barrier => Some(StartupStage::DriverObject),
            StartupStage::DriverObject => Some(StartupStage::Device),
            StartupStage::Device => Some(StartupStage::Filters),
            StartupStage::Filters => Some(StartupStage::Activation),
            StartupStage::Activation => None,
        }
    }

    /// How many stages come before this one.
    pub open spec fn position(self) -> nat {
        match self {
            StartupStage::Barrier => 0,
            StartupStage::DriverObject => 1,
            StartupStage::Device => 2,
            StartupStage::Filters => 3,
            StartupStage::Activation => 4,
        }
    }

    /// Returns the stage that follows. After the last one the driver runs.
    pub fn next(self) -> (next: Option<StartupStage>)
        ensures
            next == self.spec_next(),
    {
        match self {
            StartupStage::Barrier => Some(StartupStage::DriverObject),
            StartupStage::DriverObject => Some(StartupStage::Device),
            StartupStage::Device => Some(StartupStage::Filters),
            StartupStage::Filters => Some(StartupStage::Activation),
            StartupStage::Activation => None,
        }
    }
}

/// What undoes a start that failed at some stage.
pub open spec fn spec_rollback(stage: StartupStage) -> Seq<TeardownStep> {
    match stage {
        StartupStage::Barrier => Seq::empty(),
        StartupStage::DriverObject | StartupStage::Device => seq![
            TeardownStep::CloseGate,
            TeardownStep::WaitForAll,
            TeardownStep::WaitForLifetime,
            TeardownStep::CloseBarrier,
        ],
        StartupStage::Filters => seq![
            TeardownStep::CloseGate,
            TeardownStep::CloseBarrier,
            TeardownStep::WaitForAll,
            TeardownStep::WaitForLifetime,
            TeardownStep::WithdrawDevice,
        ],
        StartupStage::Activation => seq![
            TeardownStep::CloseGate,
            TeardownStep::BeginUnload,
            TeardownStep::Shutdown,
            TeardownStep::PrepareUnload,
            TeardownStep::CloseBarrier,
            TeardownStep::WaitForAll,
            TeardownStep::WaitForLifetime,
            TeardownStep::WithdrawDevice,
        ],
    }
}

/// The steps of unload before the device is resolved.
pub open spec fn unload_begin(has_device: bool) -> Seq<TeardownStep> {
    if has_device {
        seq![
            TeardownStep::CloseGate,
            TeardownStep::CloseClassifyBarrier,
            TeardownStep::CancelReads,
            TeardownStep::WaitForNonReads,
            TeardownStep::WaitForReads,
            TeardownStep::BeginUnload,
            TeardownStep::Shutdown,
            TeardownStep::PrepareUnload,
        ]
    } else {
        seq![
            TeardownStep::CloseGate,
            TeardownStep::CloseClassifyBarrier,
            TeardownStep::WaitForNonReads,
            TeardownStep::WaitForReads,
        ]
    }
}

/// The steps of unload.
pub open spec fn spec_unload(has_device: bool) -> Seq<TeardownStep> {
    unload_begin(has_device) + seq![
        TeardownStep::CloseBarrier,
        TeardownStep::WaitForAll,
        TeardownStep::WaitForLifetime,
        TeardownStep::WithdrawDevice,
    ]
}

/// Returns what undoes a start that failed at some stage, in order.
pub fn rollback(stage: StartupStage) -> (steps: Vec<TeardownStep>)
    ensures
        steps@ == spec_rollback(stage),
{
    let mut steps: Vec<TeardownStep> = Vec::new();
    match stage {
        StartupStage::Barrier => {},
        StartupStage::DriverObject | StartupStage::Device => {
            steps.push(TeardownStep::CloseGate);
            steps.push(TeardownStep::WaitForAll);
            steps.push(TeardownStep::WaitForLifetime);
            steps.push(TeardownStep::CloseBarrier);
        },
        StartupStage::Filters => {
            steps.push(TeardownStep::CloseGate);
            steps.push(TeardownStep::CloseBarrier);
            steps.push(TeardownStep::WaitForAll);
            steps.push(TeardownStep::WaitForLifetime);
            steps.push(TeardownStep::WithdrawDevice);
        },
        StartupStage::Activation => {
            steps.push(TeardownStep::CloseGate);
            steps.push(TeardownStep::BeginUnload);
            steps.push(TeardownStep::Shutdown);
            steps.push(TeardownStep::PrepareUnload);
            steps.push(TeardownStep::CloseBarrier);
            steps.push(TeardownStep::WaitForAll);
            steps.push(TeardownStep::WaitForLifetime);
            steps.push(TeardownStep::WithdrawDevice);
        },
    }
    assert(steps@ =~= spec_rollback(stage));
    steps
}

/// Returns the steps of unload, in order. Reads are woken before other dispatches are waited
/// for: one of these can be a cleanup that itself waits for a read.
pub fn unload(has_device: bool) -> (steps: Vec<TeardownStep>)
    ensures
        steps@ == spec_unload(has_device),
{
    let mut steps: Vec<TeardownStep> = Vec::new();
    steps.push(TeardownStep::CloseGate);
    steps.push(TeardownStep::CloseClassifyBarrier);
    if has_device {
        steps.push(TeardownStep::CancelReads);
    }
    steps.push(TeardownStep::WaitForNonReads);
    steps.push(TeardownStep::WaitForReads);
    if has_device {
        steps.push(TeardownStep::BeginUnload);
        steps.push(TeardownStep::Shutdown);
        steps.push(TeardownStep::PrepareUnload);
    }
    steps.push(TeardownStep::CloseBarrier);
    steps.push(TeardownStep::WaitForAll);
    steps.push(TeardownStep::WaitForLifetime);
    steps.push(TeardownStep::WithdrawDevice);
    assert(steps@ =~= spec_unload(has_device));
    steps
}

/// `step` stands before `later` wherever `later` stands.
pub open spec fn comes_before(
    steps: Seq<TeardownStep>,
    step: TeardownStep,
    later: TeardownStep,
) -> bool {
    forall|i: int|
        0 <= i < steps.len() && #[trigger] steps[i] == later ==> exists|j: int|
            0 <= j < i && #[trigger] steps[j] == step
}

/// Nothing of the device is freed before admission and the barrier are closed and everything
/// that they admitted has ended.
pub open spec fn withdraws_safely(steps: Seq<TeardownStep>) -> bool {
    &&& comes_before(steps, TeardownStep::CloseGate, TeardownStep::WithdrawDevice)
    &&& comes_before(steps, TeardownStep::CloseBarrier, TeardownStep::WithdrawDevice)
    &&& comes_before(steps, TeardownStep::WaitForAll, TeardownStep::WithdrawDevice)
    &&& comes_before(steps, TeardownStep::WaitForLifetime, TeardownStep::WithdrawDevice)
}

/// However the driver ends, the device is withdrawn only when nothing can reach it.
pub proof fn device_is_withdrawn_safely(stage: StartupStage, has_device: bool)
    ensures
        withdraws_safely(spec_rollback(stage)),
        withdraws_safely(spec_unload(has_device)),
{
    let r = spec_rollback(stage);
    let u = spec_unload(has_device);
    match stage {
        StartupStage::Filters => {
            assert(r[0] == TeardownStep::CloseGate);
            assert(r[1] == TeardownStep::CloseBarrier);
            assert(r[2] == TeardownStep::WaitForAll);
            assert(r[3] == TeardownStep::WaitForLifetime);
        },
        StartupStage::Activation => {
            assert(r[0] == TeardownStep::CloseGate);
            assert(r[4] == TeardownStep::CloseBarrier);
            assert(r[5] == TeardownStep::WaitForAll);
            assert(r[6] == TeardownStep::WaitForLifetime);
        },
        _ => {},
    }
    let n = unload_begin(has_device).len() as int;
    assert(u[0] == TeardownStep::CloseGate);
    assert(u[n] == TeardownStep::CloseBarrier);
    assert(u[n + 1] == TeardownStep::WaitForAll);
    assert(u[n + 2] == TeardownStep::WaitForLifetime);
}

/// The stages follow one another, and a start that fails undoes what the stages before it
/// did, and nothing else: admission and the barrier are closed once they were opened, the
/// device is withdrawn once it was published, and callouts are unregistered once they were
/// committed.
pub proof fn rollback_undoes_what_was_done(stage: StartupStage)
    ensures
        stage.spec_next() matches Some(next) ==> next.position() == stage.position() + 1,
        spec_rollback(stage).contains(TeardownStep::CloseGate) <==> stage.position()
            > StartupStage::Barrier.position(),
        spec_rollback(stage).contains(TeardownStep::CloseBarrier) <==> stage.position()
            > StartupStage::Barrier.position(),
        spec_rollback(stage).contains(TeardownStep::WithdrawDevice) <==> stage.position()
            > StartupStage::Device.position(),
        spec_rollback(stage).contains(TeardownStep::PrepareUnload) <==> stage.position()
            > StartupStage::Filters.position(),
{
    let r = spec_rollback(stage);
    match stage {
        StartupStage::Barrier => {},
        StartupStage::DriverObject | StartupStage::Device => {
            assert(r[0] == TeardownStep::CloseGate);
            assert(r[3] == TeardownStep::CloseBarrier);
        },
        StartupStage::Filters => {
            assert(r[0] == TeardownStep::CloseGate);
            assert(r[1] == TeardownStep::CloseBarrier);
            assert(r[4] == TeardownStep::WithdrawDevice);
        },
        StartupStage::Activation => {
            assert(r[0] == TeardownStep::CloseGate);
            assert(r[3] == TeardownStep::PrepareUnload);
            assert(r[4] == TeardownStep::CloseBarrier);
            assert(r[7] == TeardownStep::WithdrawDevice);
        },
    }
}

} // verus!

use vstd::prelude::*;

use crate::fault::ExecutionFault;
use crate::model::step_model;
use crate::model::StepRes;
use crate::model::VmModel;
use crate::model::MEMORY_CAPACITY;

verus! {

/// The whole machine at one instant: the call stack of interpreter
/// frames (outermost first, the running frame last), or a finished
/// outcome carrying the outermost interpreter's final state.
#[verifier::ext_equal]
pub ghost enum Mach {
    /// At least one frame still runs.
    Running { frames: Seq<VmModel> },
    /// The outermost frame's counter left memory bounds: normal
    /// termination.
    Done { state: VmModel },
    /// A fatal condition stopped some frame. The state is the
    /// outermost frame as of the fault, carrying the output and the
    /// reports produced up to that moment.
    Failed { state: VmModel, fault: ExecutionFault },
}

/// The machine a single interpreter starts: one frame.
pub open spec fn init_mach(s: VmModel) -> Mach {
    Mach::Running { frames: seq![s] }
}

/// The outermost frame, carrying the output channel (output and
/// reports) of the innermost one: what is left when the stack is torn
/// down before it finishes.
pub open spec fn salvage(frames: Seq<VmModel>) -> VmModel {
    VmModel { out: frames.last().out, reports: frames.last().reports, ..frames[0] }
}

/// One machine step. A finished machine stands still. A frame whose
/// counter left memory bounds is popped, its output flowing back to
/// its caller (or the machine is done if it was the outermost frame).
/// Otherwise the running frame dispatches one whole instruction; a
/// `function-call` pushes the child frame, a fatal condition finishes
/// the machine.
pub open spec fn mach_step(m: Mach) -> Mach {
    match m {
        Mach::Running { frames } => {
            let top = frames.last();
            if top.pc >= MEMORY_CAPACITY {
                if frames.len() == 1 {
                    Mach::Done { state: top }
                } else {
                    let caller = VmModel {
                        out: top.out,
                        reports: top.reports,
                        ..frames[frames.len() - 2]
                    };
                    Mach::Running { frames: frames.drop_last().update(frames.len() - 2, caller) }
                }
            } else {
                match step_model(top) {
                    StepRes::Next(t) => Mach::Running {
                        frames: frames.update(frames.len() - 1, t),
                    },
                    StepRes::Call(caller, child) => Mach::Running {
                        frames: frames.update(frames.len() - 1, caller).push(child),
                    },
                    StepRes::Stuck(f) => Mach::Failed { state: salvage(frames), fault: f },
                }
            }
        },
        Mach::Done { state } => Mach::Done { state },
        Mach::Failed { state, fault } => Mach::Failed { state, fault },
    }
}

/// `n` machine steps from `m`.
pub open spec fn mach_iter(m: Mach, n: nat) -> Mach
    decreases n,
{
    if n == 0 {
        m
    } else {
        mach_iter(mach_step(m), (n - 1) as nat)
    }
}

/// A machine that is not running any more.
pub open spec fn mach_terminal(m: Mach) -> bool {
    !(m is Running)
}

/// Iterating once more applies one step at the end.
pub proof fn lemma_iter_snoc(m: Mach, n: nat)
    ensures
        mach_iter(m, n + 1) == mach_step(mach_iter(m, n)),
    decreases n,
{
    if n == 0 {
    } else {
        lemma_iter_snoc(mach_step(m), (n - 1) as nat);
        assert(mach_iter(m, n + 1) == mach_iter(mach_step(m), n));
        assert(mach_iter(m, n) == mach_iter(mach_step(m), (n - 1) as nat));
    }
}

/// Iteration composes.
pub proof fn lemma_iter_add(m: Mach, a: nat, b: nat)
    ensures
        mach_iter(m, a + b) == mach_iter(mach_iter(m, a), b),
    decreases a,
{
    if a == 0 {
    } else {
        lemma_iter_add(mach_step(m), (a - 1) as nat, b);
    }
}

/// A finished machine absorbs all further steps.
pub proof fn lemma_terminal_absorbs(m: Mach, n: nat)
    requires
        mach_terminal(m),
    ensures
        mach_iter(m, n) == m,
    decreases n,
{
    if n == 0 {
    } else {
        lemma_terminal_absorbs(m, (n - 1) as nat);
    }
}

} // verus!

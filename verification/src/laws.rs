//! What holds of every design that the kernel runs: stalls leave no trace, committed
//! values stay fixed while modules are evaluated, and runs halt when and as they should.

use crate::kernel::{
    begin_cycle, evaluate, evaluate_module, lemma_evaluate_frame, lemma_evaluate_module_frame,
    run_spec, some_fired, step_spec, Design, Fabric, HaltReason, SimulatorView, Status,
};
use crate::schedule::is_due;
use crate::timing::SETTLE_OFFSET;
use vstd::prelude::*;

verus! {

/// A module whose schedule is not due is not attempted: its turn changes nothing.
pub proof fn lemma_module_not_due_is_skipped<D: Design>(sim: SimulatorView<D::V>, module: int)
    requires
        !is_due(sim.events[module], sim.stamp),
    ensures
        evaluate_module::<D>(sim, module) == sim,
{
}

/// A module that is attempted and does not fire leaves no trace: the registers, the
/// channels and every schedule are as before, the front entry of its own schedule
/// included, so that it is attempted again in the next cycle.
pub proof fn lemma_stalled_module_changes_nothing<D: Design>(
    sim: SimulatorView<D::V>,
    module: int,
)
    requires
        0 <= module < D::module_count(),
        sim.events.len() == D::module_count(),
        sim.triggered.len() == D::module_count(),
        is_due(sim.events[module], sim.stamp),
        !D::attempt_spec(sim, module).1,
    ensures
        evaluate_module::<D>(sim, module).design == sim.design,
        evaluate_module::<D>(sim, module).events == sim.events,
        evaluate_module::<D>(sim, module).events[module][0] == sim.events[module][0],
        !evaluate_module::<D>(sim, module).triggered[module],
        forall|clock: usize|
            clock >= sim.stamp ==> is_due(evaluate_module::<D>(sim, module).events[module], clock),
{
    D::lemma_module_rights(sim, module);
}

/// A module that fires loses the entry that made it due and no other.
pub proof fn lemma_fired_module_consumes_one_entry<D: Design>(
    sim: SimulatorView<D::V>,
    module: int,
)
    requires
        0 <= module < D::module_count(),
        sim.events.len() == D::module_count(),
        sim.triggered.len() == D::module_count(),
        is_due(sim.events[module], sim.stamp),
        D::attempt_spec(sim, module).1,
    ensures
        evaluate_module::<D>(sim, module).triggered[module],
        sim.events[module].drop_first().is_prefix_of(
            evaluate_module::<D>(sim, module).events[module],
        ),
{
    D::lemma_module_rights(sim, module);
    let next = D::attempt_spec(sim, module).0;
    assert(sim.events[module].is_prefix_of(next.events[module]));
    assert(sim.events[module].drop_first() =~= next.events[module].drop_first().subrange(
        0,
        sim.events[module].len() - 1,
    ));
}

/// The evaluation of the modules changes no committed value: whichever modules had their
/// turn before it, a module reads what the last commit left.
pub proof fn lemma_evaluation_keeps_committed<D: Design>(sim: SimulatorView<D::V>, modules: nat)
    requires
        modules <= D::module_count(),
        sim.events.len() == D::module_count(),
        sim.triggered.len() == D::module_count(),
    ensures
        D::committed_part(evaluate::<D>(sim, modules).design) == D::committed_part(sim.design),
    decreases modules,
{
    if modules > 0 {
        let before = evaluate::<D>(sim, (modules - 1) as nat);
        lemma_evaluation_keeps_committed::<D>(sim, (modules - 1) as nat);
        lemma_evaluate_frame::<D>(sim, (modules - 1) as nat);
        D::lemma_module_rights(before, modules - 1);
    }
}

/// The evaluation of the first `modules` modules leaves the flags of the others alone.
pub proof fn lemma_evaluate_keeps_later_flags<D: Design>(
    sim: SimulatorView<D::V>,
    modules: nat,
    other: int,
)
    requires
        modules <= other < D::module_count(),
        sim.events.len() == D::module_count(),
        sim.triggered.len() == D::module_count(),
    ensures
        evaluate::<D>(sim, modules).triggered[other] == sim.triggered[other],
    decreases modules,
{
    if modules > 0 {
        let before = evaluate::<D>(sim, (modules - 1) as nat);
        lemma_evaluate_keeps_later_flags::<D>(sim, (modules - 1) as nat, other);
        lemma_evaluate_frame::<D>(sim, (modules - 1) as nat);
        D::lemma_module_rights(before, modules - 1);
    }
}

/// An evaluation in which no module fires changes nothing: the modules that were
/// attempted stalled, and a stalled module leaves no trace.
pub proof fn lemma_idle_evaluation_changes_nothing<D: Design>(
    sim: SimulatorView<D::V>,
    modules: nat,
)
    requires
        modules <= D::module_count(),
        sim.events.len() == D::module_count(),
        sim.triggered.len() == D::module_count(),
        !some_fired(sim.triggered),
        !some_fired(evaluate::<D>(sim, modules).triggered),
    ensures
        evaluate::<D>(sim, modules) == sim,
    decreases modules,
{
    if modules > 0 {
        let module = modules - 1;
        let before = evaluate::<D>(sim, module as nat);
        let after = evaluate_module::<D>(before, module);
        lemma_evaluate_frame::<D>(sim, module as nat);
        lemma_evaluate_module_frame::<D>(before, module);
        lemma_evaluate_keeps_later_flags::<D>(sim, module as nat, module);
        D::lemma_module_rights(before, module);
        assert(!sim.triggered[module]);
        assert(!after.triggered[module]);
        if is_due(before.events[module], before.stamp) {
            assert(!D::attempt_spec(before, module).1);
            assert(after.triggered =~= before.triggered);
        }
        assert(after == before);
        lemma_idle_evaluation_changes_nothing::<D>(sim, module as nat);
    }
}

/// No module fires in the next cycle of `sim`.
pub open spec fn idle_cycle<D: Design>(sim: SimulatorView<D::V>) -> bool {
    !some_fired(evaluate::<D>(begin_cycle(sim), D::module_count()).triggered)
}

/// An idle cycle leaves nothing behind but the time that passed: no schedule and no
/// pending effect differs, and registers and channels have committed at the settle point,
/// unless the run halted as idle before that.
pub proof fn lemma_idle_cycle_changes_nothing<D: Design>(
    sim: SimulatorView<D::V>,
    budget: usize,
    idle_threshold: usize,
)
    requires
        sim.events.len() == D::module_count(),
        sim.triggered.len() == D::module_count(),
        idle_cycle::<D>(sim),
    ensures
        step_spec::<D>(sim, budget, idle_threshold).0.events == sim.events,
        step_spec::<D>(sim, budget, idle_threshold).1 == Status::Halted(
            HaltReason::IdleThresholdReached,
        ) ==> step_spec::<D>(sim, budget, idle_threshold).0.design == sim.design,
        step_spec::<D>(sim, budget, idle_threshold).1 != Status::Halted(
            HaltReason::IdleThresholdReached,
        ) ==> step_spec::<D>(sim, budget, idle_threshold).0.design == D::commit_spec(
            sim.design,
            (begin_cycle(sim).stamp + SETTLE_OFFSET) as usize,
        ),
{
    let started = begin_cycle(sim);
    assert(!some_fired(started.triggered));
    lemma_idle_evaluation_changes_nothing::<D>(started, D::module_count());
}

/// A cycle in which a module fires sets the idle counter back to zero, and the run does not
/// halt as idle in it.
pub proof fn lemma_firing_resets_idle_count<D: Design>(
    sim: SimulatorView<D::V>,
    budget: usize,
    idle_threshold: usize,
)
    requires
        !idle_cycle::<D>(sim),
    ensures
        step_spec::<D>(sim, budget, idle_threshold).0.idle_count == 0,
        step_spec::<D>(sim, budget, idle_threshold).1 != Status::Halted(
            HaltReason::IdleThresholdReached,
        ),
{
}

/// In the cycle in which the idle counter reaches the threshold the run halts as idle, at
/// the boundary of that cycle and without a commit.
pub proof fn lemma_idle_threshold_halts<D: Design>(
    sim: SimulatorView<D::V>,
    budget: usize,
    idle_threshold: usize,
)
    requires
        idle_cycle::<D>(sim),
        sim.idle_count + 1 == idle_threshold,
        sim.cycle < usize::MAX,
    ensures
        step_spec::<D>(sim, budget, idle_threshold).1 == Status::Halted(
            HaltReason::IdleThresholdReached,
        ),
        step_spec::<D>(sim, budget, idle_threshold).0.cycle == sim.cycle + 1,
        step_spec::<D>(sim, budget, idle_threshold).0.stamp == begin_cycle(sim).stamp,
        step_spec::<D>(sim, budget, idle_threshold).0.idle_count == idle_threshold,
{
}

/// No module fires in any of the next `cycles` cycles of `sim`.
pub open spec fn idle_streak<D: Design>(
    sim: SimulatorView<D::V>,
    budget: usize,
    idle_threshold: usize,
    cycles: nat,
) -> bool
    decreases cycles,
{
    cycles == 0 || (idle_cycle::<D>(sim) && idle_streak::<D>(
        step_spec::<D>(sim, budget, idle_threshold).0,
        budget,
        idle_threshold,
        (cycles - 1) as nat,
    ))
}

/// A run in which no module fires for as many cycles in a row as the idle counter still
/// lacks to the threshold halts as idle in the last of these cycles: no further cycle is
/// run.
pub proof fn lemma_idle_streak_halts<D: Design>(
    sim: SimulatorView<D::V>,
    budget: usize,
    idle_threshold: usize,
    cycles: nat,
)
    requires
        cycles >= 1,
        sim.idle_count + cycles == idle_threshold,
        sim.cycle + cycles <= budget,
        idle_streak::<D>(sim, budget, idle_threshold, cycles),
    ensures
        run_spec::<D>(sim, budget, idle_threshold).1 == HaltReason::IdleThresholdReached,
        run_spec::<D>(sim, budget, idle_threshold).0.cycle == sim.cycle + cycles,
        run_spec::<D>(sim, budget, idle_threshold).0.idle_count == idle_threshold,
    decreases cycles,
{
    if cycles > 1 {
        let next = step_spec::<D>(sim, budget, idle_threshold).0;
        assert(step_spec::<D>(sim, budget, idle_threshold).1 == Status::Running);
        lemma_idle_streak_halts::<D>(next, budget, idle_threshold, (cycles - 1) as nat);
    }
}

/// A run halts for its reason: as idle only with the idle counter at the threshold or
/// above, after a cycle in which no module fired, and else with the budget used up.
pub proof fn lemma_run_halts_for_its_reason<D: Design>(
    sim: SimulatorView<D::V>,
    budget: usize,
    idle_threshold: usize,
)
    ensures
        run_spec::<D>(sim, budget, idle_threshold).1 == HaltReason::IdleThresholdReached ==> {
            &&& run_spec::<D>(sim, budget, idle_threshold).0.idle_count >= idle_threshold
            &&& !some_fired(run_spec::<D>(sim, budget, idle_threshold).0.triggered)
            &&& sim.cycle < run_spec::<D>(sim, budget, idle_threshold).0.cycle <= budget
        },
        run_spec::<D>(sim, budget, idle_threshold).1 == HaltReason::CycleBudgetExhausted
            ==> run_spec::<D>(sim, budget, idle_threshold).0.cycle >= budget,
    decreases budget - sim.cycle,
{
    if sim.cycle < budget {
        let (next, status) = step_spec::<D>(sim, budget, idle_threshold);
        if status == Status::Running {
            lemma_run_halts_for_its_reason::<D>(next, budget, idle_threshold);
        }
    }
}

/// Some module fires in each of the next `cycles` cycles of `sim`.
pub open spec fn busy_streak<D: Design>(
    sim: SimulatorView<D::V>,
    budget: usize,
    idle_threshold: usize,
    cycles: nat,
) -> bool
    decreases cycles,
{
    cycles == 0 || (!idle_cycle::<D>(sim) && busy_streak::<D>(
        step_spec::<D>(sim, budget, idle_threshold).0,
        budget,
        idle_threshold,
        (cycles - 1) as nat,
    ))
}

/// A run in which some module fires in every cycle that the budget leaves ends with the
/// budget, whatever the idle threshold.
pub proof fn lemma_busy_run_exhausts_budget<D: Design>(
    sim: SimulatorView<D::V>,
    budget: usize,
    idle_threshold: usize,
)
    requires
        sim.cycle <= budget,
        busy_streak::<D>(sim, budget, idle_threshold, (budget - sim.cycle) as nat),
    ensures
        run_spec::<D>(sim, budget, idle_threshold).1 == HaltReason::CycleBudgetExhausted,
        run_spec::<D>(sim, budget, idle_threshold).0.cycle == budget,
    decreases budget - sim.cycle,
{
    if sim.cycle < budget {
        let next = step_spec::<D>(sim, budget, idle_threshold).0;
        lemma_busy_run_exhausts_budget::<D>(next, budget, idle_threshold);
    }
}

/// No module has anything scheduled.
pub open spec fn nothing_scheduled<M>(sim: SimulatorView<M>) -> bool {
    forall|m: int| 0 <= m < sim.events.len() ==> (#[trigger] sim.events[m]).len() == 0
}

/// Where nothing is scheduled no module is attempted: the evaluation changes nothing.
pub proof fn lemma_nothing_scheduled_skips_all<D: Design>(sim: SimulatorView<D::V>, modules: nat)
    requires
        modules <= D::module_count(),
        sim.events.len() == D::module_count(),
        nothing_scheduled(sim),
    ensures
        evaluate::<D>(sim, modules) == sim,
    decreases modules,
{
    if modules > 0 {
        lemma_nothing_scheduled_skips_all::<D>(sim, (modules - 1) as nat);
    }
}

/// A simulator in which nothing is scheduled stays idle for as many cycles as one cares
/// to look ahead.
pub proof fn lemma_nothing_scheduled_is_idle<D: Design>(
    sim: SimulatorView<D::V>,
    budget: usize,
    idle_threshold: usize,
    cycles: nat,
)
    requires
        sim.events.len() == D::module_count(),
        nothing_scheduled(sim),
    ensures
        idle_streak::<D>(sim, budget, idle_threshold, cycles),
    decreases cycles,
{
    if cycles > 0 {
        let started = begin_cycle(sim);
        lemma_nothing_scheduled_skips_all::<D>(started, D::module_count());
        let next = step_spec::<D>(sim, budget, idle_threshold).0;
        assert(next.events == sim.events);
        lemma_nothing_scheduled_is_idle::<D>(next, budget, idle_threshold, (cycles - 1) as nat);
    }
}

} // verus!

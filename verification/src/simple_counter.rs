//! A design with a single counter module.

use crate::filters::lemma_filter_none;
use crate::kernel::{
    begin_cycle, evaluate, evaluate_module, initial, run_spec, step_spec, Design, Fabric,
    HaltReason, Simulator, SimulatorView, Status,
};
use crate::laws::{lemma_idle_streak_halts, lemma_nothing_scheduled_is_idle};
use crate::register::{write_after, PendingWrite, RegisterFile, RegisterFileView};
use crate::timing::{
    settle_point, settle_stamp, CYCLE_BUDGET, IDLE_THRESHOLD, SETTLE_OFFSET, STRIDE,
};
use vstd::prelude::*;

verus! {

/// The place of the counter among the modules.
pub const SIMPLE_COUNTER_INSTANCE: usize = 0;

/// The one register of the design, which has one port and holds the count.
pub struct SimpleCounter {
    pub cnt: RegisterFile<u32>,
}

/// The mathematical content of the design.
pub struct SimpleCounterView {
    pub cnt: RegisterFileView<u32>,
}

impl View for SimpleCounter {
    type V = SimpleCounterView;

    open spec fn view(&self) -> SimpleCounterView {
        SimpleCounterView { cnt: self.cnt@ }
    }
}

impl Fabric for SimpleCounter {
    open spec fn wf(&self) -> bool {
        self.cnt@.ports() > 0
    }

    open spec fn module_count() -> nat {
        1
    }

    open spec fn initial_model() -> SimpleCounterView {
        SimpleCounterView {
            cnt: RegisterFileView { committed: seq![0u32], pending: Seq::empty() },
        }
    }

    open spec fn commit_spec(design: SimpleCounterView, clock: usize) -> SimpleCounterView {
        SimpleCounterView { cnt: design.cnt.commit(clock) }
    }

    open spec fn committed_part(design: SimpleCounterView) -> SimpleCounterView {
        SimpleCounterView { cnt: design.cnt.committed_only() }
    }

    fn create() -> (design: Self) {
        let design = SimpleCounter { cnt: RegisterFile::new(1, 0) };
        assert(design.cnt@.committed =~= seq![0u32]);
        design
    }

    fn modules() -> (n: usize) {
        1
    }

    fn commit(&mut self, clock: usize) {
        self.cnt.commit(clock);
    }
}

/// The counter buffers its count plus one, modulo 2^32, for the settle point. It always
/// fires.
pub open spec fn simple_counter_instance(sim: SimulatorView<SimpleCounterView>) -> (
    SimulatorView<SimpleCounterView>,
    bool,
) {
    let settle = settle_point(sim.stamp as int) as usize;
    (
        SimulatorView {
            design: SimpleCounterView {
                cnt: sim.design.cnt.buffer_write(
                    0,
                    settle,
                    sim.design.cnt.committed[0].wrapping_add(1),
                ),
            },
            ..sim
        },
        true,
    )
}

/// Attempts the counter.
#[allow(non_snake_case)]
pub fn SimpleCounterInstance(sim: &mut Simulator<SimpleCounter>) -> (fired: bool)
    requires
        old(sim).wf(),
    ensures
        final(sim).wf(),
        (final(sim)@, fired) == simple_counter_instance(old(sim)@),
        fired,
{
    let current: u32 = sim.design.cnt.read(0);
    let new_value: u32 = current.wrapping_add(1);
    let stamp: usize = settle_stamp(sim.stamp);
    sim.design.cnt.buffer_write(0, stamp, new_value);
    true
}

impl Design for SimpleCounter {
    open spec fn attempt_spec(sim: SimulatorView<SimpleCounterView>, module: int) -> (
        SimulatorView<SimpleCounterView>,
        bool,
    ) {
        simple_counter_instance(sim)
    }

    proof fn lemma_module_rights(sim: SimulatorView<SimpleCounterView>, module: int) {
        assert forall|m: int| 0 <= m < sim.events.len() implies sim.events[m].is_prefix_of(
            #[trigger] simple_counter_instance(sim).0.events[m],
        ) by {
            assert(sim.events[m] =~= sim.events[m].subrange(0, sim.events[m].len() as int));
        }
    }

    fn attempt(sim: &mut Simulator<Self>, module: usize) -> (fired: bool) {
        SimpleCounterInstance(sim)
    }
}

/// The simulator is on the way of a run in which the counter is due at the boundary of
/// every cycle up to cycle `cycles`: the count equals the number of cycles run, nothing is
/// pending, and the run was never idle.
pub open spec fn counting(sim: SimulatorView<SimpleCounterView>, cycles: usize) -> bool {
    &&& sim.cycle <= cycles <= u32::MAX
    &&& (cycles + 2) * STRIDE <= usize::MAX
    &&& sim.events.len() == 1
    &&& sim.triggered.len() == 1
    &&& sim.events[0] == Seq::new(
        (cycles - sim.cycle) as nat,
        |k: int| ((sim.cycle + 1 + k) * STRIDE) as usize,
    )
    &&& sim.idle_count == 0
    &&& sim.design.cnt.committed == seq![sim.cycle as u32]
    &&& sim.design.cnt.pending == Seq::<PendingWrite<u32>>::empty()
}

/// A counter that is scheduled in every cycle counts the cycles: after each cycle it reads
/// one more, it never stalls, and the idle counter stays at zero.
pub proof fn lemma_scheduled_counter_counts_cycles(
    sim: SimulatorView<SimpleCounterView>,
    cycles: usize,
    budget: usize,
    idle_threshold: usize,
)
    requires
        counting(sim, cycles),
        sim.cycle < cycles,
    ensures
        counting(step_spec::<SimpleCounter>(sim, budget, idle_threshold).0, cycles),
        step_spec::<SimpleCounter>(sim, budget, idle_threshold).0.cycle == sim.cycle + 1,
        step_spec::<SimpleCounter>(sim, budget, idle_threshold).0.design.cnt.committed[0]
            == sim.cycle + 1,
        step_spec::<SimpleCounter>(sim, budget, idle_threshold).0.triggered[0],
        step_spec::<SimpleCounter>(sim, budget, idle_threshold).1 != Status::Halted(
            HaltReason::IdleThresholdReached,
        ),
{
    reveal_with_fuel(evaluate, 2);
    let started = begin_cycle(sim);
    assert(sim.events[0][0] == started.stamp);
    let evaluated = evaluate::<SimpleCounter>(started, 1);
    assert(evaluated == evaluate_module::<SimpleCounter>(started, 0));
    assert(evaluated.triggered[0]);
    assert(evaluated.events[0] =~= Seq::new(
        (cycles - sim.cycle - 1) as nat,
        |k: int| ((sim.cycle + 2 + k) * STRIDE) as usize,
    ));
    let settle = (started.stamp + SETTLE_OFFSET) as usize;
    let write = PendingWrite { stamp: settle, port: 0usize, value: (sim.cycle + 1) as u32 };
    assert(evaluated.design.cnt == sim.design.cnt.buffer_write(0, settle, write.value));
    sim.design.cnt.lemma_write_lands_at_its_time(0, settle, write.value, settle);
    lemma_filter_none(evaluated.design.cnt.pending, write_after::<u32>(settle));
    assert(evaluated.design.cnt.commit(settle).committed =~= seq![(sim.cycle + 1) as u32]);
}

/// Runs the design from its first cycle until it halts, and says why it halted. Nothing
/// schedules the counter, so the run stays idle and halts for that reason.
pub fn simulate() -> (reason: HaltReason)
    ensures
        reason == run_spec::<SimpleCounter>(
            initial::<SimpleCounter>(),
            CYCLE_BUDGET,
            IDLE_THRESHOLD,
        ).1,
        reason == HaltReason::IdleThresholdReached,
{
    let mut sim: Simulator<SimpleCounter> = Simulator::new();
    proof {
        lemma_nothing_scheduled_is_idle::<SimpleCounter>(
            sim@,
            CYCLE_BUDGET,
            IDLE_THRESHOLD,
            IDLE_THRESHOLD as nat,
        );
        lemma_idle_streak_halts::<SimpleCounter>(
            sim@,
            CYCLE_BUDGET,
            IDLE_THRESHOLD,
            IDLE_THRESHOLD as nat,
        );
    }
    sim.run(CYCLE_BUDGET, IDLE_THRESHOLD)
}

} // verus!

//! A design with the counter of the processor system on its own.

use crate::kernel::{
    initial, run_spec, Design, Fabric, HaltReason, Simulator, SimulatorView,
};
use crate::laws::{lemma_idle_streak_halts, lemma_nothing_scheduled_is_idle};
use crate::register::{RegisterFile, RegisterFileView};
use crate::timing::{settle_point, settle_stamp, CYCLE_BUDGET, IDLE_THRESHOLD};
use vstd::prelude::*;

verus! {

/// The place of the counter among the modules.
pub const COUNTER_INSTANCE: usize = 0;

/// The one register of the design, which has one port and holds the count.
pub struct CounterSystem {
    pub cnt: RegisterFile<u32>,
}

/// The mathematical content of the design.
pub struct CounterSystemView {
    pub cnt: RegisterFileView<u32>,
}

impl View for CounterSystem {
    type V = CounterSystemView;

    open spec fn view(&self) -> CounterSystemView {
        CounterSystemView { cnt: self.cnt@ }
    }
}

impl Fabric for CounterSystem {
    open spec fn wf(&self) -> bool {
        self.cnt@.ports() > 0
    }

    open spec fn module_count() -> nat {
        1
    }

    open spec fn initial_model() -> CounterSystemView {
        CounterSystemView {
            cnt: RegisterFileView { committed: seq![0u32], pending: Seq::empty() },
        }
    }

    open spec fn commit_spec(design: CounterSystemView, clock: usize) -> CounterSystemView {
        CounterSystemView { cnt: design.cnt.commit(clock) }
    }

    open spec fn committed_part(design: CounterSystemView) -> CounterSystemView {
        CounterSystemView { cnt: design.cnt.committed_only() }
    }

    fn create() -> (design: Self) {
        let design = CounterSystem { cnt: RegisterFile::new(1, 0) };
        assert(design.cnt@.committed =~= seq![0u32]);
        design
    }

    fn modules() -> (n: usize) {
        1
    }

    fn commit(&mut self, clock: usize) {
        self.cnt.commit(clock);
    }
}

/// The counter buffers its count plus one, modulo 2^32, for the settle point. It always
/// fires.
pub open spec fn counter_instance(sim: SimulatorView<CounterSystemView>) -> (
    SimulatorView<CounterSystemView>,
    bool,
) {
    let settle = settle_point(sim.stamp as int) as usize;
    (
        SimulatorView {
            design: CounterSystemView {
                cnt: sim.design.cnt.buffer_write(
                    0,
                    settle,
                    sim.design.cnt.committed[0].wrapping_add(1),
                ),
            },
            ..sim
        },
        true,
    )
}

/// Attempts the counter.
#[allow(non_snake_case)]
pub fn CounterInstance(sim: &mut Simulator<CounterSystem>) -> (fired: bool)
    requires
        old(sim).wf(),
    ensures
        final(sim).wf(),
        (final(sim)@, fired) == counter_instance(old(sim)@),
        fired,
{
    let current: u32 = sim.design.cnt.read(0);
    let new_value: u32 = current.wrapping_add(1);
    let stamp: usize = settle_stamp(sim.stamp);
    sim.design.cnt.buffer_write(0, stamp, new_value);
    true
}

impl Design for CounterSystem {
    open spec fn attempt_spec(sim: SimulatorView<CounterSystemView>, module: int) -> (
        SimulatorView<CounterSystemView>,
        bool,
    ) {
        counter_instance(sim)
    }

    proof fn lemma_module_rights(sim: SimulatorView<CounterSystemView>, module: int) {
        assert forall|m: int| 0 <= m < sim.events.len() implies sim.events[m].is_prefix_of(
            #[trigger] counter_instance(sim).0.events[m],
        ) by {
            assert(sim.events[m] =~= sim.events[m].subrange(0, sim.events[m].len() as int));
        }
    }

    fn attempt(sim: &mut Simulator<Self>, module: usize) -> (fired: bool) {
        CounterInstance(sim)
    }
}

/// Runs the design from its first cycle until it halts, and says why it halted. Nothing
/// schedules the counter, so the run stays idle and halts for that reason.
pub fn simulate() -> (reason: HaltReason)
    ensures
        reason == run_spec::<CounterSystem>(
            initial::<CounterSystem>(),
            CYCLE_BUDGET,
            IDLE_THRESHOLD,
        ).1,
        reason == HaltReason::IdleThresholdReached,
{
    let mut sim: Simulator<CounterSystem> = Simulator::new();
    proof {
        lemma_nothing_scheduled_is_idle::<CounterSystem>(
            sim@,
            CYCLE_BUDGET,
            IDLE_THRESHOLD,
            IDLE_THRESHOLD as nat,
        );
        lemma_idle_streak_halts::<CounterSystem>(
            sim@,
            CYCLE_BUDGET,
            IDLE_THRESHOLD,
            IDLE_THRESHOLD as nat,
        );
    }
    sim.run(CYCLE_BUDGET, IDLE_THRESHOLD)
}

} // verus!

//! A design with a driver that feeds a data processor through two channels, and a counter.
//!
//! The driver counts its cycles, derives test data from the count and sends the data on
//! one channel and an enable bit on the other. The data processor waits until both channels
//! hold a value, takes one from each and, where the enable bit is set, stores twice the
//! data. The counter counts the cycles in which it is attempted.

use crate::kernel::{
    begin_cycle, evaluate, evaluate_module, initial, run_spec, step_spec, Design, Fabric,
    HaltReason, Simulator, SimulatorView,
};
use crate::laws::{busy_streak, idle_cycle, lemma_busy_run_exhausts_budget};
use crate::queue::{TimedQueue, TimedQueueView};
use crate::register::{RegisterFile, RegisterFileView};
use crate::timing::{
    next_boundary, settle_point, settle_stamp, wake_stamp, CYCLE_BUDGET, IDLE_THRESHOLD,
    SETTLE_OFFSET, STRIDE,
};
use vstd::prelude::*;

verus! {

/// The place of the counter among the modules.
pub const COUNTER_INSTANCE: usize = 0;

/// The place of the data processor among the modules.
pub const DATA_PROCESSOR_INSTANCE: usize = 1;

/// The place of the driver among the modules.
pub const DRIVER: usize = 2;

/// The registers and channels of the design. Every register has one port.
pub struct ProcessorSystem {
    /// The count of the counter.
    pub cnt: RegisterFile<u32>,
    /// The last result of the data processor.
    pub processed_data: RegisterFile<u32>,
    /// The number of cycles in which the driver fired.
    pub cycle_cnt: RegisterFile<u32>,
    /// The test data that the driver derived last.
    pub test_data: RegisterFile<u32>,
    /// The channel on which the data processor receives data.
    pub data_in: TimedQueue<u32>,
    /// The channel on which the data processor receives the enable bit.
    pub enable: TimedQueue<bool>,
}

/// The mathematical content of the design.
pub struct ProcessorSystemView {
    pub cnt: RegisterFileView<u32>,
    pub processed_data: RegisterFileView<u32>,
    pub cycle_cnt: RegisterFileView<u32>,
    pub test_data: RegisterFileView<u32>,
    pub data_in: TimedQueueView<u32>,
    pub enable: TimedQueueView<bool>,
}

impl View for ProcessorSystem {
    type V = ProcessorSystemView;

    open spec fn view(&self) -> ProcessorSystemView {
        ProcessorSystemView {
            cnt: self.cnt@,
            processed_data: self.processed_data@,
            cycle_cnt: self.cycle_cnt@,
            test_data: self.test_data@,
            data_in: self.data_in@,
            enable: self.enable@,
        }
    }
}

/// A register with one port that holds zero and has no pending write.
pub open spec fn cleared_register() -> RegisterFileView<u32> {
    RegisterFileView { committed: seq![0u32], pending: Seq::empty() }
}

/// A channel that holds nothing and has nothing pending.
pub open spec fn cleared_channel<T>() -> TimedQueueView<T> {
    TimedQueueView { items: Seq::empty(), pushes: Seq::empty(), pops: Seq::empty() }
}

impl Fabric for ProcessorSystem {
    open spec fn wf(&self) -> bool {
        &&& self.cnt@.ports() > 0
        &&& self.processed_data@.ports() > 0
        &&& self.cycle_cnt@.ports() > 0
        &&& self.test_data@.ports() > 0
    }

    open spec fn module_count() -> nat {
        3
    }

    open spec fn initial_model() -> ProcessorSystemView {
        ProcessorSystemView {
            cnt: cleared_register(),
            processed_data: cleared_register(),
            cycle_cnt: cleared_register(),
            test_data: cleared_register(),
            data_in: cleared_channel(),
            enable: cleared_channel(),
        }
    }

    open spec fn commit_spec(design: ProcessorSystemView, clock: usize) -> ProcessorSystemView {
        ProcessorSystemView {
            cnt: design.cnt.commit(clock),
            processed_data: design.processed_data.commit(clock),
            cycle_cnt: design.cycle_cnt.commit(clock),
            test_data: design.test_data.commit(clock),
            data_in: design.data_in.commit(clock),
            enable: design.enable.commit(clock),
        }
    }

    open spec fn committed_part(design: ProcessorSystemView) -> ProcessorSystemView {
        ProcessorSystemView {
            cnt: design.cnt.committed_only(),
            processed_data: design.processed_data.committed_only(),
            cycle_cnt: design.cycle_cnt.committed_only(),
            test_data: design.test_data.committed_only(),
            data_in: design.data_in.committed_only(),
            enable: design.enable.committed_only(),
        }
    }

    fn create() -> (design: Self) {
        let design = ProcessorSystem {
            cnt: RegisterFile::new(1, 0),
            processed_data: RegisterFile::new(1, 0),
            cycle_cnt: RegisterFile::new(1, 0),
            test_data: RegisterFile::new(1, 0),
            data_in: TimedQueue::new(),
            enable: TimedQueue::new(),
        };
        assert(design.cnt@.committed =~= seq![0u32]);
        assert(design.processed_data@.committed =~= seq![0u32]);
        assert(design.cycle_cnt@.committed =~= seq![0u32]);
        assert(design.test_data@.committed =~= seq![0u32]);
        design
    }

    fn modules() -> (n: usize) {
        3
    }

    fn commit(&mut self, clock: usize) {
        self.cnt.commit(clock);
        self.processed_data.commit(clock);
        self.cycle_cnt.commit(clock);
        self.test_data.commit(clock);
        self.data_in.commit(clock);
        self.enable.commit(clock);
    }
}

/// The counter buffers its count plus one, modulo 2^32, for the settle point. It always
/// fires.
pub open spec fn counter_instance(sim: SimulatorView<ProcessorSystemView>) -> (
    SimulatorView<ProcessorSystemView>,
    bool,
) {
    let settle = settle_point(sim.stamp as int) as usize;
    (
        SimulatorView {
            design: ProcessorSystemView {
                cnt: sim.design.cnt.buffer_write(
                    0,
                    settle,
                    sim.design.cnt.committed[0].wrapping_add(1),
                ),
                ..sim.design
            },
            ..sim
        },
        true,
    )
}

/// The data processor fires if both of its channels hold a value. It then buffers a pop on
/// each for the settle point and, if the enable bit at the front is set, a write of twice
/// the data at the front, modulo 2^32.
pub open spec fn data_processor_instance(sim: SimulatorView<ProcessorSystemView>) -> (
    SimulatorView<ProcessorSystemView>,
    bool,
) {
    if sim.design.data_in.is_empty() || sim.design.enable.is_empty() {
        (sim, false)
    } else {
        let settle = settle_point(sim.stamp as int) as usize;
        let data = sim.design.data_in.items[0];
        (
            SimulatorView {
                design: ProcessorSystemView {
                    data_in: sim.design.data_in.buffer_pop(settle),
                    enable: sim.design.enable.buffer_pop(settle),
                    processed_data: if sim.design.enable.items[0] {
                        sim.design.processed_data.buffer_write(0, settle, data.wrapping_mul(2))
                    } else {
                        sim.design.processed_data
                    },
                    ..sim.design
                },
                ..sim
            },
            true,
        )
    }
}

/// The driver buffers, for the settle point, its cycle count plus one and three times the
/// count as new test data, both modulo 2^32. For the time half a cycle after the clock it
/// buffers a push of the committed test data on the data channel and a push of whether the
/// count is even on the enable channel. It wakes the data processor at the next cycle
/// boundary. It always fires.
pub open spec fn driver(sim: SimulatorView<ProcessorSystemView>) -> (
    SimulatorView<ProcessorSystemView>,
    bool,
) {
    let settle = settle_point(sim.stamp as int) as usize;
    let arrival = (sim.stamp + SETTLE_OFFSET) as usize;
    let wake = next_boundary(sim.stamp as int) as usize;
    let count = sim.design.cycle_cnt.committed[0];
    (
        SimulatorView {
            events: sim.events.update(
                DATA_PROCESSOR_INSTANCE as int,
                sim.events[DATA_PROCESSOR_INSTANCE as int].push(wake),
            ),
            design: ProcessorSystemView {
                cycle_cnt: sim.design.cycle_cnt.buffer_write(0, settle, count.wrapping_add(1)),
                test_data: sim.design.test_data.buffer_write(0, settle, count.wrapping_mul(3)),
                data_in: sim.design.data_in.buffer_push(
                    arrival,
                    sim.design.test_data.committed[0],
                ),
                enable: sim.design.enable.buffer_push(arrival, (count & 1) == 0),
                ..sim.design
            },
            ..sim
        },
        true,
    )
}

/// Attempts the counter.
#[allow(non_snake_case)]
pub fn CounterInstance(sim: &mut Simulator<ProcessorSystem>) -> (fired: bool)
    requires
        old(sim).wf(),
    ensures
        final(sim).wf(),
        (final(sim)@, fired) == counter_instance(old(sim)@),
        fired,
{
    let current: u32 = sim.design.cnt.read(0);
    let new_value: u32 = current.wrapping_add(1);
    let stamp: usize = settle_stamp(sim.stamp);
    sim.design.cnt.buffer_write(0, stamp, new_value);
    true
}

/// Attempts the data processor. Where one of its channels is empty it stalls: it returns
/// `false` and has changed nothing.
#[allow(non_snake_case)]
pub fn DataProcessorInstance(sim: &mut Simulator<ProcessorSystem>) -> (fired: bool)
    requires
        old(sim).wf(),
    ensures
        final(sim).wf(),
        (final(sim)@, fired) == data_processor_instance(old(sim)@),
        fired == (!old(sim).design.data_in@.is_empty() && !old(sim).design.enable@.is_empty()),
        !fired ==> final(sim)@ == old(sim)@,
{
    let data_in: u32 = match sim.design.data_in.front() {
        Some(value) => value,
        None => {
            return false;
        },
    };
    let enable: bool = match sim.design.enable.front() {
        Some(value) => value,
        None => {
            return false;
        },
    };
    let stamp: usize = settle_stamp(sim.stamp);
    sim.design.data_in.buffer_pop(stamp);
    sim.design.enable.buffer_pop(stamp);
    if enable {
        let result: u32 = data_in.wrapping_mul(2);
        sim.design.processed_data.buffer_write(0, stamp, result);
    }
    true
}

/// Attempts the driver.
#[allow(non_snake_case)]
pub fn Driver(sim: &mut Simulator<ProcessorSystem>) -> (fired: bool)
    requires
        old(sim).wf(),
    ensures
        final(sim).wf(),
        (final(sim)@, fired) == driver(old(sim)@),
        fired,
{
    let cycle_cnt_rd: u32 = sim.design.cycle_cnt.read(0);
    let cycle_cnt_add: u32 = cycle_cnt_rd.wrapping_add(1);
    let stamp: usize = settle_stamp(sim.stamp);
    sim.design.cycle_cnt.buffer_write(0, stamp, cycle_cnt_add);
    let new_test_data: u32 = cycle_cnt_rd.wrapping_mul(3);
    sim.design.test_data.buffer_write(0, stamp, new_test_data);
    let enable_signal: bool = (cycle_cnt_rd & 1) == 0;
    let test_data_rd: u32 = sim.design.test_data.read(0);
    let arrival: usize = sim.stamp + SETTLE_OFFSET;
    sim.design.data_in.buffer_push(arrival, test_data_rd);
    sim.design.enable.buffer_push(arrival, enable_signal);
    let wake: usize = wake_stamp(sim.stamp);
    sim.events[DATA_PROCESSOR_INSTANCE].push_future(wake);
    assert(sim@.events =~= old(sim)@.events.update(
        DATA_PROCESSOR_INSTANCE as int,
        old(sim)@.events[DATA_PROCESSOR_INSTANCE as int].push(wake),
    ));
    true
}

impl Design for ProcessorSystem {
    open spec fn attempt_spec(sim: SimulatorView<ProcessorSystemView>, module: int) -> (
        SimulatorView<ProcessorSystemView>,
        bool,
    ) {
        if module == COUNTER_INSTANCE {
            counter_instance(sim)
        } else if module == DATA_PROCESSOR_INSTANCE {
            data_processor_instance(sim)
        } else {
            driver(sim)
        }
    }

    proof fn lemma_module_rights(sim: SimulatorView<ProcessorSystemView>, module: int) {
        let after = Self::attempt_spec(sim, module).0;
        assert forall|m: int| 0 <= m < sim.events.len() implies sim.events[m].is_prefix_of(
            #[trigger] after.events[m],
        ) by {
            assert(sim.events[m] =~= after.events[m].subrange(0, sim.events[m].len() as int));
        }
    }

    fn attempt(sim: &mut Simulator<Self>, module: usize) -> (fired: bool) {
        if module == COUNTER_INSTANCE {
            CounterInstance(sim)
        } else if module == DATA_PROCESSOR_INSTANCE {
            DataProcessorInstance(sim)
        } else {
            Driver(sim)
        }
    }
}

/// The simulator as a run of the design finds it: the driver is due at every cycle
/// boundary of the budget, the other modules have nothing scheduled.
pub open spec fn seeded() -> SimulatorView<ProcessorSystemView> {
    SimulatorView {
        events: initial::<ProcessorSystem>().events.update(
            DRIVER as int,
            Seq::new(CYCLE_BUDGET as nat, |k: int| ((k + 1) * STRIDE) as usize),
        ),
        ..initial::<ProcessorSystem>()
    }
}

/// The simulator is on the way of a run of the design: the counter has nothing scheduled,
/// and the driver is due at the boundary of every cycle that the budget leaves.
pub open spec fn driven(sim: SimulatorView<ProcessorSystemView>) -> bool {
    &&& sim.cycle <= CYCLE_BUDGET
    &&& sim.events.len() == 3
    &&& sim.triggered.len() == 3
    &&& sim.events[COUNTER_INSTANCE as int] == Seq::<usize>::empty()
    &&& sim.events[DRIVER as int] == Seq::new(
        (CYCLE_BUDGET - sim.cycle) as nat,
        |k: int| ((sim.cycle + 1 + k) * STRIDE) as usize,
    )
}

/// On the way of a run the driver fires in the next cycle, and the run stays on its way.
pub proof fn lemma_driver_fires(sim: SimulatorView<ProcessorSystemView>, idle_threshold: usize)
    requires
        driven(sim),
        sim.cycle < CYCLE_BUDGET,
    ensures
        !idle_cycle::<ProcessorSystem>(sim),
        driven(step_spec::<ProcessorSystem>(sim, CYCLE_BUDGET, idle_threshold).0),
{
    reveal_with_fuel(evaluate, 4);
    let started = begin_cycle(sim);
    let first = evaluate_module::<ProcessorSystem>(started, COUNTER_INSTANCE as int);
    assert(first == started);
    let second = evaluate_module::<ProcessorSystem>(first, DATA_PROCESSOR_INSTANCE as int);
    assert(second.events[DRIVER as int] == sim.events[DRIVER as int]);
    assert(second.events[COUNTER_INSTANCE as int] == sim.events[COUNTER_INSTANCE as int]);
    assert(second.stamp == started.stamp);
    assert(sim.events[DRIVER as int][0] == started.stamp);
    let third = evaluate_module::<ProcessorSystem>(second, DRIVER as int);
    assert(third == evaluate::<ProcessorSystem>(started, 3));
    assert(third.triggered[DRIVER as int]);
    assert(third.events[DRIVER as int] =~= Seq::new(
        (CYCLE_BUDGET - sim.cycle - 1) as nat,
        |k: int| ((sim.cycle + 2 + k) * STRIDE) as usize,
    ));
    assert(third.events[COUNTER_INSTANCE as int] == Seq::<usize>::empty());
}

/// On the way of a run some module fires in every cycle that the budget leaves.
pub proof fn lemma_driven_is_busy(
    sim: SimulatorView<ProcessorSystemView>,
    idle_threshold: usize,
    cycles: nat,
)
    requires
        driven(sim),
        cycles <= CYCLE_BUDGET - sim.cycle,
    ensures
        busy_streak::<ProcessorSystem>(sim, CYCLE_BUDGET, idle_threshold, cycles),
    decreases cycles,
{
    if cycles > 0 {
        lemma_driver_fires(sim, idle_threshold);
        lemma_driven_is_busy(
            step_spec::<ProcessorSystem>(sim, CYCLE_BUDGET, idle_threshold).0,
            idle_threshold,
            (cycles - 1) as nat,
        );
    }
}

/// Runs the design from its first cycle until it halts, and says why it halted. The driver
/// fires in every cycle, so the run is never idle and ends with the budget.
pub fn simulate() -> (reason: HaltReason)
    ensures
        reason == run_spec::<ProcessorSystem>(seeded(), CYCLE_BUDGET, IDLE_THRESHOLD).1,
        reason == HaltReason::CycleBudgetExhausted,
{
    let mut sim: Simulator<ProcessorSystem> = Simulator::new();
    let mut i: usize = 1;
    while i <= CYCLE_BUDGET
        invariant
            1 <= i <= CYCLE_BUDGET + 1,
            sim.wf(),
            sim@.cycle == 0,
            sim@.stamp == 0,
            sim@.idle_count == 0,
            sim@.triggered == initial::<ProcessorSystem>().triggered,
            sim@.design == initial::<ProcessorSystem>().design,
            sim@.events[COUNTER_INSTANCE as int] == Seq::<usize>::empty(),
            sim@.events[DATA_PROCESSOR_INSTANCE as int] == Seq::<usize>::empty(),
            sim@.events[DRIVER as int] == Seq::new(
                (i - 1) as nat,
                |k: int| ((k + 1) * STRIDE) as usize,
            ),
        decreases CYCLE_BUDGET + 1 - i,
    {
        sim.events[DRIVER].push_future(i * STRIDE);
        assert(Seq::new((i - 1) as nat, |k: int| ((k + 1) * STRIDE) as usize).push(
            (i * STRIDE) as usize,
        ) =~= Seq::new(i as nat, |k: int| ((k + 1) * STRIDE) as usize));
        i += 1;
    }
    assert(sim@.events =~= seeded().events);
    proof {
        assert(seeded().events[DRIVER as int] =~= Seq::new(
            CYCLE_BUDGET as nat,
            |k: int| ((0 + 1 + k) * STRIDE) as usize,
        ));
        lemma_driven_is_busy(seeded(), IDLE_THRESHOLD, CYCLE_BUDGET as nat);
        lemma_busy_run_exhausts_budget::<ProcessorSystem>(seeded(), CYCLE_BUDGET, IDLE_THRESHOLD);
    }
    sim.run(CYCLE_BUDGET, IDLE_THRESHOLD)
}

} // verus!

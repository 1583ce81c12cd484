//! The simulation kernel: the clock, the schedules and the evaluate-then-commit cycle.

use crate::laws::lemma_run_halts_for_its_reason;
use crate::schedule::{consumed, is_due, EventSchedule};
use crate::timing::{SETTLE_OFFSET, STRIDE};
use vstd::prelude::*;

verus! {

/// Why a run came to its end.
#[derive(Clone, Copy, Debug, PartialEq, Eq, Structural)]
pub enum HaltReason {
    /// The last cycle of the budget was completed.
    CycleBudgetExhausted,
    /// No module fired for as many consecutive cycles as the idle threshold allows.
    IdleThresholdReached,
}

/// The state of the kernel after a cycle.
#[derive(Clone, Copy, Debug, PartialEq, Eq, Structural)]
pub enum Status {
    Running,
    Halted(HaltReason),
}

/// Everything a simulation owns: the clock, one schedule and one fired flag per module, the
/// idle counter, and the registers and channels of the design. Modules get it for the
/// length of one attempt.
pub struct Simulator<D> {
    /// The number of cycles begun so far.
    pub cycle: usize,
    /// The clock.
    pub stamp: usize,
    /// The number of cycles in a row, up to the last one, in which no module fired.
    pub idle_count: usize,
    /// The schedule of each module, in the declared order of the modules.
    pub events: Vec<EventSchedule>,
    /// Whether each module fired in the cycle under way.
    pub triggered: Vec<bool>,
    /// The registers and channels.
    pub design: D,
}

/// The mathematical content of a simulator over a design with model `M`.
pub struct SimulatorView<M> {
    pub cycle: usize,
    pub stamp: usize,
    pub idle_count: usize,
    pub events: Seq<Seq<usize>>,
    pub triggered: Seq<bool>,
    pub design: M,
}

/// The fabric of a design: its registers and channels, and the number of modules that share
/// them.
pub trait Fabric: View + Sized {
    /// The registers have the ports that the modules address.
    spec fn wf(&self) -> bool;

    /// The number of modules.
    spec fn module_count() -> nat;

    /// The model of the fabric before the first cycle.
    spec fn initial_model() -> Self::V;

    /// The fabric after every register and channel has committed at `clock`.
    spec fn commit_spec(design: Self::V, clock: usize) -> Self::V;

    /// What modules can read of the fabric: every committed value, and nothing of what is
    /// pending.
    spec fn committed_part(design: Self::V) -> Self::V;

    /// The fabric before the first cycle.
    fn create() -> (design: Self)
        ensures
            design.wf(),
            design@ == Self::initial_model(),
    ;

    /// The number of modules.
    fn modules() -> (n: usize)
        ensures
            n == Self::module_count(),
    ;

    /// Commits every register and channel at `clock`.
    fn commit(&mut self, clock: usize)
        requires
            old(self).wf(),
        ensures
            final(self).wf(),
            final(self)@ == Self::commit_spec(old(self)@, clock),
    ;
}

/// What a module may do to the simulator in one attempt: it leaves the clock, the counters
/// and the flags alone, it changes no committed value, it only ever appends to schedules,
/// and where it does not fire it changes nothing at all.
pub open spec fn within_module_rights<D: Fabric>(
    before: SimulatorView<D::V>,
    after: SimulatorView<D::V>,
    fired: bool,
) -> bool {
    &&& after.cycle == before.cycle
    &&& after.stamp == before.stamp
    &&& after.idle_count == before.idle_count
    &&& after.triggered == before.triggered
    &&& after.events.len() == before.events.len()
    &&& forall|m: int|
        0 <= m < before.events.len() ==> before.events[m].is_prefix_of(#[trigger] after.events[m])
    &&& D::committed_part(after.design) == D::committed_part(before.design)
    &&& !fired ==> after == before
}

/// A design: a fabric and the modules that work on it, in their declared order. A module
/// is a function of the committed state that buffers its effects and says whether it
/// fired.
pub trait Design: Fabric {
    /// What an attempt of module `module` makes of the simulator, and whether it fires.
    spec fn attempt_spec(sim: SimulatorView<Self::V>, module: int) -> (
        SimulatorView<Self::V>,
        bool,
    );

    /// Every module keeps within its rights.
    proof fn lemma_module_rights(sim: SimulatorView<Self::V>, module: int)
        requires
            0 <= module < Self::module_count(),
            sim.events.len() == Self::module_count(),
        ensures
            within_module_rights::<Self>(
                sim,
                Self::attempt_spec(sim, module).0,
                Self::attempt_spec(sim, module).1,
            ),
    ;

    /// Attempts module `module`.
    fn attempt(sim: &mut Simulator<Self>, module: usize) -> (fired: bool)
        requires
            old(sim).wf(),
            module < Self::module_count(),
        ensures
            final(sim).wf(),
            (final(sim)@, fired) == Self::attempt_spec(old(sim)@, module as int),
    ;
}

impl<D: View> View for Simulator<D> {
    type V = SimulatorView<D::V>;

    open spec fn view(&self) -> SimulatorView<D::V> {
        SimulatorView {
            cycle: self.cycle,
            stamp: self.stamp,
            idle_count: self.idle_count,
            events: Seq::new(self.events@.len(), |m: int| self.events@[m]@),
            triggered: self.triggered@,
            design: self.design@,
        }
    }
}

/// The simulator before the first cycle of a design.
pub open spec fn initial<D: Fabric>() -> SimulatorView<D::V> {
    SimulatorView {
        cycle: 0,
        stamp: 0,
        idle_count: 0,
        events: Seq::new(D::module_count(), |m: int| Seq::<usize>::empty()),
        triggered: Seq::new(D::module_count(), |m: int| false),
        design: D::initial_model(),
    }
}

/// Some module fired.
pub open spec fn some_fired(triggered: Seq<bool>) -> bool {
    exists|m: int| 0 <= m < triggered.len() && #[trigger] triggered[m]
}

/// The simulator at the start of its next cycle: the clock stands at the cycle's boundary
/// and no module has fired yet.
pub open spec fn begin_cycle<M>(sim: SimulatorView<M>) -> SimulatorView<M> {
    SimulatorView {
        cycle: (sim.cycle + 1) as usize,
        stamp: ((sim.cycle + 1) * STRIDE) as usize,
        triggered: Seq::new(sim.triggered.len(), |m: int| false),
        ..sim
    }
}

/// The simulator after module `module` had its turn: where its schedule is due it is
/// attempted, and only where it fires does it lose the front entry of its schedule.
pub open spec fn evaluate_module<D: Design>(
    sim: SimulatorView<D::V>,
    module: int,
) -> SimulatorView<D::V> {
    if is_due(sim.events[module], sim.stamp) {
        let (next, fired) = D::attempt_spec(sim, module);
        SimulatorView {
            events: if fired {
                next.events.update(module, consumed(next.events[module]))
            } else {
                next.events
            },
            triggered: next.triggered.update(module, fired),
            ..next
        }
    } else {
        sim
    }
}

/// The simulator after the first `modules` modules had their turn, in declared order.
pub open spec fn evaluate<D: Design>(sim: SimulatorView<D::V>, modules: nat) -> SimulatorView<
    D::V,
>
    decreases modules,
{
    if modules == 0 {
        sim
    } else {
        evaluate_module::<D>(evaluate::<D>(sim, (modules - 1) as nat), modules - 1)
    }
}

/// The second half of a cycle: the clock moves on to the settle point, every register and
/// channel commits there, and the run halts if this was the last cycle of the budget.
pub open spec fn finish_cycle<D: Design>(sim: SimulatorView<D::V>, budget: usize) -> (
    SimulatorView<D::V>,
    Status,
) {
    let clock = (sim.stamp + SETTLE_OFFSET) as usize;
    (
        SimulatorView { stamp: clock, design: D::commit_spec(sim.design, clock), ..sim },
        if sim.cycle >= budget {
            Status::Halted(HaltReason::CycleBudgetExhausted)
        } else {
            Status::Running
        },
    )
}

/// One cycle. The modules are evaluated at the cycle's boundary. If none fired the idle
/// counter goes up, and the run halts without a commit once it has reached
/// `idle_threshold`; if one fired the counter starts again at zero. Unless the run halted,
/// the cycle is finished.
pub open spec fn step_spec<D: Design>(
    sim: SimulatorView<D::V>,
    budget: usize,
    idle_threshold: usize,
) -> (SimulatorView<D::V>, Status) {
    let started = begin_cycle(sim);
    let evaluated = evaluate::<D>(started, D::module_count());
    if some_fired(evaluated.triggered) {
        finish_cycle::<D>(
            SimulatorView {
                cycle: started.cycle,
                stamp: started.stamp,
                idle_count: 0,
                ..evaluated
            },
            budget,
        )
    } else {
        let idle = SimulatorView {
            cycle: started.cycle,
            stamp: started.stamp,
            idle_count: (sim.idle_count + 1) as usize,
            ..evaluated
        };
        if idle.idle_count >= idle_threshold {
            (idle, Status::Halted(HaltReason::IdleThresholdReached))
        } else {
            finish_cycle::<D>(idle, budget)
        }
    }
}

/// Cycle after cycle until the run halts. A simulator whose budget is used up does not
/// move.
pub open spec fn run_spec<D: Design>(
    sim: SimulatorView<D::V>,
    budget: usize,
    idle_threshold: usize,
) -> (SimulatorView<D::V>, HaltReason)
    decreases budget - sim.cycle,
{
    if sim.cycle >= budget {
        (sim, HaltReason::CycleBudgetExhausted)
    } else {
        let (next, status) = step_spec::<D>(sim, budget, idle_threshold);
        match status {
            Status::Halted(reason) => (next, reason),
            Status::Running => run_spec::<D>(next, budget, idle_threshold),
        }
    }
}

/// The turn of a module leaves the clock, the counters and the number of schedules and
/// flags as they are.
pub proof fn lemma_evaluate_module_frame<D: Design>(sim: SimulatorView<D::V>, module: int)
    requires
        0 <= module < D::module_count(),
        sim.events.len() == D::module_count(),
        sim.triggered.len() == D::module_count(),
    ensures
        evaluate_module::<D>(sim, module).cycle == sim.cycle,
        evaluate_module::<D>(sim, module).stamp == sim.stamp,
        evaluate_module::<D>(sim, module).idle_count == sim.idle_count,
        evaluate_module::<D>(sim, module).events.len() == sim.events.len(),
        evaluate_module::<D>(sim, module).triggered.len() == sim.triggered.len(),
{
    D::lemma_module_rights(sim, module);
}

/// The evaluation of the modules leaves the clock, the counters and the number of
/// schedules and flags as they are.
pub proof fn lemma_evaluate_frame<D: Design>(sim: SimulatorView<D::V>, modules: nat)
    requires
        modules <= D::module_count(),
        sim.events.len() == D::module_count(),
        sim.triggered.len() == D::module_count(),
    ensures
        evaluate::<D>(sim, modules).cycle == sim.cycle,
        evaluate::<D>(sim, modules).stamp == sim.stamp,
        evaluate::<D>(sim, modules).idle_count == sim.idle_count,
        evaluate::<D>(sim, modules).events.len() == sim.events.len(),
        evaluate::<D>(sim, modules).triggered.len() == sim.triggered.len(),
    decreases modules,
{
    if modules > 0 {
        lemma_evaluate_frame::<D>(sim, (modules - 1) as nat);
        lemma_evaluate_module_frame::<D>(
            evaluate::<D>(sim, (modules - 1) as nat),
            modules - 1,
        );
    }
}

impl<D: Fabric> Simulator<D> {
    /// The simulator has a schedule and a flag for each module of the design, the design is
    /// well formed, and the clock leaves room for the timestamps that modules compute.
    pub open spec fn wf(&self) -> bool {
        &&& self.events@.len() == D::module_count()
        &&& self.triggered@.len() == D::module_count()
        &&& self.stamp + STRIDE <= usize::MAX
        &&& self.design.wf()
    }

    /// The simulator before the first cycle: the clock at zero, every schedule empty.
    pub fn new() -> (sim: Self)
        ensures
            sim.wf(),
            sim@ == initial::<D>(),
    {
        let modules: usize = D::modules();
        let mut events: Vec<EventSchedule> = Vec::new();
        let mut triggered: Vec<bool> = Vec::new();
        let mut m: usize = 0;
        while m < modules
            invariant
                m <= modules,
                events@.len() == m,
                forall|k: int| 0 <= k < m ==> (#[trigger] events@[k])@ == Seq::<usize>::empty(),
                triggered@ == Seq::new(m as nat, |k: int| false),
            decreases modules - m,
        {
            events.push(EventSchedule::new());
            triggered.push(false);
            m += 1;
        }
        let sim = Simulator {
            cycle: 0,
            stamp: 0,
            idle_count: 0,
            events,
            triggered,
            design: D::create(),
        };
        assert(sim@.events =~= initial::<D>().events);
        sim
    }

    /// Clears the fired flag of every module.
    pub fn reset_downstream(&mut self)
        ensures
            final(self).triggered@ == Seq::new(old(self).triggered@.len(), |m: int| false),
            final(self).cycle == old(self).cycle,
            final(self).stamp == old(self).stamp,
            final(self).idle_count == old(self).idle_count,
            final(self).events == old(self).events,
            final(self).design == old(self).design,
    {
        let n: usize = self.triggered.len();
        let mut m: usize = 0;
        while m < n
            invariant
                m <= n,
                self.triggered@.len() == n,
                forall|k: int| 0 <= k < m ==> !(#[trigger] self.triggered@[k]),
                self.cycle == old(self).cycle,
                self.stamp == old(self).stamp,
                self.idle_count == old(self).idle_count,
                self.events == old(self).events,
                self.design == old(self).design,
            decreases n - m,
        {
            self.triggered.set(m, false);
            m += 1;
        }
        assert(self.triggered@ =~= Seq::new(n as nat, |m: int| false));
    }

    /// Whether some module fired in the cycle under way.
    pub fn any_triggered(&self) -> (any: bool)
        ensures
            any == some_fired(self.triggered@),
    {
        let n: usize = self.triggered.len();
        let mut m: usize = 0;
        while m < n
            invariant
                m <= n,
                n == self.triggered@.len(),
                forall|k: int| 0 <= k < m ==> !(#[trigger] self.triggered@[k]),
            decreases n - m,
        {
            if self.triggered[m] {
                return true;
            }
            m += 1;
        }
        false
    }

    /// Commits every register and channel of the design at the clock.
    pub fn tick_registers(&mut self)
        requires
            old(self).wf(),
        ensures
            final(self).wf(),
            final(self)@ == (SimulatorView {
                design: D::commit_spec(old(self)@.design, old(self).stamp),
                ..old(self)@
            }),
    {
        self.design.commit(self.stamp);
    }

    /// Brings the memory interfaces back to rest. No design has one yet: nothing changes.
    pub fn reset_dram(&mut self)
        ensures
            *final(self) == *old(self),
    {
    }
}

impl<D: Design> Simulator<D> {
    /// Gives module `module` its turn: it is attempted if its schedule is due, and loses the
    /// front entry of its schedule only if it fires.
    pub fn simulate_module(&mut self, module: usize)
        requires
            old(self).wf(),
            module < D::module_count(),
        ensures
            final(self).wf(),
            final(self)@ == evaluate_module::<D>(old(self)@, module as int),
            final(self).cycle == old(self).cycle,
            final(self).stamp == old(self).stamp,
            final(self).idle_count == old(self).idle_count,
    {
        proof {
            lemma_evaluate_module_frame::<D>(self@, module as int);
        }
        if self.events[module].is_due(self.stamp) {
            let fired: bool = D::attempt(self, module);
            let ghost attempted = self@;
            if fired {
                self.events[module].consume_due();
            }
            self.triggered.set(module, fired);
            assert(self@.events =~= if fired {
                attempted.events.update(module as int, consumed(attempted.events[module as int]))
            } else {
                attempted.events
            });
        }
    }

    /// Gives every module its turn, in declared order.
    pub fn evaluate(&mut self)
        requires
            old(self).wf(),
        ensures
            final(self).wf(),
            final(self)@ == evaluate::<D>(old(self)@, D::module_count()),
            final(self).cycle == old(self).cycle,
            final(self).stamp == old(self).stamp,
            final(self).idle_count == old(self).idle_count,
    {
        let modules: usize = D::modules();
        let mut m: usize = 0;
        while m < modules
            invariant
                m <= modules,
                modules == D::module_count(),
                self.wf(),
                self@ == evaluate::<D>(old(self)@, m as nat),
                self.cycle == old(self).cycle,
                self.stamp == old(self).stamp,
                self.idle_count == old(self).idle_count,
            decreases modules - m,
        {
            self.simulate_module(m);
            m += 1;
        }
    }

    /// Runs one cycle and says whether the run goes on: the clock moves to the next cycle
    /// boundary, the flags are cleared, the modules are evaluated, the idle counter is
    /// brought up to date, and unless the idle threshold is reached the clock moves on to
    /// the settle point, where everything commits.
    pub fn step(&mut self, budget: usize, idle_threshold: usize) -> (status: Status)
        requires
            old(self).wf(),
            (old(self).cycle + 3) * STRIDE <= usize::MAX,
            old(self).idle_count < usize::MAX,
        ensures
            final(self).wf(),
            (final(self)@, status) == step_spec::<D>(old(self)@, budget, idle_threshold),
            final(self).cycle == old(self).cycle + 1,
            some_fired(final(self).triggered@) ==> final(self).idle_count == 0,
            !some_fired(final(self).triggered@) ==> final(self).idle_count == old(
                self,
            ).idle_count + 1,
            status == Status::Halted(HaltReason::IdleThresholdReached) <==> !some_fired(
                final(self).triggered@,
            ) && final(self).idle_count >= idle_threshold,
            status == Status::Halted(HaltReason::CycleBudgetExhausted) ==> final(self).cycle
                >= budget,
    {
        self.cycle = self.cycle + 1;
        self.stamp = self.cycle * STRIDE;
        self.reset_downstream();
        assert(self@ == begin_cycle(old(self)@));
        self.evaluate();
        if self.any_triggered() {
            self.idle_count = 0;
        } else {
            self.idle_count = self.idle_count + 1;
            if self.idle_count >= idle_threshold {
                return Status::Halted(HaltReason::IdleThresholdReached);
            }
        }
        self.stamp = self.stamp + SETTLE_OFFSET;
        self.tick_registers();
        self.reset_dram();
        if self.cycle >= budget {
            Status::Halted(HaltReason::CycleBudgetExhausted)
        } else {
            Status::Running
        }
    }

    /// Runs cycles until the run halts, and says why it did.
    pub fn run(&mut self, budget: usize, idle_threshold: usize) -> (reason: HaltReason)
        requires
            old(self).wf(),
            (budget + 2) * STRIDE <= usize::MAX,
            old(self).idle_count < usize::MAX,
        ensures
            final(self).wf(),
            (final(self)@, reason) == run_spec::<D>(old(self)@, budget, idle_threshold),
            reason == HaltReason::IdleThresholdReached ==> final(self).idle_count
                >= idle_threshold && !some_fired(final(self).triggered@),
            reason == HaltReason::CycleBudgetExhausted ==> final(self).cycle >= budget,
    {
        proof {
            lemma_run_halts_for_its_reason::<D>(self@, budget, idle_threshold);
        }
        while self.cycle < budget
            invariant
                self.wf(),
                (budget + 2) * STRIDE <= usize::MAX,
                self.idle_count < usize::MAX,
                run_spec::<D>(self@, budget, idle_threshold) == run_spec::<D>(
                    old(self)@,
                    budget,
                    idle_threshold,
                ),
            decreases budget - self.cycle,
        {
            let status: Status = self.step(budget, idle_threshold);
            match status {
                Status::Halted(reason) => {
                    return reason;
                },
                Status::Running => {},
            }
        }
        HaltReason::CycleBudgetExhausted
    }
}

} // verus!

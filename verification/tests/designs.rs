use sim_kernel::counter_system;
use sim_kernel::counter_system::CounterSystem;
use sim_kernel::kernel::{HaltReason, Simulator, Status};
use sim_kernel::processor_system;
use sim_kernel::processor_system::{
    CounterInstance, DataProcessorInstance, Driver, ProcessorSystem, COUNTER_INSTANCE,
    DATA_PROCESSOR_INSTANCE, DRIVER,
};
use sim_kernel::simple_counter;

fn seeded_processor_system(cycles: usize) -> Simulator<ProcessorSystem> {
    let mut sim: Simulator<ProcessorSystem> = Simulator::new();
    for i in 1..=cycles {
        sim.events[DRIVER].push_future(i * 100);
    }
    sim
}

#[test]
fn simple_counter_run_halts_as_idle() {
    assert_eq!(simple_counter::simulate(), HaltReason::IdleThresholdReached);
}

#[test]
fn counter_system_run_halts_as_idle() {
    assert_eq!(counter_system::simulate(), HaltReason::IdleThresholdReached);
}

#[test]
fn processor_system_run_ends_with_the_budget() {
    assert_eq!(processor_system::simulate(), HaltReason::CycleBudgetExhausted);
}

#[test]
fn counter_system_counts_when_scheduled() {
    let mut sim: Simulator<CounterSystem> = Simulator::new();
    sim.events[counter_system::COUNTER_INSTANCE].push_future(100);
    sim.events[counter_system::COUNTER_INSTANCE].push_future(200);
    assert_eq!(sim.run(2, 100), HaltReason::CycleBudgetExhausted);
    assert_eq!(sim.design.cnt.read(0), 2);
    sim.stamp = 300;
    assert!(counter_system::CounterInstance(&mut sim));
    assert_eq!(sim.design.cnt.pending_writes(), 1);
}

#[test]
fn new_processor_system_is_cleared() {
    let sim: Simulator<ProcessorSystem> = Simulator::new();
    assert_eq!(sim.events.len(), 3);
    assert_eq!(sim.triggered, vec![false, false, false]);
    assert_eq!(sim.design.cnt.read(0), 0);
    assert_eq!(sim.design.processed_data.read(0), 0);
    assert_eq!(sim.design.cycle_cnt.read(0), 0);
    assert_eq!(sim.design.test_data.read(0), 0);
    assert!(sim.design.data_in.is_empty());
    assert!(sim.design.enable.is_empty());
    assert_eq!(COUNTER_INSTANCE, 0);
    assert_eq!(DATA_PROCESSOR_INSTANCE, 1);
    assert_eq!(DRIVER, 2);
}

#[test]
fn full_run_of_the_processor_system() {
    let mut sim = seeded_processor_system(100);
    let reason = sim.run(100, 100);
    assert_eq!(reason, HaltReason::CycleBudgetExhausted);
    assert_eq!(sim.cycle, 100);
    assert_eq!(sim.stamp, 10050);
    assert_eq!(sim.idle_count, 0);
    assert_eq!(sim.design.cnt.read(0), 0);
    assert_eq!(sim.design.cycle_cnt.read(0), 100);
    assert_eq!(sim.design.test_data.read(0), 297);
    assert_eq!(sim.design.processed_data.read(0), 582);
    assert_eq!(sim.design.data_in.len(), 1);
    assert_eq!(sim.design.data_in.front(), Some(294));
    assert_eq!(sim.design.enable.front(), Some(false));
    assert_eq!(sim.events[DRIVER].len(), 0);
    assert_eq!(sim.events[DATA_PROCESSOR_INSTANCE].len(), 1);
    assert_eq!(sim.events[DATA_PROCESSOR_INSTANCE].earliest(), Some(10100));
    assert_eq!(sim.events[COUNTER_INSTANCE].len(), 0);
}

#[test]
fn driver_buffers_its_effects() {
    let mut sim: Simulator<ProcessorSystem> = Simulator::new();
    sim.stamp = 100;
    assert!(Driver(&mut sim));
    assert_eq!(sim.design.cycle_cnt.read(0), 0);
    assert_eq!(sim.design.test_data.read(0), 0);
    assert!(sim.design.data_in.is_empty());
    assert!(sim.design.enable.is_empty());
    assert_eq!(sim.design.cycle_cnt.pending_writes(), 1);
    assert_eq!(sim.design.test_data.pending_writes(), 1);
    assert_eq!(sim.design.data_in.pending_pushes(), 1);
    assert_eq!(sim.design.enable.pending_pushes(), 1);
    assert_eq!(sim.events[DATA_PROCESSOR_INSTANCE].earliest(), Some(200));
    assert_eq!(sim.events[DRIVER].len(), 0);
    sim.stamp = 149;
    sim.tick_registers();
    assert_eq!(sim.design.cycle_cnt.read(0), 0);
    assert!(sim.design.data_in.is_empty());
    sim.stamp = 150;
    sim.tick_registers();
    assert_eq!(sim.design.cycle_cnt.read(0), 1);
    assert_eq!(sim.design.test_data.read(0), 0);
    assert_eq!(sim.design.data_in.front(), Some(0));
    assert_eq!(sim.design.enable.front(), Some(true));
}

#[test]
fn driver_derives_test_data_and_enable_from_its_count() {
    let mut sim = seeded_processor_system(4);
    sim.step(100, 100);
    assert_eq!(sim.design.cycle_cnt.read(0), 1);
    assert_eq!(sim.design.test_data.read(0), 0);
    sim.step(100, 100);
    assert_eq!(sim.design.cycle_cnt.read(0), 2);
    assert_eq!(sim.design.test_data.read(0), 3);
    sim.step(100, 100);
    assert_eq!(sim.design.cycle_cnt.read(0), 3);
    assert_eq!(sim.design.test_data.read(0), 6);
    assert_eq!(sim.design.processed_data.read(0), 0);
    sim.step(100, 100);
    assert_eq!(sim.design.cycle_cnt.read(0), 4);
    assert_eq!(sim.design.test_data.read(0), 9);
    assert_eq!(sim.design.processed_data.read(0), 6);
    assert_eq!(sim.design.data_in.front(), Some(6));
    assert_eq!(sim.design.enable.front(), Some(false));
}

#[test]
fn driver_wakes_the_data_processor_at_the_next_boundary() {
    let mut sim: Simulator<ProcessorSystem> = Simulator::new();
    sim.stamp = 330;
    assert!(Driver(&mut sim));
    assert_eq!(sim.events[DATA_PROCESSOR_INSTANCE].earliest(), Some(400));
    sim.design.data_in.commit(379);
    assert!(sim.design.data_in.is_empty());
    sim.design.data_in.commit(380);
    assert_eq!(sim.design.data_in.front(), Some(0));
    sim.design.cycle_cnt.commit(349);
    assert_eq!(sim.design.cycle_cnt.read(0), 0);
    sim.design.cycle_cnt.commit(350);
    assert_eq!(sim.design.cycle_cnt.read(0), 1);
}

#[test]
fn counter_instance_buffers_the_next_count() {
    let mut sim: Simulator<ProcessorSystem> = Simulator::new();
    sim.stamp = 100;
    assert!(CounterInstance(&mut sim));
    assert_eq!(sim.design.cnt.read(0), 0);
    assert_eq!(sim.design.cnt.pending_writes(), 1);
    sim.stamp = 150;
    sim.tick_registers();
    assert_eq!(sim.design.cnt.read(0), 1);
    assert_eq!(sim.design.cycle_cnt.read(0), 0);
}

#[test]
fn data_processor_stalls_on_empty_channels_and_changes_nothing() {
    let mut sim: Simulator<ProcessorSystem> = Simulator::new();
    sim.stamp = 100;
    assert!(!DataProcessorInstance(&mut sim));
    assert_eq!(sim.design.data_in.pending_pops(), 0);
    assert_eq!(sim.design.enable.pending_pops(), 0);
    assert_eq!(sim.design.processed_data.pending_writes(), 0);
    assert_eq!(sim.stamp, 100);
    sim.design.data_in.buffer_push(50, 4);
    sim.design.data_in.commit(50);
    assert!(!DataProcessorInstance(&mut sim));
    assert_eq!(sim.design.data_in.pending_pops(), 0);
    assert_eq!(sim.design.data_in.front(), Some(4));
    assert_eq!(sim.design.processed_data.pending_writes(), 0);
}

#[test]
fn data_processor_doubles_enabled_data() {
    let mut sim: Simulator<ProcessorSystem> = Simulator::new();
    sim.design.data_in.buffer_push(50, 21);
    sim.design.enable.buffer_push(50, true);
    sim.stamp = 50;
    sim.tick_registers();
    sim.stamp = 100;
    assert!(DataProcessorInstance(&mut sim));
    assert_eq!(sim.design.data_in.front(), Some(21));
    assert_eq!(sim.design.data_in.pending_pops(), 1);
    assert_eq!(sim.design.enable.pending_pops(), 1);
    assert_eq!(sim.design.processed_data.read(0), 0);
    sim.stamp = 150;
    sim.tick_registers();
    assert_eq!(sim.design.processed_data.read(0), 42);
    assert!(sim.design.data_in.is_empty());
    assert!(sim.design.enable.is_empty());
}

#[test]
fn data_processor_drops_disabled_data() {
    let mut sim: Simulator<ProcessorSystem> = Simulator::new();
    sim.design.data_in.buffer_push(50, 21);
    sim.design.enable.buffer_push(50, false);
    sim.stamp = 50;
    sim.tick_registers();
    sim.stamp = 100;
    assert!(DataProcessorInstance(&mut sim));
    assert_eq!(sim.design.processed_data.pending_writes(), 0);
    sim.stamp = 150;
    sim.tick_registers();
    assert_eq!(sim.design.processed_data.read(0), 0);
    assert!(sim.design.data_in.is_empty());
    assert!(sim.design.enable.is_empty());
}

#[test]
fn data_processor_product_wraps_around() {
    let mut sim: Simulator<ProcessorSystem> = Simulator::new();
    sim.design.data_in.buffer_push(50, 0x8000_0001);
    sim.design.enable.buffer_push(50, true);
    sim.stamp = 50;
    sim.tick_registers();
    sim.stamp = 100;
    assert!(DataProcessorInstance(&mut sim));
    sim.stamp = 150;
    sim.tick_registers();
    assert_eq!(sim.design.processed_data.read(0), 2);
}

#[test]
fn pushed_value_is_seen_from_the_settle_point_on_and_not_before() {
    let mut sim: Simulator<ProcessorSystem> = Simulator::new();
    sim.design.test_data.buffer_write(0, 50, 77);
    sim.stamp = 50;
    sim.tick_registers();
    sim.events[DRIVER].push_future(100);
    sim.cycle = 1;
    sim.stamp = 100;
    sim.reset_downstream();
    sim.evaluate();
    assert_eq!(sim.triggered, vec![false, false, true]);
    assert_eq!(sim.design.data_in.front(), None);
    sim.stamp = 149;
    sim.tick_registers();
    assert_eq!(sim.design.data_in.front(), None);
    sim.stamp = 150;
    sim.tick_registers();
    assert_eq!(sim.design.data_in.front(), Some(77));
    assert_eq!(sim.events[DATA_PROCESSOR_INSTANCE].earliest(), Some(200));
    assert_eq!(sim.step(100, 100), Status::Running);
    assert_eq!(sim.triggered, vec![false, true, false]);
    assert_eq!(sim.design.processed_data.read(0), 154);
}

#[test]
fn consumer_is_retried_until_its_channels_hold_a_value() {
    let mut sim: Simulator<ProcessorSystem> = Simulator::new();
    sim.events[DATA_PROCESSOR_INSTANCE].push_future(100);
    for k in 1..=5usize {
        assert_eq!(sim.step(100, 100), Status::Running);
        assert_eq!(sim.triggered, vec![false, false, false]);
        assert_eq!(sim.events[DATA_PROCESSOR_INSTANCE].len(), 1);
        assert_eq!(sim.events[DATA_PROCESSOR_INSTANCE].earliest(), Some(100));
        assert_eq!(sim.idle_count, k);
        assert_eq!(sim.design.data_in.pending_pops(), 0);
        assert_eq!(sim.design.processed_data.pending_writes(), 0);
    }
    sim.design.data_in.buffer_push(650, 5);
    sim.design.enable.buffer_push(650, true);
    assert_eq!(sim.step(100, 100), Status::Running);
    assert_eq!(sim.triggered, vec![false, false, false]);
    assert_eq!(sim.events[DATA_PROCESSOR_INSTANCE].len(), 1);
    assert_eq!(sim.step(100, 100), Status::Running);
    assert_eq!(sim.triggered, vec![false, true, false]);
    assert_eq!(sim.events[DATA_PROCESSOR_INSTANCE].len(), 0);
    assert_eq!(sim.idle_count, 0);
    assert_eq!(sim.design.processed_data.read(0), 10);
    assert!(sim.design.data_in.is_empty());
    assert_eq!(sim.step(100, 100), Status::Running);
    assert_eq!(sim.triggered, vec![false, false, false]);
    assert_eq!(sim.idle_count, 1);
    assert_eq!(sim.design.processed_data.read(0), 10);
}

#[test]
fn stalled_consumer_does_not_keep_the_run_alive() {
    let mut sim: Simulator<ProcessorSystem> = Simulator::new();
    sim.events[DATA_PROCESSOR_INSTANCE].push_future(100);
    let reason = sim.run(100, 10);
    assert_eq!(reason, HaltReason::IdleThresholdReached);
    assert_eq!(sim.cycle, 10);
    assert_eq!(sim.events[DATA_PROCESSOR_INSTANCE].len(), 1);
}

#[test]
fn modules_are_evaluated_in_declared_order() {
    let mut sim: Simulator<ProcessorSystem> = Simulator::new();
    sim.events[COUNTER_INSTANCE].push_future(100);
    sim.events[DRIVER].push_future(100);
    sim.events[DATA_PROCESSOR_INSTANCE].push_future(100);
    assert_eq!(sim.step(100, 100), Status::Running);
    assert_eq!(sim.triggered, vec![true, false, true]);
    assert_eq!(sim.events[COUNTER_INSTANCE].len(), 0);
    assert_eq!(sim.events[DATA_PROCESSOR_INSTANCE].len(), 2);
    assert_eq!(sim.events[DRIVER].len(), 0);
    assert_eq!(sim.design.cnt.read(0), 1);
    assert_eq!(sim.design.cycle_cnt.read(0), 1);
}

#[test]
fn driver_arithmetic_wraps_around() {
    let mut sim: Simulator<ProcessorSystem> = Simulator::new();
    sim.design.cycle_cnt.buffer_write(0, 50, 0x8000_0001);
    sim.stamp = 50;
    sim.tick_registers();
    sim.stamp = 100;
    assert!(Driver(&mut sim));
    sim.stamp = 150;
    sim.tick_registers();
    assert_eq!(sim.design.cycle_cnt.read(0), 0x8000_0002);
    assert_eq!(sim.design.test_data.read(0), 0x8000_0003);
    assert_eq!(sim.design.enable.front(), Some(false));
    let mut last: Simulator<ProcessorSystem> = Simulator::new();
    last.design.cycle_cnt.buffer_write(0, 50, u32::MAX);
    last.stamp = 50;
    last.tick_registers();
    last.stamp = 100;
    assert!(Driver(&mut last));
    last.stamp = 150;
    last.tick_registers();
    assert_eq!(last.design.cycle_cnt.read(0), 0);
    assert_eq!(last.design.test_data.read(0), 0xffff_fffd);
    assert_eq!(last.design.enable.front(), Some(false));
}

#[test]
fn module_effects_of_one_cycle_do_not_reach_a_later_module_of_that_cycle() {
    let mut sim: Simulator<ProcessorSystem> = Simulator::new();
    sim.design.data_in.buffer_push(50, 8);
    sim.design.enable.buffer_push(50, true);
    sim.stamp = 50;
    sim.tick_registers();
    sim.events[DATA_PROCESSOR_INSTANCE].push_future(100);
    sim.events[DRIVER].push_future(100);
    sim.cycle = 1;
    sim.stamp = 100;
    sim.reset_downstream();
    sim.evaluate();
    assert_eq!(sim.triggered, vec![false, true, true]);
    assert_eq!(sim.design.data_in.front(), Some(8));
    assert_eq!(sim.design.data_in.len(), 1);
    assert_eq!(sim.design.processed_data.read(0), 0);
    assert_eq!(sim.design.cycle_cnt.read(0), 0);
    sim.stamp = 150;
    sim.tick_registers();
    assert_eq!(sim.design.processed_data.read(0), 16);
    assert_eq!(sim.design.data_in.len(), 1);
    assert_eq!(sim.design.data_in.front(), Some(0));
    assert_eq!(sim.design.cycle_cnt.read(0), 1);
}

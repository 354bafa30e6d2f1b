use hecs::World;
use resources::Resources;
use std::cell::RefCell;
use std::rc::Rc;
use system_executor::{Executor, System, SystemBorrows};

type Log = Rc<RefCell<Vec<&'static str>>>;

struct Logger {
    name: &'static str,
    log: Log,
}

impl System for Logger {
    type ModQueues = ();

    fn borrows(&self) -> SystemBorrows {
        SystemBorrows::new()
    }

    fn run(&mut self, _world: &World, _resources: &Resources, _mod_queues: &()) {
        self.log.borrow_mut().push(self.name);
    }
}

fn logger(name: &'static str, log: &Log) -> Logger {
    Logger { name, log: log.clone() }
}

fn new_log() -> Log {
    Rc::new(RefCell::new(Vec::new()))
}

fn position(log: &Log, name: &str) -> usize {
    log.borrow().iter().position(|entry| *entry == name).unwrap()
}

fn tick(executor: &mut Executor<Logger>) -> Vec<usize> {
    let world = World::new();
    let resources = Resources::new();
    executor.run(&world, &resources, &())
}

#[test]
fn an_empty_tick_invokes_nothing() {
    let mut executor: Executor<Logger> = Executor::new();
    assert_eq!(tick(&mut executor), vec![]);
    assert_eq!(tick(&mut executor), vec![]);
}

#[test]
fn systems_without_dependencies_run_in_slot_order() {
    let log = new_log();
    let mut executor: Executor<Logger> = Executor::new();
    executor.add((1u64, logger("a", &log)));
    executor.add(logger("b", &log));
    executor.add((3u64, logger("c", &log)));
    assert_eq!(tick(&mut executor), vec![0, 1, 2]);
    assert_eq!(*log.borrow(), vec!["a", "b", "c"]);
}

#[test]
fn a_system_runs_after_the_one_it_depends_on() {
    let log = new_log();
    let mut executor: Executor<Logger> = Executor::new();
    executor.add((1u64, vec![2u64], logger("x", &log)));
    executor.add((2u64, logger("y", &log)));
    let trace = tick(&mut executor);
    assert_eq!(trace, vec![1, 0]);
    assert_eq!(*log.borrow(), vec!["y", "x"]);
    assert!(position(&log, "y") < position(&log, "x"));
}

#[test]
fn a_chain_registered_backwards_runs_forwards() {
    let log = new_log();
    let mut executor: Executor<Logger> = Executor::new();
    executor.add((3u64, vec![2u64], logger("c", &log)));
    executor.add((2u64, vec![1u64], logger("b", &log)));
    executor.add((1u64, logger("a", &log)));
    assert_eq!(tick(&mut executor), vec![2, 1, 0]);
    assert_eq!(*log.borrow(), vec!["a", "b", "c"]);
}

#[test]
fn equal_dependency_counts_do_not_decide_the_order() {
    let log = new_log();
    let mut executor: Executor<Logger> = Executor::new();
    executor.add((1u64, vec![2u64], logger("first", &log)));
    executor.add((2u64, vec![3u64], logger("second", &log)));
    executor.add((3u64, vec![9u64], logger("third", &log)));
    tick(&mut executor);
    assert_eq!(*log.borrow(), vec!["third", "second", "first"]);
}

#[test]
fn a_system_with_many_dependencies_runs_after_all_of_them() {
    let log = new_log();
    let mut executor: Executor<Logger> = Executor::new();
    executor.add((10u64, vec![1u64, 2, 3], logger("last", &log)));
    executor.add((1u64, logger("a", &log)));
    executor.add((2u64, vec![3u64], logger("b", &log)));
    executor.add((3u64, logger("c", &log)));
    executor.add((vec![10u64], logger("after", &log)));
    let trace = tick(&mut executor);
    assert_eq!(trace.len(), 5);
    assert!(position(&log, "a") < position(&log, "last"));
    assert!(position(&log, "b") < position(&log, "last"));
    assert!(position(&log, "c") < position(&log, "last"));
    assert!(position(&log, "c") < position(&log, "b"));
    assert!(position(&log, "last") < position(&log, "after"));
}

#[test]
fn a_diamond_is_ordered() {
    let log = new_log();
    let mut executor: Executor<Logger> = Executor::new();
    executor.add((4u64, vec![2u64, 3], logger("d", &log)));
    executor.add((3u64, vec![1u64], logger("c", &log)));
    executor.add((2u64, vec![1u64], logger("b", &log)));
    executor.add((1u64, logger("a", &log)));
    let trace = tick(&mut executor);
    assert_eq!(trace, vec![3, 1, 2, 0]);
    assert_eq!(*log.borrow(), vec!["a", "c", "b", "d"]);
}

#[test]
fn every_tick_invokes_each_active_system_once() {
    let log = new_log();
    let mut executor: Executor<Logger> = Executor::new();
    executor.add((1u64, vec![2u64], logger("x", &log)));
    executor.add((2u64, logger("y", &log)));
    assert_eq!(tick(&mut executor), vec![1, 0]);
    assert_eq!(tick(&mut executor), vec![1, 0]);
    assert_eq!(*log.borrow(), vec!["y", "x", "y", "x"]);
}

#[test]
fn an_inactive_system_is_not_invoked() {
    let log = new_log();
    let mut executor: Executor<Logger> = Executor::new();
    executor.add((1u64, logger("a", &log)));
    executor.add((2u64, logger("b", &log)));
    executor.set_active(1, false).unwrap();
    assert_eq!(tick(&mut executor), vec![1]);
    assert_eq!(*log.borrow(), vec!["b"]);
    assert!(executor.contains(1));
    assert_eq!(executor.is_active(1), Ok(false));
}

#[test]
fn switching_needs_no_new_plan() {
    let log = new_log();
    let mut executor: Executor<Logger> = Executor::new();
    executor.add((1u64, vec![2u64], logger("x", &log)));
    executor.add((2u64, logger("y", &log)));
    assert_eq!(tick(&mut executor), vec![1, 0]);
    executor.set_active(2, false).unwrap();
    assert_eq!(tick(&mut executor), vec![0]);
    executor.set_active(2, true).unwrap();
    executor.set_active(1, false).unwrap();
    assert_eq!(tick(&mut executor), vec![1]);
    executor.set_active(1, true).unwrap();
    assert_eq!(tick(&mut executor), vec![1, 0]);
    assert_eq!(*log.borrow(), vec!["y", "x", "x", "y", "y", "x"]);
}

#[test]
fn a_dependency_on_an_inactive_system_does_not_block() {
    let log = new_log();
    let mut executor: Executor<Logger> = Executor::new();
    executor.add((1u64, vec![2u64], logger("x", &log)));
    executor.add((2u64, logger("y", &log)));
    executor.set_active(2, false).unwrap();
    assert_eq!(tick(&mut executor), vec![0]);
    assert_eq!(*log.borrow(), vec!["x"]);
}

#[test]
fn a_dependency_on_an_unknown_handle_does_not_block() {
    let log = new_log();
    let mut executor: Executor<Logger> = Executor::new();
    executor.add((1u64, vec![99u64], logger("x", &log)));
    assert_eq!(tick(&mut executor), vec![0]);
    assert_eq!(*log.borrow(), vec!["x"]);
}

#[test]
fn a_dependency_on_a_removed_system_does_not_block() {
    let log = new_log();
    let mut executor: Executor<Logger> = Executor::new();
    executor.add((1u64, vec![2u64], logger("x", &log)));
    executor.add((2u64, logger("y", &log)));
    assert_eq!(tick(&mut executor), vec![1, 0]);
    assert!(executor.remove(2).is_some());
    assert_eq!(tick(&mut executor), vec![0]);
    assert_eq!(*log.borrow(), vec!["y", "x", "x"]);
}

#[test]
fn a_dependency_waits_for_a_system_registered_later() {
    let log = new_log();
    let mut executor: Executor<Logger> = Executor::new();
    executor.add((1u64, vec![2u64], logger("x", &log)));
    assert_eq!(tick(&mut executor), vec![0]);
    executor.add((2u64, logger("y", &log)));
    assert_eq!(tick(&mut executor), vec![1, 0]);
    assert_eq!(*log.borrow(), vec!["x", "y", "x"]);
}

#[test]
fn a_replaced_system_keeps_its_place_among_the_dependencies() {
    let log = new_log();
    let mut executor: Executor<Logger> = Executor::new();
    executor.add((1u64, vec![2u64], logger("c", &log)));
    executor.add((2u64, logger("h", &log)));
    assert_eq!(tick(&mut executor), vec![1, 0]);
    let old = executor.add((2u64, logger("replacement", &log)));
    assert_eq!(old.unwrap().name, "h");
    assert_eq!(tick(&mut executor), vec![1, 0]);
    assert_eq!(*log.borrow(), vec!["h", "c", "replacement", "c"]);
}

#[test]
fn a_replacement_brings_its_own_dependencies() {
    let log = new_log();
    let mut executor: Executor<Logger> = Executor::new();
    executor.add((1u64, logger("a", &log)));
    executor.add((2u64, logger("b", &log)));
    assert_eq!(tick(&mut executor), vec![0, 1]);
    executor.add((1u64, vec![2u64], logger("a2", &log)));
    assert_eq!(tick(&mut executor), vec![1, 0]);
    assert_eq!(*log.borrow(), vec!["a", "b", "b", "a2"]);
}

#[test]
fn a_cycle_of_two_is_tolerated_and_both_run_once() {
    let log = new_log();
    let mut executor: Executor<Logger> = Executor::new();
    executor.add((1u64, vec![2u64], logger("a", &log)));
    executor.add((2u64, vec![1u64], logger("b", &log)));
    assert_eq!(tick(&mut executor), vec![0, 1]);
    assert_eq!(*log.borrow(), vec!["a", "b"]);
    assert!(!executor.is_dirty());
    assert_eq!(tick(&mut executor), vec![0, 1]);
    assert_eq!(*log.borrow(), vec!["a", "b", "a", "b"]);
    assert!(executor.contains(1));
    assert!(executor.contains(2));
}

#[test]
fn systems_on_a_cycle_run_after_those_that_can_be_ordered() {
    let log = new_log();
    let mut executor: Executor<Logger> = Executor::new();
    executor.add((1u64, vec![2u64], logger("a", &log)));
    executor.add((2u64, vec![1u64], logger("b", &log)));
    executor.add((3u64, vec![4u64], logger("c", &log)));
    executor.add((4u64, logger("d", &log)));
    assert_eq!(tick(&mut executor), vec![3, 2, 0, 1]);
    assert_eq!(*log.borrow(), vec!["d", "c", "a", "b"]);
}

#[test]
fn a_system_that_waits_for_a_cycle_runs_in_slot_order_with_it() {
    let log = new_log();
    let mut executor: Executor<Logger> = Executor::new();
    executor.add((9u64, vec![1u64], logger("waits", &log)));
    executor.add((1u64, vec![2u64], logger("a", &log)));
    executor.add((2u64, vec![1u64], logger("b", &log)));
    executor.add((3u64, logger("free", &log)));
    assert_eq!(tick(&mut executor), vec![3, 0, 1, 2]);
    assert_eq!(*log.borrow(), vec!["free", "waits", "a", "b"]);
}

#[test]
fn a_cycle_through_an_inactive_system_blocks_nothing() {
    let log = new_log();
    let mut executor: Executor<Logger> = Executor::new();
    executor.add((1u64, vec![2u64], logger("a", &log)));
    executor.add((2u64, vec![1u64], logger("b", &log)));
    executor.set_active(2, false).unwrap();
    assert_eq!(tick(&mut executor), vec![0]);
    assert_eq!(*log.borrow(), vec!["a"]);
    assert_eq!(executor.is_active(2), Ok(false));
}

#[test]
fn a_system_that_depends_on_itself_runs_once() {
    let log = new_log();
    let mut executor: Executor<Logger> = Executor::new();
    executor.add((1u64, vec![1u64], logger("a", &log)));
    executor.add((2u64, logger("b", &log)));
    assert_eq!(tick(&mut executor), vec![1, 0]);
    assert_eq!(*log.borrow(), vec!["b", "a"]);
}

#[test]
fn a_longer_cycle_runs_in_slot_order() {
    let log = new_log();
    let mut executor: Executor<Logger> = Executor::new();
    executor.add((1u64, vec![3u64], logger("a", &log)));
    executor.add((2u64, vec![1u64], logger("b", &log)));
    executor.add((3u64, vec![2u64], logger("c", &log)));
    executor.add((4u64, vec![3u64], logger("d", &log)));
    executor.maintain();
    assert!(!executor.is_dirty());
    assert!(log.borrow().is_empty());
    assert_eq!(tick(&mut executor), vec![0, 1, 2, 3]);
    assert_eq!(*log.borrow(), vec!["a", "b", "c", "d"]);
}

#[test]
fn breaking_the_cycle_brings_the_dependencies_back() {
    let log = new_log();
    let mut executor: Executor<Logger> = Executor::new();
    executor.add((1u64, vec![2u64], logger("a", &log)));
    executor.add((2u64, vec![1u64], logger("b", &log)));
    assert_eq!(tick(&mut executor), vec![0, 1]);
    executor.add((2u64, logger("b2", &log)));
    assert_eq!(tick(&mut executor), vec![1, 0]);
    executor.add((2u64, vec![1u64], logger("b3", &log)));
    assert_eq!(tick(&mut executor), vec![0, 1]);
    assert!(executor.remove(1).is_some());
    assert_eq!(tick(&mut executor), vec![1]);
    assert_eq!(*log.borrow(), vec!["a", "b", "b2", "a", "a", "b3", "b3"]);
}

#[test]
fn independent_systems_run_once_each_beside_a_cycle() {
    let log = new_log();
    let mut executor: Executor<Logger> = Executor::new();
    executor.add((1u64, logger("one", &log)));
    executor.add((5u64, vec![6u64], logger("x", &log)));
    executor.add((6u64, vec![5u64], logger("y", &log)));
    executor.add((2u64, logger("two", &log)));
    assert_eq!(executor.independent(1, 2), Ok(true));
    let trace = tick(&mut executor);
    assert_eq!(trace, vec![0, 3, 1, 2]);
    assert_eq!(log.borrow().iter().filter(|name| **name == "one").count(), 1);
    assert_eq!(log.borrow().iter().filter(|name| **name == "two").count(), 1);
}

#[test]
fn with_one_system_switched_off_every_other_runs_once() {
    let log = new_log();
    let mut executor: Executor<Logger> = Executor::new();
    executor.add((1u64, vec![2u64], logger("a", &log)));
    executor.add((2u64, vec![1u64], logger("b", &log)));
    executor.add((3u64, vec![1u64], logger("c", &log)));
    executor.add((4u64, logger("d", &log)));
    executor.set_active(4, false).unwrap();
    assert_eq!(tick(&mut executor), vec![0, 1, 2]);
    assert_eq!(*log.borrow(), vec!["a", "b", "c"]);
}

#[test]
fn maintain_plans_without_running() {
    let log = new_log();
    let mut executor: Executor<Logger> = Executor::new();
    executor.maintain();
    executor.add((1u64, vec![2u64], logger("x", &log)));
    executor.add((2u64, logger("y", &log)));
    executor.maintain();
    executor.maintain();
    assert!(log.borrow().is_empty());
    assert_eq!(tick(&mut executor), vec![1, 0]);
}

#[test]
fn duplicate_dependencies_count_once() {
    let log = new_log();
    let mut executor: Executor<Logger> = Executor::new();
    executor.add((1u64, vec![2u64, 2, 2], logger("x", &log)));
    executor.add((2u64, logger("y", &log)));
    assert_eq!(tick(&mut executor), vec![1, 0]);
}

#[test]
fn reused_slots_are_scheduled_like_any_other() {
    let log = new_log();
    let mut executor: Executor<Logger> = Executor::new();
    executor.add((1u64, logger("a", &log)));
    executor.add((2u64, vec![3u64], logger("b", &log)));
    executor.remove(1);
    executor.add((3u64, logger("c", &log)));
    assert_eq!(executor.slot_of(3), Ok(0));
    assert_eq!(tick(&mut executor), vec![0, 1]);
    assert_eq!(*log.borrow(), vec!["c", "b"]);
}

#[test]
fn many_systems_in_a_long_chain() {
    let log = new_log();
    let mut executor: Executor<Logger> = Executor::new();
    let count: u64 = 40;
    for handle in 0..count {
        executor.add((handle, vec![handle + 1], logger("link", &log)));
    }
    let trace = tick(&mut executor);
    let expected: Vec<usize> = (0..count as usize).rev().collect();
    assert_eq!(trace, expected);
    assert_eq!(log.borrow().len(), 40);
}

#[test]
fn the_executor_is_dirty_until_it_has_planned() {
    let log = new_log();
    let mut executor: Executor<Logger> = Executor::new();
    assert!(executor.is_dirty());
    assert_eq!(tick(&mut executor), vec![]);
    assert!(!executor.is_dirty());
    executor.add((1u64, logger("a", &log)));
    assert!(executor.is_dirty());
    executor.maintain();
    assert!(!executor.is_dirty());
    executor.set_active(1, false).unwrap();
    assert!(!executor.is_dirty());
    executor.get_mut(1).unwrap().name = "renamed";
    assert!(!executor.is_dirty());
    executor.remove(1);
    assert!(executor.is_dirty());
    assert_eq!(tick(&mut executor), vec![]);
    assert!(!executor.is_dirty());
    executor.remove(1);
    assert!(executor.is_dirty());
}

#[test]
fn a_cycle_leaves_the_executor_clean() {
    let log = new_log();
    let mut executor: Executor<Logger> = Executor::new();
    executor.add((1u64, vec![1u64], logger("a", &log)));
    executor.maintain();
    assert!(!executor.is_dirty());
    assert_eq!(tick(&mut executor), vec![0]);
    assert!(!executor.is_dirty());
    executor.remove(1);
    assert!(executor.is_dirty());
    assert_eq!(tick(&mut executor), vec![]);
    assert!(!executor.is_dirty());
}

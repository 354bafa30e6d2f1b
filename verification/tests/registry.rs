use hecs::World;
use resources::Resources;
use system_executor::{
    Executor, NoSuchSystem, ResourceError, System, SystemBorrows,
    SystemInsertionArguments, TypeKey,
};

struct Named {
    name: &'static str,
    runs: u32,
}

fn named(name: &'static str) -> Named {
    Named { name, runs: 0 }
}

impl System for Named {
    type ModQueues = ();

    fn borrows(&self) -> SystemBorrows {
        SystemBorrows::new()
    }

    fn run(&mut self, _world: &World, _resources: &Resources, _mod_queues: &()) {
        self.runs += 1;
    }
}

struct Writer {
    key: TypeKey,
}

impl System for Writer {
    type ModQueues = ();

    fn borrows(&self) -> SystemBorrows {
        let mut borrows = SystemBorrows::new();
        borrows.write_resource(self.key);
        borrows
    }

    fn run(&mut self, _world: &World, _resources: &Resources, _mod_queues: &()) {}
}

#[test]
fn a_new_executor_holds_nothing() {
    let executor: Executor<Named> = Executor::new();
    assert!(!executor.contains(0));
    assert!(!executor.contains(7));
    assert_eq!(executor.is_active(7), Err(NoSuchSystem));
    assert_eq!(executor.slot_of(7), Err(NoSuchSystem));
}

#[test]
fn the_default_executor_is_a_new_one() {
    let mut executor: Executor<Named> = Executor::default();
    assert!(!executor.contains(1));
    let world = World::new();
    let resources = Resources::new();
    assert_eq!(executor.run(&world, &resources, &()), vec![]);
}

#[test]
fn a_registered_system_is_found_and_active() {
    let mut executor: Executor<Named> = Executor::new();
    assert!(executor.add((7u64, named("a"))).is_none());
    assert!(executor.contains(7));
    assert!(!executor.contains(8));
    assert_eq!(executor.is_active(7), Ok(true));
    assert_eq!(executor.slot_of(7), Ok(0));
}

#[test]
fn registration_takes_all_four_forms() {
    let mut executor: Executor<Named> = Executor::new();
    assert!(executor.add(named("alone")).is_none());
    assert!(executor.add((1u64, named("handle"))).is_none());
    assert!(executor.add((vec![1u64], named("dependencies"))).is_none());
    assert!(executor.add((2u64, vec![1u64], named("both"))).is_none());
    assert!(executor.contains(1));
    assert!(executor.contains(2));
    assert_eq!(executor.slot_of(1), Ok(1));
    assert_eq!(executor.slot_of(2), Ok(3));
    let world = World::new();
    let resources = Resources::new();
    let trace = executor.run(&world, &resources, &());
    assert_eq!(trace.len(), 4);
}

#[test]
fn insertion_arguments_convert_from_each_form() {
    let alone: SystemInsertionArguments<Named> = named("a").into();
    assert_eq!(alone.handle, None);
    assert!(alone.dependencies.is_empty());
    assert_eq!(alone.system.name, "a");
    let with_handle: SystemInsertionArguments<Named> = (3u64, named("b")).into();
    assert_eq!(with_handle.handle, Some(3));
    assert!(with_handle.dependencies.is_empty());
    assert_eq!(with_handle.system.name, "b");
    let with_dependencies: SystemInsertionArguments<Named> = (vec![4u64, 5], named("c")).into();
    assert_eq!(with_dependencies.handle, None);
    assert_eq!(with_dependencies.dependencies, vec![4, 5]);
    assert_eq!(with_dependencies.system.name, "c");
    let with_both: SystemInsertionArguments<Named> = (6u64, vec![7u64], named("d")).into();
    assert_eq!(with_both.handle, Some(6));
    assert_eq!(with_both.dependencies, vec![7]);
    assert_eq!(with_both.system.name, "d");
}

#[test]
fn add_inner_registers_like_add() {
    let mut executor: Executor<Named> = Executor::new();
    assert!(executor.add_inner(Some(1), vec![], named("a")).is_none());
    assert!(executor.add_inner(None, vec![1], named("b")).is_none());
    let previous = executor.add_inner(Some(1), vec![], named("c"));
    assert_eq!(previous.unwrap().name, "a");
    assert_eq!(executor.slot_of(1), Ok(0));
}

#[test]
fn the_builder_registers_and_returns_the_executor() {
    let mut executor = Executor::<Named>::new()
        .with((1u64, named("a")))
        .with((2u64, vec![1u64], named("b")))
        .with(named("c"));
    assert!(executor.contains(1));
    assert!(executor.contains(2));
    let world = World::new();
    let resources = Resources::new();
    assert_eq!(executor.run(&world, &resources, &()), vec![0, 1, 2]);
}

#[test]
fn registering_under_a_used_handle_replaces_in_place() {
    let mut executor: Executor<Named> = Executor::new();
    executor.add((1u64, named("first")));
    executor.add((2u64, named("second")));
    let slot = executor.slot_of(2).unwrap();
    let previous = executor.add((2u64, named("replacement")));
    assert_eq!(previous.unwrap().name, "second");
    assert_eq!(executor.slot_of(2), Ok(slot));
    assert_eq!(executor.get_mut(2).unwrap().name, "replacement");
    assert!(executor.contains(1));
    assert_eq!(executor.get_mut(1).unwrap().name, "first");
}

#[test]
fn a_replacement_is_active_even_where_the_old_system_was_not() {
    let mut executor: Executor<Named> = Executor::new();
    executor.add((1u64, named("old")));
    executor.set_active(1, false).unwrap();
    assert_eq!(executor.is_active(1), Ok(false));
    executor.add((1u64, named("new")));
    assert_eq!(executor.is_active(1), Ok(true));
}

#[test]
fn removal_returns_the_system() {
    let mut executor: Executor<Named> = Executor::new();
    executor.add((1u64, named("a")));
    executor.add((2u64, named("b")));
    let removed = executor.remove(1);
    assert_eq!(removed.unwrap().name, "a");
    assert!(!executor.contains(1));
    assert!(executor.contains(2));
    assert!(executor.remove(1).is_none());
}

#[test]
fn removing_an_unknown_handle_does_nothing() {
    let mut executor: Executor<Named> = Executor::new();
    executor.add((1u64, named("a")));
    assert!(executor.remove(9).is_none());
    assert!(executor.contains(1));
    assert_eq!(executor.slot_of(1), Ok(0));
}

#[test]
fn every_operation_on_a_removed_handle_fails() {
    let mut executor: Executor<Named> = Executor::new();
    executor.add((1u64, named("a")));
    executor.add((2u64, named("b")));
    assert!(executor.remove(1).is_some());
    assert!(!executor.contains(1));
    assert_eq!(executor.is_active(1), Err(NoSuchSystem));
    assert_eq!(executor.set_active(1, true), Err(NoSuchSystem));
    assert_eq!(executor.set_active(1, false), Err(NoSuchSystem));
    assert!(matches!(executor.get_mut(1), Err(NoSuchSystem)));
    assert_eq!(executor.slot_of(1), Err(NoSuchSystem));
    assert_eq!(executor.independent(1, 2), Err(NoSuchSystem));
    assert_eq!(executor.independent(2, 1), Err(NoSuchSystem));
    assert!(executor.remove(1).is_none());
}

#[test]
fn a_freed_slot_is_reused_before_a_new_one_is_made() {
    let mut executor: Executor<Named> = Executor::new();
    executor.add((1u64, named("a")));
    executor.add((2u64, named("b")));
    executor.add((3u64, named("c")));
    assert_eq!(executor.slot_of(3), Ok(2));
    executor.remove(2);
    executor.add((4u64, named("d")));
    assert_eq!(executor.slot_of(4), Ok(1));
    executor.add((5u64, named("e")));
    assert_eq!(executor.slot_of(5), Ok(3));
}

#[test]
fn the_slot_freed_last_is_reused_first() {
    let mut executor: Executor<Named> = Executor::new();
    executor.add((1u64, named("a")));
    executor.add((2u64, named("b")));
    executor.add((3u64, named("c")));
    executor.remove(1);
    executor.remove(3);
    executor.add((4u64, named("d")));
    executor.add((5u64, named("e")));
    assert_eq!(executor.slot_of(4), Ok(2));
    assert_eq!(executor.slot_of(5), Ok(0));
    assert_eq!(executor.slot_of(2), Ok(1));
}

#[test]
fn systems_without_a_handle_take_slots_too() {
    let mut executor: Executor<Named> = Executor::new();
    executor.add(named("anonymous"));
    executor.add((1u64, named("a")));
    assert_eq!(executor.slot_of(1), Ok(1));
}

#[test]
fn switching_off_and_on_is_remembered() {
    let mut executor: Executor<Named> = Executor::new();
    executor.add((1u64, named("a")));
    assert_eq!(executor.set_active(1, false), Ok(()));
    assert_eq!(executor.is_active(1), Ok(false));
    assert!(executor.contains(1));
    assert_eq!(executor.set_active(1, false), Ok(()));
    assert_eq!(executor.is_active(1), Ok(false));
    assert_eq!(executor.set_active(1, true), Ok(()));
    assert_eq!(executor.is_active(1), Ok(true));
    assert_eq!(executor.set_active(2, true), Err(NoSuchSystem));
}

#[test]
fn get_mut_gives_the_system_to_work_on() {
    let mut executor: Executor<Named> = Executor::new();
    executor.add((1u64, named("a")));
    executor.add((2u64, named("b")));
    {
        let system = executor.get_mut(1).unwrap();
        assert_eq!(system.name, "a");
        system.runs = 40;
    }
    assert_eq!(executor.get_mut(1).unwrap().runs, 40);
    assert_eq!(executor.get_mut(2).unwrap().runs, 0);
    assert!(matches!(executor.get_mut(3), Err(NoSuchSystem)));
    let world = World::new();
    let resources = Resources::new();
    executor.run(&world, &resources, &());
    assert_eq!(executor.get_mut(1).unwrap().runs, 41);
    assert_eq!(executor.remove(1).unwrap().runs, 41);
}

#[test]
fn independent_systems_share_no_dependency_and_no_conflict() {
    let mut executor: Executor<Writer> = Executor::new();
    executor.add((1u64, Writer { key: TypeKey(1) }));
    executor.add((2u64, Writer { key: TypeKey(2) }));
    executor.add((3u64, Writer { key: TypeKey(1) }));
    executor.add((4u64, vec![2u64], Writer { key: TypeKey(4) }));
    assert_eq!(executor.independent(1, 2), Ok(true));
    assert_eq!(executor.independent(2, 1), Ok(true));
    assert_eq!(executor.independent(1, 3), Ok(false));
    assert_eq!(executor.independent(3, 1), Ok(false));
    assert_eq!(executor.independent(4, 2), Ok(false));
    assert_eq!(executor.independent(2, 4), Ok(false));
    assert_eq!(executor.independent(4, 1), Ok(true));
    assert_eq!(executor.independent(1, 1), Ok(false));
    assert_eq!(executor.independent(1, 9), Err(NoSuchSystem));
    assert_eq!(executor.independent(9, 1), Err(NoSuchSystem));
}

#[test]
fn the_footprint_is_taken_when_the_system_is_registered() {
    let mut executor: Executor<Writer> = Executor::new();
    executor.add((1u64, Writer { key: TypeKey(1) }));
    executor.add((2u64, Writer { key: TypeKey(2) }));
    assert_eq!(executor.independent(1, 2), Ok(true));
    executor.get_mut(2).unwrap().key = TypeKey(1);
    assert_eq!(executor.independent(1, 2), Ok(true));
    let replaced = executor.add((2u64, Writer { key: TypeKey(1) }));
    assert!(replaced.is_some());
    assert_eq!(executor.independent(1, 2), Ok(false));
}

#[test]
fn failures_have_messages() {
    assert_eq!(NoSuchSystem.message(), "no such system");
    assert_eq!(ResourceError::NoSuchResource.message(), "no such resource");
    assert_eq!(ResourceError::CannotBorrowMutably.message(), "cannot borrow mutably");
    assert_eq!(ResourceError::CannotBorrowImmutably.message(), "cannot borrow immutably");
}

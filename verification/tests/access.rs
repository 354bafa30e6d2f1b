use hecs::World;
use resources::{CantGetResource, InvalidBorrow, NoSuchResource, Resources};
use system_executor::{
    resource_outcome, Fetch, Immutable, Mutable, QueryEffector, QuerySingle, ResourceBundle,
    ResourceEffector, ResourceError, ResourceSingle, TypeKey,
};

struct Score(u32);
struct Title(&'static str);
struct Health(i32);
struct Armour(i32);

fn store() -> Resources {
    let mut resources = Resources::new();
    resources.insert(Score(3));
    resources.insert(Title("start"));
    resources
}

#[test]
fn a_read_accessor_fetches_a_shared_borrow() {
    let resources = store();
    let accessor = <&Score as ResourceSingle>::effector();
    let first = accessor.fetch(&resources).ok().unwrap();
    let second = accessor.fetch(&resources).ok().unwrap();
    assert_eq!(first.guard.0, 3);
    assert_eq!(second.guard.0, 3);
}

#[test]
fn a_write_accessor_fetches_an_exclusive_borrow() {
    let resources = store();
    let accessor = <&mut Score as ResourceSingle>::effector();
    {
        let mut score = accessor.fetch(&resources).ok().unwrap();
        score.guard.0 += 4;
    }
    let reader = ResourceEffector::<Immutable, Score>::new();
    assert_eq!(reader.fetch(&resources).ok().unwrap().guard.0, 7);
}

#[test]
fn a_missing_resource_is_reported() {
    let resources = store();
    let reader = ResourceEffector::<Immutable, Health>::new();
    let writer = ResourceEffector::<Mutable, Health>::new();
    assert_eq!(reader.fetch(&resources).err(), Some(ResourceError::NoSuchResource));
    assert_eq!(writer.fetch(&resources).err(), Some(ResourceError::NoSuchResource));
}

#[test]
fn a_borrow_that_breaks_the_rules_is_reported() {
    let resources = store();
    let reader = ResourceEffector::<Immutable, Score>::new();
    let writer = ResourceEffector::<Mutable, Score>::new();
    {
        let _held = writer.fetch(&resources).ok().unwrap();
        assert_eq!(reader.fetch(&resources).err(), Some(ResourceError::CannotBorrowImmutably));
        assert_eq!(writer.fetch(&resources).err(), Some(ResourceError::CannotBorrowMutably));
    }
    {
        let _held = reader.fetch(&resources).ok().unwrap();
        assert_eq!(writer.fetch(&resources).err(), Some(ResourceError::CannotBorrowMutably));
        assert!(reader.fetch(&resources).is_ok());
    }
    assert!(writer.fetch(&resources).is_ok());
}

#[test]
fn nothing_to_fetch_always_succeeds() {
    let resources = Resources::new();
    assert!(().fetch(&resources).is_ok());
    let nothing: () = <() as ResourceBundle>::effectors();
    assert!(nothing.fetch(&resources).is_ok());
}

#[test]
fn a_bundle_fetches_all_of_its_parts() {
    let resources = store();
    let accessors = <(&Score, &mut Title) as ResourceBundle>::effectors();
    {
        let (score, mut title) = accessors.fetch(&resources).ok().unwrap();
        assert_eq!(score.guard.0, 3);
        title.guard.0 = "end";
    }
    let single = <(&Title,) as ResourceBundle>::effectors();
    let (title,) = single.fetch(&resources).ok().unwrap();
    assert_eq!(title.guard.0, "end");
}

#[test]
fn a_bundle_with_a_missing_part_fails_and_holds_nothing() {
    let resources = store();
    let accessors = <(&mut Score, &Health, &Title) as ResourceBundle>::effectors();
    assert_eq!(accessors.fetch(&resources).err(), Some(ResourceError::NoSuchResource));
    let writer = ResourceEffector::<Mutable, Score>::new();
    assert!(writer.fetch(&resources).is_ok());
    let four = <(&Score, &Title, &Score, &mut Armour) as ResourceBundle>::effectors();
    assert_eq!(four.fetch(&resources).err(), Some(ResourceError::NoSuchResource));
}

#[test]
fn a_bundle_that_asks_twice_for_one_resource_to_write_fails() {
    let resources = store();
    let accessors = <(&mut Score, &mut Score) as ResourceBundle>::effectors();
    assert_eq!(accessors.fetch(&resources).err(), Some(ResourceError::CannotBorrowMutably));
    let both = <(&Score, &Score, &Title, &Title) as ResourceBundle>::effectors();
    assert!(both.fetch(&resources).is_ok());
}

#[test]
fn a_query_accessor_reads_components() {
    let mut world = World::new();
    world.spawn((Health(10), Armour(1)));
    world.spawn((Health(20),));
    world.spawn((Armour(5),));
    let accessor = <&Health as QuerySingle>::effector();
    let mut found = accessor.query(&world);
    let mut total = 0;
    for health in found.borrow.iter() {
        total += health.0;
    }
    assert_eq!(total, 30);
}

#[test]
fn a_query_accessor_writes_components() {
    let mut world = World::new();
    world.spawn((Health(10), Armour(1)));
    world.spawn((Health(20),));
    let writer = QueryEffector::<&mut Health>::new();
    {
        let mut found = writer.query(&world);
        for health in found.borrow.iter() {
            health.0 += 1;
        }
    }
    let reader = QueryEffector::<&Health>::new();
    let mut found = reader.query(&world);
    let mut seen: Vec<i32> = found.borrow.iter().map(|health| health.0).collect();
    seen.sort();
    assert_eq!(seen, vec![11, 21]);
}

#[test]
fn an_optional_query_visits_every_entity() {
    let mut world = World::new();
    world.spawn((Health(10), Armour(1)));
    world.spawn((Health(20),));
    world.spawn((Armour(5),));
    let accessor = <Option<&Armour> as QuerySingle>::effector();
    let mut found = accessor.query(&world);
    let mut present = 0;
    let mut absent = 0;
    for armour in found.borrow.iter() {
        match armour {
            Some(_) => present += 1,
            None => absent += 1,
        }
    }
    assert_eq!(present, 2);
    assert_eq!(absent, 1);
}

#[test]
fn an_optional_write_query_changes_what_is_present() {
    let mut world = World::new();
    world.spawn((Health(10), Armour(1)));
    world.spawn((Health(20),));
    let accessor = <Option<&mut Armour> as QuerySingle>::effector();
    {
        let mut found = accessor.query(&world);
        for armour in found.borrow.iter() {
            if let Some(armour) = armour {
                armour.0 = 9;
            }
        }
    }
    let reader = QueryEffector::<&Armour>::new();
    let mut found = reader.query(&world);
    let seen: Vec<i32> = found.borrow.iter().map(|armour| armour.0).collect();
    assert_eq!(seen, vec![9]);
}

#[test]
fn a_query_over_an_empty_world_finds_nothing() {
    let world = World::new();
    let accessor = QueryEffector::<&Health>::new();
    let mut found = accessor.query(&world);
    assert_eq!(found.borrow.iter().count(), 0);
}

#[test]
fn the_answer_of_the_store_becomes_the_result_of_a_fetch() {
    assert_eq!(resource_outcome::<u8>(Ok(7)), Ok(7));
    assert_eq!(
        resource_outcome::<u8>(Err(CantGetResource::NoSuchResource(NoSuchResource))),
        Err(ResourceError::NoSuchResource)
    );
    assert_eq!(
        resource_outcome::<u8>(Err(CantGetResource::InvalidBorrow(InvalidBorrow::Mutable))),
        Err(ResourceError::CannotBorrowMutably)
    );
    assert_eq!(
        resource_outcome::<u8>(Err(CantGetResource::InvalidBorrow(InvalidBorrow::Immutable))),
        Err(ResourceError::CannotBorrowImmutably)
    );
}

#[test]
fn a_key_is_made_from_a_digest() {
    assert_eq!(TypeKey::from_digest(0), TypeKey(0));
    assert_eq!(TypeKey::from_digest(41), TypeKey(41));
    assert_ne!(TypeKey::from_digest(41), TypeKey::from_digest(42));
    assert_eq!(TypeKey::from_digest(u64::MAX).0, u64::MAX);
}

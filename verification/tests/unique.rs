use ecs_core::cell::ThreadId;
use ecs_core::error::{Borrow, GetStorage, Run, UniqueRemove};
use ecs_core::storage::StorageId;
use ecs_core::view::{Gate, ViewRequest, ViewTarget};
use ecs_core::world::World;

type SystemFn = fn(Vec<Option<usize>>) -> Result<Vec<Option<usize>>, String>;
type TestWorld = World<usize, SystemFn>;

const MAIN: ThreadId = ThreadId(1);
const OTHER: ThreadId = ThreadId(2);
const USIZE: StorageId = StorageId::OfType(0x75_73_69_7a_65);

fn unique_name() -> String {
    "Unique<usize>".to_string()
}

fn unique_view(exclusive: bool, gate: Gate) -> Vec<ViewRequest<usize>> {
    vec![ViewRequest {
        target: ViewTarget::Unique(USIZE),
        name: unique_name(),
        exclusive,
        gate,
        optional: false,
    }]
}

fn increment(mut x: Vec<Option<usize>>) -> (Vec<Option<usize>>, ()) {
    x[0] = Some(x[0].unwrap() + 1);
    (x, ())
}

fn expect_one(x: Vec<Option<usize>>) -> (Vec<Option<usize>>, ()) {
    assert_eq!(x[0], Some(1));
    (x, ())
}

fn nothing(x: Vec<Option<usize>>) -> (Vec<Option<usize>>, ()) {
    (x, ())
}

#[test]
fn unique_storage() {
    let mut world = TestWorld::default();
    world.try_add_unique(USIZE, 0usize, MAIN).unwrap();

    world
        .try_run(increment, &unique_view(true, Gate::Open), MAIN)
        .unwrap();
    world
        .try_run(expect_one, &unique_view(false, Gate::Open), MAIN)
        .unwrap();

    world
        .try_remove_unique(USIZE, &"usize".to_string(), MAIN)
        .unwrap();

    if let Some(Run::GetStorage(get_error)) = world
        .try_run(increment, &unique_view(true, Gate::Open), MAIN)
        .err()
    {
        assert_eq!(get_error, GetStorage::MissingStorage(unique_name()));
    } else {
        panic!()
    }

    world.try_add_unique(USIZE, 0usize, MAIN).unwrap();
}

#[test]
fn not_unique_storage() {
    let mut world = TestWorld::new();

    match world
        .try_run(nothing, &unique_view(false, Gate::Open), MAIN)
        .err()
    {
        Some(Run::GetStorage(get_storage)) => {
            assert_eq!(get_storage, GetStorage::MissingStorage(unique_name()))
        }
        _ => panic!(),
    }

    match world
        .try_run(nothing, &unique_view(true, Gate::Open), MAIN)
        .err()
    {
        Some(Run::GetStorage(get_storage)) => {
            assert_eq!(get_storage, GetStorage::MissingStorage(unique_name()))
        }
        _ => panic!(),
    }

    match world
        .try_remove_unique(USIZE, &"usize".to_string(), MAIN)
        .err()
    {
        Some(UniqueRemove::MissingUnique(name)) => assert_eq!(name, "usize"),
        _ => panic!(),
    }
}

#[test]
fn non_send() {
    let mut world = TestWorld::default();
    world.try_add_unique_non_send(USIZE, 0, MAIN).unwrap();

    world
        .try_run(increment, &unique_view(true, Gate::NonSend), MAIN)
        .unwrap();
    world
        .try_run(expect_one, &unique_view(false, Gate::NonSend), MAIN)
        .unwrap();
}

#[test]
fn non_sync() {
    let mut world = TestWorld::default();
    world.try_add_unique_non_sync(USIZE, 0, MAIN).unwrap();

    world
        .try_run(increment, &unique_view(true, Gate::NonSync), MAIN)
        .unwrap();
    world
        .try_run(expect_one, &unique_view(false, Gate::NonSync), MAIN)
        .unwrap();
}

#[test]
fn non_send_sync() {
    let mut world = TestWorld::default();
    world.try_add_unique_non_send_sync(USIZE, 0, MAIN).unwrap();

    world
        .try_run(increment, &unique_view(true, Gate::NonSendSync), MAIN)
        .unwrap();
    world
        .try_run(expect_one, &unique_view(false, Gate::NonSendSync), MAIN)
        .unwrap();
}

#[test]
fn non_send_remove() {
    let mut world = TestWorld::new();

    world.add_unique_non_send(USIZE, 0usize, MAIN);

    if let Some(UniqueRemove::StorageBorrow(name, borrow)) = world
        .try_remove_unique(USIZE, &"usize".to_string(), OTHER)
        .err()
    {
        assert_eq!(
            (name.as_str(), borrow),
            ("usize", Borrow::WrongThread)
        );
    } else {
        panic!()
    }
}

#[test]
fn non_send_is_shared_across_threads_but_not_written() {
    let mut world = TestWorld::new();
    world.add_unique_non_send(USIZE, 7, MAIN);
    world
        .try_run(nothing, &unique_view(false, Gate::NonSend), OTHER)
        .unwrap();
    assert_eq!(
        world
            .try_run(increment, &unique_view(true, Gate::NonSend), OTHER)
            .err(),
        Some(Run::GetStorage(GetStorage::Borrow(Borrow::WrongThread)))
    );
    assert_eq!(world.storages_ref().slot(0).value(), Some(7));
}

#[test]
fn non_send_sync_is_pinned_for_every_borrow() {
    let mut world = TestWorld::new();
    world.add_unique_non_send_sync(USIZE, 7, MAIN);
    assert_eq!(
        world
            .try_run(nothing, &unique_view(false, Gate::NonSendSync), OTHER)
            .err(),
        Some(Run::GetStorage(GetStorage::Borrow(Borrow::WrongThread)))
    );
    assert_eq!(
        world.try_borrow(&unique_view(true, Gate::NonSendSync), OTHER),
        Err(GetStorage::Borrow(Borrow::WrongThread))
    );
    world
        .try_run(increment, &unique_view(true, Gate::NonSendSync), MAIN)
        .unwrap();
    assert_eq!(world.remove_unique(USIZE, &"usize".to_string(), MAIN), 8);
}

#[test]
fn non_sync_moves_between_threads() {
    let mut world = TestWorld::new();
    world.add_unique_non_sync(USIZE, 3, MAIN);
    world
        .try_run(increment, &unique_view(true, Gate::NonSync), OTHER)
        .unwrap();
    assert_eq!(
        world.try_remove_unique(USIZE, &"usize".to_string(), OTHER),
        Ok(4)
    );
}

#[test]
fn add_unique_keeps_a_stored_value_and_refills_a_drained_slot() {
    let mut world = TestWorld::new();
    world.add_unique(USIZE, 5, MAIN);
    world.add_unique(USIZE, 9, MAIN);
    assert_eq!(world.storages_ref().len(), 1);
    assert_eq!(world.remove_unique(USIZE, &"usize".to_string(), MAIN), 5);
    assert_eq!(world.storages_ref().len(), 1);
    assert_eq!(world.storages_ref().slot(0).value(), None);
    world.add_unique(USIZE, 9, MAIN);
    assert_eq!(world.storages_ref().len(), 1);
    assert_eq!(world.storages_ref().slot(0).value(), Some(9));
}

#[test]
fn remove_unique_reports_each_failure() {
    let mut world = TestWorld::new();
    world.add_unique(USIZE, 5, MAIN);

    world.all_storages_mut(MAIN).unwrap();
    assert_eq!(
        world.try_remove_unique(USIZE, &"usize".to_string(), MAIN),
        Err(UniqueRemove::AllStorages)
    );
    assert_eq!(world.try_add_unique(USIZE, 1, MAIN), Err(Borrow::Unique));
    assert_eq!(
        world.try_add_custom_storage(StorageId::Custom(1), 1, MAIN),
        Err(Borrow::Unique)
    );
    world.release_all_storages(true);

    let held = world.borrow(&unique_view(false, Gate::Open), MAIN);
    assert_eq!(held, vec![Some(5)]);
    assert_eq!(
        world.try_remove_unique(USIZE, &"usize".to_string(), MAIN),
        Err(UniqueRemove::StorageBorrow(
            "usize".to_string(),
            Borrow::Shared
        ))
    );
    world.release(&unique_view(false, Gate::Open), &held, &vec![]);

    assert_eq!(
        world.try_remove_unique(StorageId::Custom(9), &"other".to_string(), MAIN),
        Err(UniqueRemove::MissingUnique("other".to_string()))
    );
    assert_eq!(
        world.try_remove_unique(USIZE, &"usize".to_string(), MAIN),
        Ok(5)
    );
}

use ecs_core::cell::ThreadId;
use ecs_core::error::{Borrow, GetStorage, Run, RunWorkload, SetDefaultWorkload};
use ecs_core::scheduler::conflicts;
use ecs_core::storage::{EntityId, StorageId};
use ecs_core::view::{Gate, ViewRequest, ViewTarget};
use ecs_core::workload::System;
use ecs_core::world::World;

type SystemFn = fn(Vec<Option<u32>>) -> Result<Vec<Option<u32>>, String>;
type TestWorld = World<u32, SystemFn>;

const MAIN: ThreadId = ThreadId(1);
const OTHER: ThreadId = ThreadId(2);
const X: StorageId = StorageId::OfType(1);
const Y: StorageId = StorageId::OfType(2);
const Z: StorageId = StorageId::Custom(3);

fn view(id: StorageId, exclusive: bool) -> ViewRequest<u32> {
    ViewRequest {
        target: ViewTarget::Unique(id),
        name: format!("{:?}", id),
        exclusive,
        gate: Gate::Open,
        optional: false,
    }
}

fn component(id: StorageId, exclusive: bool) -> ViewRequest<u32> {
    ViewRequest {
        target: ViewTarget::Storage(id, 100),
        name: format!("{:?}", id),
        exclusive,
        gate: Gate::Open,
        optional: false,
    }
}

fn system(name: &str, views: Vec<ViewRequest<u32>>, run: SystemFn) -> System<u32, SystemFn> {
    System {
        name: name.to_string(),
        views,
        run,
    }
}

fn add_one(mut x: Vec<Option<u32>>) -> Result<Vec<Option<u32>>, String> {
    x[0] = Some(x[0].unwrap() + 1);
    Ok(x)
}

fn double(mut x: Vec<Option<u32>>) -> Result<Vec<Option<u32>>, String> {
    x[0] = Some(x[0].unwrap() * 2);
    Ok(x)
}

fn copy_second_into_first(mut x: Vec<Option<u32>>) -> Result<Vec<Option<u32>>, String> {
    x[0] = x[1];
    x[1] = Some(0);
    Ok(x)
}

fn fail(_: Vec<Option<u32>>) -> Result<Vec<Option<u32>>, String> {
    Err("refused".to_string())
}

fn keep(x: Vec<Option<u32>>) -> Result<Vec<Option<u32>>, String> {
    Ok(x)
}

fn values(world: &TestWorld) -> Vec<Option<u32>> {
    let storages = world.storages_ref();
    (0..storages.len())
        .map(|i| storages.slot(i).value())
        .collect()
}

fn world_xy() -> TestWorld {
    let mut world = TestWorld::new();
    world.add_unique(X, 1, MAIN);
    world.add_unique(Y, 10, MAIN);
    world
}

#[test]
fn workload_runs_batches_in_order() {
    let mut world = world_xy();
    world
        .try_add_workload(
            "main".to_string(),
            vec![
                system("a", vec![view(X, true)], add_one),
                system("b", vec![view(Y, true)], add_one),
                system("c", vec![view(X, true)], double),
                system("d", vec![view(Y, true), view(X, false)], copy_second_into_first),
            ],
            MAIN,
        )
        .unwrap();
    let workload = world.scheduler_ref().workload(0);
    assert_eq!(workload.parallel(), &vec![vec![0, 1], vec![2], vec![3]]);
    assert_eq!(workload.sequential(), &vec![0, 1, 2, 3]);
    assert_eq!(workload.name(), "main");
    assert_eq!(workload.systems().len(), 4);

    assert_eq!(world.try_run_workload(&"main".to_string(), MAIN), Ok(()));
    assert_eq!(values(&world), vec![Some(4), Some(4)]);
    assert_eq!(world.try_run_default(MAIN), Ok(()));
    assert_eq!(values(&world), vec![Some(10), Some(10)]);
    assert!(world.storages_ref().slot(0).can_borrow(true, MAIN).is_ok());
    assert!(world.storages_ref().slot(1).can_borrow(true, MAIN).is_ok());
    assert_eq!(world.all_storages_mut(MAIN), Ok(()));
}

#[test]
fn wide_batch_runs_every_member_once() {
    let mut world = TestWorld::new();
    let mut systems = Vec::new();
    for i in 0..16u64 {
        world.add_unique(StorageId::Custom(i), i as u32, MAIN);
        systems.push(system(
            "bump",
            vec![view(StorageId::Custom(i), true)],
            add_one,
        ));
    }
    world
        .try_add_workload("wide".to_string(), systems, MAIN)
        .unwrap();
    assert_eq!(
        world.scheduler_ref().workload(0).parallel(),
        &vec![(0..16).collect::<Vec<usize>>()]
    );
    assert_eq!(world.try_run_workload(&"wide".to_string(), OTHER), Ok(()));
    assert_eq!(
        values(&world),
        (1..17).map(Some).collect::<Vec<Option<u32>>>()
    );
}

#[test]
fn first_failure_ends_the_run() {
    let mut world = world_xy();
    world
        .try_add_workload(
            "main".to_string(),
            vec![
                system("a", vec![view(X, true)], add_one),
                system("b", vec![view(Y, true)], fail),
                system("c", vec![view(X, true)], double),
            ],
            MAIN,
        )
        .unwrap();
    assert_eq!(
        world.try_run_workload(&"main".to_string(), MAIN),
        Err(RunWorkload::Run(
            "b".to_string(),
            Run::User("refused".to_string())
        ))
    );
    assert_eq!(values(&world), vec![Some(2), Some(10)]);
    assert_eq!(world.all_storages_mut(MAIN), Ok(()));
}

#[test]
fn missing_storage_ends_the_run_under_the_system_name() {
    let mut world = world_xy();
    world
        .try_add_workload(
            "main".to_string(),
            vec![
                system("a", vec![view(X, true)], add_one),
                system("b", vec![view(Z, false)], keep),
            ],
            MAIN,
        )
        .unwrap();
    assert_eq!(
        world.try_run_workload(&"main".to_string(), MAIN),
        Err(RunWorkload::Run(
            "b".to_string(),
            Run::GetStorage(GetStorage::MissingStorage("Custom(3)".to_string()))
        ))
    );
    assert_eq!(values(&world), vec![Some(1), Some(10)]);
    assert!(world.storages_ref().slot(0).can_borrow(true, MAIN).is_ok());
    assert_eq!(world.all_storages_mut(MAIN), Ok(()));
}

#[test]
fn workload_errors() {
    let mut world = world_xy();
    assert_eq!(world.try_run_default(MAIN), Ok(()));
    assert_eq!(
        world.try_run_workload(&"none".to_string(), MAIN),
        Err(RunWorkload::MissingWorkload("none".to_string()))
    );
    assert_eq!(
        world.try_set_default_workload("none".to_string(), MAIN),
        Err(SetDefaultWorkload::MissingWorkload("none".to_string()))
    );
    world
        .try_add_workload("first".to_string(), vec![system("a", vec![view(X, true)], add_one)], MAIN)
        .unwrap();
    world
        .try_add_workload("second".to_string(), vec![system("b", vec![view(X, true)], double)], MAIN)
        .unwrap();

    world.borrow_scheduler(true, MAIN).unwrap();
    assert_eq!(
        world.try_run_workload(&"first".to_string(), MAIN),
        Err(RunWorkload::Scheduler)
    );
    assert_eq!(world.try_run_default(MAIN), Err(RunWorkload::Scheduler));
    assert_eq!(
        world.try_set_default_workload("second".to_string(), MAIN),
        Err(SetDefaultWorkload::Borrow)
    );
    assert_eq!(
        world.try_add_workload("third".to_string(), vec![], MAIN),
        Err(Borrow::Unique)
    );
    world.release_scheduler(true);

    world.borrow_scheduler(false, MAIN).unwrap();
    assert_eq!(
        world.try_set_default_workload("second".to_string(), MAIN),
        Err(SetDefaultWorkload::Borrow)
    );
    assert_eq!(world.try_run_default(MAIN), Ok(()));
    world.release_scheduler(false);
    assert_eq!(values(&world), vec![Some(2), Some(10)]);

    world.set_default_workload("second".to_string(), MAIN);
    assert_eq!(world.scheduler_ref().default_workload(), 1);
    assert_eq!(world.try_run_default(MAIN), Ok(()));
    assert_eq!(values(&world), vec![Some(4), Some(10)]);
}

#[test]
fn reinstalling_replaces_the_workload() {
    let mut world = world_xy();
    world
        .try_add_workload("w".to_string(), vec![system("a", vec![view(X, true)], add_one)], MAIN)
        .unwrap();
    world
        .try_add_workload("w".to_string(), vec![system("b", vec![view(X, true)], double)], MAIN)
        .unwrap();
    assert_eq!(world.scheduler_ref().find(&"w".to_string()), Some(0));
    assert!(!world.scheduler_ref().is_empty());
    world.try_run_workload(&"w".to_string(), MAIN).unwrap();
    world.try_run_workload(&"w".to_string(), MAIN).unwrap();
    assert_eq!(values(&world), vec![Some(4), Some(10)]);
}

#[test]
fn borrow_is_all_or_nothing() {
    let mut world = world_xy();
    let views = vec![view(X, true), view(Y, false), view(X, false)];
    assert_eq!(
        world.try_borrow(&views, MAIN),
        Err(GetStorage::Borrow(Borrow::Unique))
    );
    assert!(world.storages_ref().slot(0).can_borrow(true, MAIN).is_ok());
    assert!(world.storages_ref().slot(1).can_borrow(true, MAIN).is_ok());
    assert_eq!(world.all_storages_mut(MAIN), Ok(()));
    world.release_all_storages(true);

    let views = vec![view(X, false), view(Y, true), view(X, false)];
    let shown = world.try_borrow(&views, MAIN).unwrap();
    assert_eq!(shown, vec![Some(1), Some(10), Some(1)]);
    assert_eq!(
        world.storages_ref().slot(0).can_borrow(true, MAIN),
        Err(Borrow::Shared)
    );
    assert_eq!(
        world.storages_ref().slot(1).can_borrow(false, MAIN),
        Err(Borrow::Unique)
    );
    assert_eq!(world.all_storages_mut(MAIN), Err(Borrow::Shared));
    world.release(&views, &shown, &vec![Some(7), Some(11), Some(8)]);
    assert_eq!(values(&world), vec![Some(1), Some(11)]);
    assert_eq!(world.all_storages_mut(MAIN), Ok(()));
}

#[test]
fn views_of_each_kind() {
    let mut world = world_xy();
    let all = ViewRequest {
        target: ViewTarget::AllStorages,
        name: "AllStorages".to_string(),
        exclusive: true,
        gate: Gate::Open,
        optional: false,
    };
    assert_eq!(world.try_borrow(&vec![all], MAIN), Ok(vec![None]));
    assert_eq!(
        world.try_borrow(&vec![view(X, false)], MAIN),
        Err(GetStorage::Borrow(Borrow::Unique))
    );
    assert_eq!(world.all_storages(MAIN), Err(Borrow::Unique));
    world.release_all_storages(true);

    let optional = ViewRequest {
        optional: true,
        ..view(Z, true)
    };
    assert_eq!(world.try_borrow(&vec![optional], MAIN), Ok(vec![None]));
    assert_eq!(world.all_storages_mut(MAIN), Ok(()));
    world.release_all_storages(true);

    let shown = world.try_borrow(&vec![component(Z, true)], MAIN).unwrap();
    assert_eq!(shown, vec![Some(100)]);
    assert_eq!(values(&world), vec![Some(1), Some(10), Some(100)]);
    world.release(&vec![component(Z, true)], &shown, &vec![Some(101)]);
    assert_eq!(values(&world), vec![Some(1), Some(10), Some(101)]);
    assert_eq!(world.borrow(&vec![component(Z, false)], OTHER), vec![Some(101)]);

    let pinned = ViewRequest {
        gate: Gate::NonSendSync,
        ..component(StorageId::Custom(4), false)
    };
    assert_eq!(world.run(|x| (x, 5u8), &vec![pinned], MAIN), 5);
    let pinned = ViewRequest {
        gate: Gate::NonSendSync,
        ..component(StorageId::Custom(4), false)
    };
    assert_eq!(
        world.try_borrow(&vec![pinned], OTHER),
        Err(GetStorage::Borrow(Borrow::WrongThread))
    );
}

#[test]
fn run_with_data_hands_the_data_on() {
    let mut world = world_xy();
    let r = world.try_run_with_data(
        |by: u32, mut x: Vec<Option<u32>>| {
            x[0] = Some(x[0].unwrap() + by);
            (x, by * 2)
        },
        20,
        &vec![view(X, true)],
        MAIN,
    );
    assert_eq!(r, Ok(40));
    assert_eq!(values(&world), vec![Some(21), Some(10)]);
    let out = world.run_with_data(|by: u32, x| (x, by + 1), 1, &vec![view(Y, false)], MAIN);
    assert_eq!(out, 2);
    assert_eq!(
        world.try_run_with_data(|_: u32, x| (x, ()), 1, &vec![view(Z, false)], MAIN),
        Err(Run::GetStorage(GetStorage::MissingStorage(
            "Custom(3)".to_string()
        )))
    );
}

#[test]
fn shared_views_leave_nothing_behind() {
    let mut world = world_xy();
    world
        .try_run(
            |mut x: Vec<Option<u32>>| {
                x[0] = Some(99);
                (x, ())
            },
            &vec![view(X, false)],
            MAIN,
        )
        .unwrap();
    assert_eq!(values(&world), vec![Some(1), Some(10)]);
}

fn hook(value: u32, entity: Option<EntityId>) -> (u32, bool) {
    match entity {
        Some(EntityId(id)) => (value.saturating_sub(1), value as u64 == id),
        None => (0, false),
    }
}

#[test]
fn bulk_operations_pass_over_borrowed_storages() {
    let mut world = world_xy();
    world.add_custom_storage(Z, 5, MAIN);
    assert_eq!(world.strip(EntityId(0), &hook, MAIN), Ok(()));
    assert_eq!(values(&world), vec![Some(0), Some(9), Some(4)]);

    let held = vec![view(Y, false)];
    let shown = world.borrow(&held, MAIN);
    assert_eq!(
        world.strip(EntityId(0), &hook, MAIN),
        Err(GetStorage::StorageBusy)
    );
    assert_eq!(values(&world), vec![Some(0), Some(9), Some(3)]);
    assert_eq!(world.clear(&hook, MAIN), Err(GetStorage::StorageBusy));
    assert_eq!(values(&world), vec![Some(0), Some(9), Some(0)]);
    world.release(&held, &shown, &vec![]);
    assert_eq!(world.clear(&hook, MAIN), Ok(()));
    assert_eq!(values(&world), vec![Some(0), Some(0), Some(0)]);
}

#[test]
fn retain_excludes_storages() {
    let mut world = world_xy();
    world.add_custom_storage(Z, 5, MAIN);
    assert_eq!(
        world.retain_storage(EntityId(0), &vec![X, Z], &hook, MAIN),
        Ok(())
    );
    assert_eq!(values(&world), vec![Some(1), Some(9), Some(5)]);
    assert_eq!(world.retain(EntityId(0), Y, &hook, MAIN), Ok(()));
    assert_eq!(values(&world), vec![Some(0), Some(9), Some(4)]);
}

#[test]
fn delete_entity_tells_whether_a_storage_held_it() {
    let mut world = world_xy();
    assert!(world.delete_entity(EntityId(10), &hook, MAIN));
    assert_eq!(values(&world), vec![Some(0), Some(9)]);
    assert!(!world.delete_entity(EntityId(10), &hook, MAIN));
    assert_eq!(values(&world), vec![Some(0), Some(8)]);
    world.remove_unique(Y, &"y".to_string(), MAIN);
    world.add_unique(Y, 10, MAIN);
    world.all_storages(MAIN).unwrap();
    world.borrow(&vec![view(Y, true)], MAIN);
    assert!(!world.delete_entity(EntityId(10), &hook, MAIN));
    assert_eq!(values(&world), vec![Some(0), Some(10)]);
}

#[test]
fn custom_storage_is_found_by_its_id() {
    let mut world = world_xy();
    world.try_add_custom_storage(Z, 5, MAIN).unwrap();
    let storages = world.storages_ref();
    assert_eq!(storages.find(Z), Some(2));
    let slot = storages.custom_storage_by_id(Z).unwrap();
    assert_eq!(slot.id(), Z);
    assert_eq!(slot.value(), Some(5));
    assert!(storages.custom_storage_by_id(StorageId::Custom(8)).is_none());
}

#[test]
fn optional_view_of_a_storage_created_later_holds_nothing() {
    let mut world = world_xy();
    world.all_storages(MAIN).unwrap();
    let views = vec![
        ViewRequest {
            optional: true,
            ..view(Z, false)
        },
        component(Z, false),
    ];
    let shown = world.try_borrow(&views, MAIN).unwrap();
    assert_eq!(shown, vec![None, Some(100)]);
    world.release(&views, &shown, &vec![]);
    assert!(world.storages_ref().slot(2).can_borrow(true, MAIN).is_ok());
    assert_eq!(world.all_storages_mut(MAIN), Err(Borrow::Shared));
    world.release_all_storages(false);
    assert_eq!(world.all_storages_mut(MAIN), Ok(()));
}

#[test]
fn failed_borrow_keeps_the_borrows_of_others() {
    let mut world = world_xy();
    let mine = vec![view(X, false)];
    let shown = world.borrow(&mine, OTHER);
    assert_eq!(
        world.try_borrow(&vec![view(Y, true), view(X, false), view(X, true)], MAIN),
        Err(GetStorage::Borrow(Borrow::Shared))
    );
    assert_eq!(
        world.storages_ref().slot(0).can_borrow(true, MAIN),
        Err(Borrow::Shared)
    );
    assert!(world.storages_ref().slot(1).can_borrow(true, MAIN).is_ok());
    world.release(&mine, &shown, &vec![]);
    assert!(world.storages_ref().slot(0).can_borrow(true, MAIN).is_ok());
    assert_eq!(world.all_storages_mut(MAIN), Ok(()));
}

#[test]
fn without_the_pool_systems_run_one_by_one() {
    let mut world = world_xy();
    assert!(world.uses_pool());
    world.set_pool(false);
    assert!(!world.uses_pool());
    world
        .try_add_workload(
            "main".to_string(),
            vec![
                system("a", vec![view(X, true)], add_one),
                system("b", vec![view(Y, true)], add_one),
                system("c", vec![view(X, true)], double),
                system("d", vec![view(Y, true)], fail),
                system("e", vec![view(X, true)], double),
            ],
            MAIN,
        )
        .unwrap();
    assert_eq!(
        world.scheduler_ref().workload(0).parallel(),
        &vec![vec![0, 1], vec![2, 3], vec![4]]
    );
    assert_eq!(
        world.try_run_workload(&"main".to_string(), MAIN),
        Err(RunWorkload::Run(
            "d".to_string(),
            Run::User("refused".to_string())
        ))
    );
    assert_eq!(values(&world), vec![Some(4), Some(11)]);
    world.set_pool(true);
    assert_eq!(
        world.try_run_default(MAIN),
        Err(RunWorkload::Run(
            "d".to_string(),
            Run::User("refused".to_string())
        ))
    );
    assert_eq!(values(&world), vec![Some(10), Some(12)]);
}

#[test]
fn first_failure_of_a_batch_is_the_one_reported() {
    let mut world = world_xy();
    world.add_unique(Z, 0, MAIN);
    world
        .try_add_workload(
            "main".to_string(),
            vec![
                system("a", vec![view(X, true)], add_one),
                system("b", vec![view(Y, true)], fail),
                system("c", vec![view(Z, true)], fail),
            ],
            MAIN,
        )
        .unwrap();
    assert_eq!(
        world.scheduler_ref().workload(0).parallel(),
        &vec![vec![0, 1, 2]]
    );
    assert_eq!(
        world.try_run_workload(&"main".to_string(), MAIN),
        Err(RunWorkload::Run(
            "b".to_string(),
            Run::User("refused".to_string())
        ))
    );
    assert_eq!(values(&world), vec![Some(2), Some(10), Some(0)]);
}

#[test]
fn run_workload_and_run_default_run_what_cannot_fail() {
    let mut world = world_xy();
    world
        .try_add_workload(
            "main".to_string(),
            vec![
                system("a", vec![component(X, true)], add_one),
                system("b", vec![component(Y, true)], double),
            ],
            MAIN,
        )
        .unwrap();
    world.run_workload(&"main".to_string(), MAIN);
    world.run_default(MAIN);
    assert_eq!(values(&world), vec![Some(3), Some(40)]);
}

#[test]
fn two_views_coexist_exactly_when_their_descriptors_do_not_conflict() {
    let all = || ViewRequest {
        target: ViewTarget::AllStorages,
        name: "AllStorages".to_string(),
        exclusive: true,
        gate: Gate::Open,
        optional: false,
    };
    let candidates: Vec<fn() -> ViewRequest<u32>> = vec![
        || view(X, false),
        || view(X, true),
        || view(Y, false),
        || view(Y, true),
        || component(X, false),
        || component(Z, true),
        || component(Z, false),
    ];
    let mut pairs = 0;
    for first in &candidates {
        for second in &candidates {
            let mut world = world_xy();
            let together = world.try_borrow(&vec![first(), second()], MAIN);
            let conflict = conflicts(&first().descriptor(), &second().descriptor());
            assert_eq!(together.is_ok(), !conflict);
            if conflict {
                assert!(matches!(together, Err(GetStorage::Borrow(_))));
            }
            pairs += 1;
        }
        let mut world = world_xy();
        assert!(matches!(
            world.try_borrow(&vec![first(), all()], MAIN),
            Err(GetStorage::Borrow(Borrow::Shared))
        ));
        assert!(matches!(
            world.try_borrow(&vec![all(), first()], MAIN),
            Err(GetStorage::Borrow(Borrow::Unique))
        ));
        assert_eq!(world.all_storages_mut(MAIN), Ok(()));
    }
    assert_eq!(pairs, 49);
}

#[test]
fn unique_is_missing_once_it_was_removed() {
    let mut world = TestWorld::new();
    let id = StorageId::OfType(32);
    let writer = || {
        vec![ViewRequest {
            target: ViewTarget::Unique(id),
            name: "Unique<u32>".to_string(),
            exclusive: true,
            gate: Gate::Open,
            optional: false,
        }]
    };
    let increment = |mut x: Vec<Option<u32>>| {
        x[0] = Some(x[0].unwrap() + 1);
        (x, ())
    };
    world.add_unique(id, 0u32, MAIN);
    assert_eq!(world.try_run(increment, &writer(), MAIN), Ok(()));
    let reader = vec![ViewRequest {
        exclusive: false,
        ..view(id, false)
    }];
    assert_eq!(
        world.try_run(|x| (Vec::new(), x[0]), &reader, MAIN),
        Ok(Some(1))
    );
    assert_eq!(world.remove_unique(id, &"u32".to_string(), MAIN), 1);
    assert_eq!(
        world.try_run(increment, &writer(), MAIN),
        Err(Run::GetStorage(GetStorage::MissingStorage(
            "Unique<u32>".to_string()
        )))
    );
    assert_eq!(
        world.try_borrow(&reader, OTHER),
        Err(GetStorage::MissingStorage("OfType(32)".to_string()))
    );
}

#[test]
fn execute_hands_on_the_failure_of_the_function() {
    let mut world = world_xy();
    let bump = system("bump", vec![view(X, true), view(Y, false)], add_one);
    assert_eq!(world.execute(&bump, MAIN), Ok(()));
    assert_eq!(values(&world), vec![Some(2), Some(10)]);
    let refuse = system("refuse", vec![view(X, true)], fail);
    assert_eq!(
        world.execute(&refuse, MAIN),
        Err(Run::User("refused".to_string()))
    );
    assert_eq!(values(&world), vec![Some(2), Some(10)]);
    let lost = system("lost", vec![view(X, true), view(Z, false)], add_one);
    assert_eq!(
        world.execute(&lost, MAIN),
        Err(Run::GetStorage(GetStorage::MissingStorage(
            "Custom(3)".to_string()
        )))
    );
    assert_eq!(world.all_storages_mut(MAIN), Ok(()));
    assert!(world.storages_ref().slot(0).can_borrow(true, OTHER).is_ok());
}

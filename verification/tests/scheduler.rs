use ecs_core::scheduler::{
    all_exclusive, compile, conflicts, descriptor_sets_conflict, holds_all_exclusive,
    BorrowDescriptor, Mutability, Target, ThreadRequirement,
};
use ecs_core::storage::StorageId;

const X: StorageId = StorageId::OfType(1);
const Y: StorageId = StorageId::OfType(2);

fn read(id: StorageId) -> BorrowDescriptor {
    BorrowDescriptor {
        storage: Target::Storage(id),
        mutability: Mutability::Shared,
        thread: ThreadRequirement::Any,
    }
}

fn write(id: StorageId) -> BorrowDescriptor {
    BorrowDescriptor {
        storage: Target::Storage(id),
        mutability: Mutability::Exclusive,
        thread: ThreadRequirement::Any,
    }
}

fn all_storages_mut() -> BorrowDescriptor {
    BorrowDescriptor {
        storage: Target::AllStorages,
        mutability: Mutability::Exclusive,
        thread: ThreadRequirement::Any,
    }
}

fn pinned(d: BorrowDescriptor) -> BorrowDescriptor {
    BorrowDescriptor {
        thread: ThreadRequirement::RequiresMainThread,
        ..d
    }
}

#[test]
fn writer_then_reader_then_other_writer() {
    let plan = compile(&vec![vec![write(X)], vec![read(X)], vec![write(Y)]]);
    assert_eq!(plan.parallel, vec![vec![0], vec![1, 2]]);
    assert_eq!(plan.sequential, vec![0, 1, 2]);
}

#[test]
fn two_readers_then_writer() {
    let plan = compile(&vec![vec![read(X)], vec![read(X)], vec![write(X)]]);
    assert_eq!(plan.parallel, vec![vec![0, 1], vec![2]]);
    assert_eq!(plan.sequential, vec![0, 1, 2]);
}

#[test]
fn all_storages_runs_alone() {
    let plan = compile(&vec![vec![read(X)], vec![all_storages_mut()], vec![read(Y)]]);
    assert_eq!(plan.parallel, vec![vec![0], vec![1], vec![2]]);
}

#[test]
fn empty_workload_has_no_batch() {
    let plan = compile(&vec![]);
    assert_eq!(plan.parallel, Vec::<Vec<usize>>::new());
    assert_eq!(plan.sequential, Vec::<usize>::new());
}

#[test]
fn all_storages_first_opens_no_empty_batch() {
    let plan = compile(&vec![vec![all_storages_mut()], vec![read(X)]]);
    assert_eq!(plan.parallel, vec![vec![0], vec![1]]);
}

#[test]
fn system_without_views_joins_any_batch() {
    let plan = compile(&vec![vec![all_storages_mut()], vec![], vec![read(X)]]);
    assert_eq!(plan.parallel, vec![vec![0, 1], vec![2]]);
    let plan = compile(&vec![vec![], vec![all_storages_mut()]]);
    assert_eq!(plan.parallel, vec![vec![0], vec![1]]);
}

#[test]
fn one_main_thread_system_per_batch() {
    let plan = compile(&vec![
        vec![pinned(read(X))],
        vec![read(X)],
        vec![pinned(read(Y))],
        vec![read(Y)],
    ]);
    assert_eq!(plan.parallel, vec![vec![0, 1], vec![2, 3]]);
}

#[test]
fn conflict_with_any_member_of_the_batch_splits() {
    let plan = compile(&vec![
        vec![read(X), write(Y)],
        vec![read(X)],
        vec![read(X), read(Y)],
        vec![write(X)],
        vec![write(Y)],
    ]);
    assert_eq!(plan.parallel, vec![vec![0, 1], vec![2], vec![3, 4]]);
    assert_eq!(plan.sequential, vec![0, 1, 2, 3, 4]);
}

#[test]
fn batches_concatenate_to_program_order_and_members_are_compatible() {
    let systems = vec![
        vec![write(X)],
        vec![read(Y)],
        vec![read(X)],
        vec![all_storages_mut()],
        vec![read(Y), read(X)],
        vec![pinned(write(Y))],
        vec![pinned(read(X))],
    ];
    let plan = compile(&systems);
    let flat: Vec<usize> = plan.parallel.iter().flatten().copied().collect();
    assert_eq!(flat, vec![0, 1, 2, 3, 4, 5, 6]);
    assert_eq!(plan.parallel, vec![vec![0, 1], vec![2], vec![3], vec![4], vec![5], vec![6]]);
    for batch in &plan.parallel {
        assert!(!batch.is_empty());
        for a in batch {
            for b in batch {
                if a != b {
                    assert!(!descriptor_sets_conflict(&systems[*a], &systems[*b]));
                }
            }
        }
    }
    for k in 1..plan.parallel.len() {
        let first = plan.parallel[k][0];
        assert!(plan.parallel[k - 1]
            .iter()
            .any(|earlier| descriptor_sets_conflict(&systems[first], &systems[*earlier])));
    }
}

#[test]
fn conflict_relation() {
    assert!(!conflicts(&read(X), &read(X)));
    assert!(conflicts(&read(X), &write(X)));
    assert!(conflicts(&write(X), &read(X)));
    assert!(conflicts(&write(X), &write(X)));
    assert!(!conflicts(&write(X), &write(Y)));
    assert!(conflicts(&all_storages_mut(), &read(X)));
    assert!(conflicts(&read(Y), &all_storages_mut()));
    assert!(conflicts(&pinned(read(X)), &pinned(read(Y))));
    assert!(!conflicts(&pinned(read(X)), &read(Y)));
    assert!(!conflicts(&read(X), &read(Y)));
    let all_shared = BorrowDescriptor {
        mutability: Mutability::Shared,
        ..all_storages_mut()
    };
    assert!(!conflicts(&all_shared, &all_shared));
    assert!(!conflicts(&all_shared, &write(X)));
    assert!(all_exclusive(&all_storages_mut()));
    assert!(!all_exclusive(&all_shared));
    assert!(!all_exclusive(&write(X)));
    assert!(holds_all_exclusive(&vec![read(X), all_storages_mut()]));
    assert!(!holds_all_exclusive(&vec![read(X), write(Y)]));
    assert!(descriptor_sets_conflict(
        &vec![read(X), read(Y)],
        &vec![read(X), write(Y)]
    ));
    assert!(!descriptor_sets_conflict(&vec![read(X)], &vec![write(Y)]));
    assert!(!descriptor_sets_conflict(&vec![], &vec![all_storages_mut()]));
}

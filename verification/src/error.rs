//! Error values of every fallible operation of the crate.
use vstd::prelude::*;

verus! {

/// Why a borrow of a cell was refused.
#[derive(Clone, Copy, Debug, PartialEq, Eq, Structural)]
pub enum Borrow {
    /// At least one shared borrow is outstanding.
    Shared,
    /// An exclusive borrow is outstanding.
    Unique,
    /// The cell is pinned and the caller runs on another thread.
    WrongThread,
    /// The shared counter is at its maximum.
    CountOverflow,
}

/// Why a view could not be constructed.
#[derive(Debug, PartialEq, Eq)]
pub enum GetStorage {
    /// The slot map or the storage refused the borrow.
    Borrow(Borrow),
    /// The named storage does not exist or was drained.
    MissingStorage(String),
    /// A storage was borrowed while a bulk operation needed it.
    StorageBusy,
}

/// Why a unique value could not be removed.
#[derive(Debug, PartialEq, Eq)]
pub enum UniqueRemove {
    /// The slot map refused a shared borrow.
    AllStorages,
    /// The unique storage refused the exclusive borrow.
    StorageBorrow(String, Borrow),
    /// No unique value of that name is stored.
    MissingUnique(String),
}

/// Why the default workload could not be set.
#[derive(Debug, PartialEq, Eq)]
pub enum SetDefaultWorkload {
    /// The scheduler refused the exclusive borrow.
    Borrow,
    /// No workload of that name is installed.
    MissingWorkload(String),
}

/// Why a system did not run to completion.
#[derive(Debug, PartialEq, Eq)]
pub enum Run {
    /// A view of the system could not be constructed.
    GetStorage(GetStorage),
    /// The system's own function failed; its message is handed on unchanged.
    User(String),
}

/// Why a workload did not run to completion.
#[derive(Debug, PartialEq, Eq)]
pub enum RunWorkload {
    /// The scheduler refused the shared borrow.
    Scheduler,
    /// No workload of that name is installed.
    MissingWorkload(String),
    /// The named system failed; no later batch was started.
    Run(String, Run),
}

} // verus!

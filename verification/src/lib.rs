//! Verified core of an entity-component-system runtime.
//!
//! A world holds storages of components behind borrow cells and runs
//! systems on them: functions that declare which storages they read and
//! write. The crate proves how the borrows are arbitrated, how an ordered
//! list of systems is packed into batches of compatible systems, and what a
//! run of such batches leaves behind.
//!
//! - [`cell`]: the counting cell that grants shared and exclusive borrows
//!   and checks the calling thread.
//! - [`storage`]: the slot map, one cell per storage.
//! - [`scheduler`]: borrow descriptors, their conflict relation, and the
//!   compilation of descriptor sets into batches.
//! - [`view`]: the views of a system, constructed all or nothing.
//! - [`workload`]: systems, workloads and the scheduler that keeps them.
//! - [`run`]: the execution of a plan, batch by batch.
//! - [`coexist`]: why the members of a batch do not fail on each other's
//!   borrows.
//! - [`world`]: the facade over all of them.
//! - [`error`]: the error values.
pub mod error;
pub mod cell;
pub mod storage;
pub mod scheduler;
pub mod view;
pub mod workload;
pub mod run;
pub mod coexist;
pub mod world;

//! The world: the registry of storages and the scheduler, each behind its
//! own borrow cell, and the operations that go through both.
use vstd::prelude::*;
use crate::cell::{BorrowCell, CellState, ThreadId, ThreadReq};
use crate::error::{Borrow, GetStorage, Run, RunWorkload, SetDefaultWorkload, UniqueRemove};
use crate::run::{batches_of, callable, one_by_one, plan_ran, run_plan, run_sequence};
use crate::scheduler::plan_is_a_permutation;
use crate::storage::{
    accepts, busy_ids, drained, provided, skipping, swept, unique_removal, AllStorages, EntityId,
    StorageId,
};
use crate::view::{
    acquire_views, borrowed, marks, presence, registry, release_all, release_views, RegistryState,
    ViewRequest,
};
use crate::workload::{has_workload, workload_index, Scheduler, System, Workload};

verus! {

/// Holds all components and keeps track of the systems that run on them.
///
/// `T` is the type of a storage object, `F` the type of the functions of the
/// systems that workloads hold. The calling thread is an argument of every
/// operation that borrows.
pub struct World<T, F> {
    all_storages: BorrowCell<AllStorages<T>>,
    scheduler: BorrowCell<Scheduler<T, F>>,
    pool: bool,
}

impl<T: Copy, F: Fn(Vec<Option<T>>) -> Result<Vec<Option<T>>, String>> World<T, F> {
    /// The registry: the cell around the slot map, and the slots.
    pub closed spec fn storages(&self) -> RegistryState<T> {
        registry(&self.all_storages)
    }

    /// Counter and pin of the cell around the scheduler.
    pub closed spec fn scheduler_cell(&self) -> CellState {
        self.scheduler.state()
    }

    /// The scheduler.
    pub closed spec fn scheduler(&self) -> Scheduler<T, F> {
        self.scheduler.value()
    }

    /// Whether workloads run their batches on the pool of worker threads.
    pub closed spec fn pool_enabled(&self) -> bool {
        self.pool
    }

    /// Validity of both parts.
    pub open spec fn wf(&self) -> bool {
        &&& self.storages().wf()
        &&& self.scheduler_cell().wf()
        &&& self.scheduler().wf()
    }

    /// The registry once a storage was added on behalf of `thread`, and the
    /// outcome: the slot map is borrowed shared for the time of the call; a
    /// storage of that identity that is already stored stays as it is.
    pub open spec fn added(
        s: RegistryState<T>,
        id: StorageId,
        value: T,
        req: ThreadReq,
        thread: ThreadId,
    ) -> (RegistryState<T>, Result<(), Borrow>) {
        match s.cell.shared_outcome(thread) {
            Err(e) => (s, Err(e)),
            Ok(()) => (RegistryState { slots: provided(s.slots, id, value, req, thread), ..s }, Ok(())),
        }
    }

    /// A world without storages and without workloads; both cells are free
    /// and open to every thread.
    pub fn new() -> (world: Self)
        ensures
            world.wf(),
            world.storages() == (RegistryState::<T> { cell: CellState::free(), slots: Seq::empty() }),
            world.scheduler_cell() == CellState::free(),
            world.scheduler().workloads().len() == 0,
            world.pool_enabled(),
    {
        World {
            all_storages: BorrowCell::new(AllStorages::new()),
            scheduler: BorrowCell::new(Scheduler::new()),
            pool: true,
        }
    }

    /// Enables or disables the pool of worker threads. With the pool
    /// disabled, a workload runs its systems one by one on the calling
    /// thread, in program order.
    pub fn set_pool(&mut self, enabled: bool)
        ensures
            final(self).pool_enabled() == enabled,
            final(self).storages() == old(self).storages(),
            final(self).scheduler_cell() == old(self).scheduler_cell(),
            final(self).scheduler() == old(self).scheduler(),
    {
        self.pool = enabled;
    }

    /// Whether workloads run their batches on the pool of worker threads.
    pub fn uses_pool(&self) -> (enabled: bool)
        ensures
            enabled == self.pool_enabled(),
    {
        self.pool
    }

    /// Adds a storage with the given thread requirement.
    fn add_with(&mut self, id: StorageId, value: T, req: ThreadReq, thread: ThreadId) -> (r: Result<
        (),
        Borrow,
    >)
        requires
            old(self).wf(),
        ensures
            final(self).wf(),
            (final(self).storages(), r) == Self::added(old(self).storages(), id, value, req, thread),
            final(self).scheduler_cell() == old(self).scheduler_cell(),
            final(self).scheduler() == old(self).scheduler(),
            final(self).pool_enabled() == old(self).pool_enabled(),
    {
        match self.all_storages.can_borrow(false, thread) {
            Err(e) => Err(e),
            Ok(()) => {
                let storages = self.all_storages.get_mut();
                let _ = storages.get_or_create(id, value, req, thread);
                Ok(())
            },
        }
    }

    /// Adds a unique value that may move between threads and be shared.
    /// A unique value of that identity that is already stored stays.
    pub fn try_add_unique(&mut self, id: StorageId, component: T, thread: ThreadId) -> (r: Result<
        (),
        Borrow,
    >)
        requires
            old(self).wf(),
        ensures
            final(self).wf(),
            (final(self).storages(), r) == Self::added(
                old(self).storages(),
                id,
                component,
                ThreadReq::SendAndSync,
                thread,
            ),
            final(self).scheduler_cell() == old(self).scheduler_cell(),
            final(self).scheduler() == old(self).scheduler(),
            final(self).pool_enabled() == old(self).pool_enabled(),
    {
        self.add_with(id, component, ThreadReq::SendAndSync, thread)
    }

    /// `try_add_unique` for a caller who knows that the slot map grants a
    /// shared borrow.
    pub fn add_unique(&mut self, id: StorageId, component: T, thread: ThreadId)
        requires
            old(self).wf(),
            old(self).storages().cell.shared_outcome(thread) is Ok,
        ensures
            final(self).wf(),
            final(self).storages() == Self::added(
                old(self).storages(),
                id,
                component,
                ThreadReq::SendAndSync,
                thread,
            ).0,
            final(self).scheduler_cell() == old(self).scheduler_cell(),
            final(self).scheduler() == old(self).scheduler(),
            final(self).pool_enabled() == old(self).pool_enabled(),
    {
        let _ = self.add_with(id, component, ThreadReq::SendAndSync, thread);
    }

    /// Adds a unique value that may be shared but not move: exclusive
    /// borrows of it are pinned to the calling thread.
    pub fn try_add_unique_non_send(&mut self, id: StorageId, component: T, thread: ThreadId) -> (r:
        Result<(), Borrow>)
        requires
            old(self).wf(),
        ensures
            final(self).wf(),
            (final(self).storages(), r) == Self::added(
                old(self).storages(),
                id,
                component,
                ThreadReq::Sync,
                thread,
            ),
            final(self).scheduler_cell() == old(self).scheduler_cell(),
            final(self).scheduler() == old(self).scheduler(),
            final(self).pool_enabled() == old(self).pool_enabled(),
    {
        self.add_with(id, component, ThreadReq::Sync, thread)
    }

    /// `try_add_unique_non_send` for a caller who knows that the slot map
    /// grants a shared borrow.
    pub fn add_unique_non_send(&mut self, id: StorageId, component: T, thread: ThreadId)
        requires
            old(self).wf(),
            old(self).storages().cell.shared_outcome(thread) is Ok,
        ensures
            final(self).wf(),
            final(self).storages() == Self::added(
                old(self).storages(),
                id,
                component,
                ThreadReq::Sync,
                thread,
            ).0,
            final(self).scheduler_cell() == old(self).scheduler_cell(),
            final(self).scheduler() == old(self).scheduler(),
            final(self).pool_enabled() == old(self).pool_enabled(),
    {
        let _ = self.add_with(id, component, ThreadReq::Sync, thread);
    }

    /// Adds a unique value that may move between threads but not be shared.
    pub fn try_add_unique_non_sync(&mut self, id: StorageId, component: T, thread: ThreadId) -> (r:
        Result<(), Borrow>)
        requires
            old(self).wf(),
        ensures
            final(self).wf(),
            (final(self).storages(), r) == Self::added(
                old(self).storages(),
                id,
                component,
                ThreadReq::Send,
                thread,
            ),
            final(self).scheduler_cell() == old(self).scheduler_cell(),
            final(self).scheduler() == old(self).scheduler(),
            final(self).pool_enabled() == old(self).pool_enabled(),
    {
        self.add_with(id, component, ThreadReq::Send, thread)
    }

    /// `try_add_unique_non_sync` for a caller who knows that the slot map
    /// grants a shared borrow.
    pub fn add_unique_non_sync(&mut self, id: StorageId, component: T, thread: ThreadId)
        requires
            old(self).wf(),
            old(self).storages().cell.shared_outcome(thread) is Ok,
        ensures
            final(self).wf(),
            final(self).storages() == Self::added(
                old(self).storages(),
                id,
                component,
                ThreadReq::Send,
                thread,
            ).0,
            final(self).scheduler_cell() == old(self).scheduler_cell(),
            final(self).scheduler() == old(self).scheduler(),
            final(self).pool_enabled() == old(self).pool_enabled(),
    {
        let _ = self.add_with(id, component, ThreadReq::Send, thread);
    }

    /// Adds a unique value that may neither move nor be shared: every
    /// borrow of it is pinned to the calling thread.
    pub fn try_add_unique_non_send_sync(&mut self, id: StorageId, component: T, thread: ThreadId) -> (r:
        Result<(), Borrow>)
        requires
            old(self).wf(),
        ensures
            final(self).wf(),
            (final(self).storages(), r) == Self::added(
                old(self).storages(),
                id,
                component,
                ThreadReq::PinnedTo(thread),
                thread,
            ),
            final(self).scheduler_cell() == old(self).scheduler_cell(),
            final(self).scheduler() == old(self).scheduler(),
            final(self).pool_enabled() == old(self).pool_enabled(),
    {
        self.add_with(id, component, ThreadReq::PinnedTo(thread), thread)
    }

    /// `try_add_unique_non_send_sync` for a caller who knows that the slot
    /// map grants a shared borrow.
    pub fn add_unique_non_send_sync(&mut self, id: StorageId, component: T, thread: ThreadId)
        requires
            old(self).wf(),
            old(self).storages().cell.shared_outcome(thread) is Ok,
        ensures
            final(self).wf(),
            final(self).storages() == Self::added(
                old(self).storages(),
                id,
                component,
                ThreadReq::PinnedTo(thread),
                thread,
            ).0,
            final(self).scheduler_cell() == old(self).scheduler_cell(),
            final(self).scheduler() == old(self).scheduler(),
            final(self).pool_enabled() == old(self).pool_enabled(),
    {
        let _ = self.add_with(id, component, ThreadReq::PinnedTo(thread), thread);
    }

    /// Inserts a custom storage under the identity the caller chose. A
    /// storage of that identity that is already stored stays.
    pub fn try_add_custom_storage(&mut self, storage_id: StorageId, storage: T, thread: ThreadId) -> (r:
        Result<(), Borrow>)
        requires
            old(self).wf(),
        ensures
            final(self).wf(),
            (final(self).storages(), r) == Self::added(
                old(self).storages(),
                storage_id,
                storage,
                ThreadReq::SendAndSync,
                thread,
            ),
            final(self).scheduler_cell() == old(self).scheduler_cell(),
            final(self).scheduler() == old(self).scheduler(),
            final(self).pool_enabled() == old(self).pool_enabled(),
    {
        self.add_with(storage_id, storage, ThreadReq::SendAndSync, thread)
    }

    /// `try_add_custom_storage` for a caller who knows that the slot map
    /// grants a shared borrow.
    pub fn add_custom_storage(&mut self, storage_id: StorageId, storage: T, thread: ThreadId)
        requires
            old(self).wf(),
            old(self).storages().cell.shared_outcome(thread) is Ok,
        ensures
            final(self).wf(),
            final(self).storages() == Self::added(
                old(self).storages(),
                storage_id,
                storage,
                ThreadReq::SendAndSync,
                thread,
            ).0,
            final(self).scheduler_cell() == old(self).scheduler_cell(),
            final(self).scheduler() == old(self).scheduler(),
            final(self).pool_enabled() == old(self).pool_enabled(),
    {
        let _ = self.add_with(storage_id, storage, ThreadReq::SendAndSync, thread);
    }

    /// Outcome of the removal of a unique value: the slot map must grant a
    /// shared borrow, then the storage decides.
    pub open spec fn removal(
        s: RegistryState<T>,
        id: StorageId,
        name: String,
        thread: ThreadId,
    ) -> Result<T, UniqueRemove> {
        if s.cell.shared_outcome(thread) is Err {
            Err(UniqueRemove::AllStorages)
        } else {
            unique_removal(s.slots, id, name, thread)
        }
    }

    /// Removes a unique value and returns it. The slot stays, empty: until
    /// a value of that identity is added again, its views are missing.
    /// `name` is the name under which errors report the value.
    pub fn try_remove_unique(&mut self, id: StorageId, name: &String, thread: ThreadId) -> (r:
        Result<T, UniqueRemove>)
        requires
            old(self).wf(),
        ensures
            final(self).wf(),
            r == Self::removal(old(self).storages(), id, *name, thread),
            final(self).storages() == if r is Ok {
                RegistryState {
                    slots: drained(old(self).storages().slots, id),
                    ..old(self).storages()
                }
            } else {
                old(self).storages()
            },
            final(self).scheduler_cell() == old(self).scheduler_cell(),
            final(self).scheduler() == old(self).scheduler(),
            final(self).pool_enabled() == old(self).pool_enabled(),
    {
        match self.all_storages.can_borrow(false, thread) {
            Err(_) => Err(UniqueRemove::AllStorages),
            Ok(()) => {
                let storages = self.all_storages.get_mut();
                storages.try_remove_unique(id, name, thread)
            },
        }
    }

    /// `try_remove_unique` for a caller who knows that the value is stored
    /// and can be borrowed.
    pub fn remove_unique(&mut self, id: StorageId, name: &String, thread: ThreadId) -> (value: T)
        requires
            old(self).wf(),
            Self::removal(old(self).storages(), id, *name, thread) is Ok,
        ensures
            final(self).wf(),
            Ok::<T, UniqueRemove>(value) == Self::removal(old(self).storages(), id, *name, thread),
            final(self).storages() == (RegistryState {
                slots: drained(old(self).storages().slots, id),
                ..old(self).storages()
            }),
            final(self).scheduler_cell() == old(self).scheduler_cell(),
            final(self).scheduler() == old(self).scheduler(),
            final(self).pool_enabled() == old(self).pool_enabled(),
    {
        match self.try_remove_unique(id, name, thread) {
            Ok(value) => value,
            Err(_) => vstd::pervasive::unreached(),
        }
    }

    /// Constructs the requested views in declaration order, all or
    /// nothing, and returns what they show, one entry per view. Component
    /// storages that do not exist yet are created. The borrows stay out
    /// until `release` gives them back.
    pub fn try_borrow(&mut self, views: &Vec<ViewRequest<T>>, thread: ThreadId) -> (r: Result<
        Vec<Option<T>>,
        GetStorage,
    >)
        requires
            old(self).wf(),
        ensures
            final(self).wf(),
            final(self).storages() == borrowed(old(self).storages(), views@, thread).0,
            match borrowed(old(self).storages(), views@, thread).1 {
                Ok(data) => r is Ok && r.unwrap()@ == data,
                Err(e) => r == Err::<Vec<Option<T>>, GetStorage>(e),
            },
            final(self).scheduler_cell() == old(self).scheduler_cell(),
            final(self).scheduler() == old(self).scheduler(),
            final(self).pool_enabled() == old(self).pool_enabled(),
    {
        acquire_views(&mut self.all_storages, views, thread)
    }

    /// `try_borrow` for a caller who knows that every view can be constructed.
    pub fn borrow(&mut self, views: &Vec<ViewRequest<T>>, thread: ThreadId) -> (data: Vec<Option<T>>)
        requires
            old(self).wf(),
            borrowed(old(self).storages(), views@, thread).1 is Ok,
        ensures
            final(self).wf(),
            final(self).storages() == borrowed(old(self).storages(), views@, thread).0,
            Ok::<Seq<Option<T>>, GetStorage>(data@) == borrowed(
                old(self).storages(),
                views@,
                thread,
            ).1,
            final(self).scheduler_cell() == old(self).scheduler_cell(),
            final(self).scheduler() == old(self).scheduler(),
            final(self).pool_enabled() == old(self).pool_enabled(),
    {
        match acquire_views(&mut self.all_storages, views, thread) {
            Ok(data) => data,
            Err(_) => vstd::pervasive::unreached(),
        }
    }

    /// Gives back the borrows behind the views, the last view first.
    /// `shown` is what `try_borrow` returned for them. Each exclusive view
    /// leaves behind its entry of `writes`, if that is `Some`.
    pub fn release(
        &mut self,
        views: &Vec<ViewRequest<T>>,
        shown: &Vec<Option<T>>,
        writes: &Vec<Option<T>>,
    )
        requires
            old(self).wf(),
        ensures
            final(self).wf(),
            final(self).storages() == release_all(
                old(self).storages(),
                views@,
                marks(shown@),
                writes@,
                views@.len() as int,
            ),
            final(self).scheduler_cell() == old(self).scheduler_cell(),
            final(self).scheduler() == old(self).scheduler(),
            final(self).pool_enabled() == old(self).pool_enabled(),
    {
        let held = presence(shown);
        release_views(&mut self.all_storages, views, &held, writes, views.len());
    }

    /// Whether running a system with the given views can lead from
    /// registry `s` to registry `after` with result `r`: if the views cannot
    /// be constructed, their error is the result; otherwise the function
    /// ran on what the views show, and what it returned was left behind the
    /// exclusive views and handed on.
    pub open spec fn system_ran<Out>(
        s: RegistryState<T>,
        views: Seq<ViewRequest<T>>,
        thread: ThreadId,
        after: RegistryState<T>,
        r: Result<Out, Run>,
        returned: spec_fn(Vec<Option<T>>, (Vec<Option<T>>, Out)) -> bool,
    ) -> bool {
        match borrowed(s, views, thread).1 {
            Err(e) => r == Err::<Out, Run>(Run::GetStorage(e)) && after == borrowed(
                s,
                views,
                thread,
            ).0,
            Ok(data) => r is Ok && exists|input: Vec<Option<T>>, writes: Vec<Option<T>>|
                {
                    &&& input@ == data
                    &&& #[trigger] returned(input, (writes, r->Ok_0))
                    &&& after == release_all(
                        borrowed(s, views, thread).0,
                        views,
                        marks(data),
                        writes@,
                        views.len() as int,
                    )
                },
        }
    }

    /// Runs a system once: constructs its views, calls its function on what
    /// they show, leaves behind the exclusive views what the function
    /// returned for them, and gives the borrows back.
    pub fn try_run<Out, S: FnOnce(Vec<Option<T>>) -> (Vec<Option<T>>, Out)>(
        &mut self,
        s: S,
        views: &Vec<ViewRequest<T>>,
        thread: ThreadId,
    ) -> (r: Result<Out, Run>)
        requires
            old(self).wf(),
            forall|input: Vec<Option<T>>|
                borrowed(old(self).storages(), views@, thread).1 == Ok::<
                    Seq<Option<T>>,
                    GetStorage,
                >(input@) ==> call_requires(s, (input,)),
        ensures
            final(self).wf(),
            Self::system_ran(
                old(self).storages(),
                views@,
                thread,
                final(self).storages(),
                r,
                |input: Vec<Option<T>>, output: (Vec<Option<T>>, Out)|
                    call_ensures(s, (input,), output),
            ),
            final(self).scheduler_cell() == old(self).scheduler_cell(),
            final(self).scheduler() == old(self).scheduler(),
            final(self).pool_enabled() == old(self).pool_enabled(),
    {
        match acquire_views(&mut self.all_storages, views, thread) {
            Err(e) => Err(Run::GetStorage(e)),
            Ok(data) => {
                let ghost input = data;
                let held = presence(&data);
                let (writes, out) = s(data);
                release_views(&mut self.all_storages, views, &held, &writes, views.len());
                let ghost returned = |input: Vec<Option<T>>, output: (Vec<Option<T>>, Out)|
                    call_ensures(s, (input,), output);
                assert(returned(input, (writes, out)));
                Ok(out)
            },
        }
    }

    /// `try_run` for a caller who knows that every view can be constructed.
    pub fn run<Out, S: FnOnce(Vec<Option<T>>) -> (Vec<Option<T>>, Out)>(
        &mut self,
        s: S,
        views: &Vec<ViewRequest<T>>,
        thread: ThreadId,
    ) -> (out: Out)
        requires
            old(self).wf(),
            forall|input: Vec<Option<T>>|
                borrowed(old(self).storages(), views@, thread).1 == Ok::<
                    Seq<Option<T>>,
                    GetStorage,
                >(input@) ==> call_requires(s, (input,)),
            borrowed(old(self).storages(), views@, thread).1 is Ok,
        ensures
            final(self).wf(),
            Self::system_ran(
                old(self).storages(),
                views@,
                thread,
                final(self).storages(),
                Ok::<Out, Run>(out),
                |input: Vec<Option<T>>, output: (Vec<Option<T>>, Out)|
                    call_ensures(s, (input,), output),
            ),
            final(self).scheduler_cell() == old(self).scheduler_cell(),
            final(self).scheduler() == old(self).scheduler(),
            final(self).pool_enabled() == old(self).pool_enabled(),
    {
        let data = self.borrow(views, thread);
        let ghost input = data;
        let held = presence(&data);
        let (writes, out) = s(data);
        release_views(&mut self.all_storages, views, &held, &writes, views.len());
        let ghost returned = |input: Vec<Option<T>>, output: (Vec<Option<T>>, Out)|
            call_ensures(s, (input,), output);
        assert(returned(input, (writes, out)));
        out
    }

    /// `try_run` for a system that takes one more argument.
    pub fn try_run_with_data<Data, Out, S: FnOnce(Data, Vec<Option<T>>) -> (Vec<Option<T>>, Out)>(
        &mut self,
        s: S,
        data: Data,
        views: &Vec<ViewRequest<T>>,
        thread: ThreadId,
    ) -> (r: Result<Out, Run>)
        requires
            old(self).wf(),
            forall|input: Vec<Option<T>>|
                borrowed(old(self).storages(), views@, thread).1 == Ok::<
                    Seq<Option<T>>,
                    GetStorage,
                >(input@) ==> call_requires(s, (data, input)),
        ensures
            final(self).wf(),
            Self::system_ran(
                old(self).storages(),
                views@,
                thread,
                final(self).storages(),
                r,
                |input: Vec<Option<T>>, output: (Vec<Option<T>>, Out)|
                    call_ensures(s, (data, input), output),
            ),
            final(self).scheduler_cell() == old(self).scheduler_cell(),
            final(self).scheduler() == old(self).scheduler(),
            final(self).pool_enabled() == old(self).pool_enabled(),
    {
        match acquire_views(&mut self.all_storages, views, thread) {
            Err(e) => Err(Run::GetStorage(e)),
            Ok(shown) => {
                let ghost input = shown;
                let held = presence(&shown);
                let (writes, out) = s(data, shown);
                release_views(&mut self.all_storages, views, &held, &writes, views.len());
                let ghost returned = |input: Vec<Option<T>>, output: (Vec<Option<T>>, Out)|
                    call_ensures(s, (data, input), output);
                assert(returned(input, (writes, out)));
                Ok(out)
            },
        }
    }

    /// `try_run_with_data` for a caller who knows that every view can be
    /// constructed.
    pub fn run_with_data<Data, Out, S: FnOnce(Data, Vec<Option<T>>) -> (Vec<Option<T>>, Out)>(
        &mut self,
        s: S,
        data: Data,
        views: &Vec<ViewRequest<T>>,
        thread: ThreadId,
    ) -> (out: Out)
        requires
            old(self).wf(),
            forall|input: Vec<Option<T>>|
                borrowed(old(self).storages(), views@, thread).1 == Ok::<
                    Seq<Option<T>>,
                    GetStorage,
                >(input@) ==> call_requires(s, (data, input)),
            borrowed(old(self).storages(), views@, thread).1 is Ok,
        ensures
            final(self).wf(),
            Self::system_ran(
                old(self).storages(),
                views@,
                thread,
                final(self).storages(),
                Ok::<Out, Run>(out),
                |input: Vec<Option<T>>, output: (Vec<Option<T>>, Out)|
                    call_ensures(s, (data, input), output),
            ),
            final(self).scheduler_cell() == old(self).scheduler_cell(),
            final(self).scheduler() == old(self).scheduler(),
            final(self).pool_enabled() == old(self).pool_enabled(),
    {
        let shown = self.borrow(views, thread);
        let ghost input = shown;
        let held = presence(&shown);
        let (writes, out) = s(data, shown);
        release_views(&mut self.all_storages, views, &held, &writes, views.len());
        let ghost returned = |input: Vec<Option<T>>, output: (Vec<Option<T>>, Out)|
            call_ensures(s, (data, input), output);
        assert(returned(input, (writes, out)));
        out
    }

    /// Whether executing `system` can lead from registry `s` to registry
    /// `after` with result `r`: if the views cannot be constructed, their
    /// error is the result; otherwise the system's function ran on what the
    /// views show, what it returned was left behind the exclusive views,
    /// and where it failed, its message is the result.
    pub open spec fn executed(
        s: RegistryState<T>,
        system: System<T, F>,
        thread: ThreadId,
        after: RegistryState<T>,
        r: Result<(), Run>,
    ) -> bool {
        match borrowed(s, system.views@, thread).1 {
            Err(e) => r == Err::<(), Run>(Run::GetStorage(e)) && after == borrowed(
                s,
                system.views@,
                thread,
            ).0,
            Ok(data) => exists|input: Vec<Option<T>>, output: Result<Vec<Option<T>>, String>|
                {
                    &&& input@ == data
                    &&& #[trigger] call_ensures(system.run, (input,), output)
                    &&& after == release_all(
                        borrowed(s, system.views@, thread).0,
                        system.views@,
                        marks(data),
                        match output {
                            Ok(writes) => writes@,
                            Err(_) => Seq::empty(),
                        },
                        system.views@.len() as int,
                    )
                    &&& r == match output {
                        Ok(_) => Ok::<(), Run>(()),
                        Err(message) => Err::<(), Run>(Run::User(message)),
                    }
                },
        }
    }

    /// Executes a system as a workload does: constructs its views, calls
    /// its function on what they show, leaves behind the exclusive views
    /// what the function returned for them, and gives the borrows back. The
    /// function's own failure is handed on unchanged.
    pub fn execute(&mut self, system: &System<T, F>, thread: ThreadId) -> (r: Result<(), Run>)
        requires
            old(self).wf(),
            system.wf(),
        ensures
            final(self).wf(),
            Self::executed(old(self).storages(), *system, thread, final(self).storages(), r),
            final(self).scheduler_cell() == old(self).scheduler_cell(),
            final(self).scheduler() == old(self).scheduler(),
            final(self).pool_enabled() == old(self).pool_enabled(),
    {
        match acquire_views(&mut self.all_storages, &system.views, thread) {
            Err(e) => Err(Run::GetStorage(e)),
            Ok(data) => {
                let ghost input = data;
                let held = presence(&data);
                let output = system.invoke(data);
                assert(call_ensures(system.run, (input,), output));
                match output {
                    Ok(writes) => {
                        release_views(
                            &mut self.all_storages,
                            &system.views,
                            &held,
                            &writes,
                            system.views.len(),
                        );
                        Ok(())
                    },
                    Err(message) => {
                        let none: Vec<Option<T>> = Vec::new();
                        assert(none@ =~= Seq::<Option<T>>::empty());
                        release_views(
                            &mut self.all_storages,
                            &system.views,
                            &held,
                            &none,
                            system.views.len(),
                        );
                        Err(Run::User(message))
                    },
                }
            },
        }
    }

    /// Borrows the slot map shared. `release_all_storages` gives the
    /// borrow back; `storages_ref` reads the slot map.
    pub fn all_storages(&mut self, thread: ThreadId) -> (r: Result<(), Borrow>)
        requires
            old(self).wf(),
        ensures
            final(self).wf(),
            r == old(self).storages().cell.shared_outcome(thread),
            final(self).storages() == if r is Ok {
                RegistryState {
                    cell: old(self).storages().cell.granted(false),
                    ..old(self).storages()
                }
            } else {
                old(self).storages()
            },
            final(self).scheduler_cell() == old(self).scheduler_cell(),
            final(self).scheduler() == old(self).scheduler(),
            final(self).pool_enabled() == old(self).pool_enabled(),
    {
        self.all_storages.try_borrow(thread)
    }

    /// Borrows the slot map exclusively.
    pub fn all_storages_mut(&mut self, thread: ThreadId) -> (r: Result<(), Borrow>)
        requires
            old(self).wf(),
        ensures
            final(self).wf(),
            r == old(self).storages().cell.exclusive_outcome(thread),
            final(self).storages() == if r is Ok {
                RegistryState {
                    cell: old(self).storages().cell.granted(true),
                    ..old(self).storages()
                }
            } else {
                old(self).storages()
            },
            final(self).scheduler_cell() == old(self).scheduler_cell(),
            final(self).scheduler() == old(self).scheduler(),
            final(self).pool_enabled() == old(self).pool_enabled(),
    {
        self.all_storages.try_borrow_mut(thread)
    }

    /// Gives back a borrow of the slot map.
    pub fn release_all_storages(&mut self, exclusive: bool)
        requires
            old(self).wf(),
        ensures
            final(self).wf(),
            final(self).storages() == (RegistryState {
                cell: old(self).storages().cell.given_back(exclusive),
                ..old(self).storages()
            }),
            final(self).scheduler_cell() == old(self).scheduler_cell(),
            final(self).scheduler() == old(self).scheduler(),
            final(self).pool_enabled() == old(self).pool_enabled(),
    {
        if exclusive {
            self.all_storages.release_mut();
        } else {
            self.all_storages.release();
        }
    }

    /// Reads the slot map.
    pub fn storages_ref(&self) -> (storages: &AllStorages<T>)
        ensures
            storages@ == self.storages().slots,
    {
        self.all_storages.get()
    }

    /// Borrows the scheduler, as a system does that runs within a workload
    /// or installs one.
    pub fn borrow_scheduler(&mut self, exclusive: bool, thread: ThreadId) -> (r: Result<(), Borrow>)
        requires
            old(self).wf(),
        ensures
            final(self).wf(),
            r == old(self).scheduler_cell().outcome(exclusive, thread),
            final(self).scheduler_cell() == if r is Ok {
                old(self).scheduler_cell().granted(exclusive)
            } else {
                old(self).scheduler_cell()
            },
            final(self).storages() == old(self).storages(),
            final(self).scheduler() == old(self).scheduler(),
            final(self).pool_enabled() == old(self).pool_enabled(),
    {
        if exclusive {
            self.scheduler.try_borrow_mut(thread)
        } else {
            self.scheduler.try_borrow(thread)
        }
    }

    /// Gives back a borrow of the scheduler.
    pub fn release_scheduler(&mut self, exclusive: bool)
        requires
            old(self).wf(),
        ensures
            final(self).wf(),
            final(self).scheduler_cell() == old(self).scheduler_cell().given_back(exclusive),
            final(self).storages() == old(self).storages(),
            final(self).scheduler() == old(self).scheduler(),
            final(self).pool_enabled() == old(self).pool_enabled(),
    {
        if exclusive {
            self.scheduler.release_mut();
        } else {
            self.scheduler.release();
        }
    }

    /// Reads the scheduler.
    pub fn scheduler_ref(&self) -> (scheduler: &Scheduler<T, F>)
        ensures
            *scheduler == self.scheduler(),
    {
        self.scheduler.get()
    }

    /// Compiles an ordered list of systems into a workload and installs it
    /// under `name`; a workload of that name is replaced. The scheduler is
    /// borrowed exclusively for the time of the call.
    pub fn try_add_workload(&mut self, name: String, systems: Vec<System<T, F>>, thread: ThreadId) -> (r:
        Result<(), Borrow>)
        requires
            old(self).wf(),
            forall|i: int| 0 <= i < systems@.len() ==> (#[trigger] systems@[i]).wf(),
        ensures
            final(self).wf(),
            r == old(self).scheduler_cell().exclusive_outcome(thread),
            final(self).storages() == old(self).storages(),
            final(self).scheduler_cell() == old(self).scheduler_cell(),
            final(self).pool_enabled() == old(self).pool_enabled(),
            r is Err ==> final(self).scheduler() == old(self).scheduler(),
            r is Ok ==> has_workload(final(self).scheduler().workloads(), name@) && ({
                let installed = final(self).scheduler().workloads()[workload_index(
                    final(self).scheduler().workloads(),
                    name@,
                )];
                &&& installed.wf()
                &&& installed.name_of() == name
                &&& installed.systems_of() == systems@
                &&& final(self).scheduler().workloads() == if has_workload(
                    old(self).scheduler().workloads(),
                    name@,
                ) {
                    old(self).scheduler().workloads().update(
                        workload_index(old(self).scheduler().workloads(), name@),
                        installed,
                    )
                } else {
                    old(self).scheduler().workloads().push(installed)
                }
                &&& final(self).scheduler().default_index() == old(self).scheduler().default_index()
            }),
    {
        match self.scheduler.can_borrow(true, thread) {
            Err(e) => Err(e),
            Ok(()) => {
                let workload = Workload::new(name, systems);
                let ghost before = self.scheduler().workloads();
                let scheduler = self.scheduler.get_mut();
                scheduler.install(workload);
                proof {
                    let after = self.scheduler().workloads();
                    if has_workload(before, name@) {
                        let i = workload_index(before, name@);
                        assert(after[i].name_of()@ == name@);
                    } else {
                        assert(after[before.len() as int].name_of()@ == name@);
                    }
                    let at = workload_index(after, name@);
                    assert(after[at].name_of()@ == name@);
                    assert(after[at] == workload);
                }
                Ok(())
            },
        }
    }

    /// Outcome of the choice of a default workload.
    pub open spec fn default_choice(&self, name: String, thread: ThreadId) -> Result<
        (),
        SetDefaultWorkload,
    > {
        if self.scheduler_cell().exclusive_outcome(thread) is Err {
            Err(SetDefaultWorkload::Borrow)
        } else if has_workload(self.scheduler().workloads(), name@) {
            Ok(())
        } else {
            Err(SetDefaultWorkload::MissingWorkload(name))
        }
    }

    /// Makes the workload named `name` the default. The scheduler is
    /// borrowed exclusively for the time of the call.
    pub fn try_set_default_workload(&mut self, name: String, thread: ThreadId) -> (r: Result<
        (),
        SetDefaultWorkload,
    >)
        requires
            old(self).wf(),
        ensures
            final(self).wf(),
            r == old(self).default_choice(name, thread),
            final(self).storages() == old(self).storages(),
            final(self).scheduler_cell() == old(self).scheduler_cell(),
            final(self).pool_enabled() == old(self).pool_enabled(),
            final(self).scheduler().workloads() == old(self).scheduler().workloads(),
            final(self).scheduler().default_index() == if r is Ok {
                workload_index(old(self).scheduler().workloads(), name@)
            } else {
                old(self).scheduler().default_index()
            },
    {
        match self.scheduler.can_borrow(true, thread) {
            Err(_) => Err(SetDefaultWorkload::Borrow),
            Ok(()) => {
                let scheduler = self.scheduler.get_mut();
                scheduler.set_default(name)
            },
        }
    }

    /// `try_set_default_workload` for a caller who knows that the workload
    /// is installed and the scheduler free.
    pub fn set_default_workload(&mut self, name: String, thread: ThreadId)
        requires
            old(self).wf(),
            old(self).default_choice(name, thread) is Ok,
        ensures
            final(self).wf(),
            final(self).storages() == old(self).storages(),
            final(self).scheduler_cell() == old(self).scheduler_cell(),
            final(self).pool_enabled() == old(self).pool_enabled(),
            final(self).scheduler().workloads() == old(self).scheduler().workloads(),
            final(self).scheduler().default_index() == workload_index(
                old(self).scheduler().workloads(),
                name@,
            ),
    {
        let _ = self.try_set_default_workload(name, thread);
    }

    /// Whether running the workload at `index` can lead from registry `s`
    /// to registry `after` with result `r`.
    pub open spec fn workload_ran(
        &self,
        index: int,
        thread: ThreadId,
        after: RegistryState<T>,
        r: Result<(), RunWorkload>,
    ) -> bool {
        plan_ran(
            self.storages(),
            self.scheduler().workloads()[index].systems_of(),
            if self.pool_enabled() {
                batches_of(self.scheduler().workloads()[index].plan_of())
            } else {
                one_by_one(self.scheduler().workloads()[index].sequence_of())
            },
            thread,
            after,
            r,
        )
    }

    /// Runs the batches of the workload at `index`.
    fn try_run_workload_index(&mut self, index: usize, thread: ThreadId) -> (r: Result<
        (),
        RunWorkload,
    >) where T: Send + Sync, F: Sync
        requires
            old(self).wf(),
            index < old(self).scheduler().workloads().len(),
        ensures
            final(self).wf(),
            old(self).workload_ran(index as int, thread, final(self).storages(), r),
            final(self).scheduler_cell() == old(self).scheduler_cell(),
            final(self).scheduler() == old(self).scheduler(),
            final(self).pool_enabled() == old(self).pool_enabled(),
    {
        let workload = self.scheduler.get().workload(index);
        proof {
            plan_is_a_permutation(workload.descriptors_of(), workload.plan_of());
            assert forall|k: int| 0 <= k < workload.plan_of().len() implies callable(
                workload.systems_of(),
                (#[trigger] workload.plan_of()[k])@,
            ) by {
                assert forall|p: int| 0 <= p < workload.plan_of()[k]@.len() implies (
                #[trigger] workload.plan_of()[k]@[p]) < workload.systems_of().len()
                    && workload.systems_of()[workload.plan_of()[k]@[p] as int].wf() by {
                    assert(0 <= crate::scheduler::member(workload.plan_of(), k, p)
                        < workload.descriptors_of().len());
                }
            }
        }
        if self.pool {
            run_plan(&mut self.all_storages, workload.systems(), workload.parallel(), thread)
        } else {
            proof {
                assert forall|p: int| 0 <= p < workload.sequence_of().len() implies (
                #[trigger] workload.sequence_of()[p]) < workload.systems_of().len()
                    && workload.systems_of()[workload.sequence_of()[p] as int].wf() by {}
            }
            run_sequence(&mut self.all_storages, workload.systems(), workload.sequential(), thread)
        }
    }

    /// Runs the workload named `name`: batch after batch, the members of a
    /// batch side by side. The scheduler is borrowed shared for the time of
    /// the run. The first failure ends the run and is returned under the
    /// name of the system that failed.
    pub fn try_run_workload(&mut self, name: &String, thread: ThreadId) -> (r: Result<
        (),
        RunWorkload,
    >) where T: Send + Sync, F: Sync
        requires
            old(self).wf(),
        ensures
            final(self).wf(),
            final(self).scheduler_cell() == old(self).scheduler_cell(),
            final(self).scheduler() == old(self).scheduler(),
            final(self).pool_enabled() == old(self).pool_enabled(),
            if old(self).scheduler_cell().shared_outcome(thread) is Err {
                r == Err::<(), RunWorkload>(RunWorkload::Scheduler) && final(self).storages()
                    == old(self).storages()
            } else if !has_workload(old(self).scheduler().workloads(), name@) {
                r == Err::<(), RunWorkload>(RunWorkload::MissingWorkload(*name))
                    && final(self).storages() == old(self).storages()
            } else {
                old(self).workload_ran(
                    workload_index(old(self).scheduler().workloads(), name@),
                    thread,
                    final(self).storages(),
                    r,
                )
            },
    {
        match self.scheduler.can_borrow(false, thread) {
            Err(_) => Err(RunWorkload::Scheduler),
            Ok(()) => {
                match self.scheduler.get().find(name) {
                    None => Err(RunWorkload::MissingWorkload(name.clone())),
                    Some(index) => {
                        let _ = self.scheduler.try_borrow(thread);
                        let r = self.try_run_workload_index(index, thread);
                        self.scheduler.release();
                        r
                    },
                }
            },
        }
    }

    /// `try_run_workload` for a caller who knows that the workload is
    /// installed, that the scheduler grants a shared borrow, and that no
    /// run of the workload can fail.
    pub fn run_workload(&mut self, name: &String, thread: ThreadId) where T: Send + Sync, F: Sync
        requires
            old(self).wf(),
            old(self).scheduler_cell().shared_outcome(thread) is Ok,
            has_workload(old(self).scheduler().workloads(), name@),
            forall|after: RegistryState<T>, r: Result<(), RunWorkload>| #[trigger]
                old(self).workload_ran(
                    workload_index(old(self).scheduler().workloads(), name@),
                    thread,
                    after,
                    r,
                ) ==> r is Ok,
        ensures
            final(self).wf(),
            final(self).scheduler_cell() == old(self).scheduler_cell(),
            final(self).scheduler() == old(self).scheduler(),
            final(self).pool_enabled() == old(self).pool_enabled(),
            old(self).workload_ran(
                workload_index(old(self).scheduler().workloads(), name@),
                thread,
                final(self).storages(),
                Ok(()),
            ),
    {
        match self.try_run_workload(name, thread) {
            Ok(()) => {},
            Err(_) => vstd::pervasive::unreached(),
        }
    }

    /// `try_run_default` for a caller who knows that the scheduler grants a
    /// shared borrow and that no run of the default workload can fail.
    pub fn run_default(&mut self, thread: ThreadId) where T: Send + Sync, F: Sync
        requires
            old(self).wf(),
            old(self).scheduler_cell().shared_outcome(thread) is Ok,
            forall|after: RegistryState<T>, r: Result<(), RunWorkload>| #[trigger]
                old(self).workload_ran(old(self).scheduler().default_index(), thread, after, r)
                    ==> r is Ok,
        ensures
            final(self).wf(),
            final(self).scheduler_cell() == old(self).scheduler_cell(),
            final(self).scheduler() == old(self).scheduler(),
            final(self).pool_enabled() == old(self).pool_enabled(),
            if old(self).scheduler().workloads().len() == 0 {
                final(self).storages() == old(self).storages()
            } else {
                old(self).workload_ran(
                    old(self).scheduler().default_index(),
                    thread,
                    final(self).storages(),
                    Ok(()),
                )
            },
    {
        match self.try_run_default(thread) {
            Ok(()) => {},
            Err(_) => vstd::pervasive::unreached(),
        }
    }

    /// Runs the default workload, if any workload is installed.
    pub fn try_run_default(&mut self, thread: ThreadId) -> (r: Result<(), RunWorkload>) where
        T: Send + Sync,
        F: Sync,

        requires
            old(self).wf(),
        ensures
            final(self).wf(),
            final(self).scheduler_cell() == old(self).scheduler_cell(),
            final(self).scheduler() == old(self).scheduler(),
            final(self).pool_enabled() == old(self).pool_enabled(),
            if old(self).scheduler_cell().shared_outcome(thread) is Err {
                r == Err::<(), RunWorkload>(RunWorkload::Scheduler) && final(self).storages()
                    == old(self).storages()
            } else if old(self).scheduler().workloads().len() == 0 {
                r == Ok::<(), RunWorkload>(()) && final(self).storages() == old(self).storages()
            } else {
                old(self).workload_ran(
                    old(self).scheduler().default_index(),
                    thread,
                    final(self).storages(),
                    r,
                )
            },
    {
        match self.scheduler.can_borrow(false, thread) {
            Err(_) => Err(RunWorkload::Scheduler),
            Ok(()) => {
                if self.scheduler.get().is_empty() {
                    Ok(())
                } else {
                    let index = self.scheduler.get().default_workload();
                    let _ = self.scheduler.try_borrow(thread);
                    let r = self.try_run_workload_index(index, thread);
                    self.scheduler.release();
                    r
                }
            },
        }
    }

    /// Applies the storages' hook for `entity` to every storage but the
    /// excluded ones. Borrowed storages are passed over.
    fn sweep<H: Fn(T, Option<EntityId>) -> (T, bool)>(
        &mut self,
        hook: &H,
        entity: Option<EntityId>,
        excluded: &Vec<StorageId>,
        thread: ThreadId,
    ) -> (r: (Vec<StorageId>, bool))
        requires
            old(self).wf(),
            accepts(hook, entity, excluded@, thread, old(self).storages().slots),
        ensures
            final(self).wf(),
            final(self).storages().cell == old(self).storages().cell,
            swept(
                hook,
                entity,
                excluded@,
                thread,
                old(self).storages().slots,
                final(self).storages().slots,
                r.1,
            ),
            r.0@ == busy_ids(
                skipping(old(self).storages().slots, excluded@),
                thread,
                old(self).storages().slots.len() as int,
            ),
            final(self).scheduler_cell() == old(self).scheduler_cell(),
            final(self).scheduler() == old(self).scheduler(),
            final(self).pool_enabled() == old(self).pool_enabled(),
    {
        let storages = self.all_storages.get_mut();
        storages.for_each_storage(hook, entity, excluded, thread)
    }

    /// Deletes an entity from every storage: `hook` is called on each
    /// storage object with the entity and tells whether the storage held
    /// it. Borrowed storages are passed over. Returns whether any storage
    /// held the entity.
    pub fn delete_entity<H: Fn(T, Option<EntityId>) -> (T, bool)>(
        &mut self,
        entity: EntityId,
        hook: &H,
        thread: ThreadId,
    ) -> (alive: bool)
        requires
            old(self).wf(),
            accepts(hook, Some(entity), Seq::empty(), thread, old(self).storages().slots),
        ensures
            final(self).wf(),
            final(self).storages().cell == old(self).storages().cell,
            swept(
                hook,
                Some(entity),
                Seq::empty(),
                thread,
                old(self).storages().slots,
                final(self).storages().slots,
                alive,
            ),
            final(self).scheduler_cell() == old(self).scheduler_cell(),
            final(self).scheduler() == old(self).scheduler(),
            final(self).pool_enabled() == old(self).pool_enabled(),
    {
        let none: Vec<StorageId> = Vec::new();
        assert(none@ =~= Seq::<StorageId>::empty());
        let (_, alive) = self.sweep(hook, Some(entity), &none, thread);
        alive
    }

    /// What a bulk operation reports that found the storages `busy` borrowed.
    pub open spec fn busy_report(busy: Seq<StorageId>) -> Result<(), GetStorage> {
        if busy.len() == 0 {
            Ok(())
        } else {
            Err(GetStorage::StorageBusy)
        }
    }

    /// Strips an entity of all its components, in every storage. Borrowed
    /// storages are passed over and make the result `StorageBusy`.
    pub fn strip<H: Fn(T, Option<EntityId>) -> (T, bool)>(
        &mut self,
        entity: EntityId,
        hook: &H,
        thread: ThreadId,
    ) -> (r: Result<(), GetStorage>)
        requires
            old(self).wf(),
            accepts(hook, Some(entity), Seq::empty(), thread, old(self).storages().slots),
        ensures
            final(self).wf(),
            final(self).storages().cell == old(self).storages().cell,
            exists|any: bool| #[trigger]
                swept(
                    hook,
                    Some(entity),
                    Seq::empty(),
                    thread,
                    old(self).storages().slots,
                    final(self).storages().slots,
                    any,
                ),
            r == Self::busy_report(
                busy_ids(
                    skipping(old(self).storages().slots, Seq::empty()),
                    thread,
                    old(self).storages().slots.len() as int,
                ),
            ),
            final(self).scheduler_cell() == old(self).scheduler_cell(),
            final(self).scheduler() == old(self).scheduler(),
            final(self).pool_enabled() == old(self).pool_enabled(),
    {
        let none: Vec<StorageId> = Vec::new();
        assert(none@ =~= Seq::<StorageId>::empty());
        let (busy, _) = self.sweep(hook, Some(entity), &none, thread);
        if busy.len() == 0 {
            Ok(())
        } else {
            Err(GetStorage::StorageBusy)
        }
    }

    /// Strips an entity of its components in every storage but the
    /// excluded ones. Borrowed storages are passed over and make the result
    /// `StorageBusy`.
    pub fn retain_storage<H: Fn(T, Option<EntityId>) -> (T, bool)>(
        &mut self,
        entity: EntityId,
        excluded_storage: &Vec<StorageId>,
        hook: &H,
        thread: ThreadId,
    ) -> (r: Result<(), GetStorage>)
        requires
            old(self).wf(),
            accepts(hook, Some(entity), excluded_storage@, thread, old(self).storages().slots),
        ensures
            final(self).wf(),
            final(self).storages().cell == old(self).storages().cell,
            exists|any: bool| #[trigger]
                swept(
                    hook,
                    Some(entity),
                    excluded_storage@,
                    thread,
                    old(self).storages().slots,
                    final(self).storages().slots,
                    any,
                ),
            r == Self::busy_report(
                busy_ids(
                    skipping(old(self).storages().slots, excluded_storage@),
                    thread,
                    old(self).storages().slots.len() as int,
                ),
            ),
            final(self).scheduler_cell() == old(self).scheduler_cell(),
            final(self).scheduler() == old(self).scheduler(),
            final(self).pool_enabled() == old(self).pool_enabled(),
    {
        let (busy, _) = self.sweep(hook, Some(entity), excluded_storage, thread);
        if busy.len() == 0 {
            Ok(())
        } else {
            Err(GetStorage::StorageBusy)
        }
    }

    /// Strips an entity of its components in every storage but the one of
    /// identity `kept`.
    pub fn retain<H: Fn(T, Option<EntityId>) -> (T, bool)>(
        &mut self,
        entity: EntityId,
        kept: StorageId,
        hook: &H,
        thread: ThreadId,
    ) -> (r: Result<(), GetStorage>)
        requires
            old(self).wf(),
            accepts(hook, Some(entity), seq![kept], thread, old(self).storages().slots),
        ensures
            final(self).wf(),
            final(self).storages().cell == old(self).storages().cell,
            exists|any: bool| #[trigger]
                swept(
                    hook,
                    Some(entity),
                    seq![kept],
                    thread,
                    old(self).storages().slots,
                    final(self).storages().slots,
                    any,
                ),
            r == Self::busy_report(
                busy_ids(
                    skipping(old(self).storages().slots, seq![kept]),
                    thread,
                    old(self).storages().slots.len() as int,
                ),
            ),
            final(self).scheduler_cell() == old(self).scheduler_cell(),
            final(self).scheduler() == old(self).scheduler(),
            final(self).pool_enabled() == old(self).pool_enabled(),
    {
        let mut excluded: Vec<StorageId> = Vec::new();
        excluded.push(kept);
        assert(excluded@ =~= seq![kept]);
        self.retain_storage(entity, &excluded, hook, thread)
    }

    /// Clears every storage: `hook` is called on each storage object
    /// without an entity. Borrowed storages are passed over and make the
    /// result `StorageBusy`.
    pub fn clear<H: Fn(T, Option<EntityId>) -> (T, bool)>(&mut self, hook: &H, thread: ThreadId) -> (r:
        Result<(), GetStorage>)
        requires
            old(self).wf(),
            accepts(hook, None, Seq::empty(), thread, old(self).storages().slots),
        ensures
            final(self).wf(),
            final(self).storages().cell == old(self).storages().cell,
            exists|any: bool| #[trigger]
                swept(
                    hook,
                    None,
                    Seq::empty(),
                    thread,
                    old(self).storages().slots,
                    final(self).storages().slots,
                    any,
                ),
            r == Self::busy_report(
                busy_ids(
                    skipping(old(self).storages().slots, Seq::empty()),
                    thread,
                    old(self).storages().slots.len() as int,
                ),
            ),
            final(self).scheduler_cell() == old(self).scheduler_cell(),
            final(self).scheduler() == old(self).scheduler(),
            final(self).pool_enabled() == old(self).pool_enabled(),
    {
        let none: Vec<StorageId> = Vec::new();
        assert(none@ =~= Seq::<StorageId>::empty());
        let (busy, _) = self.sweep(hook, None, &none, thread);
        if busy.len() == 0 {
            Ok(())
        } else {
            Err(GetStorage::StorageBusy)
        }
    }
}

impl<T: Copy, F: Fn(Vec<Option<T>>) -> Result<Vec<Option<T>>, String>> Default for World<T, F> {
    fn default() -> (world: Self)
        ensures
            world.wf(),
            world.storages().slots.len() == 0,
            world.storages().cell == CellState::free(),
            world.scheduler_cell() == CellState::free(),
            world.scheduler().workloads().len() == 0,
            world.pool_enabled(),
    {
        World::new()
    }
}

} // verus!

//! Views: what a system asks of the registry, how the borrows behind a list
//! of views are taken in order, and how they are given back.
use vstd::prelude::*;
use crate::cell::{BorrowCell, CellState, ThreadId, ThreadReq};
use crate::error::{Borrow, GetStorage};
use crate::scheduler::{BorrowDescriptor, Mutability, Target, ThreadRequirement};
use crate::storage::{
    drained, has_slot, is_stored, position, provided, released, slots_wf, unique_removal,
    AllStorages, SlotState, StorageId,
};

verus! {

/// What a view reaches.
#[derive(Debug, PartialEq, Eq)]
pub enum ViewTarget<T> {
    /// The whole registry, exclusively.
    AllStorages,
    /// A unique storage: it must have been added before.
    Unique(StorageId),
    /// A component storage, the entity allocator among them: where it is not
    /// stored yet it is created with the given object.
    Storage(StorageId, T),
}

/// Thread gate of a view.
#[derive(Clone, Copy, Debug, PartialEq, Eq, Structural)]
pub enum Gate {
    /// The storage may move between threads and be shared.
    Open,
    /// The storage may be shared but not move.
    NonSend,
    /// The storage may move but not be shared.
    NonSync,
    /// The storage may neither move nor be shared.
    NonSendSync,
}

/// One view of a system.
#[derive(Debug, PartialEq, Eq)]
pub struct ViewRequest<T> {
    /// What the view reaches.
    pub target: ViewTarget<T>,
    /// Name under which errors report the storage.
    pub name: String,
    /// Whether the borrow is exclusive; a view of the whole registry always is.
    pub exclusive: bool,
    /// Thread gate.
    pub gate: Gate,
    /// Whether a missing storage yields no value instead of an error.
    pub optional: bool,
}

/// Thread requirement of a storage that a view with gate `gate` creates on `thread`.
pub open spec fn requirement_of(gate: Gate, thread: ThreadId) -> ThreadReq {
    match gate {
        Gate::Open => ThreadReq::SendAndSync,
        Gate::NonSend => ThreadReq::Sync,
        Gate::NonSync => ThreadReq::Send,
        Gate::NonSendSync => ThreadReq::PinnedTo(thread),
    }
}

/// Decides `requirement_of`.
pub fn gate_requirement(gate: Gate, thread: ThreadId) -> (req: ThreadReq)
    ensures
        req == requirement_of(gate, thread),
{
    match gate {
        Gate::Open => ThreadReq::SendAndSync,
        Gate::NonSend => ThreadReq::Sync,
        Gate::NonSync => ThreadReq::Send,
        Gate::NonSendSync => ThreadReq::PinnedTo(thread),
    }
}

impl<T: Copy> ViewRequest<T> {
    /// The descriptor that the scheduler sees of this view.
    pub open spec fn descriptor_of(self) -> BorrowDescriptor {
        BorrowDescriptor {
            storage: match self.target {
                ViewTarget::AllStorages => Target::AllStorages,
                ViewTarget::Unique(id) => Target::Storage(id),
                ViewTarget::Storage(id, _) => Target::Storage(id),
            },
            mutability: if self.exclusive || self.target is AllStorages {
                Mutability::Exclusive
            } else {
                Mutability::Shared
            },
            thread: if self.gate == Gate::Open {
                ThreadRequirement::Any
            } else {
                ThreadRequirement::RequiresMainThread
            },
        }
    }

    /// The descriptor of the view, made without any borrow.
    pub fn descriptor(&self) -> (d: BorrowDescriptor)
        ensures
            d == self.descriptor_of(),
    {
        let whole = matches!(self.target, ViewTarget::AllStorages);
        BorrowDescriptor {
            storage: match self.target {
                ViewTarget::AllStorages => Target::AllStorages,
                ViewTarget::Unique(id) => Target::Storage(id),
                ViewTarget::Storage(id, _) => Target::Storage(id),
            },
            mutability: if self.exclusive || whole {
                Mutability::Exclusive
            } else {
                Mutability::Shared
            },
            thread: match self.gate {
                Gate::Open => ThreadRequirement::Any,
                _ => ThreadRequirement::RequiresMainThread,
            },
        }
    }
}

/// The registry as a plain value: the cell that guards the slot map, and the slots.
pub struct RegistryState<T> {
    /// Counter and pin of the cell around the slot map.
    pub cell: CellState,
    /// The slots in order of creation.
    pub slots: Seq<SlotState<T>>,
}

impl<T> RegistryState<T> {
    /// Validity: counters in range, identities distinct.
    pub open spec fn wf(self) -> bool {
        self.cell.wf() && slots_wf(self.slots)
    }

    /// The registry once a borrow of slot `i` was granted, together with
    /// the shared borrow of the slot map.
    pub open spec fn granted_at(self, i: int, exclusive: bool) -> Self {
        RegistryState {
            cell: self.cell.granted(false),
            slots: self.slots.update(
                i,
                self.slots[i].with_cell(self.slots[i].cell.granted(exclusive)),
            ),
        }
    }
}

/// The plain value of a guarded slot map.
pub open spec fn registry<T: Copy>(cell: &BorrowCell<AllStorages<T>>) -> RegistryState<T> {
    RegistryState { cell: cell.state(), slots: cell.value()@ }
}

/// What a view finds where its storage is missing.
pub open spec fn missing<T>(s: RegistryState<T>, v: ViewRequest<T>) -> Result<
    (RegistryState<T>, Option<T>),
    GetStorage,
> {
    if v.optional {
        Ok((s, None))
    } else {
        Err(GetStorage::MissingStorage(v.name))
    }
}

/// Borrow of the storage of identity `id`, which is stored in `slots`, once
/// the slot map grants its shared borrow: the storage grants or refuses.
/// `cell` is the cell around the slot map before the shared borrow.
pub open spec fn borrow_stored<T>(
    cell: CellState,
    slots: Seq<SlotState<T>>,
    id: StorageId,
    exclusive: bool,
    thread: ThreadId,
) -> Result<(RegistryState<T>, Option<T>), GetStorage> {
    let i = position(slots, id);
    match slots[i].cell.outcome(exclusive, thread) {
        Err(e) => Err(GetStorage::Borrow(e)),
        Ok(()) => Ok((RegistryState { cell, slots }.granted_at(i, exclusive), slots[i].value)),
    }
}

/// Construction of one view on behalf of `thread`: the new registry and the
/// storage object that the view shows, or the error.
///
/// A view of the whole registry borrows the slot map exclusively. Any other
/// view borrows the slot map shared and then its storage. A unique storage
/// that is absent or drained is missing; a component storage is created or
/// filled again on demand, pinned as the view's gate asks.
pub open spec fn acquire_one<T>(s: RegistryState<T>, v: ViewRequest<T>, thread: ThreadId) -> Result<
    (RegistryState<T>, Option<T>),
    GetStorage,
> {
    match v.target {
        ViewTarget::AllStorages => match s.cell.exclusive_outcome(thread) {
            Err(e) => Err(GetStorage::Borrow(e)),
            Ok(()) => Ok((RegistryState { cell: s.cell.granted(true), ..s }, None)),
        },
        ViewTarget::Unique(id) => match s.cell.shared_outcome(thread) {
            Err(e) => Err(GetStorage::Borrow(e)),
            Ok(()) => if is_stored(s.slots, id) {
                borrow_stored(s.cell, s.slots, id, v.exclusive, thread)
            } else {
                missing(s, v)
            },
        },
        ViewTarget::Storage(id, initial) => match s.cell.shared_outcome(thread) {
            Err(e) => Err(GetStorage::Borrow(e)),
            Ok(()) => borrow_stored(
                s.cell,
                provided(s.slots, id, initial, requirement_of(v.gate, thread), thread),
                id,
                v.exclusive,
                thread,
            ),
        },
    }
}

/// The registry once the borrows behind one view were given back. `held`
/// tells whether the view showed a storage object: one that showed none
/// holds no borrow of a storage. With an exclusive borrow that is held,
/// `write` replaces the storage object if it is `Some`.
pub open spec fn release_one<T>(
    s: RegistryState<T>,
    v: ViewRequest<T>,
    held: bool,
    write: Option<T>,
) -> RegistryState<T> {
    match v.target {
        ViewTarget::AllStorages => RegistryState { cell: s.cell.given_back(true), ..s },
        ViewTarget::Unique(id) => release_stored(s, id, v.exclusive, held, write),
        ViewTarget::Storage(id, _) => release_stored(s, id, v.exclusive, held, write),
    }
}

/// `release_one` for a view of the storage of identity `id`.
pub open spec fn release_stored<T>(
    s: RegistryState<T>,
    id: StorageId,
    exclusive: bool,
    held: bool,
    write: Option<T>,
) -> RegistryState<T> {
    if held && is_stored(s.slots, id) {
        RegistryState {
            cell: s.cell.given_back(false),
            slots: s.slots.update(
                position(s.slots, id),
                released(s.slots[position(s.slots, id)], exclusive, write),
            ),
        }
    } else {
        s
    }
}

/// Which views showed a storage object.
pub open spec fn marks<T>(data: Seq<Option<T>>) -> Seq<bool> {
    Seq::new(data.len(), |i: int| data[i] is Some)
}

/// Whether position `i` of `held` is marked.
pub open spec fn mark_at(held: Seq<bool>, i: int) -> bool {
    0 <= i < held.len() && held[i]
}

/// How far the construction of a list of views got.
pub struct Progress<T> {
    /// The registry with the borrows of the views constructed so far.
    pub state: RegistryState<T>,
    /// What those views show, one entry each.
    pub data: Seq<Option<T>>,
    /// The error of the view after them, if it failed.
    pub error: Option<GetStorage>,
}

/// Construction of the first `n` views in declaration order; it stops at the
/// first view that fails.
pub open spec fn acquire_all<T>(
    s: RegistryState<T>,
    views: Seq<ViewRequest<T>>,
    n: int,
    thread: ThreadId,
) -> Progress<T>
    decreases n,
{
    if n <= 0 {
        Progress { state: s, data: Seq::empty(), error: None }
    } else {
        let p = acquire_all(s, views, n - 1, thread);
        if p.error is Some {
            p
        } else {
            match acquire_one(p.state, views[n - 1], thread) {
                Ok((state, datum)) => Progress { state, data: p.data.push(datum), error: None },
                Err(e) => Progress { error: Some(e), ..p },
            }
        }
    }
}

/// The value that position `i` of `writes` holds, if there is one.
pub open spec fn write_at<T>(writes: Seq<Option<T>>, i: int) -> Option<T> {
    if 0 <= i < writes.len() {
        writes[i]
    } else {
        None
    }
}

/// The registry once the borrows behind the first `n` views were given
/// back, the last view first, each exclusive view with its entry of `writes`.
pub open spec fn release_all<T>(
    s: RegistryState<T>,
    views: Seq<ViewRequest<T>>,
    held: Seq<bool>,
    writes: Seq<Option<T>>,
    n: int,
) -> RegistryState<T>
    decreases n,
{
    if n <= 0 {
        s
    } else {
        release_all(
            release_one(s, views[n - 1], mark_at(held, n - 1), write_at(writes, n - 1)),
            views,
            held,
            writes,
            n - 1,
        )
    }
}

/// What the construction of all of `views` leaves and returns: with every
/// view constructed, the registry with all their borrows and what the views
/// show; with one that failed, its error and the registry with the borrows
/// taken before it given back.
pub open spec fn borrowed<T>(s: RegistryState<T>, views: Seq<ViewRequest<T>>, thread: ThreadId) -> (
    RegistryState<T>,
    Result<Seq<Option<T>>, GetStorage>,
) {
    let p = acquire_all(s, views, views.len() as int, thread);
    match p.error {
        None => (p.state, Ok(p.data)),
        Some(e) => (
            release_all(p.state, views, marks(p.data), Seq::empty(), p.data.len() as int),
            Err(e),
        ),
    }
}

/// Constructs one view.
pub fn acquire<T: Copy>(
    cell: &mut BorrowCell<AllStorages<T>>,
    view: &ViewRequest<T>,
    thread: ThreadId,
) -> (r: Result<Option<T>, GetStorage>)
    requires
        registry(old(cell)).wf(),
    ensures
        registry(final(cell)).wf(),
        match acquire_one(registry(old(cell)), *view, thread) {
            Ok((state, datum)) => r == Ok::<Option<T>, GetStorage>(datum) && registry(final(cell))
                == state,
            Err(e) => r == Err::<Option<T>, GetStorage>(e) && registry(final(cell)) == registry(
                old(cell),
            ),
        },
{
    match view.target {
        ViewTarget::AllStorages => match cell.try_borrow_mut(thread) {
            Ok(()) => Ok(None),
            Err(e) => Err(GetStorage::Borrow(e)),
        },
        ViewTarget::Unique(id) => {
            match cell.can_borrow(false, thread) {
                Err(e) => Err(GetStorage::Borrow(e)),
                Ok(()) => {
                    let found = cell.get().find(id);
                    let stored = match found {
                        Some(i) => cell.get().slot(i).value().is_some(),
                        None => false,
                    };
                    if stored {
                        take(cell, found.unwrap(), view.exclusive, thread)
                    } else if view.optional {
                        Ok(None)
                    } else {
                        Err(GetStorage::MissingStorage(view.name.clone()))
                    }
                },
            }
        },
        ViewTarget::Storage(id, initial) => {
            match cell.can_borrow(false, thread) {
                Err(e) => Err(GetStorage::Borrow(e)),
                Ok(()) => {
                    let req = gate_requirement(view.gate, thread);
                    let ghost slots = cell.value()@;
                    let ghost after = provided(slots, id, initial, req, thread);
                    match cell.get().find(id) {
                        Some(i) => {
                            assert(after[i as int].cell == slots[i as int].cell);
                            assert(after[position(after, id)].id == id);
                            assert(position(after, id) == i);
                            match cell.get().slot(i).can_borrow(view.exclusive, thread) {
                                Err(e) => {
                                    return Err(GetStorage::Borrow(e));
                                },
                                Ok(()) => {},
                            }
                        },
                        None => {},
                    }
                    let storages = cell.get_mut();
                    let at = storages.get_or_create(id, initial, req, thread);
                    take(cell, at, view.exclusive, thread)
                },
            }
        },
    }
}

/// Borrows the slot map shared and the stored slot at `index` as asked,
/// once it is known that the slot map grants the borrow.
fn take<T: Copy>(
    cell: &mut BorrowCell<AllStorages<T>>,
    index: usize,
    exclusive: bool,
    thread: ThreadId,
) -> (r: Result<Option<T>, GetStorage>)
    requires
        registry(old(cell)).wf(),
        old(cell).state().shared_outcome(thread) is Ok,
        index < old(cell).value()@.len(),
    ensures
        registry(final(cell)).wf(),
        match old(cell).value()@[index as int].cell.outcome(exclusive, thread) {
            Err(e) => r == Err::<Option<T>, GetStorage>(GetStorage::Borrow(e)) && registry(
                final(cell),
            ) == registry(old(cell)),
            Ok(()) => r == Ok::<Option<T>, GetStorage>(old(cell).value()@[index as int].value)
                && registry(final(cell)) == registry(old(cell)).granted_at(index as int, exclusive),
        },
{
    let value = cell.get().slot(index).value();
    let storages = cell.get_mut();
    match storages.borrow_slot(index, exclusive, thread) {
        Err(e) => Err(GetStorage::Borrow(e)),
        Ok(()) => {
            let granted = cell.try_borrow(thread);
            Ok(value)
        },
    }
}

/// Gives back the borrows behind one view.
pub fn release<T: Copy>(
    cell: &mut BorrowCell<AllStorages<T>>,
    view: &ViewRequest<T>,
    held: bool,
    write: Option<T>,
)
    requires
        registry(old(cell)).wf(),
    ensures
        registry(final(cell)).wf(),
        registry(final(cell)) == release_one(registry(old(cell)), *view, held, write),
{
    let id = match view.target {
        ViewTarget::AllStorages => {
            cell.release_mut();
            return ;
        },
        ViewTarget::Unique(id) => id,
        ViewTarget::Storage(id, _) => id,
    };
    if !held {
        return ;
    }
    match cell.get().find(id) {
        Some(i) => {
            if cell.get().slot(i).value().is_some() {
                let storages = cell.get_mut();
                storages.release_slot(i, view.exclusive, write);
                cell.release();
            }
        },
        None => {},
    }
}

/// Tells for each view whether it showed a storage object.
pub fn presence<T: Copy>(data: &Vec<Option<T>>) -> (held: Vec<bool>)
    ensures
        held@ == marks(data@),
{
    let mut held: Vec<bool> = Vec::new();
    let mut i: usize = 0;
    while i < data.len()
        invariant
            i <= data@.len(),
            held@ =~= Seq::new(i as nat, |j: int| data@[j] is Some),
        decreases data.len() - i,
    {
        held.push(data[i].is_some());
        i += 1;
    }
    assert(held@ =~= marks(data@));
    held
}

/// Gives back the borrows behind the first `n` views, the last view
/// first, each exclusive view with its entry of `writes`. `held` marks the
/// views that showed a storage object.
pub fn release_views<T: Copy>(
    cell: &mut BorrowCell<AllStorages<T>>,
    views: &Vec<ViewRequest<T>>,
    held: &Vec<bool>,
    writes: &Vec<Option<T>>,
    n: usize,
)
    requires
        registry(old(cell)).wf(),
        n <= views@.len(),
    ensures
        registry(final(cell)).wf(),
        registry(final(cell)) == release_all(
            registry(old(cell)),
            views@,
            held@,
            writes@,
            n as int,
        ),
{
    let ghost before = registry(cell);
    let mut i: usize = n;
    while i > 0
        invariant
            i <= n <= views@.len(),
            registry(cell).wf(),
            release_all(before, views@, held@, writes@, n as int) == release_all(
                registry(cell),
                views@,
                held@,
                writes@,
                i as int,
            ),
        decreases i,
    {
        i -= 1;
        let write = if i < writes.len() {
            writes[i]
        } else {
            None
        };
        let mark = i < held.len() && held[i];
        release(cell, &views[i], mark, write);
    }
}

/// Constructs every view of the list in declaration order, all or nothing:
/// if one fails, the borrows taken for the views before it are given back
/// and its error is returned.
pub fn acquire_views<T: Copy>(
    cell: &mut BorrowCell<AllStorages<T>>,
    views: &Vec<ViewRequest<T>>,
    thread: ThreadId,
) -> (r: Result<Vec<Option<T>>, GetStorage>)
    requires
        registry(old(cell)).wf(),
    ensures
        registry(final(cell)).wf(),
        registry(final(cell)) == borrowed(registry(old(cell)), views@, thread).0,
        match borrowed(registry(old(cell)), views@, thread).1 {
            Ok(data) => r is Ok && r.unwrap()@ == data,
            Err(e) => r == Err::<Vec<Option<T>>, GetStorage>(e),
        },
{
    let ghost before = registry(cell);
    let mut data: Vec<Option<T>> = Vec::new();
    let mut i: usize = 0;
    while i < views.len()
        invariant
            i <= views@.len(),
            registry(cell).wf(),
            before == registry(old(cell)),
            acquire_all(before, views@, i as int, thread) == (Progress {
                state: registry(cell),
                data: data@,
                error: None,
            }),
            data@.len() == i,
        decreases views.len() - i,
    {
        match acquire(cell, &views[i], thread) {
            Ok(datum) => {
                data.push(datum);
            },
            Err(e) => {
                let none: Vec<Option<T>> = Vec::new();
                let held = presence(&data);
                proof {
                    let p = acquire_all(before, views@, i as int, thread);
                    assert(acquire_all(before, views@, i as int + 1, thread) == (Progress {
                        error: Some(e),
                        ..p
                    }));
                    lemma_error_sticks(before, views@, i as int + 1, views@.len() as int, thread);
                    assert(none@ =~= Seq::<Option<T>>::empty());
                }
                release_views(cell, views, &held, &none, i);
                return Err(e);
            },
        }
        i += 1;
    }
    Ok(data)
}

/// Once a view has failed, the views after it are not looked at.
proof fn lemma_error_sticks<T>(
    s: RegistryState<T>,
    views: Seq<ViewRequest<T>>,
    k: int,
    n: int,
    thread: ThreadId,
)
    requires
        0 <= k <= n,
        acquire_all(s, views, k, thread).error is Some,
    ensures
        acquire_all(s, views, n, thread) == acquire_all(s, views, k, thread),
    decreases n - k,
{
    if k < n {
        lemma_error_sticks(s, views, k, n - 1, thread);
    }
}

/// Missing unique: once the unique value of identity `id` was removed, the
/// next view of it is missing, under the name that the view gives, on
/// whichever thread it is asked for, as long as the slot map grants the
/// shared borrow that every such view takes first.
pub proof fn unique_is_missing_after_removal<T>(
    s: RegistryState<T>,
    id: StorageId,
    name: String,
    remover: ThreadId,
    view: ViewRequest<T>,
    thread: ThreadId,
)
    requires
        s.wf(),
        unique_removal(s.slots, id, name, remover) is Ok,
        view.target == ViewTarget::<T>::Unique(id),
        !view.optional,
        s.cell.shared_outcome(thread) is Ok,
    ensures
        acquire_one(RegistryState { slots: drained(s.slots, id), ..s }, view, thread) == Err::<
            (RegistryState<T>, Option<T>),
            GetStorage,
        >(GetStorage::MissingStorage(view.name)),
        borrowed(RegistryState { slots: drained(s.slots, id), ..s }, seq![view], thread).1 == Err::<
            Seq<Option<T>>,
            GetStorage,
        >(GetStorage::MissingStorage(view.name)),
{
    let after = drained(s.slots, id);
    let at = position(s.slots, id);
    assert(after[at].id == id);
    let found = position(after, id);
    assert(s.slots[found].id == after[found].id);
    assert(found == at);
    assert(!is_stored(after, id));
    let state = RegistryState { slots: after, ..s };
    let views = seq![view];
    assert(views[0] == view);
    assert(acquire_all(state, views, 0, thread).error is None);
    assert(acquire_all(state, views, 1, thread).error == Some(GetStorage::MissingStorage(view.name)))
        by {
        reveal_with_fuel(acquire_all, 2);
    }
}

/// Thread pinning: a unique value added as one that may not move between
/// threads is never borrowed exclusively from another thread than the one
/// that added it, and where it may not be shared either, it is not borrowed
/// at all from there. The view fails with `WrongThread`, whatever borrows
/// are out.
pub proof fn pinned_unique_refuses_other_threads<T>(
    s: RegistryState<T>,
    id: StorageId,
    value: T,
    creator: ThreadId,
    view: ViewRequest<T>,
    thread: ThreadId,
)
    requires
        s.wf(),
        !has_slot(s.slots, id),
        view.target == ViewTarget::<T>::Unique(id),
        thread != creator,
        s.cell.shared_outcome(thread) is Ok,
    ensures
        view.exclusive ==> acquire_one(
            RegistryState { slots: provided(s.slots, id, value, ThreadReq::Sync, creator), ..s },
            view,
            thread,
        ) == Err::<(RegistryState<T>, Option<T>), GetStorage>(
            GetStorage::Borrow(Borrow::WrongThread),
        ),
        acquire_one(
            RegistryState {
                slots: provided(s.slots, id, value, ThreadReq::PinnedTo(creator), creator),
                ..s
            },
            view,
            thread,
        ) == Err::<(RegistryState<T>, Option<T>), GetStorage>(
            GetStorage::Borrow(Borrow::WrongThread),
        ),
{
    let shared = provided(s.slots, id, value, ThreadReq::Sync, creator);
    let pinned = provided(s.slots, id, value, ThreadReq::PinnedTo(creator), creator);
    let last = s.slots.len() as int;
    assert(shared[last].id == id && pinned[last].id == id);
    assert(position(shared, id) == last) by {
        let found = position(shared, id);
        if found < last {
            assert(s.slots[found].id == id);
        }
    }
    assert(position(pinned, id) == last) by {
        let found = position(pinned, id);
        if found < last {
            assert(s.slots[found].id == id);
        }
    }
}

/// Whether registry `b` holds exactly the borrows of registry `a`: the cell
/// around the slot map and the cell of every slot of `a` are in the same
/// state, no slot of `a` has changed its identity or its requirement, no
/// storage of `a` has lost its object, and every slot that `b` has beyond
/// those of `a` is free. With `strict`, no storage of `a` has changed its
/// object either.
pub open spec fn related<T>(a: RegistryState<T>, b: RegistryState<T>, strict: bool) -> bool {
    &&& b.cell == a.cell
    &&& a.slots.len() <= b.slots.len()
    &&& forall|i: int|
        0 <= i < a.slots.len() ==> {
            &&& (#[trigger] b.slots[i]).id == a.slots[i].id
            &&& b.slots[i].thread_req == a.slots[i].thread_req
            &&& b.slots[i].cell == a.slots[i].cell
            &&& a.slots[i].value is Some ==> b.slots[i].value is Some
            &&& strict && a.slots[i].value is Some ==> b.slots[i].value == a.slots[i].value
        }
    &&& forall|i: int| a.slots.len() <= i < b.slots.len() ==> (#[trigger] b.slots[i]).cell.count == 0
}

/// Whether registry `b` holds exactly the borrows of registry `a`, and
/// every storage of `a` the object it held.
pub open spec fn same_borrows<T>(a: RegistryState<T>, b: RegistryState<T>) -> bool {
    related(a, b, true)
}

/// Whether registry `b` holds exactly the borrows of registry `a`; the
/// storage objects may have changed.
pub open spec fn same_counters<T>(a: RegistryState<T>, b: RegistryState<T>) -> bool {
    related(a, b, false)
}

/// The index of the slot of identity `id` is the one index that holds it.
pub(crate) proof fn lemma_position<T>(slots: Seq<SlotState<T>>, id: StorageId, i: int)
    requires
        slots_wf(slots),
        0 <= i < slots.len(),
        slots[i].id == id,
    ensures
        has_slot(slots, id),
        position(slots, id) == i,
{
    let found = position(slots, id);
    assert(slots[found].id == id);
}

/// Asking for a storage keeps a valid slot map valid, keeps every slot in
/// its place, and leaves the storage stored.
pub(crate) proof fn lemma_provided<T>(
    slots: Seq<SlotState<T>>,
    id: StorageId,
    value: T,
    req: ThreadReq,
    thread: ThreadId,
)
    requires
        slots_wf(slots),
    ensures
        slots_wf(provided(slots, id, value, req, thread)),
        is_stored(provided(slots, id, value, req, thread), id),
        has_slot(slots, id) ==> position(provided(slots, id, value, req, thread), id) == position(
            slots,
            id,
        ),
        !has_slot(slots, id) ==> position(provided(slots, id, value, req, thread), id)
            == slots.len(),
{
    let after = provided(slots, id, value, req, thread);
    if has_slot(slots, id) {
        let at = position(slots, id);
        assert(after[at].id == id);
        assert forall|i: int, j: int| 0 <= i < j < after.len() implies (#[trigger] after[i]).id != (
        #[trigger] after[j]).id by {
            assert(slots[i].id != slots[j].id);
        }
        assert forall|i: int| 0 <= i < after.len() implies (#[trigger] after[i]).cell.wf() by {
            assert(slots[i].cell.wf());
        }
        lemma_position(after, id, at);
    } else {
        let at = slots.len() as int;
        assert(after[at].id == id);
        assert forall|i: int, j: int| 0 <= i < j < after.len() implies (#[trigger] after[i]).id != (
        #[trigger] after[j]).id by {
            if j < at {
                assert(slots[i].id != slots[j].id);
            } else {
                assert(slots[i].id != id);
            }
        }
        assert forall|i: int| 0 <= i < after.len() implies (#[trigger] after[i]).cell.wf() by {
            if i < at {
                assert(slots[i].cell.wf());
            }
        }
        lemma_position(after, id, at);
    }
}

/// Giving back what one view took undoes what its construction did to the
/// borrows, also where other borrows were given back in between.
proof fn lemma_release_undoes<T>(
    x: RegistryState<T>,
    v: ViewRequest<T>,
    thread: ThreadId,
    r: RegistryState<T>,
    write: Option<T>,
    strict: bool,
)
    requires
        x.wf(),
        r.wf(),
        acquire_one(x, v, thread) is Ok,
        related(acquire_one(x, v, thread)->Ok_0.0, r, strict),
        strict ==> write is None,
    ensures
        release_one(r, v, acquire_one(x, v, thread)->Ok_0.1 is Some, write).wf(),
        related(x, release_one(r, v, acquire_one(x, v, thread)->Ok_0.1 is Some, write), strict),
{
    let (y, d) = acquire_one(x, v, thread)->Ok_0;
    let z = release_one(r, v, d is Some, write);
    match v.target {
        ViewTarget::AllStorages => {},
        ViewTarget::Unique(id) => {
            if is_stored(x.slots, id) {
                let at = position(x.slots, id);
                assert(x.slots[at].id == id);
                assert(y.slots[at].id == id);
                assert(r.slots[at].id == id);
                lemma_position(r.slots, id, at);
                lemma_undone_at(x, y, r, z, at, strict);
            }
        },
        ViewTarget::Storage(id, initial) => {
            let req = requirement_of(v.gate, thread);
            lemma_provided(x.slots, id, initial, req, thread);
            let slots = provided(x.slots, id, initial, req, thread);
            let at = position(slots, id);
            assert(slots[at].id == id);
            assert(y.slots[at].id == id);
            assert(r.slots[at].id == id);
            lemma_position(r.slots, id, at);
            lemma_undone_at(x, y, r, z, at, strict);
        },
    }
}

/// The slot-by-slot part of `lemma_release_undoes`: `y` is `x` with a borrow
/// of slot `at` and of the slot map, `z` is `r` with both given back.
proof fn lemma_undone_at<T>(
    x: RegistryState<T>,
    y: RegistryState<T>,
    r: RegistryState<T>,
    z: RegistryState<T>,
    at: int,
    strict: bool,
)
    requires
        r.wf(),
        related(y, r, strict),
        0 <= at < y.slots.len(),
        x.slots.len() <= y.slots.len(),
        x.cell.count >= 0,
        y.cell == x.cell.granted(false),
        z.cell == r.cell.given_back(false),
        z.slots == r.slots.update(at, z.slots[at]),
        z.slots[at].id == r.slots[at].id,
        z.slots[at].thread_req == r.slots[at].thread_req,
        r.slots[at].value is Some ==> z.slots[at].value is Some,
        strict ==> z.slots[at].value == r.slots[at].value,
        z.slots[at].cell.wf(),
        forall|i: int|
            0 <= i < x.slots.len() ==> {
                &&& (#[trigger] y.slots[i]).id == x.slots[i].id
                &&& y.slots[i].thread_req == x.slots[i].thread_req
                &&& i != at ==> y.slots[i].cell == x.slots[i].cell
                &&& x.slots[i].value is Some ==> y.slots[i].value == x.slots[i].value
            },
        forall|i: int|
            x.slots.len() <= i < y.slots.len() && i != at ==> (#[trigger] y.slots[i]).cell.count
                == 0,
        at < x.slots.len() ==> z.slots[at].cell == x.slots[at].cell,
        at >= x.slots.len() ==> z.slots[at].cell.count == 0,
    ensures
        z.wf(),
        related(x, z, strict),
{
    assert forall|i: int, j: int| 0 <= i < j < z.slots.len() implies (#[trigger] z.slots[i]).id != (
    #[trigger] z.slots[j]).id by {
        assert(r.slots[i].id != r.slots[j].id);
    }
    assert forall|i: int| 0 <= i < z.slots.len() implies (#[trigger] z.slots[i]).cell.wf() by {
        if i != at {
            assert(r.slots[i].cell.wf());
        }
    }
    assert forall|i: int| 0 <= i < x.slots.len() implies {
        &&& (#[trigger] z.slots[i]).id == x.slots[i].id
        &&& z.slots[i].thread_req == x.slots[i].thread_req
        &&& z.slots[i].cell == x.slots[i].cell
        &&& x.slots[i].value is Some ==> z.slots[i].value is Some
        &&& strict && x.slots[i].value is Some ==> z.slots[i].value == x.slots[i].value
    } by {
        assert(r.slots[i].id == y.slots[i].id);
        assert(y.slots[i].id == x.slots[i].id);
    }
    assert forall|i: int| x.slots.len() <= i < z.slots.len() implies (#[trigger] z.slots[i]).cell.count
        == 0 by {
        if i != at {
            if i < y.slots.len() {
                assert(r.slots[i].cell == y.slots[i].cell);
                assert(y.slots[i].cell.count == 0);
            } else {
                assert(r.slots[i].cell.count == 0);
            }
        }
    }
}

/// The construction of a view keeps a valid registry valid.
pub(crate) proof fn lemma_acquire_wf<T>(x: RegistryState<T>, v: ViewRequest<T>, thread: ThreadId)
    requires
        x.wf(),
        acquire_one(x, v, thread) is Ok,
    ensures
        acquire_one(x, v, thread)->Ok_0.0.wf(),
{
    let y = acquire_one(x, v, thread)->Ok_0.0;
    match v.target {
        ViewTarget::AllStorages => {},
        ViewTarget::Unique(id) => {
            if is_stored(x.slots, id) {
                lemma_granted_wf(x.slots, y.slots, position(x.slots, id));
            }
        },
        ViewTarget::Storage(id, initial) => {
            let req = requirement_of(v.gate, thread);
            lemma_provided(x.slots, id, initial, req, thread);
            let slots = provided(x.slots, id, initial, req, thread);
            lemma_granted_wf(slots, y.slots, position(slots, id));
        },
    }
}

/// A change of one slot's cell that keeps the counter in range keeps a
/// valid slot map valid.
pub(crate) proof fn lemma_granted_wf<T>(before: Seq<SlotState<T>>, after: Seq<SlotState<T>>, at: int)
    requires
        slots_wf(before),
        0 <= at < before.len(),
        after == before.update(at, after[at]),
        after[at].id == before[at].id,
        after[at].cell.wf(),
    ensures
        slots_wf(after),
{
    assert forall|i: int, j: int| 0 <= i < j < after.len() implies (#[trigger] after[i]).id != (
    #[trigger] after[j]).id by {
        assert(before[i].id != before[j].id);
    }
    assert forall|i: int| 0 <= i < after.len() implies (#[trigger] after[i]).cell.wf() by {
        if i != at {
            assert(before[i].cell.wf());
        }
    }
}

/// What the construction of the first `n` views reached is valid, and is
/// what the construction of the views that succeeded reaches.
pub(crate) proof fn lemma_prefix<T>(
    s: RegistryState<T>,
    views: Seq<ViewRequest<T>>,
    n: int,
    thread: ThreadId,
)
    requires
        s.wf(),
        0 <= n,
    ensures
        acquire_all(s, views, n, thread).data.len() <= n,
        acquire_all(s, views, n, thread).state.wf(),
        acquire_all(s, views, n, thread).error is None ==> acquire_all(
            s,
            views,
            n,
            thread,
        ).data.len() == n,
        acquire_all(s, views, acquire_all(s, views, n, thread).data.len() as int, thread)
            == (Progress { error: None, ..acquire_all(s, views, n, thread) }),
    decreases n,
{
    if n > 0 {
        lemma_prefix(s, views, n - 1, thread);
        let q = acquire_all(s, views, n - 1, thread);
        if q.error is None {
            if acquire_one(q.state, views[n - 1], thread) is Ok {
                lemma_acquire_wf(q.state, views[n - 1], thread);
            }
        }
    }
}

/// Only the marks of the views that are given back matter.
proof fn lemma_marks_agree<T>(
    s: RegistryState<T>,
    views: Seq<ViewRequest<T>>,
    first: Seq<bool>,
    second: Seq<bool>,
    writes: Seq<Option<T>>,
    n: int,
)
    requires
        forall|i: int| 0 <= i < n ==> mark_at(first, i) == mark_at(second, i),
    ensures
        release_all(s, views, first, writes, n) == release_all(s, views, second, writes, n),
    decreases n,
{
    if n > 0 {
        lemma_marks_agree(
            release_one(s, views[n - 1], mark_at(first, n - 1), write_at(writes, n - 1)),
            views,
            first,
            second,
            writes,
            n - 1,
        );
    }
}

/// Giving back what the first `n` views took leads back to the borrows
/// that were out before them, also where other borrows were given back in
/// between: `r` is the registry in which the views give back.
pub(crate) proof fn lemma_rollback<T>(
    s: RegistryState<T>,
    views: Seq<ViewRequest<T>>,
    n: int,
    thread: ThreadId,
    r: RegistryState<T>,
    writes: Seq<Option<T>>,
    strict: bool,
)
    requires
        s.wf(),
        r.wf(),
        0 <= n,
        acquire_all(s, views, n, thread).error is None,
        related(acquire_all(s, views, n, thread).state, r, strict),
        strict ==> writes.len() == 0,
    ensures
        release_all(r, views, marks(acquire_all(s, views, n, thread).data), writes, n).wf(),
        related(
            s,
            release_all(r, views, marks(acquire_all(s, views, n, thread).data), writes, n),
            strict,
        ),
    decreases n,
{
    if n > 0 {
        let p = acquire_all(s, views, n, thread);
        let q = acquire_all(s, views, n - 1, thread);
        lemma_prefix(s, views, n - 1, thread);
        lemma_prefix(s, views, n, thread);
        let d = acquire_one(q.state, views[n - 1], thread)->Ok_0.1;
        assert(p.data == q.data.push(d));
        assert(mark_at(marks(p.data), n - 1) == (d is Some));
        let write = write_at(writes, n - 1);
        let r1 = release_one(r, views[n - 1], d is Some, write);
        lemma_release_undoes(q.state, views[n - 1], thread, r, write, strict);
        lemma_rollback(s, views, n - 1, thread, r1, writes, strict);
        assert forall|i: int| 0 <= i < n - 1 implies mark_at(marks(p.data), i) == mark_at(
            marks(q.data),
            i,
        ) by {
            assert(p.data[i] == q.data[i]);
        }
        lemma_marks_agree(r1, views, marks(p.data), marks(q.data), writes, n - 1);
    }
}

/// All or nothing: where the construction of a list of views fails, no
/// borrow stays behind. The cell around the slot map and the cell of every
/// slot are as they were, every storage holds the object it held, and the
/// storages that were created on the way are free.
pub proof fn failed_construction_leaves_no_borrow<T>(
    s: RegistryState<T>,
    views: Seq<ViewRequest<T>>,
    thread: ThreadId,
)
    requires
        s.wf(),
        borrowed(s, views, thread).1 is Err,
    ensures
        borrowed(s, views, thread).0.wf(),
        same_borrows(s, borrowed(s, views, thread).0),
{
    let p = acquire_all(s, views, views.len() as int, thread);
    lemma_prefix(s, views, views.len() as int, thread);
    lemma_rollback(s, views, p.data.len() as int, thread, p.state, Seq::empty(), true);
}

/// Guards restore the counters: once the views of a system were
/// constructed and given back, whatever the system left behind them, the
/// cell around the slot map and the cell of every slot are as they were
/// before, no slot has changed its identity or its requirement, and the
/// storages that were created on the way are free.
pub proof fn release_restores_the_counters<T>(
    s: RegistryState<T>,
    views: Seq<ViewRequest<T>>,
    thread: ThreadId,
    writes: Seq<Option<T>>,
)
    requires
        s.wf(),
        borrowed(s, views, thread).1 is Ok,
    ensures
        same_counters(
            s,
            release_all(
                borrowed(s, views, thread).0,
                views,
                marks(borrowed(s, views, thread).1->Ok_0),
                writes,
                views.len() as int,
            ),
        ),
{
    let p = acquire_all(s, views, views.len() as int, thread);
    lemma_prefix(s, views, views.len() as int, thread);
    lemma_rollback(s, views, views.len() as int, thread, p.state, writes, false);
}

} // verus!

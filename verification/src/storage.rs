//! The registry of storages: slots keyed by a stable identity, each behind
//! its own borrow cell.
use vstd::prelude::*;
use crate::cell::{BorrowCell, CellState, ThreadId, ThreadReq};
use crate::error::{Borrow, UniqueRemove};

verus! {

/// Stable identity of a storage.
#[derive(Clone, Copy, Debug, PartialEq, Eq, Structural)]
pub enum StorageId {
    /// A storage keyed by the fingerprint of a component type.
    OfType(u64),
    /// A storage registered by the user under a number of their choice.
    Custom(u64),
}

/// Opaque identifier of an entity.
#[derive(Clone, Copy, Debug, PartialEq, Eq, Structural)]
pub struct EntityId(pub u64);

/// What a slot of the registry is, as a plain value.
pub struct SlotState<T> {
    /// Identity of the storage; fixed at creation.
    pub id: StorageId,
    /// Thread requirement declared at creation; fixed as well.
    pub thread_req: ThreadReq,
    /// Counter and pin of the slot's cell.
    pub cell: CellState,
    /// The storage object; `None` once it was drained.
    pub value: Option<T>,
}

impl<T> SlotState<T> {
    /// The slot a storage gets when it is created on `thread`.
    pub open spec fn created(id: StorageId, value: T, req: ThreadReq, thread: ThreadId) -> Self {
        SlotState { id, thread_req: req, cell: CellState::fresh(req, thread), value: Some(value) }
    }

    /// The same slot with another counter state.
    pub open spec fn with_cell(self, cell: CellState) -> Self {
        SlotState { cell, ..self }
    }

    /// The same slot with another storage object.
    pub open spec fn with_value(self, value: Option<T>) -> Self {
        SlotState { value, ..self }
    }

    /// Whether a bulk operation on behalf of `thread` finds the slot busy.
    pub open spec fn busy(self, thread: ThreadId) -> bool {
        self.value is Some && self.cell.exclusive_outcome(thread) is Err
    }
}

/// No identity occurs twice.
pub open spec fn distinct_ids<T>(slots: Seq<SlotState<T>>) -> bool {
    forall|i: int, j: int|
        0 <= i < j < slots.len() ==> (#[trigger] slots[i]).id != (#[trigger] slots[j]).id
}

/// Whether a slot of that identity exists.
pub open spec fn has_slot<T>(slots: Seq<SlotState<T>>, id: StorageId) -> bool {
    exists|i: int| 0 <= i < slots.len() && (#[trigger] slots[i]).id == id
}

/// Index of the slot of that identity.
pub open spec fn position<T>(slots: Seq<SlotState<T>>, id: StorageId) -> int
    recommends
        has_slot(slots, id),
{
    choose|i: int| 0 <= i < slots.len() && (#[trigger] slots[i]).id == id
}

/// Whether a storage of that identity exists and holds its object.
pub open spec fn is_stored<T>(slots: Seq<SlotState<T>>, id: StorageId) -> bool {
    has_slot(slots, id) && slots[position(slots, id)].value is Some
}

/// Validity of a slot map: identities are distinct, counters in range.
pub open spec fn slots_wf<T>(slots: Seq<SlotState<T>>) -> bool {
    &&& distinct_ids(slots)
    &&& forall|i: int| 0 <= i < slots.len() ==> (#[trigger] slots[i]).cell.wf()
}

/// The slot map once a storage of identity `id` is asked for with `value`
/// as its initial object: an absent one is appended, a drained one is
/// filled again and keeps its pin, a stored one stays as it is.
pub open spec fn provided<T>(
    slots: Seq<SlotState<T>>,
    id: StorageId,
    value: T,
    req: ThreadReq,
    thread: ThreadId,
) -> Seq<SlotState<T>> {
    if !has_slot(slots, id) {
        slots.push(SlotState::created(id, value, req, thread))
    } else if slots[position(slots, id)].value is None {
        slots.update(position(slots, id), slots[position(slots, id)].with_value(Some(value)))
    } else {
        slots
    }
}

/// Identities of the slots among the first `n` that a bulk operation on
/// behalf of `thread` finds busy, in slot order.
pub open spec fn busy_ids<T>(slots: Seq<SlotState<T>>, thread: ThreadId, n: int) -> Seq<StorageId>
    decreases n,
{
    if n <= 0 {
        Seq::empty()
    } else if slots[n - 1].busy(thread) {
        busy_ids(slots, thread, n - 1).push(slots[n - 1].id)
    } else {
        busy_ids(slots, thread, n - 1)
    }
}

/// One storage with its identity, its thread requirement and its cell.
pub struct StorageSlot<T> {
    id: StorageId,
    thread_req: ThreadReq,
    cell: BorrowCell<Option<T>>,
}

impl<T> View for StorageSlot<T> {
    type V = SlotState<T>;

    closed spec fn view(&self) -> SlotState<T> {
        SlotState {
            id: self.id,
            thread_req: self.thread_req,
            cell: self.cell.state(),
            value: self.cell.value(),
        }
    }
}

impl<T: Copy> StorageSlot<T> {
    /// Identity of the storage.
    pub fn id(&self) -> (id: StorageId)
        ensures
            id == self@.id,
    {
        self.id
    }

    /// Thread requirement declared at creation.
    pub fn thread_req(&self) -> (req: ThreadReq)
        ensures
            req == self@.thread_req,
    {
        self.thread_req
    }

    /// The storage object, unless it was drained.
    pub fn value(&self) -> (value: Option<T>)
        ensures
            value == self@.value,
    {
        *self.cell.get()
    }

    /// Whether a borrow of the given kind would be granted to `thread`.
    pub fn can_borrow(&self, exclusive: bool, thread: ThreadId) -> (r: Result<(), Borrow>)
        ensures
            r == self@.cell.outcome(exclusive, thread),
    {
        self.cell.can_borrow(exclusive, thread)
    }
}

/// The slot map: every storage of a world, in order of creation.
pub struct AllStorages<T> {
    slots: Vec<StorageSlot<T>>,
}

impl<T> View for AllStorages<T> {
    type V = Seq<SlotState<T>>;

    closed spec fn view(&self) -> Seq<SlotState<T>> {
        Seq::new(self.slots@.len(), |i: int| self.slots@[i]@)
    }
}

impl<T: Copy> AllStorages<T> {
    /// Validity: identities are distinct, counters in range.
    pub open spec fn wf(&self) -> bool {
        slots_wf(self@)
    }

    /// An empty slot map.
    pub fn new() -> (storages: Self)
        ensures
            storages@ == Seq::<SlotState<T>>::empty(),
            storages.wf(),
    {
        let storages = AllStorages { slots: Vec::new() };
        assert(storages@ =~= Seq::<SlotState<T>>::empty());
        storages
    }

    /// Number of slots.
    pub fn len(&self) -> (n: usize)
        ensures
            n == self@.len(),
    {
        self.slots.len()
    }

    /// Index of the slot of identity `id`.
    pub fn find(&self, id: StorageId) -> (at: Option<usize>)
        requires
            self.wf(),
        ensures
            at is Some == has_slot(self@, id),
            at is Some ==> at.unwrap() == position(self@, id) && at.unwrap() < self@.len()
                && self@[at.unwrap() as int].id == id,
    {
        let mut i: usize = 0;
        while i < self.slots.len()
            invariant
                i <= self.slots.len(),
                self.wf(),
                forall|j: int| 0 <= j < i ==> (#[trigger] self@[j]).id != id,
            decreases self.slots.len() - i,
        {
            if self.slots[i].id == id {
                assert(self@[i as int].id == id);
                return Some(i);
            }
            i += 1;
        }
        None
    }

    /// The slot at `index`.
    pub fn slot(&self, index: usize) -> (slot: &StorageSlot<T>)
        requires
            index < self@.len(),
        ensures
            slot@ == self@[index as int],
    {
        &self.slots[index]
    }

    /// The slot of identity `id`, if there is one.
    pub fn custom_storage_by_id(&self, id: StorageId) -> (slot: Option<&StorageSlot<T>>)
        requires
            self.wf(),
        ensures
            slot is Some == has_slot(self@, id),
            slot is Some ==> slot.unwrap()@ == self@[position(self@, id)],
    {
        match self.find(id) {
            Some(i) => Some(&self.slots[i]),
            None => None,
        }
    }

    /// Makes sure that a storage of identity `id` is stored, with `value` as
    /// its object where it has none, and returns its index. A new slot is
    /// pinned as `req` asks, relative to the calling `thread`.
    pub fn get_or_create(&mut self, id: StorageId, value: T, req: ThreadReq, thread: ThreadId) -> (at:
        usize)
        requires
            old(self).wf(),
        ensures
            final(self).wf(),
            final(self)@ == provided(old(self)@, id, value, req, thread),
            has_slot(final(self)@, id),
            at == position(final(self)@, id),
            at < final(self)@.len(),
            final(self)@[at as int].id == id,
            final(self)@[at as int].value is Some,
    {
        let ghost before = self@;
        match self.find(id) {
            Some(i) => {
                if self.slots[i].cell.get().is_none() {
                    let filled = BorrowCell::get_mut(&mut self.slots[i].cell);
                    *filled = Some(value);
                    assert(self@ =~= before.update(i as int, before[i as int].with_value(Some(value))));
                }
                assert(self@[i as int].id == id);
                i
            },
            None => {
                let slot = StorageSlot {
                    id,
                    thread_req: req,
                    cell: BorrowCell::with_requirement(Some(value), req, thread),
                };
                self.slots.push(slot);
                assert(self@ =~= before.push(SlotState::created(id, value, req, thread)));
                let at = self.slots.len() - 1;
                assert(self@[at as int].id == id);
                at
            },
        }
    }

    /// Takes a borrow of the slot at `index` for `thread`.
    pub fn borrow_slot(&mut self, index: usize, exclusive: bool, thread: ThreadId) -> (r: Result<
        (),
        Borrow,
    >)
        requires
            old(self).wf(),
            index < old(self)@.len(),
        ensures
            final(self).wf(),
            r == old(self)@[index as int].cell.outcome(exclusive, thread),
            final(self)@ == if r is Ok {
                old(self)@.update(
                    index as int,
                    old(self)@[index as int].with_cell(
                        old(self)@[index as int].cell.granted(exclusive),
                    ),
                )
            } else {
                old(self)@
            },
    {
        let ghost before = self@;
        let r = if exclusive {
            self.slots[index].cell.try_borrow_mut(thread)
        } else {
            self.slots[index].cell.try_borrow(thread)
        };
        proof {
            if r is Ok {
                assert(self@ =~= before.update(
                    index as int,
                    before[index as int].with_cell(before[index as int].cell.granted(exclusive)),
                ));
            } else {
                assert(self@ =~= before);
            }
        }
        r
    }

    /// Gives back a borrow of the slot at `index`. With an exclusive borrow
    /// that is held, `write` replaces the storage object, if it is `Some`.
    pub fn release_slot(&mut self, index: usize, exclusive: bool, write: Option<T>)
        requires
            old(self).wf(),
            index < old(self)@.len(),
        ensures
            final(self).wf(),
            final(self)@ == old(self)@.update(
                index as int,
                released(old(self)@[index as int], exclusive, write),
            ),
    {
        let ghost before = self@;
        if exclusive {
            if self.slots[index].cell.is_exclusive() {
                if write.is_some() {
                    let held = BorrowCell::get_mut(&mut self.slots[index].cell);
                    *held = write;
                }
            }
            self.slots[index].cell.release_mut();
        } else {
            self.slots[index].cell.release();
        }
        assert(self@ =~= before.update(index as int, released(before[index as int], exclusive, write)));
    }

    /// Takes the storage object out of the storage of identity `id` and
    /// leaves the slot empty. `name` is the name under which errors report
    /// the storage.
    pub fn try_remove_unique(&mut self, id: StorageId, name: &String, thread: ThreadId) -> (r:
        Result<T, UniqueRemove>)
        requires
            old(self).wf(),
        ensures
            final(self).wf(),
            r == unique_removal(old(self)@, id, *name, thread),
            final(self)@ == if r is Ok {
                drained(old(self)@, id)
            } else {
                old(self)@
            },
    {
        let ghost before = self@;
        match self.find(id) {
            None => Err(UniqueRemove::MissingUnique(name.clone())),
            Some(i) => {
                match *self.slots[i].cell.get() {
                    None => Err(UniqueRemove::MissingUnique(name.clone())),
                    Some(value) => {
                        match self.slots[i].cell.can_borrow(true, thread) {
                            Err(e) => Err(UniqueRemove::StorageBorrow(name.clone(), e)),
                            Ok(()) => {
                                let held = BorrowCell::get_mut(&mut self.slots[i].cell);
                                *held = None;
                                assert(self@ =~= before.update(
                                    i as int,
                                    before[i as int].with_value(None),
                                ));
                                Ok(value)
                            },
                        }
                    },
                }
            },
        }
    }

    /// Applies `hook` to every storage object that `thread` could borrow
    /// exclusively and whose identity is not in `excluded`. A storage that
    /// is borrowed is left as it is and reported as busy; the operation goes
    /// on with the next. Returns the identities of the busy storages, in
    /// slot order, and whether the hook raised its flag for any storage.
    pub fn for_each_storage<H: Fn(T, Option<EntityId>) -> (T, bool)>(
        &mut self,
        hook: &H,
        entity: Option<EntityId>,
        excluded: &Vec<StorageId>,
        thread: ThreadId,
    ) -> (r: (Vec<StorageId>, bool))
        requires
            old(self).wf(),
            accepts(hook, entity, excluded@, thread, old(self)@),
        ensures
            final(self).wf(),
            swept(hook, entity, excluded@, thread, old(self)@, final(self)@, r.1),
            r.0@ == busy_ids(skipping(old(self)@, excluded@), thread, old(self)@.len() as int),
    {
        let ghost before = self@;
        let ghost mut flags: Seq<bool> = Seq::empty();
        let mut busy: Vec<StorageId> = Vec::new();
        let mut any = false;
        let mut i: usize = 0;
        while i < self.slots.len()
            invariant
                i <= self.slots.len(),
                self.wf(),
                self@.len() == before.len(),
                accepts(hook, entity, excluded@, thread, before),
                flags.len() == i,
                forall|j: int|
                    0 <= j < i ==> hooked(
                        hook,
                        entity,
                        excluded@,
                        thread,
                        #[trigger] before[j],
                        self@[j],
                        flags[j],
                    ),
                forall|j: int| i <= j < before.len() ==> self@[j] == #[trigger] before[j],
                any == flags.contains(true),
                busy@ == busy_ids(skipping(before, excluded@), thread, i as int),
            decreases self.slots.len() - i,
        {
            let ghost current = self@;
            let ghost earlier = flags;
            let skip = contains_id(excluded, self.slots[i].id);
            let value = *self.slots[i].cell.get();
            assert(skipping(before, excluded@)[i as int] == if skip {
                before[i as int].with_value(None)
            } else {
                before[i as int]
            });
            let mut flag = false;
            match value {
                Some(v) => {
                    if !skip {
                        if self.slots[i].cell.can_borrow(true, thread).is_ok() {
                            assert(reached(before[i as int], excluded@, thread));
                            let (changed, raised) = hook(v, entity);
                            flag = raised;
                            let held = BorrowCell::get_mut(&mut self.slots[i].cell);
                            *held = Some(changed);
                            assert(self@ =~= current.update(
                                i as int,
                                current[i as int].with_value(Some(changed)),
                            ));
                        } else {
                            busy.push(self.slots[i].id);
                        }
                    }
                },
                None => {},
            }
            if flag {
                any = true;
            }
            proof {
                flags = earlier.push(flag);
                assert(flags[i as int] == flag);
                assert forall|j: int| 0 <= j < i implies flags[j] == earlier[j] by {}
                if earlier.contains(true) {
                    let w = choose|w: int| 0 <= w < earlier.len() && earlier[w] == true;
                    assert(flags[w] == true);
                }
                if flags.contains(true) && !flag {
                    let w = choose|w: int| 0 <= w < flags.len() && flags[w] == true;
                    assert(earlier[w] == true);
                }
            }
            i += 1;
        }
        (busy, any)
    }
}

/// A slot once a borrow of the given kind was given back. With an exclusive
/// borrow that is held, `write` replaces the storage object if it is `Some`.
pub open spec fn released<T>(slot: SlotState<T>, exclusive: bool, write: Option<T>) -> SlotState<
    T,
> {
    SlotState {
        cell: slot.cell.given_back(exclusive),
        value: if exclusive && slot.cell.count == -1 && write is Some {
            write
        } else {
            slot.value
        },
        ..slot
    }
}

/// The slot map once the storage of identity `id` was drained: the slot
/// stays, with its identity, its requirement and its cell, and holds nothing.
pub open spec fn drained<T>(slots: Seq<SlotState<T>>, id: StorageId) -> Seq<SlotState<T>> {
    slots.update(position(slots, id), slots[position(slots, id)].with_value(None))
}

/// Outcome of the removal of the unique value of identity `id`: a storage
/// that is absent or drained is missing; one that `thread` cannot borrow
/// exclusively refuses; otherwise the value comes out.
pub open spec fn unique_removal<T>(
    slots: Seq<SlotState<T>>,
    id: StorageId,
    name: String,
    thread: ThreadId,
) -> Result<T, UniqueRemove> {
    if !is_stored(slots, id) {
        Err(UniqueRemove::MissingUnique(name))
    } else {
        match slots[position(slots, id)].cell.exclusive_outcome(thread) {
            Err(e) => Err(UniqueRemove::StorageBorrow(name, e)),
            Ok(()) => Ok(slots[position(slots, id)].value.unwrap()),
        }
    }
}

/// The slot map as a bulk operation sees it that passes over the storages
/// of the identities in `excluded`: those count as holding nothing.
pub open spec fn skipping<T>(slots: Seq<SlotState<T>>, excluded: Seq<StorageId>) -> Seq<
    SlotState<T>,
> {
    Seq::new(
        slots.len(),
        |i: int|
            if excluded.contains(slots[i].id) {
                slots[i].with_value(None)
            } else {
                slots[i]
            },
    )
}

/// Whether a bulk operation on behalf of `thread` reaches the storage of a
/// slot: it holds its object, is not excluded and is not busy.
pub open spec fn reached<T>(slot: SlotState<T>, excluded: Seq<StorageId>, thread: ThreadId) -> bool {
    slot.value is Some && !excluded.contains(slot.id) && !slot.busy(thread)
}

/// Whether `hook` can be called on every storage object that a bulk
/// operation reaches.
pub open spec fn accepts<T, H: Fn(T, Option<EntityId>) -> (T, bool)>(
    hook: &H,
    entity: Option<EntityId>,
    excluded: Seq<StorageId>,
    thread: ThreadId,
    slots: Seq<SlotState<T>>,
) -> bool {
    forall|i: int|
        0 <= i < slots.len() && reached(#[trigger] slots[i], excluded, thread) ==> call_requires(
            hook,
            (slots[i].value.unwrap(), entity),
        )
}

/// What a bulk operation with `hook` makes of one slot: a storage that it
/// does not reach stays as it is; any other holds what the hook made of its
/// object, and `flag` is the flag that the hook returned with it.
pub open spec fn hooked<T, H: Fn(T, Option<EntityId>) -> (T, bool)>(
    hook: &H,
    entity: Option<EntityId>,
    excluded: Seq<StorageId>,
    thread: ThreadId,
    before: SlotState<T>,
    after: SlotState<T>,
    flag: bool,
) -> bool {
    if reached(before, excluded, thread) {
        &&& after.value is Some
        &&& call_ensures(hook, (before.value.unwrap(), entity), (after.value.unwrap(), flag))
        &&& after == before.with_value(after.value)
    } else {
        after == before && !flag
    }
}

/// What a bulk operation with `hook` makes of a slot map: every slot is
/// `hooked`, and `any` tells whether the hook raised its flag for a storage.
pub open spec fn swept<T, H: Fn(T, Option<EntityId>) -> (T, bool)>(
    hook: &H,
    entity: Option<EntityId>,
    excluded: Seq<StorageId>,
    thread: ThreadId,
    before: Seq<SlotState<T>>,
    after: Seq<SlotState<T>>,
    any: bool,
) -> bool {
    &&& after.len() == before.len()
    &&& exists|flags: Seq<bool>|
        {
            &&& flags.len() == before.len()
            &&& any == #[trigger] flags.contains(true)
            &&& forall|i: int|
                0 <= i < before.len() ==> hooked(
                    hook,
                    entity,
                    excluded,
                    thread,
                    #[trigger] before[i],
                    after[i],
                    flags[i],
                )
        }
}

/// Whether `id` occurs in `ids`.
pub fn contains_id(ids: &Vec<StorageId>, id: StorageId) -> (r: bool)
    ensures
        r == ids@.contains(id),
{
    let mut i: usize = 0;
    while i < ids.len()
        invariant
            i <= ids.len(),
            forall|j: int| 0 <= j < i ==> ids@[j] != id,
        decreases ids.len() - i,
    {
        if ids[i] == id {
            return true;
        }
        i += 1;
    }
    false
}

} // verus!

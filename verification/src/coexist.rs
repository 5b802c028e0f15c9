//! What the conflict relation of the scheduler means for the cells: views
//! whose descriptors conflict over a storage cannot hold their borrows
//! together, and views whose descriptors do not can be constructed one
//! after another, in any order, wherever each of them can be constructed
//! by itself. So scheduling causes no borrow failure.
use vstd::prelude::*;
use crate::cell::{ThreadId, MAX_SHARED};
use crate::run::acquire_members;
use crate::scheduler::{
    conflict, is_all_exclusive, member, sets_conflict, BorrowDescriptor, Mutability,
};
use crate::storage::{has_slot, is_stored, position, provided, StorageId};
use crate::view::{
    acquire_all, acquire_one, lemma_acquire_wf, lemma_granted_wf, lemma_position, lemma_provided,
    requirement_of, RegistryState, ViewRequest, ViewTarget,
};
use crate::workload::{workload_batches_are_compatible, System, Workload};

verus! {

/// Whether two descriptors conflict over a storage: one asks for the whole
/// registry exclusively, or both ask for one storage and not both shared.
pub open spec fn storage_conflict(a: BorrowDescriptor, b: BorrowDescriptor) -> bool {
    ||| is_all_exclusive(a)
    ||| is_all_exclusive(b)
    ||| (a.storage == b.storage && (a.mutability == Mutability::Exclusive || b.mutability
        == Mutability::Exclusive))
}

/// Identity of the storage that a view reaches, unless it reaches the
/// whole registry.
pub open spec fn storage_of<T>(v: ViewRequest<T>) -> Option<StorageId> {
    match v.target {
        ViewTarget::AllStorages => None,
        ViewTarget::Unique(id) => Some(id),
        ViewTarget::Storage(id, _) => Some(id),
    }
}

/// Whether a view that was constructed holds a borrow: a view of the whole
/// registry always does, any other where it shows a storage object.
pub open spec fn holds_borrow<T>(v: ViewRequest<T>, shown: Option<T>) -> bool {
    v.target is AllStorages || shown is Some
}

/// The conflict relation is what the cells enforce: while a view holds its
/// borrow, a view whose descriptor conflicts with its descriptor over a
/// storage cannot be constructed, on whichever thread; the attempt fails
/// with a borrow error and changes nothing.
pub proof fn conflicting_views_cannot_coexist<T: Copy>(
    s: RegistryState<T>,
    first: ViewRequest<T>,
    second: ViewRequest<T>,
    thread: ThreadId,
    other: ThreadId,
)
    requires
        s.wf(),
        acquire_one(s, first, thread) is Ok,
        holds_borrow(first, acquire_one(s, first, thread)->Ok_0.1),
        storage_conflict(first.descriptor_of(), second.descriptor_of()),
    ensures
        acquire_one(acquire_one(s, first, thread)->Ok_0.0, second, other) is Err,
        acquire_one(acquire_one(s, first, thread)->Ok_0.0, second, other)->Err_0 is Borrow,
{
    let y = acquire_one(s, first, thread)->Ok_0.0;
    lemma_acquire_wf(s, first, thread);
    match first.target {
        ViewTarget::AllStorages => {},
        ViewTarget::Unique(id) => {
            let at = position(s.slots, id);
            assert(s.slots[at].id == id);
            assert(y.slots[at].id == id);
            lemma_position(y.slots, id, at);
            lemma_conflict_at(y, id, first.exclusive, second, other);
        },
        ViewTarget::Storage(id, initial) => {
            let req = requirement_of(first.gate, thread);
            lemma_provided(s.slots, id, initial, req, thread);
            let slots = provided(s.slots, id, initial, req, thread);
            let at = position(slots, id);
            assert(slots[at].id == id);
            assert(y.slots[at].id == id);
            lemma_position(y.slots, id, at);
            lemma_conflict_at(y, id, first.exclusive, second, other);
        },
    }
}

/// While a borrow of the storage of identity `id` is out, together with the
/// shared borrow of the slot map, a view that conflicts with it fails.
proof fn lemma_conflict_at<T: Copy>(
    y: RegistryState<T>,
    id: StorageId,
    exclusive: bool,
    second: ViewRequest<T>,
    other: ThreadId,
)
    requires
        y.wf(),
        y.cell.count > 0,
        is_stored(y.slots, id),
        if exclusive {
            y.slots[position(y.slots, id)].cell.count == -1
        } else {
            y.slots[position(y.slots, id)].cell.count > 0
        },
        second.target is AllStorages || (storage_of(second) == Some(id) && (exclusive
            || second.exclusive)),
    ensures
        acquire_one(y, second, other) is Err,
        acquire_one(y, second, other)->Err_0 is Borrow,
{
}

/// The construction of a view leaves every storage but its own as it
/// was, and in its place.
proof fn lemma_other_slots<T: Copy>(
    s: RegistryState<T>,
    first: ViewRequest<T>,
    thread: ThreadId,
    id: StorageId,
)
    requires
        s.wf(),
        acquire_one(s, first, thread) is Ok,
        storage_of(first) is Some,
        storage_of(first) != Some(id),
    ensures
        ({
            let y = acquire_one(s, first, thread)->Ok_0.0;
            &&& y.wf()
            &&& has_slot(y.slots, id) == has_slot(s.slots, id)
            &&& has_slot(s.slots, id) ==> position(y.slots, id) == position(s.slots, id)
                && y.slots[position(s.slots, id)] == s.slots[position(s.slots, id)]
        }),
{
    let y = acquire_one(s, first, thread)->Ok_0.0;
    let own = storage_of(first)->Some_0;
    lemma_acquire_wf(s, first, thread);
    if first.target is Storage {
        let initial = first.target->Storage_1;
        lemma_provided(s.slots, own, initial, requirement_of(first.gate, thread), thread);
    }
    if has_slot(s.slots, id) {
        let at = position(s.slots, id);
        assert(s.slots[at].id == id);
        assert(y.slots[at] == s.slots[at]);
        lemma_position(y.slots, id, at);
    }
    if has_slot(y.slots, id) {
        let at = position(y.slots, id);
        assert(y.slots[at].id == id);
        if at < s.slots.len() {
            assert(s.slots[at].id == id);
        }
    }
}

/// Views without a conflict over a storage coexist: where each of two views
/// can be constructed by itself, and their descriptors do not conflict over
/// a storage, the second can be constructed while the first holds its
/// borrow, on the same thread, as long as the counters have room.
pub proof fn compatible_views_coexist<T: Copy>(
    s: RegistryState<T>,
    first: ViewRequest<T>,
    second: ViewRequest<T>,
    thread: ThreadId,
)
    requires
        s.wf(),
        room(s, 2),
        acquire_one(s, first, thread) is Ok,
        acquire_one(s, second, thread) is Ok,
        !storage_conflict(first.descriptor_of(), second.descriptor_of()),
    ensures
        acquire_one(acquire_one(s, first, thread)->Ok_0.0, second, thread) is Ok,
{
    let y = acquire_one(s, first, thread)->Ok_0.0;
    lemma_acquire_wf(s, first, thread);
    let own = storage_of(first)->Some_0;
    let id = storage_of(second)->Some_0;
    assert(y.cell.shared_outcome(thread) is Ok);
    if own != id {
        lemma_other_slots(s, first, thread, id);
        if second.target is Storage {
            let initial = second.target->Storage_1;
            let req = requirement_of(second.gate, thread);
            lemma_provided(s.slots, id, initial, req, thread);
            lemma_provided(y.slots, id, initial, req, thread);
        }
    } else {
        if first.target is Storage {
            let initial = first.target->Storage_1;
            lemma_provided(s.slots, own, initial, requirement_of(first.gate, thread), thread);
        }
        if is_stored(y.slots, id) {
            let at = position(y.slots, id);
            assert(y.slots[at].id == id);
            if second.target is Storage {
                let initial = second.target->Storage_1;
                let req = requirement_of(second.gate, thread);
                lemma_provided(y.slots, id, initial, req, thread);
                assert(provided(y.slots, id, initial, req, thread) == y.slots);
            }
            if has_slot(s.slots, id) {
                let before = position(s.slots, id);
                assert(s.slots[before].id == id);
                assert(y.slots[before].id == id);
                lemma_position(y.slots, id, before);
            }
        } else {
            if has_slot(s.slots, id) {
                let before = position(s.slots, id);
                assert(s.slots[before].id == id);
                assert(y.slots[before].id == id);
                lemma_position(y.slots, id, before);
            }
            if has_slot(y.slots, id) {
                let at = position(y.slots, id);
                assert(y.slots[at].id == id);
            }
        }
    }
}

/// Whether every view of the list reaches a storage that is stored.
pub open spec fn settled<T>(s: RegistryState<T>, views: Seq<ViewRequest<T>>) -> bool {
    forall|i: int|
        0 <= i < views.len() ==> storage_of(#[trigger] views[i]) is Some && is_stored(
            s.slots,
            storage_of(views[i])->Some_0,
        )
}

/// Whether every counter of the registry leaves room for `k` more shared borrows.
pub open spec fn room<T>(s: RegistryState<T>, k: int) -> bool {
    &&& s.cell.count + k <= MAX_SHARED
    &&& forall|i: int| 0 <= i < s.slots.len() ==> (#[trigger] s.slots[i]).cell.count + k <= MAX_SHARED
}

/// Whether no view of `a` conflicts over a storage with a view of `b`.
pub open spec fn apart<T: Copy>(a: Seq<ViewRequest<T>>, b: Seq<ViewRequest<T>>) -> bool {
    forall|i: int, j: int|
        0 <= i < a.len() && 0 <= j < b.len() ==> !storage_conflict(
            (#[trigger] a[i]).descriptor_of(),
            (#[trigger] b[j]).descriptor_of(),
        )
}

/// The construction of a view of a stored storage asks the slot map for a
/// shared borrow and the storage for the borrow of the view, and changes
/// nothing but the two counters.
proof fn lemma_stored_step<T: Copy>(x: RegistryState<T>, v: ViewRequest<T>, t: ThreadId)
    requires
        x.wf(),
        storage_of(v) is Some,
        is_stored(x.slots, storage_of(v)->Some_0),
    ensures
        ({
            let i = position(x.slots, storage_of(v)->Some_0);
            &&& 0 <= i < x.slots.len()
            &&& x.slots[i].id == storage_of(v)->Some_0
            &&& acquire_one(x, v, t) is Ok <==> x.cell.shared_outcome(t) is Ok
                && x.slots[i].cell.outcome(v.exclusive, t) is Ok
            &&& acquire_one(x, v, t) is Ok ==> acquire_one(x, v, t)->Ok_0.0 == x.granted_at(
                i,
                v.exclusive,
            )
        }),
{
    let id = storage_of(v)->Some_0;
    let i = position(x.slots, id);
    assert(x.slots[i].id == id);
}

/// A borrow of slot `i` keeps the registry valid and every storage where
/// it is, stored or not as it was.
proof fn lemma_granted_keeps<T>(x: RegistryState<T>, i: int, exclusive: bool, id: StorageId)
    requires
        x.wf(),
        0 <= i < x.slots.len(),
        x.slots[i].cell.granted(exclusive).wf(),
        x.cell.granted(false).wf(),
    ensures
        x.granted_at(i, exclusive).wf(),
        has_slot(x.granted_at(i, exclusive).slots, id) == has_slot(x.slots, id),
        has_slot(x.slots, id) ==> position(x.granted_at(i, exclusive).slots, id) == position(
            x.slots,
            id,
        ),
        is_stored(x.granted_at(i, exclusive).slots, id) == is_stored(x.slots, id),
{
    let y = x.granted_at(i, exclusive);
    lemma_granted_wf(x.slots, y.slots, i);
    if has_slot(x.slots, id) {
        let at = position(x.slots, id);
        assert(x.slots[at].id == id);
        assert(y.slots[at].id == id);
        lemma_position(y.slots, id, at);
    }
    if has_slot(y.slots, id) {
        let at = position(y.slots, id);
        assert(y.slots[at].id == id);
        assert(x.slots[at].id == id);
    }
}

/// Two views of stored storages without a conflict between them can be
/// constructed in either order, with the same registry in the end.
proof fn lemma_swap<T: Copy>(x: RegistryState<T>, a: ViewRequest<T>, b: ViewRequest<T>, t: ThreadId)
    requires
        x.wf(),
        room(x, 2),
        storage_of(a) is Some,
        storage_of(b) is Some,
        is_stored(x.slots, storage_of(a)->Some_0),
        is_stored(x.slots, storage_of(b)->Some_0),
        !storage_conflict(a.descriptor_of(), b.descriptor_of()),
        acquire_one(x, a, t) is Ok,
        acquire_one(x, b, t) is Ok,
    ensures
        acquire_one(acquire_one(x, a, t)->Ok_0.0, b, t) is Ok,
        acquire_one(acquire_one(x, b, t)->Ok_0.0, a, t) is Ok,
        acquire_one(acquire_one(x, a, t)->Ok_0.0, b, t)->Ok_0.0 == acquire_one(
            acquire_one(x, b, t)->Ok_0.0,
            a,
            t,
        )->Ok_0.0,
{
    let ia = storage_of(a)->Some_0;
    let ib = storage_of(b)->Some_0;
    let i = position(x.slots, ia);
    let j = position(x.slots, ib);
    lemma_stored_step(x, a, t);
    lemma_stored_step(x, b, t);
    let ya = x.granted_at(i, a.exclusive);
    let yb = x.granted_at(j, b.exclusive);
    lemma_granted_keeps(x, i, a.exclusive, ib);
    lemma_granted_keeps(x, j, b.exclusive, ia);
    lemma_stored_step(ya, b, t);
    lemma_stored_step(yb, a, t);
    assert(ya.granted_at(j, b.exclusive).slots =~= yb.granted_at(i, a.exclusive).slots);
}

/// The construction of a view of a stored storage keeps the registry
/// valid, uses up room for one borrow, and leaves stored what was stored.
proof fn lemma_step_keeps<T: Copy>(
    x: RegistryState<T>,
    v: ViewRequest<T>,
    t: ThreadId,
    k: int,
    others: Seq<ViewRequest<T>>,
)
    requires
        x.wf(),
        storage_of(v) is Some,
        is_stored(x.slots, storage_of(v)->Some_0),
        acquire_one(x, v, t) is Ok,
        room(x, k),
        k >= 1,
        settled(x, others),
    ensures
        acquire_one(x, v, t)->Ok_0.0.wf(),
        room(acquire_one(x, v, t)->Ok_0.0, k - 1),
        settled(acquire_one(x, v, t)->Ok_0.0, others),
{
    let i = position(x.slots, storage_of(v)->Some_0);
    lemma_stored_step(x, v, t);
    let y = x.granted_at(i, v.exclusive);
    lemma_granted_keeps(x, i, v.exclusive, storage_of(v)->Some_0);
    assert forall|n: int| 0 <= n < y.slots.len() implies (#[trigger] y.slots[n]).cell.count + (k - 1)
        <= MAX_SHARED by {
        assert(x.slots[n].cell.count + k <= MAX_SHARED);
    }
    assert forall|n: int| 0 <= n < others.len() implies storage_of(#[trigger] others[n]) is Some
        && is_stored(y.slots, storage_of(others[n])->Some_0) by {
        lemma_granted_keeps(x, i, v.exclusive, storage_of(others[n])->Some_0);
    }
}

/// The construction of the first `n` views of a list of views of stored
/// storages keeps the registry valid, uses up room for `n` borrows, and
/// leaves stored what was stored.
proof fn lemma_all_keep<T: Copy>(
    x: RegistryState<T>,
    views: Seq<ViewRequest<T>>,
    n: int,
    t: ThreadId,
    k: int,
    others: Seq<ViewRequest<T>>,
)
    requires
        x.wf(),
        0 <= n <= views.len(),
        settled(x, views),
        settled(x, others),
        acquire_all(x, views, n, t).error is None,
        room(x, k),
        k >= n,
    ensures
        acquire_all(x, views, n, t).state.wf(),
        room(acquire_all(x, views, n, t).state, k - n),
        settled(acquire_all(x, views, n, t).state, others),
        settled(acquire_all(x, views, n, t).state, views),
    decreases n,
{
    if n > 0 {
        lemma_all_keep(x, views, n - 1, t, k, others);
        let x1 = acquire_all(x, views, n - 1, t).state;
        assert(storage_of(views[n - 1]) is Some);
        lemma_step_keeps(x1, views[n - 1], t, k - (n - 1), others);
        lemma_step_keeps(x1, views[n - 1], t, k - (n - 1), views);
    }
}

/// A view that can be constructed before a list of views without a
/// conflict with it can be constructed after them as well, with the same
/// registry in the end.
proof fn lemma_one_then_all<T: Copy>(
    x: RegistryState<T>,
    a: ViewRequest<T>,
    views: Seq<ViewRequest<T>>,
    n: int,
    t: ThreadId,
)
    requires
        x.wf(),
        0 <= n <= views.len(),
        settled(x, seq![a]),
        settled(x, views),
        apart(seq![a], views),
        acquire_one(x, a, t) is Ok,
        acquire_all(x, views, n, t).error is None,
        room(x, n + 1),
    ensures
        acquire_all(acquire_one(x, a, t)->Ok_0.0, views, n, t).error is None,
        acquire_one(acquire_all(x, views, n, t).state, a, t) is Ok,
        acquire_all(acquire_one(x, a, t)->Ok_0.0, views, n, t).state == acquire_one(
            acquire_all(x, views, n, t).state,
            a,
            t,
        )->Ok_0.0,
    decreases n,
{
    let single = seq![a];
    assert(single[0] == a);
    if n > 0 {
        lemma_one_then_all(x, a, views, n - 1, t);
        let x1 = acquire_all(x, views, n - 1, t).state;
        let b = views[n - 1];
        lemma_all_keep(x, views, n - 1, t, n + 1, single);
        assert(storage_of(single[0]) is Some && is_stored(x1.slots, storage_of(single[0])->Some_0));
        assert(storage_of(b) is Some && is_stored(x1.slots, storage_of(b)->Some_0));
        assert(!storage_conflict(single[0].descriptor_of(), views[n - 1].descriptor_of()));
        lemma_swap(x1, a, b, t);
    }
}

/// A list of views that can be constructed before another without a
/// conflict between the two leaves the other constructible.
proof fn lemma_all_then_all<T: Copy>(
    x: RegistryState<T>,
    first: Seq<ViewRequest<T>>,
    m: int,
    second: Seq<ViewRequest<T>>,
    t: ThreadId,
)
    requires
        x.wf(),
        0 <= m <= first.len(),
        settled(x, first),
        settled(x, second),
        apart(first, second),
        acquire_all(x, first, m, t).error is None,
        acquire_all(x, second, second.len() as int, t).error is None,
        room(x, m + second.len()),
    ensures
        acquire_all(acquire_all(x, first, m, t).state, second, second.len() as int, t).error
            is None,
    decreases m,
{
    if m > 0 {
        lemma_all_then_all(x, first, m - 1, second, t);
        let x1 = acquire_all(x, first, m - 1, t).state;
        let a = first[m - 1];
        lemma_all_keep(x, first, m - 1, t, m + second.len(), second);
        let single = seq![a];
        assert(single[0] == a);
        assert(settled(x1, single)) by {
            assert(storage_of(first[m - 1]) is Some);
        }
        assert(apart(single, second)) by {
            assert forall|i: int, j: int| 0 <= i < single.len() && 0 <= j < second.len() implies
                !storage_conflict(
                (#[trigger] single[i]).descriptor_of(),
                (#[trigger] second[j]).descriptor_of(),
            ) by {
                assert(!storage_conflict(first[m - 1].descriptor_of(), second[j].descriptor_of()));
            }
        }
        lemma_one_then_all(x1, a, second, second.len() as int, t);
    }
}

/// The views of member `p` of a batch.
pub open spec fn views_of<T: Copy, F: Fn(Vec<Option<T>>) -> Result<Vec<Option<T>>, String>>(
    systems: Seq<System<T, F>>,
    batch: Seq<usize>,
    p: int,
) -> Seq<ViewRequest<T>> {
    systems[batch[p] as int].views@
}

/// Number of views that the first `m` members of a batch declare together.
pub open spec fn views_in<T: Copy, F: Fn(Vec<Option<T>>) -> Result<Vec<Option<T>>, String>>(
    systems: Seq<System<T, F>>,
    batch: Seq<usize>,
    m: int,
) -> int
    decreases m,
{
    if m <= 0 {
        0
    } else {
        views_in(systems, batch, m - 1) + views_of(systems, batch, m - 1).len()
    }
}

/// What makes a batch safe to run on registry `s`: every view reaches a
/// storage that is stored, each member can construct its views by itself,
/// no view of a member conflicts over a storage with a view of another,
/// and the counters have room for one borrow per view.
pub open spec fn well_scheduled<T: Copy, F: Fn(Vec<Option<T>>) -> Result<Vec<Option<T>>, String>>(
    s: RegistryState<T>,
    systems: Seq<System<T, F>>,
    batch: Seq<usize>,
    t: ThreadId,
) -> bool {
    &&& s.wf()
    &&& forall|p: int| 0 <= p < batch.len() ==> settled(s, #[trigger] views_of(systems, batch, p))
    &&& forall|p: int|
        0 <= p < batch.len() ==> acquire_all(
            s,
            #[trigger] views_of(systems, batch, p),
            views_of(systems, batch, p).len() as int,
            t,
        ).error is None
    &&& forall|p: int, q: int|
        0 <= p < batch.len() && 0 <= q < batch.len() && p != q ==> apart(
            #[trigger] views_of(systems, batch, p),
            #[trigger] views_of(systems, batch, q),
        )
    &&& room(s, views_in(systems, batch, batch.len() as int))
}

/// More members declare no fewer views.
proof fn lemma_views_grow<T: Copy, F: Fn(Vec<Option<T>>) -> Result<Vec<Option<T>>, String>>(
    systems: Seq<System<T, F>>,
    batch: Seq<usize>,
    m: int,
    n: int,
)
    requires
        0 <= m <= n,
    ensures
        views_in(systems, batch, m) <= views_in(systems, batch, n),
    decreases n - m,
{
    if m < n {
        lemma_views_grow(systems, batch, m, n - 1);
    }
}

/// The first `m` members of a well scheduled batch construct their views
/// without an error, and leave the members after them as able to
/// construct theirs as they were.
proof fn lemma_members_go<T: Copy, F: Fn(Vec<Option<T>>) -> Result<Vec<Option<T>>, String>>(
    s: RegistryState<T>,
    systems: Seq<System<T, F>>,
    batch: Seq<usize>,
    m: int,
    t: ThreadId,
)
    requires
        well_scheduled(s, systems, batch, t),
        0 <= m <= batch.len(),
    ensures
        acquire_members(s, systems, batch, m, t).error is None,
        acquire_members(s, systems, batch, m, t).state.wf(),
        room(
            acquire_members(s, systems, batch, m, t).state,
            views_in(systems, batch, batch.len() as int) - views_in(systems, batch, m),
        ),
        forall|q: int|
            m <= q < batch.len() ==> settled(
                acquire_members(s, systems, batch, m, t).state,
                #[trigger] views_of(systems, batch, q),
            ) && acquire_all(
                acquire_members(s, systems, batch, m, t).state,
                views_of(systems, batch, q),
                views_of(systems, batch, q).len() as int,
                t,
            ).error is None,
    decreases m,
{
    let total = views_in(systems, batch, batch.len() as int);
    if m > 0 {
        lemma_members_go(s, systems, batch, m - 1, t);
        let x = acquire_members(s, systems, batch, m - 1, t).state;
        let first = views_of(systems, batch, m - 1);
        let left = total - views_in(systems, batch, m - 1);
        assert(settled(x, first));
        lemma_views_grow(systems, batch, m, batch.len() as int);
        lemma_all_keep(x, first, first.len() as int, t, left, first);
        let y = acquire_members(s, systems, batch, m, t).state;
        assert(y == acquire_all(x, first, first.len() as int, t).state);
        assert forall|q: int| m <= q < batch.len() implies settled(
            y,
            #[trigger] views_of(systems, batch, q),
        ) && acquire_all(
            y,
            views_of(systems, batch, q),
            views_of(systems, batch, q).len() as int,
            t,
        ).error is None by {
            let second = views_of(systems, batch, q);
            assert(settled(x, second));
            assert(apart(first, second));
            lemma_views_grow(systems, batch, q + 1, batch.len() as int);
            lemma_views_grow(systems, batch, m, q);
            lemma_all_then_all(x, first, first.len() as int, second, t);
            lemma_all_keep(x, first, first.len() as int, t, left, second);
        }
    } else {
        assert forall|q: int| 0 <= q < batch.len() implies settled(
            s,
            #[trigger] views_of(systems, batch, q),
        ) by {}
    }
}

/// Scheduling causes no borrow failure: in a batch whose members can each
/// construct their views by themselves, and whose members' views do not
/// conflict over a storage, every member constructs its views when the
/// members take their turn one after another.
pub proof fn scheduling_causes_no_borrow_failure<
    T: Copy,
    F: Fn(Vec<Option<T>>) -> Result<Vec<Option<T>>, String>,
>(s: RegistryState<T>, systems: Seq<System<T, F>>, batch: Seq<usize>, t: ThreadId)
    requires
        well_scheduled(s, systems, batch, t),
    ensures
        acquire_members(s, systems, batch, batch.len() as int, t).error is None,
{
    lemma_members_go(s, systems, batch, batch.len() as int, t);
}

/// The batches that the scheduler compiles cause no borrow failure: in a
/// batch of a compiled workload whose members can each construct their
/// views by themselves, every member constructs its views when the
/// members take their turn one after another, provided that the storages
/// they reach are stored and the counters have room for their borrows.
pub proof fn compiled_batch_causes_no_borrow_failure<
    T: Copy,
    F: Fn(Vec<Option<T>>) -> Result<Vec<Option<T>>, String>,
>(s: RegistryState<T>, workload: Workload<T, F>, k: int, t: ThreadId)
    requires
        workload.wf(),
        0 <= k < workload.plan_of().len(),
        s.wf(),
        forall|p: int|
            0 <= p < workload.plan_of()[k]@.len() ==> settled(
                s,
                #[trigger] views_of(workload.systems_of(), workload.plan_of()[k]@, p),
            ),
        forall|p: int|
            0 <= p < workload.plan_of()[k]@.len() ==> acquire_all(
                s,
                #[trigger] views_of(workload.systems_of(), workload.plan_of()[k]@, p),
                views_of(workload.systems_of(), workload.plan_of()[k]@, p).len() as int,
                t,
            ).error is None,
        room(
            s,
            views_in(
                workload.systems_of(),
                workload.plan_of()[k]@,
                workload.plan_of()[k]@.len() as int,
            ),
        ),
    ensures
        acquire_members(
            s,
            workload.systems_of(),
            workload.plan_of()[k]@,
            workload.plan_of()[k]@.len() as int,
            t,
        ).error is None,
{
    let systems = workload.systems_of();
    let batch = workload.plan_of()[k]@;
    assert forall|p: int, q: int|
        0 <= p < batch.len() && 0 <= q < batch.len() && p != q implies apart(
        #[trigger] views_of(systems, batch, p),
        #[trigger] views_of(systems, batch, q),
    ) by {
        workload_batches_are_compatible(workload, k, p, q);
        let first = views_of(systems, batch, p);
        let second = views_of(systems, batch, q);
        let a = systems[member(workload.plan_of(), k, p)].descriptors_of();
        let b = systems[member(workload.plan_of(), k, q)].descriptors_of();
        assert forall|i: int, j: int| 0 <= i < first.len() && 0 <= j < second.len() implies
            !storage_conflict(
            (#[trigger] first[i]).descriptor_of(),
            (#[trigger] second[j]).descriptor_of(),
        ) by {
            assert(a[i] == first[i].descriptor_of());
            assert(b[j] == second[j].descriptor_of());
            if storage_conflict(a[i], b[j]) {
                assert(conflict(a[i], b[j]));
                assert(sets_conflict(a, b));
            }
        }
    }
    scheduling_causes_no_borrow_failure(s, systems, batch, t);
}

} // verus!

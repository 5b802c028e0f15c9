//! Borrow arbitration: a cell that counts shared and exclusive borrows and
//! checks the calling thread against the thread it may be pinned to.
use vstd::prelude::*;
use crate::error::Borrow;

verus! {

/// Identity of a thread, chosen by the caller; two threads never share one.
#[derive(Clone, Copy, Debug, PartialEq, Eq, Structural)]
pub struct ThreadId(pub u64);

/// Largest number of shared borrows that one cell hands out at a time.
pub const MAX_SHARED: i16 = 32767;

/// What the capability set of a stored value allows across threads.
#[derive(Clone, Copy, Debug, PartialEq, Eq, Structural)]
pub enum ThreadReq {
    /// No constraint declared.
    Any,
    /// The value may move between threads but not be shared.
    Send,
    /// The value may be shared but not move: exclusive access is pinned.
    Sync,
    /// The value may move and be shared.
    SendAndSync,
    /// The value may neither move nor be shared: every access is pinned.
    PinnedTo(ThreadId),
}

/// What a borrow cell knows besides its value.
pub struct CellState {
    /// `-1` while the exclusive borrow is out, `0` while the cell is free,
    /// `k > 0` while `k` shared borrows are out.
    pub count: int,
    /// The thread the cell is pinned to, if any.
    pub owner: Option<ThreadId>,
    /// Whether shared borrows are open to every thread although the cell is pinned.
    pub sync_required: bool,
}

impl CellState {
    /// The counter stays within its three kinds of state.
    pub open spec fn wf(self) -> bool {
        -1 <= self.count <= MAX_SHARED
    }

    /// A free cell that is open to every thread.
    pub open spec fn free() -> CellState {
        CellState { count: 0, owner: None, sync_required: false }
    }

    /// A free cell for a value of requirement `req`, created on `thread`.
    pub open spec fn fresh(req: ThreadReq, thread: ThreadId) -> CellState {
        CellState { count: 0, owner: pin_of(req, thread), sync_required: req == ThreadReq::Sync }
    }

    /// Number of shared borrows that are out.
    pub open spec fn shared_guards(self) -> nat {
        if self.count > 0 {
            self.count as nat
        } else {
            0
        }
    }

    /// Number of exclusive borrows that are out.
    pub open spec fn exclusive_guards(self) -> nat {
        if self.count < 0 {
            1
        } else {
            0
        }
    }

    /// Outcome of a shared borrow from `thread`: the pin is checked first,
    /// then an exclusive borrow that is out, then the counter's maximum.
    pub open spec fn shared_outcome(self, thread: ThreadId) -> Result<(), Borrow> {
        if self.owner is Some && !self.sync_required && self.owner != Some(thread) {
            Err(Borrow::WrongThread)
        } else if self.count < 0 {
            Err(Borrow::Unique)
        } else if self.count >= MAX_SHARED {
            Err(Borrow::CountOverflow)
        } else {
            Ok(())
        }
    }

    /// Outcome of an exclusive borrow from `thread`: the pin is checked
    /// first, then an exclusive borrow that is out, then shared ones.
    pub open spec fn exclusive_outcome(self, thread: ThreadId) -> Result<(), Borrow> {
        if self.owner is Some && self.owner != Some(thread) {
            Err(Borrow::WrongThread)
        } else if self.count < 0 {
            Err(Borrow::Unique)
        } else if self.count > 0 {
            Err(Borrow::Shared)
        } else {
            Ok(())
        }
    }

    /// Outcome of a borrow of either kind.
    pub open spec fn outcome(self, exclusive: bool, thread: ThreadId) -> Result<(), Borrow> {
        if exclusive {
            self.exclusive_outcome(thread)
        } else {
            self.shared_outcome(thread)
        }
    }

    /// The state with another counter.
    pub open spec fn with_count(self, count: int) -> CellState {
        CellState { count, ..self }
    }

    /// The state once a borrow of the given kind was granted.
    pub open spec fn granted(self, exclusive: bool) -> CellState {
        if exclusive {
            self.with_count(-1)
        } else {
            self.with_count(self.count + 1)
        }
    }

    /// The state once a borrow of the given kind was given back; a state
    /// that holds no such borrow stays as it is.
    pub open spec fn given_back(self, exclusive: bool) -> CellState {
        if exclusive && self.count == -1 {
            self.with_count(0)
        } else if !exclusive && self.count > 0 {
            self.with_count(self.count - 1)
        } else {
            self
        }
    }
}

/// A value behind a borrow counter.
///
/// The cell arbitrates; it hands out no guard. A borrow that was granted
/// stays out until `release` or `release_mut` gives it back, and the
/// thread that asks is an argument of the call.
pub struct BorrowCell<T> {
    count: i16,
    owner: Option<ThreadId>,
    sync_required: bool,
    value: T,
}

impl<T> BorrowCell<T> {
    /// Counter and pin of the cell.
    pub closed spec fn state(&self) -> CellState {
        CellState { count: self.count as int, owner: self.owner, sync_required: self.sync_required }
    }

    /// The guarded value.
    pub closed spec fn value(&self) -> T {
        self.value
    }

    /// The counter stays within its three kinds of state.
    pub open spec fn wf(&self) -> bool {
        self.state().wf()
    }

    /// A free cell that any thread may borrow.
    pub fn new(value: T) -> (cell: Self)
        ensures
            cell.state() == CellState::free(),
            cell.value() == value,
    {
        BorrowCell { count: 0, owner: None, sync_required: false, value }
    }

    /// A free cell for a value with the given thread requirement, created on
    /// `thread`: a `Sync`-only value pins exclusive borrows to the creating
    /// thread, `PinnedTo` pins every borrow to the thread it names.
    pub fn with_requirement(value: T, req: ThreadReq, thread: ThreadId) -> (cell: Self)
        ensures
            cell.state() == CellState::fresh(req, thread),
            cell.value() == value,
    {
        match req {
            ThreadReq::Sync => BorrowCell {
                count: 0,
                owner: Some(thread),
                sync_required: true,
                value,
            },
            ThreadReq::PinnedTo(t) => BorrowCell {
                count: 0,
                owner: Some(t),
                sync_required: false,
                value,
            },
            _ => BorrowCell { count: 0, owner: None, sync_required: false, value },
        }
    }

    /// Takes a shared borrow for `thread`.
    pub fn try_borrow(&mut self, thread: ThreadId) -> (r: Result<(), Borrow>)
        requires
            old(self).wf(),
        ensures
            final(self).wf(),
            r == old(self).state().shared_outcome(thread),
            final(self).value() == old(self).value(),
            final(self).state() == if r is Ok {
                old(self).state().granted(false)
            } else {
                old(self).state()
            },
    {
        if self.pinned_away(thread, false) {
            Err(Borrow::WrongThread)
        } else if self.count < 0 {
            Err(Borrow::Unique)
        } else if self.count >= MAX_SHARED {
            Err(Borrow::CountOverflow)
        } else {
            self.count = self.count + 1;
            Ok(())
        }
    }

    /// Takes the exclusive borrow for `thread`.
    pub fn try_borrow_mut(&mut self, thread: ThreadId) -> (r: Result<(), Borrow>)
        requires
            old(self).wf(),
        ensures
            final(self).wf(),
            r == old(self).state().exclusive_outcome(thread),
            final(self).value() == old(self).value(),
            final(self).state() == if r is Ok {
                old(self).state().granted(true)
            } else {
                old(self).state()
            },
    {
        if self.pinned_away(thread, true) {
            Err(Borrow::WrongThread)
        } else if self.count < 0 {
            Err(Borrow::Unique)
        } else if self.count > 0 {
            Err(Borrow::Shared)
        } else {
            self.count = -1;
            Ok(())
        }
    }

    /// Whether the pin keeps `thread` from a borrow of the given kind.
    fn pinned_away(&self, thread: ThreadId, exclusive: bool) -> (away: bool)
        ensures
            away == (self.state().owner is Some && (exclusive || !self.state().sync_required)
                && self.state().owner != Some(thread)),
    {
        match self.owner {
            Some(owner) => (exclusive || !self.sync_required) && owner.0 != thread.0,
            None => false,
        }
    }

    /// Whether a borrow of the given kind would be granted to `thread`; the
    /// cell stays as it is.
    pub fn can_borrow(&self, exclusive: bool, thread: ThreadId) -> (r: Result<(), Borrow>)
        ensures
            r == self.state().outcome(exclusive, thread),
    {
        if self.pinned_away(thread, exclusive) {
            Err(Borrow::WrongThread)
        } else if self.count < 0 {
            Err(Borrow::Unique)
        } else if exclusive && self.count > 0 {
            Err(Borrow::Shared)
        } else if !exclusive && self.count >= MAX_SHARED {
            Err(Borrow::CountOverflow)
        } else {
            Ok(())
        }
    }

    /// Gives back one shared borrow; a cell that holds none stays as it is.
    pub fn release(&mut self)
        requires
            old(self).wf(),
        ensures
            final(self).wf(),
            final(self).value() == old(self).value(),
            final(self).state() == old(self).state().given_back(false),
    {
        if self.count > 0 {
            self.count = self.count - 1;
        }
    }

    /// Gives back the exclusive borrow; a cell that does not hold it stays
    /// as it is.
    pub fn release_mut(&mut self)
        requires
            old(self).wf(),
        ensures
            final(self).wf(),
            final(self).value() == old(self).value(),
            final(self).state() == old(self).state().given_back(true),
    {
        if self.count == -1 {
            self.count = 0;
        }
    }

    /// Whether no borrow is out.
    pub fn is_free(&self) -> (free: bool)
        ensures
            free == (self.state().count == 0),
    {
        self.count == 0
    }

    /// Whether the exclusive borrow is out.
    pub fn is_exclusive(&self) -> (exclusive: bool)
        ensures
            exclusive == (self.state().exclusive_guards() == 1),
    {
        self.count < 0
    }

    /// Number of shared borrows that are out.
    pub fn shared_count(&self) -> (n: u16)
        requires
            self.wf(),
        ensures
            n == self.state().shared_guards(),
    {
        if self.count > 0 {
            self.count as u16
        } else {
            0
        }
    }

    /// Reads the guarded value.
    pub fn get(&self) -> (value: &T)
        ensures
            *value == self.value(),
    {
        &self.value
    }

    /// Reaches the guarded value for a change. The counter and the pin stay
    /// as they are.
    pub fn get_mut(&mut self) -> (value: &mut T)
        ensures
            *value == old(self).value(),
            final(self).value() == *final(value),
            final(self).state() == old(self).state(),
    {
        &mut self.value
    }

    /// Unwraps the value.
    pub fn into_inner(self) -> (value: T)
        ensures
            value == self.value(),
    {
        self.value
    }
}

/// The thread that a cell for a value of requirement `req`, created on
/// `thread`, is pinned to.
pub open spec fn pin_of(req: ThreadReq, thread: ThreadId) -> Option<ThreadId> {
    match req {
        ThreadReq::Sync => Some(thread),
        ThreadReq::PinnedTo(t) => Some(t),
        _ => None,
    }
}

/// Borrow exclusivity: an exclusive guard never coexists with another guard.
/// In every state at most one exclusive guard is out, and then no shared
/// one; an exclusive borrow is granted only while no guard is out, a shared
/// one only while no exclusive guard is out; and after either grant the
/// state is again one in which this holds.
pub proof fn borrow_exclusivity(cell: CellState, thread: ThreadId)
    requires
        cell.wf(),
    ensures
        cell.exclusive_guards() <= 1,
        cell.exclusive_guards() == 1 ==> cell.shared_guards() == 0,
        cell.exclusive_outcome(thread) is Ok ==> cell.shared_guards() == 0
            && cell.exclusive_guards() == 0 && cell.granted(true).wf() && cell.granted(
            true,
        ).exclusive_guards() == 1,
        cell.shared_outcome(thread) is Ok ==> cell.exclusive_guards() == 0 && cell.granted(
            false,
        ).wf() && cell.granted(false).shared_guards() == cell.shared_guards() + 1,
        cell.exclusive_guards() == 1 ==> cell.shared_outcome(thread) is Err
            && cell.exclusive_outcome(thread) is Err,
        cell.given_back(true).wf(),
        cell.given_back(false).wf(),
{
}

/// Of two exclusive borrows asked of one free cell in a row, the first is
/// granted and the second refused with `Unique`, whichever threads ask,
/// unless the pin sends the second away before.
pub proof fn second_exclusive_is_refused(cell: CellState, first: ThreadId, second: ThreadId)
    requires
        cell.wf(),
        cell.exclusive_outcome(first) is Ok,
    ensures
        cell.granted(true).exclusive_outcome(second) is Err,
        cell.granted(true).exclusive_outcome(second) == Err::<(), Borrow>(
            if cell.owner is Some && cell.owner != Some(second) {
                Borrow::WrongThread
            } else {
                Borrow::Unique
            },
        ),
{
}

/// Thread pinning: a cell pinned to one thread refuses every exclusive borrow
/// from another with `WrongThread`, whatever its counter; unless shared
/// borrows are open to all threads, it refuses those in the same way.
pub proof fn pinned_refuses_other_threads(cell: CellState, thread: ThreadId)
    requires
        cell.owner is Some,
        cell.owner != Some(thread),
    ensures
        cell.exclusive_outcome(thread) == Err::<(), Borrow>(Borrow::WrongThread),
        !cell.sync_required ==> cell.shared_outcome(thread) == Err::<(), Borrow>(
            Borrow::WrongThread,
        ),
{
}

} // verus!

//! The workload scheduler: packs an ordered list of systems into batches whose
//! members never ask for incompatible access to one storage.
use vstd::prelude::*;
use crate::storage::StorageId;

verus! {

/// What a view borrows.
#[derive(Clone, Copy, Debug, PartialEq, Eq, Structural)]
pub enum Target {
    /// One storage of the registry.
    Storage(StorageId),
    /// The registry as a whole.
    AllStorages,
}

/// How a view borrows.
#[derive(Clone, Copy, Debug, PartialEq, Eq, Structural)]
pub enum Mutability {
    Shared,
    Exclusive,
}

/// Where a view may be used.
#[derive(Clone, Copy, Debug, PartialEq, Eq, Structural)]
pub enum ThreadRequirement {
    Any,
    RequiresMainThread,
}

/// Static description of one view of a system.
#[derive(Clone, Copy, Debug, PartialEq, Eq, Structural)]
pub struct BorrowDescriptor {
    pub storage: Target,
    pub mutability: Mutability,
    pub thread: ThreadRequirement,
}

/// Whether `d` asks for the whole registry exclusively.
pub open spec fn is_all_exclusive(d: BorrowDescriptor) -> bool {
    d.storage == Target::AllStorages && d.mutability == Mutability::Exclusive
}

/// The conflict relation between two descriptors: an exclusive borrow of the
/// whole registry conflicts with everything; two borrows of one storage
/// conflict unless both are shared; two borrows that need the main thread
/// conflict.
pub open spec fn conflict(a: BorrowDescriptor, b: BorrowDescriptor) -> bool {
    ||| is_all_exclusive(a)
    ||| is_all_exclusive(b)
    ||| (a.storage == b.storage && (a.mutability == Mutability::Exclusive || b.mutability
        == Mutability::Exclusive))
    ||| (a.thread == ThreadRequirement::RequiresMainThread && b.thread
        == ThreadRequirement::RequiresMainThread)
}

/// Whether some descriptor of `a` conflicts with some descriptor of `b`.
pub open spec fn sets_conflict(a: Seq<BorrowDescriptor>, b: Seq<BorrowDescriptor>) -> bool {
    exists|i: int, j: int| 0 <= i < a.len() && 0 <= j < b.len() && #[trigger] conflict(a[i], b[j])
}

/// Whether some descriptor of `a` asks for the whole registry exclusively.
pub open spec fn has_all_exclusive(a: Seq<BorrowDescriptor>) -> bool {
    exists|i: int| 0 <= i < a.len() && #[trigger] is_all_exclusive(a[i])
}

/// Whether system `i` may join a batch made of the systems `start..i`: it does
/// not ask for the whole registry exclusively and conflicts with none of them.
pub open spec fn fits(systems: Seq<Vec<BorrowDescriptor>>, start: int, i: int) -> bool {
    &&& !has_all_exclusive(systems[i]@)
    &&& forall|j: int| start <= j < i ==> !sets_conflict(#[trigger] systems[j]@, systems[i]@)
}

/// Index of the first system of the batch that holds system `i`: system `i`
/// stays in the batch of its predecessor if it fits there, and opens a batch
/// otherwise.
pub open spec fn batch_start(systems: Seq<Vec<BorrowDescriptor>>, i: int) -> int
    decreases i,
{
    if i <= 0 {
        0
    } else {
        let s = batch_start(systems, i - 1);
        if fits(systems, s, i) {
            s
        } else {
            i
        }
    }
}

/// System index at position `p` of batch `k`.
pub open spec fn member(plan: Seq<Vec<usize>>, k: int, p: int) -> int {
    plan[k]@[p] as int
}

/// Number of systems in batch `k`.
pub open spec fn size(plan: Seq<Vec<usize>>, k: int) -> int {
    plan[k]@.len() as int
}

/// The batches are non-empty runs of consecutive indices that follow one
/// another and cover `0..end`.
pub open spec fn runs(plan: Seq<Vec<usize>>, end: int) -> bool {
    &&& forall|k: int| 0 <= k < plan.len() ==> #[trigger] size(plan, k) > 0
    &&& forall|k: int, p: int|
        0 <= k < plan.len() && 0 <= p < size(plan, k) ==> #[trigger] member(plan, k, p) == member(
            plan,
            k,
            0,
        ) + p
    &&& forall|k: int|
        0 <= k < plan.len() - 1 ==> member(plan, k + 1, 0) == member(plan, k, 0) + #[trigger] size(
            plan,
            k,
        )
    &&& if plan.len() == 0 {
        end == 0
    } else {
        member(plan, 0, 0) == 0 && member(plan, plan.len() - 1, 0) + size(plan, plan.len() - 1)
            == end
    }
}

/// Every member of a batch belongs, by `batch_start`, to the batch's first system.
pub open spec fn grouped(systems: Seq<Vec<BorrowDescriptor>>, plan: Seq<Vec<usize>>) -> bool {
    forall|k: int, p: int|
        0 <= k < plan.len() && 0 <= p < size(plan, k) ==> batch_start(
            systems,
            #[trigger] member(plan, k, p),
        ) == member(plan, k, 0)
}

/// `plan` is the batch plan of `systems`: consecutive runs that cover every
/// system once, cut exactly where a system does not fit the batch before it.
pub open spec fn is_plan(systems: Seq<Vec<BorrowDescriptor>>, plan: Seq<Vec<usize>>) -> bool {
    runs(plan, systems.len() as int) && grouped(systems, plan)
}

/// The two plans of a workload.
pub struct Batches {
    /// Every system in program order.
    pub sequential: Vec<usize>,
    /// The batches in program order; the members of one may run concurrently.
    pub parallel: Vec<Vec<usize>>,
}

impl Batches {
    /// Both plans belong to `systems`.
    pub open spec fn is_for(&self, systems: Seq<Vec<BorrowDescriptor>>) -> bool {
        &&& self.sequential@ =~= Seq::new(systems.len(), |i: int| i as usize)
        &&& is_plan(systems, self.parallel@)
    }
}

/// Decides the conflict relation.
pub fn conflicts(a: &BorrowDescriptor, b: &BorrowDescriptor) -> (r: bool)
    ensures
        r == conflict(*a, *b),
{
    all_exclusive(a) || all_exclusive(b) || (a.storage == b.storage && (a.mutability
        == Mutability::Exclusive || b.mutability == Mutability::Exclusive)) || (a.thread
        == ThreadRequirement::RequiresMainThread && b.thread
        == ThreadRequirement::RequiresMainThread)
}

/// Decides whether a descriptor asks for the whole registry exclusively.
pub fn all_exclusive(d: &BorrowDescriptor) -> (r: bool)
    ensures
        r == is_all_exclusive(*d),
{
    d.storage == Target::AllStorages && d.mutability == Mutability::Exclusive
}

/// Decides whether a descriptor set asks for the whole registry exclusively.
pub fn holds_all_exclusive(a: &Vec<BorrowDescriptor>) -> (r: bool)
    ensures
        r == has_all_exclusive(a@),
{
    let mut i: usize = 0;
    while i < a.len()
        invariant
            i <= a.len(),
            forall|x: int| 0 <= x < i ==> !#[trigger] is_all_exclusive(a@[x]),
        decreases a.len() - i,
    {
        if all_exclusive(&a[i]) {
            return true;
        }
        i += 1;
    }
    false
}

/// Decides whether one descriptor conflicts with some descriptor of a set.
fn conflicts_with_any(d: &BorrowDescriptor, b: &Vec<BorrowDescriptor>) -> (r: bool)
    ensures
        r == exists|j: int| 0 <= j < b@.len() && #[trigger] conflict(*d, b@[j]),
{
    let mut j: usize = 0;
    while j < b.len()
        invariant
            j <= b.len(),
            forall|y: int| 0 <= y < j ==> !#[trigger] conflict(*d, b@[y]),
        decreases b.len() - j,
    {
        if conflicts(d, &b[j]) {
            return true;
        }
        j += 1;
    }
    false
}

/// Decides whether two descriptor sets conflict.
pub fn descriptor_sets_conflict(a: &Vec<BorrowDescriptor>, b: &Vec<BorrowDescriptor>) -> (r: bool)
    ensures
        r == sets_conflict(a@, b@),
{
    let mut i: usize = 0;
    while i < a.len()
        invariant
            i <= a.len(),
            forall|x: int, y: int|
                0 <= x < i && 0 <= y < b@.len() ==> !#[trigger] conflict(a@[x], b@[y]),
        decreases a.len() - i,
    {
        if conflicts_with_any(&a[i], b) {
            return true;
        }
        i += 1;
    }
    false
}

/// Decides whether system `i` may join the batch made of `start..i`.
fn joins(systems: &Vec<Vec<BorrowDescriptor>>, start: usize, i: usize) -> (r: bool)
    requires
        start <= i < systems.len(),
    ensures
        r == fits(systems@, start as int, i as int),
{
    if holds_all_exclusive(&systems[i]) {
        return false;
    }
    let mut j: usize = start;
    while j < i
        invariant
            start <= j <= i < systems.len(),
            forall|x: int|
                start <= x < j ==> !sets_conflict(#[trigger] systems@[x]@, systems@[i as int]@),
        decreases i - j,
    {
        if descriptor_sets_conflict(&systems[j], &systems[i]) {
            return false;
        }
        j += 1;
    }
    true
}

/// Compiles the descriptor sets of an ordered list of systems into its two
/// plans. Left to right, a system joins the current batch unless it asks for
/// the whole registry exclusively or conflicts with a member of the batch; it
/// then opens the next batch. No batch is empty.
pub fn compile(systems: &Vec<Vec<BorrowDescriptor>>) -> (batches: Batches)
    ensures
        batches.is_for(systems@),
{
    let n = systems.len();
    let mut sequential: Vec<usize> = Vec::new();
    let mut parallel: Vec<Vec<usize>> = Vec::new();
    let mut current: Vec<usize> = Vec::new();
    let mut start: usize = 0;
    let mut i: usize = 0;
    while i < n
        invariant
            n == systems.len(),
            start <= i <= n,
            i > 0 ==> start < i,
            sequential@ =~= Seq::new(i as nat, |x: int| x as usize),
            current@ =~= Seq::new((i - start) as nat, |p: int| (start + p) as usize),
            forall|x: int| start <= x < i ==> batch_start(systems@, x) == start,
            runs(parallel@, start as int),
            grouped(systems@, parallel@),
        decreases n - i,
    {
        let ghost before = start as int;
        if i > 0 && !joins(systems, start, i) {
            proof {
                lemma_close(systems@, parallel@, current, start as int, i as int);
            }
            parallel.push(current);
            current = Vec::new();
            start = i;
        }
        proof {
            if i > 0 {
                assert(batch_start(systems@, i as int - 1) == before);
            }
            assert(batch_start(systems@, i as int) == start);
        }
        current.push(i);
        sequential.push(i);
        i += 1;
    }
    if current.len() > 0 {
        proof {
            lemma_close(systems@, parallel@, current, start as int, i as int);
        }
        parallel.push(current);
    }
    Batches { sequential, parallel }
}

/// Appending the run `start..end` to closed batches that cover `0..start`
/// keeps them consecutive and grouped.
proof fn lemma_close(
    systems: Seq<Vec<BorrowDescriptor>>,
    plan: Seq<Vec<usize>>,
    current: Vec<usize>,
    start: int,
    end: int,
)
    requires
        0 <= start < end <= usize::MAX,
        runs(plan, start),
        grouped(systems, plan),
        current@ =~= Seq::new((end - start) as nat, |p: int| (start + p) as usize),
        forall|x: int| start <= x < end ==> batch_start(systems, x) == start,
    ensures
        runs(plan.push(current), end),
        grouped(systems, plan.push(current)),
{
    let next = plan.push(current);
    let last = plan.len() as int;
    assert(size(next, last) == end - start);
    assert forall|k: int| 0 <= k < next.len() implies #[trigger] size(next, k) > 0 by {
        if k < last {
            assert(size(plan, k) > 0);
        }
    }
    assert forall|k: int, p: int| 0 <= k < next.len() && 0 <= p < size(next, k) implies #[trigger] member(
        next,
        k,
        p,
    ) == member(next, k, 0) + p by {
        if k < last {
            assert(member(plan, k, p) == member(plan, k, 0) + p);
        }
    }
    assert forall|k: int| 0 <= k < next.len() - 1 implies member(next, k + 1, 0) == member(
        next,
        k,
        0,
    ) + #[trigger] size(next, k) by {
        if k < last - 1 {
            assert(member(plan, k + 1, 0) == member(plan, k, 0) + size(plan, k));
        } else {
            assert(size(plan, k) > 0);
        }
    }
    assert forall|k: int, p: int| 0 <= k < next.len() && 0 <= p < size(next, k) implies batch_start(
        systems,
        #[trigger] member(next, k, p),
    ) == member(next, k, 0) by {
        if k < last {
            assert(batch_start(systems, member(plan, k, p)) == member(plan, k, 0));
        }
    }
}

/// A later batch starts where the earlier ones have ended.
proof fn lemma_runs_ordered(plan: Seq<Vec<usize>>, end: int, ka: int, kb: int)
    requires
        runs(plan, end),
        0 <= ka < kb < plan.len(),
    ensures
        member(plan, ka, 0) + size(plan, ka) <= member(plan, kb, 0),
    decreases kb - ka,
{
    assert(size(plan, kb - 1) > 0);
    if kb > ka + 1 {
        lemma_runs_ordered(plan, end, ka, kb - 1);
    }
}

/// Every batch lies within `0..end`.
proof fn lemma_runs_bounded(plan: Seq<Vec<usize>>, end: int, k: int)
    requires
        runs(plan, end),
        0 <= k < plan.len(),
    ensures
        0 <= member(plan, k, 0),
        member(plan, k, 0) + size(plan, k) <= end,
{
    let last = plan.len() - 1;
    assert(size(plan, last) > 0);
    if k < last {
        lemma_runs_ordered(plan, end, k, last);
    }
}

/// Finds the position of system `i` at or after batch `k`.
proof fn lemma_locate(plan: Seq<Vec<usize>>, end: int, i: int, k: int) -> (at: (int, int))
    requires
        runs(plan, end),
        0 <= k < plan.len(),
        member(plan, k, 0) <= i < end,
    ensures
        0 <= at.0 < plan.len(),
        0 <= at.1 < size(plan, at.0),
        member(plan, at.0, at.1) == i,
    decreases plan.len() - k,
{
    assert(size(plan, k) > 0);
    if i < member(plan, k, 0) + size(plan, k) {
        let p = i - member(plan, k, 0);
        assert(member(plan, k, p) == member(plan, k, 0) + p);
        (k, p)
    } else {
        lemma_locate(plan, end, i, k + 1)
    }
}

/// The conflict relation is symmetric.
pub proof fn conflict_is_symmetric(a: Seq<BorrowDescriptor>, b: Seq<BorrowDescriptor>)
    ensures
        sets_conflict(a, b) == sets_conflict(b, a),
        forall|x: BorrowDescriptor, y: BorrowDescriptor| conflict(x, y) == conflict(y, x),
{
    if sets_conflict(a, b) {
        let (i, j) = choose|i: int, j: int|
            0 <= i < a.len() && 0 <= j < b.len() && #[trigger] conflict(a[i], b[j]);
        assert(conflict(b[j], a[i]));
    }
    if sets_conflict(b, a) {
        let (j, i) = choose|j: int, i: int|
            0 <= j < b.len() && 0 <= i < a.len() && #[trigger] conflict(b[j], a[i]);
        assert(conflict(a[i], b[j]));
    }
}

/// A system that shares its batch with an earlier one fits that batch.
proof fn lemma_member_fits(systems: Seq<Vec<BorrowDescriptor>>, start: int, j: int)
    requires
        0 <= start < j,
        batch_start(systems, j) == start,
    ensures
        fits(systems, start, j),
{
}

/// Scheduler soundness: two different members of one batch have descriptor
/// sets without any conflict between them.
pub proof fn batch_members_are_compatible(
    systems: Seq<Vec<BorrowDescriptor>>,
    plan: Seq<Vec<usize>>,
    k: int,
    p: int,
    q: int,
)
    requires
        is_plan(systems, plan),
        0 <= k < plan.len(),
        0 <= p < size(plan, k),
        0 <= q < size(plan, k),
        p != q,
    ensures
        0 <= member(plan, k, p) < systems.len(),
        0 <= member(plan, k, q) < systems.len(),
        !sets_conflict(systems[member(plan, k, p)]@, systems[member(plan, k, q)]@),
{
    lemma_runs_bounded(plan, systems.len() as int, k);
    let first = member(plan, k, 0);
    let a = member(plan, k, p);
    let b = member(plan, k, q);
    assert(a == first + p && b == first + q);
    assert(batch_start(systems, a) == first && batch_start(systems, b) == first);
    if p < q {
        lemma_member_fits(systems, first, b);
        assert(!sets_conflict(systems[a]@, systems[b]@));
    } else {
        lemma_member_fits(systems, first, a);
        assert(!sets_conflict(systems[b]@, systems[a]@));
        conflict_is_symmetric(systems[a]@, systems[b]@);
    }
}

/// Whether system `i` stands at some position of the plan.
pub open spec fn scheduled(plan: Seq<Vec<usize>>, i: int) -> bool {
    exists|k: int, p: int|
        0 <= k < plan.len() && 0 <= p < size(plan, k) && #[trigger] member(plan, k, p) == i
}

/// Order preservation, first half: the batches read in order hold every
/// system of the workload, and no system stands at two positions.
pub proof fn plan_is_a_permutation(
    systems: Seq<Vec<BorrowDescriptor>>,
    plan: Seq<Vec<usize>>,
)
    requires
        is_plan(systems, plan),
    ensures
        forall|i: int| 0 <= i < systems.len() ==> #[trigger] scheduled(plan, i),
        forall|ka: int, pa: int, kb: int, pb: int|
            0 <= ka < plan.len() && 0 <= pa < size(plan, ka) && 0 <= kb < plan.len() && 0 <= pb
                < size(plan, kb) && #[trigger] member(plan, ka, pa) == #[trigger] member(
                plan,
                kb,
                pb,
            ) ==> ka == kb && pa == pb,
        forall|k: int, p: int|
            0 <= k < plan.len() && 0 <= p < size(plan, k) ==> 0 <= #[trigger] member(plan, k, p)
                < systems.len(),
{
    let end = systems.len() as int;
    assert forall|i: int| 0 <= i < systems.len() implies #[trigger] scheduled(plan, i) by {
        let at = lemma_locate(plan, end, i, 0);
        assert(member(plan, at.0, at.1) == i);
    }
    assert forall|ka: int, pa: int, kb: int, pb: int|
        0 <= ka < plan.len() && 0 <= pa < size(plan, ka) && 0 <= kb < plan.len() && 0 <= pb < size(
            plan,
            kb,
        ) && #[trigger] member(plan, ka, pa) == #[trigger] member(plan, kb, pb) implies ka == kb
        && pa == pb by {
        if ka < kb {
            lemma_runs_ordered(plan, end, ka, kb);
        }
        if kb < ka {
            lemma_runs_ordered(plan, end, kb, ka);
        }
    }
    assert forall|k: int, p: int| 0 <= k < plan.len() && 0 <= p < size(plan, k) implies 0
        <= #[trigger] member(plan, k, p) < systems.len() by {
        lemma_runs_bounded(plan, end, k);
    }
}

/// Order preservation, second half: of two systems, the one declared first
/// never stands in a later batch than the other.
pub proof fn plan_is_monotone(
    systems: Seq<Vec<BorrowDescriptor>>,
    plan: Seq<Vec<usize>>,
    ka: int,
    pa: int,
    kb: int,
    pb: int,
)
    requires
        is_plan(systems, plan),
        0 <= ka < plan.len(),
        0 <= pa < size(plan, ka),
        0 <= kb < plan.len(),
        0 <= pb < size(plan, kb),
        member(plan, ka, pa) < member(plan, kb, pb),
    ensures
        ka <= kb,
        ka == kb ==> pa < pb,
{
    assert(member(plan, ka, pa) == member(plan, ka, 0) + pa);
    assert(member(plan, kb, pb) == member(plan, kb, 0) + pb);
    if kb < ka {
        lemma_runs_ordered(plan, systems.len() as int, kb, ka);
    }
}

/// Whether some member of batch `k` holds a descriptor.
pub open spec fn batch_has_descriptor(
    systems: Seq<Vec<BorrowDescriptor>>,
    plan: Seq<Vec<usize>>,
    k: int,
) -> bool {
    exists|p: int| 0 <= p < size(plan, k) && systems[#[trigger] member(plan, k, p)]@.len() > 0
}

/// Greedy packing: a batch after the first was opened for a reason. Its first
/// system holds a descriptor that conflicts with a descriptor of a member of
/// the batch before it, provided that batch holds any descriptor at all.
pub proof fn no_empty_split(systems: Seq<Vec<BorrowDescriptor>>, plan: Seq<Vec<usize>>, k: int)
    requires
        is_plan(systems, plan),
        1 <= k < plan.len(),
        batch_has_descriptor(systems, plan, k - 1),
    ensures
        exists|q: int, d: int, e: int|
            0 <= q < size(plan, k - 1) && 0 <= d < systems[member(plan, k, 0)]@.len() && 0 <= e
                < systems[member(plan, k - 1, q)]@.len() && #[trigger] conflict(
                systems[member(plan, k, 0)]@[d],
                systems[member(plan, k - 1, q)]@[e],
            ),
{
    let end = systems.len() as int;
    let first = member(plan, k, 0);
    let before = member(plan, k - 1, 0);
    let len = size(plan, k - 1);
    assert(size(plan, k) > 0);
    assert(len > 0);
    assert(first == before + len);
    assert(member(plan, k, 0) == member(plan, k, 0) + 0);
    assert(batch_start(systems, first) == first);
    assert(member(plan, k - 1, len - 1) == before + (len - 1));
    assert(batch_start(systems, first - 1) == before);
    lemma_runs_bounded(plan, end, k - 1);
    assert(!fits(systems, before, first));
    let mine = systems[first]@;
    if has_all_exclusive(mine) {
        let d = choose|d: int| 0 <= d < mine.len() && #[trigger] is_all_exclusive(mine[d]);
        let q = choose|q: int|
            0 <= q < size(plan, k - 1) && systems[#[trigger] member(plan, k - 1, q)]@.len() > 0;
        assert(conflict(mine[d], systems[member(plan, k - 1, q)]@[0]));
    } else {
        let j = choose|j: int|
            before <= j < first && sets_conflict(#[trigger] systems[j]@, systems[first]@);
        let theirs = systems[j]@;
        let (e, d) = choose|e: int, d: int|
            0 <= e < theirs.len() && 0 <= d < mine.len() && #[trigger] conflict(theirs[e], mine[d]);
        let q = j - before;
        assert(member(plan, k - 1, q) == before + q);
        assert(conflict(mine[d], systems[member(plan, k - 1, q)]@[e]));
    }
}

/// Of two plans of the same systems, neither has a shorter batch `k` than
/// the other where batch `k` starts at the same system in both.
proof fn lemma_not_shorter(
    systems: Seq<Vec<BorrowDescriptor>>,
    a: Seq<Vec<usize>>,
    b: Seq<Vec<usize>>,
    k: int,
)
    requires
        is_plan(systems, a),
        is_plan(systems, b),
        0 <= k < a.len(),
        k < b.len(),
        member(a, k, 0) == member(b, k, 0),
    ensures
        size(a, k) >= size(b, k),
{
    if size(a, k) < size(b, k) {
        let end = systems.len() as int;
        let cut = size(a, k);
        assert(cut > 0);
        assert(member(b, k, cut) == member(b, k, 0) + cut);
        assert(batch_start(systems, member(b, k, cut)) == member(b, k, 0));
        lemma_runs_bounded(b, end, k);
        assert(member(a, k + 1, 0) == member(a, k, 0) + size(a, k));
        assert(size(a, k + 1) > 0);
        assert(member(a, k + 1, 0) == member(a, k + 1, 0) + 0);
        assert(batch_start(systems, member(a, k + 1, 0)) == member(a, k + 1, 0));
    }
}

/// Two plans of the same systems agree on where batch `k` starts and on
/// how many systems it holds.
proof fn lemma_same_batch(
    systems: Seq<Vec<BorrowDescriptor>>,
    a: Seq<Vec<usize>>,
    b: Seq<Vec<usize>>,
    k: int,
)
    requires
        is_plan(systems, a),
        is_plan(systems, b),
        0 <= k < a.len(),
        k < b.len(),
    ensures
        member(a, k, 0) == member(b, k, 0),
        size(a, k) == size(b, k),
    decreases k,
{
    if k > 0 {
        lemma_same_batch(systems, a, b, k - 1);
        assert(size(a, k - 1) > 0);
        assert(size(b, k - 1) > 0);
    }
    lemma_not_shorter(systems, a, b, k);
    lemma_not_shorter(systems, b, a, k);
}

/// Of two plans of the same systems, neither has fewer batches than the other.
proof fn lemma_not_fewer(systems: Seq<Vec<BorrowDescriptor>>, a: Seq<Vec<usize>>, b: Seq<Vec<usize>>)
    requires
        is_plan(systems, a),
        is_plan(systems, b),
    ensures
        a.len() >= b.len(),
{
    if a.len() < b.len() {
        let end = systems.len() as int;
        if a.len() == 0 {
            lemma_runs_bounded(b, end, 0);
            assert(size(b, 0) > 0);
        } else {
            let k = a.len() - 1;
            lemma_same_batch(systems, a, b, k);
            assert(size(b, k) > 0);
            assert(member(b, k + 1, 0) == member(b, k, 0) + size(b, k));
            lemma_runs_bounded(b, end, k + 1);
            assert(size(b, k + 1) > 0);
        }
    }
}

/// Compilation is a function of the descriptor sets: an ordered list of
/// systems has one plan only.
pub proof fn plan_is_unique(
    systems: Seq<Vec<BorrowDescriptor>>,
    a: Seq<Vec<usize>>,
    b: Seq<Vec<usize>>,
)
    requires
        is_plan(systems, a),
        is_plan(systems, b),
    ensures
        a.len() == b.len(),
        forall|k: int| 0 <= k < a.len() ==> (#[trigger] a[k])@ == b[k]@,
{
    lemma_not_fewer(systems, a, b);
    lemma_not_fewer(systems, b, a);
    assert forall|k: int| 0 <= k < a.len() implies (#[trigger] a[k])@ == b[k]@ by {
        lemma_same_batch(systems, a, b, k);
        assert forall|p: int| 0 <= p < a[k]@.len() implies a[k]@[p] == b[k]@[p] by {
            assert(member(a, k, p) == member(a, k, 0) + p);
            assert(member(b, k, p) == member(b, k, 0) + p);
        }
        assert(a[k]@ =~= b[k]@);
    }
}

} // verus!

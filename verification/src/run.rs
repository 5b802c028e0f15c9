//! Execution of a compiled plan: batch after batch, the members of a batch
//! side by side on a pool of worker threads.
use vstd::prelude::*;
use rayon::iter::{IntoParallelIterator, ParallelIterator};
use crate::cell::{BorrowCell, ThreadId};
use crate::error::{GetStorage, Run, RunWorkload};
use crate::storage::AllStorages;
use crate::view::{
    acquire_views, borrowed, failed_construction_leaves_no_borrow, lemma_prefix,
    lemma_rollback, marks, presence, registry, related, release_all, release_views, same_counters,
    RegistryState,
};
use crate::workload::System;

verus! {

/// How far the construction of the views of a batch got.
pub struct BatchProgress<T> {
    /// The registry with the borrows of the members served so far.
    pub state: RegistryState<T>,
    /// What the views of those members show, one entry per member.
    pub inputs: Seq<Seq<Option<T>>>,
    /// The error of the member after them, if its views could not be constructed.
    pub error: Option<GetStorage>,
}

/// Construction of the views of the first `m` members of a batch, member by
/// member, each all or nothing; it stops at the first member that fails.
pub open spec fn acquire_members<T: Copy, F: Fn(Vec<Option<T>>) -> Result<Vec<Option<T>>, String>>(
    s: RegistryState<T>,
    systems: Seq<System<T, F>>,
    batch: Seq<usize>,
    m: int,
    thread: ThreadId,
) -> BatchProgress<T>
    decreases m,
{
    if m <= 0 {
        BatchProgress { state: s, inputs: Seq::empty(), error: None }
    } else {
        let p = acquire_members(s, systems, batch, m - 1, thread);
        if p.error is Some {
            p
        } else {
            let (state, r) = borrowed(p.state, systems[batch[m - 1] as int].views@, thread);
            match r {
                Ok(data) => BatchProgress { state, inputs: p.inputs.push(data), error: None },
                Err(e) => BatchProgress { state, inputs: p.inputs, error: Some(e) },
            }
        }
    }
}

/// What member `i` of a batch leaves behind its exclusive views: what its
/// function returned, or nothing where it failed or did not run.
pub open spec fn writes_of<T>(outputs: Seq<Result<Vec<Option<T>>, String>>, i: int) -> Seq<
    Option<T>,
> {
    if 0 <= i < outputs.len() && outputs[i] is Ok {
        outputs[i]->Ok_0@
    } else {
        Seq::empty()
    }
}

/// Which views of member `i` of a batch showed a storage object.
pub open spec fn marks_of(held: Seq<Vec<bool>>, i: int) -> Seq<bool> {
    if 0 <= i < held.len() {
        held[i]@
    } else {
        Seq::empty()
    }
}

/// The registry once the first `m` members of a batch have given back
/// their borrows, the last member first.
pub open spec fn release_members<T: Copy, F: Fn(Vec<Option<T>>) -> Result<Vec<Option<T>>, String>>(
    s: RegistryState<T>,
    systems: Seq<System<T, F>>,
    batch: Seq<usize>,
    held: Seq<Vec<bool>>,
    outputs: Seq<Result<Vec<Option<T>>, String>>,
    m: int,
) -> RegistryState<T>
    decreases m,
{
    if m <= 0 {
        s
    } else {
        release_members(
            release_all(
                s,
                systems[batch[m - 1] as int].views@,
                marks_of(held, m - 1),
                writes_of(outputs, m - 1),
                systems[batch[m - 1] as int].views@.len() as int,
            ),
            systems,
            batch,
            held,
            outputs,
            m - 1,
        )
    }
}

/// The failure of the first of the members `i..m` whose function failed:
/// the system's name and its message.
pub open spec fn first_failure<T: Copy, F: Fn(Vec<Option<T>>) -> Result<Vec<Option<T>>, String>>(
    systems: Seq<System<T, F>>,
    batch: Seq<usize>,
    outputs: Seq<Result<Vec<Option<T>>, String>>,
    i: int,
    m: int,
) -> Option<(String, String)>
    decreases m - i,
{
    if i >= m {
        None
    } else if 0 <= i < outputs.len() && outputs[i] is Err {
        Some((systems[batch[i] as int].name, outputs[i]->Err_0))
    } else {
        first_failure(systems, batch, outputs, i + 1, m)
    }
}

/// What a batch reports whose members' functions returned `outputs`.
pub open spec fn report<T: Copy, F: Fn(Vec<Option<T>>) -> Result<Vec<Option<T>>, String>>(
    systems: Seq<System<T, F>>,
    batch: Seq<usize>,
    outputs: Seq<Result<Vec<Option<T>>, String>>,
    m: int,
) -> Result<(), RunWorkload> {
    match first_failure(systems, batch, outputs, 0, m) {
        None => Ok(()),
        Some((name, message)) => Err(RunWorkload::Run(name, Run::User(message))),
    }
}

/// Whether `outputs` are results of the members' functions on `inputs`.
pub open spec fn produced<T: Copy, F: Fn(Vec<Option<T>>) -> Result<Vec<Option<T>>, String>>(
    systems: Seq<System<T, F>>,
    batch: Seq<usize>,
    inputs: Seq<Vec<Option<T>>>,
    outputs: Seq<Result<Vec<Option<T>>, String>>,
) -> bool {
    &&& inputs.len() == batch.len()
    &&& outputs.len() == batch.len()
    &&& forall|p: int|
        0 <= p < batch.len() ==> call_ensures(
            systems[batch[p] as int].run,
            (inputs[p],),
            #[trigger] outputs[p],
        )
}

/// Whether `inputs` hold, member by member, what `shown` lists.
pub open spec fn holds<T>(inputs: Seq<Vec<Option<T>>>, shown: Seq<Seq<Option<T>>>) -> bool {
    &&& inputs.len() == shown.len()
    &&& forall|p: int| 0 <= p < inputs.len() ==> (#[trigger] inputs[p])@ == shown[p]
}

/// Whether `held` marks, member by member, the views that showed a storage
/// object in `shown`.
pub open spec fn marked<T>(held: Seq<Vec<bool>>, shown: Seq<Seq<Option<T>>>) -> bool {
    &&& held.len() == shown.len()
    &&& forall|p: int| 0 <= p < held.len() ==> (#[trigger] held[p])@ == marks(shown[p])
}

/// Whether running `batch` on behalf of `thread` can lead from registry `s`
/// to registry `after` with result `r`.
///
/// The views of all members are constructed first, member by member. If a
/// member's views cannot be constructed, the borrows of the members before
/// it are given back, no function runs, and the error is reported under the
/// member's name. Otherwise every member's function runs on what its views
/// show; then each member gives back its borrows, leaving behind its
/// exclusive views what its function returned, and the first failure among
/// the functions, by position in the batch, is reported.
pub open spec fn batch_ran<T: Copy, F: Fn(Vec<Option<T>>) -> Result<Vec<Option<T>>, String>>(
    s: RegistryState<T>,
    systems: Seq<System<T, F>>,
    batch: Seq<usize>,
    thread: ThreadId,
    after: RegistryState<T>,
    r: Result<(), RunWorkload>,
) -> bool {
    let p = acquire_members(s, systems, batch, batch.len() as int, thread);
    exists|held: Seq<Vec<bool>>|
        {
            &&& #[trigger] marked(held, p.inputs)
            &&& match p.error {
                Some(e) => {
                    &&& after == release_members(
                        p.state,
                        systems,
                        batch,
                        held,
                        Seq::empty(),
                        p.inputs.len() as int,
                    )
                    &&& r == Err::<(), RunWorkload>(
                        RunWorkload::Run(
                            systems[batch[p.inputs.len() as int] as int].name,
                            Run::GetStorage(e),
                        ),
                    )
                },
                None => exists|
                    inputs: Seq<Vec<Option<T>>>,
                    outputs: Seq<Result<Vec<Option<T>>, String>>,
                |
                    {
                        &&& holds(inputs, p.inputs)
                        &&& #[trigger] produced(systems, batch, inputs, outputs)
                        &&& after == release_members(
                            p.state,
                            systems,
                            batch,
                            held,
                            outputs,
                            batch.len() as int,
                        )
                        &&& r == report(systems, batch, outputs, batch.len() as int)
                    },
            }
        }
}

/// The batches of a plan as plain values.
pub open spec fn batches_of(plan: Seq<Vec<usize>>) -> Seq<Seq<usize>> {
    Seq::new(plan.len(), |k: int| plan[k]@)
}

/// The plan that runs the systems of `sequence` one by one: one batch per
/// system.
pub open spec fn one_by_one(sequence: Seq<usize>) -> Seq<Seq<usize>> {
    Seq::new(sequence.len(), |k: int| seq![sequence[k]])
}

/// Whether running the first `k` batches of `plan` without a failure can
/// lead from registry `s` to registry `after`. A batch starts only when the
/// one before it has ended.
pub open spec fn ran_through<T: Copy, F: Fn(Vec<Option<T>>) -> Result<Vec<Option<T>>, String>>(
    s: RegistryState<T>,
    systems: Seq<System<T, F>>,
    plan: Seq<Seq<usize>>,
    k: int,
    thread: ThreadId,
    after: RegistryState<T>,
) -> bool
    decreases k,
{
    if k <= 0 {
        after == s
    } else {
        exists|mid: RegistryState<T>|
            {
                &&& ran_through(s, systems, plan, k - 1, thread, mid)
                &&& #[trigger] batch_ran(mid, systems, plan[k - 1], thread, after, Ok(()))
            }
    }
}

/// Whether running `plan` can lead from registry `s` to registry `after`
/// with result `r`: either every batch ran without a failure, or the batches
/// before one did, that one failed with `r`, and none after it was started.
pub open spec fn plan_ran<T: Copy, F: Fn(Vec<Option<T>>) -> Result<Vec<Option<T>>, String>>(
    s: RegistryState<T>,
    systems: Seq<System<T, F>>,
    plan: Seq<Seq<usize>>,
    thread: ThreadId,
    after: RegistryState<T>,
    r: Result<(), RunWorkload>,
) -> bool {
    if r is Ok {
        ran_through(s, systems, plan, plan.len() as int, thread, after)
    } else {
        exists|k: int, mid: RegistryState<T>|
            {
                &&& 0 <= k < plan.len()
                &&& ran_through(s, systems, plan, k, thread, mid)
                &&& #[trigger] batch_ran(mid, systems, plan[k], thread, after, r)
            }
    }
}

/// Whether every member of the batch is a system that can be called.
pub open spec fn callable<T: Copy, F: Fn(Vec<Option<T>>) -> Result<Vec<Option<T>>, String>>(
    systems: Seq<System<T, F>>,
    batch: Seq<usize>,
) -> bool {
    forall|p: int|
        0 <= p < batch.len() ==> (#[trigger] batch[p]) < systems.len() && systems[batch[p] as int].wf()
}

/// One call of a system's function: the index of the system and what its
/// views show.
pub struct Job<T> {
    /// Index of the system among the systems of the workload.
    pub index: usize,
    /// What the views of the system show.
    pub input: Vec<Option<T>>,
}

/// The inputs of a list of jobs.
pub open spec fn inputs_of<T>(jobs: Seq<Job<T>>) -> Seq<Vec<Option<T>>> {
    Seq::new(jobs.len(), |p: int| jobs[p].input)
}

/// Whether `jobs` are the calls of the members of `batch`, in order.
pub open spec fn jobs_for<T>(jobs: Seq<Job<T>>, batch: Seq<usize>) -> bool {
    &&& jobs.len() == batch.len()
    &&& forall|p: int| 0 <= p < jobs.len() ==> (#[trigger] jobs[p]).index == batch[p]
}

/// Calls the function of the system that the job names on the job's input.
pub fn invoke_job<T: Copy, F: Fn(Vec<Option<T>>) -> Result<Vec<Option<T>>, String>>(
    systems: &Vec<System<T, F>>,
    job: Job<T>,
) -> (output: Result<Vec<Option<T>>, String>)
    requires
        job.index < systems@.len(),
        systems@[job.index as int].wf(),
    ensures
        call_ensures(systems@[job.index as int].run, (job.input,), output),
{
    systems[job.index].invoke(job.input)
}

/// Runs the jobs on a pool of worker threads and collects what the
/// systems' functions return.
///
/// Calls `into_par_iter` on the vector of jobs, then `map` and `collect`,
/// all three of the `rayon` crate. The contract claims what the crate
/// documents of a mapped vector that is collected into a vector: the
/// result holds one entry per job, in the order of the jobs, and entry `p`
/// is what the function of the system of job `p` returned on that job's
/// input.
#[verifier::external_body]
fn run_in_parallel<
    T: Copy + Send + Sync,
    F: Fn(Vec<Option<T>>) -> Result<Vec<Option<T>>, String> + Sync,
>(systems: &Vec<System<T, F>>, jobs: Vec<Job<T>>) -> (outputs: Vec<Result<Vec<Option<T>>, String>>)
    requires
        forall|p: int|
            0 <= p < jobs@.len() ==> (#[trigger] jobs@[p]).index < systems@.len()
                && systems@[jobs@[p].index as int].wf(),
    ensures
        outputs@.len() == jobs@.len(),
        forall|p: int|
            0 <= p < jobs@.len() ==> call_ensures(
                systems@[jobs@[p].index as int].run,
                (jobs@[p].input,),
                #[trigger] outputs@[p],
            ),
{
    jobs.into_par_iter().map(|job| invoke_job(systems, job)).collect()
}

/// What `begin_batch` hands on: the call to make for each member, and
/// which of the member's views showed a storage object.
pub struct Begun<T> {
    /// One job per member, in the order of the batch.
    pub jobs: Vec<Job<T>>,
    /// One entry per member: which of its views showed a storage object.
    pub held: Vec<Vec<bool>>,
}

/// Constructs the views of every member of a batch, member by member. If
/// the views of one cannot be constructed, the borrows of the members
/// before it are given back, and the member's position is returned with
/// the error.
pub fn begin_batch<T: Copy, F: Fn(Vec<Option<T>>) -> Result<Vec<Option<T>>, String>>(
    cell: &mut BorrowCell<AllStorages<T>>,
    systems: &Vec<System<T, F>>,
    batch: &Vec<usize>,
    thread: ThreadId,
) -> (r: Result<Begun<T>, (usize, GetStorage)>)
    requires
        registry(old(cell)).wf(),
        callable(systems@, batch@),
    ensures
        registry(final(cell)).wf(),
        ({
            let p = acquire_members(registry(old(cell)), systems@, batch@, batch@.len() as int, thread);
            match p.error {
                None => r is Ok && jobs_for(r->Ok_0.jobs@, batch@) && holds(
                    inputs_of(r->Ok_0.jobs@),
                    p.inputs,
                ) && marked(r->Ok_0.held@, p.inputs) && registry(final(cell)) == p.state,
                Some(e) => r is Err && r->Err_0.0 == p.inputs.len() && r->Err_0.1 == e
                    && p.inputs.len() < batch@.len() && exists|held: Seq<Vec<bool>>| #[trigger]
                    marked(held, p.inputs) && registry(final(cell)) == release_members(
                        p.state,
                        systems@,
                        batch@,
                        held,
                        Seq::empty(),
                        p.inputs.len() as int,
                    ),
            }
        }),
{
    let ghost before = registry(cell);
    let mut jobs: Vec<Job<T>> = Vec::new();
    let mut held: Vec<Vec<bool>> = Vec::new();
    let mut m: usize = 0;
    while m < batch.len()
        invariant
            m <= batch@.len(),
            registry(cell).wf(),
            callable(systems@, batch@),
            before == registry(old(cell)),
            jobs@.len() == m,
            forall|p: int| 0 <= p < m ==> (#[trigger] jobs@[p]).index == batch@[p],
            acquire_members(before, systems@, batch@, m as int, thread).state == registry(cell),
            acquire_members(before, systems@, batch@, m as int, thread).error is None,
            holds(
                inputs_of(jobs@),
                acquire_members(before, systems@, batch@, m as int, thread).inputs,
            ),
            marked(held@, acquire_members(before, systems@, batch@, m as int, thread).inputs),
        decreases batch.len() - m,
    {
        let ghost p = acquire_members(before, systems@, batch@, m as int, thread);
        let index = batch[m];
        match acquire_views(cell, &systems[index].views, thread) {
            Ok(data) => {
                let ghost earlier = jobs@;
                held.push(presence(&data));
                jobs.push(Job { index, input: data });
                proof {
                    let q = acquire_members(before, systems@, batch@, m as int + 1, thread);
                    assert(q.inputs == p.inputs.push(data@));
                    assert forall|i: int| 0 <= i < m implies (#[trigger] inputs_of(jobs@)[i])
                        == inputs_of(earlier)[i] by {
                        assert(jobs@[i] == earlier[i]);
                    }
                }
            },
            Err(e) => {
                let none: Vec<Result<Vec<Option<T>>, String>> = Vec::new();
                proof {
                    let q = acquire_members(before, systems@, batch@, m as int + 1, thread);
                    assert(q.error == Some(e) && q.inputs == p.inputs);
                    lemma_failure_sticks(
                        before,
                        systems@,
                        batch@,
                        m as int + 1,
                        batch@.len() as int,
                        thread,
                    );
                    assert(none@ =~= Seq::<Result<Vec<Option<T>>, String>>::empty());
                }
                let _ = finish_batch(cell, systems, batch, &held, &none, m);
                assert(marked(held@, p.inputs));
                return Err((m, e));
            },
        }
        m += 1;
    }
    Ok(Begun { jobs, held })
}

/// Once the views of a member could not be constructed, the members after
/// it are not looked at.
proof fn lemma_failure_sticks<T: Copy, F: Fn(Vec<Option<T>>) -> Result<Vec<Option<T>>, String>>(
    s: RegistryState<T>,
    systems: Seq<System<T, F>>,
    batch: Seq<usize>,
    k: int,
    n: int,
    thread: ThreadId,
)
    requires
        0 <= k <= n,
        acquire_members(s, systems, batch, k, thread).error is Some,
    ensures
        acquire_members(s, systems, batch, n, thread) == acquire_members(s, systems, batch, k, thread),
    decreases n - k,
{
    if k < n {
        lemma_failure_sticks(s, systems, batch, k, n - 1, thread);
    }
}

/// Lets the first `m` members of a batch give back their borrows, the last
/// member first, each leaving behind its exclusive views what its function
/// returned, and reports the first failure among the functions. `held`
/// marks, member by member, the views that showed a storage object.
pub fn finish_batch<T: Copy, F: Fn(Vec<Option<T>>) -> Result<Vec<Option<T>>, String>>(
    cell: &mut BorrowCell<AllStorages<T>>,
    systems: &Vec<System<T, F>>,
    batch: &Vec<usize>,
    held: &Vec<Vec<bool>>,
    outputs: &Vec<Result<Vec<Option<T>>, String>>,
    m: usize,
) -> (r: Result<(), RunWorkload>)
    requires
        registry(old(cell)).wf(),
        callable(systems@, batch@),
        m <= batch@.len(),
    ensures
        registry(final(cell)).wf(),
        registry(final(cell)) == release_members(
            registry(old(cell)),
            systems@,
            batch@,
            held@,
            outputs@,
            m as int,
        ),
        r == report(systems@, batch@, outputs@, m as int),
{
    let ghost before = registry(cell);
    let mut failure: Option<(String, String)> = None;
    let none: Vec<Option<T>> = Vec::new();
    let unmarked: Vec<bool> = Vec::new();
    assert(none@ =~= Seq::<Option<T>>::empty());
    assert(unmarked@ =~= Seq::<bool>::empty());
    let mut i: usize = m;
    while i > 0
        invariant
            i <= m <= batch@.len(),
            registry(cell).wf(),
            callable(systems@, batch@),
            none@ == Seq::<Option<T>>::empty(),
            unmarked@ == Seq::<bool>::empty(),
            release_members(before, systems@, batch@, held@, outputs@, m as int) == release_members(
                registry(cell),
                systems@,
                batch@,
                held@,
                outputs@,
                i as int,
            ),
            failure == first_failure(systems@, batch@, outputs@, i as int, m as int),
        decreases i,
    {
        i -= 1;
        let system = &systems[batch[i]];
        let marks = if i < held.len() {
            &held[i]
        } else {
            &unmarked
        };
        if i < outputs.len() {
            match &outputs[i] {
                Ok(writes) => {
                    release_views(cell, &system.views, marks, writes, system.views.len());
                },
                Err(message) => {
                    release_views(cell, &system.views, marks, &none, system.views.len());
                    failure = Some((system.name.clone(), message.clone()));
                },
            }
        } else {
            release_views(cell, &system.views, marks, &none, system.views.len());
        }
    }
    match failure {
        None => Ok(()),
        Some((name, message)) => Err(RunWorkload::Run(name, Run::User(message))),
    }
}

/// Runs one batch: constructs the views of every member, runs the members'
/// functions, on the pool where the batch has more than one member, and
/// lets the members give back their borrows.
pub fn run_batch<
    T: Copy + Send + Sync,
    F: Fn(Vec<Option<T>>) -> Result<Vec<Option<T>>, String> + Sync,
>(
    cell: &mut BorrowCell<AllStorages<T>>,
    systems: &Vec<System<T, F>>,
    batch: &Vec<usize>,
    thread: ThreadId,
) -> (r: Result<(), RunWorkload>)
    requires
        registry(old(cell)).wf(),
        callable(systems@, batch@),
    ensures
        registry(final(cell)).wf(),
        batch_ran(registry(old(cell)), systems@, batch@, thread, registry(final(cell)), r),
{
    let ghost p = acquire_members(registry(old(cell)), systems@, batch@, batch@.len() as int, thread);
    match begin_batch(cell, systems, batch, thread) {
        Err((m, e)) => {
            let name = systems[batch[m]].name.clone();
            Err(RunWorkload::Run(name, Run::GetStorage(e)))
        },
        Ok(begun) => {
            let ghost given = inputs_of(begun.jobs@);
            let ghost mid = registry(cell);
            let held = begun.held;
            let mut jobs = begun.jobs;
            let ghost calls = jobs@;
            assert forall|q: int| 0 <= q < calls.len() implies (#[trigger] calls[q]).index
                < systems@.len() && systems@[calls[q].index as int].wf() by {
                assert(batch@[q] < systems@.len());
            }
            let outputs = if batch.len() == 1 {
                let job = jobs.pop().unwrap();
                assert(job == calls[0]);
                let mut outputs: Vec<Result<Vec<Option<T>>, String>> = Vec::new();
                outputs.push(invoke_job(systems, job));
                assert(call_ensures(systems@[batch@[0] as int].run, (given[0],), outputs@[0]));
                outputs
            } else {
                run_in_parallel(systems, jobs)
            };
            assert(produced(systems@, batch@, given, outputs@)) by {
                assert forall|q: int| 0 <= q < batch@.len() implies call_ensures(
                    systems@[batch@[q] as int].run,
                    (given[q],),
                    #[trigger] outputs@[q],
                ) by {
                    assert(calls[q].index == batch@[q]);
                    assert(given[q] == calls[q].input);
                }
            }
            let r = finish_batch(cell, systems, batch, &held, &outputs, batch.len());
            assert(marked(held@, p.inputs) && holds(given, p.inputs) && produced(
                systems@,
                batch@,
                given,
                outputs@,
            ) && registry(cell) == release_members(
                mid,
                systems@,
                batch@,
                held@,
                outputs@,
                batch@.len() as int,
            ) && r == report(systems@, batch@, outputs@, batch@.len() as int));
            r
        },
    }
}

/// A batch that ran without a failure extends the run by one batch.
proof fn lemma_next_batch<T: Copy, F: Fn(Vec<Option<T>>) -> Result<Vec<Option<T>>, String>>(
    s: RegistryState<T>,
    systems: Seq<System<T, F>>,
    plan: Seq<Seq<usize>>,
    k: int,
    thread: ThreadId,
    mid: RegistryState<T>,
    after: RegistryState<T>,
)
    requires
        0 <= k < plan.len(),
        ran_through(s, systems, plan, k, thread, mid),
        batch_ran(mid, systems, plan[k], thread, after, Ok(())),
    ensures
        ran_through(s, systems, plan, k + 1, thread, after),
{
    let n = k + 1;
    assert(batch_ran(mid, systems, plan[n - 1], thread, after, Ok(())));
}

/// Runs the batches of a plan in order. A batch starts only when every
/// member of the batch before it has ended; after a batch that failed no
/// other is started.
pub fn run_plan<
    T: Copy + Send + Sync,
    F: Fn(Vec<Option<T>>) -> Result<Vec<Option<T>>, String> + Sync,
>(
    cell: &mut BorrowCell<AllStorages<T>>,
    systems: &Vec<System<T, F>>,
    plan: &Vec<Vec<usize>>,
    thread: ThreadId,
) -> (r: Result<(), RunWorkload>)
    requires
        registry(old(cell)).wf(),
        forall|k: int| 0 <= k < plan@.len() ==> callable(systems@, (#[trigger] plan@[k])@),
    ensures
        registry(final(cell)).wf(),
        plan_ran(registry(old(cell)), systems@, batches_of(plan@), thread, registry(final(cell)), r),
{
    let ghost before = registry(cell);
    let ghost batches = batches_of(plan@);
    let mut k: usize = 0;
    while k < plan.len()
        invariant
            k <= plan@.len(),
            registry(cell).wf(),
            before == registry(old(cell)),
            batches == batches_of(plan@),
            forall|j: int| 0 <= j < plan@.len() ==> callable(systems@, (#[trigger] plan@[j])@),
            ran_through(before, systems@, batches, k as int, thread, registry(cell)),
        decreases plan.len() - k,
    {
        let ghost mid = registry(cell);
        match run_batch(cell, systems, &plan[k], thread) {
            Ok(()) => {
                proof {
                    assert(batches[k as int] == plan@[k as int]@);
                    lemma_next_batch(before, systems@, batches, k as int, thread, mid, registry(cell));
                }
            },
            Err(e) => {
                assert(batches[k as int] == plan@[k as int]@);
                assert(ran_through(before, systems@, batches, k as int, thread, mid) && batch_ran(
                    mid,
                    systems@,
                    batches[k as int],
                    thread,
                    registry(cell),
                    Err(e),
                ));
                return Err(e);
            },
        }
        k += 1;
    }
    Ok(())
}

/// Runs the systems of `sequence` one by one on the calling thread, each
/// as a batch of its own; after a system that failed no other is started.
pub fn run_sequence<
    T: Copy + Send + Sync,
    F: Fn(Vec<Option<T>>) -> Result<Vec<Option<T>>, String> + Sync,
>(
    cell: &mut BorrowCell<AllStorages<T>>,
    systems: &Vec<System<T, F>>,
    sequence: &Vec<usize>,
    thread: ThreadId,
) -> (r: Result<(), RunWorkload>)
    requires
        registry(old(cell)).wf(),
        callable(systems@, sequence@),
    ensures
        registry(final(cell)).wf(),
        plan_ran(registry(old(cell)), systems@, one_by_one(sequence@), thread, registry(final(cell)), r),
{
    let ghost before = registry(cell);
    let ghost batches = one_by_one(sequence@);
    let mut k: usize = 0;
    while k < sequence.len()
        invariant
            k <= sequence@.len(),
            registry(cell).wf(),
            before == registry(old(cell)),
            batches == one_by_one(sequence@),
            callable(systems@, sequence@),
            ran_through(before, systems@, batches, k as int, thread, registry(cell)),
        decreases sequence.len() - k,
    {
        let ghost mid = registry(cell);
        let mut batch: Vec<usize> = Vec::new();
        batch.push(sequence[k]);
        assert(batch@ =~= batches[k as int]);
        assert(callable(systems@, batch@)) by {
            assert(sequence@[k as int] < systems@.len());
        }
        match run_batch(cell, systems, &batch, thread) {
            Ok(()) => {
                proof {
                    lemma_next_batch(before, systems@, batches, k as int, thread, mid, registry(cell));
                }
            },
            Err(e) => {
                assert(ran_through(before, systems@, batches, k as int, thread, mid) && batch_ran(
                    mid,
                    systems@,
                    batches[k as int],
                    thread,
                    registry(cell),
                    Err(e),
                ));
                return Err(e);
            },
        }
        k += 1;
    }
    Ok(())
}

/// What the construction of the views of the first `m` members reached is
/// valid. Where it went through, it holds one entry per member; where a
/// member failed, the members before it went through and the registry
/// holds their borrows and no other.
proof fn lemma_members_prefix<T: Copy, F: Fn(Vec<Option<T>>) -> Result<Vec<Option<T>>, String>>(
    s: RegistryState<T>,
    systems: Seq<System<T, F>>,
    batch: Seq<usize>,
    m: int,
    thread: ThreadId,
)
    requires
        s.wf(),
        0 <= m,
    ensures
        ({
            let p = acquire_members(s, systems, batch, m, thread);
            let q = acquire_members(s, systems, batch, p.inputs.len() as int, thread);
            &&& p.inputs.len() <= m
            &&& p.state.wf()
            &&& p.error is None ==> p.inputs.len() == m
            &&& q.error is None
            &&& q.inputs == p.inputs
            &&& q.state.wf()
            &&& related(q.state, p.state, false)
        }),
    decreases m,
{
    if m > 0 {
        lemma_members_prefix(s, systems, batch, m - 1, thread);
        let q = acquire_members(s, systems, batch, m - 1, thread);
        if q.error is None {
            let views = systems[batch[m - 1] as int].views@;
            lemma_prefix(q.state, views, views.len() as int, thread);
            if borrowed(q.state, views, thread).1 is Err {
                failed_construction_leaves_no_borrow(q.state, views, thread);
            }
        }
    }
}

/// The relation between a registry and one that holds its borrows and no
/// other is transitive.
proof fn lemma_related_twice<T>(a: RegistryState<T>, b: RegistryState<T>, c: RegistryState<T>)
    requires
        related(a, b, false),
        related(b, c, false),
    ensures
        related(a, c, false),
{
    assert forall|i: int| 0 <= i < a.slots.len() implies {
        &&& (#[trigger] c.slots[i]).id == a.slots[i].id
        &&& c.slots[i].thread_req == a.slots[i].thread_req
        &&& c.slots[i].cell == a.slots[i].cell
        &&& a.slots[i].value is Some ==> c.slots[i].value is Some
    } by {
        assert(b.slots[i].id == a.slots[i].id);
        assert(c.slots[i].id == b.slots[i].id);
    }
    assert forall|i: int| a.slots.len() <= i < c.slots.len() implies (#[trigger] c.slots[i]).cell.count
        == 0 by {
        if i < b.slots.len() {
            assert(b.slots[i].cell.count == 0);
            assert(c.slots[i].cell == b.slots[i].cell);
        }
    }
}

/// Giving back what the first `m` members of a batch took leads back to
/// the borrows that were out before the batch; `r` is the registry in
/// which the members give back.
proof fn lemma_members_rollback<T: Copy, F: Fn(Vec<Option<T>>) -> Result<Vec<Option<T>>, String>>(
    s: RegistryState<T>,
    systems: Seq<System<T, F>>,
    batch: Seq<usize>,
    m: int,
    thread: ThreadId,
    r: RegistryState<T>,
    held: Seq<Vec<bool>>,
    outputs: Seq<Result<Vec<Option<T>>, String>>,
)
    requires
        s.wf(),
        r.wf(),
        0 <= m,
        acquire_members(s, systems, batch, m, thread).error is None,
        related(acquire_members(s, systems, batch, m, thread).state, r, false),
        forall|p: int|
            0 <= p < m ==> #[trigger] marks_of(held, p) == marks(
                acquire_members(s, systems, batch, m, thread).inputs[p],
            ),
    ensures
        release_members(r, systems, batch, held, outputs, m).wf(),
        related(s, release_members(r, systems, batch, held, outputs, m), false),
    decreases m,
{
    if m > 0 {
        let big = acquire_members(s, systems, batch, m, thread);
        let q = acquire_members(s, systems, batch, m - 1, thread);
        lemma_members_prefix(s, systems, batch, m - 1, thread);
        lemma_members_prefix(s, systems, batch, m, thread);
        let views = systems[batch[m - 1] as int].views@;
        let data = borrowed(q.state, views, thread).1->Ok_0;
        assert(big.inputs == q.inputs.push(data));
        assert(big.inputs[m - 1] == data);
        assert(marks_of(held, m - 1) == marks(data));
        let writes = writes_of(outputs, m - 1);
        let r1 = release_all(r, views, marks(data), writes, views.len() as int);
        lemma_prefix(q.state, views, views.len() as int, thread);
        lemma_rollback(q.state, views, views.len() as int, thread, r, writes, false);
        assert forall|p: int| 0 <= p < m - 1 implies #[trigger] marks_of(held, p) == marks(
            q.inputs[p],
        ) by {
            assert(big.inputs[p] == q.inputs[p]);
        }
        lemma_members_rollback(s, systems, batch, m - 1, thread, r1, held, outputs);
    }
}

/// A batch leaves no borrow behind, however it ends.
proof fn lemma_batch_restores<T: Copy, F: Fn(Vec<Option<T>>) -> Result<Vec<Option<T>>, String>>(
    s: RegistryState<T>,
    systems: Seq<System<T, F>>,
    batch: Seq<usize>,
    thread: ThreadId,
    after: RegistryState<T>,
    r: Result<(), RunWorkload>,
)
    requires
        s.wf(),
        batch_ran(s, systems, batch, thread, after, r),
    ensures
        after.wf(),
        same_counters(s, after),
{
    let p = acquire_members(s, systems, batch, batch.len() as int, thread);
    let held = choose|held: Seq<Vec<bool>>|
        {
            &&& #[trigger] marked(held, p.inputs)
            &&& match p.error {
                Some(e) => {
                    &&& after == release_members(
                        p.state,
                        systems,
                        batch,
                        held,
                        Seq::empty(),
                        p.inputs.len() as int,
                    )
                    &&& r == Err::<(), RunWorkload>(
                        RunWorkload::Run(
                            systems[batch[p.inputs.len() as int] as int].name,
                            Run::GetStorage(e),
                        ),
                    )
                },
                None => exists|
                    inputs: Seq<Vec<Option<T>>>,
                    outputs: Seq<Result<Vec<Option<T>>, String>>,
                |
                    {
                        &&& holds(inputs, p.inputs)
                        &&& #[trigger] produced(systems, batch, inputs, outputs)
                        &&& after == release_members(
                            p.state,
                            systems,
                            batch,
                            held,
                            outputs,
                            batch.len() as int,
                        )
                        &&& r == report(systems, batch, outputs, batch.len() as int)
                    },
            }
        };
    lemma_members_prefix(s, systems, batch, batch.len() as int, thread);
    let k = p.inputs.len() as int;
    assert forall|i: int| 0 <= i < k implies #[trigger] marks_of(held, i) == marks(p.inputs[i]) by {
        assert(held[i]@ == marks(p.inputs[i]));
    }
    match p.error {
        Some(e) => {
            lemma_members_rollback(s, systems, batch, k, thread, p.state, held, Seq::empty());
        },
        None => {
            let (inputs, outputs) = choose|
                inputs: Seq<Vec<Option<T>>>,
                outputs: Seq<Result<Vec<Option<T>>, String>>,
            |
                {
                    &&& holds(inputs, p.inputs)
                    &&& #[trigger] produced(systems, batch, inputs, outputs)
                    &&& after == release_members(
                        p.state,
                        systems,
                        batch,
                        held,
                        outputs,
                        batch.len() as int,
                    )
                    &&& r == report(systems, batch, outputs, batch.len() as int)
                };
            lemma_members_rollback(s, systems, batch, k, thread, p.state, held, outputs);
        },
    }
}

/// The batches that ran without a failure left no borrow behind.
proof fn lemma_run_restores<T: Copy, F: Fn(Vec<Option<T>>) -> Result<Vec<Option<T>>, String>>(
    s: RegistryState<T>,
    systems: Seq<System<T, F>>,
    plan: Seq<Seq<usize>>,
    k: int,
    thread: ThreadId,
    after: RegistryState<T>,
)
    requires
        s.wf(),
        ran_through(s, systems, plan, k, thread, after),
    ensures
        after.wf(),
        same_counters(s, after),
    decreases k,
{
    if k > 0 {
        let mid = choose|mid: RegistryState<T>|
            {
                &&& ran_through(s, systems, plan, k - 1, thread, mid)
                &&& #[trigger] batch_ran(mid, systems, plan[k - 1], thread, after, Ok(()))
            };
        lemma_run_restores(s, systems, plan, k - 1, thread, mid);
        lemma_batch_restores(mid, systems, plan[k - 1], thread, after, Ok(()));
        lemma_related_twice(s, mid, after);
    }
}

/// Guards restore the counters: however the run of a plan ends, it leaves
/// no borrow behind. The cell around the slot map and the cell of every
/// slot are as they were before the run, no slot has changed its identity
/// or its requirement, no storage has lost its object, and the storages
/// that were created on the way are free.
pub proof fn run_leaves_no_borrow<T: Copy, F: Fn(Vec<Option<T>>) -> Result<Vec<Option<T>>, String>>(
    s: RegistryState<T>,
    systems: Seq<System<T, F>>,
    plan: Seq<Seq<usize>>,
    thread: ThreadId,
    after: RegistryState<T>,
    r: Result<(), RunWorkload>,
)
    requires
        s.wf(),
        plan_ran(s, systems, plan, thread, after, r),
    ensures
        after.wf(),
        same_counters(s, after),
{
    if r is Ok {
        lemma_run_restores(s, systems, plan, plan.len() as int, thread, after);
    } else {
        let (k, mid) = choose|k: int, mid: RegistryState<T>|
            {
                &&& 0 <= k < plan.len()
                &&& ran_through(s, systems, plan, k, thread, mid)
                &&& #[trigger] batch_ran(mid, systems, plan[k], thread, after, r)
            };
        lemma_run_restores(s, systems, plan, k, thread, mid);
        lemma_batch_restores(mid, systems, plan[k], thread, after, r);
        lemma_related_twice(s, mid, after);
    }
}

} // verus!

//! Systems, workloads and the scheduler that keeps the installed workloads
//! with their compiled plans.
use vstd::prelude::*;
use crate::error::SetDefaultWorkload;
use crate::scheduler::{
    batch_members_are_compatible, compile, member, sets_conflict, size, Batches, BorrowDescriptor,
};
use crate::view::ViewRequest;

verus! {

/// A system: a named function with the views it declares.
///
/// The function receives what the views show, one entry per view in
/// declaration order, and returns what it leaves behind the exclusive ones,
/// or its own error message.
pub struct System<T, F> {
    /// Name under which errors report the system.
    pub name: String,
    /// The views in declaration order.
    pub views: Vec<ViewRequest<T>>,
    /// The function itself.
    pub run: F,
}

impl<T: Copy, F: Fn(Vec<Option<T>>) -> Result<Vec<Option<T>>, String>> System<T, F> {
    /// The function can be called on whatever its views show.
    pub open spec fn wf(&self) -> bool {
        forall|input: Vec<Option<T>>| call_requires(self.run, (input,))
    }

    /// The descriptors of the views, in declaration order.
    pub open spec fn descriptors_of(&self) -> Seq<BorrowDescriptor> {
        Seq::new(self.views@.len(), |i: int| self.views@[i].descriptor_of())
    }

    /// The concatenated descriptors of all view parameters.
    pub fn descriptors(&self) -> (d: Vec<BorrowDescriptor>)
        ensures
            d@ == self.descriptors_of(),
    {
        let mut d: Vec<BorrowDescriptor> = Vec::new();
        let mut i: usize = 0;
        while i < self.views.len()
            invariant
                i <= self.views@.len(),
                d@ =~= Seq::new(i as nat, |j: int| self.views@[j].descriptor_of()),
            decreases self.views.len() - i,
        {
            d.push(self.views[i].descriptor());
            i += 1;
        }
        assert(d@ =~= self.descriptors_of());
        d
    }

    /// Calls the system's function on what its views show.
    pub fn invoke(&self, input: Vec<Option<T>>) -> (output: Result<Vec<Option<T>>, String>)
        requires
            self.wf(),
        ensures
            call_ensures(self.run, (input,), output),
    {
        (self.run)(input)
    }
}

/// Whether `descriptors` lists the descriptors of `systems`, system by system.
pub open spec fn describes<T: Copy, F: Fn(Vec<Option<T>>) -> Result<Vec<Option<T>>, String>>(
    descriptors: Seq<Vec<BorrowDescriptor>>,
    systems: Seq<System<T, F>>,
) -> bool {
    &&& descriptors.len() == systems.len()
    &&& forall|i: int|
        0 <= i < systems.len() ==> (#[trigger] descriptors[i])@ == systems[i].descriptors_of()
}

/// A named, ordered list of systems with its two plans.
pub struct Workload<T, F> {
    name: String,
    systems: Vec<System<T, F>>,
    descriptors: Vec<Vec<BorrowDescriptor>>,
    batches: Batches,
}

impl<T: Copy, F: Fn(Vec<Option<T>>) -> Result<Vec<Option<T>>, String>> Workload<T, F> {
    /// Name of the workload.
    pub closed spec fn name_of(&self) -> String {
        self.name
    }

    /// The systems in program order.
    pub closed spec fn systems_of(&self) -> Seq<System<T, F>> {
        self.systems@
    }

    /// The descriptor sets of the systems.
    pub closed spec fn descriptors_of(&self) -> Seq<Vec<BorrowDescriptor>> {
        self.descriptors@
    }

    /// The batches in program order.
    pub closed spec fn plan_of(&self) -> Seq<Vec<usize>> {
        self.batches.parallel@
    }

    /// Every system in program order.
    pub closed spec fn sequence_of(&self) -> Seq<usize> {
        self.batches.sequential@
    }

    /// Validity: the plans are those of the systems' descriptor sets, and
    /// every system's function can be called.
    pub open spec fn wf(&self) -> bool {
        &&& describes(self.descriptors_of(), self.systems_of())
        &&& crate::scheduler::is_plan(self.descriptors_of(), self.plan_of())
        &&& self.sequence_of() =~= Seq::new(self.systems_of().len(), |i: int| i as usize)
        &&& forall|i: int| 0 <= i < self.systems_of().len() ==> (#[trigger] self.systems_of()[i]).wf()
    }

    /// Compiles an ordered list of systems into a workload.
    pub fn new(name: String, systems: Vec<System<T, F>>) -> (workload: Self)
        requires
            forall|i: int| 0 <= i < systems@.len() ==> (#[trigger] systems@[i]).wf(),
        ensures
            workload.wf(),
            workload.name_of() == name,
            workload.systems_of() == systems@,
    {
        let mut descriptors: Vec<Vec<BorrowDescriptor>> = Vec::new();
        let mut i: usize = 0;
        while i < systems.len()
            invariant
                i <= systems@.len(),
                descriptors@.len() == i,
                forall|j: int|
                    0 <= j < i ==> (#[trigger] descriptors@[j])@ == systems@[j].descriptors_of(),
            decreases systems.len() - i,
        {
            descriptors.push(systems[i].descriptors());
            i += 1;
        }
        let batches = compile(&descriptors);
        Workload { name, systems, descriptors, batches }
    }

    /// The name of the workload.
    pub fn name(&self) -> (name: &String)
        ensures
            *name == self.name_of(),
    {
        &self.name
    }

    /// The systems in program order.
    pub fn systems(&self) -> (systems: &Vec<System<T, F>>)
        ensures
            systems@ == self.systems_of(),
    {
        &self.systems
    }

    /// The batches in program order.
    pub fn parallel(&self) -> (plan: &Vec<Vec<usize>>)
        ensures
            plan@ == self.plan_of(),
    {
        &self.batches.parallel
    }

    /// Every system in program order.
    pub fn sequential(&self) -> (sequence: &Vec<usize>)
        ensures
            sequence@ == self.sequence_of(),
    {
        &self.batches.sequential
    }
}

/// The installed workloads and the default among them.
pub struct Scheduler<T, F> {
    workloads: Vec<Workload<T, F>>,
    default: usize,
}

/// Whether a workload named `name` is among `workloads`.
pub open spec fn has_workload<T: Copy, F: Fn(Vec<Option<T>>) -> Result<Vec<Option<T>>, String>>(
    workloads: Seq<Workload<T, F>>,
    name: Seq<char>,
) -> bool {
    exists|i: int| 0 <= i < workloads.len() && (#[trigger] workloads[i]).name_of()@ == name
}

/// Index of the workload named `name`.
pub open spec fn workload_index<T: Copy, F: Fn(Vec<Option<T>>) -> Result<Vec<Option<T>>, String>>(
    workloads: Seq<Workload<T, F>>,
    name: Seq<char>,
) -> int {
    choose|i: int| 0 <= i < workloads.len() && (#[trigger] workloads[i]).name_of()@ == name
}

impl<T: Copy, F: Fn(Vec<Option<T>>) -> Result<Vec<Option<T>>, String>> Scheduler<T, F> {
    /// The installed workloads, in order of their first installation.
    pub closed spec fn workloads(&self) -> Seq<Workload<T, F>> {
        self.workloads@
    }

    /// Index of the default workload.
    pub closed spec fn default_index(&self) -> int {
        self.default as int
    }

    /// Validity: names are distinct, every workload is valid, and the
    /// default is one of them unless there is none.
    pub open spec fn wf(&self) -> bool {
        &&& forall|i: int, j: int|
            0 <= i < j < self.workloads().len() ==> (#[trigger] self.workloads()[i]).name_of()@ != (
            #[trigger] self.workloads()[j]).name_of()@
        &&& forall|i: int| 0 <= i < self.workloads().len() ==> (#[trigger] self.workloads()[i]).wf()
        &&& if self.workloads().len() > 0 {
            0 <= self.default_index() < self.workloads().len()
        } else {
            self.default_index() == 0
        }
    }

    /// A scheduler without workloads.
    pub fn new() -> (scheduler: Self)
        ensures
            scheduler.wf(),
            scheduler.workloads().len() == 0,
    {
        Scheduler { workloads: Vec::new(), default: 0 }
    }

    /// Whether no workload is installed.
    pub fn is_empty(&self) -> (empty: bool)
        ensures
            empty == (self.workloads().len() == 0),
    {
        self.workloads.len() == 0
    }

    /// Index of the workload named `name`.
    pub fn find(&self, name: &String) -> (at: Option<usize>)
        requires
            self.wf(),
        ensures
            at is Some == has_workload(self.workloads(), name@),
            at is Some ==> at.unwrap() == workload_index(self.workloads(), name@) && at.unwrap()
                < self.workloads().len(),
    {
        let mut i: usize = 0;
        while i < self.workloads.len()
            invariant
                i <= self.workloads.len(),
                self.wf(),
                forall|j: int| 0 <= j < i ==> (#[trigger] self.workloads()[j]).name_of()@ != name@,
            decreases self.workloads.len() - i,
        {
            if self.workloads[i].name == *name {
                assert(self.workloads()[i as int].name_of()@ == name@);
                return Some(i);
            }
            i += 1;
        }
        None
    }

    /// The workload at `index`.
    pub fn workload(&self, index: usize) -> (workload: &Workload<T, F>)
        requires
            index < self.workloads().len(),
        ensures
            *workload == self.workloads()[index as int],
    {
        &self.workloads[index]
    }

    /// Index of the default workload; the first workload installed is the
    /// default until another is chosen.
    pub fn default_workload(&self) -> (index: usize)
        ensures
            index == self.default_index(),
    {
        self.default
    }

    /// Installs a workload. One of the same name is replaced and keeps its
    /// place; otherwise the workload is added behind the others.
    pub fn install(&mut self, workload: Workload<T, F>)
        requires
            old(self).wf(),
            workload.wf(),
        ensures
            final(self).wf(),
            final(self).default_index() == old(self).default_index(),
            final(self).workloads() == if has_workload(
                old(self).workloads(),
                workload.name_of()@,
            ) {
                old(self).workloads().update(
                    workload_index(old(self).workloads(), workload.name_of()@),
                    workload,
                )
            } else {
                old(self).workloads().push(workload)
            },
    {
        let ghost before = self.workloads();
        let ghost name = workload.name_of()@;
        match self.find(&workload.name) {
            Some(i) => {
                self.workloads[i] = workload;
                assert(self.workloads() =~= before.update(i as int, workload));
                assert forall|a: int| 0 <= a < self.workloads().len() implies (
                #[trigger] self.workloads()[a]).name_of()@ == before[a].name_of()@ by {}
            },
            None => {
                self.workloads.push(workload);
                assert forall|a: int| 0 <= a < before.len() implies (
                #[trigger] self.workloads()[a]).name_of()@ != name by {
                    assert(before[a].name_of()@ != name);
                }
            },
        }
        assert forall|a: int, b: int| 0 <= a < b < self.workloads().len() implies (
        #[trigger] self.workloads()[a]).name_of()@ != (#[trigger] self.workloads()[b]).name_of()@ by {
            if b < before.len() {
                assert(before[a].name_of()@ != before[b].name_of()@);
            }
        }
    }

    /// Makes the workload named `name` the default.
    pub fn set_default(&mut self, name: String) -> (r: Result<(), SetDefaultWorkload>)
        requires
            old(self).wf(),
        ensures
            final(self).wf(),
            final(self).workloads() == old(self).workloads(),
            r == if has_workload(old(self).workloads(), name@) {
                Ok::<(), SetDefaultWorkload>(())
            } else {
                Err::<(), SetDefaultWorkload>(SetDefaultWorkload::MissingWorkload(name))
            },
            final(self).default_index() == if r is Ok {
                workload_index(old(self).workloads(), name@)
            } else {
                old(self).default_index()
            },
    {
        match self.find(&name) {
            Some(i) => {
                self.default = i;
                Ok(())
            },
            None => Err(SetDefaultWorkload::MissingWorkload(name)),
        }
    }
}

/// Scheduler soundness for a compiled workload: two different members of
/// one of its batches are systems of the workload whose views have
/// descriptors without any conflict between them.
pub proof fn workload_batches_are_compatible<
    T: Copy,
    F: Fn(Vec<Option<T>>) -> Result<Vec<Option<T>>, String>,
>(workload: Workload<T, F>, k: int, p: int, q: int)
    requires
        workload.wf(),
        0 <= k < workload.plan_of().len(),
        0 <= p < size(workload.plan_of(), k),
        0 <= q < size(workload.plan_of(), k),
        p != q,
    ensures
        0 <= member(workload.plan_of(), k, p) < workload.systems_of().len(),
        0 <= member(workload.plan_of(), k, q) < workload.systems_of().len(),
        !sets_conflict(
            workload.systems_of()[member(workload.plan_of(), k, p)].descriptors_of(),
            workload.systems_of()[member(workload.plan_of(), k, q)].descriptors_of(),
        ),
{
    batch_members_are_compatible(workload.descriptors_of(), workload.plan_of(), k, p, q);
    let a = member(workload.plan_of(), k, p);
    let b = member(workload.plan_of(), k, q);
    assert(workload.descriptors_of()[a]@ == workload.systems_of()[a].descriptors_of());
    assert(workload.descriptors_of()[b]@ == workload.systems_of()[b].descriptors_of());
}

} // verus!

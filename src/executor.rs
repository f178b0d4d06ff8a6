//! The cooperative executor: capability protocols as explicit resumable
//! state machines, run on one logical thread to their next suspension point.
use vstd::prelude::*;
use crate::command::Command;

verus! {

/// An issued effect as the shell sees it: the command, and the protocol
/// (by its index in the executor) that waits for its answer, if any.
pub struct Request<Ef, Ev, K> {
    pub command: Command<Ef, Ev, K>,
    pub task: Option<usize>,
}

/// A capability protocol: effects to issue one after another, each only once
/// the previous one has been answered.
pub struct Task<Ef, Ev, K> {
    pub steps: Vec<Command<Ef, Ev, K>>,
    pub waiting: bool,
}

impl<Ef, Ev, K> Task<Ef, Ev, K> {
    /// The protocol can make progress: it waits for nothing and has a step left.
    pub open spec fn runnable(&self) -> bool {
        !self.waiting && self.steps@.len() > 0
    }
}

/// `after` is `before` run to its next suspension point: a runnable protocol
/// has issued its first step and now waits; any other is left as it was.
pub open spec fn stepped<Ef, Ev, K>(before: Task<Ef, Ev, K>, after: Task<Ef, Ev, K>) -> bool {
    if before.runnable() {
        after.steps@ == before.steps@.drop_first() && after.waiting
    } else {
        after.steps@ == before.steps@ && after.waiting == before.waiting
    }
}

/// The requests that one run over `tasks` issues, in the order of the tasks.
pub open spec fn issued<Ef, Ev, K>(tasks: Seq<Task<Ef, Ev, K>>) -> Seq<Request<Ef, Ev, K>>
    decreases tasks.len(),
{
    if tasks.len() == 0 {
        Seq::empty()
    } else {
        let front = issued(tasks.drop_last());
        let t = tasks.last();
        if t.runnable() {
            front.push(Request { command: t.steps@[0], task: Some((tasks.len() - 1) as usize) })
        } else {
            front
        }
    }
}

/// `tasks` with the protocol at `t` no longer waiting.
pub open spec fn woken<Ef, Ev, K>(tasks: Seq<Task<Ef, Ev, K>>, t: usize) -> Seq<Task<Ef, Ev, K>> {
    tasks.update(t as int, Task { steps: tasks[t as int].steps, waiting: false })
}

/// No protocol of `tasks` is runnable.
pub open spec fn quiescent<Ef, Ev, K>(tasks: Seq<Task<Ef, Ev, K>>) -> bool {
    forall|i: int| 0 <= i < tasks.len() ==> !(#[trigger] tasks[i]).runnable()
}

/// A run over quiescent protocols issues nothing.
pub proof fn lemma_quiescent_issues_nothing<Ef, Ev, K>(tasks: Seq<Task<Ef, Ev, K>>)
    requires
        quiescent(tasks),
    ensures
        issued(tasks) == Seq::<Request<Ef, Ev, K>>::empty(),
    decreases tasks.len(),
{
    if tasks.len() > 0 {
        let front = tasks.drop_last();
        assert(!tasks[tasks.len() - 1].runnable());
        assert forall|i: int| 0 <= i < front.len() implies !(#[trigger] front[i]).runnable() by {
            assert(front[i] == tasks[i]);
        }
        lemma_quiescent_issues_nothing(front);
    }
}

/// A run over protocols of which only the one at `t` is runnable issues
/// exactly that protocol's first step.
pub proof fn lemma_single_runnable_issues_its_step<Ef, Ev, K>(tasks: Seq<Task<Ef, Ev, K>>, t: int)
    requires
        0 <= t < tasks.len(),
        tasks[t].runnable(),
        forall|i: int| 0 <= i < tasks.len() && i != t ==> !(#[trigger] tasks[i]).runnable(),
    ensures
        issued(tasks) == seq![Request { command: tasks[t].steps@[0], task: Some(t as usize) }],
    decreases tasks.len(),
{
    let front = tasks.drop_last();
    if t == tasks.len() - 1 {
        assert forall|i: int| 0 <= i < front.len() implies !(#[trigger] front[i]).runnable() by {
            assert(front[i] == tasks[i]);
        }
        lemma_quiescent_issues_nothing(front);
        assert(issued(tasks) =~= seq![Request { command: tasks[t].steps@[0], task: Some(t as usize) }]);
    } else {
        assert(!tasks[tasks.len() - 1].runnable());
        assert forall|i: int| 0 <= i < front.len() && i != t implies !(#[trigger] front[i]).runnable() by {
            assert(front[i] == tasks[i]);
        }
        assert(front[t] == tasks[t]);
        lemma_single_runnable_issues_its_step(front, t);
    }
}

/// A protocol suspended on its answer, once woken among quiescent protocols,
/// is the only one a run drives: it issues its next step and nothing else.
pub proof fn lemma_woken_protocol_issues_next_step<Ef, Ev, K>(tasks: Seq<Task<Ef, Ev, K>>, t: usize)
    requires
        t < tasks.len(),
        quiescent(tasks),
        tasks[t as int].steps@.len() > 0,
    ensures
        issued(woken(tasks, t)) == seq![Request { command: tasks[t as int].steps@[0], task: Some(t) }],
{
    let w = woken(tasks, t);
    assert forall|i: int| 0 <= i < w.len() && i != t implies !(#[trigger] w[i]).runnable() by {
        assert(w[i] == tasks[i]);
        assert(!tasks[i].runnable());
    }
    assert(w[t as int].runnable());
    lemma_single_runnable_issues_its_step(w, t as int);
}

/// Running all protocols twice with no new work in between: the first run
/// leaves every protocol suspended or finished, so the second run issues
/// nothing and changes no protocol.
pub proof fn lemma_run_all_idempotent<Ef, Ev, K>(
    first: Seq<Task<Ef, Ev, K>>,
    second: Seq<Task<Ef, Ev, K>>,
    third: Seq<Task<Ef, Ev, K>>,
)
    requires
        second.len() == first.len(),
        third.len() == second.len(),
        forall|i: int| 0 <= i < first.len() ==> stepped(first[i], #[trigger] second[i]),
        forall|i: int| 0 <= i < second.len() ==> stepped(second[i], #[trigger] third[i]),
    ensures
        issued(second) == Seq::<Request<Ef, Ev, K>>::empty(),
        forall|i: int| 0 <= i < third.len() ==> {
            &&& (#[trigger] third[i]).steps@ == second[i].steps@
            &&& third[i].waiting == second[i].waiting
        },
{
    assert forall|i: int| 0 <= i < second.len() implies !(#[trigger] second[i]).runnable() by {
        assert(stepped(first[i], second[i]));
    }
    lemma_quiescent_issues_nothing(second);
    assert forall|i: int| 0 <= i < third.len() implies {
        &&& (#[trigger] third[i]).steps@ == second[i].steps@
        &&& third[i].waiting == second[i].waiting
    } by {
        assert(stepped(second[i], third[i]));
        assert(!second[i].runnable());
    }
}

/// The single-threaded run loop over all capability protocols.
pub struct Executor<Ef, Ev, K> {
    pub tasks: Vec<Task<Ef, Ev, K>>,
}

impl<Ef, Ev, K> Executor<Ef, Ev, K> {
    pub fn new() -> (r: Self)
        ensures
            r.tasks@.len() == 0,
    {
        Executor { tasks: Vec::new() }
    }

    /// Schedules a protocol; it issues its first step at the next run.
    pub fn spawn(&mut self, steps: Vec<Command<Ef, Ev, K>>)
        ensures
            final(self).tasks@ == old(self).tasks@.push(Task { steps, waiting: false }),
    {
        self.tasks.push(Task { steps, waiting: false });
    }

    /// Runs every runnable protocol to its next suspension point and appends
    /// the requests they issue to `out`, in the order of the protocols.
    pub fn run_all(&mut self, out: &mut Vec<Request<Ef, Ev, K>>)
        ensures
            final(self).tasks@.len() == old(self).tasks@.len(),
            forall|i: int| 0 <= i < old(self).tasks@.len() ==> stepped(old(self).tasks@[i], #[trigger] final(self).tasks@[i]),
            final(out)@ == old(out)@ + issued(old(self).tasks@),
    {
        let mut pending: Vec<Task<Ef, Ev, K>> = Vec::new();
        core::mem::swap(&mut self.tasks, &mut pending);
        let ghost orig = pending@;
        let ghost out0 = out@;
        let n: usize = pending.len();
        let mut i: usize = 0;
        while pending.len() > 0
            invariant
                orig.len() == n,
                i + pending@.len() == n,
                pending@ == orig.subrange(i as int, n as int),
                self.tasks@.len() == i,
                forall|j: int| 0 <= j < i ==> stepped(orig[j], #[trigger] self.tasks@[j]),
                out@ == out0 + issued(orig.subrange(0, i as int)),
            decreases pending.len(),
        {
            let mut t = pending.remove(0);
            let ghost before = t;
            let ghost out_before = out@;
            if !t.waiting && t.steps.len() > 0 {
                let command = t.steps.remove(0);
                out.push(Request { command, task: Some(i) });
                t.waiting = true;
            }
            proof {
                let next = orig.subrange(0, i + 1);
                assert(next.drop_last() =~= orig.subrange(0, i as int));
                assert(next.last() == before);
                assert(out@ =~= out0 + issued(next));
            }
            self.tasks.push(t);
            i = i + 1;
        }
        assert(orig.subrange(0, n as int) =~= orig);
    }

    /// Wakes the protocol waiting at `task` after its request was answered.
    /// Returns whether it has steps left, that is whether it goes on.
    pub fn wake(&mut self, task: usize) -> (r: bool)
        requires
            task < old(self).tasks@.len(),
        ensures
            r == (old(self).tasks@[task as int].steps@.len() > 0),
            final(self).tasks@ == woken(old(self).tasks@, task),
    {
        let mut t = self.tasks.remove(task);
        t.waiting = false;
        let more = t.steps.len() > 0;
        self.tasks.insert(task, t);
        assert(self.tasks@ =~= woken(old(self).tasks@, task));
        more
    }
}

} // verus!

//! The scheduling state of a single-threaded executor that runs one main
//! future beside any number of spawned tasks.
//!
//! The futures themselves are opaque to the scheduler: it stores them under a
//! type parameter `F` and hands them out to be polled. What it decides is which
//! future is polled next, which task ids are handed out, what a wake-up
//! records, and when the executor may go to sleep.
use vstd::prelude::*;
use std::collections::HashMap;
use std::collections::VecDeque;

verus! {

broadcast use vstd::std_specs::hash::group_hash_axioms;

/// The index of the first id in `queue` that names a live task, or the
/// length of `queue` when none does. Ids of finished tasks are skipped.
pub open spec fn first_live<F>(queue: Seq<usize>, tasks: Map<usize, F>) -> nat
    decreases queue.len(),
{
    if queue.len() == 0 {
        0
    } else if tasks.contains_key(queue[0]) {
        0
    } else {
        1 + first_live(queue.drop_first(), tasks)
    }
}

/// `first_live` points at a live id, or past the end, and every id before it
/// names no live task.
pub proof fn lemma_first_live<F>(queue: Seq<usize>, tasks: Map<usize, F>)
    ensures
        first_live(queue, tasks) <= queue.len(),
        first_live(queue, tasks) < queue.len() ==> tasks.contains_key(
            queue[first_live(queue, tasks) as int],
        ),
        forall|j: int| 0 <= j < first_live(queue, tasks) ==> !tasks.contains_key(#[trigger] queue[j]),
    decreases queue.len(),
{
    if queue.len() > 0 && !tasks.contains_key(queue[0]) {
        lemma_first_live(queue.drop_first(), tasks);
        assert forall|j: int| 0 <= j < first_live(queue, tasks) implies !tasks.contains_key(
            #[trigger] queue[j],
        ) by {
            if j > 0 {
                assert(queue[j] == queue.drop_first()[j - 1]);
            }
        }
    }
}

/// What a run queue holds, as the contracts see it.
pub struct WakeState {
    /// Whether the main future was woken since it was last handed out.
    pub main_woken: bool,
    /// The woken task ids, oldest first. An id may occur more than once, and
    /// may name a task that has finished meanwhile.
    pub queue: Seq<usize>,
}

/// What the executor itself holds, as the contracts see it.
pub struct TableState<F> {
    /// Whether the current round has passed the main future.
    pub draining: bool,
    /// The live tasks, by id.
    pub tasks: Map<usize, F>,
    /// The id that the next spawned task gets.
    pub next_id: nat,
}

/// The whole scheduling state: the executor's and its run queue's.
pub struct SchedState<F> {
    pub table: TableState<F>,
    pub wakes: WakeState,
}

/// A wake of the task `task_id`: its id goes to the back of the queue.
pub open spec fn wake_task_model(w: WakeState, task_id: usize) -> WakeState {
    WakeState { queue: w.queue.push(task_id), ..w }
}

/// A wake of the main future: it is due to be polled.
pub open spec fn wake_main_model(w: WakeState) -> WakeState {
    WakeState { main_woken: true, ..w }
}

/// A spawn of `fut`: it goes into the table under the next id, which is used
/// up, and that id is queued as a wake of the new task would queue it.
pub open spec fn spawn_model<F>(s: SchedState<F>, fut: F) -> SchedState<F> {
    SchedState {
        table: TableState {
            tasks: s.table.tasks.insert(s.table.next_id as usize, fut),
            next_id: s.table.next_id + 1,
            ..s.table
        },
        wakes: wake_task_model(s.wakes, s.table.next_id as usize),
    }
}

/// A task that answered pending goes back into the table under its id.
pub open spec fn task_pending_model<F>(t: TableState<F>, task_id: usize, fut: F) -> TableState<F> {
    TableState { tasks: t.tasks.insert(task_id, fut), ..t }
}

/// The part of the executor that wakers touch: the ids of tasks that were
/// woken, in the order of their wake-ups, and whether the main future was
/// woken since it was last handed out to be polled.
pub struct RunQueue {
    queue: VecDeque<usize>,
    main_woken: bool,
}

impl RunQueue {
    /// What the run queue holds.
    pub closed spec fn state(&self) -> WakeState {
        WakeState { main_woken: self.main_woken, queue: self.queue@ }
    }

    /// The woken task ids, oldest first.
    pub open spec fn queue_spec(&self) -> Seq<usize> {
        self.state().queue
    }

    /// Whether the main future is due to be polled.
    pub open spec fn main_woken_spec(&self) -> bool {
        self.state().main_woken
    }

    /// An empty queue with the main future due to be polled, so that the
    /// first round of the executor polls it.
    pub fn new() -> (rq: Self)
        ensures
            rq.state() == (WakeState { main_woken: true, queue: Seq::empty() }),
    {
        RunQueue { queue: VecDeque::new(), main_woken: true }
    }

    /// Records a wake-up of the task `task_id`: it goes to the back of the queue.
    pub fn wake_task(&mut self, task_id: usize)
        ensures
            final(self).state() == wake_task_model(old(self).state(), task_id),
    {
        self.queue.push_back(task_id);
    }

    /// Records a wake-up of the main future. It stays recorded until the
    /// executor next hands the main future out to be polled, so a wake made
    /// while the main future is being polled is followed by another poll.
    pub fn wake_main(&mut self)
        ensures
            final(self).state() == wake_main_model(old(self).state()),
    {
        self.main_woken = true;
    }

    /// Whether the main future is due to be polled.
    pub fn is_main_woken(&self) -> (r: bool)
        ensures
            r == self.main_woken_spec(),
    {
        self.main_woken
    }

    /// The number of recorded task wake-ups not yet handled.
    pub fn len(&self) -> (r: usize)
        ensures
            r == self.queue_spec().len(),
    {
        self.queue.len()
    }
}

/// Which of the three things the executor does next, without the task.
#[derive(PartialEq, Eq, Debug, Clone, Copy)]
pub enum StepKind {
    PollMain,
    PollTask(usize),
    Sleep,
}

/// What the executor does next, given whether the current round has passed
/// the main future (`draining`), whether the main future was woken, the run
/// queue and the live tasks: a round opens by polling a woken main future;
/// then the first live task in the queue is polled; when none is left the
/// executor polls the main future again if it was woken meanwhile, and
/// sleeps otherwise.
pub open spec fn step_kind<F>(draining: bool, main_woken: bool, queue: Seq<usize>, tasks: Map<usize, F>) -> StepKind {
    let k = first_live(queue, tasks);
    if !draining && main_woken {
        StepKind::PollMain
    } else if k < queue.len() {
        StepKind::PollTask(queue[k as int])
    } else if main_woken {
        StepKind::PollMain
    } else {
        StepKind::Sleep
    }
}

/// The run queue's state after the task `task_id` has been woken `k` times,
/// each wake as [`RunQueue::wake_task`] states.
pub open spec fn woken_times(w: WakeState, task_id: usize, k: nat) -> WakeState
    decreases k,
{
    if k == 0 {
        w
    } else {
        wake_task_model(woken_times(w, task_id, (k - 1) as nat), task_id)
    }
}

/// `k` wakes of a task append `k` copies of its id at the back of the run
/// queue, keeping what was there in order and merging nothing.
pub proof fn law_wakes_append(w: WakeState, task_id: usize, k: nat)
    ensures
        woken_times(w, task_id, k).queue == w.queue + Seq::new(k, |_i: int| task_id),
        woken_times(w, task_id, k).main_woken == w.main_woken,
    decreases k,
{
    if k > 0 {
        law_wakes_append(w, task_id, (k - 1) as nat);
        assert(w.queue + Seq::new(k, |_i: int| task_id) =~= (w.queue + Seq::new(
            (k - 1) as nat,
            |_i: int| task_id,
        )).push(task_id));
    } else {
        assert(w.queue + Seq::new(0, |_i: int| task_id) =~= w.queue);
    }
}

/// The scheduling state held by an executor and its run queue.
pub open spec fn sched<F>(e: Executor<F>, rq: RunQueue) -> SchedState<F> {
    SchedState { table: e.state(), wakes: rq.state() }
}

/// The scheduling state after one call of [`Executor::next_step`], which
/// does what [`step_kind`] says: handing out the main future clears its wake,
/// and opening a round with it only marks the round; handing out a task drops
/// the queue up to and including its id and takes it out of the table;
/// handing out the main future at the end of a round, or sleeping, empties the
/// queue, and sleeping ends the round.
pub open spec fn after_step<F>(s: SchedState<F>) -> SchedState<F> {
    let q = s.wakes.queue;
    let k = first_live(q, s.table.tasks);
    if !s.table.draining && s.wakes.main_woken {
        SchedState {
            table: TableState { draining: true, ..s.table },
            wakes: WakeState { main_woken: false, ..s.wakes },
        }
    } else if k < q.len() {
        SchedState {
            table: TableState {
                draining: true,
                tasks: s.table.tasks.remove(q[k as int]),
                ..s.table
            },
            wakes: WakeState { queue: q.subrange(k + 1int, q.len() as int), ..s.wakes },
        }
    } else if s.wakes.main_woken {
        SchedState {
            table: TableState { draining: true, ..s.table },
            wakes: WakeState { main_woken: false, queue: Seq::empty() },
        }
    } else {
        SchedState {
            table: TableState { draining: false, ..s.table },
            wakes: WakeState { main_woken: false, queue: Seq::empty() },
        }
    }
}

/// What the executor does next.
pub enum Step<F> {
    /// Poll the main future.
    PollMain,
    /// Poll the task with this id; the task is handed out of the table and
    /// comes back through [`Executor::task_pending`] if it is not finished.
    PollTask(usize, F),
    /// Nothing is due: wait for a wake-up.
    Sleep,
}

impl<F> Step<F> {
    /// The step without the task it hands out.
    pub open spec fn kind(&self) -> StepKind {
        match self {
            Step::PollMain => StepKind::PollMain,
            Step::PollTask(id, _) => StepKind::PollTask(*id),
            Step::Sleep => StepKind::Sleep,
        }
    }
}

/// The executor's own state: the table of live tasks, the id that the next
/// spawned task gets, and whether the current round has polled the main
/// future and is now working through the run queue.
pub struct Executor<F> {
    tasks: HashMap<usize, F>,
    next_task_id: usize,
    draining: bool,
}

impl<F> Executor<F> {
    /// What the executor holds.
    pub closed spec fn state(&self) -> TableState<F> {
        TableState { draining: self.draining, tasks: self.tasks@, next_id: self.next_task_id as nat }
    }

    /// The live tasks, by id.
    pub open spec fn tasks_spec(&self) -> Map<usize, F> {
        self.state().tasks
    }

    /// The id that the next spawned task gets.
    pub open spec fn next_task_id_spec(&self) -> nat {
        self.state().next_id
    }

    /// Whether the current round has already passed the main future.
    pub open spec fn draining_spec(&self) -> bool {
        self.state().draining
    }

    /// Every live task has an id below the next one to be handed out, so a
    /// new task never displaces a live one.
    #[verifier::type_invariant]
    spec fn wf(&self) -> bool {
        forall|id: usize| #[trigger] self.tasks@.contains_key(id) ==> id < self.next_task_id
    }

    /// An executor with no tasks, at the start of a round.
    pub fn new() -> (e: Self)
        ensures
            e.state() == (TableState { draining: false, tasks: Map::<usize, F>::empty(), next_id: 0 }),
    {
        Executor { tasks: HashMap::new(), next_task_id: 0, draining: false }
    }

    /// The id that the next spawned task gets.
    pub fn next_task_id(&self) -> (r: usize)
        ensures
            r == self.next_task_id_spec(),
    {
        self.next_task_id
    }

    /// The number of live tasks.
    pub fn task_count(&self) -> (r: usize)
        ensures
            r == self.tasks_spec().len(),
    {
        self.tasks.len()
    }

    /// Adds `fut` as a new task under a fresh id and schedules it to be
    /// polled, as a wake-up of it would. Returns its id.
    pub fn spawn(&mut self, run_queue: &mut RunQueue, fut: F) -> (task_id: usize)
        requires
            old(self).next_task_id_spec() < usize::MAX,
        ensures
            task_id == old(self).next_task_id_spec(),
            !old(self).tasks_spec().contains_key(task_id),
            sched(*final(self), *final(run_queue)) == spawn_model(sched(*old(self), *old(run_queue)), fut),
            final(self).tasks_spec() == old(self).tasks_spec().insert(task_id, fut),
            final(self).tasks_spec().remove(task_id) == old(self).tasks_spec(),
            final(self).tasks_spec().len() == old(self).tasks_spec().len() + 1,
            final(self).draining_spec() == old(self).draining_spec(),
            final(run_queue).queue_spec() == old(run_queue).queue_spec().push(task_id),
            final(run_queue).main_woken_spec() == old(run_queue).main_woken_spec(),
    {
        proof {
            use_type_invariant(&*self);
        }
        let task_id = self.next_task_id;
        self.next_task_id = task_id + 1;
        let mut tasks = HashMap::new();
        std::mem::swap(&mut tasks, &mut self.tasks);
        tasks.insert(task_id, fut);
        proof {
            assert(tasks@.remove(task_id) =~= old(self).tasks@);
            assert(old(self).tasks@.dom().finite());
        }
        self.tasks = tasks;
        run_queue.wake_task(task_id);
        task_id
    }

    /// Puts back a task that was handed out by [`Executor::next_step`] and
    /// returned pending when polled.
    pub fn task_pending(&mut self, task_id: usize, fut: F)
        requires
            task_id < old(self).next_task_id_spec(),
        ensures
            final(self).state() == task_pending_model(old(self).state(), task_id, fut),
            final(self).tasks_spec() == old(self).tasks_spec().insert(task_id, fut),
            final(self).draining_spec() == old(self).draining_spec(),
            final(self).next_task_id_spec() == old(self).next_task_id_spec(),
    {
        proof {
            use_type_invariant(&*self);
        }
        let mut tasks = HashMap::new();
        std::mem::swap(&mut tasks, &mut self.tasks);
        tasks.insert(task_id, fut);
        self.tasks = tasks;
    }

    /// Decides what the executor does next.
    ///
    /// A round first polls the main future if it was woken, then hands out,
    /// one call at a time, the tasks named in the run queue in the order of
    /// their wake-ups, dropping ids of tasks that are no longer live. When the
    /// queue is empty the round ends: if the main future was woken meanwhile
    /// a new round starts by polling it, and otherwise the executor sleeps.
    pub fn next_step(&mut self, run_queue: &mut RunQueue) -> (step: Step<F>)
        ensures
            step.kind() == step_kind(
                old(self).draining_spec(),
                old(run_queue).main_woken_spec(),
                old(run_queue).queue_spec(),
                old(self).tasks_spec(),
            ),
            sched(*final(self), *final(run_queue)) == after_step(sched(*old(self), *old(run_queue))),
            step matches Step::PollTask(id, fut) ==> old(self).tasks_spec().contains_key(id) && fut
                == old(self).tasks_spec()[id],
            final(self).tasks_spec() == (match step.kind() {
                StepKind::PollTask(id) => old(self).tasks_spec().remove(id),
                _ => old(self).tasks_spec(),
            }),
            final(self).next_task_id_spec() == old(self).next_task_id_spec(),
            step is PollMain ==> final(self).draining_spec() && !final(run_queue).main_woken_spec(),
            step is PollTask ==> final(self).draining_spec() && final(run_queue).main_woken_spec()
                == old(run_queue).main_woken_spec(),
            step is Sleep ==> !final(self).draining_spec() && final(run_queue).queue_spec().len() == 0,
    {
        proof {
            use_type_invariant(&*self);
        }
        if !self.draining {
            self.draining = true;
            if run_queue.main_woken {
                run_queue.main_woken = false;
                return Step::PollMain;
            }
        }
        let mut tasks = HashMap::new();
        std::mem::swap(&mut tasks, &mut self.tasks);
        let found = pop_first_live(&mut tasks, &mut run_queue.queue);
        proof {
            assert forall|id: usize| #[trigger] tasks@.contains_key(id) implies id < self.next_task_id by {
                assert(old(self).tasks@.contains_key(id));
            }
        }
        self.tasks = tasks;
        match found {
            Some((task_id, fut)) => Step::PollTask(task_id, fut),
            None => {
                if run_queue.main_woken {
                    run_queue.main_woken = false;
                    Step::PollMain
                } else {
                    self.draining = false;
                    Step::Sleep
                }
            },
        }
    }
}

/// Pops ids off the front of `queue` until one names a live task, which it
/// takes out of `tasks` and returns; returns `None` with the queue emptied
/// when no id does.
fn pop_first_live<F>(tasks: &mut HashMap<usize, F>, queue: &mut VecDeque<usize>) -> (found: Option<(usize, F)>)
    ensures
        ({
            let q = old(queue)@;
            let k = first_live(q, old(tasks)@);
            if k < q.len() {
                &&& found matches Some((id, fut)) && id == q[k as int] && fut == old(tasks)@[id]
                &&& old(tasks)@.contains_key(q[k as int])
                &&& final(tasks)@ == old(tasks)@.remove(q[k as int])
                &&& final(queue)@ == q.subrange(k + 1int, q.len() as int)
            } else {
                &&& found is None
                &&& final(tasks)@ == old(tasks)@
                &&& final(queue)@ == Seq::<usize>::empty()
            }
        }),
{
    let ghost q0 = queue@;
    let ghost tasks0 = tasks@;
    proof {
        lemma_first_live(q0, tasks0);
    }
    let ghost k0 = first_live(q0, tasks0);
    let queued = queue.len();
    let mut popped: usize = 0;
    loop
        invariant_except_break
            tasks@ == tasks0,
            q0 == old(queue)@,
            tasks0 == old(tasks)@,
            k0 == first_live(q0, tasks0),
            k0 <= q0.len(),
            k0 < q0.len() ==> tasks0.contains_key(q0[k0 as int]),
            forall|j: int| 0 <= j < k0 ==> !tasks0.contains_key(#[trigger] q0[j]),
            popped <= k0,
            q0.len() == queued,
            queue@ == q0.subrange(popped as int, q0.len() as int),
        ensures
            k0 == q0.len(),
            queue@ == Seq::<usize>::empty(),
            tasks@ == tasks0,
        decreases q0.len() - popped,
    {
        match queue.pop_front() {
            Some(task_id) => {
                assert(task_id == q0[popped as int]);
                match tasks.remove(&task_id) {
                    Some(fut) => {
                        assert(popped == k0);
                        assert(tasks@ == tasks0.remove(task_id));
                        assert(queue@ =~= q0.subrange(k0 + 1int, q0.len() as int));
                        return Some((task_id, fut));
                    },
                    None => {
                        assert(tasks@ =~= tasks0);
                        popped = popped + 1;
                        assert(queue@ =~= q0.subrange(popped as int, q0.len() as int));
                    },
                }
            },
            None => {
                assert(popped == q0.len());
                break;
            },
        }
    }
    None
}

/// A waker of a spawned task: what it records when the task is woken.
pub struct AsyncTaskWakerInner {
    task_id: usize,
}

impl AsyncTaskWakerInner {
    /// The task that this waker wakes.
    pub closed spec fn task_id_spec(&self) -> usize {
        self.task_id
    }

    /// A waker for the task `task_id`.
    pub fn new(task_id: usize) -> (w: Self)
        ensures
            w.task_id_spec() == task_id,
    {
        AsyncTaskWakerInner { task_id }
    }

    /// The task that this waker wakes.
    pub fn task_id(&self) -> (r: usize)
        ensures
            r == self.task_id_spec(),
    {
        self.task_id
    }

    /// Wakes the task: its id goes to the back of the run queue.
    pub fn wake(&self, run_queue: &mut RunQueue)
        ensures
            final(run_queue).state() == wake_task_model(old(run_queue).state(), self.task_id_spec()),
    {
        run_queue.wake_task(self.task_id);
    }
}

/// The waker of the main future.
pub struct MainWakerInner;

impl MainWakerInner {
    /// Wakes the main future: it is polled again before the executor next
    /// sleeps.
    pub fn wake(&self, run_queue: &mut RunQueue)
        ensures
            final(run_queue).state() == wake_main_model(old(run_queue).state()),
    {
        run_queue.wake_main();
    }
}

impl<F> Executor<F> {
    /// The waker that a task with id `task_id` is polled with.
    pub fn get_async_task_waker(&self, task_id: usize) -> (w: AsyncTaskWakerInner)
        ensures
            w.task_id_spec() == task_id,
    {
        AsyncTaskWakerInner::new(task_id)
    }

    /// The waker that the main future is polled with.
    pub fn get_main_waker(&self) -> (w: MainWakerInner) {
        MainWakerInner
    }
}

/// The executor goes to sleep exactly when the main future is not woken and
/// no id in the run queue names a live task: a recorded wake-up of a live task,
/// or a main wake-up still recorded, keeps it awake.
pub proof fn law_sleeps_only_when_idle<F>(
    draining: bool,
    main_woken: bool,
    queue: Seq<usize>,
    tasks: Map<usize, F>,
)
    ensures
        step_kind(draining, main_woken, queue, tasks) == StepKind::Sleep <==> (!main_woken
            && forall|j: int| 0 <= j < queue.len() ==> !tasks.contains_key(#[trigger] queue[j])),
{
    lemma_first_live(queue, tasks);
    let k = first_live(queue, tasks);
    if k < queue.len() {
        assert(tasks.contains_key(queue[k as int]));
    }
}

/// The main future is polled only when it was woken.
pub proof fn law_main_polled_only_when_woken<F>(
    draining: bool,
    main_woken: bool,
    queue: Seq<usize>,
    tasks: Map<usize, F>,
)
    ensures
        step_kind(draining, main_woken, queue, tasks) == StepKind::PollMain ==> main_woken,
{
}

/// Tasks are polled in the order of their wake-ups: the task handed out is
/// live, and it is named by the oldest wake-up that names a live task.
pub proof fn law_tasks_polled_in_wake_order<F>(
    draining: bool,
    main_woken: bool,
    queue: Seq<usize>,
    tasks: Map<usize, F>,
    id: usize,
)
    requires
        step_kind(draining, main_woken, queue, tasks) == StepKind::PollTask(id),
    ensures
        tasks.contains_key(id),
        exists|k: int|
            0 <= k < queue.len() && queue[k] == id && forall|j: int|
                0 <= j < k ==> !tasks.contains_key(#[trigger] queue[j]),
{
    lemma_first_live(queue, tasks);
    let k = first_live(queue, tasks) as int;
    assert(queue[k] == id);
}

/// A spawned task is polled before the executor next sleeps: right after a
/// spawn, whatever the state, the executor does not sleep.
pub proof fn law_spawned_task_is_due<F>(
    draining: bool,
    main_woken: bool,
    queue: Seq<usize>,
    tasks: Map<usize, F>,
    id: usize,
    fut: F,
)
    ensures
        step_kind(draining, main_woken, queue.push(id), tasks.insert(id, fut)) != StepKind::Sleep,
{
    law_sleeps_only_when_idle(draining, main_woken, queue.push(id), tasks.insert(id, fut));
    assert(queue.push(id)[queue.len() as int] == id);
}

/// Handing a task out to be polled and putting it back after it returned
/// pending leaves the table of live tasks as it was.
pub proof fn law_pending_task_is_restored<F>(tasks: Map<usize, F>, id: usize)
    requires
        tasks.contains_key(id),
    ensures
        tasks.remove(id).insert(id, tasks[id]) == tasks,
{
    assert(tasks.remove(id).insert(id, tasks[id]) =~= tasks);
}

/// A step keeps every live task other than the one it hands out: handing out
/// a task removes exactly that task from the table, and handing out the main
/// future or sleeping leaves the table as it was. The next id never changes.
pub proof fn law_step_removes_only_handed_out<F>(s: SchedState<F>)
    ensures
        after_step(s).table.tasks == (match step_kind(
            s.table.draining,
            s.wakes.main_woken,
            s.wakes.queue,
            s.table.tasks,
        ) {
            StepKind::PollTask(id) => s.table.tasks.remove(id),
            _ => s.table.tasks,
        }),
        after_step(s).table.next_id == s.table.next_id,
{
}

/// After the main future is handed out, the round works through the run
/// queue: the next step hands out a live queued task if there is one, so the
/// main future is not polled twice in a row while a task waits. Wakes, spawns
/// and tasks put back in between do not end the round.
pub proof fn law_main_poll_then_queued_task<F>(s: SchedState<F>, s2: SchedState<F>)
    requires
        step_kind(s.table.draining, s.wakes.main_woken, s.wakes.queue, s.table.tasks)
            == StepKind::PollMain,
        s2.table.draining == after_step(s).table.draining,
        exists|j: int| 0 <= j < s2.wakes.queue.len() && s2.table.tasks.contains_key(#[trigger] s2.wakes.queue[j]),
    ensures
        after_step(s).table.draining,
        !after_step(s).wakes.main_woken,
        step_kind(s2.table.draining, s2.wakes.main_woken, s2.wakes.queue, s2.table.tasks) is PollTask,
{
    lemma_first_live(s2.wakes.queue, s2.table.tasks);
    let j = choose|j: int| 0 <= j < s2.wakes.queue.len() && s2.table.tasks.contains_key(#[trigger] s2.wakes.queue[j]);
    if first_live(s2.wakes.queue, s2.table.tasks) >= s2.wakes.queue.len() {
        assert(!s2.table.tasks.contains_key(s2.wakes.queue[j]));
    }
}

/// A spawn keeps every live task and adds the new one under a fresh id: the
/// table grows by exactly one entry, and removing that entry gives back the
/// table as it was. The round's phase and the main wake are untouched.
pub proof fn law_spawn_keeps_tasks<F>(s: SchedState<F>, fut: F)
    requires
        s.table.tasks.dom().finite(),
        !s.table.tasks.contains_key(s.table.next_id as usize),
    ensures
        spawn_model(s, fut).table.tasks.contains_key(s.table.next_id as usize),
        spawn_model(s, fut).table.tasks.remove(s.table.next_id as usize) == s.table.tasks,
        spawn_model(s, fut).table.tasks.len() == s.table.tasks.len() + 1,
        spawn_model(s, fut).table.draining == s.table.draining,
        spawn_model(s, fut).wakes.main_woken == s.wakes.main_woken,
        spawn_model(s, fut).wakes.queue == s.wakes.queue.push(s.table.next_id as usize),
{
    assert(spawn_model(s, fut).table.tasks.remove(s.table.next_id as usize) =~= s.table.tasks);
}

} // verus!

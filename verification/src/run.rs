//! Whole runs of the executor: the calls that the executor loop and the
//! wakers make on the scheduler, one after another, and what holds over all
//! of them.
//!
//! Each event stands for one call of the library, and applying it changes the
//! scheduling state through the same spec function that the call's contract
//! uses. The loop's own bookkeeping is added: after `next_step` hands out the
//! main future or a task, that future is being polled until the loop learns
//! its answer. A main future that answers ready ends the run.
use vstd::prelude::*;
use crate::executor::after_step;
use crate::executor::first_live;
use crate::executor::lemma_first_live;
use crate::executor::law_main_poll_then_queued_task;
use crate::executor::spawn_model;
use crate::executor::step_kind;
use crate::executor::task_pending_model;
use crate::executor::wake_main_model;
use crate::executor::wake_task_model;
use crate::executor::SchedState;
use crate::executor::StepKind;
use crate::executor::TableState;
use crate::executor::WakeState;

verus! {

/// One call on the scheduler during a run.
pub enum SchedEvent<F> {
    /// `Executor::next_step`.
    Step,
    /// The main future answered pending; the scheduler is not told.
    MainPending,
    /// `Executor::task_pending`, after the task handed out answered pending.
    TaskPending(usize, F),
    /// The task handed out finished and is dropped.
    TaskDone,
    /// A wake of the main future's waker.
    WakeMain,
    /// A wake of the waker of the task with this id.
    WakeTask(usize),
    /// `Executor::spawn` of this future.
    Spawn(F),
}

/// The scheduling state during a run, with whether the main future or a task
/// is being polled at the moment.
pub struct RunState<F> {
    pub sched: SchedState<F>,
    pub main_out: bool,
    pub task_out: Option<usize>,
}

/// What the next step is, in a scheduling state.
pub open spec fn kind_of<F>(s: SchedState<F>) -> StepKind {
    step_kind(s.table.draining, s.wakes.main_woken, s.wakes.queue, s.table.tasks)
}

/// The state of a run that has just begun: a new executor and a new run
/// queue, nothing being polled.
pub open spec fn run_start<F>() -> RunState<F> {
    RunState {
        sched: SchedState {
            table: TableState { draining: false, tasks: Map::empty(), next_id: 0 },
            wakes: WakeState { main_woken: true, queue: Seq::empty() },
        },
        main_out: false,
        task_out: None,
    }
}

/// Whether the event may come next: the loop steps only when nothing is being
/// polled, reports back only on what it polls, and spawns only while ids
/// are left.
pub open spec fn event_ok<F>(r: RunState<F>, e: SchedEvent<F>) -> bool {
    match e {
        SchedEvent::Step => !r.main_out && r.task_out is None,
        SchedEvent::MainPending => r.main_out,
        SchedEvent::TaskPending(id, _) => r.task_out == Some(id),
        SchedEvent::TaskDone => r.task_out is Some,
        SchedEvent::Spawn(_) => r.sched.table.next_id < usize::MAX,
        _ => true,
    }
}

/// The state after the event, as the contract of the call states.
pub open spec fn apply<F>(r: RunState<F>, e: SchedEvent<F>) -> RunState<F> {
    let s = r.sched;
    match e {
        SchedEvent::Step => RunState {
            sched: after_step(s),
            main_out: kind_of(s) == StepKind::PollMain,
            task_out: match kind_of(s) {
                StepKind::PollTask(id) => Some(id),
                _ => None,
            },
        },
        SchedEvent::MainPending => RunState { main_out: false, ..r },
        SchedEvent::TaskPending(id, f) => RunState {
            sched: SchedState { table: task_pending_model(s.table, id, f), ..s },
            task_out: None,
            ..r
        },
        SchedEvent::TaskDone => RunState { task_out: None, ..r },
        SchedEvent::WakeMain => RunState {
            sched: SchedState { wakes: wake_main_model(s.wakes), ..s },
            ..r
        },
        SchedEvent::WakeTask(id) => RunState {
            sched: SchedState { wakes: wake_task_model(s.wakes, id), ..s },
            ..r
        },
        SchedEvent::Spawn(f) => RunState { sched: spawn_model(s, f), ..r },
    }
}

/// Whether every event of `evs` may come when it does, from `r`.
pub open spec fn run_ok<F>(r: RunState<F>, evs: Seq<SchedEvent<F>>) -> bool
    decreases evs.len(),
{
    evs.len() == 0 || (event_ok(r, evs[0]) && run_ok(apply(r, evs[0]), evs.drop_first()))
}

/// The state after the events `evs`, from `r`.
pub open spec fn run_end<F>(r: RunState<F>, evs: Seq<SchedEvent<F>>) -> RunState<F>
    decreases evs.len(),
{
    if evs.len() == 0 {
        r
    } else {
        run_end(apply(r, evs[0]), evs.drop_first())
    }
}

/// How many steps of the run hand out the main future.
pub open spec fn main_polls<F>(r: RunState<F>, evs: Seq<SchedEvent<F>>) -> nat
    decreases evs.len(),
{
    if evs.len() == 0 {
        0
    } else {
        (if evs[0] is Step && kind_of(r.sched) == StepKind::PollMain {
            1nat
        } else {
            0nat
        }) + main_polls(apply(r, evs[0]), evs.drop_first())
    }
}

/// How many wakes of the main future the run holds.
pub open spec fn main_wakes<F>(evs: Seq<SchedEvent<F>>) -> nat
    decreases evs.len(),
{
    if evs.len() == 0 {
        0
    } else {
        (if evs[0] is WakeMain {
            1nat
        } else {
            0nat
        }) + main_wakes(evs.drop_first())
    }
}

/// How many steps of the run hand out the task `t`.
pub open spec fn task_polls<F>(r: RunState<F>, evs: Seq<SchedEvent<F>>, t: usize) -> nat
    decreases evs.len(),
{
    if evs.len() == 0 {
        0
    } else {
        (if evs[0] is Step && kind_of(r.sched) == StepKind::PollTask(t) {
            1nat
        } else {
            0nat
        }) + task_polls(apply(r, evs[0]), evs.drop_first(), t)
    }
}

/// How many wakes of the task `t` the run holds.
pub open spec fn task_wakes<F>(evs: Seq<SchedEvent<F>>, t: usize) -> nat
    decreases evs.len(),
{
    if evs.len() == 0 {
        0
    } else {
        (if evs[0] == SchedEvent::<F>::WakeTask(t) {
            1nat
        } else {
            0nat
        }) + task_wakes(evs.drop_first(), t)
    }
}

/// How many steps of the run hand out any task.
pub open spec fn all_task_polls<F>(r: RunState<F>, evs: Seq<SchedEvent<F>>) -> nat
    decreases evs.len(),
{
    if evs.len() == 0 {
        0
    } else {
        (if evs[0] is Step && kind_of(r.sched) is PollTask {
            1nat
        } else {
            0nat
        }) + all_task_polls(apply(r, evs[0]), evs.drop_first())
    }
}

/// How many steps hand out the main future before the first step that hands
/// out the task `t`, or before `t` is reported finished.
pub open spec fn main_polls_before_task<F>(r: RunState<F>, evs: Seq<SchedEvent<F>>, t: usize) -> nat
    decreases evs.len(),
{
    if evs.len() == 0 {
        0
    } else if (evs[0] is Step && kind_of(r.sched) == StepKind::PollTask(t)) || (evs[0] is TaskDone
        && r.task_out == Some(t)) {
        0
    } else {
        (if evs[0] is Step && kind_of(r.sched) == StepKind::PollMain {
            1nat
        } else {
            0nat
        }) + main_polls_before_task(apply(r, evs[0]), evs.drop_first(), t)
    }
}

/// How often `t` occurs in `q`.
pub open spec fn occurrences(q: Seq<usize>, t: usize) -> nat
    decreases q.len(),
{
    if q.len() == 0 {
        0
    } else {
        (if q[0] == t {
            1nat
        } else {
            0nat
        }) + occurrences(q.drop_first(), t)
    }
}

proof fn lemma_occurrences_concat(a: Seq<usize>, b: Seq<usize>, t: usize)
    ensures
        occurrences(a + b, t) == occurrences(a, t) + occurrences(b, t),
    decreases a.len(),
{
    if a.len() > 0 {
        lemma_occurrences_concat(a.drop_first(), b, t);
        assert((a + b).drop_first() =~= a.drop_first() + b);
    } else {
        assert(a + b =~= b);
    }
}

proof fn lemma_occurrences_positive(a: Seq<usize>, t: usize, i: int)
    requires
        0 <= i < a.len(),
        a[i] == t,
    ensures
        occurrences(a, t) >= 1,
    decreases a.len(),
{
    if i > 0 {
        lemma_occurrences_positive(a.drop_first(), t, i - 1);
    }
}

proof fn lemma_occurrences_push(q: Seq<usize>, x: usize, t: usize)
    ensures
        occurrences(q.push(x), t) == occurrences(q, t) + (if x == t {
            1nat
        } else {
            0nat
        }),
{
    lemma_occurrences_concat(q, seq![x], t);
    assert(q.push(x) =~= q + seq![x]);
    assert(seq![x].drop_first() =~= Seq::<usize>::empty());
    assert(occurrences(seq![x].drop_first(), t) == 0);
    assert(seq![x][0] == x);
}

/// Dropping the first `j` ids of `q` leaves no more occurrences of `t`, and
/// fewer when one of the dropped ids is `t`.
proof fn lemma_occurrences_suffix(q: Seq<usize>, t: usize, j: int)
    requires
        0 <= j <= q.len(),
    ensures
        occurrences(q.subrange(j, q.len() as int), t) <= occurrences(q, t),
        (exists|i: int| 0 <= i < j && q[i] == t) ==> occurrences(q.subrange(j, q.len() as int), t)
            < occurrences(q, t),
{
    lemma_occurrences_concat(q.subrange(0, j), q.subrange(j, q.len() as int), t);
    assert(q =~= q.subrange(0, j) + q.subrange(j, q.len() as int));
    if exists|i: int| 0 <= i < j && q[i] == t {
        let i = choose|i: int| 0 <= i < j && q[i] == t;
        lemma_occurrences_positive(q.subrange(0, j), t, i);
    }
}

/// How many steps of the run sleep before the first step that hands out the
/// main future.
pub open spec fn sleeps_before_main<F>(r: RunState<F>, evs: Seq<SchedEvent<F>>) -> nat
    decreases evs.len(),
{
    if evs.len() == 0 {
        0
    } else if evs[0] is Step && kind_of(r.sched) == StepKind::PollMain {
        0
    } else {
        (if evs[0] is Step && kind_of(r.sched) == StepKind::Sleep {
            1nat
        } else {
            0nat
        }) + sleeps_before_main(apply(r, evs[0]), evs.drop_first())
    }
}

/// How many steps the run takes up to and including the first one that hands
/// out the main future.
pub open spec fn steps_until_main<F>(r: RunState<F>, evs: Seq<SchedEvent<F>>) -> nat
    decreases evs.len(),
{
    if evs.len() == 0 {
        0
    } else if evs[0] is Step && kind_of(r.sched) == StepKind::PollMain {
        1
    } else {
        (if evs[0] is Step {
            1nat
        } else {
            0nat
        }) + steps_until_main(apply(r, evs[0]), evs.drop_first())
    }
}

/// Every live task, and the task being polled, has an id below the next one,
/// and the task being polled is not in the table.
pub open spec fn run_inv<F>(r: RunState<F>) -> bool {
    &&& forall|id: usize| #[trigger] r.sched.table.tasks.contains_key(id) ==> id < r.sched.table.next_id
    &&& (r.task_out matches Some(x) ==> x < r.sched.table.next_id && !r.sched.table.tasks.contains_key(x))
}

proof fn lemma_run_inv_event<F>(r: RunState<F>, e: SchedEvent<F>)
    requires
        run_inv(r),
        event_ok(r, e),
    ensures
        run_inv(apply(r, e)),
{
    if e is Step {
        lemma_first_live(r.sched.wakes.queue, r.sched.table.tasks);
        let k = first_live(r.sched.wakes.queue, r.sched.table.tasks);
        if k < r.sched.wakes.queue.len() {
            assert(r.sched.table.tasks.contains_key(r.sched.wakes.queue[k as int]));
        }
    }
}

proof fn lemma_run_inv<F>(r: RunState<F>, evs: Seq<SchedEvent<F>>)
    requires
        run_inv(r),
        run_ok(r, evs),
    ensures
        run_inv(run_end(r, evs)),
    decreases evs.len(),
{
    if evs.len() > 0 {
        lemma_run_inv_event(r, evs[0]);
        lemma_run_inv(apply(r, evs[0]), evs.drop_first());
    }
}

proof fn lemma_run_concat<F>(r: RunState<F>, a: Seq<SchedEvent<F>>, b: Seq<SchedEvent<F>>)
    ensures
        run_ok(r, a + b) == (run_ok(r, a) && run_ok(run_end(r, a), b)),
        run_end(r, a + b) == run_end(run_end(r, a), b),
    decreases a.len(),
{
    if a.len() > 0 {
        assert((a + b).drop_first() =~= a.drop_first() + b);
        assert((a + b)[0] == a[0]);
        lemma_run_concat(apply(r, a[0]), a.drop_first(), b);
    } else {
        assert(a + b =~= b);
    }
}

/// A run `before`, then the event `e`, then `after`, from a new executor: the
/// state before `e` is reached, satisfies [`run_inv`], and `e` may come then.
proof fn lemma_split<F>(before: Seq<SchedEvent<F>>, e: SchedEvent<F>, after: Seq<SchedEvent<F>>)
    requires
        run_ok(run_start(), before.push(e) + after),
    ensures
        run_inv(run_end(run_start(), before)),
        event_ok(run_end(run_start(), before), e),
        run_end(run_start(), before.push(e)) == apply(run_end(run_start(), before), e),
        run_ok(run_end(run_start(), before.push(e)), after),
{
    let w = seq![e];
    lemma_run_concat(run_start(), before.push(e), after);
    lemma_run_concat(run_start(), before, w);
    assert(before + w =~= before.push(e));
    let r0 = run_end(run_start(), before);
    assert(w.drop_first() =~= Seq::<SchedEvent<F>>::empty());
    assert(w[0] == e);
    assert(run_end(apply(r0, w[0]), w.drop_first()) == apply(r0, w[0]));
    assert(run_ok(apply(r0, w[0]), w.drop_first()));
    assert(run_inv(run_start::<F>()));
    lemma_run_inv(run_start(), before);
}

/// One main poll is owed: the main future is woken.
pub open spec fn main_owed<F>(r: RunState<F>) -> nat {
    if r.sched.wakes.main_woken {
        1
    } else {
        0
    }
}

proof fn lemma_main_polls<F>(r: RunState<F>, evs: Seq<SchedEvent<F>>)
    requires
        run_ok(r, evs),
    ensures
        main_polls(r, evs) + main_owed(run_end(r, evs)) <= main_owed(r) + main_wakes(evs),
    decreases evs.len(),
{
    if evs.len() > 0 {
        lemma_main_polls(apply(r, evs[0]), evs.drop_first());
    }
}

/// Over a whole run, the main future is polled at most once more than its
/// waker was woken: once at the start, and then only after a wake of its
/// own waker since it was last handed out. Spawned tasks and their wakes
/// never cause a poll of it.
pub proof fn law_main_polls_bounded_by_wakes<F>(evs: Seq<SchedEvent<F>>)
    requires
        run_ok(run_start(), evs),
    ensures
        main_polls(run_start(), evs) <= 1 + main_wakes(evs),
{
    lemma_main_polls(run_start(), evs);
}

proof fn lemma_main_wake_kept<F>(r: RunState<F>, evs: Seq<SchedEvent<F>>)
    requires
        r.sched.wakes.main_woken,
    ensures
        sleeps_before_main(r, evs) == 0,
        main_polls(r, evs) == 0 ==> run_end(r, evs).sched.wakes.main_woken,
        (forall|i: int| 0 <= i < evs.len() ==> !(#[trigger] evs[i] is WakeTask || evs[i] is Spawn))
            ==> steps_until_main(r, evs) <= r.sched.wakes.queue.len() + 1,
    decreases evs.len(),
{
    if evs.len() > 0 {
        let e = evs[0];
        let s = r.sched;
        if !(e is Step && kind_of(s) == StepKind::PollMain) {
            lemma_main_wake_kept(apply(r, e), evs.drop_first());
            if e is Step {
                lemma_step_queue(s, 0);
            }
            if forall|i: int| 0 <= i < evs.len() ==> !(#[trigger] evs[i] is WakeTask || evs[i] is Spawn) {
                assert forall|i: int| 0 <= i < evs.drop_first().len() implies !(
                #[trigger] evs.drop_first()[i] is WakeTask || evs.drop_first()[i] is Spawn) by {
                    assert(evs.drop_first()[i] == evs[i + 1]);
                }
                assert(!(evs[0] is WakeTask || evs[0] is Spawn));
            }
        }
    }
}

/// A recorded wake of the main future is not lost, whenever it lands, even
/// while the main future is being polled: from the wake on, the executor
/// does not sleep until it hands the main future out again, the wake stays
/// recorded until then, and without new task wakes or spawns that happens
/// within one step more than the run queue then holds.
pub proof fn law_main_wake_not_lost<F>(before: Seq<SchedEvent<F>>, after: Seq<SchedEvent<F>>)
    requires
        run_ok(run_start(), before.push(SchedEvent::WakeMain) + after),
    ensures
        ({
            let r = run_end(run_start(), before.push(SchedEvent::WakeMain));
            &&& sleeps_before_main(r, after) == 0
            &&& main_polls(r, after) == 0 ==> run_end(r, after).sched.wakes.main_woken
            &&& (forall|i: int|
                0 <= i < after.len() ==> !(#[trigger] after[i] is WakeTask || after[i] is Spawn))
                ==> steps_until_main(r, after) <= r.sched.wakes.queue.len() + 1
        }),
{
    lemma_split(before, SchedEvent::WakeMain, after);
    lemma_main_wake_kept(run_end(run_start(), before.push(SchedEvent::WakeMain)), after);
}

/// The polls owed to the task `t`: its queued wake-ups, and one more while
/// its id has not been handed out by a spawn.
pub open spec fn task_owed<F>(r: RunState<F>, t: usize) -> nat {
    occurrences(r.sched.wakes.queue, t) + (if t >= r.sched.table.next_id {
        1nat
    } else {
        0nat
    })
}

proof fn lemma_step_queue<F>(s: SchedState<F>, t: usize)
    ensures
        occurrences(after_step(s).wakes.queue, t) + (if kind_of(s) == StepKind::PollTask(t) {
            1nat
        } else {
            0nat
        }) <= occurrences(s.wakes.queue, t),
        after_step(s).wakes.queue.len() + (if kind_of(s) is PollTask {
            1nat
        } else {
            0nat
        }) <= s.wakes.queue.len(),
        after_step(s).table.next_id == s.table.next_id,
{
    let q = s.wakes.queue;
    let k = first_live(q, s.table.tasks);
    lemma_first_live(q, s.table.tasks);
    if !s.table.draining && s.wakes.main_woken {
    } else if k < q.len() {
        lemma_occurrences_suffix(q, t, k + 1int);
        if q[k as int] == t {
            assert(0 <= k < k + 1int && q[k as int] == t);
        }
    } else {
        assert(occurrences(Seq::<usize>::empty(), t) == 0);
    }
}

proof fn lemma_task_polls<F>(r: RunState<F>, evs: Seq<SchedEvent<F>>, t: usize)
    requires
        run_ok(r, evs),
    ensures
        task_polls(r, evs, t) + task_owed(run_end(r, evs), t) <= task_owed(r, t) + task_wakes(evs, t),
    decreases evs.len(),
{
    if evs.len() > 0 {
        let e = evs[0];
        let s = r.sched;
        lemma_task_polls(apply(r, e), evs.drop_first(), t);
        match e {
            SchedEvent::Step => {
                lemma_step_queue(s, t);
            },
            SchedEvent::WakeTask(id) => {
                lemma_occurrences_push(s.wakes.queue, id, t);
            },
            SchedEvent::Spawn(f) => {
                lemma_occurrences_push(s.wakes.queue, s.table.next_id as usize, t);
            },
            _ => {},
        }
    }
}

/// Over a whole run, each task is polled at most once more than its own
/// waker was woken: once after its spawn, and then only after a wake of its
/// own waker. Task ids are never reused, so the main waker and other tasks'
/// wakers never cause a poll of it.
pub proof fn law_task_polls_bounded_by_wakes<F>(evs: Seq<SchedEvent<F>>, t: usize)
    requires
        run_ok(run_start(), evs),
    ensures
        task_polls(run_start(), evs, t) <= 1 + task_wakes(evs, t),
{
    lemma_task_polls(run_start(), evs, t);
    assert(occurrences(Seq::<usize>::empty(), t) == 0);
}

proof fn lemma_gone_task<F>(r: RunState<F>, evs: Seq<SchedEvent<F>>, t: usize)
    requires
        run_inv(r),
        run_ok(r, evs),
        !r.sched.table.tasks.contains_key(t),
        r.task_out != Some(t),
        t < r.sched.table.next_id,
    ensures
        task_polls(r, evs, t) == 0,
    decreases evs.len(),
{
    if evs.len() > 0 {
        let e = evs[0];
        let s = r.sched;
        lemma_first_live(s.wakes.queue, s.table.tasks);
        let k = first_live(s.wakes.queue, s.table.tasks);
        if e is Step && k < s.wakes.queue.len() {
            assert(s.table.tasks.contains_key(s.wakes.queue[k as int]));
        }
        lemma_run_inv_event(r, e);
        lemma_gone_task(apply(r, e), evs.drop_first(), t);
    }
}

/// A task that finished is never handed out again, whatever wakes of its
/// waker come after: its id stays out of the table, and stale ids of it in
/// the run queue are skipped.
pub proof fn law_finished_task_never_polled_again<F>(
    before: Seq<SchedEvent<F>>,
    after: Seq<SchedEvent<F>>,
    t: usize,
)
    requires
        run_ok(run_start(), before.push(SchedEvent::TaskDone) + after),
        run_end(run_start(), before).task_out == Some(t),
    ensures
        task_polls(run_end(run_start(), before.push(SchedEvent::TaskDone)), after, t) == 0,
{
    lemma_split(before, SchedEvent::TaskDone, after);
    let r0 = run_end(run_start(), before);
    lemma_run_inv_event(r0, SchedEvent::TaskDone);
    lemma_gone_task(run_end(run_start(), before.push(SchedEvent::TaskDone)), after, t);
}

proof fn lemma_round_polls<F>(r: RunState<F>, evs: Seq<SchedEvent<F>>)
    requires
        forall|i: int|
            0 <= i < evs.len() ==> !(#[trigger] evs[i] is WakeMain || evs[i] is WakeTask
                || evs[i] is Spawn),
    ensures
        all_task_polls(r, evs) + run_end(r, evs).sched.wakes.queue.len() <= r.sched.wakes.queue.len(),
    decreases evs.len(),
{
    if evs.len() > 0 {
        assert forall|i: int| 0 <= i < evs.drop_first().len() implies !(
        #[trigger] evs.drop_first()[i] is WakeMain || evs.drop_first()[i] is WakeTask
            || evs.drop_first()[i] is Spawn) by {
            assert(evs.drop_first()[i] == evs[i + 1]);
        }
        lemma_round_polls(apply(r, evs[0]), evs.drop_first());
        if evs[0] is Step {
            lemma_step_queue(r.sched, 0);
        }
    }
}

/// Without new wake-ups or spawns, the executor hands out at most as many
/// tasks as its run queue holds: a round ends after at most that many task
/// polls.
pub proof fn law_round_polls_at_most_queued<F>(r: RunState<F>, evs: Seq<SchedEvent<F>>)
    requires
        forall|i: int|
            0 <= i < evs.len() ==> !(#[trigger] evs[i] is WakeMain || evs[i] is WakeTask
                || evs[i] is Spawn),
    ensures
        all_task_polls(r, evs) <= r.sched.wakes.queue.len(),
{
    lemma_round_polls(r, evs);
}

proof fn lemma_woken_task<F>(r: RunState<F>, evs: Seq<SchedEvent<F>>, t: usize)
    requires
        run_inv(r),
        run_ok(r, evs),
        r.sched.wakes.queue.contains(t),
        r.sched.table.tasks.contains_key(t) || r.task_out == Some(t),
    ensures
        main_polls_before_task(r, evs, t) <= (if r.sched.table.draining {
            0nat
        } else {
            1nat
        }),
    decreases evs.len(),
{
    if evs.len() > 0 {
        let e = evs[0];
        let s = r.sched;
        let r1 = apply(r, e);
        if (e is Step && kind_of(s) == StepKind::PollTask(t)) || (e is TaskDone && r.task_out == Some(
            t,
        )) {
        } else {
            let q = s.wakes.queue;
            let i = choose|i: int| 0 <= i < q.len() && q[i] == t;
            lemma_first_live(q, s.table.tasks);
            let k = first_live(q, s.table.tasks);
            if e is Step {
                if !s.table.draining && s.wakes.main_woken {
                } else {
                    assert(k <= i);
                    assert(k < q.len());
                    assert(q[k as int] != t);
                    assert(r1.sched.wakes.queue[i - k - 1] == t);
                }
            } else if let SchedEvent::WakeTask(id) = e {
                assert(r1.sched.wakes.queue[i] == t);
            } else if let SchedEvent::Spawn(f) = e {
                assert(r1.sched.wakes.queue[i] == t);
            }
            lemma_run_inv_event(r, e);
            lemma_woken_task(r1, evs.drop_first(), t);
        }
    }
}

/// A task that is woken while it waits in the table, or while it is being
/// polled and then answers pending, is kept and polled again before the main
/// future has been polled twice after that wake (so it is polled unless the
/// run ends first, or, when it was being polled, it finishes instead).
pub proof fn law_woken_task_polled_before_second_main_poll<F>(
    before: Seq<SchedEvent<F>>,
    after: Seq<SchedEvent<F>>,
    t: usize,
)
    requires
        run_ok(run_start(), before.push(SchedEvent::WakeTask(t)) + after),
        run_end(run_start(), before).sched.table.tasks.contains_key(t) || run_end(
            run_start(),
            before,
        ).task_out == Some(t),
    ensures
        main_polls_before_task(run_end(run_start(), before.push(SchedEvent::WakeTask(t))), after, t)
            <= 1,
{
    lemma_split(before, SchedEvent::WakeTask(t), after);
    let r0 = run_end(run_start(), before);
    lemma_run_inv_event(r0, SchedEvent::WakeTask(t));
    let r1 = run_end(run_start(), before.push(SchedEvent::WakeTask(t)));
    assert(r1.sched.wakes.queue[r0.sched.wakes.queue.len() as int] == t);
    lemma_woken_task(r1, after, t);
}

proof fn lemma_no_step_keeps_draining<F>(r: RunState<F>, evs: Seq<SchedEvent<F>>)
    requires
        forall|i: int| 0 <= i < evs.len() ==> !(#[trigger] evs[i] is Step),
    ensures
        run_end(r, evs).sched.table.draining == r.sched.table.draining,
    decreases evs.len(),
{
    if evs.len() > 0 {
        assert forall|i: int| 0 <= i < evs.drop_first().len() implies !(
        #[trigger] evs.drop_first()[i] is Step) by {
            assert(evs.drop_first()[i] == evs[i + 1]);
        }
        assert(!(evs[0] is Step));
        lemma_no_step_keeps_draining(apply(r, evs[0]), evs.drop_first());
    }
}

/// Tasks run between two polls of the main future: after a step hands out
/// the main future, whatever wakes, spawns and reports come before the next
/// step, that step hands out a live queued task if there is one, and not the
/// main future again.
pub proof fn law_tasks_run_between_main_polls<F>(r: RunState<F>, between: Seq<SchedEvent<F>>)
    requires
        kind_of(r.sched) == StepKind::PollMain,
        forall|i: int| 0 <= i < between.len() ==> !(#[trigger] between[i] is Step),
    ensures
        ({
            let r2 = run_end(apply(r, SchedEvent::Step), between);
            (exists|j: int|
                0 <= j < r2.sched.wakes.queue.len() && r2.sched.table.tasks.contains_key(
                    #[trigger] r2.sched.wakes.queue[j],
                )) ==> kind_of(r2.sched) is PollTask
        }),
{
    let r1 = apply(r, SchedEvent::Step);
    lemma_no_step_keeps_draining(r1, between);
    let r2 = run_end(r1, between);
    if exists|j: int|
        0 <= j < r2.sched.wakes.queue.len() && r2.sched.table.tasks.contains_key(
            #[trigger] r2.sched.wakes.queue[j],
        ) {
        law_main_poll_then_queued_task(r.sched, r2.sched);
    }
}

} // verus!

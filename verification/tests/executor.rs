use async_study::executor::AsyncTaskWakerInner;
use async_study::executor::Executor;
use async_study::executor::MainWakerInner;
use async_study::executor::RunQueue;
use async_study::executor::Step;

fn kind<F>(step: &Step<F>) -> String {
    match step {
        Step::PollMain => "main".to_string(),
        Step::PollTask(id, _) => format!("task {}", id),
        Step::Sleep => "sleep".to_string(),
    }
}

#[test]
fn first_round_polls_main_then_sleeps() {
    let mut exec: Executor<&str> = Executor::new();
    let mut rq = RunQueue::new();
    assert!(rq.is_main_woken());
    let step = exec.next_step(&mut rq);
    assert_eq!(kind(&step), "main");
    let step = exec.next_step(&mut rq);
    assert_eq!(kind(&step), "sleep");
    // a spurious wake-up with nothing due sleeps again
    let step = exec.next_step(&mut rq);
    assert_eq!(kind(&step), "sleep");
}

#[test]
fn spawn_hands_out_fresh_ids_and_queues_them() {
    let mut exec: Executor<&str> = Executor::new();
    let mut rq = RunQueue::new();
    assert_eq!(exec.spawn(&mut rq, "a"), 0);
    assert_eq!(exec.spawn(&mut rq, "b"), 1);
    assert_eq!(exec.next_task_id(), 2);
    assert_eq!(exec.task_count(), 2);
    assert_eq!(rq.len(), 2);
}

#[test]
fn tasks_are_polled_in_wake_order_after_main() {
    let mut exec: Executor<&str> = Executor::new();
    let mut rq = RunQueue::new();
    exec.spawn(&mut rq, "a");
    exec.spawn(&mut rq, "b");
    assert_eq!(kind(&exec.next_step(&mut rq)), "main");
    match exec.next_step(&mut rq) {
        Step::PollTask(0, f) => assert_eq!(f, "a"),
        _ => panic!("expected task 0"),
    }
    assert_eq!(exec.task_count(), 1);
    match exec.next_step(&mut rq) {
        Step::PollTask(1, f) => assert_eq!(f, "b"),
        _ => panic!("expected task 1"),
    }
    assert_eq!(exec.task_count(), 0);
    assert_eq!(kind(&exec.next_step(&mut rq)), "sleep");
}

#[test]
fn finished_tasks_are_skipped() {
    let mut exec: Executor<&str> = Executor::new();
    let mut rq = RunQueue::new();
    assert_eq!(kind(&exec.next_step(&mut rq)), "main");
    rq.wake_task(7);
    rq.wake_task(9);
    assert_eq!(kind(&exec.next_step(&mut rq)), "sleep");
    assert_eq!(rq.len(), 0);
}

#[test]
fn pending_task_is_put_back_and_polled_again_when_woken() {
    let mut exec: Executor<&str> = Executor::new();
    let mut rq = RunQueue::new();
    assert_eq!(kind(&exec.next_step(&mut rq)), "main");
    let id = exec.spawn(&mut rq, "t");
    let task = match exec.next_step(&mut rq) {
        Step::PollTask(i, f) => {
            assert_eq!(i, id);
            f
        }
        _ => panic!("expected the task"),
    };
    exec.task_pending(id, task);
    assert_eq!(exec.task_count(), 1);
    assert_eq!(kind(&exec.next_step(&mut rq)), "sleep");
    let waker = exec.get_async_task_waker(id);
    assert_eq!(waker.task_id(), id);
    waker.wake(&mut rq);
    assert_eq!(kind(&exec.next_step(&mut rq)), "task 0");
}

#[test]
fn main_woken_during_round_is_polled_before_sleeping() {
    let mut exec: Executor<&str> = Executor::new();
    let mut rq = RunQueue::new();
    exec.spawn(&mut rq, "a");
    assert_eq!(kind(&exec.next_step(&mut rq)), "main");
    assert_eq!(kind(&exec.next_step(&mut rq)), "task 0");
    let main_waker: MainWakerInner = exec.get_main_waker();
    main_waker.wake(&mut rq);
    assert!(rq.is_main_woken());
    assert_eq!(kind(&exec.next_step(&mut rq)), "main");
    assert_eq!(kind(&exec.next_step(&mut rq)), "sleep");
}

#[test]
fn duplicate_wake_ups_poll_a_live_task_again() {
    let mut exec: Executor<u32> = Executor::new();
    let mut rq = RunQueue::new();
    assert_eq!(kind(&exec.next_step(&mut rq)), "main");
    let id = exec.spawn(&mut rq, 5);
    rq.wake_task(id);
    let t = match exec.next_step(&mut rq) {
        Step::PollTask(_, t) => t,
        _ => panic!("expected the task"),
    };
    exec.task_pending(id, t + 1);
    match exec.next_step(&mut rq) {
        Step::PollTask(i, t) => {
            assert_eq!(i, id);
            assert_eq!(t, 6);
        }
        _ => panic!("expected the task again"),
    }
    assert_eq!(kind(&exec.next_step(&mut rq)), "sleep");
}

#[test]
fn task_waker_records_its_id() {
    let w = AsyncTaskWakerInner::new(3);
    let mut rq = RunQueue::new();
    w.wake(&mut rq);
    w.wake(&mut rq);
    assert_eq!(rq.len(), 2);
    assert!(rq.is_main_woken());
}

#[test]
fn task_spawned_after_sleep_is_due() {
    let mut exec: Executor<&str> = Executor::new();
    let mut rq = RunQueue::new();
    assert_eq!(kind(&exec.next_step(&mut rq)), "main");
    assert_eq!(kind(&exec.next_step(&mut rq)), "sleep");
    let id = exec.spawn(&mut rq, "late");
    assert_eq!(kind(&exec.next_step(&mut rq)), format!("task {}", id));
}

#[test]
fn wakes_append_copies_in_order() {
    let mut exec: Executor<&str> = Executor::new();
    let mut rq = RunQueue::new();
    assert_eq!(kind(&exec.next_step(&mut rq)), "main");
    let a = exec.spawn(&mut rq, "a");
    let b = exec.spawn(&mut rq, "b");
    let w = exec.get_async_task_waker(a);
    w.wake(&mut rq);
    w.wake(&mut rq);
    w.wake(&mut rq);
    assert_eq!(rq.len(), 5);
    let mut order = Vec::new();
    loop {
        match exec.next_step(&mut rq) {
            Step::PollTask(id, f) => {
                order.push(id);
                exec.task_pending(id, f);
            }
            Step::Sleep => break,
            Step::PollMain => panic!("main was not woken"),
        }
    }
    assert_eq!(order, vec![a, b, a, a, a]);
}

#[test]
fn main_is_polled_once_per_wake() {
    let mut exec: Executor<&str> = Executor::new();
    let mut rq = RunQueue::new();
    let mut main_polls = 0;
    for _ in 0..3 {
        loop {
            match exec.next_step(&mut rq) {
                Step::PollMain => main_polls += 1,
                Step::PollTask(id, f) => exec.task_pending(id, f),
                Step::Sleep => break,
            }
        }
        rq.wake_main();
        rq.wake_main();
    }
    // one poll at the start and one after each round of wakes
    assert_eq!(main_polls, 3);
}

#[test]
fn woken_pending_task_polled_before_second_main_poll() {
    let mut exec: Executor<&str> = Executor::new();
    let mut rq = RunQueue::new();
    let id = exec.spawn(&mut rq, "t");
    assert_eq!(kind(&exec.next_step(&mut rq)), "main");
    match exec.next_step(&mut rq) {
        Step::PollTask(i, f) => exec.task_pending(i, f),
        _ => panic!("expected the task"),
    }
    assert_eq!(kind(&exec.next_step(&mut rq)), "sleep");
    // the main future and the task are woken together
    rq.wake_main();
    exec.get_async_task_waker(id).wake(&mut rq);
    assert_eq!(kind(&exec.next_step(&mut rq)), "main");
    // the main future wakes itself while it is being polled
    rq.wake_main();
    assert_eq!(kind(&exec.next_step(&mut rq)), "task 0");
    assert_eq!(kind(&exec.next_step(&mut rq)), "main");
}

#[test]
fn main_waking_itself_is_polled_again() {
    let mut exec: Executor<&str> = Executor::new();
    let mut rq = RunQueue::new();
    assert_eq!(kind(&exec.next_step(&mut rq)), "main");
    // a yield: the poll wakes its own waker and answers pending
    exec.get_main_waker().wake(&mut rq);
    assert_eq!(kind(&exec.next_step(&mut rq)), "main");
    assert!(!rq.is_main_woken());
    assert_eq!(kind(&exec.next_step(&mut rq)), "sleep");
    assert_eq!(kind(&exec.next_step(&mut rq)), "sleep");
}

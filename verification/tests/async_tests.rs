use symexrs::symex_async::channel::mpsc;
use symexrs::symex_async::channel::oneshot;
use symexrs::symex_async::executor::{yield_now, Executor, JoinPoll, JoinState, Step};
use symexrs::symex_async::time::{Sleep, SleepPoll};

#[test]
fn executor_finishes_when_no_task_is_live() {
    let mut ex: Executor<u32> = Executor::new();
    assert!(matches!(ex.next_step(), Step::Finished));
    let id = ex.spawn();
    assert!(ex.begin_poll(id));
    ex.end_poll(id, true);
    assert!(!ex.has_live_tasks());
    assert!(matches!(ex.next_step(), Step::Finished));
}

#[test]
fn executor_polls_the_only_ready_task() {
    let mut ex: Executor<u32> = Executor::new();
    let id = ex.spawn();
    assert_eq!(id, 0);
    match ex.next_step() {
        Step::Poll(t) => assert_eq!(t, 0),
        _ => panic!("expected a poll"),
    }
    assert_eq!(ex.ready_len(), 0);
}

#[test]
fn executor_offers_a_choice_among_ready_tasks() {
    let mut ex: Executor<u32> = Executor::new();
    let a = ex.spawn();
    let b = ex.spawn();
    let c = ex.spawn();
    match ex.next_step() {
        Step::Choose(ids) => assert_eq!(ids, vec![a, b, c]),
        _ => panic!("expected a choice"),
    }
    // The choice leaves the queue untouched until one is taken.
    assert_eq!(ex.ready_len(), 3);
    ex.take_ready(b);
    assert_eq!(ex.ready_candidates(), vec![a, c]);
}

#[test]
fn executor_wakes_the_earliest_timers_and_moves_time() {
    let mut ex: Executor<u32> = Executor::new();
    let id = ex.spawn();
    assert!(matches!(ex.next_step(), Step::Poll(0)));
    assert!(ex.begin_poll(id));
    ex.register_timer(50, 7);
    ex.register_timer(20, 8);
    ex.register_timer(20, 9);
    ex.end_poll(id, false);
    match ex.next_step() {
        Step::Wake(ws) => assert_eq!(ws, vec![8, 9]),
        _ => panic!("expected timers to fire"),
    }
    assert_eq!(ex.now_ms(), 20);
    match ex.next_step() {
        Step::Wake(ws) => assert_eq!(ws, vec![7]),
        _ => panic!("expected the later timer"),
    }
    assert_eq!(ex.now_ms(), 50);
    assert!(matches!(ex.next_step(), Step::Deadlock));
}

#[test]
fn executor_wake_queues_a_task_once() {
    let mut ex: Executor<u32> = Executor::new();
    let id = ex.spawn();
    assert!(matches!(ex.next_step(), Step::Poll(0)));
    assert!(ex.begin_poll(id));
    ex.end_poll(id, false);
    ex.enqueue_task(id);
    ex.enqueue_task(id);
    assert_eq!(ex.ready_len(), 1);
    // Waking a task that does not exist does nothing.
    ex.enqueue_task(99);
    assert_eq!(ex.ready_len(), 1);
    assert!(!ex.begin_poll(99));
}

#[test]
fn mpsc_delivers_in_order_and_respects_capacity() {
    let mut ch: mpsc::Inner<u32, u32> = mpsc::channel(2);
    let mut v1 = Some(1);
    let mut v2 = Some(2);
    let mut v3 = Some(3);
    assert!(matches!(ch.poll_send(&mut v1, 100).0, mpsc::SendPoll::Ready(Ok(()))));
    assert!(matches!(ch.poll_send(&mut v2, 100).0, mpsc::SendPoll::Ready(Ok(()))));
    // Full: the third sender waits and keeps its value.
    assert!(matches!(ch.poll_send(&mut v3, 103).0, mpsc::SendPoll::Pending));
    assert_eq!(v3, Some(3));
    let (r, wake) = ch.poll_recv(200);
    assert!(matches!(r, mpsc::RecvPoll::Ready(Some(1))));
    assert_eq!(wake, Some(103));
    assert!(matches!(ch.poll_send(&mut v3, 103).0, mpsc::SendPoll::Ready(Ok(()))));
    assert!(matches!(ch.poll_recv(200).0, mpsc::RecvPoll::Ready(Some(2))));
    assert!(matches!(ch.poll_recv(200).0, mpsc::RecvPoll::Ready(Some(3))));
    assert!(matches!(ch.poll_recv(201).0, mpsc::RecvPoll::Pending));
    assert_eq!(ch.close(), Some(201));
    assert!(matches!(ch.poll_recv(202).0, mpsc::RecvPoll::Ready(None)));
    let mut v4 = Some(4);
    assert!(matches!(ch.poll_send(&mut v4, 104).0, mpsc::SendPoll::Ready(Err(mpsc::SendError))));
}

#[test]
fn mpsc_capacity_zero_means_one() {
    let ch: mpsc::Inner<u8, u8> = mpsc::channel(0);
    assert_eq!(ch.cap, 1);
}

#[test]
fn oneshot_delivers_once_or_reports_cancel() {
    let mut ch: oneshot::Inner<&str, u32> = oneshot::channel();
    assert!(matches!(ch.poll_recv(1), oneshot::RecvPoll::Pending));
    let (sent, wake) = ch.send("hello");
    assert!(sent.is_ok());
    assert_eq!(wake, Some(1));
    assert!(matches!(ch.poll_recv(1), oneshot::RecvPoll::Ready(Ok("hello"))));

    let mut dropped: oneshot::Inner<u8, u32> = oneshot::channel();
    assert!(matches!(dropped.poll_recv(5), oneshot::RecvPoll::Pending));
    assert_eq!(dropped.close(), Some(5));
    assert!(matches!(dropped.poll_recv(6), oneshot::RecvPoll::Ready(Err(oneshot::Canceled))));
    assert_eq!(dropped.send(3).0, Err(3));
}

#[test]
fn sleep_registers_once_and_fires_at_deadline() {
    let mut s = Sleep::new(10, 5);
    assert_eq!(s.deadline_ms, 15);
    assert_eq!(s.poll_at(10), SleepPoll::RegisterTimer(15));
    assert_eq!(s.poll_at(12), SleepPoll::Pending);
    assert_eq!(s.poll_at(15), SleepPoll::Ready);
    assert_eq!(Sleep::new(u64::MAX - 1, 10).deadline_ms, u64::MAX);
}

#[test]
fn join_and_yield_states() {
    let mut j: JoinState<u32, u8> = JoinState::new();
    assert!(matches!(j.poll(1), JoinPoll::Pending));
    assert_eq!(j.complete(42), Some(1));
    assert!(matches!(j.poll(2), JoinPoll::Ready(42)));

    let mut y = yield_now();
    assert!(!y.poll_once());
    assert!(y.poll_once());
}

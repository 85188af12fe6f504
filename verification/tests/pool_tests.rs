use worker_pool::channel::{Channel, ChannelClosed, Job, Received};
use worker_pool::pool::ThreadPool;

#[test]
fn channel_delivers_in_submission_order() {
    let mut c = Channel::new();
    assert_eq!(c.send(Job { label: 1, duration: 0 }), Ok(()));
    assert_eq!(c.send(Job { label: 2, duration: 3 }), Ok(()));
    assert_eq!(c.receive(), Received::Job(Job { label: 1, duration: 0 }));
    assert_eq!(c.receive(), Received::Job(Job { label: 2, duration: 3 }));
    assert_eq!(c.receive(), Received::WouldBlock);
}

#[test]
fn closed_channel_refuses_send_and_signals_termination() {
    let mut c = Channel::new();
    assert_eq!(c.send(Job { label: 1, duration: 0 }), Ok(()));
    c.close();
    assert_eq!(c.send(Job { label: 2, duration: 0 }), Err(ChannelClosed));
    assert_eq!(c.receive(), Received::Job(Job { label: 1, duration: 0 }));
    assert_eq!(c.receive(), Received::Closed);
    assert_eq!(c.receive(), Received::Closed);
}

#[test]
fn pool_starts_with_idle_numbered_workers() {
    let p = ThreadPool::new(3);
    assert_eq!(p.workers.len(), 3);
    for (i, w) in p.workers.iter().enumerate() {
        assert_eq!(w.id, i);
        assert_eq!(w.busy_until, 0);
    }
}

#[test]
fn equal_jobs_fill_the_pool_in_parallel() {
    let mut p = ThreadPool::new(4);
    for l in 0..4u64 {
        p.execute(Job { label: l, duration: 9 });
    }
    for _ in 0..4 {
        p.worker_step();
    }
    assert_eq!(p.log.len(), 4);
    for e in p.log.iter() {
        assert_eq!(e.start, 0);
        assert_eq!(e.finish, 9);
    }
}

#[test]
fn dequeue_order_is_submission_order() {
    let mut p = ThreadPool::new(2);
    for l in 1..=6u64 {
        p.execute(Job { label: l, duration: 7 - l });
    }
    assert_eq!(p.run_worker(), Received::WouldBlock);
    let labels: Vec<u64> = p.log.iter().map(|e| e.job.label).collect();
    assert_eq!(labels, vec![1, 2, 3, 4, 5, 6]);
    for k in 1..p.log.len() {
        assert!(p.log[k - 1].start <= p.log[k].start);
    }
}

#[test]
fn every_job_runs_exactly_once_by_shutdown() {
    let mut p = ThreadPool::new(4);
    for l in 0..10u64 {
        p.execute(Job { label: l, duration: 0 });
    }
    let t = p.shutdown();
    assert_eq!(p.log.len(), 10);
    let mut labels: Vec<u64> = p.log.iter().map(|e| e.job.label).collect();
    labels.sort();
    assert_eq!(labels, (0..10).collect::<Vec<u64>>());
    for e in p.log.iter() {
        assert!(e.finish <= t);
    }
    assert!(p.channel.jobs.is_empty());
}

#[test]
fn shutdown_waits_for_a_blocking_job() {
    let mut p = ThreadPool::new(2);
    p.execute(Job { label: 1, duration: 7 });
    let t = p.shutdown();
    assert!(t >= 7);
    assert_eq!(p.log.len(), 1);
    assert_eq!(p.log[0].finish, 7);
}

#[test]
fn slow_job_does_not_delay_fast_one() {
    let mut p = ThreadPool::new(2);
    p.execute(Job { label: 1, duration: 5 });
    p.execute(Job { label: 2, duration: 0 });
    p.worker_step();
    p.worker_step();
    assert_eq!(p.log[0].job.label, 1);
    assert_eq!(p.log[1].job.label, 2);
    assert_eq!(p.log[1].finish, 0);
    assert_eq!(p.log[0].finish, 5);
    assert!(p.log[1].finish < p.log[0].finish);
}

#[test]
fn nothing_executes_after_shutdown() {
    let mut p = ThreadPool::new(1);
    p.execute(Job { label: 1, duration: 2 });
    p.shutdown();
    let n = p.log.len();
    assert_eq!(p.worker_step(), Received::Closed);
    assert_eq!(p.log.len(), n);
}

#[test]
fn excess_jobs_wait_for_a_free_worker() {
    let mut p = ThreadPool::new(2);
    for l in 0..4u64 {
        p.execute(Job { label: l, duration: 3 });
    }
    let t = p.shutdown();
    assert_eq!(p.log[0].start, 0);
    assert_eq!(p.log[1].start, 0);
    assert_eq!(p.log[2].start, 3);
    assert_eq!(p.log[3].start, 3);
    assert_eq!(t, 6);
}

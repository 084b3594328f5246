use multithreaded::channel::Received;
use multithreaded::pool::{PoolError, ThreadPool};
use multithreaded::worker::{JobFault, Outcome, Worker, WorkerState};
use std::cell::Cell;
use std::rc::Rc;
use std::time::{Duration, Instant};

type Task = Box<dyn FnOnce()>;

fn counting_task(counter: &Rc<Cell<u32>>) -> Task {
    let counter = Rc::clone(counter);
    Box::new(move || counter.set(counter.get() + 1))
}

/// Lets every worker in turn ask for a job and run what it is handed, until a
/// whole round passes in which no worker was handed anything.
fn run_workers(pool: &mut ThreadPool<Task>) {
    loop {
        let mut progress = false;
        for id in 0..pool.size() {
            if let Some(Received::Job(job)) = pool.receive(id) {
                job();
                assert_eq!(pool.finish(id, Outcome::Completed), None);
                progress = true;
            }
        }
        if !progress {
            return;
        }
    }
}

#[test]
fn pool_of_zero_workers_is_refused() {
    match ThreadPool::<u32>::new(0) {
        Err(error) => assert_eq!(error, PoolError::ConstructionError),
        Ok(_) => panic!("a pool of no workers was made"),
    }
}

#[test]
fn new_pool_has_waiting_workers_and_no_jobs() {
    let pool = ThreadPool::<u32>::new(4).unwrap_or_else(|_| panic!("refused"));
    assert_eq!(pool.size(), 4);
    assert_eq!(pool.pending(), 0);
    assert!(!pool.is_closed());
    assert!(!pool.is_terminated());
    for id in 0..4 {
        assert_eq!(pool.worker_state(id), Some(WorkerState::Running));
    }
    assert_eq!(pool.worker_state(4), None);
}

#[test]
fn pool_of_one_worker_is_made() {
    let pool = ThreadPool::<u32>::new(1).unwrap_or_else(|_| panic!("refused"));
    assert_eq!(pool.size(), 1);
    assert_eq!(pool.worker_state(0), Some(WorkerState::Running));
    assert_eq!(pool.worker_state(1), None);
}

#[test]
fn worker_starts_waiting_under_its_number() {
    let worker = Worker::new(3);
    assert_eq!(worker.id(), 3);
    assert_eq!(worker.state(), WorkerState::Running);
}

#[test]
fn five_jobs_on_two_workers_each_run_once() {
    let counter = Rc::new(Cell::new(0u32));
    let mut pool = ThreadPool::<Task>::new(2).unwrap_or_else(|_| panic!("refused"));
    for _ in 0..5 {
        assert_eq!(pool.execute(counting_task(&counter)), Ok(()));
    }
    assert_eq!(counter.get(), 0);
    pool.shutdown();
    run_workers(&mut pool);
    assert_eq!(counter.get(), 5);
    assert_eq!(pool.pending(), 0);
    assert!(matches!(pool.receive(0), Some(Received::Closed)));
    assert!(matches!(pool.receive(1), Some(Received::Closed)));
    assert!(pool.is_terminated());
    assert_eq!(counter.get(), 5);
}

#[test]
fn submitting_more_jobs_than_workers_runs_none_of_them() {
    let counter = Rc::new(Cell::new(0u32));
    let mut pool = ThreadPool::<Task>::new(2).unwrap_or_else(|_| panic!("refused"));
    for submitted in 1..=7 {
        assert_eq!(pool.execute(counting_task(&counter)), Ok(()));
        assert_eq!(pool.pending(), submitted);
        assert_eq!(counter.get(), 0);
    }
    assert_eq!(pool.worker_state(0), Some(WorkerState::Running));
    assert_eq!(pool.worker_state(1), Some(WorkerState::Running));
    run_workers(&mut pool);
    assert_eq!(counter.get(), 7);
    assert_eq!(pool.pending(), 0);
}

#[test]
fn jobs_are_accepted_while_every_worker_is_busy() {
    let mut pool = ThreadPool::<u32>::new(2).unwrap_or_else(|_| panic!("refused"));
    assert_eq!(pool.execute(1), Ok(()));
    assert_eq!(pool.execute(2), Ok(()));
    assert_eq!(pool.receive(0), Some(Received::Job(1)));
    assert_eq!(pool.receive(1), Some(Received::Job(2)));
    assert_eq!(pool.execute(3), Ok(()));
    assert_eq!(pool.execute(4), Ok(()));
    assert_eq!(pool.pending(), 2);
    assert_eq!(pool.worker_state(0), Some(WorkerState::Executing));
    assert_eq!(pool.worker_state(1), Some(WorkerState::Executing));
    assert_eq!(pool.finish(1, Outcome::Completed), None);
    assert_eq!(pool.receive(1), Some(Received::Job(3)));
    assert_eq!(pool.finish(0, Outcome::Completed), None);
    assert_eq!(pool.receive(0), Some(Received::Job(4)));
}

#[test]
fn jobs_are_handed_out_in_submission_order() {
    let mut pool = ThreadPool::<u32>::new(3).unwrap_or_else(|_| panic!("refused"));
    for job in [11, 22, 33, 44] {
        assert_eq!(pool.execute(job), Ok(()));
    }
    assert_eq!(pool.receive(2), Some(Received::Job(11)));
    assert_eq!(pool.receive(0), Some(Received::Job(22)));
    assert_eq!(pool.receive(1), Some(Received::Job(33)));
    assert_eq!(pool.finish(0, Outcome::Completed), None);
    assert_eq!(pool.receive(0), Some(Received::Job(44)));
    assert_eq!(pool.pending(), 0);
}

#[test]
fn waiting_worker_is_told_to_wait_on_an_empty_open_pool() {
    let mut pool = ThreadPool::<u32>::new(2).unwrap_or_else(|_| panic!("refused"));
    assert_eq!(pool.receive(0), Some(Received::Wait));
    assert_eq!(pool.worker_state(0), Some(WorkerState::Running));
    assert_eq!(pool.execute(9), Ok(()));
    assert_eq!(pool.receive(0), Some(Received::Job(9)));
    assert_eq!(pool.worker_state(0), Some(WorkerState::Executing));
    assert_eq!(pool.receive(1), Some(Received::Wait));
}

#[test]
fn busy_worker_is_handed_no_second_job() {
    let mut pool = ThreadPool::<u32>::new(1).unwrap_or_else(|_| panic!("refused"));
    assert_eq!(pool.execute(1), Ok(()));
    assert_eq!(pool.execute(2), Ok(()));
    assert_eq!(pool.receive(0), Some(Received::Job(1)));
    assert_eq!(pool.receive(0), None);
    assert_eq!(pool.pending(), 1);
    assert_eq!(pool.worker_state(0), Some(WorkerState::Executing));
    assert_eq!(pool.finish(0, Outcome::Completed), None);
    assert_eq!(pool.receive(0), Some(Received::Job(2)));
}

#[test]
fn second_job_waits_until_the_single_worker_is_free() {
    let order = Rc::new(Cell::new(0u32));
    let first_done_at = Rc::new(Cell::new(0u32));
    let second_done_at = Rc::new(Cell::new(0u32));
    let mut pool = ThreadPool::<Task>::new(1).unwrap_or_else(|_| panic!("refused"));
    for done_at in [&first_done_at, &second_done_at] {
        let order = Rc::clone(&order);
        let done_at = Rc::clone(done_at);
        let task: Task = Box::new(move || {
            order.set(order.get() + 1);
            done_at.set(order.get());
        });
        assert_eq!(pool.execute(task), Ok(()));
    }
    assert_eq!(second_done_at.get(), 0);
    let first = match pool.receive(0) {
        Some(Received::Job(job)) => job,
        _ => panic!("the first job was not handed out"),
    };
    assert!(pool.receive(0).is_none());
    assert_eq!(pool.pending(), 1);
    first();
    assert_eq!(second_done_at.get(), 0);
    assert_eq!(pool.finish(0, Outcome::Completed), None);
    run_workers(&mut pool);
    assert_eq!(first_done_at.get(), 1);
    assert_eq!(second_done_at.get(), 2);
}

#[test]
fn number_that_names_no_worker_is_refused() {
    let mut pool = ThreadPool::<u32>::new(2).unwrap_or_else(|_| panic!("refused"));
    assert_eq!(pool.execute(1), Ok(()));
    assert_eq!(pool.receive(2), None);
    assert_eq!(pool.receive(usize::MAX), None);
    assert_eq!(pool.finish(2, Outcome::Faulted), None);
    assert_eq!(pool.pending(), 1);
}

#[test]
fn submit_after_shutdown_fails_with_pool_closed() {
    let mut pool = ThreadPool::<u32>::new(2).unwrap_or_else(|_| panic!("refused"));
    assert_eq!(pool.execute(1), Ok(()));
    pool.shutdown();
    assert!(pool.is_closed());
    assert_eq!(pool.execute(2), Err(PoolError::PoolClosed));
    assert_eq!(pool.execute(3), Err(PoolError::PoolClosed));
    assert_eq!(pool.pending(), 1);
    assert_eq!(pool.receive(0), Some(Received::Job(1)));
    assert_eq!(pool.finish(0, Outcome::Completed), None);
    assert_eq!(pool.execute(4), Err(PoolError::PoolClosed));
    assert_eq!(pool.receive(0), Some(Received::Closed));
    assert_eq!(pool.receive(1), Some(Received::Closed));
    assert_eq!(pool.execute(5), Err(PoolError::PoolClosed));
    assert_eq!(pool.pending(), 0);
}

#[test]
fn second_shutdown_changes_nothing() {
    let mut pool = ThreadPool::<u32>::new(2).unwrap_or_else(|_| panic!("refused"));
    assert_eq!(pool.execute(1), Ok(()));
    assert_eq!(pool.receive(1), Some(Received::Job(1)));
    assert_eq!(pool.execute(2), Ok(()));
    pool.shutdown();
    pool.shutdown();
    assert!(pool.is_closed());
    assert_eq!(pool.pending(), 1);
    assert_eq!(pool.worker_state(0), Some(WorkerState::Running));
    assert_eq!(pool.worker_state(1), Some(WorkerState::Executing));
    assert_eq!(pool.receive(0), Some(Received::Job(2)));
}

#[test]
fn jobs_accepted_before_shutdown_complete_before_the_workers_leave() {
    let flags: Vec<Rc<Cell<bool>>> = (0..6).map(|_| Rc::new(Cell::new(false))).collect();
    let mut pool = ThreadPool::<Task>::new(3).unwrap_or_else(|_| panic!("refused"));
    for flag in &flags {
        let flag = Rc::clone(flag);
        assert_eq!(pool.execute(Box::new(move || flag.set(true))), Ok(()));
    }
    pool.shutdown();
    assert!(!pool.is_terminated());
    while !pool.is_terminated() {
        for id in 0..pool.size() {
            match pool.receive(id) {
                Some(Received::Job(job)) => {
                    job();
                    assert_eq!(pool.finish(id, Outcome::Completed), None);
                },
                Some(Received::Closed) => {
                    assert_eq!(pool.pending(), 0);
                    assert_eq!(pool.worker_state(id), Some(WorkerState::Terminated));
                },
                Some(Received::Wait) => panic!("a closed pool told a worker to wait"),
                None => panic!("a waiting worker was refused"),
            }
        }
    }
    assert!(flags.iter().all(|flag| flag.get()));
    assert_eq!(pool.pending(), 0);
}

#[test]
fn worker_leaves_only_when_closed_and_empty() {
    let mut pool = ThreadPool::<u32>::new(2).unwrap_or_else(|_| panic!("refused"));
    assert_eq!(pool.execute(1), Ok(()));
    pool.shutdown();
    assert_eq!(pool.receive(0), Some(Received::Job(1)));
    assert_eq!(pool.receive(1), Some(Received::Closed));
    assert_eq!(pool.worker_state(1), Some(WorkerState::Terminated));
    assert!(!pool.is_terminated());
    assert_eq!(pool.finish(0, Outcome::Completed), None);
    assert_eq!(pool.worker_state(0), Some(WorkerState::Running));
    assert_eq!(pool.receive(0), Some(Received::Closed));
    assert!(pool.is_terminated());
}

#[test]
fn terminated_worker_stays_terminated() {
    let mut pool = ThreadPool::<u32>::new(1).unwrap_or_else(|_| panic!("refused"));
    pool.shutdown();
    assert_eq!(pool.receive(0), Some(Received::Closed));
    assert_eq!(pool.receive(0), Some(Received::Closed));
    assert_eq!(pool.finish(0, Outcome::Completed), None);
    assert_eq!(pool.worker_state(0), Some(WorkerState::Terminated));
    assert!(pool.is_terminated());
}

#[test]
fn fault_is_reported_and_the_worker_takes_the_next_job() {
    let mut pool = ThreadPool::<u32>::new(2).unwrap_or_else(|_| panic!("refused"));
    assert_eq!(pool.execute(1), Ok(()));
    assert_eq!(pool.receive(1), Some(Received::Job(1)));
    assert_eq!(pool.finish(1, Outcome::Faulted), Some(JobFault { worker: 1 }));
    assert_eq!(pool.worker_state(1), Some(WorkerState::Running));
    assert_eq!(pool.worker_state(0), Some(WorkerState::Running));
    assert!(!pool.is_closed());
    assert_eq!(pool.size(), 2);
    assert_eq!(pool.execute(2), Ok(()));
    assert_eq!(pool.execute(3), Ok(()));
    assert_eq!(pool.receive(1), Some(Received::Job(2)));
    assert_eq!(pool.receive(0), Some(Received::Job(3)));
    assert_eq!(pool.finish(1, Outcome::Completed), None);
    assert_eq!(pool.finish(0, Outcome::Faulted), Some(JobFault { worker: 0 }));
}

#[test]
fn every_job_may_fault_and_the_pool_still_serves() {
    let mut pool = ThreadPool::<u32>::new(2).unwrap_or_else(|_| panic!("refused"));
    for job in 0..10 {
        assert_eq!(pool.execute(job), Ok(()));
    }
    let mut handed = Vec::new();
    for round in 0..5 {
        for id in 0..2 {
            match pool.receive(id) {
                Some(Received::Job(job)) => handed.push(job),
                other => panic!("round {}: worker {} got {:?}", round, id, other),
            }
        }
        for id in 0..2 {
            assert_eq!(pool.finish(id, Outcome::Faulted), Some(JobFault { worker: id }));
        }
    }
    assert_eq!(handed, vec![0, 1, 2, 3, 4, 5, 6, 7, 8, 9]);
    assert_eq!(pool.worker_state(0), Some(WorkerState::Running));
    assert_eq!(pool.worker_state(1), Some(WorkerState::Running));
}

#[test]
fn finish_without_a_job_reports_nothing_and_changes_nothing() {
    let mut pool = ThreadPool::<u32>::new(1).unwrap_or_else(|_| panic!("refused"));
    assert_eq!(pool.finish(0, Outcome::Faulted), None);
    assert_eq!(pool.finish(0, Outcome::Completed), None);
    assert_eq!(pool.worker_state(0), Some(WorkerState::Running));
    assert_eq!(pool.execute(5), Ok(()));
    assert_eq!(pool.receive(0), Some(Received::Job(5)));
    assert_eq!(pool.finish(0, Outcome::Completed), None);
    assert_eq!(pool.finish(0, Outcome::Faulted), None);
}

#[test]
fn second_job_completes_no_sooner_than_the_first_takes() {
    let second_done: Rc<Cell<Option<Instant>>> = Rc::new(Cell::new(None));
    let mut pool = ThreadPool::<Task>::new(1).unwrap_or_else(|_| panic!("refused"));
    let submitted = Instant::now();
    let slow: Task = Box::new(|| {
        let started = Instant::now();
        while started.elapsed() < Duration::from_millis(100) {
            std::hint::spin_loop();
        }
    });
    assert_eq!(pool.execute(slow), Ok(()));
    let record = Rc::clone(&second_done);
    assert_eq!(pool.execute(Box::new(move || record.set(Some(Instant::now())))), Ok(()));
    assert!(second_done.get().is_none());
    pool.shutdown();
    run_workers(&mut pool);
    let done = second_done.get().unwrap_or_else(|| panic!("the second job did not run"));
    assert!(done.duration_since(submitted) >= Duration::from_millis(100));
}

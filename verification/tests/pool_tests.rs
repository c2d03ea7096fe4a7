use toolbox::pool::Pool;

fn counter_run(size: usize) {
    let mut pool = Pool::new(size);
    assert_eq!(pool.worker_count(), size);
    assert_eq!(pool.running_workers(), size);
    assert_eq!(pool.queue_len(), 0);

    // Ten independent jobs; the execution record plays the part of the
    // shared counter each job would bump.
    for id in 0..10u64 {
        pool.submit(id);
    }
    pool.teardown();
    assert_eq!(pool.executed_count(), 10);
    assert_eq!(pool.running_workers(), 0);
    assert_eq!(pool.queue_len(), 0);
}

#[test]
fn single_thread() {
    counter_run(1);
}

#[test]
fn multiple_threads() {
    counter_run(8);
}

#[test]
fn jobs_run_once_each_in_order() {
    let mut pool = Pool::new(3);
    pool.submit(42);
    pool.submit(7);
    pool.submit(42);
    pool.teardown();
    assert_eq!(pool.executed_count(), 3);
    assert_eq!(pool.executed_job(0), 42);
    assert_eq!(pool.executed_job(1), 7);
    assert_eq!(pool.executed_job(2), 42);
}

#[test]
fn teardown_with_no_work_still_retires_every_worker() {
    let mut pool = Pool::new(4);
    pool.teardown();
    assert_eq!(pool.executed_count(), 0);
    assert_eq!(pool.running_workers(), 0);
    assert_eq!(pool.worker_count(), 4);
}

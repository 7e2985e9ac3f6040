use homepage_core::pool::{JobQueue, WorkerDecision};

#[test]
fn jobs_come_out_in_submission_order() {
    let mut q: JobQueue<u32> = JobQueue::new();
    q.submit(1);
    q.submit(2);
    q.submit(3);
    assert_eq!(q.take(), Some(1));
    assert_eq!(q.take(), Some(2));
    assert_eq!(q.take(), Some(3));
    assert_eq!(q.take(), None);
}

#[test]
fn workers_run_wait_or_exit() {
    let mut q: JobQueue<u32> = JobQueue::new();
    assert_eq!(q.decision(), WorkerDecision::Wait);
    q.submit(1);
    assert_eq!(q.decision(), WorkerDecision::Run);
    assert_eq!(q.take(), Some(1));
    q.close();
    assert_eq!(q.decision(), WorkerDecision::Exit);
}

#[test]
fn shutdown_drains_every_submitted_job() {
    // All submitted jobs run to completion before shutdown returns,
    // whatever their number.
    for k in 0..40u32 {
        let mut q: JobQueue<u32> = JobQueue::new();
        for i in 0..k {
            q.submit(i);
        }
        let drained = q.shutdown();
        assert_eq!(drained, (0..k).collect::<Vec<u32>>());
        assert_eq!(q.take(), None);
        assert_eq!(q.decision(), WorkerDecision::Exit);
    }
}

use web_server::error::PoolError;
use web_server::queue::{JobQueue, Received};

#[test]
fn new_queue_is_open_and_empty() {
    let queue: JobQueue<u32> = JobQueue::new();
    assert!(!queue.is_closed());
    assert!(queue.is_empty());
    assert_eq!(queue.len(), 0);
}

#[test]
fn receive_on_an_open_empty_queue_says_empty() {
    let mut queue: JobQueue<u32> = JobQueue::new();
    assert_eq!(queue.receive(), Received::Empty);
    assert_eq!(queue.receive(), Received::Empty);
    assert!(!queue.is_closed());
}

#[test]
fn jobs_come_out_in_the_order_they_went_in() {
    let mut queue = JobQueue::new();
    for id in 0..100u32 {
        assert_eq!(queue.send(id), Ok(()));
    }
    assert_eq!(queue.len(), 100);
    for id in 0..100u32 {
        assert_eq!(queue.receive(), Received::Job(id));
    }
    assert_eq!(queue.receive(), Received::Empty);
}

#[test]
fn sends_and_receives_may_alternate() {
    let mut queue = JobQueue::new();
    assert_eq!(queue.send("a"), Ok(()));
    assert_eq!(queue.send("b"), Ok(()));
    assert_eq!(queue.receive(), Received::Job("a"));
    assert_eq!(queue.send("c"), Ok(()));
    assert_eq!(queue.len(), 2);
    assert_eq!(queue.receive(), Received::Job("b"));
    assert_eq!(queue.receive(), Received::Job("c"));
    assert!(queue.is_empty());
}

#[test]
fn each_job_is_delivered_once() {
    let mut queue = JobQueue::new();
    assert_eq!(queue.send(7u8), Ok(()));
    assert_eq!(queue.receive(), Received::Job(7));
    assert_eq!(queue.receive(), Received::Empty);
    assert_eq!(queue.len(), 0);
}

#[test]
fn equal_jobs_are_each_delivered() {
    let mut queue = JobQueue::new();
    assert_eq!(queue.send(1u8), Ok(()));
    assert_eq!(queue.send(1u8), Ok(()));
    assert_eq!(queue.receive(), Received::Job(1));
    assert_eq!(queue.receive(), Received::Job(1));
    assert_eq!(queue.receive(), Received::Empty);
}

#[test]
fn send_after_close_is_refused() {
    let mut queue = JobQueue::new();
    queue.close();
    assert!(queue.is_closed());
    assert_eq!(queue.send(1u32), Err(PoolError::ChannelClosed));
    assert_eq!(queue.len(), 0);
    assert_eq!(queue.receive(), Received::Closed);
}

#[test]
fn close_keeps_pending_jobs() {
    let mut queue = JobQueue::new();
    assert_eq!(queue.send(1u32), Ok(()));
    assert_eq!(queue.send(2u32), Ok(()));
    queue.close();
    assert_eq!(queue.len(), 2);
    assert_eq!(queue.send(3u32), Err(PoolError::ChannelClosed));
    assert_eq!(queue.len(), 2);
    assert_eq!(queue.receive(), Received::Job(1));
    assert_eq!(queue.receive(), Received::Job(2));
    assert_eq!(queue.receive(), Received::Closed);
    assert_eq!(queue.receive(), Received::Closed);
}

#[test]
fn close_twice_is_close_once() {
    let mut queue = JobQueue::new();
    assert_eq!(queue.send(5u32), Ok(()));
    queue.close();
    queue.close();
    assert!(queue.is_closed());
    assert_eq!(queue.len(), 1);
    assert_eq!(queue.receive(), Received::Job(5));
    assert_eq!(queue.receive(), Received::Closed);
}

#[test]
fn a_queue_can_hold_closures() {
    let mut queue: JobQueue<Box<dyn FnOnce() -> u32>> = JobQueue::new();
    assert!(queue.send(Box::new(|| 40 + 2)).is_ok());
    match queue.receive() {
        Received::Job(job) => assert_eq!(job(), 42),
        _ => panic!("the queue held a job"),
    }
}

#[test]
fn pool_error_messages() {
    assert_eq!(PoolError::InvalidPoolSize.message(), "pool size must be at least 1");
    assert_eq!(PoolError::ChannelClosed.message(), "the job queue is closed");
    assert_ne!(PoolError::InvalidPoolSize, PoolError::ChannelClosed);
}

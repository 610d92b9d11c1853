use worker_pool::queue::JobQueue;

#[test]
fn empty_queue_hands_out_nothing() {
    let mut queue: JobQueue<u32> = JobQueue::new();
    assert!(queue.is_empty());
    assert_eq!(queue.len(), 0);
    assert_eq!(queue.take(), None);
    assert!(queue.is_empty());
}

#[test]
fn queue_is_first_in_first_out() {
    let mut queue: JobQueue<u32> = JobQueue::new();
    queue.submit(3);
    queue.submit(1);
    queue.submit(2);
    assert_eq!(queue.len(), 3);
    assert!(!queue.is_empty());
    assert_eq!(queue.take(), Some(3));
    queue.submit(9);
    assert_eq!(queue.take(), Some(1));
    assert_eq!(queue.take(), Some(2));
    assert_eq!(queue.take(), Some(9));
    assert_eq!(queue.take(), None);
}

#[test]
fn queue_takes_many_jobs() {
    let mut queue: JobQueue<usize> = JobQueue::new();
    for job in 0..10_000usize {
        queue.submit(job);
    }
    assert_eq!(queue.len(), 10_000);
    for job in 0..10_000usize {
        assert_eq!(queue.take(), Some(job));
    }
    assert!(queue.is_empty());
}

#[test]
fn queue_owns_what_it_is_given() {
    let mut queue: JobQueue<Box<dyn FnOnce() -> u32>> = JobQueue::new();
    let text = String::from("captured");
    queue.submit(Box::new(move || text.len() as u32));
    queue.submit(Box::new(|| 1));
    let first = queue.take().expect("a job waits");
    assert_eq!(first(), 8);
    let second = queue.take().expect("a job waits");
    assert_eq!(second(), 1);
    assert!(queue.take().is_none());
}

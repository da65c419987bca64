use tiny_server::pool::{check_pool_size, DispatchQueue, Fetch, PoolError};

fn take_job(q: &mut DispatchQueue<u32>) -> Option<u32> {
    match q.take() {
        Fetch::Job(j) => Some(j),
        _ => None,
    }
}

#[test]
fn pool_of_size_zero_is_refused() {
    assert_eq!(check_pool_size(0), Err(PoolError::InvalidConfiguration));
}

#[test]
fn pool_of_positive_size_is_accepted() {
    assert_eq!(check_pool_size(1), Ok(1));
    assert_eq!(check_pool_size(4), Ok(4));
}

#[test]
fn jobs_come_out_in_send_order() {
    let mut q: DispatchQueue<u32> = DispatchQueue::new();
    for i in 0..40u32 {
        assert_eq!(q.send(i), Ok(()));
    }
    assert_eq!(q.waiting(), 40);
    for i in 0..40u32 {
        assert_eq!(take_job(&mut q), Some(i));
    }
    assert_eq!(q.waiting(), 0);
}

#[test]
fn every_job_is_taken_exactly_once() {
    let mut q: DispatchQueue<u32> = DispatchQueue::new();
    let mut seen = vec![0u32; 25];
    for i in 0..25u32 {
        q.send(i).unwrap();
        if i % 3 == 0 {
            let j = take_job(&mut q).unwrap();
            seen[j as usize] += 1;
        }
    }
    while let Some(j) = take_job(&mut q) {
        seen[j as usize] += 1;
    }
    assert!(seen.iter().all(|&c| c == 1));
}

#[test]
fn empty_open_queue_says_wait() {
    let mut q: DispatchQueue<u32> = DispatchQueue::new();
    assert!(q.accepts());
    assert!(matches!(q.take(), Fetch::Wait));
}

#[test]
fn closed_queue_refuses_jobs_and_drains() {
    let mut q: DispatchQueue<u32> = DispatchQueue::new();
    q.send(1).unwrap();
    q.send(2).unwrap();
    q.close();
    assert!(!q.accepts());
    assert_eq!(q.send(3), Err(PoolError::DispatchClosed));
    assert_eq!(take_job(&mut q), Some(1));
    assert_eq!(take_job(&mut q), Some(2));
    assert!(matches!(q.take(), Fetch::Stop));
}

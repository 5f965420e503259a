use parch_kernel::error::ErrorNum;
use parch_kernel::config::MAX_CPUS;
use parch_kernel::scheduler::{PIDAllocator, ProcessManagerInner};

#[test]
fn run_queue_takes_the_last_queued() {
    let mut m = ProcessManagerInner::new();
    assert_eq!(m.running_list.len(), MAX_CPUS);
    assert_eq!(m.dequeue(0), None);
    m.enqueue(0, 5);
    m.enqueue(1, 6);
    assert_eq!(m.dequeue(2), Some(6));
    assert_eq!(m.running_list[2], Some(6));
    assert_eq!(m.get_process(6), Ok(6));
    assert_eq!(m.get_process(5), Ok(5));
    assert_eq!(m.get_process(7), Err(ErrorNum::ESRCH));
    m.free_current(2);
    assert_eq!(m.get_process(6), Err(ErrorNum::ESRCH));
    // giving the process back clears the hart's slot
    m.enqueue(2, 6);
    assert_eq!(m.running_list[2], None);
    assert_eq!(m.process_list.len(), 2);
}

#[test]
fn pids_start_at_one_and_grow() {
    let mut a = PIDAllocator::new();
    assert_eq!(a.next(), 1);
    assert_eq!(a.next(), 2);
    assert_eq!(a.next_pid, 3);
}

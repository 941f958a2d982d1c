use bochservisor::timebase::{elapsed_since, future_deadline, vm_run_cycles};

#[test]
fn deadlines_and_elapsed_time() {
    assert_eq!(future_deadline(1000, 5, 3000), 16_000);
    assert_eq!(future_deadline(u64::MAX - 1, 1, 2), u64::MAX);
    assert_eq!(elapsed_since(500, 200), 300);
    assert_eq!(elapsed_since(200, 500), 0);
    assert_eq!(vm_run_cycles(1000, 300), 700);
    assert_eq!(vm_run_cycles(100, 300), 0);
}

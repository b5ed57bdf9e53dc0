use viperstem::execution::{FuncEntry, FuncStack};

fn job_a() {}
fn job_b() {}

#[test]
fn idle_queue_has_nothing_to_run() {
    let mut q: FuncStack<u32> = FuncStack::new();
    assert!(!q.is_exec());
    assert_eq!(q.pop(), None);
}

#[test]
fn push_on_idle_then_pop_returns_the_job() {
    let mut q: FuncStack<u32> = FuncStack::new();
    q.push(7);
    assert!(q.is_exec());
    assert_eq!(q.pop(), Some(7));
    assert!(!q.is_exec());
}

#[test]
fn push_on_busy_queue_fills_every_slot() {
    let mut q: FuncStack<u32> = FuncStack::new();
    q.push(1);
    q.push(2);
    assert_eq!(q.pop(), Some(1));
    for _ in 0..255 {
        assert_eq!(q.pop(), Some(2));
    }
    assert_eq!(q.pop(), None);
}

#[test]
fn queue_holds_function_pointers() {
    let mut q: FuncStack<fn()> = FuncStack::new();
    q.push(job_a as fn());
    let f = q.pop().unwrap();
    f();
    assert!(!q.is_exec());
    let _ = job_b;
}

#[test]
fn func_entries() {
    let _e: FuncEntry<u8> = FuncEntry::null();
    let _f: FuncEntry<u8> = FuncEntry::new(3);
}

#[test]
fn push_would_fault_only_on_busy_queue_with_empty_first_slot() {
    let mut q: FuncStack<u32> = FuncStack::new();
    assert!(!q.push_would_fault());
    q.push(1);
    assert!(!q.push_would_fault());
    q.push(2);
    assert_eq!(q.pop(), Some(1));
    assert!(q.push_would_fault());
}

#[test]
fn idle_push_fills_only_slot_zero() {
    let mut q: FuncStack<u32> = FuncStack::new();
    q.push(5);
    assert_eq!(q.pop(), Some(5));
    assert_eq!(q.pop(), None);
    assert!(!q.is_exec());
}

use stock::aio::{Executor, Task};

#[test]
fn new_queue_is_empty() {
    let mut ex = Executor::new();
    assert!(ex.next_task().is_none());
}

#[test]
fn tasks_run_in_fifo_submission_order() {
    let mut ex = Executor::new();
    let n = 10;
    for k in 0..n {
        ex.println(format!("marker-{}", k));
    }
    ex.enqueue(Task::Exit);
    let mut seen: Vec<String> = Vec::new();
    loop {
        match ex.next_task() {
            Some(Task::Println(s)) => seen.push(s),
            Some(Task::Exit) => break,
            None => panic!("queue drained before the exit task"),
        }
    }
    let expected: Vec<String> = (0..n).map(|k| format!("marker-{}", k)).collect();
    assert_eq!(seen, expected);
    assert!(ex.next_task().is_none());
}

#[test]
fn println_enqueues_a_print_task() {
    let mut ex = Executor::new();
    ex.println(String::from("hello"));
    match ex.next_task() {
        Some(Task::Println(s)) => assert_eq!(s, "hello"),
        _ => panic!("expected the print task first"),
    }
}

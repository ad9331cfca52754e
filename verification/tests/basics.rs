use mini_sheet::{fib, Task};

#[test]
fn fib_starts_with_two_ones() {
    assert_eq!(fib(0), 1);
    assert_eq!(fib(1), 1);
}

#[test]
fn fib_adds_the_two_entries_before() {
    assert_eq!(fib(2), 2);
    assert_eq!(fib(3), 3);
    assert_eq!(fib(4), 5);
    assert_eq!(fib(5), 8);
    assert_eq!(fib(10), 89);
    for n in 2..20 {
        assert_eq!(fib(n), fib(n - 1) + fib(n - 2));
    }
}

#[test]
fn fib_of_thirty() {
    assert_eq!(fib(30), 1346269);
}

#[test]
fn new_task_is_open() {
    let task = Task::new(7, "write tests".to_string());
    assert_eq!(task.id, 7);
    assert_eq!(task.description, "write tests");
    assert!(!task.done);
}

#[test]
fn new_task_keeps_an_empty_description() {
    let task = Task::new(0, String::new());
    assert_eq!(task.id, 0);
    assert_eq!(task.description, "");
    assert!(!task.done);
}

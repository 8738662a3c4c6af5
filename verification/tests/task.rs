//! The task client's decisions.

use runops_proxy::runops::{classify_task_logs, poll_delay_seconds, poll_step, PollStep, TaskDisposition};

#[test]
fn empty_logs_mean_no_result() {
    let r = classify_task_logs("Task returned empty logs".to_string(), 1);
    assert_eq!(r, TaskDisposition::Empty);
}

#[test]
fn error_logs_fail_with_the_raw_text() {
    let r = classify_task_logs("ERROR: table missing".to_string(), 1);
    match r {
        TaskDisposition::Fail(e) => assert_eq!(e.message(), "ERROR: table missing"),
        other => panic!("unexpected disposition {:?}", other),
    }
}

#[test]
fn url_logs_are_fetched() {
    let r = classify_task_logs("https://signed.example/logs".to_string(), 1);
    assert_eq!(r, TaskDisposition::Fetch("https://signed.example/logs".to_string()));
}

#[test]
fn running_logs_start_polling() {
    let r = classify_task_logs("Your task is running. Hold on.".to_string(), 42);
    assert_eq!(r, TaskDisposition::Poll(42));
}

#[test]
fn anything_else_is_the_result_itself() {
    let r = classify_task_logs("a\tb\n1\t2\n".to_string(), 1);
    assert_eq!(r, TaskDisposition::Inline("a\tb\n1\t2\n".to_string()));
}

#[test]
fn poll_decisions_follow_the_status() {
    assert_eq!(poll_step(400), PollStep::Wait);
    assert_eq!(poll_step(200), PollStep::Ready);
    assert_eq!(poll_step(500), PollStep::Fail);
    assert_eq!(poll_delay_seconds(), 5);
}

//! Decisions of the task-API client.
//!
//! The client POSTs a script to the remote task service and receives a
//! `task_logs` text and a task id. What happens next depends only on
//! that text: a signed URL is fetched, an empty marker means no result,
//! an `ERROR` prefix is a database error for the client, a still-running
//! marker starts a poll loop, and anything else is itself the result.
//! The HTTP transport and the poll-loop sleeping live outside this
//! crate; they call back into these functions for every decision.

use vstd::prelude::*;

use crate::error::SqlError;
use crate::text::{chars_of, eq_chars, starts_with, starts_with_spec};

verus! {

/// What to do with a task's `task_logs` text.
#[derive(Clone, Debug, PartialEq)]
pub enum TaskDisposition {
    /// Fetch this URL; its body is the result stream.
    Fetch(String),
    /// The task returned no result.
    Empty,
    /// The task failed on the database; report this to the client.
    Fail(SqlError),
    /// The task is still running: poll `/v1/tasks/{id}/logs` for this id.
    Poll(u64),
    /// The text itself is the result stream.
    Inline(String),
}

/// The marker for a task with no output.
pub open spec fn empty_marker() -> Seq<char> {
    "Task returned empty logs"@
}

/// Decide what a task answer means. The checks happen in this order: a
/// `https://` prefix is a URL to fetch; the exact empty marker is no
/// result; an `ERROR` prefix fails with the raw text as the message; a
/// `Your task is running.` prefix starts polling; anything else is the
/// result text itself.
pub fn classify_task_logs(task_logs: String, id: u64) -> (r: TaskDisposition)
    ensures
        ({
            let l = task_logs@;
            if starts_with_spec(l, "https://"@) {
                r matches TaskDisposition::Fetch(u) && u == task_logs
            } else if l == empty_marker() {
                r matches TaskDisposition::Empty
            } else if starts_with_spec(l, "ERROR"@) {
                r matches TaskDisposition::Fail(e) && e.text() == l
            } else if starts_with_spec(l, "Your task is running."@) {
                r matches TaskDisposition::Poll(pid) && pid == id
            } else {
                r matches TaskDisposition::Inline(t) && t == task_logs
            }
        }),
{
    let lv = chars_of(task_logs.as_str());
    let url_prefix = chars_of("https://");
    let empty_text = chars_of("Task returned empty logs");
    let error_prefix = chars_of("ERROR");
    let running_prefix = chars_of("Your task is running.");
    if starts_with(&lv, &url_prefix) {
        TaskDisposition::Fetch(task_logs)
    } else if eq_chars(&lv, &empty_text) {
        TaskDisposition::Empty
    } else if starts_with(&lv, &error_prefix) {
        TaskDisposition::Fail(SqlError::new(task_logs))
    } else if starts_with(&lv, &running_prefix) {
        TaskDisposition::Poll(id)
    } else {
        TaskDisposition::Inline(task_logs)
    }
}

/// What a poll of `/v1/tasks/{id}/logs` should do next, by HTTP status.
#[derive(Clone, Copy, Debug, PartialEq, Eq, Structural)]
pub enum PollStep {
    /// Status 400: not ready, poll again after the delay.
    Wait,
    /// Status 200: the body carries the logs URL to fetch.
    Ready,
    /// Any other status: fail the query.
    Fail,
}

/// Decide a poll round: 400 means wait and retry, 200 means the logs are
/// ready, anything else fails.
pub fn poll_step(status: u16) -> (r: PollStep)
    ensures
        status == 400 ==> r == PollStep::Wait,
        status == 200 ==> r == PollStep::Ready,
        status != 400 && status != 200 ==> r == PollStep::Fail,
{
    if status == 400 {
        PollStep::Wait
    } else if status == 200 {
        PollStep::Ready
    } else {
        PollStep::Fail
    }
}

/// The seconds between two poll rounds.
pub fn poll_delay_seconds() -> (r: u64)
    ensures
        r == 5,
{
    5
}

} // verus!

//! A pomodoro-technique session tracker: tasks with identity and progress
//! counters, a session that enforces the single-ongoing-task rule and the
//! streak/break-length algorithm, a prefix-based task resolver, and a
//! line-oriented codec that persists the whole session across processes.

pub mod context;
pub mod digits;
pub mod errors;
pub mod tasks;
pub mod text;
pub mod time;
pub mod utils;

//! Temporal work accounting for a personal task tracker: time ledgers on
//! tasks, urgency scoring, calendar history and daily capacity planning.
use vstd::prelude::*;

pub mod text;
pub mod input;
pub mod time;
pub mod date_phrase;
pub mod task;
pub mod score;
pub mod history;
pub mod dto;
pub mod plan;
pub mod daily_log;
pub mod stats_view;
pub mod prompt;
pub mod archive;

verus! {

/// A greeting line for the command-line front end.
pub fn greet() -> (r: String)
    ensures
        r@ == "Hello from Todoism Core!"@,
{
    String::from_str("Hello from Todoism Core!")
}

} // verus!
